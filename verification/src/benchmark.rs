//! A benchmark that measures how long one query takes when the cache
//! answers it and when it does not.
//!
//! Here stand the numbers and names of the benchmark; connecting to the
//! database and timing the queries is left to the program that runs it.

use vstd::prelude::*;
use vstd::string::StringExecFns;

verus! {

/// How often the query is run for each of the two measurements.
#[derive(Clone, Copy, Debug, PartialEq, Eq, Structural)]
pub struct CacheHitBenchmark {
    /// The number of queries that the cache answers.
    pub num_cache_hits: u32,
    /// The number of queries that the cache does not answer.
    pub num_cache_misses: u32,
}

impl Default for CacheHitBenchmark {
    fn default() -> (r: CacheHitBenchmark)
        ensures
            r == (CacheHitBenchmark { num_cache_hits: 1000, num_cache_misses: 1000 }),
    {
        CacheHitBenchmark { num_cache_hits: 1000, num_cache_misses: 1000 }
    }
}

impl CacheHitBenchmark {
    /// The name of the benchmark.
    pub open spec fn spec_name() -> Seq<char> {
        "cache_hit_benchmark"@
    }

    /// The name under which the results of one measurement are kept.
    pub open spec fn spec_query_type(cache_miss: bool) -> Seq<char> {
        if cache_miss {
            "misses"@
        } else {
            "hits"@
        }
    }

    /// The name of the histogram of one measurement.
    pub open spec fn spec_histogram_name(cache_miss: bool) -> Seq<char> {
        if cache_miss {
            "cache_hit_benchmark.miss_duration"@
        } else {
            "cache_hit_benchmark.hit_duration"@
        }
    }

    /// The name of the benchmark.
    pub fn name(&self) -> (r: String)
        ensures
            r@ == Self::spec_name(),
    {
        String::from_str("cache_hit_benchmark")
    }

    /// The number of queries to run for one measurement.
    pub fn query_count(&self, cache_miss: bool) -> (r: u32)
        ensures
            r == if cache_miss {
                self.num_cache_misses
            } else {
                self.num_cache_hits
            },
    {
        if cache_miss {
            self.num_cache_misses
        } else {
            self.num_cache_hits
        }
    }

    /// The name under which the results of one measurement are kept.
    pub fn query_type(&self, cache_miss: bool) -> (r: String)
        ensures
            r@ == Self::spec_query_type(cache_miss),
    {
        if cache_miss {
            String::from_str("misses")
        } else {
            String::from_str("hits")
        }
    }

    /// The name of the histogram of one measurement.
    pub fn histogram_name(&self, cache_miss: bool) -> (r: String)
        ensures
            r@ == Self::spec_histogram_name(cache_miss),
    {
        if cache_miss {
            String::from_str("cache_hit_benchmark.miss_duration")
        } else {
            String::from_str("cache_hit_benchmark.hit_duration")
        }
    }
}

} // verus!
