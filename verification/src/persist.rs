//! What of the planner's record outlives a restart.
//!
//! The replay paths with their tags, the duplicates of partial nodes, the
//! number of the last tag and the settings are kept; which nodes are
//! materialized, and how, is found again from the graph.

use crate::commit::entries_view;
use crate::committing::{paths_get, record_entries};
use crate::config::Config;
use crate::index::{copy_columns, Index, IndexType, NodeIndex};
use crate::paths::{
    key_view, no_paths, one_tag_per_path, path_key, path_key_of, path_map_pairs, paths_insert,
    recorded_paths, PathKey, PathKeyView,
};
use crate::plan::Tag;
use crate::state::{redundant_extend, Materializations, State};
use vstd::prelude::*;

verus! {

/// A replay path as it is kept: its tag, its index, and its nodes from source to target.
#[derive(Clone, Debug)]
pub struct RecordedPath {
    pub tag: Tag,
    pub index: Index,
    pub nodes: Vec<NodeIndex>,
}

/// What is kept of the planner's record.
#[derive(Clone, Debug)]
pub struct Persisted {
    /// For each node, its replay paths.
    pub paths: Vec<(NodeIndex, Vec<RecordedPath>)>,
    /// Pairs of a partial node and the full node that duplicates it.
    pub redundant_partial: Vec<(NodeIndex, NodeIndex)>,
    /// The number of the tag given out last.
    pub tag_generator: u32,
    pub config: Config,
}

/// The pair under which a kept replay path is recorded.
pub open spec fn recorded_entry(r: RecordedPath) -> (u32, PathKeyView) {
    (r.tag.0, path_key_of(r.index@, r.nodes@))
}

/// The pairs under which the kept replay paths are recorded.
pub open spec fn recorded_entries(v: Seq<RecordedPath>) -> Seq<(u32, PathKeyView)> {
    Seq::new(v.len(), |k: int| recorded_entry(v[k]))
}

/// The replay paths after those listed from position `k` on have been recorded, node by node.
pub open spec fn restore_paths(
    paths: Map<NodeIndex, Map<u32, PathKeyView>>,
    listed: Seq<(NodeIndex, Vec<RecordedPath>)>,
    k: int,
) -> Map<NodeIndex, Map<u32, PathKeyView>>
    decreases listed.len() - k,
{
    if k < 0 || k >= listed.len() {
        paths
    } else {
        restore_paths(
            paths.insert(
                listed[k].0,
                record_entries(
                    paths_get(paths, listed[k].0),
                    recorded_entries(listed[k].1@),
                    0,
                ),
            ),
            listed,
            k + 1,
        )
    }
}

/// The state that is made of what was kept: no node is materialized yet.
pub open spec fn restored(p: Persisted) -> State {
    State {
        paths: restore_paths(Map::empty(), p.paths@, 0),
        redundant_partial: redundant_extend(Map::empty(), p.redundant_partial@),
        tag_generator: p.tag_generator,
        config: p.config,
        ..State::initial()
    }
}

/// The part of a state that is kept.
pub open spec fn kept(s: State) -> State {
    State {
        paths: s.paths,
        redundant_partial: s.redundant_partial,
        tag_generator: s.tag_generator,
        config: s.config,
        ..State::initial()
    }
}

/// From position `k` on, no two pairs have the same tag or the same path,
/// and none has a tag or a path of `m`.
pub open spec fn fresh_entries(m: Map<u32, PathKeyView>, ev: Seq<(u32, PathKeyView)>, k: int)
    -> bool {
    &&& forall|i: int, j: int|
        k <= i < j < ev.len() ==> (#[trigger] ev[i]).0 != (#[trigger] ev[j]).0 && ev[i].1
            != ev[j].1
    &&& forall|i: int| k <= i < ev.len() ==> !m.contains_key((#[trigger] ev[i]).0)
    &&& forall|i: int, t: u32|
        k <= i < ev.len() && m.contains_key(t) ==> #[trigger] m[t] != (#[trigger] ev[i]).1
}

/// Recording pairs that clash with nothing adds exactly those pairs.
pub proof fn lemma_record_fresh(m: Map<u32, PathKeyView>, ev: Seq<(u32, PathKeyView)>, k: int)
    requires
        0 <= k <= ev.len(),
        fresh_entries(m, ev, k),
    ensures
        forall|t: u32| #[trigger]
            record_entries(m, ev, k).contains_key(t) <==> (m.contains_key(t) || exists|i: int|
                k <= i < ev.len() && (#[trigger] ev[i]).0 == t),
        forall|t: u32| m.contains_key(t) ==> #[trigger] record_entries(m, ev, k)[t] == m[t],
        forall|i: int|
            k <= i < ev.len() ==> record_entries(m, ev, k)[(#[trigger] ev[i]).0] == ev[i].1,
    decreases ev.len() - k,
{
    if k < ev.len() {
        let m1 = paths_insert(m, ev[k].0, ev[k].1);
        assert forall|t: u32| m.contains_key(t) implies m1.contains_key(t) && m1[t] == m[t] by {
            assert(m[t] != ev[k].1);
        }
        assert(fresh_entries(m1, ev, k + 1)) by {
            assert forall|i: int| k + 1 <= i < ev.len() implies !m1.contains_key(
                (#[trigger] ev[i]).0,
            ) by {
                assert(ev[k].0 != ev[i].0);
            }
            assert forall|i: int, t: u32|
                k + 1 <= i < ev.len() && m1.contains_key(t) implies #[trigger] m1[t] != (
                #[trigger] ev[i]).1 by {
                if t == ev[k].0 {
                    assert(ev[k].1 != ev[i].1);
                } else {
                    assert(m.contains_key(t));
                    assert(m[t] != ev[i].1);
                }
            }
        }
        lemma_record_fresh(m1, ev, k + 1);
        let r = record_entries(m, ev, k);
        assert(r == record_entries(m1, ev, k + 1));
        assert forall|t: u32| #[trigger]
            r.contains_key(t) <==> (m.contains_key(t) || exists|i: int|
                k <= i < ev.len() && (#[trigger] ev[i]).0 == t) by {
            if r.contains_key(t) {
                if !m1.contains_key(t) {
                    let i = choose|i: int| k + 1 <= i < ev.len() && (#[trigger] ev[i]).0 == t;
                    assert(k <= i < ev.len() && ev[i].0 == t);
                } else if !m.contains_key(t) {
                    assert(t == ev[k].0);
                }
            }
            if exists|i: int| k <= i < ev.len() && (#[trigger] ev[i]).0 == t {
                let i = choose|i: int| k <= i < ev.len() && (#[trigger] ev[i]).0 == t;
                if i == k {
                    assert(m1.contains_key(t));
                } else {
                    assert(k + 1 <= i < ev.len() && ev[i].0 == t);
                }
            }
        }
        assert forall|i: int| k <= i < ev.len() implies r[(#[trigger] ev[i]).0] == ev[i].1 by {
            if i == k {
                assert(m1.contains_key(ev[k].0));
                assert(m1[ev[k].0] == ev[k].1);
            }
        }
    }
}

/// What the listed replay paths of one node stand for.
pub open spec fn listed_paths(v: Vec<RecordedPath>) -> Map<u32, PathKeyView> {
    record_entries(no_paths(), recorded_entries(v@), 0)
}

/// Restoring the listed paths of distinct nodes gives each node its listed paths.
pub proof fn lemma_restore_paths(
    acc: Map<NodeIndex, Map<u32, PathKeyView>>,
    listed: Seq<(NodeIndex, Vec<RecordedPath>)>,
    k: int,
)
    requires
        0 <= k <= listed.len(),
        forall|i: int, j: int|
            k <= i < j < listed.len() ==> (#[trigger] listed[i]).0 != (#[trigger] listed[j]).0,
        forall|i: int| k <= i < listed.len() ==> !acc.contains_key((#[trigger] listed[i]).0),
    ensures
        forall|n: NodeIndex| #[trigger]
            restore_paths(acc, listed, k).contains_key(n) <==> (acc.contains_key(n) || exists|
                i: int,
            |
                k <= i < listed.len() && (#[trigger] listed[i]).0 == n),
        forall|n: NodeIndex|
            acc.contains_key(n) ==> #[trigger] restore_paths(acc, listed, k)[n] == acc[n],
        forall|i: int|
            k <= i < listed.len() ==> restore_paths(acc, listed, k)[(#[trigger] listed[i]).0]
                == listed_paths(listed[i].1),
    decreases listed.len() - k,
{
    if k < listed.len() {
        let n0 = listed[k].0;
        let acc1 = acc.insert(n0, listed_paths(listed[k].1));
        assert(paths_get(acc, n0) == no_paths());
        assert forall|i: int| k + 1 <= i < listed.len() implies !acc1.contains_key(
            (#[trigger] listed[i]).0,
        ) by {
            assert(listed[k].0 != listed[i].0);
        }
        lemma_restore_paths(acc1, listed, k + 1);
        let r = restore_paths(acc, listed, k);
        assert(r == restore_paths(acc1, listed, k + 1));
        assert forall|n: NodeIndex| #[trigger]
            r.contains_key(n) <==> (acc.contains_key(n) || exists|i: int|
                k <= i < listed.len() && (#[trigger] listed[i]).0 == n) by {
            if r.contains_key(n) {
                if !acc1.contains_key(n) {
                    let i = choose|i: int|
                        k + 1 <= i < listed.len() && (#[trigger] listed[i]).0 == n;
                    assert(k <= i < listed.len() && listed[i].0 == n);
                } else if !acc.contains_key(n) {
                    assert(listed[k].0 == n);
                }
            }
            if exists|i: int| k <= i < listed.len() && (#[trigger] listed[i]).0 == n {
                let i = choose|i: int| k <= i < listed.len() && (#[trigger] listed[i]).0 == n;
                if i == k {
                    assert(acc1.contains_key(n));
                } else {
                    assert(k + 1 <= i < listed.len() && listed[i].0 == n);
                }
            }
        }
        assert forall|i: int| k <= i < listed.len() implies r[(#[trigger] listed[i]).0]
            == listed_paths(listed[i].1) by {
            if i == k {
                assert(acc1.contains_key(n0));
            }
        }
    }
}

/// The index of a recorded path.
pub fn index_of_key(key: &PathKey) -> (r: Index)
    ensures
        r@.index_type == (if key.0 {
            IndexType::BTreeMap
        } else {
            IndexType::HashMap
        }),
        r@.columns == key.1@,
{
    let index_type = if key.0 {
        IndexType::BTreeMap
    } else {
        IndexType::HashMap
    };
    Index::new(index_type, copy_columns(&key.1))
}

impl Materializations {
    /// What is to be kept of the record. A record restored from it has the
    /// same replay paths under the same tags, the same duplicates, the same
    /// last tag and the same settings.
    pub fn persisted(&self) -> (r: Persisted)
        requires
            self.wf(),
        ensures
            restored(r) == kept(self@),
    {
        let ghost target = self@.paths;
        let ghost nodes = self.paths.order();
        let mut paths: Vec<(NodeIndex, Vec<RecordedPath>)> = Vec::new();
        let mut i: usize = 0;
        while i < self.paths.len()
            invariant
                i <= nodes.len(),
                self.wf(),
                nodes == self.paths.order(),
                target == self@.paths,
                paths@.len() == i,
                forall|k: int| 0 <= k < i ==> (#[trigger] paths@[k]).0 == nodes[k],
                forall|k: int|
                    0 <= k < i ==> listed_paths((#[trigger] paths@[k]).1) == target[nodes[k]],
            decreases nodes.len() - i,
        {
            let n = self.paths.key_at(i);
            let for_node = self.paths.value_at(i);
            let pairs = path_map_pairs(for_node);
            let ghost m = recorded_paths(*for_node);
            assert(m == target[n]);
            assert(one_tag_per_path(m));
            let mut listed: Vec<RecordedPath> = Vec::new();
            let mut k: usize = 0;
            while k < pairs.len()
                invariant
                    k <= pairs.len(),
                    listed@.len() == k,
                    forall|j: int|
                        0 <= j < k ==> recorded_entry(#[trigger] listed@[j]) == (
                            pairs@[j].0,
                            key_view(pairs@[j].1),
                        ),
                decreases pairs.len() - k,
            {
                let ghost before = listed@;
                let index = index_of_key(&pairs[k].1);
                let nodes_of_path = copy_columns(&pairs[k].1.2);
                listed.push(RecordedPath { tag: Tag(pairs[k].0), index, nodes: nodes_of_path });
                proof {
                    assert forall|j: int| 0 <= j < k + 1 implies recorded_entry(
                        #[trigger] listed@[j],
                    ) == (pairs@[j].0, key_view(pairs@[j].1)) by {
                        if j < k {
                            assert(listed@[j] == before[j]);
                        } else {
                            let key = pairs@[k as int].1;
                            let r = listed@[k as int];
                            assert(r.index@.columns == key.1@);
                            assert((r.index@.index_type == IndexType::BTreeMap) == key.0);
                        }
                    }
                }
                k += 1;
            }
            proof {
                let ev = recorded_entries(listed@);
                assert forall|j: int| 0 <= j < ev.len() implies #[trigger] ev[j] == (
                    pairs@[j].0,
                    key_view(pairs@[j].1),
                ) by {
                    assert(ev[j] == recorded_entry(listed@[j]));
                }
                assert(fresh_entries(no_paths(), ev, 0)) by {
                    assert forall|a: int, b: int| 0 <= a < b < ev.len() implies (#[trigger] ev[a]).0
                        != (#[trigger] ev[b]).0 && ev[a].1 != ev[b].1 by {
                        assert(pairs@[a].0 != pairs@[b].0);
                        assert(m.contains_key(pairs@[a].0) && m[pairs@[a].0] == ev[a].1);
                        assert(m.contains_key(pairs@[b].0) && m[pairs@[b].0] == ev[b].1);
                    }
                }
                lemma_record_fresh(no_paths(), ev, 0);
                let r = record_entries(no_paths(), ev, 0);
                assert forall|t: u32| r.contains_key(t) <==> m.contains_key(t) by {
                    if r.contains_key(t) {
                        let j = choose|j: int| 0 <= j < ev.len() && (#[trigger] ev[j]).0 == t;
                        assert(m.contains_key(pairs@[j].0));
                    }
                    if m.contains_key(t) {
                        let j = choose|j: int| 0 <= j < pairs@.len() && (#[trigger] pairs@[j]).0 == t;
                        assert(ev[j].0 == t);
                    }
                }
                assert forall|t: u32| r.contains_key(t) implies r[t] == m[t] by {
                    let j = choose|j: int| 0 <= j < ev.len() && (#[trigger] ev[j]).0 == t;
                    assert(r[ev[j].0] == ev[j].1);
                    assert(m[pairs@[j].0] == key_view(pairs@[j].1));
                }
                assert(r =~= m);
            }
            let ghost prev = paths@;
            paths.push((n, listed));
            proof {
                assert forall|k: int| 0 <= k < i + 1 implies (#[trigger] paths@[k]).0
                    == nodes[k] && listed_paths(paths@[k].1) == target[nodes[k]] by {
                    if k < i {
                        assert(paths@[k] == prev[k]);
                    }
                }
            }
            i += 1;
        }
        let ghost keys = self.redundant_partial.order();
        let mut redundant: Vec<(NodeIndex, NodeIndex)> = Vec::new();
        let mut j: usize = 0;
        assert(redundant_extend(Map::empty(), redundant@) =~= Map::new(
            |k: NodeIndex| keys.take(0).contains(k),
            |k: NodeIndex| self.redundant_partial@[k],
        ));
        while j < self.redundant_partial.len()
            invariant
                j <= keys.len(),
                self.wf(),
                keys == self.redundant_partial.order(),
                redundant_extend(Map::empty(), redundant@) == Map::new(
                    |k: NodeIndex| keys.take(j as int).contains(k),
                    |k: NodeIndex| self.redundant_partial@[k],
                ),
            decreases keys.len() - j,
        {
            let k = self.redundant_partial.key_at(j);
            let v = *self.redundant_partial.value_at(j);
            let ghost before = redundant@;
            redundant.push((k, v));
            proof {
                crate::collections::lemma_take_next(keys, j as int);
                assert(redundant@.drop_last() =~= before);
                assert(redundant_extend(Map::empty(), redundant@) =~= Map::new(
                    |q: NodeIndex| keys.take(j + 1).contains(q),
                    |q: NodeIndex| self.redundant_partial@[q],
                ));
            }
            j += 1;
        }
        let r = Persisted {
            paths,
            redundant_partial: redundant,
            tag_generator: self.tag_generator,
            config: self.config,
        };
        proof {
            assert(keys.take(keys.len() as int) =~= keys);
            assert(redundant_extend(Map::empty(), r.redundant_partial@)
                =~= self.redundant_partial@) by {
                assert forall|q: NodeIndex| keys.contains(q) <==> self.redundant_partial@.contains_key(
                    q,
                ) by {
                    assert(keys.to_set().contains(q) <==> self.redundant_partial@.dom().contains(q));
                }
            }
            let listed = r.paths@;
            assert forall|a: int, b: int| 0 <= a < b < listed.len() implies (#[trigger] listed[a]).0
                != (#[trigger] listed[b]).0 by {
                assert(nodes[a] != nodes[b]);
            }
            lemma_restore_paths(Map::empty(), listed, 0);
            let back = restore_paths(Map::empty(), listed, 0);
            assert forall|n: NodeIndex| back.contains_key(n) <==> target.contains_key(n) by {
                if back.contains_key(n) {
                    let a = choose|a: int| 0 <= a < listed.len() && (#[trigger] listed[a]).0 == n;
                    assert(nodes[a] == n);
                    assert(nodes.to_set().contains(n));
                }
                if target.contains_key(n) {
                    assert(nodes.to_set().contains(n));
                    let a = choose|a: int| 0 <= a < nodes.len() && nodes[a] == n;
                    assert(listed[a].0 == n);
                }
            }
            assert forall|n: NodeIndex| back.contains_key(n) implies back[n] == target[n] by {
                let a = choose|a: int| 0 <= a < listed.len() && (#[trigger] listed[a]).0 == n;
                assert(back[listed[a].0] == listed_paths(listed[a].1));
                assert(listed_paths(listed[a].1) == target[nodes[a]]);
            }
            assert(back =~= target);
        }
        r
    }

    /// A record made of what was kept: with the replay paths, duplicates,
    /// last tag and settings that were kept, and with no node materialized.
    pub fn restore(p: &Persisted) -> (r: Materializations)
        ensures
            r.wf(),
            r@ == restored(*p),
    {
        let mut m = Materializations::new();
        let ghost s0 = m@;
        assert(s0.paths =~= Map::empty());
        let mut i: usize = 0;
        while i < p.paths.len()
            invariant
                i <= p.paths.len(),
                m.wf(),
                m@ == (State { paths: m@.paths, ..s0 }),
                restore_paths(Map::empty(), p.paths@, 0) == restore_paths(
                    m@.paths,
                    p.paths@,
                    i as int,
                ),
            decreases p.paths.len() - i,
        {
            let listed = &p.paths[i].1;
            let mut entries: Vec<(u32, PathKey)> = Vec::new();
            let mut k: usize = 0;
            while k < listed.len()
                invariant
                    k <= listed.len(),
                    entries@.len() == k,
                    entries_view(entries@) == recorded_entries(listed@).take(k as int),
                decreases listed.len() - k,
            {
                let ghost before = entries@;
                entries.push((listed[k].tag.0, path_key(&listed[k].index, &listed[k].nodes)));
                proof {
                    assert forall|j: int| 0 <= j < k + 1 implies entries_view(entries@)[j]
                        == recorded_entries(listed@)[j] by {
                        if j < k {
                            assert(entries_view(before)[j] == recorded_entries(listed@).take(
                                k as int,
                            )[j]);
                            assert(entries@[j] == before[j]);
                        }
                    }
                    assert(entries_view(entries@) =~= recorded_entries(listed@).take(k + 1));
                }
                k += 1;
            }
            assert(recorded_entries(listed@).take(listed.len() as int) =~= recorded_entries(
                listed@,
            ));
            m.record_paths(p.paths[i].0, &entries);
            i += 1;
        }
        let mut pairs: Vec<(NodeIndex, NodeIndex)> = Vec::new();
        let mut j: usize = 0;
        while j < p.redundant_partial.len()
            invariant
                j <= p.redundant_partial.len(),
                pairs@ == p.redundant_partial@.take(j as int),
            decreases p.redundant_partial.len() - j,
        {
            pairs.push(p.redundant_partial[j]);
            assert(pairs@ =~= p.redundant_partial@.take(j + 1));
            j += 1;
        }
        assert(p.redundant_partial@.take(p.redundant_partial.len() as int)
            =~= p.redundant_partial@);
        m.extend_redundant_partial(pairs);
        m.tag_generator = p.tag_generator;
        m.set_config(p.config);
        assert(State::initial().redundant_partial =~= Map::empty());
        m
    }
}

} // verus!
