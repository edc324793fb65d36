use std::collections::HashMap;

use materialization::benchmark::CacheHitBenchmark;
use materialization::collections::NodeSet;
use materialization::config::{Config, FrontierStrategy};
use materialization::error::{ErrorCategory, PlanError};
use materialization::graph::{DataflowGraph, IndexRef, ReplayPath};
use materialization::graphviz::{decimal_string, sanitize, Graphviz};
use materialization::index::{Index, IndexSet, IndexType, LookupIndex};
use materialization::node::{starts_with, Node, NodeKind, Sharding};
use materialization::plan::DomainMigrationPlan;
use materialization::redacted::{RedactedString, Sensitive};
use materialization::state::Materializations;
use materialization::topology::Direction;

fn plain(name: &str, kind: NodeKind, domain: usize, local: u32, description: &str) -> Node {
    Node {
        name: name.to_string(),
        kind,
        domain,
        local_addr: local,
        sharded_by: Sharding::Unsharded,
        purge: false,
        parent_columns: vec![],
        suggested_indexes: vec![],
        description: description.to_string(),
    }
}

fn small_graph() -> DataflowGraph {
    let mut g = DataflowGraph::new();
    g.add_node(plain("source", NodeKind::Source, 0, 0, ""));
    g.add_node(plain("b", NodeKind::Base, 0, 1, "B"));
    g.add_node(plain("e", NodeKind::Egress, 0, 2, "<egress>"));
    g.add_node(plain(
        "r",
        NodeKind::Reader { index: Some(Index::hash_map(vec![0])) },
        1,
        0,
        "reader",
    ));
    g.add_edge(0, 1);
    g.add_edge(1, 2);
    g.add_edge(2, 3);
    g.add_replay_paths(
        1,
        Index::hash_map(vec![0]),
        vec![ReplayPath { segments: vec![IndexRef { node: 1, index: Some(Index::hash_map(vec![0])) }], broken: false }],
    );
    g.add_replay_paths(
        3,
        Index::hash_map(vec![0]),
        vec![ReplayPath {
            segments: vec![
                IndexRef { node: 1, index: Some(Index::hash_map(vec![0])) },
                IndexRef { node: 2, index: Some(Index::hash_map(vec![0])) },
                IndexRef { node: 3, index: Some(Index::hash_map(vec![0])) },
            ],
            broken: false,
        }],
    );
    g
}

#[test]
fn sanitize_escapes_angle_brackets() {
    assert_eq!(sanitize("a<b>c"), "a\\<b\\>c");
    assert_eq!(sanitize("plain"), "plain");
    assert_eq!(sanitize(""), "");
    assert_eq!(sanitize("<<"), "\\<\\<");
}

#[test]
fn decimal_string_writes_digits() {
    assert_eq!(decimal_string(0), "0");
    assert_eq!(decimal_string(7), "7");
    assert_eq!(decimal_string(10), "10");
    assert_eq!(decimal_string(4096), "4096");
    assert_eq!(decimal_string(usize::MAX), usize::MAX.to_string());
}

#[test]
fn plain_drawing_lists_nodes_and_edges() {
    let g = small_graph();
    let m = Materializations::new();
    let drawing = Graphviz {
        graph: &g,
        detailed: false,
        node_sizes: None,
        materializations: &m,
        domain_nodes: None,
        reachable_from: None,
    };
    let expected = "digraph {\n    fontsize=10    graph [ fontsize=24 fontcolor=\"#0C6fA9\", outputorder=edgesfirst ]\nedge [ color=\"#0C6fA9\", style=bold ]\nnode [ color=\"#0C6fA9\", shape=box, style=\"rounded,bold\" ]\n    n0 [label=\"source\"]\n    n1 [label=\"b\"]\n    n2 [label=\"e\"]\n    n3 [label=\"r\"]\n    n0 -> n1 [ style=invis ]\n    n1 -> n2 [  ]\n    n2 -> n3 [ color=\"#CCCCCC\" ]\n}";
    assert_eq!(drawing.render(), expected);
}

#[test]
fn detailed_drawing_groups_by_domain_and_shows_status() {
    let mut g = small_graph();
    let mut new = NodeSet::new();
    new.insert(1);
    new.insert(3);
    let mut m = Materializations::new();
    let dmp = DomainMigrationPlan::new(false);
    assert_eq!(m.extend(&mut g, &new, &dmp), Ok(()));
    let domains = vec![(0usize, vec![0usize, 1, 2]), (1usize, vec![3usize]), (2usize, vec![])];
    let drawing = Graphviz {
        graph: &g,
        detailed: true,
        node_sizes: Some(HashMap::from([(1usize, 42usize)])),
        materializations: &m,
        domain_nodes: Some(&domains),
        reachable_from: Some((1, Direction::Outgoing)),
    };
    let expected = "digraph {\n    fontsize=10    node [shape=record, fontsize=10]\n    subgraph cluster_d0 {\n    label = \"Domain 0\";\n    style=filled;\n    color=grey97;\n        n1 [label=\"b | B | full | size 42\"]\n    n2 [label=\"e | \\<egress\\> | not materialized\"]\n\n    }\n    subgraph cluster_d1 {\n    label = \"Domain 1\";\n    style=filled;\n    color=grey97;\n        n3 [label=\"r | reader | partial\"]\n\n    }\n    n1 -> n2 [  ]\n    n2 -> n3 [ color=\"#CCCCCC\" ]\n}";
    assert_eq!(drawing.render(), expected);
    assert_eq!(drawing.drawn(), vec![false, true, true, true]);
    let upward = Graphviz {
        graph: &g,
        detailed: true,
        node_sizes: None,
        materializations: &m,
        domain_nodes: None,
        reachable_from: Some((2, Direction::Incoming)),
    };
    assert_eq!(upward.drawn(), vec![true, true, true, false]);
}

#[test]
fn redacted_string_hides_its_text() {
    let s = RedactedString::from_str("secret");
    assert_eq!(s.display(false), "secret");
    assert_eq!(s.display(true), "<redacted>");
    assert_eq!(s.debug(false), "\"secret\"");
    assert_eq!(s.debug(true), "<redacted>");
    assert_eq!(s.deref(), "secret");
    let t: RedactedString = String::from("x\"y").into();
    assert_eq!(t.debug(false), "\"x\\\"y\"");
    let back: String = t.clone().into();
    assert_eq!(back, "x\"y");
    assert_eq!(t.into_string(), "x\"y");
    assert!(RedactedString::from_str("a") == RedactedString::from_str("a"));
}

#[test]
fn sensitive_hides_what_it_wraps() {
    let n = 12u32;
    let w = Sensitive(&n);
    assert_eq!(w.display(false), "12");
    assert_eq!(w.display(true), "<redacted>");
    assert_eq!(w.debug(false), "12");
    assert_eq!(w.debug(true), "<redacted>");
    let text = "a b";
    let v = Sensitive(text);
    assert_eq!(v.display(false), "a b");
    assert_eq!(v.debug(false), "\"a b\"");
    assert_eq!(v.debug(true), "<redacted>");
}

#[test]
fn benchmark_names_and_counts() {
    let b = CacheHitBenchmark::default();
    assert_eq!(b.num_cache_hits, 1000);
    assert_eq!(b.num_cache_misses, 1000);
    let b = CacheHitBenchmark { num_cache_hits: 3, num_cache_misses: 5 };
    assert_eq!(b.name(), "cache_hit_benchmark");
    assert_eq!(b.query_count(true), 5);
    assert_eq!(b.query_count(false), 3);
    assert_eq!(b.query_type(true), "misses");
    assert_eq!(b.query_type(false), "hits");
    assert_eq!(b.histogram_name(true), "cache_hit_benchmark.miss_duration");
    assert_eq!(b.histogram_name(false), "cache_hit_benchmark.hit_duration");
}

#[test]
fn config_defaults_and_strategy_names() {
    let c = Config::default();
    assert!(!c.packet_filters_enabled);
    assert!(!c.allow_full_materialization);
    assert!(!c.allow_straddled_joins);
    assert!(c.partial_enabled);
    assert_eq!(c.frontier_strategy, FrontierStrategy::Never);
    assert_eq!(FrontierStrategy::default(), FrontierStrategy::Never);
    assert_eq!(FrontierStrategy::Never.name(), "none");
    assert_eq!(FrontierStrategy::AllPartial.name(), "all-partial");
    assert_eq!(FrontierStrategy::Readers.name(), "readers");
    assert_eq!(Materializations::new().config(), c);
}

#[test]
fn errors_have_categories_and_messages() {
    let e = PlanError::FullMaterializationDisabled { node: 1 };
    assert_eq!(e.category(), ErrorCategory::Unsupported);
    assert_eq!(e.message(), "creation of fully materialized query is disabled");
    let e = PlanError::OverlappingPartialIndices { parent: 1, child: 2 };
    assert_eq!(e.category(), ErrorCategory::Internal);
    assert_eq!(e.message(), "partially overlapping partial indices");
    assert_eq!(PlanError::TagsExhausted.category(), ErrorCategory::Internal);
}

#[test]
fn index_set_keeps_order_and_drops_duplicates() {
    let mut s = IndexSet::new();
    assert!(s.is_empty());
    assert!(s.insert(Index::hash_map(vec![1])));
    assert!(s.insert(Index::btree_map(vec![1])));
    assert!(!s.insert(Index::hash_map(vec![1])));
    assert!(s.insert(Index::hash_map(vec![1, 0])));
    assert_eq!(s.len(), 3);
    assert!(s.contains(&Index::btree_map(vec![1])));
    assert!(!s.contains(&Index::hash_map(vec![0, 1])));
    assert_eq!(s.get(1).index_type, IndexType::BTreeMap);
    assert_eq!(
        s.to_vec(),
        vec![Index::hash_map(vec![1]), Index::btree_map(vec![1]), Index::hash_map(vec![1, 0])]
    );
    assert_eq!(s.duplicate().to_vec(), s.to_vec());
    s.clear();
    assert_eq!(s.len(), 0);
    assert!(Index::new(IndexType::HashMap, vec![2]).same(&Index::hash_map(vec![2])));
    assert!(!Index::hash_map(vec![2]).same(&Index::btree_map(vec![2])));
    let weak = LookupIndex::Weak(Index::hash_map(vec![2]));
    assert!(weak.is_weak());
    assert!(!LookupIndex::Strict(Index::hash_map(vec![2])).is_weak());
    assert!(weak.same(&weak.duplicate()));
    assert!(!weak.same(&LookupIndex::Strict(Index::hash_map(vec![2]))));
    assert_eq!(weak.index(), &Index::hash_map(vec![2]));
    assert_eq!(weak.into_index(), Index::hash_map(vec![2]));
}

#[test]
fn node_set_keeps_each_member_once() {
    let mut s = NodeSet::new();
    assert!(s.insert(4));
    assert!(s.insert(2));
    assert!(!s.insert(4));
    assert_eq!(s.len(), 2);
    assert_eq!(s.get(0), 4);
    assert_eq!(s.get(1), 2);
    assert!(s.contains(2));
    assert!(!s.contains(3));
    s.clear();
    assert_eq!(s.len(), 0);
}

#[test]
fn prefix_is_told_by_characters() {
    assert!(starts_with("FULL_x", "FULL_"));
    assert!(!starts_with("FULL", "FULL_"));
    assert!(!starts_with("xFULL_", "FULL_"));
    assert!(starts_with("", ""));
    assert!(starts_with("\u{e9}t\u{e9}", "\u{e9}"));
    assert!(!starts_with("e", "\u{e9}"));
}

#[test]
fn redundant_duplicates_are_recorded() {
    let mut m = Materializations::new();
    assert_eq!(m.get_redundant(&1), None);
    m.extend_redundant_partial(vec![(1, 5), (2, 6), (1, 7)]);
    assert_eq!(m.get_redundant(&1), Some(&7));
    assert_eq!(m.get_redundant(&2), Some(&6));
    assert_eq!(m.get_redundant(&3), None);
}

#[test]
fn materialized_nodes_leave_readers_out() {
    let mut g = small_graph();
    let mut new = NodeSet::new();
    new.insert(1);
    new.insert(3);
    let mut m = Materializations::new();
    let dmp = DomainMigrationPlan::new(false);
    assert_eq!(m.extend(&mut g, &new, &dmp), Ok(()));
    assert!(m.indexes_for(3).is_some());
    assert_eq!(m.materialized_non_reader_nodes(&g), vec![1]);
}
