use materialization::collections::NodeSet;
use materialization::config::{Config, FrontierStrategy};
use materialization::error::{ErrorCategory, InvalidEdge, PlanError};
use materialization::graph::{DataflowGraph, IndexRef, ReplayPath};
use materialization::index::{Index, LookupIndex};
use materialization::node::{Node, NodeKind, Sharding};
use materialization::plan::{DomainMigrationPlan, DomainRequest, MaterializationStatus, Tag};
use materialization::state::Materializations;

fn node(name: &str, kind: NodeKind, local: u32) -> Node {
    Node {
        name: name.to_string(),
        kind,
        domain: 0,
        local_addr: local,
        sharded_by: Sharding::Unsharded,
        purge: false,
        parent_columns: vec![],
        suggested_indexes: vec![],
        description: String::new(),
    }
}

fn internal(name: &str, local: u32, query_through: bool) -> Node {
    node(
        name,
        NodeKind::Internal {
            can_query_through: query_through,
            requires_full_materialization: false,
            shard_merger: false,
        },
        local,
    )
}

fn reader(name: &str, local: u32, key: Vec<usize>) -> Node {
    node(name, NodeKind::Reader { index: Some(Index::hash_map(key)) }, local)
}

fn seg(node: usize, columns: Vec<usize>) -> IndexRef {
    IndexRef { node, index: Some(Index::hash_map(columns)) }
}

fn path(segments: Vec<IndexRef>) -> ReplayPath {
    ReplayPath { segments, broken: false }
}

fn set_of(nodes: &[usize]) -> NodeSet {
    let mut s = NodeSet::new();
    for n in nodes {
        s.insert(*n);
    }
    s
}

fn indexes(m: &Materializations, n: usize) -> Option<Vec<Index>> {
    m.indexes_for(n).map(|s| s.to_vec())
}

/// Source (0) above a base table (1) above a reader keyed on column 0 (2).
fn base_and_reader() -> DataflowGraph {
    let mut g = DataflowGraph::new();
    g.add_node(node("source", NodeKind::Source, 0));
    g.add_node(node("b", NodeKind::Base, 1));
    g.add_node(reader("r", 2, vec![0]));
    assert!(g.add_edge(0, 1));
    assert!(g.add_edge(1, 2));
    assert!(g.add_replay_paths(1, Index::hash_map(vec![0]), vec![path(vec![seg(1, vec![0])])]));
    assert!(g.add_replay_paths(
        2,
        Index::hash_map(vec![0]),
        vec![path(vec![seg(1, vec![0]), seg(2, vec![0])])]
    ));
    g
}

#[test]
fn base_and_keyed_reader_are_planned() {
    let mut g = base_and_reader();
    let new = set_of(&[1, 2]);
    let mut m = Materializations::new();
    let mut dmp = DomainMigrationPlan::new(false);
    assert_eq!(m.extend(&mut g, &new, &dmp), Ok(()));
    assert_eq!(indexes(&m, 1), Some(vec![Index::hash_map(vec![0])]));
    assert_eq!(indexes(&m, 2), Some(vec![Index::hash_map(vec![0])]));
    assert!(!m.is_partial(1));
    assert!(m.is_partial(2));
    assert_eq!(m.validate(&g, &new), Ok(None));
    assert_eq!(m.commit(&g, &new, &mut dmp), Ok(()));
    assert_eq!(indexes(&m, 1), Some(vec![Index::hash_map(vec![0])]));
    assert_eq!(indexes(&m, 2), Some(vec![Index::hash_map(vec![0])]));
    assert!(m.is_partial(2));

    assert_eq!(dmp.len(), 6);
    match &dmp.get(0).1 {
        DomainRequest::Ready { node, purge, index } => {
            assert_eq!(*node, 1);
            assert!(!*purge);
            assert_eq!(index, &vec![LookupIndex::Strict(Index::hash_map(vec![0]))]);
        }
        other => panic!("unexpected request {:?}", other),
    }
    assert!(matches!(dmp.get(1).1, DomainRequest::IsReady { node: 1 }));
    match &dmp.get(2).1 {
        DomainRequest::StartReplay { tag, from, replicas, targeting_domain } => {
            assert_eq!(*tag, Tag(1));
            assert_eq!(*from, 1);
            assert_eq!(*replicas, None);
            assert_eq!(*targeting_domain, 0);
        }
        other => panic!("unexpected request {:?}", other),
    }
    assert!(matches!(dmp.get(3).1, DomainRequest::QueryReplayDone { node: 2 }));
    match &dmp.get(4).1 {
        DomainRequest::Ready { node, index, .. } => {
            assert_eq!(*node, 2);
            assert!(index.is_empty());
        }
        other => panic!("unexpected request {:?}", other),
    }
    assert!(matches!(dmp.get(5).1, DomainRequest::IsReady { node: 2 }));
    assert_eq!(m.partial_tags(), vec![(2, Tag(1))]);
}

#[test]
fn lookup_is_hoisted_through_query_through_filter() {
    let mut g = DataflowGraph::new();
    g.add_node(node("source", NodeKind::Source, 0));
    g.add_node(node("b", NodeKind::Base, 1));
    let mut f = internal("f", 2, true);
    f.parent_columns = vec![vec![(1, Some(0))]];
    f.suggested_indexes = vec![(2, LookupIndex::Strict(Index::hash_map(vec![0])))];
    g.add_node(f);
    g.add_node(reader("r", 3, vec![0]));
    g.add_edge(0, 1);
    g.add_edge(1, 2);
    g.add_edge(2, 3);
    g.add_replay_paths(1, Index::hash_map(vec![0]), vec![path(vec![seg(1, vec![0])])]);
    g.add_replay_paths(
        3,
        Index::hash_map(vec![0]),
        vec![path(vec![seg(1, vec![0]), seg(2, vec![0]), seg(3, vec![0])])],
    );
    let new = set_of(&[1, 2, 3]);
    let mut m = Materializations::new();
    let mut dmp = DomainMigrationPlan::new(false);
    assert_eq!(m.extend(&mut g, &new, &dmp), Ok(()));
    assert_eq!(indexes(&m, 1), Some(vec![Index::hash_map(vec![0])]));
    assert_eq!(indexes(&m, 2), None);
    assert!(m.is_partial(3));
    assert_eq!(m.get_status(2, g.node(2)), MaterializationStatus::Not);
    assert_eq!(m.commit(&g, &new, &mut dmp), Ok(()));
    let mut sources = vec![];
    for i in 0..dmp.len() {
        if let DomainRequest::StartReplay { from, .. } = &dmp.get(i).1 {
            sources.push(*from);
        }
    }
    assert_eq!(sources, vec![1]);
}

#[test]
fn two_readers_share_a_parent() {
    let mut g = DataflowGraph::new();
    g.add_node(node("source", NodeKind::Source, 0));
    g.add_node(node("b", NodeKind::Base, 1));
    g.add_node(reader("r0", 2, vec![0]));
    g.add_node(reader("r1", 3, vec![1]));
    g.add_edge(0, 1);
    g.add_edge(1, 2);
    g.add_edge(1, 3);
    g.add_replay_paths(1, Index::hash_map(vec![0]), vec![path(vec![seg(1, vec![0])])]);
    g.add_replay_paths(1, Index::hash_map(vec![1]), vec![path(vec![seg(1, vec![1])])]);
    g.add_replay_paths(
        2,
        Index::hash_map(vec![0]),
        vec![path(vec![seg(1, vec![0]), seg(2, vec![0])])],
    );
    g.add_replay_paths(
        3,
        Index::hash_map(vec![1]),
        vec![path(vec![seg(1, vec![1]), seg(3, vec![1])])],
    );
    let new = set_of(&[1, 2, 3]);
    let mut m = Materializations::new();
    let mut dmp = DomainMigrationPlan::new(false);
    assert_eq!(m.extend(&mut g, &new, &dmp), Ok(()));
    assert!(m.is_partial(2));
    assert!(m.is_partial(3));
    let parent = indexes(&m, 1).unwrap();
    assert_eq!(parent.len(), 2);
    assert!(parent.contains(&Index::hash_map(vec![0])));
    assert!(parent.contains(&Index::hash_map(vec![1])));
    assert_eq!(m.validate(&g, &new), Ok(None));
    assert_eq!(m.commit(&g, &new, &mut dmp), Ok(()));
    let mut tags = m.partial_tags();
    tags.sort_by_key(|(n, _)| *n);
    assert_eq!(tags.len(), 2);
    assert_eq!(tags[0].0, 2);
    assert_eq!(tags[1].0, 3);
    assert_ne!(tags[0].1, tags[1].1);
}

fn full_below_candidate() -> DataflowGraph {
    let mut g = DataflowGraph::new();
    g.add_node(node("source", NodeKind::Source, 0));
    g.add_node(node("b", NodeKind::Base, 1));
    let mut n = internal("n", 2, false);
    n.suggested_indexes = vec![(2, LookupIndex::Strict(Index::hash_map(vec![0])))];
    g.add_node(n);
    g.add_node(internal("FULL_X", 3, false));
    g.add_edge(0, 1);
    g.add_edge(1, 2);
    g.add_edge(2, 3);
    g.add_replay_paths(1, Index::hash_map(vec![0]), vec![path(vec![seg(1, vec![0])])]);
    g.add_replay_paths(
        2,
        Index::hash_map(vec![0]),
        vec![path(vec![seg(1, vec![0]), seg(2, vec![0])])],
    );
    g
}

#[test]
fn full_prefix_below_forces_full_and_is_refused() {
    let mut g = full_below_candidate();
    let new = set_of(&[1, 2, 3]);
    let mut m = Materializations::new();
    let dmp = DomainMigrationPlan::new(false);
    let r = m.extend(&mut g, &new, &dmp);
    assert_eq!(r, Err(PlanError::FullMaterializationDisabled { node: 2 }));
    assert_eq!(r.unwrap_err().category(), ErrorCategory::Unsupported);
}

#[test]
fn full_prefix_below_forces_full_where_allowed() {
    let mut g = full_below_candidate();
    let new = set_of(&[1, 2, 3]);
    let mut m = Materializations::new();
    let mut config = Config::default();
    config.allow_full_materialization = true;
    m.set_config(config);
    let dmp = DomainMigrationPlan::new(false);
    assert_eq!(m.extend(&mut g, &new, &dmp), Ok(()));
    assert!(!m.is_partial(2));
    assert_eq!(indexes(&m, 2), Some(vec![Index::hash_map(vec![0])]));
    assert_eq!(m.get_status(2, g.node(2)), MaterializationStatus::Full);
}

#[test]
fn shallow_prefix_places_partial_node_beyond_frontier() {
    let mut g = DataflowGraph::new();
    g.add_node(node("source", NodeKind::Source, 0));
    g.add_node(node("b", NodeKind::Base, 1));
    g.add_node(reader("SHALLOW_Y", 2, vec![0]));
    g.add_edge(0, 1);
    g.add_edge(1, 2);
    g.add_replay_paths(1, Index::hash_map(vec![0]), vec![path(vec![seg(1, vec![0])])]);
    g.add_replay_paths(
        2,
        Index::hash_map(vec![0]),
        vec![path(vec![seg(1, vec![0]), seg(2, vec![0])])],
    );
    let new = set_of(&[1, 2]);
    let mut m = Materializations::new();
    assert_eq!(m.config().frontier_strategy, FrontierStrategy::Never);
    let dmp = DomainMigrationPlan::new(false);
    assert_eq!(m.extend(&mut g, &new, &dmp), Ok(()));
    assert!(m.is_partial(2));
    assert!(g.node(2).purge);
    assert!(!g.node(1).purge);
    assert_eq!(
        m.get_status(2, g.node(2)),
        MaterializationStatus::Partial { beyond_materialization_frontier: true }
    );
}

#[test]
fn frontier_strategies_mark_partial_nodes() {
    for (strategy, expected) in [
        (FrontierStrategy::Never, false),
        (FrontierStrategy::AllPartial, true),
        (FrontierStrategy::Readers, true),
    ] {
        let mut g = base_and_reader();
        let new = set_of(&[1, 2]);
        let mut m = Materializations::new();
        let mut config = Config::default();
        config.frontier_strategy = strategy;
        m.set_config(config);
        let dmp = DomainMigrationPlan::new(false);
        assert_eq!(m.extend(&mut g, &new, &dmp), Ok(()));
        assert_eq!(g.node(2).purge, expected);
        assert!(!g.node(1).purge);
    }
}

#[test]
fn weak_index_is_paired_with_strict_index() {
    let mut g = DataflowGraph::new();
    g.add_node(node("source", NodeKind::Source, 0));
    g.add_node(node("b", NodeKind::Base, 1));
    let mut n = internal("n", 2, false);
    n.suggested_indexes = vec![(2, LookupIndex::Weak(Index::hash_map(vec![2])))];
    g.add_node(n);
    g.add_edge(0, 1);
    g.add_edge(1, 2);
    g.add_replay_paths(1, Index::hash_map(vec![0]), vec![path(vec![seg(1, vec![0])])]);
    g.add_replay_paths(1, Index::hash_map(vec![2]), vec![path(vec![seg(1, vec![2])])]);
    g.add_replay_paths(
        2,
        Index::hash_map(vec![2]),
        vec![path(vec![seg(1, vec![2]), seg(2, vec![2])])],
    );
    let new = set_of(&[1, 2]);
    let mut m = Materializations::new();
    let mut dmp = DomainMigrationPlan::new(false);
    assert_eq!(m.extend(&mut g, &new, &dmp), Ok(()));
    assert_eq!(indexes(&m, 2), Some(vec![Index::hash_map(vec![2])]));
    assert_eq!(m.weak_indexes_for(2).map(|s| s.to_vec()), Some(vec![Index::hash_map(vec![2])]));
    assert!(m.is_partial(2));
    assert_eq!(m.commit(&g, &new, &mut dmp), Ok(()));
    assert_eq!(indexes(&m, 2), Some(vec![Index::hash_map(vec![2])]));
    assert!(m.weak_indexes_for(2).is_none());
}

#[test]
fn extend_twice_gives_the_same_decisions() {
    let mut g = base_and_reader();
    let new = set_of(&[1, 2]);
    let mut m = Materializations::new();
    let dmp = DomainMigrationPlan::new(false);
    assert_eq!(m.extend(&mut g, &new, &dmp), Ok(()));
    let have_b = indexes(&m, 1);
    let have_r = indexes(&m, 2);
    assert_eq!(m.extend(&mut g, &new, &dmp), Ok(()));
    assert_eq!(indexes(&m, 1), have_b);
    assert_eq!(indexes(&m, 2), have_r);
    assert!(!m.is_partial(1));
    assert!(m.is_partial(2));
}

#[test]
fn commit_of_nothing_changes_nothing() {
    let mut g = base_and_reader();
    let new = set_of(&[1, 2]);
    let mut m = Materializations::new();
    let mut dmp = DomainMigrationPlan::new(false);
    assert_eq!(m.extend(&mut g, &new, &dmp), Ok(()));
    assert_eq!(m.commit(&g, &new, &mut dmp), Ok(()));
    let before = dmp.len();
    let tags = m.partial_tags();
    assert_eq!(m.commit(&g, &NodeSet::new(), &mut dmp), Ok(()));
    assert_eq!(dmp.len(), before);
    assert_eq!(m.partial_tags(), tags);
    assert_eq!(indexes(&m, 1), Some(vec![Index::hash_map(vec![0])]));
    assert!(m.is_partial(2));
}

#[test]
fn recorded_path_keeps_its_tag() {
    let mut g = base_and_reader();
    let new = set_of(&[1, 2]);
    let mut m = Materializations::new();
    let mut dmp = DomainMigrationPlan::new(false);
    assert_eq!(m.extend(&mut g, &new, &dmp), Ok(()));
    assert_eq!(m.commit(&g, &new, &mut dmp), Ok(()));
    let p = path(vec![seg(1, vec![0]), seg(2, vec![0])]);
    let index = Index::hash_map(vec![0]);
    assert_eq!(m.tag_for_path(&index, &p), Ok(Tag(1)));
    assert_eq!(m.tag_for_path(&index, &p), Ok(Tag(1)));
    let other = path(vec![seg(1, vec![1]), seg(2, vec![1])]);
    assert_eq!(m.tag_for_path(&Index::hash_map(vec![1]), &other), Ok(Tag(2)));
    assert_eq!(m.tag_for_path(&Index::hash_map(vec![1]), &other), Ok(Tag(3)));
    assert_eq!(m.tag_for_path(&Index::btree_map(vec![0]), &p), Ok(Tag(4)));
}

#[test]
fn status_is_not_only_without_state() {
    let m = Materializations::new();
    let plain = internal("n", 0, false);
    let keyed = reader("r", 1, vec![0]);
    let streaming = node("s", NodeKind::Reader { index: None }, 2);
    assert_eq!(m.get_status(0, &plain), MaterializationStatus::Not);
    assert_eq!(m.get_status(1, &keyed), MaterializationStatus::Full);
    assert_eq!(m.get_status(2, &streaming), MaterializationStatus::Not);
}

#[test]
fn full_node_below_partial_node_is_reported() {
    let mut g = DataflowGraph::new();
    g.add_node(node("source", NodeKind::Source, 0));
    g.add_node(node("b", NodeKind::Base, 1));
    let mut p = internal("p", 2, false);
    p.suggested_indexes = vec![(2, LookupIndex::Strict(Index::hash_map(vec![0])))];
    g.add_node(p);
    g.add_edge(0, 1);
    g.add_edge(1, 2);
    g.add_replay_paths(1, Index::hash_map(vec![0]), vec![path(vec![seg(1, vec![0])])]);
    g.add_replay_paths(
        2,
        Index::hash_map(vec![0]),
        vec![path(vec![seg(1, vec![0]), seg(2, vec![0])])],
    );
    let mut m = Materializations::new();
    let mut config = Config::default();
    config.allow_full_materialization = true;
    m.set_config(config);
    let mut dmp = DomainMigrationPlan::new(false);
    let first = set_of(&[1, 2]);
    assert_eq!(m.extend(&mut g, &first, &dmp), Ok(()));
    assert!(m.is_partial(2));
    assert_eq!(m.validate(&g, &first), Ok(None));
    assert_eq!(m.commit(&g, &first, &mut dmp), Ok(()));

    let mut c = node(
        "c",
        NodeKind::Internal {
            can_query_through: false,
            requires_full_materialization: true,
            shard_merger: false,
        },
        3,
    );
    c.suggested_indexes = vec![(3, LookupIndex::Strict(Index::hash_map(vec![0])))];
    let ci = g.add_node(c);
    assert_eq!(ci, 3);
    g.add_edge(2, 3);
    g.add_replay_paths(
        3,
        Index::hash_map(vec![0]),
        vec![path(vec![seg(2, vec![0]), seg(3, vec![0])])],
    );
    let second = set_of(&[3]);
    assert_eq!(m.extend(&mut g, &second, &dmp), Ok(()));
    assert!(!m.is_partial(3));
    assert_eq!(m.validate(&g, &second), Ok(Some(InvalidEdge { parent: 2, child: 3 })));
}

#[test]
fn unknown_new_node_is_refused() {
    let mut g = base_and_reader();
    let new = set_of(&[7]);
    let mut m = Materializations::new();
    let dmp = DomainMigrationPlan::new(false);
    assert_eq!(m.extend(&mut g, &new, &dmp), Err(PlanError::UnknownNode { node: 7 }));
}

#[test]
fn missing_replay_paths_are_an_error() {
    let mut g = DataflowGraph::new();
    g.add_node(node("source", NodeKind::Source, 0));
    g.add_node(node("b", NodeKind::Base, 1));
    g.add_edge(0, 1);
    let new = set_of(&[1]);
    let mut m = Materializations::new();
    let dmp = DomainMigrationPlan::new(false);
    let r = m.extend(&mut g, &new, &dmp);
    assert_eq!(r, Err(PlanError::PathsUnavailable { node: 1 }));
    assert_eq!(r.unwrap_err().category(), ErrorCategory::Internal);
}

#[test]
fn query_through_node_with_two_parents_is_an_error() {
    let mut g = DataflowGraph::new();
    g.add_node(node("source", NodeKind::Source, 0));
    g.add_node(internal("a", 1, false));
    g.add_node(internal("b", 2, false));
    let mut f = internal("f", 3, true);
    f.parent_columns = vec![vec![(1, Some(0)), (2, Some(0))]];
    f.suggested_indexes = vec![(3, LookupIndex::Strict(Index::hash_map(vec![0])))];
    g.add_node(f);
    g.add_edge(0, 1);
    g.add_edge(0, 2);
    g.add_edge(1, 3);
    g.add_edge(2, 3);
    let new = set_of(&[3]);
    let mut m = Materializations::new();
    let dmp = DomainMigrationPlan::new(false);
    assert_eq!(m.extend(&mut g, &new, &dmp), Err(PlanError::QueryThroughFanIn { node: 3 }));
}

#[test]
fn unresolved_column_is_an_error() {
    let mut g = DataflowGraph::new();
    g.add_node(node("source", NodeKind::Source, 0));
    g.add_node(node("b", NodeKind::Base, 1));
    let mut f = internal("f", 2, true);
    f.parent_columns = vec![vec![(1, Some(0))], vec![(1, None)]];
    f.suggested_indexes = vec![(2, LookupIndex::Strict(Index::hash_map(vec![1])))];
    g.add_node(f);
    g.add_edge(0, 1);
    g.add_edge(1, 2);
    let new = set_of(&[2]);
    let mut m = Materializations::new();
    let dmp = DomainMigrationPlan::new(false);
    assert_eq!(
        m.extend(&mut g, &new, &dmp),
        Err(PlanError::UnresolvedObligation { node: 2, ancestor: 1, column: 1 })
    );
}

#[test]
fn neighbours_come_most_recent_edge_first() {
    let mut g = DataflowGraph::new();
    for i in 0..4 {
        g.add_node(internal("n", i, false));
    }
    assert!(g.add_edge(0, 1));
    assert!(g.add_edge(0, 2));
    assert!(g.add_edge(3, 2));
    assert!(!g.add_edge(0, 9));
    assert_eq!(g.children(0), vec![2, 1]);
    assert_eq!(g.parents(2), vec![3, 0]);
    assert_eq!(g.children(9), Vec::<usize>::new());
    assert_eq!(g.edges(), vec![(0, 1), (0, 2), (3, 2)]);
    assert_eq!(g.node_count(), 4);
    let order = g.topological_order();
    assert_eq!(order.len(), 4);
    let pos = |n: usize| order.iter().position(|x| *x == n).unwrap();
    assert!(pos(0) < pos(1));
    assert!(pos(0) < pos(2));
    assert!(pos(3) < pos(2));
}

#[test]
fn purge_above_non_purge_is_an_error() {
    let mut g = base_and_reader();
    let new = set_of(&[1, 2]);
    let mut m = Materializations::new();
    let dmp = DomainMigrationPlan::new(false);
    assert_eq!(m.extend(&mut g, &new, &dmp), Ok(()));
    g.set_purge(1, true);
    assert_eq!(m.validate(&g, &new), Err(PlanError::PurgeAboveNonPurge { node: 1 }));
}

#[test]
fn aliased_sharding_column_is_an_error() {
    let mut g = DataflowGraph::new();
    g.add_node(node("source", NodeKind::Source, 0));
    g.add_node(node("b", NodeKind::Base, 1));
    let mut j = internal("j", 2, false);
    j.sharded_by = Sharding::ByColumn(0, 2);
    g.add_node(j);
    let mut merger = node(
        "m",
        NodeKind::Internal {
            can_query_through: false,
            requires_full_materialization: false,
            shard_merger: true,
        },
        3,
    );
    merger.parent_columns = vec![vec![(2, Some(0))], vec![(2, Some(1))]];
    g.add_node(merger);
    g.add_edge(0, 1);
    g.add_edge(1, 2);
    g.add_edge(2, 3);
    g.add_replay_paths(1, Index::hash_map(vec![0]), vec![path(vec![seg(1, vec![0])])]);
    g.add_provenance(2, vec![0, 1], vec![vec![(2, vec![Some(0), Some(1)]), (1, vec![Some(0), Some(0)])]]);
    let mut m = Materializations::new();
    let dmp = DomainMigrationPlan::new(false);
    assert_eq!(m.extend(&mut g, &set_of(&[1]), &dmp), Ok(()));
    let new = set_of(&[3]);
    assert_eq!(
        m.validate(&g, &new),
        Err(PlanError::AliasedSharding { ancestor: 1, sharded: 2, alias: 1, shard: 0 })
    );
    let mut h = DataflowGraph::new();
    h.add_node(node("source", NodeKind::Source, 0));
    h.add_node(node("b", NodeKind::Base, 1));
    let mut j = internal("j", 2, false);
    j.sharded_by = Sharding::ByColumn(0, 2);
    h.add_node(j);
    let mut merger = node(
        "m",
        NodeKind::Internal {
            can_query_through: false,
            requires_full_materialization: false,
            shard_merger: true,
        },
        3,
    );
    merger.parent_columns = vec![vec![(2, Some(0))], vec![(2, Some(1))]];
    h.add_node(merger);
    h.add_edge(0, 1);
    h.add_edge(1, 2);
    h.add_edge(2, 3);
    h.add_provenance(2, vec![0, 1], vec![vec![(2, vec![Some(0), Some(1)]), (1, vec![Some(0), Some(1)])]]);
    assert_eq!(m.validate(&h, &new), Ok(None));
}

#[test]
fn partly_overlapping_partial_indexes_are_an_error() {
    let mut g = DataflowGraph::new();
    g.add_node(node("source", NodeKind::Source, 0));
    g.add_node(node("b", NodeKind::Base, 1));
    let mut p = internal("p", 2, false);
    p.suggested_indexes = vec![(2, LookupIndex::Strict(Index::hash_map(vec![0, 1])))];
    g.add_node(p);
    g.add_node(reader("r", 3, vec![0]));
    g.add_edge(0, 1);
    g.add_edge(1, 2);
    g.add_edge(2, 3);
    g.add_replay_paths(1, Index::hash_map(vec![0]), vec![path(vec![seg(1, vec![0])])]);
    g.add_replay_paths(1, Index::hash_map(vec![0, 1]), vec![path(vec![seg(1, vec![0, 1])])]);
    g.add_replay_paths(
        2,
        Index::hash_map(vec![0, 1]),
        vec![path(vec![seg(1, vec![0, 1]), seg(2, vec![0, 1])])],
    );
    let with_gap = ReplayPath {
        segments: vec![
            seg(1, vec![0]),
            IndexRef { node: 2, index: Some(Index::hash_map(vec![0])) },
            seg(3, vec![0]),
        ],
        broken: false,
    };
    g.add_replay_paths(3, Index::hash_map(vec![0]), vec![with_gap]);
    g.add_replay_paths(2, Index::hash_map(vec![0]), vec![path(vec![seg(1, vec![0]), seg(2, vec![0])])]);
    let new = set_of(&[1, 2, 3]);
    let mut m = Materializations::new();
    let dmp = DomainMigrationPlan::new(false);
    assert_eq!(m.extend(&mut g, &new, &dmp), Ok(()));
    // The reader's index was added to its parent, so nothing overlaps in part.
    assert_eq!(m.validate(&g, &new), Ok(None));
    assert!(indexes(&m, 2).unwrap().contains(&Index::hash_map(vec![0])));
}

#[test]
fn kept_record_is_restored() {
    let mut g = base_and_reader();
    let new = set_of(&[1, 2]);
    let mut m = Materializations::new();
    let mut config = Config::default();
    config.frontier_strategy = FrontierStrategy::Readers;
    m.set_config(config);
    m.extend_redundant_partial(vec![(2, 9)]);
    let mut dmp = DomainMigrationPlan::new(false);
    assert_eq!(m.extend(&mut g, &new, &dmp), Ok(()));
    assert_eq!(m.commit(&g, &new, &mut dmp), Ok(()));
    let kept = m.persisted();
    assert_eq!(kept.tag_generator, 1);
    assert_eq!(kept.config, config);
    assert_eq!(kept.redundant_partial, vec![(2, 9)]);
    assert_eq!(kept.paths.len(), 1);
    assert_eq!(kept.paths[0].0, 2);
    assert_eq!(kept.paths[0].1.len(), 1);
    assert_eq!(kept.paths[0].1[0].tag, Tag(1));
    assert_eq!(kept.paths[0].1[0].index, Index::hash_map(vec![0]));
    assert_eq!(kept.paths[0].1[0].nodes, vec![1, 2]);

    let mut back = Materializations::restore(&kept);
    assert_eq!(back.config(), config);
    assert_eq!(back.get_redundant(&2), Some(&9));
    assert!(back.indexes_for(1).is_none());
    assert!(!back.is_partial(2));
    assert!(back.partial_tags().is_empty());
    let p = path(vec![seg(1, vec![0]), seg(2, vec![0])]);
    assert_eq!(back.tag_for_path(&Index::hash_map(vec![0]), &p), Ok(Tag(1)));
    assert_eq!(back.tag_for_path(&Index::hash_map(vec![1]), &p), Ok(Tag(2)));

    // Found again from the graph, the decisions are those made before, and
    // the recorded path keeps its tag.
    let recovery = DomainMigrationPlan::new(true);
    let mut again = Materializations::restore(&kept);
    let mut h = base_and_reader();
    assert_eq!(again.extend(&mut h, &new, &recovery), Ok(()));
    assert_eq!(indexes(&again, 1), Some(vec![Index::hash_map(vec![0])]));
    assert!(again.is_partial(2));
    let mut replay = DomainMigrationPlan::new(true);
    assert_eq!(again.commit(&h, &new, &mut replay), Ok(()));
    assert_eq!(again.partial_tags(), vec![(2, Tag(1))]);
}

#[test]
fn broken_path_forces_materialization_at_its_far_end() {
    let mut g = DataflowGraph::new();
    g.add_node(node("source", NodeKind::Source, 0));
    g.add_node(node("b", NodeKind::Base, 1));
    g.add_node(internal("gen", 2, false));
    g.add_node(reader("r", 3, vec![0]));
    g.add_edge(0, 1);
    g.add_edge(1, 2);
    g.add_edge(2, 3);
    g.add_replay_paths(1, Index::hash_map(vec![0]), vec![path(vec![seg(1, vec![0])])]);
    g.add_replay_paths(
        2,
        Index::hash_map(vec![0]),
        vec![path(vec![seg(1, vec![0]), seg(2, vec![0])])],
    );
    g.add_replay_paths(
        3,
        Index::hash_map(vec![0]),
        vec![ReplayPath { segments: vec![seg(2, vec![0]), seg(3, vec![0])], broken: true }],
    );
    let new = set_of(&[1, 2, 3]);
    let mut m = Materializations::new();
    let dmp = DomainMigrationPlan::new(false);
    assert_eq!(m.extend(&mut g, &new, &dmp), Ok(()));
    assert!(m.is_partial(3));
    assert_eq!(indexes(&m, 2), Some(vec![Index::hash_map(vec![0])]));
    assert!(m.is_partial(2));
}

#[test]
fn segment_without_index_forces_full() {
    let mut g = DataflowGraph::new();
    g.add_node(node("source", NodeKind::Source, 0));
    g.add_node(node("b", NodeKind::Base, 1));
    g.add_node(reader("r", 2, vec![0]));
    g.add_edge(0, 1);
    g.add_edge(1, 2);
    g.add_replay_paths(1, Index::hash_map(vec![0]), vec![path(vec![seg(1, vec![0])])]);
    g.add_replay_paths(
        2,
        Index::hash_map(vec![0]),
        vec![path(vec![IndexRef { node: 1, index: None }, seg(2, vec![0])])],
    );
    let new = set_of(&[1, 2]);
    let mut m = Materializations::new();
    let dmp = DomainMigrationPlan::new(false);
    assert_eq!(
        m.extend(&mut g, &new, &dmp),
        Err(PlanError::FullMaterializationDisabled { node: 2 })
    );
    let mut m = Materializations::new();
    let mut config = Config::default();
    config.allow_full_materialization = true;
    m.set_config(config);
    let mut h = DataflowGraph::new();
    h.add_node(node("source", NodeKind::Source, 0));
    h.add_node(node("b", NodeKind::Base, 1));
    h.add_node(reader("r", 2, vec![0]));
    h.add_edge(0, 1);
    h.add_edge(1, 2);
    h.add_replay_paths(1, Index::hash_map(vec![0]), vec![path(vec![seg(1, vec![0])])]);
    h.add_replay_paths(
        2,
        Index::hash_map(vec![0]),
        vec![path(vec![IndexRef { node: 1, index: None }, seg(2, vec![0])])],
    );
    assert_eq!(m.extend(&mut h, &new, &dmp), Ok(()));
    assert!(!m.is_partial(2));
    assert_eq!(m.get_status(2, h.node(2)), MaterializationStatus::Full);
}

#[test]
fn partial_can_be_switched_off() {
    let mut g = base_and_reader();
    let new = set_of(&[1, 2]);
    let mut m = Materializations::new();
    let mut config = Config::default();
    config.partial_enabled = false;
    config.allow_full_materialization = true;
    m.set_config(config);
    let dmp = DomainMigrationPlan::new(false);
    assert_eq!(m.extend(&mut g, &new, &dmp), Ok(()));
    assert!(!m.is_partial(2));
}

#[test]
fn empty_replay_path_is_refused_by_the_graph() {
    let mut g = DataflowGraph::new();
    g.add_node(node("b", NodeKind::Base, 0));
    assert!(!g.add_replay_paths(0, Index::hash_map(vec![0]), vec![path(vec![])]));
    assert!(g.replay_paths_for_nonstop(0, &Index::hash_map(vec![0])).is_none());
    assert!(g.add_replay_paths(0, Index::hash_map(vec![0]), vec![path(vec![seg(0, vec![0])])]));
    assert_eq!(g.replay_paths_for_nonstop(0, &Index::hash_map(vec![0])).unwrap().len(), 1);
    assert!(g.replay_paths_for_nonstop(0, &Index::btree_map(vec![0])).is_none());
    assert!(g.provenance_of(0, &vec![0]).is_none());
    g.add_provenance(0, vec![0], vec![vec![(0, vec![Some(0)])]]);
    assert_eq!(g.provenance_of(0, &vec![0]).unwrap().len(), 1);
}
