use materialization::collections::NodeSet;
use materialization::config::Config;
use materialization::error::PlanError;
use materialization::graph::{DataflowGraph, IndexRef, ReplayPath};
use materialization::index::{Index, LookupIndex};
use materialization::node::{Node, NodeKind, Sharding};
use materialization::obligations::IndexObligation;
use materialization::persist::Persisted;
use materialization::plan::{DomainMigrationPlan, DomainRequest, Tag};
use materialization::search::find_marked;
use materialization::state::Materializations;
use materialization::topology::Direction;

fn make(name: &str, kind: NodeKind, domain: usize, local: u32) -> Node {
    Node {
        name: name.to_string(),
        kind,
        domain,
        local_addr: local,
        sharded_by: Sharding::Unsharded,
        purge: false,
        parent_columns: vec![],
        suggested_indexes: vec![],
        description: String::new(),
    }
}

fn operator(name: &str, domain: usize, local: u32, query_through: bool) -> Node {
    make(
        name,
        NodeKind::Internal {
            can_query_through: query_through,
            requires_full_materialization: false,
            shard_merger: false,
        },
        domain,
        local,
    )
}

fn keyed(name: &str, domain: usize, local: u32, key: Vec<usize>) -> Node {
    make(name, NodeKind::Reader { index: Some(Index::hash_map(key)) }, domain, local)
}

fn at(node: usize, columns: Vec<usize>) -> IndexRef {
    IndexRef { node, index: Some(Index::hash_map(columns)) }
}

fn along(segments: Vec<IndexRef>) -> ReplayPath {
    ReplayPath { segments, broken: false }
}

fn nodes(list: &[usize]) -> NodeSet {
    let mut s = NodeSet::new();
    for n in list {
        s.insert(*n);
    }
    s
}

fn requests(dmp: &DomainMigrationPlan, from: usize) -> Vec<String> {
    let mut out = vec![];
    for i in from..dmp.len() {
        let (domain, request) = dmp.get(i);
        let text = match request {
            DomainRequest::Ready { node, purge, index } => {
                format!("d{} ready {} purge={} indexes={}", domain, node, purge, index.len())
            }
            DomainRequest::IsReady { node } => format!("d{} is-ready {}", domain, node),
            DomainRequest::StartReplay { tag, from, replicas, targeting_domain } => format!(
                "d{} start {} from {} to d{} replicas={:?}",
                domain, tag.0, from, targeting_domain, replicas
            ),
            DomainRequest::QueryReplayDone { node } => format!("d{} done {}", domain, node),
        };
        out.push(text);
    }
    out
}

/// Source (0), base table (1) in domain 0, reader keyed on column 0 (2) in domain 1.
fn two_domains() -> DataflowGraph {
    let mut g = DataflowGraph::new();
    g.add_node(make("source", NodeKind::Source, 0, 0));
    g.add_node(make("b", NodeKind::Base, 0, 10));
    g.add_node(keyed("r", 1, 20, vec![0]));
    g.add_edge(0, 1);
    g.add_edge(1, 2);
    g.add_replay_paths(1, Index::hash_map(vec![0]), vec![along(vec![at(1, vec![0])])]);
    g.add_replay_paths(1, Index::hash_map(vec![1]), vec![along(vec![at(1, vec![1])])]);
    g.add_replay_paths(
        2,
        Index::hash_map(vec![0]),
        vec![along(vec![at(1, vec![0]), at(2, vec![0])])],
    );
    g
}

#[test]
fn requests_go_to_the_domains_in_order() {
    let mut g = two_domains();
    let new = nodes(&[1, 2]);
    let mut m = Materializations::new();
    let mut dmp = DomainMigrationPlan::new(false);
    assert_eq!(m.extend(&mut g, &new, &dmp), Ok(()));
    assert_eq!(m.commit(&g, &new, &mut dmp), Ok(()));
    assert_eq!(
        requests(&dmp, 0),
        vec![
            "d0 ready 10 purge=false indexes=1",
            "d0 is-ready 10",
            "d0 start 1 from 10 to d1 replicas=None",
            "d1 done 20",
            "d1 ready 20 purge=false indexes=0",
            "d1 is-ready 20",
        ]
    );
}

#[test]
fn old_node_gets_an_index_for_a_new_reader() {
    let mut g = two_domains();
    let first = nodes(&[1, 2]);
    let mut m = Materializations::new();
    let mut dmp = DomainMigrationPlan::new(false);
    assert_eq!(m.extend(&mut g, &first, &dmp), Ok(()));
    assert_eq!(m.commit(&g, &first, &mut dmp), Ok(()));
    let sent = dmp.len();

    let r2 = g.add_node(keyed("r2", 1, 21, vec![1]));
    assert_eq!(r2, 3);
    g.add_edge(1, 3);
    g.add_replay_paths(
        3,
        Index::hash_map(vec![1]),
        vec![along(vec![at(1, vec![1]), at(3, vec![1])])],
    );
    let second = nodes(&[3]);
    assert_eq!(m.extend(&mut g, &second, &dmp), Ok(()));
    assert_eq!(
        m.indexes_for(1).map(|s| s.to_vec()),
        Some(vec![Index::hash_map(vec![0]), Index::hash_map(vec![1])])
    );
    assert!(m.is_partial(3));
    assert!(!m.is_partial(1));
    assert_eq!(m.validate(&g, &second), Ok(None));
    assert_eq!(m.commit(&g, &second, &mut dmp), Ok(()));
    assert_eq!(
        requests(&dmp, sent),
        vec![
            "d0 start 2 from 10 to d0 replicas=None",
            "d0 done 10",
            "d0 start 3 from 10 to d1 replicas=None",
            "d1 done 21",
            "d1 ready 21 purge=false indexes=0",
            "d1 is-ready 21",
        ]
    );
    let mut tags = m.partial_tags();
    tags.sort_by_key(|(n, t)| (*n, t.0));
    assert_eq!(tags, vec![(2, Tag(1)), (3, Tag(3))]);
}

#[test]
fn recovery_records_every_index_as_added() {
    let mut g = two_domains();
    let new = nodes(&[1, 2]);
    let mut m = Materializations::new();
    let mut dmp = DomainMigrationPlan::new(false);
    assert_eq!(m.extend(&mut g, &new, &dmp), Ok(()));
    assert_eq!(m.commit(&g, &new, &mut dmp), Ok(()));

    // Without recovery an old full node whose index is declared again is left alone.
    let mut h = two_domains();
    let mut again = DomainMigrationPlan::new(false);
    assert_eq!(m.extend(&mut h, &nodes(&[2]), &again), Ok(()));
    assert_eq!(m.commit(&h, &nodes(&[2]), &mut again), Ok(()));
    assert!(requests(&again, 0).iter().all(|r| !r.contains("done 10")));

    // With recovery the base table is planned for again.
    let kept = m.persisted();
    let mut restored = Materializations::restore(&kept);
    let mut k = two_domains();
    let mut recovery = DomainMigrationPlan::new(true);
    assert!(recovery.is_recovery());
    assert_eq!(restored.extend(&mut k, &nodes(&[2]), &recovery), Ok(()));
    assert_eq!(restored.indexes_for(1).map(|s| s.to_vec()), None);
    assert_eq!(restored.extend(&mut k, &nodes(&[1]), &recovery), Ok(()));
    assert_eq!(restored.commit(&k, &nodes(&[1, 2]), &mut recovery), Ok(()));
    assert_eq!(restored.partial_tags(), vec![(2, Tag(1))]);
}

#[test]
fn tags_run_out() {
    let kept = Persisted {
        paths: vec![],
        redundant_partial: vec![],
        tag_generator: u32::MAX - 1,
        config: Config::default(),
    };
    let mut m = Materializations::restore(&kept);
    let p = along(vec![at(1, vec![0]), at(2, vec![0])]);
    assert_eq!(m.tag_for_path(&Index::hash_map(vec![0]), &p), Ok(Tag(u32::MAX)));
    assert_eq!(m.tag_for_path(&Index::hash_map(vec![0]), &p), Err(PlanError::TagsExhausted));
    assert_eq!(m.next_tag(), Err(PlanError::TagsExhausted));
    assert_eq!(m.persisted().tag_generator, u32::MAX);
}

#[test]
fn obligation_on_a_dropped_node_is_left_over() {
    let mut g = DataflowGraph::new();
    g.add_node(make("source", NodeKind::Source, 0, 0));
    g.add_node(make("gone", NodeKind::Dropped, 0, 1));
    let mut n = operator("n", 0, 2, false);
    n.suggested_indexes = vec![(1, LookupIndex::Strict(Index::hash_map(vec![0])))];
    g.add_node(n);
    g.add_edge(0, 1);
    g.add_edge(1, 2);
    let mut m = Materializations::new();
    let dmp = DomainMigrationPlan::new(false);
    assert_eq!(m.extend(&mut g, &nodes(&[2]), &dmp), Err(PlanError::PendingObligations));
}

#[test]
fn query_through_cycle_is_an_error() {
    let mut g = DataflowGraph::new();
    let mut a = operator("a", 0, 0, true);
    a.parent_columns = vec![vec![(1, Some(0))]];
    a.suggested_indexes = vec![(0, LookupIndex::Strict(Index::hash_map(vec![0])))];
    g.add_node(a);
    let mut b = operator("b", 0, 1, true);
    b.parent_columns = vec![vec![(0, Some(0))]];
    g.add_node(b);
    g.add_edge(0, 1);
    g.add_edge(1, 0);
    let mut m = Materializations::new();
    let dmp = DomainMigrationPlan::new(false);
    let r = m.extend(&mut g, &nodes(&[0]), &dmp);
    assert!(matches!(r, Err(PlanError::CyclicGraph { .. })));
}

#[test]
fn query_through_node_without_parent_is_an_error() {
    let mut g = DataflowGraph::new();
    let mut a = operator("a", 0, 0, true);
    a.suggested_indexes = vec![(0, LookupIndex::Strict(Index::hash_map(vec![0])))];
    g.add_node(a);
    let mut m = Materializations::new();
    let dmp = DomainMigrationPlan::new(false);
    assert_eq!(
        m.extend(&mut g, &nodes(&[0]), &dmp),
        Err(PlanError::QueryThroughFanIn { node: 0 })
    );
}

#[test]
fn partly_overlapping_index_of_partial_ancestor_is_an_error() {
    let mut g = DataflowGraph::new();
    g.add_node(make("source", NodeKind::Source, 0, 0));
    g.add_node(make("b", NodeKind::Base, 0, 1));
    let mut a = operator("a", 0, 2, false);
    a.suggested_indexes = vec![(2, LookupIndex::Strict(Index::hash_map(vec![0, 1])))];
    g.add_node(a);
    let mut mid = operator("mid", 0, 3, false);
    mid.suggested_indexes = vec![(3, LookupIndex::Strict(Index::hash_map(vec![0])))];
    g.add_node(mid);
    g.add_node(keyed("r", 0, 4, vec![0]));
    g.add_edge(0, 1);
    g.add_edge(1, 2);
    g.add_edge(2, 3);
    g.add_edge(3, 4);
    g.add_replay_paths(1, Index::hash_map(vec![0]), vec![along(vec![at(1, vec![0])])]);
    g.add_replay_paths(1, Index::hash_map(vec![0, 1]), vec![along(vec![at(1, vec![0, 1])])]);
    g.add_replay_paths(
        2,
        Index::hash_map(vec![0, 1]),
        vec![along(vec![at(1, vec![0, 1]), at(2, vec![0, 1])])],
    );
    g.add_replay_paths(
        3,
        Index::hash_map(vec![0]),
        vec![along(vec![at(2, vec![0, 1]), at(3, vec![0])])],
    );
    g.add_replay_paths(
        4,
        Index::hash_map(vec![0]),
        vec![along(vec![at(2, vec![0]), at(3, vec![0]), at(4, vec![0])])],
    );
    let new = nodes(&[1, 2, 3, 4]);
    let mut m = Materializations::new();
    let dmp = DomainMigrationPlan::new(false);
    assert_eq!(m.extend(&mut g, &new, &dmp), Ok(()));
    assert!(m.is_partial(2));
    assert!(m.is_partial(3));
    assert!(m.is_partial(4));
    assert_eq!(m.indexes_for(2).map(|s| s.to_vec()), Some(vec![Index::hash_map(vec![0, 1])]));
    assert_eq!(
        m.validate(&g, &new),
        Err(PlanError::OverlappingPartialIndices { parent: 2, child: 4 })
    );
}

#[test]
fn node_above_full_node_stays_full() {
    // An old operator (2) without state sits above an old full operator (3).
    let mut g = DataflowGraph::new();
    g.add_node(make("source", NodeKind::Source, 0, 0));
    g.add_node(make("b", NodeKind::Base, 0, 1));
    g.add_node(operator("up", 0, 2, false));
    let mut low = make(
        "low",
        NodeKind::Internal {
            can_query_through: false,
            requires_full_materialization: true,
            shard_merger: false,
        },
        0,
        3,
    );
    low.suggested_indexes = vec![(3, LookupIndex::Strict(Index::hash_map(vec![0])))];
    g.add_node(low);
    g.add_edge(0, 1);
    g.add_edge(1, 2);
    g.add_edge(2, 3);
    g.add_replay_paths(1, Index::hash_map(vec![0]), vec![along(vec![at(1, vec![0])])]);
    g.add_replay_paths(
        3,
        Index::hash_map(vec![0]),
        vec![along(vec![at(1, vec![0]), at(2, vec![0]), at(3, vec![0])])],
    );
    g.add_replay_paths(
        2,
        Index::hash_map(vec![0]),
        vec![along(vec![at(1, vec![0]), at(2, vec![0])])],
    );
    let mut m = Materializations::new();
    let mut config = Config::default();
    config.allow_full_materialization = true;
    m.set_config(config);
    let mut dmp = DomainMigrationPlan::new(false);
    let first = nodes(&[1, 2, 3]);
    assert_eq!(m.extend(&mut g, &first, &dmp), Ok(()));
    assert!(!m.is_partial(3));
    assert!(m.indexes_for(2).is_none());
    assert_eq!(m.commit(&g, &first, &mut dmp), Ok(()));

    // A new reader beside the full operator asks the upper operator for state.
    let mut up_reader = keyed("r", 0, 4, vec![0]);
    up_reader.name = "r".to_string();
    let r = g.add_node(up_reader);
    assert_eq!(r, 4);
    g.add_edge(2, 4);
    g.add_replay_paths(
        4,
        Index::hash_map(vec![0]),
        vec![ReplayPath { segments: vec![at(2, vec![0]), at(4, vec![0])], broken: true }],
    );
    let second = nodes(&[4]);
    let r = m.extend(&mut g, &second, &dmp);
    // The upper operator has a full operator below it, so it must be full itself.
    assert_eq!(r, Ok(()));
    assert!(m.indexes_for(2).is_some());
    assert!(!m.is_partial(2));
}

#[test]
fn search_finds_what_lies_past_passing_nodes() {
    let mut g = DataflowGraph::new();
    for i in 0..5 {
        g.add_node(operator("n", 0, i, false));
    }
    g.add_edge(0, 1);
    g.add_edge(1, 2);
    g.add_edge(0, 3);
    g.add_edge(3, 4);
    let pass = vec![false, true, false, false, false];
    let hit = vec![false, false, true, false, true];
    assert_eq!(find_marked(&g, 0, Direction::Outgoing, &pass, &hit), Some((2, 1)));
    let none = vec![false; 5];
    assert_eq!(find_marked(&g, 0, Direction::Outgoing, &none, &hit), None);
    assert_eq!(find_marked(&g, 4, Direction::Incoming, &vec![true; 5], &vec![true, false, false, false, false]), Some((0, 3)));
    assert_eq!(find_marked(&g, 9, Direction::Outgoing, &pass, &hit), None);
    // A cycle does not keep the search from ending.
    g.add_edge(2, 0);
    assert_eq!(find_marked(&g, 0, Direction::Outgoing, &vec![true; 5], &none), None);
}

#[test]
fn old_node_with_old_state_below_cannot_become_partial() {
    // An old operator (2) without state sits above an old partial operator (3).
    let mut g = DataflowGraph::new();
    g.add_node(make("source", NodeKind::Source, 0, 0));
    g.add_node(make("b", NodeKind::Base, 0, 1));
    g.add_node(operator("up", 0, 2, false));
    let mut low = operator("low", 0, 3, false);
    low.suggested_indexes = vec![(3, LookupIndex::Strict(Index::hash_map(vec![0])))];
    g.add_node(low);
    g.add_edge(0, 1);
    g.add_edge(1, 2);
    g.add_edge(2, 3);
    g.add_replay_paths(1, Index::hash_map(vec![0]), vec![along(vec![at(1, vec![0])])]);
    g.add_replay_paths(
        2,
        Index::hash_map(vec![0]),
        vec![along(vec![at(1, vec![0]), at(2, vec![0])])],
    );
    g.add_replay_paths(
        3,
        Index::hash_map(vec![0]),
        vec![along(vec![at(1, vec![0]), at(2, vec![0]), at(3, vec![0])])],
    );
    let mut m = Materializations::new();
    let mut dmp = DomainMigrationPlan::new(false);
    let first = nodes(&[1, 2, 3]);
    assert_eq!(m.extend(&mut g, &first, &dmp), Ok(()));
    assert!(m.is_partial(3));
    assert!(m.indexes_for(2).is_none());
    assert_eq!(m.commit(&g, &first, &mut dmp), Ok(()));

    // A new reader whose replay path ends early at the upper operator forces
    // that operator to keep state.
    let r = g.add_node(keyed("r", 0, 4, vec![0]));
    assert_eq!(r, 4);
    g.add_edge(2, 4);
    g.add_replay_paths(
        4,
        Index::hash_map(vec![0]),
        vec![ReplayPath { segments: vec![at(2, vec![0]), at(4, vec![0])], broken: true }],
    );
    let second = nodes(&[4]);
    assert_eq!(m.extend(&mut g, &second, &dmp), Ok(()));
    assert!(m.is_partial(2));
    assert_eq!(m.validate(&g, &second), Ok(None));
    assert_eq!(
        m.commit(&g, &second, &mut dmp),
        Err(PlanError::OldNodeMadePartial { node: 2 })
    );
}

#[test]
fn nodes_give_rise_to_obligations() {
    let r = keyed("r", 0, 0, vec![2, 1]);
    let obs = r.obligations(7);
    assert_eq!(obs.len(), 1);
    assert_eq!(obs[0].0, 7);
    assert!(matches!(&obs[0].1, IndexObligation::Replay(i) if *i == Index::hash_map(vec![2, 1])));
    let streaming = make("s", NodeKind::Reader { index: None }, 0, 1);
    assert!(streaming.obligations(1).is_empty());
    let base = make("b", NodeKind::Base, 0, 2);
    let obs = base.obligations(3);
    assert_eq!(obs.len(), 1);
    assert_eq!(obs[0].0, 3);
    assert!(matches!(
        &obs[0].1,
        IndexObligation::Lookup(LookupIndex::Strict(i)) if *i == Index::hash_map(vec![0])
    ));
    let mut join = operator("j", 0, 3, false);
    join.suggested_indexes = vec![
        (1, LookupIndex::Strict(Index::hash_map(vec![0]))),
        (2, LookupIndex::Weak(Index::btree_map(vec![1]))),
    ];
    let obs = join.obligations(5);
    assert_eq!(obs.len(), 2);
    assert_eq!(obs[0].0, 1);
    assert_eq!(obs[1].0, 2);
    assert!(matches!(
        &obs[1].1,
        IndexObligation::Lookup(LookupIndex::Weak(i)) if *i == Index::btree_map(vec![1])
    ));
    assert!(operator("plain", 0, 4, false).obligations(4).is_empty());
}

/// A base table (1) above an operator (2) above two readers: one (3) whose
/// replay path runs through the operator to the base table, and one (4)
/// whose replay path ends early at the operator.
fn late_materialization(first_reader_edge_first: bool) -> DataflowGraph {
    let mut g = DataflowGraph::new();
    g.add_node(make("source", NodeKind::Source, 0, 0));
    g.add_node(make("b", NodeKind::Base, 0, 1));
    g.add_node(operator("a", 0, 2, false));
    g.add_node(keyed("through", 0, 3, vec![0]));
    g.add_node(keyed("early", 0, 4, vec![1]));
    g.add_edge(0, 1);
    g.add_edge(1, 2);
    if first_reader_edge_first {
        g.add_edge(2, 3);
        g.add_edge(2, 4);
    } else {
        g.add_edge(2, 4);
        g.add_edge(2, 3);
    }
    g.add_replay_paths(1, Index::hash_map(vec![0]), vec![along(vec![at(1, vec![0])])]);
    g.add_replay_paths(1, Index::hash_map(vec![1]), vec![along(vec![at(1, vec![1])])]);
    g.add_replay_paths(
        2,
        Index::hash_map(vec![0]),
        vec![along(vec![at(1, vec![0]), at(2, vec![0])])],
    );
    g.add_replay_paths(
        2,
        Index::hash_map(vec![1]),
        vec![along(vec![at(1, vec![1]), at(2, vec![1])])],
    );
    g.add_replay_paths(
        3,
        Index::hash_map(vec![0]),
        vec![along(vec![at(1, vec![0]), at(2, vec![0]), at(3, vec![0])])],
    );
    g.add_replay_paths(
        4,
        Index::hash_map(vec![1]),
        vec![ReplayPath { segments: vec![at(2, vec![1]), at(4, vec![1])], broken: true }],
    );
    g
}

#[test]
fn second_extend_sees_what_the_first_materialized_late() {
    let new = nodes(&[1, 2, 3, 4]);
    let dmp = DomainMigrationPlan::new(false);
    let mut seen_change = false;
    for first_reader_edge_first in [true, false] {
        let mut g = late_materialization(first_reader_edge_first);
        let order = g.topological_order();
        let through = order.iter().position(|n| *n == 3).unwrap();
        let early = order.iter().position(|n| *n == 4).unwrap();
        let mut m = Materializations::new();
        assert_eq!(m.extend(&mut g, &new, &dmp), Ok(()));
        let once = m.indexes_for(2).map(|s| s.to_vec()).unwrap();
        assert_eq!(m.extend(&mut g, &new, &dmp), Ok(()));
        let twice = m.indexes_for(2).map(|s| s.to_vec()).unwrap();
        assert!(m.is_partial(2) && m.is_partial(3) && m.is_partial(4));
        if through > early {
            // The reader that runs through the operator was decided first,
            // when the operator kept no state yet.
            assert_eq!(once, vec![Index::hash_map(vec![1])]);
            assert_eq!(twice, vec![Index::hash_map(vec![1]), Index::hash_map(vec![0])]);
            seen_change = true;
        } else {
            assert_eq!(once, vec![Index::hash_map(vec![1]), Index::hash_map(vec![0])]);
            assert_eq!(twice, once);
        }
    }
    assert!(seen_change);
}

fn ordered_at(node: usize, columns: Vec<usize>) -> IndexRef {
    IndexRef { node, index: Some(Index::btree_map(columns)) }
}

#[test]
fn index_of_another_kind_that_overlaps_in_part_is_an_error() {
    let mut g = DataflowGraph::new();
    g.add_node(make("source", NodeKind::Source, 0, 0));
    g.add_node(make("b", NodeKind::Base, 0, 1));
    let mut a = operator("a", 0, 2, false);
    a.suggested_indexes = vec![(2, LookupIndex::Strict(Index::btree_map(vec![0])))];
    g.add_node(a);
    let mut mid = operator("mid", 0, 3, false);
    mid.suggested_indexes = vec![(3, LookupIndex::Strict(Index::hash_map(vec![0, 1])))];
    g.add_node(mid);
    g.add_node(keyed("r", 0, 4, vec![0, 1]));
    g.add_edge(0, 1);
    g.add_edge(1, 2);
    g.add_edge(2, 3);
    g.add_edge(3, 4);
    g.add_replay_paths(1, Index::hash_map(vec![0]), vec![along(vec![at(1, vec![0])])]);
    g.add_replay_paths(1, Index::btree_map(vec![0]), vec![along(vec![ordered_at(1, vec![0])])]);
    g.add_replay_paths(
        2,
        Index::btree_map(vec![0]),
        vec![along(vec![ordered_at(1, vec![0]), ordered_at(2, vec![0])])],
    );
    g.add_replay_paths(
        3,
        Index::hash_map(vec![0, 1]),
        vec![along(vec![ordered_at(2, vec![0]), at(3, vec![0, 1])])],
    );
    g.add_replay_paths(
        4,
        Index::hash_map(vec![0, 1]),
        vec![along(vec![at(2, vec![0, 1]), at(3, vec![0, 1]), at(4, vec![0, 1])])],
    );
    let new = nodes(&[1, 2, 3, 4]);
    let mut m = Materializations::new();
    let dmp = DomainMigrationPlan::new(false);
    assert_eq!(m.extend(&mut g, &new, &dmp), Ok(()));
    assert!(m.is_partial(2) && m.is_partial(3) && m.is_partial(4));
    assert_eq!(m.indexes_for(2).map(|s| s.to_vec()), Some(vec![Index::btree_map(vec![0])]));
    assert_eq!(
        m.validate(&g, &new),
        Err(PlanError::OverlappingPartialIndices { parent: 2, child: 4 })
    );
}

#[test]
fn overlap_is_looked_for_past_nodes_that_are_not_partial() {
    let mut g = DataflowGraph::new();
    g.add_node(make("source", NodeKind::Source, 0, 0));
    g.add_node(make("b", NodeKind::Base, 0, 1));
    let mut a = operator("a", 0, 2, false);
    a.suggested_indexes = vec![(2, LookupIndex::Strict(Index::hash_map(vec![0, 1])))];
    g.add_node(a);
    g.add_node(make("other", NodeKind::Base, 0, 3));
    g.add_node(keyed("r", 0, 4, vec![0]));
    g.add_edge(0, 1);
    g.add_edge(1, 2);
    g.add_edge(0, 3);
    g.add_edge(2, 4);
    g.add_edge(3, 4);
    g.add_replay_paths(1, Index::hash_map(vec![0]), vec![along(vec![at(1, vec![0])])]);
    g.add_replay_paths(1, Index::hash_map(vec![0, 1]), vec![along(vec![at(1, vec![0, 1])])]);
    g.add_replay_paths(3, Index::hash_map(vec![0]), vec![along(vec![at(3, vec![0])])]);
    g.add_replay_paths(
        2,
        Index::hash_map(vec![0, 1]),
        vec![along(vec![at(1, vec![0, 1]), at(2, vec![0, 1])])],
    );
    // The reader's path passes the full base table (3) before the partial operator (2).
    g.add_replay_paths(
        4,
        Index::hash_map(vec![0]),
        vec![along(vec![at(2, vec![0]), at(3, vec![0]), at(4, vec![0])])],
    );
    let new = nodes(&[1, 2, 3, 4]);
    let mut m = Materializations::new();
    let dmp = DomainMigrationPlan::new(false);
    assert_eq!(m.extend(&mut g, &new, &dmp), Ok(()));
    assert!(m.is_partial(2) && !m.is_partial(3) && m.is_partial(4));
    assert_eq!(m.indexes_for(2).map(|s| s.to_vec()), Some(vec![Index::hash_map(vec![0, 1])]));
    assert_eq!(
        m.validate(&g, &new),
        Err(PlanError::OverlappingPartialIndices { parent: 2, child: 4 })
    );
}

#[test]
fn failed_setup_changes_nothing() {
    let mut g = two_domains();
    let new = nodes(&[1, 2]);
    let mut m = Materializations::new();
    let mut dmp = DomainMigrationPlan::new(false);
    assert_eq!(m.extend(&mut g, &new, &dmp), Ok(()));
    assert_eq!(m.commit(&g, &new, &mut dmp), Ok(()));
    let sent = dmp.len();
    let tag = m.persisted().tag_generator;

    // No index is given for a node that is no reader.
    let mut none = materialization::index::IndexSet::new();
    let mut waiting = vec![(0usize, 10u32)];
    assert_eq!(
        m.setup(1, &mut none, &mut waiting, &g, &mut dmp),
        Err(PlanError::IndexlessNonReader { node: 1 })
    );
    assert_eq!(dmp.len(), sent);
    assert_eq!(waiting, vec![(0, 10)]);
    assert_eq!(m.persisted().tag_generator, tag);
    assert!(none.is_empty());

    // The second path of the index starts at a node that the graph lacks:
    // the tag of the first path is not spent.
    let mut h = two_domains();
    h.add_replay_paths(
        2,
        Index::hash_map(vec![5]),
        vec![
            along(vec![at(1, vec![5]), at(2, vec![5])]),
            along(vec![at(99, vec![5]), at(2, vec![5])]),
        ],
    );
    let mut wanted = materialization::index::IndexSet::new();
    wanted.insert(Index::hash_map(vec![5]));
    assert_eq!(
        m.setup(2, &mut wanted, &mut waiting, &h, &mut dmp),
        Err(PlanError::UnknownNode { node: 99 })
    );
    assert_eq!(dmp.len(), sent);
    assert_eq!(waiting, vec![(0, 10)]);
    assert_eq!(m.persisted().tag_generator, tag);
    assert_eq!(wanted.to_vec(), vec![Index::hash_map(vec![5])]);
    assert_eq!(m.partial_tags(), vec![(2, Tag(1))]);

    // A reader that holds no state cannot be set up.
    let mut k = DataflowGraph::new();
    k.add_node(make("s", NodeKind::Reader { index: None }, 0, 0));
    let mut empty = materialization::index::IndexSet::new();
    assert_eq!(
        m.setup(0, &mut empty, &mut waiting, &k, &mut dmp),
        Err(PlanError::ReaderNotMaterialized { node: 0 })
    );
    assert_eq!(dmp.len(), sent);
}

#[test]
fn failed_commit_keeps_the_decisions() {
    let mut g = two_domains();
    let new = nodes(&[1, 2]);
    let mut m = Materializations::new();
    let mut dmp = DomainMigrationPlan::new(false);
    assert_eq!(m.extend(&mut g, &new, &dmp), Ok(()));
    // The graph that is committed against lacks the replay paths of the reader.
    let mut bare = DataflowGraph::new();
    bare.add_node(make("source", NodeKind::Source, 0, 0));
    bare.add_node(make("b", NodeKind::Base, 0, 10));
    bare.add_node(keyed("r", 1, 20, vec![0]));
    bare.add_edge(0, 1);
    bare.add_edge(1, 2);
    assert_eq!(m.commit(&bare, &new, &mut dmp), Err(PlanError::PathsUnavailable { node: 2 }));
    assert_eq!(requests(&dmp, 0), vec!["d0 ready 10 purge=false indexes=1"]);
    assert_eq!(m.indexes_for(1).map(|s| s.to_vec()), Some(vec![Index::hash_map(vec![0])]));
    assert_eq!(m.indexes_for(2).map(|s| s.to_vec()), Some(vec![Index::hash_map(vec![0])]));
    assert!(m.is_partial(2));
    assert_eq!(m.persisted().tag_generator, 0);
    // With the paths known, the rest of the commit goes through.
    assert_eq!(m.commit(&g, &new, &mut dmp), Ok(()));
    assert_eq!(m.partial_tags(), vec![(2, Tag(1))]);
}
