//! What extending the materializations keeps: nothing that was decided or
//! recorded is taken back, every partial node stays materialized, and every
//! added index stays an index that its node has.

use crate::collections::{
    lemma_table_has_insert, table_has, table_insert, table_touch, table_within, IndexTable,
};
use crate::extend::extend_spec;
use crate::graph::{GraphView, ReplayPath};
use crate::hoist::{deposit_from, deposit_one, hoist_from, hoist_walk};
use crate::index::{IndexView, LookupIndexView, NodeIndex};
use crate::obligations::{
    collect_from, collect_node, node_obligations, record_from, record_obligation, Collected,
    IndexObligationView, Lookups,
};
use crate::partiality::{
    analyze_all, analyze_down, analyze_node, broken_first, eligible, fulfil, fulfil_from,
    gather_paths, is_planned, planned_nodes, steps_to_skip, walk_path, walk_paths, Walk,
};
use crate::state::State;
use vstd::prelude::*;

verus! {

/// The second table has an entry wherever the first has one, and holds
/// every index that the first holds.
pub open spec fn table_grows(a: IndexTable, b: IndexTable) -> bool {
    &&& a.dom().subset_of(b.dom())
    &&& table_within(a, b)
}

/// Nothing of the first state is taken back in the second: every
/// materialization, every added index, every partial node and every new
/// reader of the first is one of the second, and what was materialized
/// before, the replay paths, the duplicates, the last tag and the settings
/// are the same.
pub open spec fn grown(s: State, s2: State) -> bool {
    &&& table_grows(s.have, s2.have)
    &&& table_grows(s.added, s2.added)
    &&& table_grows(s.added_weak, s2.added_weak)
    &&& s.partial.subset_of(s2.partial)
    &&& s.new_readers.subset_of(s2.new_readers)
    &&& s2.had == s.had
    &&& s2.paths == s.paths
    &&& s2.redundant_partial == s.redundant_partial
    &&& s2.tag_generator == s.tag_generator
    &&& s2.config == s.config
}

/// Every partial node is materialized.
pub open spec fn partial_materialized(s: State) -> bool {
    s.partial.subset_of(s.have.dom())
}

/// Every index that was added is an index that its node has.
pub open spec fn added_had(s: State) -> bool {
    table_within(s.added, s.have)
}

/// Every weak index that was added has its strict twin among the indexes of its node.
pub open spec fn weak_had(s: State) -> bool {
    table_within(s.added_weak, s.have)
}

/// Each of the three, where it holds of the first state, holds of the second.
pub open spec fn keeps(s: State, s2: State) -> bool {
    &&& partial_materialized(s) ==> partial_materialized(s2)
    &&& added_had(s) ==> added_had(s2)
    &&& weak_had(s) ==> weak_had(s2)
}

/// Nothing of the first state is taken back in the second, and what held of
/// the first still holds.
pub open spec fn extends(s: State, s2: State) -> bool {
    grown(s, s2) && keeps(s, s2)
}

/// Of the partial nodes of the second state, those that are not partial in
/// the first are nodes of the graph and no base tables.
pub open spec fn only_non_base_added(s: State, s2: State, g: GraphView) -> bool {
    forall|n: NodeIndex| #[trigger]
        s2.partial.contains(n) ==> s.partial.contains(n) || (g.has_node(n) && !(
        g.nodes[n as int].kind is Base))
}

pub proof fn lemma_table_grows_insert(t: IndexTable, n: NodeIndex, i: IndexView)
    ensures
        table_grows(t, table_insert(t, n, i)),
        table_has(table_insert(t, n, i), n, i),
{
    lemma_table_has_insert(t, n, i);
    assert(table_has(table_insert(t, n, i), n, i));
}

pub proof fn lemma_table_grows_touch(t: IndexTable, n: NodeIndex)
    ensures
        table_grows(t, table_touch(t, n)),
        table_touch(t, n).contains_key(n),
{
    let t2 = table_touch(t, n);
    assert forall|m: NodeIndex, j: IndexView| #[trigger] table_has(t, m, j) implies table_has(
        t2,
        m,
        j,
    ) by {}
}

pub proof fn lemma_table_grows_trans(a: IndexTable, b: IndexTable, c: IndexTable)
    requires
        table_grows(a, b),
        table_grows(b, c),
    ensures
        table_grows(a, c),
{
    assert forall|m: NodeIndex, j: IndexView| #[trigger] table_has(a, m, j) implies table_has(
        c,
        m,
        j,
    ) by {
        assert(table_has(b, m, j));
    }
}

proof fn lemma_within_grows(a: IndexTable, b: IndexTable, b2: IndexTable)
    requires
        table_within(a, b),
        table_grows(b, b2),
    ensures
        table_within(a, b2),
{
    assert forall|m: NodeIndex, j: IndexView| #[trigger] table_has(a, m, j) implies table_has(
        b2,
        m,
        j,
    ) by {
        assert(table_has(b, m, j));
    }
}

proof fn lemma_within_insert(a: IndexTable, b: IndexTable, b2: IndexTable, n: NodeIndex, i: IndexView)
    requires
        table_within(a, b),
        table_grows(b, b2),
        table_has(b2, n, i),
    ensures
        table_within(table_insert(a, n, i), b2),
{
    lemma_table_has_insert(a, n, i);
    assert forall|m: NodeIndex, j: IndexView| #[trigger]
        table_has(table_insert(a, n, i), m, j) implies table_has(b2, m, j) by {
        if table_has(a, m, j) {
            assert(table_has(b, m, j));
        }
    }
}

/// Nothing is taken back in a state that is left as it is.
pub proof fn lemma_grown_refl(s: State)
    ensures
        grown(s, s),
        extends(s, s),
{
}

/// Nothing is taken back where readers are added to the new readers.
pub proof fn lemma_grown_new_readers(s: State, readers: Set<NodeIndex>)
    requires
        s.new_readers.subset_of(readers),
    ensures
        grown(s, State { new_readers: readers, ..s }),
{
}

/// Nothing is taken back where a node is added to the partial nodes.
pub proof fn lemma_grown_partial(s: State, ni: NodeIndex)
    ensures
        grown(s, State { partial: s.partial.insert(ni), ..s }),
{
}

pub proof fn lemma_grown_trans(a: State, b: State, c: State)
    requires
        grown(a, b),
        grown(b, c),
    ensures
        grown(a, c),
{
    lemma_table_grows_trans(a.have, b.have, c.have);
    lemma_table_grows_trans(a.added, b.added, c.added);
    lemma_table_grows_trans(a.added_weak, b.added_weak, c.added_weak);
}

pub proof fn lemma_extends_trans(a: State, b: State, c: State)
    requires
        extends(a, b),
        extends(b, c),
    ensures
        extends(a, c),
{
    lemma_grown_trans(a, b, c);
}

/// Giving a state materializations that hold all it held keeps what held of it.
pub proof fn lemma_set_have(s: State, have: IndexTable)
    requires
        table_grows(s.have, have),
    ensures
        extends(s, State { have, ..s }),
{
    let s2 = State { have, ..s };
    if added_had(s) {
        lemma_within_grows(s.added, s.have, have);
    }
    if weak_had(s) {
        lemma_within_grows(s.added_weak, s.have, have);
    }
    assert(table_grows(s.added, s2.added)) by {
        assert forall|m: NodeIndex, j: IndexView| #[trigger]
            table_has(s.added, m, j) implies table_has(s2.added, m, j) by {}
    }
    assert(table_grows(s.added_weak, s2.added_weak)) by {
        assert forall|m: NodeIndex, j: IndexView| #[trigger]
            table_has(s.added_weak, m, j) implies table_has(s2.added_weak, m, j) by {}
    }
}

pub proof fn lemma_deposit_one(s: State, replay: IndexTable, mi: NodeIndex, li: LookupIndexView)
    ensures
        extends(s, deposit_one(s, replay, mi, li).0),
        deposit_one(s, replay, mi, li).0.partial == s.partial,
{
    let ix = li.index();
    let s2 = deposit_one(s, replay, mi, li).0;
    lemma_table_grows_insert(s.have, mi, ix);
    lemma_table_grows_insert(s.added, mi, ix);
    lemma_table_grows_insert(s.added_weak, mi, ix);
    if !li.is_weak() {
        assert forall|m: NodeIndex, j: IndexView| #[trigger]
            table_has(s.added_weak, m, j) implies table_has(s2.added_weak, m, j) by {}
    }
    if added_had(s) {
        lemma_within_insert(s.added, s.have, s2.have, mi, ix);
    }
    if weak_had(s) {
        if li.is_weak() {
            lemma_within_insert(s.added_weak, s.have, s2.have, mi, ix);
        } else {
            lemma_within_grows(s.added_weak, s.have, s2.have);
        }
    }
}

pub proof fn lemma_deposit_from(
    s: State,
    replay: IndexTable,
    mi: NodeIndex,
    lis: Seq<LookupIndexView>,
    j: int,
)
    ensures
        extends(s, deposit_from(s, replay, mi, lis, j).0),
        deposit_from(s, replay, mi, lis, j).0.partial == s.partial,
    decreases lis.len() - j,
{
    if 0 <= j < lis.len() {
        lemma_deposit_one(s, replay, mi, lis[j]);
        let (s2, r2) = deposit_one(s, replay, mi, lis[j]);
        lemma_deposit_from(s2, r2, mi, lis, j + 1);
        lemma_extends_trans(s, s2, deposit_from(s2, r2, mi, lis, j + 1).0);
    } else {
        lemma_grown_refl(s);
    }
}

proof fn lemma_hoist_from(s: State, replay: IndexTable, g: GraphView, lookups: Lookups, i: int)
    ensures
        hoist_from(s, replay, g, lookups, i) matches Ok((s2, r2)) ==> extends(s, s2) && s2.partial
            == s.partial,
    decreases lookups.len() - i,
{
    if 0 <= i < lookups.len() {
        match hoist_walk(s.have, g, lookups[i].0, lookups[i].1, g.nodes.len()) {
            Err(e) => {},
            Ok((mi, lis)) => {
                lemma_deposit_from(s, replay, mi, lis, 0);
                let (s2, r2) = deposit_from(s, replay, mi, lis, 0);
                lemma_hoist_from(s2, r2, g, lookups, i + 1);
                if hoist_from(s2, r2, g, lookups, i + 1) is Ok {
                    lemma_extends_trans(s, s2, hoist_from(s2, r2, g, lookups, i + 1)->Ok_0.0);
                }
            },
        }
    } else {
        lemma_grown_refl(s);
    }
}

proof fn lemma_walk_path(w: Walk, path: ReplayPath, i: int)
    ensures
        table_grows(w.have, walk_path(w, path, i).have),
        walk_path(w, path, i).able ==> w.able,
    decreases path.segments@.len() - i,
{
    let len = path.segments@.len();
    if 0 <= i < len {
        let seg = path.segments@[len - 1 - i];
        match seg.index {
            None => {},
            Some(index) => {
                if w.have.contains_key(seg.node) {
                } else if i == len - 1 && path.broken {
                    lemma_table_grows_touch(w.have, seg.node);
                } else {
                    lemma_walk_path(w, path, i + 1);
                }
            },
        }
    }
    assert(table_grows(w.have, w.have)) by {
        assert forall|m: NodeIndex, j: IndexView| #[trigger] table_has(w.have, m, j) implies table_has(
            w.have,
            m,
            j,
        ) by {}
    }
}

/// Walking replay paths takes no materialization back, and never makes a
/// node able to be partial that was not.
pub proof fn lemma_walk_paths(w: Walk, ni: NodeIndex, paths: Seq<ReplayPath>, p: int)
    ensures
        table_grows(w.have, walk_paths(w, ni, paths, p).have),
        walk_paths(w, ni, paths, p).able ==> w.able,
    decreases paths.len() - p,
{
    if 0 <= p < paths.len() && !w.stopped {
        let skip = steps_to_skip(paths[p], ni);
        let w2 = walk_path(w, paths[p], skip);
        lemma_walk_path(w, paths[p], skip);
        lemma_walk_paths(w2, ni, paths, p + 1);
        lemma_table_grows_trans(w.have, w2.have, walk_paths(w2, ni, paths, p + 1).have);
    } else {
        assert forall|m: NodeIndex, j: IndexView| #[trigger] table_has(w.have, m, j) implies table_has(
            w.have,
            m,
            j,
        ) by {}
    }
}

proof fn lemma_fulfil_from(s: State, ni: NodeIndex, indexes: Seq<IndexView>, recovery: bool, j: int)
    ensures
        extends(s, fulfil_from(s, ni, indexes, recovery, j)),
        fulfil_from(s, ni, indexes, recovery, j).partial == s.partial,
    decreases indexes.len() - j,
{
    if 0 <= j < indexes.len() {
        let ix = indexes[j];
        let fresh = !table_has(s.have, ni, ix);
        let grows = fresh || s.partial.contains(ni) || recovery;
        let added = if grows {
            table_insert(s.added, ni, ix)
        } else {
            s.added
        };
        let s2 = State { have: table_insert(s.have, ni, ix), added, ..s };
        lemma_table_grows_insert(s.have, ni, ix);
        lemma_table_grows_insert(s.added, ni, ix);
        if !grows {
            assert forall|m: NodeIndex, k: IndexView| #[trigger]
                table_has(s.added, m, k) implies table_has(s2.added, m, k) by {}
        }
        assert(table_grows(s.added_weak, s2.added_weak)) by {
            assert forall|m: NodeIndex, k: IndexView| #[trigger]
                table_has(s.added_weak, m, k) implies table_has(s2.added_weak, m, k) by {}
        }
        if added_had(s) {
            if grows {
                lemma_within_insert(s.added, s.have, s2.have, ni, ix);
            } else {
                lemma_within_grows(s.added, s.have, s2.have);
            }
        }
        if weak_had(s) {
            lemma_within_grows(s.added_weak, s.have, s2.have);
        }
        assert(extends(s, s2));
        lemma_fulfil_from(s2, ni, indexes, recovery, j + 1);
        lemma_extends_trans(s, s2, fulfil_from(s2, ni, indexes, recovery, j + 1));
    } else {
        lemma_grown_refl(s);
    }
}

/// Declaring indexes for a node takes nothing back, keeps what held, and
/// leaves the node materialized.
pub proof fn lemma_fulfil(s: State, ni: NodeIndex, indexes: Seq<IndexView>, recovery: bool)
    ensures
        extends(s, fulfil(s, ni, indexes, recovery)),
        fulfil(s, ni, indexes, recovery).partial == s.partial,
        fulfil(s, ni, indexes, recovery).have.contains_key(ni),
{
    let touched = State { have: table_touch(s.have, ni), ..s };
    lemma_table_grows_touch(s.have, ni);
    lemma_set_have(s, touched.have);
    lemma_fulfil_from(touched, ni, indexes, recovery, 0);
    lemma_extends_trans(s, touched, fulfil(s, ni, indexes, recovery));
}

/// Deciding a node takes nothing back, keeps what held, and makes no base
/// table partial.
pub proof fn lemma_analyze_node(
    s: State,
    replay: IndexTable,
    g: GraphView,
    new: Set<NodeIndex>,
    recovery: bool,
    ni: NodeIndex,
)
    requires
        g.has_node(ni),
    ensures
        analyze_node(s, replay, g, new, recovery, ni) matches Ok((s2, r2)) ==> extends(s, s2)
            && only_non_base_added(s, s2, g),
{
    lemma_grown_refl(s);
    if replay.contains_key(ni) {
        let indexes = replay[ni];
        match gather_paths(g, ni, indexes, 0, Seq::empty()) {
            None => {},
            Some(paths) => {
                let start = Walk {
                    have: s.have,
                    add: Map::empty(),
                    able: eligible(s, g, new, ni),
                    stopped: false,
                };
                let w = walk_paths(start, ni, broken_first(paths), 0);
                lemma_walk_paths(start, ni, broken_first(paths), 0);
                let walked = State { have: w.have, ..s };
                lemma_set_have(s, w.have);
                if w.able {
                    let marked = State { have: w.have, partial: s.partial.insert(ni), ..s };
                    lemma_fulfil(marked, ni, indexes, recovery);
                    let s2 = fulfil(marked, ni, indexes, recovery);
                    assert(grown(walked, marked));
                    lemma_grown_trans(s, walked, marked);
                    lemma_grown_trans(s, marked, s2);
                    assert(added_had(s) ==> added_had(marked));
                    assert(weak_had(s) ==> weak_had(marked));
                    if partial_materialized(s) {
                        assert forall|n: NodeIndex| s2.partial.contains(
                            n,
                        ) implies s2.have.dom().contains(n) by {
                            if n != ni {
                                assert(s.partial.contains(n));
                                assert(s.have.dom().contains(n));
                            }
                        }
                    }
                } else {
                    lemma_fulfil(walked, ni, indexes, recovery);
                    lemma_extends_trans(s, walked, fulfil(walked, ni, indexes, recovery));
                }
            },
        }
    }
}

proof fn lemma_only_non_base_trans(a: State, b: State, c: State, g: GraphView)
    requires
        only_non_base_added(a, b, g),
        only_non_base_added(b, c, g),
    ensures
        only_non_base_added(a, c, g),
{
}

/// Every node of the list is a node of the graph that planning looks at.
pub open spec fn all_planned(g: GraphView, nodes: Seq<NodeIndex>) -> bool {
    forall|i: int| 0 <= i < nodes.len() ==> is_planned(g, #[trigger] nodes[i])
}

proof fn lemma_analyze_down(
    s: State,
    replay: IndexTable,
    g: GraphView,
    new: Set<NodeIndex>,
    recovery: bool,
    nodes: Seq<NodeIndex>,
    k: int,
)
    requires
        all_planned(g, nodes),
    ensures
        analyze_down(s, replay, g, new, recovery, nodes, k) matches Ok((s2, r2)) ==> extends(s, s2)
            && only_non_base_added(s, s2, g),
    decreases k,
{
    if 0 < k <= nodes.len() {
        assert(is_planned(g, nodes[k - 1]));
        lemma_analyze_node(s, replay, g, new, recovery, nodes[k - 1]);
        match analyze_node(s, replay, g, new, recovery, nodes[k - 1]) {
            Err(e) => {},
            Ok((s2, r2)) => {
                lemma_analyze_down(s2, r2, g, new, recovery, nodes, k - 1);
                match analyze_down(s2, r2, g, new, recovery, nodes, k - 1) {
                    Err(e) => {},
                    Ok((s3, r3)) => {
                        lemma_extends_trans(s, s2, s3);
                        lemma_only_non_base_trans(s, s2, s3, g);
                    },
                }
            },
        }
    } else {
        lemma_grown_refl(s);
    }
}

/// Every node that planning looks at is a node of the graph.
pub proof fn lemma_planned_nodes(g: GraphView, order: Seq<NodeIndex>, j: int, acc: Seq<NodeIndex>)
    requires
        all_planned(g, acc),
    ensures
        all_planned(g, planned_nodes(g, order, j, acc)),
    decreases order.len() - j,
{
    if 0 <= j < order.len() {
        if is_planned(g, order[j]) {
            let acc2 = acc.push(order[j]);
            assert forall|i: int| 0 <= i < acc2.len() implies is_planned(g, #[trigger] acc2[i]) by {
                if i < acc.len() {
                    assert(acc2[i] == acc[i]);
                }
            }
            lemma_planned_nodes(g, order, j + 1, acc2);
        } else {
            lemma_planned_nodes(g, order, j + 1, acc);
        }
    }
}

proof fn lemma_record_from(c: Collected, obs: Seq<(NodeIndex, IndexObligationView)>, j: int)
    ensures
        record_from(c, obs, j).new_readers == c.new_readers,
    decreases obs.len() - j,
{
    if 0 <= j < obs.len() {
        lemma_record_from(record_obligation(c, obs[j].0, obs[j].1), obs, j + 1);
    }
}

proof fn lemma_collect_from(c: Collected, g: GraphView, new: Seq<NodeIndex>, i: int)
    ensures
        collect_from(c, g, new, i) matches Ok(c2) ==> c.new_readers.subset_of(c2.new_readers),
    decreases new.len() - i,
{
    if 0 <= i < new.len() {
        match collect_node(c, g, new[i]) {
            Err(e) => {},
            Ok(c1) => {
                let n = g.nodes[new[i] as int];
                let seen = if n.spec_reader_index() is Some {
                    c.new_readers.insert(new[i])
                } else {
                    c.new_readers
                };
                lemma_record_from(
                    Collected { new_readers: seen, ..c },
                    node_obligations(n, new[i]),
                    0,
                );
                lemma_collect_from(c1, g, new, i + 1);
            },
        }
    }
}

/// Analysing all nodes takes nothing back, keeps what held, and makes no
/// base table partial.
pub proof fn lemma_analyze_all(
    s: State,
    replay: IndexTable,
    g: GraphView,
    new: Set<NodeIndex>,
    recovery: bool,
)
    ensures
        analyze_all(s, replay, g, new, recovery) matches Ok((s2, r2)) ==> extends(s, s2)
            && only_non_base_added(s, s2, g),
{
    let nodes = planned_nodes(g, g.order, 0, Seq::empty());
    lemma_planned_nodes(g, g.order, 0, Seq::empty());
    lemma_analyze_down(s, replay, g, new, recovery, nodes, nodes.len() as int);
}

/// Extending takes nothing back: whatever was materialized, added, partial
/// or recorded before still is. It keeps each of these, where it held
/// before: every partial node is materialized; every added index is an
/// index that its node has; every weak index that was added has its strict
/// twin among the indexes of its node. And a node that becomes partial is a
/// node of the graph and no base table.
pub proof fn lemma_extend_keeps_consistent(
    s: State,
    g: GraphView,
    new: Seq<NodeIndex>,
    recovery: bool,
)
    ensures
        extend_spec(s, g, new, recovery) matches Ok((s2, g2)) ==> {
            &&& grown(s, s2)
            &&& partial_materialized(s) ==> partial_materialized(s2)
            &&& added_had(s) ==> added_had(s2)
            &&& weak_had(s) ==> weak_had(s2)
            &&& s.consistent() ==> s2.consistent()
            &&& only_non_base_added(s, s2, g)
        },
{
    let start = Collected { new_readers: s.new_readers, lookups: Seq::empty(), replay: Map::empty() };
    lemma_collect_from(start, g, new, 0);
    match collect_from(start, g, new, 0) {
        Err(e) => {},
        Ok(c) => {
            let s1 = State { new_readers: c.new_readers, ..s };
            lemma_grown_refl(s);
            assert(extends(s, s1));
            lemma_hoist_from(s1, c.replay, g, c.lookups, 0);
            match hoist_from(s1, c.replay, g, c.lookups, 0) {
                Err(e) => {},
                Ok((s2, r2)) => {
                    lemma_extends_trans(s, s1, s2);
                    lemma_analyze_all(s2, r2, g, new.to_set(), recovery);
                    match analyze_all(s2, r2, g, new.to_set(), recovery) {
                        Err(e) => {},
                        Ok((s3, r3)) => {
                            lemma_extends_trans(s, s2, s3);
                        },
                    }
                },
            }
        },
    }
}

/// Extending keeps every partial node materialized, whatever else holds of the state.
pub proof fn lemma_extend_keeps_partial_materialized(
    s: State,
    g: GraphView,
    new: Seq<NodeIndex>,
    recovery: bool,
)
    requires
        forall|n: NodeIndex| s.partial.contains(n) ==> s.have.contains_key(n),
    ensures
        extend_spec(s, g, new, recovery) matches Ok((s2, g2)) ==> forall|n: NodeIndex|
            s2.partial.contains(n) ==> s2.have.contains_key(n),
{
    lemma_extend_keeps_consistent(s, g, new, recovery);
    assert(partial_materialized(s));
    match extend_spec(s, g, new, recovery) {
        Err(e) => {},
        Ok((s2, g2)) => {
            assert forall|n: NodeIndex| s2.partial.contains(n) implies s2.have.contains_key(n) by {
                assert(s2.have.dom().contains(n));
            }
        },
    }
}

/// Extending keeps the strict twin of every weak index that was added among
/// the indexes of its node, whatever else holds of the state.
pub proof fn lemma_extend_keeps_weak_had(
    s: State,
    g: GraphView,
    new: Seq<NodeIndex>,
    recovery: bool,
)
    requires
        forall|n: NodeIndex, i: IndexView|
            s.added_weak.contains_key(n) && s.added_weak[n].contains(i) ==> s.have.contains_key(n)
                && s.have[n].contains(i),
    ensures
        extend_spec(s, g, new, recovery) matches Ok((s2, g2)) ==> forall|n: NodeIndex, i: IndexView|
            s2.added_weak.contains_key(n) && s2.added_weak[n].contains(i)
                ==> s2.have.contains_key(n) && s2.have[n].contains(i),
{
    lemma_extend_keeps_consistent(s, g, new, recovery);
    assert(weak_had(s)) by {
        assert forall|n: NodeIndex, i: IndexView| #[trigger]
            table_has(s.added_weak, n, i) implies table_has(s.have, n, i) by {}
    }
    match extend_spec(s, g, new, recovery) {
        Err(e) => {},
        Ok((s2, g2)) => {
            assert forall|n: NodeIndex, i: IndexView|
                s2.added_weak.contains_key(n) && s2.added_weak[n].contains(
                    i,
                ) implies s2.have.contains_key(n) && s2.have[n].contains(i) by {
                assert(table_has(s2.added_weak, n, i));
                assert(table_has(s2.have, n, i));
            }
        },
    }
}

} // verus!
