//! The order of the requests of a commit: a replay is started at a new
//! node only after the node's domain has been asked whether it is ready.

use crate::collections::table_get;
use crate::committing::{
    address_position, address_removed, addresses_of, commit_spec, continues, indexes_to_build,
    make_from, make_one, plan_indexes, ready_one_spec, reindex_from, reindex_one, setup_spec,
    split_nodes, start_replay, start_replays, wait_for, Address, PendingReplay, Planned, Progress,
};

use crate::graph::GraphView;
use crate::index::{IndexView, NodeIndex};
use crate::node::Node;
use crate::partiality::{is_planned, planned_nodes};
use crate::plan::{DomainRequestView, Message};
use crate::state::State;
use vstd::prelude::*;

verus! {

/// Whether the request asks the domain of the node whether the node is ready.
pub open spec fn asks_ready(m: Message, a: Address) -> bool {
    m == (a.0, DomainRequestView::IsReady { node: a.1 })
}

/// Whether the request starts a replay from the node.
pub open spec fn starts_replay_from(m: Message, a: Address) -> bool {
    m.0 == a.0 && m.1 is StartReplay && m.1->from == a.1
}

/// From position `base` on, every node of `init` is still waited for or has
/// been asked about, and before every replay started from a node of `init`,
/// the node has been asked about.
pub open spec fn ready_first(
    messages: Seq<Message>,
    waiting: Seq<Address>,
    init: Seq<Address>,
    base: int,
) -> bool {
    &&& 0 <= base <= messages.len()
    &&& forall|a: Address| #[trigger]
        init.contains(a) ==> waiting.contains(a) || exists|j: int|
            base <= j < messages.len() && asks_ready(#[trigger] messages[j], a)
    &&& forall|k: int, a: Address|
        base <= k < messages.len() && init.contains(a) && #[trigger] starts_replay_from(
            messages[k],
            a,
        ) ==> exists|j: int| base <= j < k && asks_ready(#[trigger] messages[j], a)
}

proof fn lemma_address_position(s: Seq<Address>, a: Address, from: int)
    requires
        0 <= from <= s.len(),
    ensures
        from <= address_position(s, a, from) <= s.len(),
        address_position(s, a, from) < s.len() ==> s[address_position(s, a, from)] == a,
        forall|j: int| from <= j < address_position(s, a, from) ==> s[j] != a,
    decreases s.len() - from,
{
    if from < s.len() && s[from] != a {
        lemma_address_position(s, a, from + 1);
    }
}

proof fn lemma_address_removed(s: Seq<Address>, a: Address, b: Address)
    requires
        b != a,
        s.contains(b),
    ensures
        address_removed(s, a).contains(b),
{
    lemma_address_position(s, a, 0);
    let p = address_position(s, a, 0);
    if p < s.len() {
        let i = choose|i: int| 0 <= i < s.len() && s[i] == b;
        let r = s.remove(p);
        if i < p {
            assert(r[i] == b);
        } else {
            assert(r[i - 1] == b);
        }
    }
}

proof fn lemma_push_keeps(
    messages: Seq<Message>,
    waiting: Seq<Address>,
    init: Seq<Address>,
    base: int,
    m: Message,
)
    requires
        ready_first(messages, waiting, init, base),
        !(m.1 is StartReplay),
    ensures
        ready_first(messages.push(m), waiting, init, base),
{
    let m2 = messages.push(m);
    assert forall|a: Address| #[trigger] init.contains(a) implies waiting.contains(a) || exists|
        j: int,
    | base <= j < m2.len() && asks_ready(#[trigger] m2[j], a) by {
        if !waiting.contains(a) {
            let j = choose|j: int| base <= j < messages.len() && asks_ready(#[trigger] messages[j], a);
            assert(m2[j] == messages[j]);
        }
    }
    assert forall|k: int, a: Address|
        base <= k < m2.len() && init.contains(a) && #[trigger] starts_replay_from(
            m2[k],
            a,
        ) implies exists|j: int| base <= j < k && asks_ready(#[trigger] m2[j], a) by {
        assert(k < messages.len());
        assert(m2[k] == messages[k]);
        assert(starts_replay_from(messages[k], a));
        let j = choose|j: int| base <= j < k && asks_ready(#[trigger] messages[j], a);
        assert(m2[j] == messages[j]);
    }
}

proof fn lemma_start_replay(
    messages: Seq<Message>,
    waiting: Seq<Address>,
    init: Seq<Address>,
    base: int,
    p: PendingReplay,
)
    requires
        ready_first(messages, waiting, init, base),
    ensures
        ready_first(
            start_replay(messages, waiting, p).0,
            start_replay(messages, waiting, p).1,
            init,
            base,
        ),
{
    let source = (p.source_domain, p.source);
    let (m2, w2) = start_replay(messages, waiting, p);
    lemma_address_position(waiting, source, 0);
    let found = address_position(waiting, source, 0) < waiting.len();
    let n = messages.len() as int;
    assert forall|j: int| 0 <= j < n implies m2[j] == messages[j] by {}
    if found {
        assert(asks_ready(m2[n], source));
        assert(starts_replay_from(m2[n + 1], source));
    } else {
        assert(starts_replay_from(m2[n], source));
        assert(!waiting.contains(source));
    }
    assert forall|a: Address| #[trigger] init.contains(a) implies w2.contains(a) || exists|j: int|
        base <= j < m2.len() && asks_ready(#[trigger] m2[j], a) by {
        if waiting.contains(a) {
            if a == source {
                assert(found);
                assert(asks_ready(m2[n], a));
            } else if found {
                lemma_address_removed(waiting, source, a);
            }
        } else {
            let j = choose|j: int| base <= j < n && asks_ready(#[trigger] messages[j], a);
            assert(m2[j] == messages[j]);
        }
    }
    assert forall|k: int, a: Address|
        base <= k < m2.len() && init.contains(a) && #[trigger] starts_replay_from(
            m2[k],
            a,
        ) implies exists|j: int| base <= j < k && asks_ready(#[trigger] m2[j], a) by {
        if k < n {
            assert(m2[k] == messages[k]);
            assert(starts_replay_from(messages[k], a));
            let j = choose|j: int| base <= j < k && asks_ready(#[trigger] messages[j], a);
            assert(m2[j] == messages[j]);
        } else if found {
            assert(k == n + 1);
            assert(a == source);
            assert(asks_ready(m2[n], a));
        } else {
            assert(k == n);
            assert(a == source);
            let j = choose|j: int| base <= j < n && asks_ready(#[trigger] messages[j], a);
            assert(m2[j] == messages[j]);
        }
    }
}

proof fn lemma_start_replays(
    messages: Seq<Message>,
    waiting: Seq<Address>,
    init: Seq<Address>,
    base: int,
    pending: Seq<PendingReplay>,
    k: int,
)
    requires
        ready_first(messages, waiting, init, base),
    ensures
        ready_first(
            start_replays(messages, waiting, pending, k).0,
            start_replays(messages, waiting, pending, k).1,
            init,
            base,
        ),
    decreases pending.len() - k,
{
    if 0 <= k < pending.len() {
        lemma_start_replay(messages, waiting, init, base, pending[k]);
        let (m2, w2) = start_replay(messages, waiting, pending[k]);
        lemma_start_replays(m2, w2, init, base, pending, k + 1);
    }
}

proof fn lemma_setup(
    c: Progress,
    g: GraphView,
    ni: NodeIndex,
    index_on: Seq<IndexView>,
    init: Seq<Address>,
    base: int,
)
    requires
        ready_first(c.messages, c.waiting, init, base),
    ensures
        setup_spec(c, g, ni, index_on) matches Ok(c2) ==> ready_first(
            c2.messages,
            c2.waiting,
            init,
            base,
        ),
{
    match indexes_to_build(g, ni, index_on) {
        Err(e) => {},
        Ok(indexes) => {
            match plan_indexes(
                Planned { state: c.state, pending: Seq::empty(), entries: Seq::empty() },
                g,
                ni,
                indexes,
                0,
            ) {
                Err(e) => {},
                Ok(pl) => {
                    if pl.pending.len() > 0 {
                        lemma_start_replays(c.messages, c.waiting, init, base, pl.pending, 0);
                        let (messages, waiting) = start_replays(
                            c.messages,
                            c.waiting,
                            pl.pending,
                            0,
                        );
                        let n = g.nodes[ni as int];
                        lemma_push_keeps(
                            messages,
                            waiting,
                            init,
                            base,
                            (n.domain, DomainRequestView::QueryReplayDone { node: n.local_addr }),
                        );
                    }
                },
            }
        },
    }
}

proof fn lemma_make_from(
    c: Progress,
    g: GraphView,
    make: Seq<NodeIndex>,
    i: int,
    init: Seq<Address>,
    base: int,
)
    requires
        ready_first(c.messages, c.waiting, init, base),
    ensures
        make_from(c, g, make, i) matches Ok(c2) ==> ready_first(
            c2.messages,
            c2.waiting,
            init,
            base,
        ),
    decreases make.len() - i,
{
    if 0 <= i < make.len() {
        let ni = make[i];
        match make_one(c, g, ni) {
            Err(e) => {},
            Ok(made) => {
                let index_on = table_get(c.state.added, ni);
                let taken = Progress {
                    state: State { added: c.state.added.remove(ni), ..c.state },
                    ..c
                };
                lemma_setup(taken, g, ni, index_on, init, base);
                let (c2, left) = ready_one_spec(taken, g, ni, index_on)->Ok_0;
                let n = g.nodes[ni as int];
                lemma_push_keeps(
                    c2.messages,
                    c2.waiting,
                    init,
                    base,
                    (
                        n.domain,
                        DomainRequestView::Ready {
                            node: n.local_addr,
                            purge: n.purge,
                            index: crate::committing::strict_views(left),
                        },
                    ),
                );
                lemma_make_from(made, g, make, i + 1, init, base);
            },
        }
    }
}

proof fn lemma_reindex_from(
    c: Progress,
    g: GraphView,
    new: Set<NodeIndex>,
    nodes: Seq<NodeIndex>,
    i: int,
    init: Seq<Address>,
    base: int,
)
    requires
        ready_first(c.messages, c.waiting, init, base),
    ensures
        reindex_from(c, g, new, nodes, i) matches Ok(c2) ==> ready_first(
            c2.messages,
            c2.waiting,
            init,
            base,
        ),
    decreases nodes.len() - i,
{
    if 0 <= i < nodes.len() {
        let node = nodes[i];
        match reindex_one(c, g, new, node) {
            Err(e) => {},
            Ok(c2) => {
                let index_on = table_get(c.state.added, node);
                let state = State { added: c.state.added.remove(node), ..c.state };
                lemma_setup(Progress { state, ..c }, g, node, index_on, init, base);
                lemma_reindex_from(c2, g, new, nodes, i + 1, init, base);
            },
        }
    }
}

/// After the nodes still waited for have been asked about, every node of
/// `init` has been asked about.
proof fn lemma_wait_for(
    messages: Seq<Message>,
    waiting: Seq<Address>,
    k: int,
    init: Seq<Address>,
    base: int,
)
    requires
        0 <= k <= waiting.len(),
        0 <= base <= messages.len(),
        forall|a: Address| #[trigger]
            init.contains(a) ==> (exists|i: int| k <= i < waiting.len() && waiting[i] == a)
                || exists|j: int|
                base <= j < messages.len() && asks_ready(#[trigger] messages[j], a),
        forall|q: int, a: Address|
            base <= q < messages.len() && init.contains(a) && #[trigger] starts_replay_from(
                messages[q],
                a,
            ) ==> exists|j: int| base <= j < q && asks_ready(#[trigger] messages[j], a),
    ensures
        ready_first(wait_for(messages, waiting, k), Seq::empty(), init, base),
    decreases waiting.len() - k,
{
    if k < waiting.len() {
        let m = (waiting[k].0, DomainRequestView::IsReady { node: waiting[k].1 });
        let m2 = messages.push(m);
        let n = messages.len() as int;
        assert(asks_ready(m2[n], waiting[k]));
        assert forall|a: Address| #[trigger] init.contains(a) implies (exists|i: int|
            k + 1 <= i < waiting.len() && waiting[i] == a) || exists|j: int|
            base <= j < m2.len() && asks_ready(#[trigger] m2[j], a) by {
            if exists|i: int| k <= i < waiting.len() && waiting[i] == a {
                let i = choose|i: int| k <= i < waiting.len() && waiting[i] == a;
                if i == k {
                    assert(asks_ready(m2[n], a));
                }
            } else {
                let j = choose|j: int| base <= j < n && asks_ready(#[trigger] messages[j], a);
                assert(m2[j] == messages[j]);
            }
        }
        assert forall|q: int, a: Address|
            base <= q < m2.len() && init.contains(a) && #[trigger] starts_replay_from(
                m2[q],
                a,
            ) implies exists|j: int| base <= j < q && asks_ready(#[trigger] m2[j], a) by {
            assert(q < n);
            assert(m2[q] == messages[q]);
            assert(starts_replay_from(messages[q], a));
            let j = choose|j: int| base <= j < q && asks_ready(#[trigger] messages[j], a);
            assert(m2[j] == messages[j]);
        }
        lemma_wait_for(m2, waiting, k + 1, init, base);
    } else {
        let r = wait_for(messages, waiting, k);
        assert(r == messages);
    }
}

/// The new nodes that a commit makes, in the order in which it makes them.
pub open spec fn made_nodes(s: State, g: GraphView, new: Set<NodeIndex>) -> Seq<NodeIndex> {
    split_nodes(
        s,
        new,
        planned_nodes(g, g.order, 0, Seq::empty()),
        0,
        Seq::empty(),
        Seq::empty(),
    ).0
}

/// Among the requests that a commit adds, the domain of every node that is
/// made is asked whether the node is ready, and it is asked before any
/// replay is started from that node.
pub proof fn lemma_ready_before_replay(
    s: State,
    g: GraphView,
    new: Set<NodeIndex>,
    messages: Seq<Message>,
)
    ensures
        commit_spec(s, g, new, messages) matches Ok((s2, m2)) ==> ready_first(
            m2,
            Seq::empty(),
            addresses_of(g, made_nodes(s, g, new), 0, Seq::empty()),
            messages.len() as int,
        ),
{
    let nodes = planned_nodes(g, g.order, 0, Seq::empty());
    let (make, reindex) = split_nodes(s, new, nodes, 0, Seq::empty(), Seq::empty());
    let init = addresses_of(g, make, 0, Seq::empty());
    let base = messages.len() as int;
    let start = Progress { state: s, messages, waiting: init };
    assert(ready_first(messages, init, init, base));
    lemma_reindex_from(start, g, new, reindex, 0, init, base);
    match reindex_from(start, g, new, reindex, 0) {
        Err(e) => {},
        Ok(c1) => {
            lemma_make_from(c1, g, make, 0, init, base);
            match make_from(c1, g, make, 0) {
                Err(e) => {},
                Ok(c2) => {
                    assert forall|a: Address| #[trigger] init.contains(a) implies (exists|i: int|
                        0 <= i < c2.waiting.len() && c2.waiting[i] == a) || exists|j: int|
                        base <= j < c2.messages.len() && asks_ready(
                            #[trigger] c2.messages[j],
                            a,
                        ) by {
                        if c2.waiting.contains(a) {
                            let i = choose|i: int| 0 <= i < c2.waiting.len() && c2.waiting[i] == a;
                        }
                    }
                    lemma_wait_for(c2.messages, c2.waiting, 0, init, base);
                },
            }
        },
    }
}

/// Whether the request tells the domain of the node that the node is ready.
pub open spec fn tells_ready(m: Message, n: Node) -> bool {
    &&& m.0 == n.domain
    &&& m.1 matches DomainRequestView::Ready { node, purge, .. }
    &&& node == n.local_addr && purge == n.purge
}

proof fn lemma_start_replays_continues(
    messages: Seq<Message>,
    waiting: Seq<Address>,
    pending: Seq<PendingReplay>,
    k: int,
)
    ensures
        continues(messages, start_replays(messages, waiting, pending, k).0),
    decreases pending.len() - k,
{
    if 0 <= k < pending.len() {
        let (m2, w2) = start_replay(messages, waiting, pending[k]);
        lemma_start_replays_continues(m2, w2, pending, k + 1);
        let m3 = start_replays(m2, w2, pending, k + 1).0;
        assert forall|j: int| 0 <= j < messages.len() implies #[trigger] m3[j] == messages[j] by {
            assert(m2[j] == messages[j]);
        }
    }
}

proof fn lemma_setup_continues(c: Progress, g: GraphView, ni: NodeIndex, index_on: Seq<IndexView>)
    ensures
        setup_spec(c, g, ni, index_on) matches Ok(c2) ==> continues(c.messages, c2.messages),
{
    match indexes_to_build(g, ni, index_on) {
        Err(e) => {},
        Ok(indexes) => {
            match plan_indexes(
                Planned { state: c.state, pending: Seq::empty(), entries: Seq::empty() },
                g,
                ni,
                indexes,
                0,
            ) {
                Err(e) => {},
                Ok(pl) => {
                    if pl.pending.len() > 0 {
                        lemma_start_replays_continues(c.messages, c.waiting, pl.pending, 0);
                    }
                },
            }
        },
    }
}

/// Making a node adds requests, the last of which tells the node's domain
/// that the node is ready.
proof fn lemma_make_one_tells(c: Progress, g: GraphView, ni: NodeIndex)
    ensures
        make_one(c, g, ni) matches Ok(c2) ==> continues(c.messages, c2.messages)
            && c2.messages.len() > c.messages.len() && tells_ready(
            c2.messages.last(),
            g.nodes[ni as int],
        ),
{
    match make_one(c, g, ni) {
        Err(e) => {},
        Ok(c2) => {
            let index_on = table_get(c.state.added, ni);
            let taken = Progress { state: State { added: c.state.added.remove(ni), ..c.state }, ..c };
            lemma_setup_continues(taken, g, ni, index_on);
            let (c1, left) = ready_one_spec(taken, g, ni, index_on)->Ok_0;
            assert(continues(c.messages, c1.messages));
            assert forall|j: int| 0 <= j < c.messages.len() implies #[trigger] c2.messages[j]
                == c.messages[j] by {
                assert(c1.messages[j] == c.messages[j]);
            }
        },
    }
}

proof fn lemma_make_from_tells(c: Progress, g: GraphView, make: Seq<NodeIndex>, i: int, k: int)
    requires
        0 <= i <= k < make.len(),
    ensures
        make_from(c, g, make, i) matches Ok(c2) ==> continues(c.messages, c2.messages) && exists|
            j: int,
        | c.messages.len() <= j < c2.messages.len() && tells_ready(
            #[trigger] c2.messages[j],
            g.nodes[make[k] as int],
        ),
    decreases make.len() - i,
{
    match make_one(c, g, make[i]) {
        Err(e) => {},
        Ok(c1) => {
            lemma_make_one_tells(c, g, make[i]);
            lemma_make_from_continues(c1, g, make, i + 1);
            match make_from(c1, g, make, i + 1) {
                Err(e) => {},
                Ok(c2) => {
                    assert forall|j: int| 0 <= j < c.messages.len() implies #[trigger] c2.messages[j]
                        == c.messages[j] by {
                        assert(c1.messages[j] == c.messages[j]);
                    }
                    if i == k {
                        let j = c1.messages.len() - 1;
                        assert(c2.messages[j] == c1.messages[j]);
                        assert(tells_ready(c2.messages[j], g.nodes[make[k] as int]));
                    } else {
                        lemma_make_from_tells(c1, g, make, i + 1, k);
                        let j = choose|j: int|
                            c1.messages.len() <= j < c2.messages.len() && tells_ready(
                                #[trigger] c2.messages[j],
                                g.nodes[make[k] as int],
                            );
                        assert(c.messages.len() <= j < c2.messages.len() && tells_ready(
                            c2.messages[j],
                            g.nodes[make[k] as int],
                        ));
                    }
                },
            }
        },
    }
}

proof fn lemma_make_from_continues(c: Progress, g: GraphView, make: Seq<NodeIndex>, i: int)
    ensures
        make_from(c, g, make, i) matches Ok(c2) ==> continues(c.messages, c2.messages),
    decreases make.len() - i,
{
    if 0 <= i < make.len() {
        match make_one(c, g, make[i]) {
            Err(e) => {},
            Ok(c1) => {
                lemma_make_one_tells(c, g, make[i]);
                lemma_make_from_continues(c1, g, make, i + 1);
                match make_from(c1, g, make, i + 1) {
                    Err(e) => {},
                    Ok(c2) => {
                        assert forall|j: int| 0 <= j < c.messages.len() implies #[trigger] c2.messages[j]
                            == c.messages[j] by {
                            assert(c1.messages[j] == c.messages[j]);
                        }
                    },
                }
            },
        }
    }
}

proof fn lemma_reindex_from_continues(
    c: Progress,
    g: GraphView,
    new: Set<NodeIndex>,
    nodes: Seq<NodeIndex>,
    i: int,
)
    ensures
        reindex_from(c, g, new, nodes, i) matches Ok(c2) ==> continues(c.messages, c2.messages),
    decreases nodes.len() - i,
{
    if 0 <= i < nodes.len() {
        match reindex_one(c, g, new, nodes[i]) {
            Err(e) => {},
            Ok(c1) => {
                let index_on = table_get(c.state.added, nodes[i]);
                let state = State { added: c.state.added.remove(nodes[i]), ..c.state };
                lemma_setup_continues(Progress { state, ..c }, g, nodes[i], index_on);
                lemma_reindex_from_continues(c1, g, new, nodes, i + 1);
                match reindex_from(c1, g, new, nodes, i + 1) {
                    Err(e) => {},
                    Ok(c2) => {
                        assert forall|j: int| 0 <= j < c.messages.len() implies #[trigger] c2.messages[j]
                            == c.messages[j] by {
                            assert(c1.messages[j] == c.messages[j]);
                        }
                    },
                }
            },
        }
    }
}

proof fn lemma_wait_for_continues(messages: Seq<Message>, waiting: Seq<Address>, k: int)
    ensures
        continues(messages, wait_for(messages, waiting, k)),
    decreases waiting.len() - k,
{
    if 0 <= k < waiting.len() {
        let m2 = messages.push((waiting[k].0, DomainRequestView::IsReady { node: waiting[k].1 }));
        lemma_wait_for_continues(m2, waiting, k + 1);
        let m3 = wait_for(m2, waiting, k + 1);
        assert forall|j: int| 0 <= j < messages.len() implies #[trigger] m3[j] == messages[j] by {
            assert(m2[j] == messages[j]);
        }
    }
}

proof fn lemma_planned_has(g: GraphView, order: Seq<NodeIndex>, j: int, acc: Seq<NodeIndex>, n: NodeIndex)
    requires
        0 <= j,
        is_planned(g, n),
        acc.contains(n) || exists|k: int| j <= k < order.len() && order[k] == n,
    ensures
        planned_nodes(g, order, j, acc).contains(n),
    decreases order.len() - j,
{
    if j < order.len() {
        let acc2 = if is_planned(g, order[j]) {
            acc.push(order[j])
        } else {
            acc
        };
        if acc.contains(n) {
            let i = choose|i: int| 0 <= i < acc.len() && acc[i] == n;
            assert(acc2[i] == n);
        } else {
            let k = choose|k: int| j <= k < order.len() && order[k] == n;
            if k == j {
                assert(acc2[acc.len() as int] == n);
            } else {
                assert(j + 1 <= k < order.len() && order[k] == n);
            }
        }
        lemma_planned_has(g, order, j + 1, acc2, n);
    }
}

proof fn lemma_split_has(
    s: State,
    new: Set<NodeIndex>,
    nodes: Seq<NodeIndex>,
    j: int,
    make: Seq<NodeIndex>,
    reindex: Seq<NodeIndex>,
    n: NodeIndex,
)
    requires
        0 <= j,
        new.contains(n),
        make.contains(n) || exists|k: int| j <= k < nodes.len() && nodes[k] == n,
    ensures
        split_nodes(s, new, nodes, j, make, reindex).0.contains(n),
    decreases nodes.len() - j,
{
    if j < nodes.len() {
        let make2 = if new.contains(nodes[j]) {
            make.push(nodes[j])
        } else {
            make
        };
        if make.contains(n) {
            let i = choose|i: int| 0 <= i < make.len() && make[i] == n;
            assert(make2[i] == n);
        } else {
            let k = choose|k: int| j <= k < nodes.len() && nodes[k] == n;
            if k == j {
                assert(make2[make.len() as int] == n);
            } else {
                assert(j + 1 <= k < nodes.len() && nodes[k] == n);
            }
        }
        if new.contains(nodes[j]) {
            lemma_split_has(s, new, nodes, j + 1, make2, reindex, n);
        } else if s.added.contains_key(nodes[j]) {
            lemma_split_has(s, new, nodes, j + 1, make, reindex.push(nodes[j]), n);
        } else {
            lemma_split_has(s, new, nodes, j + 1, make, reindex, n);
        }
    }
}

/// A commit that succeeds tells the domain of every new node that the
/// topological walk hands out, and that is neither the source nor dropped,
/// that the node is ready.
pub proof fn lemma_ready_for_walked_node(
    s: State,
    g: GraphView,
    new: Set<NodeIndex>,
    messages: Seq<Message>,
    n: NodeIndex,
)
    requires
        new.contains(n),
        is_planned(g, n),
        g.order.contains(n),
    ensures
        commit_spec(s, g, new, messages) matches Ok((s2, m2)) ==> continues(messages, m2) && exists|
            j: int,
        | messages.len() <= j < m2.len() && tells_ready(#[trigger] m2[j], g.nodes[n as int]),
{
    let nodes = planned_nodes(g, g.order, 0, Seq::empty());
    let k0 = choose|k: int| 0 <= k < g.order.len() && g.order[k] == n;
    lemma_planned_has(g, g.order, 0, Seq::empty(), n);
    let kn = choose|k: int| 0 <= k < nodes.len() && nodes[k] == n;
    lemma_split_has(s, new, nodes, 0, Seq::empty(), Seq::empty(), n);
    let (make, reindex) = split_nodes(s, new, nodes, 0, Seq::empty(), Seq::empty());
    let k = choose|k: int| 0 <= k < make.len() && make[k] == n;
    let start = Progress { state: s, messages, waiting: addresses_of(g, make, 0, Seq::empty()) };
    lemma_reindex_from_continues(start, g, new, reindex, 0);
    match reindex_from(start, g, new, reindex, 0) {
        Err(e) => {},
        Ok(c1) => {
            lemma_make_from_tells(c1, g, make, 0, k);
            match make_from(c1, g, make, 0) {
                Err(e) => {},
                Ok(c2) => {
                    lemma_wait_for_continues(c2.messages, c2.waiting, 0);
                    let m2 = wait_for(c2.messages, c2.waiting, 0);
                    let j = choose|j: int|
                        c1.messages.len() <= j < c2.messages.len() && tells_ready(
                            #[trigger] c2.messages[j],
                            g.nodes[make[k] as int],
                        );
                    assert(m2[j] == c2.messages[j]);
                    assert(messages.len() <= j < m2.len() && tells_ready(m2[j], g.nodes[n as int]));
                    assert forall|i: int| 0 <= i < messages.len() implies #[trigger] m2[i]
                        == messages[i] by {
                        assert(c1.messages[i] == messages[i]);
                        assert(c2.messages[i] == c1.messages[i]);
                    }
                },
            }
        },
    }
}

/// In a graph without a cycle, a commit that succeeds tells the domain of
/// every new node of the graph, but for the source and dropped nodes, that
/// the node is ready.
pub proof fn lemma_ready_for_every_new_node(
    s: State,
    g: GraphView,
    new: Set<NodeIndex>,
    messages: Seq<Message>,
    rank: Seq<nat>,
    n: NodeIndex,
)
    requires
        g.parents_first(g.order),
        g.ranked(rank),
        new.contains(n),
        is_planned(g, n),
    ensures
        commit_spec(s, g, new, messages) matches Ok((s2, m2)) ==> exists|j: int|
            messages.len() <= j < m2.len() && tells_ready(#[trigger] m2[j], g.nodes[n as int]),
{
    crate::laws::lemma_walk_leaves_none_out(g, g.order, rank, n);
    lemma_ready_for_walked_node(s, g, new, messages, n);
}

} // verus!
