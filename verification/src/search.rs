//! Looking through the graph from a node, past the nodes that let the walk pass,
//! for a node that is marked.

use crate::graph::{DataflowGraph, GraphView};
use crate::index::NodeIndex;
use crate::topology::Direction;
use vstd::prelude::*;
use vstd::set_lib::{lemma_int_range, lemma_len_subset, set_int_range};

verus! {

/// Whether node `n` is marked in `flags`; a node without a flag is not.
pub open spec fn flagged(flags: Seq<bool>, n: NodeIndex) -> bool {
    n < flags.len() && flags[n as int]
}

/// A trail leads from `root` along edges in direction `dir`; every node on it
/// but the root and the last lets the walk pass.
pub open spec fn is_trail(
    g: GraphView,
    root: NodeIndex,
    dir: Direction,
    pass: Seq<bool>,
    trail: Seq<NodeIndex>,
) -> bool {
    &&& trail.len() >= 2
    &&& trail[0] == root
    &&& forall|i: int|
        1 <= i < trail.len() ==> g.neighbors(trail[i - 1], dir).contains(#[trigger] trail[i])
    &&& forall|i: int| 1 <= i < trail.len() - 1 ==> flagged(pass, #[trigger] trail[i])
}

/// Some trail from `root` ends at `target`.
pub open spec fn reaches(
    g: GraphView,
    root: NodeIndex,
    dir: Direction,
    pass: Seq<bool>,
    target: NodeIndex,
) -> bool {
    exists|trail: Seq<NodeIndex>| is_trail(g, root, dir, pass, trail) && trail.last() == target
}

/// Some trail from `root` ends at a marked node.
pub open spec fn reaches_marked(
    g: GraphView,
    root: NodeIndex,
    dir: Direction,
    pass: Seq<bool>,
    hit: Seq<bool>,
) -> bool {
    exists|t: NodeIndex| reaches(g, root, dir, pass, t) && flagged(hit, t)
}

/// A neighbour of the root is reached.
pub proof fn lemma_reaches_neighbor(
    g: GraphView,
    root: NodeIndex,
    dir: Direction,
    pass: Seq<bool>,
    n: NodeIndex,
)
    requires
        g.neighbors(root, dir).contains(n),
    ensures
        reaches(g, root, dir, pass, n),
{
    let trail = seq![root, n];
    assert(is_trail(g, root, dir, pass, trail));
    assert(trail.last() == n);
}

/// A neighbour of a reached node that lets the walk pass is reached.
pub proof fn lemma_reaches_step(
    g: GraphView,
    root: NodeIndex,
    dir: Direction,
    pass: Seq<bool>,
    from: NodeIndex,
    n: NodeIndex,
)
    requires
        reaches(g, root, dir, pass, from),
        flagged(pass, from),
        g.neighbors(from, dir).contains(n),
    ensures
        reaches(g, root, dir, pass, n),
{
    let t = choose|t: Seq<NodeIndex>| is_trail(g, root, dir, pass, t) && t.last() == from;
    let trail = t.push(n);
    assert forall|i: int| 1 <= i < trail.len() implies g.neighbors(trail[i - 1], dir).contains(
        #[trigger] trail[i],
    ) by {
        if i < t.len() {
            assert(trail[i] == t[i]);
            assert(trail[i - 1] == t[i - 1]);
        }
    }
    assert forall|i: int| 1 <= i < trail.len() - 1 implies flagged(pass, #[trigger] trail[i]) by {
        assert(trail[i] == t[i]);
    }
    assert(is_trail(g, root, dir, pass, trail));
    assert(trail.last() == n);
}

/// Whether `n` waits on the stack.
pub open spec fn on_stack(stack: Seq<(NodeIndex, NodeIndex)>, n: NodeIndex) -> bool {
    exists|j: int| 0 <= j < stack.len() && (#[trigger] stack[j]).0 == n
}

/// The neighbours of `v` from position `from` on have been seen or wait on the stack.
pub open spec fn neighbors_covered(
    g: GraphView,
    dir: Direction,
    seen: Seq<bool>,
    stack: Seq<(NodeIndex, NodeIndex)>,
    v: NodeIndex,
    from: int,
) -> bool {
    forall|k: int|
        from <= k < g.neighbors(v, dir).len() ==> flagged(seen, #[trigger] g.neighbors(v, dir)[k])
            || on_stack(stack, g.neighbors(v, dir)[k])
}

/// With nothing left on the stack, every node on a trail has been seen.
proof fn lemma_trail_seen(
    g: GraphView,
    root: NodeIndex,
    dir: Direction,
    pass: Seq<bool>,
    seen: Seq<bool>,
    trail: Seq<NodeIndex>,
    i: int,
)
    requires
        is_trail(g, root, dir, pass, trail),
        1 <= i < trail.len(),
        neighbors_covered(g, dir, seen, Seq::empty(), root, 0),
        forall|v: NodeIndex|
            flagged(seen, v) && flagged(pass, v) ==> neighbors_covered(
                g,
                dir,
                seen,
                Seq::empty(),
                v,
                0,
            ),
    ensures
        flagged(seen, trail[i]),
    decreases i,
{
    let prev = trail[i - 1];
    let ns = g.neighbors(prev, dir);
    assert(ns.contains(trail[i]));
    let k = choose|k: int| 0 <= k < ns.len() && ns[k] == trail[i];
    if i == 1 {
        assert(flagged(seen, ns[k]) || on_stack(Seq::empty(), ns[k]));
    } else {
        lemma_trail_seen(g, root, dir, pass, seen, trail, i - 1);
        assert(flagged(pass, trail[i - 1]));
        assert(neighbors_covered(g, dir, seen, Seq::empty(), prev, 0));
        assert(flagged(seen, ns[k]) || on_stack(Seq::empty(), ns[k]));
    }
}

/// The nodes of `seen` that are marked, as a set of integers.
pub open spec fn seen_set(seen: Seq<bool>) -> Set<int> {
    Set::new(|i: int| 0 <= i < seen.len() && seen[i])
}

proof fn lemma_seen_bound(seen: Seq<bool>)
    ensures
        seen_set(seen).finite(),
        seen_set(seen).len() <= seen.len(),
{
    lemma_int_range(0, seen.len() as int);
    assert(seen_set(seen).subset_of(set_int_range(0, seen.len() as int)));
    lemma_len_subset(seen_set(seen), set_int_range(0, seen.len() as int));
}

proof fn lemma_seen_grows(seen: Seq<bool>, c: int)
    requires
        0 <= c < seen.len(),
        !seen[c],
    ensures
        seen_set(seen.update(c, true)).len() == seen_set(seen).len() + 1,
{
    lemma_seen_bound(seen);
    assert(seen_set(seen.update(c, true)) =~= seen_set(seen).insert(c));
}

/// Pushes the neighbours of `v` onto the stack, each with `v` as where it was found.
fn push_neighbors(
    graph: &DataflowGraph,
    dir: Direction,
    v: NodeIndex,
    stack: &mut Vec<(NodeIndex, NodeIndex)>,
)
    requires
        graph.wf(),
    ensures
        final(stack)@.len() == old(stack)@.len() + graph@.neighbors(v, dir).len(),
        final(stack)@.subrange(0, old(stack)@.len() as int) == old(stack)@,
        forall|k: int|
            0 <= k < graph@.neighbors(v, dir).len() ==> #[trigger] final(stack)@[old(stack)@.len()
                + k] == (graph@.neighbors(v, dir)[k], v),
{
    let ns = graph.neighbors(v, dir);
    let ghost before = stack@;
    let mut k: usize = 0;
    while k < ns.len()
        invariant
            k <= ns.len(),
            ns@ == graph@.neighbors(v, dir),
            stack@.len() == before.len() + k,
            stack@.subrange(0, before.len() as int) == before,
            forall|j: int| 0 <= j < k ==> #[trigger] stack@[before.len() + j] == (ns@[j], v),
        decreases ns.len() - k,
    {
        let ghost prev = stack@;
        stack.push((ns[k], v));
        assert(stack@.subrange(0, before.len() as int) =~= prev.subrange(0, before.len() as int));
        assert forall|j: int| 0 <= j < k + 1 implies #[trigger] stack@[before.len() + j] == (
            ns@[j],
            v,
        ) by {
            if j < k {
                assert(stack@[before.len() + j] == prev[before.len() + j]);
            }
        }
        k += 1;
    }
}

/// Every entry of the stack is a neighbour of the node it was found from,
/// and that node is the root or a reached node that lets the walk pass.
pub open spec fn stack_ok(
    g: GraphView,
    root: NodeIndex,
    dir: Direction,
    pass: Seq<bool>,
    stack: Seq<(NodeIndex, NodeIndex)>,
) -> bool {
    forall|j: int|
        0 <= j < stack.len() ==> {
            &&& g.neighbors((#[trigger] stack[j]).1, dir).contains(stack[j].0)
            &&& stack[j].1 == root || (flagged(pass, stack[j].1) && reaches(
                g,
                root,
                dir,
                pass,
                stack[j].1,
            ))
        }
}

/// Every node seen is reached and not marked.
pub open spec fn seen_ok(
    g: GraphView,
    root: NodeIndex,
    dir: Direction,
    pass: Seq<bool>,
    hit: Seq<bool>,
    seen: Seq<bool>,
) -> bool {
    forall|v: NodeIndex|
        flagged(seen, v) ==> !flagged(hit, v) && reaches(g, root, dir, pass, v)
}

/// The neighbours of the root, and of every node seen that lets the walk
/// pass, have been seen or wait on the stack.
pub open spec fn closed_under(
    g: GraphView,
    root: NodeIndex,
    dir: Direction,
    pass: Seq<bool>,
    seen: Seq<bool>,
    stack: Seq<(NodeIndex, NodeIndex)>,
) -> bool {
    &&& neighbors_covered(g, dir, seen, stack, root, 0)
    &&& forall|v: NodeIndex|
        flagged(seen, v) && flagged(pass, v) ==> neighbors_covered(g, dir, seen, stack, v, 0)
}

proof fn lemma_covered_mono(
    g: GraphView,
    dir: Direction,
    seen1: Seq<bool>,
    stack1: Seq<(NodeIndex, NodeIndex)>,
    seen2: Seq<bool>,
    stack2: Seq<(NodeIndex, NodeIndex)>,
    v: NodeIndex,
)
    requires
        neighbors_covered(g, dir, seen1, stack1, v, 0),
        forall|w: NodeIndex| flagged(seen1, w) ==> flagged(seen2, w),
        forall|w: NodeIndex| on_stack(stack1, w) ==> flagged(seen2, w) || on_stack(stack2, w),
    ensures
        neighbors_covered(g, dir, seen2, stack2, v, 0),
{
    assert forall|k: int| 0 <= k < g.neighbors(v, dir).len() implies flagged(
        seen2,
        #[trigger] g.neighbors(v, dir)[k],
    ) || on_stack(stack2, g.neighbors(v, dir)[k]) by {
        let w = g.neighbors(v, dir)[k];
        assert(flagged(seen1, w) || on_stack(stack1, w));
    }
}

proof fn lemma_closed_step(
    g: GraphView,
    root: NodeIndex,
    dir: Direction,
    pass: Seq<bool>,
    seen1: Seq<bool>,
    stack1: Seq<(NodeIndex, NodeIndex)>,
    seen2: Seq<bool>,
    stack2: Seq<(NodeIndex, NodeIndex)>,
    c: NodeIndex,
)
    requires
        closed_under(g, root, dir, pass, seen1, stack1),
        forall|w: NodeIndex| flagged(seen1, w) ==> flagged(seen2, w),
        forall|w: NodeIndex| on_stack(stack1, w) ==> flagged(seen2, w) || on_stack(stack2, w),
        forall|w: NodeIndex| flagged(seen2, w) ==> flagged(seen1, w) || w == c,
        flagged(pass, c) && flagged(seen2, c) && !flagged(seen1, c) ==> neighbors_covered(
            g,
            dir,
            seen2,
            stack2,
            c,
            0,
        ),
    ensures
        closed_under(g, root, dir, pass, seen2, stack2),
{
    lemma_covered_mono(g, dir, seen1, stack1, seen2, stack2, root);
    assert forall|v: NodeIndex| flagged(seen2, v) && flagged(pass, v) implies neighbors_covered(
        g,
        dir,
        seen2,
        stack2,
        v,
        0,
    ) by {
        if flagged(seen1, v) {
            lemma_covered_mono(g, dir, seen1, stack1, seen2, stack2, v);
        }
    }
}

/// What is left of the stack after its top is taken, when the top has been seen.
proof fn lemma_pop(
    g: GraphView,
    root: NodeIndex,
    dir: Direction,
    pass: Seq<bool>,
    seen: Seq<bool>,
    stack: Seq<(NodeIndex, NodeIndex)>,
)
    requires
        stack.len() > 0,
        stack_ok(g, root, dir, pass, stack),
    ensures
        stack_ok(g, root, dir, pass, stack.drop_last()),
        forall|w: NodeIndex|
            on_stack(stack, w) ==> w == stack.last().0 || on_stack(stack.drop_last(), w),
{
    let rest = stack.drop_last();
    assert forall|j: int| 0 <= j < rest.len() implies {
        &&& g.neighbors((#[trigger] rest[j]).1, dir).contains(rest[j].0)
        &&& rest[j].1 == root || (flagged(pass, rest[j].1) && reaches(
            g,
            root,
            dir,
            pass,
            rest[j].1,
        ))
    } by {
        assert(rest[j] == stack[j]);
    }
    assert forall|w: NodeIndex| on_stack(stack, w) implies w == stack.last().0 || on_stack(
        rest,
        w,
    ) by {
        let j = choose|j: int| 0 <= j < stack.len() && (#[trigger] stack[j]).0 == w;
        if j < rest.len() {
            assert(rest[j].0 == w);
        }
    }
}

/// The stack after the neighbours of `c` have been put on top of `rest`.
proof fn lemma_push(
    g: GraphView,
    root: NodeIndex,
    dir: Direction,
    pass: Seq<bool>,
    seen: Seq<bool>,
    rest: Seq<(NodeIndex, NodeIndex)>,
    stack: Seq<(NodeIndex, NodeIndex)>,
    c: NodeIndex,
)
    requires
        stack_ok(g, root, dir, pass, rest),
        c == root || (flagged(pass, c) && reaches(g, root, dir, pass, c)),
        stack.len() == rest.len() + g.neighbors(c, dir).len(),
        stack.subrange(0, rest.len() as int) == rest,
        forall|k: int|
            0 <= k < g.neighbors(c, dir).len() ==> #[trigger] stack[rest.len() + k] == (
                g.neighbors(c, dir)[k],
                c,
            ),
    ensures
        stack_ok(g, root, dir, pass, stack),
        forall|w: NodeIndex| on_stack(rest, w) ==> on_stack(stack, w),
        neighbors_covered(g, dir, seen, stack, c, 0),
{
    assert forall|j: int| 0 <= j < stack.len() implies {
        &&& g.neighbors((#[trigger] stack[j]).1, dir).contains(stack[j].0)
        &&& stack[j].1 == root || (flagged(pass, stack[j].1) && reaches(
            g,
            root,
            dir,
            pass,
            stack[j].1,
        ))
    } by {
        if j < rest.len() {
            assert(stack[j] == stack.subrange(0, rest.len() as int)[j]);
        } else {
            let k = j - rest.len();
            assert(stack[rest.len() + k] == (g.neighbors(c, dir)[k], c));
        }
    }
    assert forall|w: NodeIndex| on_stack(rest, w) implies on_stack(stack, w) by {
        let j = choose|j: int| 0 <= j < rest.len() && (#[trigger] rest[j]).0 == w;
        assert(stack[j] == stack.subrange(0, rest.len() as int)[j]);
        assert(stack[j].0 == w);
    }
    assert forall|k: int| 0 <= k < g.neighbors(c, dir).len() implies flagged(
        seen,
        #[trigger] g.neighbors(c, dir)[k],
    ) || on_stack(stack, g.neighbors(c, dir)[k]) by {
        assert(stack[rest.len() + k].0 == g.neighbors(c, dir)[k]);
    }
}

/// The node on top of a well-formed stack is a node of the graph and is reached.
proof fn lemma_top(
    g: GraphView,
    root: NodeIndex,
    dir: Direction,
    pass: Seq<bool>,
    stack: Seq<(NodeIndex, NodeIndex)>,
)
    requires
        g.wf(),
        stack.len() > 0,
        stack_ok(g, root, dir, pass, stack),
    ensures
        stack.last().0 < g.nodes.len(),
        reaches(g, root, dir, pass, stack.last().0),
        g.neighbors(stack.last().1, dir).contains(stack.last().0),
{
    let (c, from) = stack.last();
    assert(stack[stack.len() - 1] == (c, from));
    let ns = g.neighbors(from, dir);
    let k = choose|k: int| 0 <= k < ns.len() && ns[k] == c;
    match dir {
        Direction::Outgoing => {
            assert(g.successors[from as int][k] < g.nodes.len());
        },
        Direction::Incoming => {
            assert(g.predecessors[from as int][k] < g.nodes.len());
        },
    }
    if from == root {
        lemma_reaches_neighbor(g, root, dir, pass, c);
    } else {
        lemma_reaches_step(g, root, dir, pass, from, c);
    }
}

/// With nothing left on the stack, no trail ends at a marked node.
proof fn lemma_exhausted(
    g: GraphView,
    root: NodeIndex,
    dir: Direction,
    pass: Seq<bool>,
    hit: Seq<bool>,
    seen: Seq<bool>,
)
    requires
        seen_ok(g, root, dir, pass, hit, seen),
        closed_under(g, root, dir, pass, seen, Seq::empty()),
    ensures
        !reaches_marked(g, root, dir, pass, hit),
{
    if reaches_marked(g, root, dir, pass, hit) {
        let t = choose|t: NodeIndex| reaches(g, root, dir, pass, t) && flagged(hit, t);
        let trail = choose|trail: Seq<NodeIndex>|
            is_trail(g, root, dir, pass, trail) && trail.last() == t;
        lemma_trail_seen(g, root, dir, pass, seen, trail, trail.len() - 1);
        assert(false);
    }
}

/// With nothing left on the stack, the nodes seen are the nodes reached.
proof fn lemma_seen_all(
    g: GraphView,
    root: NodeIndex,
    dir: Direction,
    pass: Seq<bool>,
    hit: Seq<bool>,
    seen: Seq<bool>,
)
    requires
        seen_ok(g, root, dir, pass, hit, seen),
        closed_under(g, root, dir, pass, seen, Seq::empty()),
    ensures
        forall|v: NodeIndex| flagged(seen, v) <==> reaches(g, root, dir, pass, v),
{
    assert forall|v: NodeIndex| reaches(g, root, dir, pass, v) implies flagged(seen, v) by {
        let trail = choose|trail: Seq<NodeIndex>|
            is_trail(g, root, dir, pass, trail) && trail.last() == v;
        lemma_trail_seen(g, root, dir, pass, seen, trail, trail.len() - 1);
    }
}

/// Walks from `root` along edges in direction `dir`, going on past the
/// nodes that let the walk pass, until a marked node is found or nothing is
/// left. Returns what [`find_marked`] returns, and for each node whether the
/// walk has seen it: where no marked node is found, those are the nodes
/// that a trail ends at.
pub fn explore(
    graph: &DataflowGraph,
    root: NodeIndex,
    dir: Direction,
    pass: &Vec<bool>,
    hit: &Vec<bool>,
) -> (r: (Option<(NodeIndex, NodeIndex)>, Vec<bool>))
    requires
        graph.wf(),
    ensures
        r.0 is None == !reaches_marked(graph@, root, dir, pass@, hit@),
        r.0 matches Some((found, from)) ==> {
            &&& flagged(hit@, found)
            &&& reaches(graph@, root, dir, pass@, found)
            &&& graph@.neighbors(from, dir).contains(found)
            &&& from == root || (flagged(pass@, from) && reaches(graph@, root, dir, pass@, from))
        },
        r.1@.len() == graph@.nodes.len(),
        r.0 is None ==> forall|v: NodeIndex|
            flagged(r.1@, v) <==> reaches(graph@, root, dir, pass@, v),
{
    let n = graph.node_count();
    let mut seen: Vec<bool> = Vec::new();
    let mut i: usize = 0;
    while i < n
        invariant
            i <= n,
            seen@.len() == i,
            forall|k: int| 0 <= k < i ==> !seen@[k],
        decreases n - i,
    {
        seen.push(false);
        i += 1;
    }
    let mut stack: Vec<(NodeIndex, NodeIndex)> = Vec::new();
    push_neighbors(graph, dir, root, &mut stack);
    let ghost g = graph@;
    proof {
        lemma_push(g, root, dir, pass@, seen@, Seq::empty(), stack@, root);
    }
    while stack.len() > 0
        invariant
            graph.wf(),
            g == graph@,
            n == g.nodes.len(),
            seen@.len() == n,
            stack_ok(g, root, dir, pass@, stack@),
            seen_ok(g, root, dir, pass@, hit@, seen@),
            closed_under(g, root, dir, pass@, seen@, stack@),
        decreases n - seen_set(seen@).len(), stack@.len(),
    {
        let ghost stack_before = stack@;
        let ghost seen_before = seen@;
        proof {
            lemma_seen_bound(seen@);
            lemma_top(g, root, dir, pass@, stack@);
            lemma_pop(g, root, dir, pass@, seen@, stack@);
        }
        let (c, from) = stack.pop().unwrap();
        let ghost rest = stack@;
        assert(rest == stack_before.drop_last());
        if seen[c] {
            proof {
                lemma_closed_step(
                    g,
                    root,
                    dir,
                    pass@,
                    seen_before,
                    stack_before,
                    seen@,
                    stack@,
                    c,
                );
            }
        } else {
            if c < hit.len() && hit[c] {
                proof {
                    assert(reaches(g, root, dir, pass@, c) && flagged(hit@, c));
                }
                return (Some((c, from)), seen);
            }
            seen.set(c, true);
            proof {
                lemma_seen_grows(seen_before, c as int);
                lemma_seen_bound(seen@);
                assert forall|v: NodeIndex| flagged(seen@, v) implies !flagged(hit@, v) && reaches(
                    g,
                    root,
                    dir,
                    pass@,
                    v,
                ) by {
                    if v != c {
                        assert(flagged(seen_before, v));
                    }
                }
            }
            if c < pass.len() && pass[c] {
                push_neighbors(graph, dir, c, &mut stack);
                proof {
                    lemma_push(g, root, dir, pass@, seen@, rest, stack@, c);
                }
            }
            proof {
                lemma_closed_step(
                    g,
                    root,
                    dir,
                    pass@,
                    seen_before,
                    stack_before,
                    seen@,
                    stack@,
                    c,
                );
            }
        }
    }
    proof {
        assert(stack@ =~= Seq::empty());
        lemma_exhausted(g, root, dir, pass@, hit@, seen@);
        lemma_seen_all(g, root, dir, pass@, hit@, seen@);
    }
    (None, seen)
}

/// Looks from `root` along edges in direction `dir` for a marked node, going
/// on past the nodes that let the walk pass. Returns a marked node that a
/// trail ends at, together with the node before it on that trail; or nothing
/// where no trail ends at a marked node.
pub fn find_marked(
    graph: &DataflowGraph,
    root: NodeIndex,
    dir: Direction,
    pass: &Vec<bool>,
    hit: &Vec<bool>,
) -> (r: Option<(NodeIndex, NodeIndex)>)
    requires
        graph.wf(),
    ensures
        r is None == !reaches_marked(graph@, root, dir, pass@, hit@),
        r matches Some((found, from)) ==> {
            &&& flagged(hit@, found)
            &&& reaches(graph@, root, dir, pass@, found)
            &&& graph@.neighbors(from, dir).contains(found)
            &&& from == root || (flagged(pass@, from) && reaches(graph@, root, dir, pass@, from))
        },
{
    explore(graph, root, dir, pass, hit).0
}

} // verus!
