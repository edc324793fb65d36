//! The planner's record of which nodes are materialized, and how.

use crate::collections::{
    lemma_push_contains, lemma_take_next, table_wf, table_within, IndexTable, NodeMap, NodeSet,
};
use crate::config::Config;
use crate::error::PlanError;
use crate::graph::{DataflowGraph, ReplayPath};
use crate::index::{Index, IndexSet, IndexView, NodeIndex};
use crate::node::Node;
use crate::paths::{
    has_key, key_view, one_tag_per_path, path_key, path_key_of, path_map_get_by_right,
    path_map_tags, recorded_paths, tag_of_key, PathKeyView, PathMap,
};
use crate::plan::{MaterializationStatus, Tag};
use vstd::prelude::*;

verus! {

/// What a [`Materializations`] stands for in contracts.
pub ghost struct State {
    /// Every materialization that is declared: for each node, its indexes.
    pub have: IndexTable,
    /// The nodes that were materialized when the last commit ended.
    pub had: Set<NodeIndex>,
    /// The indexes added since the last commit.
    pub added: IndexTable,
    /// The weak indexes added since the last commit.
    pub added_weak: IndexTable,
    /// The readers that came since the last commit.
    pub new_readers: Set<NodeIndex>,
    /// The nodes that are partial.
    pub partial: Set<NodeIndex>,
    /// For each node, its replay paths, each under the number of its tag.
    pub paths: Map<NodeIndex, Map<u32, PathKeyView>>,
    /// For a partial node, the full node that duplicates it.
    pub redundant_partial: Map<NodeIndex, NodeIndex>,
    /// The number of the tag given out last.
    pub tag_generator: u32,
    pub config: Config,
}

/// The nodes of a replay path, from source to target.
pub open spec fn path_nodes(path: ReplayPath) -> Seq<NodeIndex> {
    Seq::new(path.segments@.len(), |k: int| path.segments@[k].node)
}

/// The redundant duplicates after the pairs have been recorded in order.
pub open spec fn redundant_extend(
    m: Map<NodeIndex, NodeIndex>,
    pairs: Seq<(NodeIndex, NodeIndex)>,
) -> Map<NodeIndex, NodeIndex>
    decreases pairs.len(),
{
    if pairs.len() == 0 {
        m
    } else {
        redundant_extend(m, pairs.drop_last()).insert(pairs.last().0, pairs.last().1)
    }
}

impl State {
    /// The state of a planner that has planned nothing.
    pub open spec fn initial() -> State {
        State {
            have: Map::empty(),
            had: Set::empty(),
            added: Map::empty(),
            added_weak: Map::empty(),
            new_readers: Set::empty(),
            partial: Set::empty(),
            paths: Map::empty(),
            redundant_partial: Map::empty(),
            tag_generator: 0,
            config: Config::spec_default(),
        }
    }

    /// No node has an index twice, and no path has two tags.
    pub open spec fn wf(self) -> bool {
        &&& table_wf(self.have)
        &&& table_wf(self.added)
        &&& table_wf(self.added_weak)
        &&& forall|n: NodeIndex|
            self.paths.contains_key(n) ==> one_tag_per_path(#[trigger] self.paths[n])
    }

    /// Every partial node is materialized, and every index that was added,
    /// weak or not, is an index that the node has.
    pub open spec fn consistent(self) -> bool {
        &&& self.partial.subset_of(self.have.dom())
        &&& table_within(self.added, self.have)
        &&& table_within(self.added_weak, self.have)
    }

    /// The number of the tag under which the path is recorded for the index at
    /// the node the path ends at.
    pub open spec fn recorded_tag(self, index: IndexView, path: ReplayPath) -> Option<u32> {
        let node = path.segments@.last().node;
        let key = path_key_of(index, path_nodes(path));
        if self.paths.contains_key(node) && has_key(self.paths[node], key) {
            Some(tag_of_key(self.paths[node], key))
        } else {
            None
        }
    }

    /// The state and the tag after a tag has been asked for the path: the
    /// recorded tag where there is one, else the next unused one.
    pub open spec fn tag_for_path(self, index: IndexView, path: ReplayPath) -> (
        State,
        Result<Tag, PlanError>,
    ) {
        match self.recorded_tag(index, path) {
            Some(t) => (self, Ok(Tag(t))),
            None => if self.tag_generator < u32::MAX {
                let next = (self.tag_generator + 1) as u32;
                (State { tag_generator: next, ..self }, Ok(Tag(next)))
            } else {
                (self, Err(PlanError::TagsExhausted))
            },
        }
    }

    /// Whether the node keeps state: it has declared indexes or is a reader with an index.
    pub open spec fn is_materialized(self, index: NodeIndex, node: Node) -> bool {
        self.have.contains_key(index) || node.spec_reader_index() is Some
    }

    /// How the node is materialized.
    pub open spec fn status(self, index: NodeIndex, node: Node) -> MaterializationStatus {
        if !self.is_materialized(index, node) {
            MaterializationStatus::Not
        } else if self.partial.contains(index) {
            MaterializationStatus::Partial { beyond_materialization_frontier: node.purge }
        } else {
            MaterializationStatus::Full
        }
    }

    /// Whether the tag stands for a replay path of a partial node.
    pub open spec fn is_partial_tag(self, n: NodeIndex, tag: Tag) -> bool {
        self.partial.contains(n) && self.paths.contains_key(n) && self.paths[n].contains_key(tag.0)
    }
}

/// Which nodes are materialized, with which indexes, and which of them partially.
#[derive(Debug)]
pub struct Materializations {
    pub(crate) have: NodeMap<IndexSet>,
    pub(crate) had: NodeSet,
    pub(crate) added: NodeMap<IndexSet>,
    pub(crate) added_weak: NodeMap<IndexSet>,
    pub(crate) new_readers: NodeSet,
    pub(crate) paths: NodeMap<PathMap>,
    pub(crate) redundant_partial: NodeMap<NodeIndex>,
    pub(crate) partial: NodeSet,
    pub(crate) tag_generator: u32,
    pub(crate) config: Config,
}

/// What the replay paths of all nodes stand for in contracts.
pub open spec fn paths_view(paths: Map<NodeIndex, PathMap>) -> Map<
    NodeIndex,
    Map<u32, PathKeyView>,
> {
    Map::new(|n: NodeIndex| paths.contains_key(n), |n: NodeIndex| recorded_paths(paths[n]))
}

impl View for Materializations {
    type V = State;

    open(crate) spec fn view(&self) -> State {
        State {
            have: self.have.table(),
            had: self.had@,
            added: self.added.table(),
            added_weak: self.added_weak.table(),
            new_readers: self.new_readers@,
            partial: self.partial@,
            paths: paths_view(self.paths@),
            redundant_partial: self.redundant_partial@,
            tag_generator: self.tag_generator,
            config: self.config,
        }
    }
}

impl Materializations {
    /// The collections are sound and what they stand for is well-formed.
    pub open(crate) spec fn wf(&self) -> bool {
        &&& self.have.table_ok()
        &&& self.added.table_ok()
        &&& self.added_weak.table_ok()
        &&& self.had.wf()
        &&& self.new_readers.wf()
        &&& self.partial.wf()
        &&& self.paths.wf()
        &&& self.redundant_partial.wf()
        &&& forall|n: NodeIndex|
            self@.paths.contains_key(n) ==> one_tag_per_path(#[trigger] self@.paths[n])
    }

    /// A well-formed record stands for a well-formed state.
    pub proof fn lemma_wf(&self)
        requires
            self.wf(),
        ensures
            self@.wf(),
    {
        self.have.lemma_table_ok();
        self.added.lemma_table_ok();
        self.added_weak.lemma_table_ok();
    }

    /// A record of no materialization at all, with the default settings.
    pub fn new() -> (r: Materializations)
        ensures
            r.wf(),
            r@ == State::initial(),
    {
        let r = Materializations {
            have: NodeMap::new(),
            had: NodeSet::new(),
            added: NodeMap::new(),
            added_weak: NodeMap::new(),
            new_readers: NodeSet::new(),
            paths: NodeMap::new(),
            redundant_partial: NodeMap::new(),
            partial: NodeSet::new(),
            tag_generator: 0,
            config: Config::default(),
        };
        proof {
            assert(r.have.table() =~= Map::empty());
            assert(r.added.table() =~= Map::empty());
            assert(r.added_weak.table() =~= Map::empty());
            assert(paths_view(r.paths@) =~= Map::empty());
        }
        r
    }

    /// Sets the settings for all materializations to come.
    pub fn set_config(&mut self, config: Config)
        requires
            old(self).wf(),
        ensures
            final(self).wf(),
            final(self)@ == (State { config, ..old(self)@ }),
    {
        self.config = config;
    }

    /// The settings in force.
    pub fn config(&self) -> (r: Config)
        ensures
            r == self@.config,
    {
        self.config
    }

    /// The full node that duplicates the given partial node, if there is one.
    pub fn get_redundant(&self, idx: &NodeIndex) -> (r: Option<&NodeIndex>)
        requires
            self.wf(),
        ensures
            r is Some == self@.redundant_partial.contains_key(*idx),
            r matches Some(d) ==> *d == self@.redundant_partial[*idx],
    {
        self.redundant_partial.get(*idx)
    }

    /// Records duplicates: each pair is a partial node and the full node that
    /// duplicates it. A later pair for the same node replaces an earlier one.
    pub fn extend_redundant_partial(&mut self, new_duplicates: Vec<(NodeIndex, NodeIndex)>)
        requires
            old(self).wf(),
        ensures
            final(self).wf(),
            final(self)@ == (State {
                redundant_partial: redundant_extend(
                    old(self)@.redundant_partial,
                    new_duplicates@,
                ),
                ..old(self)@
            }),
    {
        let mut i: usize = 0;
        while i < new_duplicates.len()
            invariant
                i <= new_duplicates.len(),
                self.wf(),
                self@ == (State {
                    redundant_partial: redundant_extend(
                        old(self)@.redundant_partial,
                        new_duplicates@.take(i as int),
                    ),
                    ..old(self)@
                }),
            decreases new_duplicates.len() - i,
        {
            let (k, v) = new_duplicates[i];
            let ghost prev = self@;
            self.redundant_partial.insert(k, v);
            proof {
                assert(self@ == (State {
                    redundant_partial: prev.redundant_partial.insert(k, v),
                    ..prev
                }));
                assert(new_duplicates@.take(i + 1).drop_last() =~= new_duplicates@.take(i as int));
            }
            i += 1;
        }
        proof {
            assert(new_duplicates@.take(new_duplicates.len() as int) =~= new_duplicates@);
        }
    }

    /// The indexes of the node, if it is materialized.
    pub fn indexes_for(&self, ni: NodeIndex) -> (r: Option<&IndexSet>)
        requires
            self.wf(),
        ensures
            r is Some == self@.have.contains_key(ni),
            r matches Some(set) ==> set@ == self@.have[ni],
    {
        self.have.get(ni)
    }

    /// The weak indexes of the node that were added since the last commit, if any were.
    pub fn weak_indexes_for(&self, ni: NodeIndex) -> (r: Option<&IndexSet>)
        requires
            self.wf(),
        ensures
            r is Some == self@.added_weak.contains_key(ni),
            r matches Some(set) ==> set@ == self@.added_weak[ni],
    {
        self.added_weak.get(ni)
    }

    /// Whether the node is partially materialized. A node that is fully
    /// materialized, or not at all, is not.
    pub fn is_partial(&self, node_index: NodeIndex) -> (r: bool)
        ensures
            r == self@.partial.contains(node_index),
    {
        self.partial.contains(node_index)
    }

    /// How the node is materialized.
    pub fn get_status(&self, index: NodeIndex, node: &Node) -> (r: MaterializationStatus)
        requires
            self.wf(),
        ensures
            r == self@.status(index, *node),
            r is Not <==> !self@.have.contains_key(index) && !(node.spec_reader_index() is Some),
    {
        let is_materialized = self.have.contains_key(index) || node.is_materialized_reader();
        if !is_materialized {
            MaterializationStatus::Not
        } else if self.partial.contains(index) {
            MaterializationStatus::Partial { beyond_materialization_frontier: node.purge }
        } else {
            MaterializationStatus::Full
        }
    }

    /// The materialized nodes that the graph does not know as readers, each once.
    pub fn materialized_non_reader_nodes(&self, graph: &DataflowGraph) -> (r: Vec<NodeIndex>)
        requires
            self.wf(),
        ensures
            r@.no_duplicates(),
            forall|n: NodeIndex|
                r@.contains(n) <==> (self@.have.contains_key(n) && !(graph@.has_node(n)
                    && graph@.nodes[n as int].spec_is_reader())),
    {
        let mut out: Vec<NodeIndex> = Vec::new();
        let ghost order = self.have.order();
        let mut i: usize = 0;
        while i < self.have.len()
            invariant
                i <= order.len(),
                self.wf(),
                order == self.have.order(),
                order.no_duplicates(),
                out@.no_duplicates(),
                forall|n: NodeIndex|
                    out@.contains(n) <==> (order.take(i as int).contains(n) && !(graph@.has_node(n)
                        && graph@.nodes[n as int].spec_is_reader())),
            decreases order.len() - i,
        {
            let n = self.have.key_at(i);
            let reader = match graph.get(n) {
                Some(node) => node.is_reader(),
                None => false,
            };
            proof {
                lemma_take_next(order, i as int);
            }
            let ghost before = out@;
            if !reader {
                proof {
                    lemma_push_contains(out@, n);
                }
                out.push(n);
            }
            proof {
                assert forall|m: NodeIndex|
                    out@.contains(m) <==> (order.take(i + 1).contains(m) && !(graph@.has_node(m)
                        && graph@.nodes[m as int].spec_is_reader())) by {
                    assert(before.contains(m) <==> (order.take(i as int).contains(m) && !(
                    graph@.has_node(m) && graph@.nodes[m as int].spec_is_reader())));
                    assert(order.take(i + 1).contains(m) <==> (order.take(i as int).contains(m)
                        || m == n));
                    if !reader {
                        assert(out@.contains(m) <==> (before.contains(m) || m == n));
                    }
                }
            }
            i += 1;
        }
        proof {
            assert(order.take(order.len() as int) =~= order);
            assert forall|n: NodeIndex| order.contains(n) <==> self@.have.contains_key(n) by {
                assert(order.to_set().contains(n) <==> self.have@.dom().contains(n));
            }
        }
        out
    }

    /// The tag after the one given out last.
    pub fn next_tag(&mut self) -> (r: Result<Tag, PlanError>)
        requires
            old(self).wf(),
        ensures
            final(self).wf(),
            old(self)@.tag_generator < u32::MAX ==> r == Ok::<Tag, PlanError>(
                Tag((old(self)@.tag_generator + 1) as u32),
            ) && final(self)@ == (State {
                tag_generator: (old(self)@.tag_generator + 1) as u32,
                ..old(self)@
            }),
            old(self)@.tag_generator == u32::MAX ==> r == Err::<Tag, PlanError>(
                PlanError::TagsExhausted,
            ) && final(self)@ == old(self)@,
    {
        if self.tag_generator < u32::MAX {
            self.tag_generator = self.tag_generator + 1;
            Ok(Tag(self.tag_generator))
        } else {
            Err(PlanError::TagsExhausted)
        }
    }

    /// The tag of the replay path of the index: the one it is recorded under
    /// at the node the path ends at, or else the next unused tag.
    pub fn tag_for_path(&mut self, index: &Index, path: &ReplayPath) -> (r: Result<Tag, PlanError>)
        requires
            old(self).wf(),
            path.segments@.len() > 0,
        ensures
            final(self).wf(),
            (final(self)@, r) == old(self)@.tag_for_path(index@, *path),
    {
        let mut nodes: Vec<NodeIndex> = Vec::new();
        let mut i: usize = 0;
        while i < path.segments.len()
            invariant
                i <= path.segments.len(),
                nodes@ == path_nodes(*path).take(i as int),
            decreases path.segments.len() - i,
        {
            nodes.push(path.segments[i].node);
            assert(nodes@ =~= path_nodes(*path).take(i + 1));
            i += 1;
        }
        assert(path_nodes(*path).take(path.segments.len() as int) =~= path_nodes(*path));
        let target = path.segments[path.segments.len() - 1].node;
        let key = path_key(index, &nodes);
        let found = match self.paths.get(target) {
            Some(paths_for_node) => path_map_get_by_right(paths_for_node, &key),
            None => None,
        };
        match found {
            Some(t) => {
                proof {
                    let m = self@.paths[target];
                    assert(m.contains_key(t) && m[t] == key_view(key));
                    assert(one_tag_per_path(m));
                    let c = tag_of_key(m, key_view(key));
                    assert(m.contains_key(c) && m[c] == key_view(key));
                }
                Ok(Tag(t))
            },
            None => self.next_tag(),
        }
    }

    /// For each replay path of each partial node, the node and the tag of the path.
    pub fn partial_tags(&self) -> (r: Vec<(NodeIndex, Tag)>)
        requires
            self.wf(),
        ensures
            r@.no_duplicates(),
            forall|n: NodeIndex, tag: Tag|
                r@.contains((n, tag)) <==> self@.is_partial_tag(n, tag),
    {
        let mut out: Vec<(NodeIndex, Tag)> = Vec::new();
        let ghost order = self.partial.order();
        let mut i: usize = 0;
        while i < self.partial.len()
            invariant
                i <= order.len(),
                self.wf(),
                order == self.partial.order(),
                order.no_duplicates(),
                out@.no_duplicates(),
                forall|p: (NodeIndex, Tag)| #[trigger]
                    out@.contains(p) <==> (order.take(i as int).contains(p.0)
                        && self@.is_partial_tag(p.0, p.1)),
            decreases order.len() - i,
        {
            let node = self.partial.get(i);
            let ghost before = out@;
            proof {
                lemma_take_next(order, i as int);
            }
            match self.paths.get(node) {
                Some(paths_for_node) => {
                    let tags = path_map_tags(paths_for_node);
                    proof {
                        assert forall|p: (NodeIndex, Tag)| before.contains(p) implies p.0
                            != node by {
                            assert(order.take(i as int).contains(p.0));
                        }
                    }
                    let mut k: usize = 0;
                    while k < tags.len()
                        invariant
                            k <= tags.len(),
                            tags@.no_duplicates(),
                            out@.no_duplicates(),
                            forall|p: (NodeIndex, Tag)| before.contains(p) ==> p.0 != node,
                            forall|p: (NodeIndex, Tag)| #[trigger]
                                out@.contains(p) <==> (before.contains(p) || (p.0 == node
                                    && tags@.take(k as int).contains(p.1.0))),
                        decreases tags.len() - k,
                    {
                        let ghost prev = out@;
                        proof {
                            lemma_push_contains(out@, (node, Tag(tags@[k as int])));
                            lemma_take_next(tags@, k as int);
                            assert(!out@.contains((node, Tag(tags@[k as int]))));
                            crate::index::lemma_seq_insert(out@, (node, Tag(tags@[k as int])));
                        }
                        out.push((node, Tag(tags[k])));
                        proof {
                            assert forall|p: (NodeIndex, Tag)| #[trigger]
                                out@.contains(p) <==> (before.contains(p) || (p.0 == node
                                    && tags@.take(k + 1).contains(p.1.0))) by {
                                assert(prev.contains(p) <==> (before.contains(p) || (p.0 == node
                                    && tags@.take(k as int).contains(p.1.0))));
                                assert(p == (node, Tag(tags@[k as int])) <==> (p.0 == node && p.1.0
                                    == tags@[k as int]));
                            }
                        }
                        k += 1;
                    }
                    proof {
                        assert(tags@.take(tags.len() as int) =~= tags@);
                        assert forall|p: (NodeIndex, Tag)| #[trigger]
                            out@.contains(p) <==> (order.take(i + 1).contains(p.0)
                                && self@.is_partial_tag(p.0, p.1)) by {
                            assert(before.contains(p) <==> (order.take(i as int).contains(p.0)
                                && self@.is_partial_tag(p.0, p.1)));
                            assert(tags@.to_set().contains(p.1.0) <==> self@.paths[node].dom().contains(
                                p.1.0,
                            ));
                        }
                    }
                },
                None => {
                    proof {
                        assert forall|p: (NodeIndex, Tag)| #[trigger]
                            out@.contains(p) <==> (order.take(i + 1).contains(p.0)
                                && self@.is_partial_tag(p.0, p.1)) by {
                            assert(before.contains(p) <==> (order.take(i as int).contains(p.0)
                                && self@.is_partial_tag(p.0, p.1)));
                        }
                    }
                },
            }
            i += 1;
        }
        proof {
            assert(order.take(order.len() as int) =~= order);
            self.partial.lemma_members();
            assert forall|n: NodeIndex, tag: Tag|
                out@.contains((n, tag)) <==> self@.is_partial_tag(n, tag) by {
                let p = (n, tag);
                assert(out@.contains(p) <==> (order.contains(p.0) && self@.is_partial_tag(
                    p.0,
                    p.1,
                )));
            }
        }
        out
    }
}

} // verus!
