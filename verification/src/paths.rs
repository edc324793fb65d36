//! The replay paths of a node, each under its tag.
//!
//! The paths are kept in a `bimap` map between tags and paths, so that a
//! path is found by its tag and a tag by its path. What Verus knows of the
//! map is stated here and taken on trust.

use crate::index::{copy_columns, Index, IndexType, IndexView, NodeIndex};
use vstd::prelude::*;

verus! {

#[verifier::external_type_specification]
#[verifier::external_body]
#[verifier::reject_recursive_types(L)]
#[verifier::reject_recursive_types(R)]
#[verifier::reject_recursive_types(LS)]
#[verifier::reject_recursive_types(RS)]
pub struct ExBiHashMap<L, R, LS, RS>(bimap::BiHashMap<L, R, LS, RS>);

/// A replay path as the map holds it: whether its index is ordered, the
/// columns of the index, and the nodes of the path from source to target.
pub type PathKey = (bool, Vec<usize>, Vec<NodeIndex>);

/// What a [`PathKey`] stands for in contracts.
pub type PathKeyView = (bool, Seq<usize>, Seq<NodeIndex>);

/// The replay paths of one node, each under the number of its tag.
pub type PathMap = bimap::BiHashMap<u32, PathKey>;

/// The pairs that the map holds, as a map from the left value to the right.
pub uninterp spec fn recorded_paths(m: PathMap) -> Map<u32, PathKeyView>;

/// What a key stands for in contracts.
pub open spec fn key_view(key: PathKey) -> PathKeyView {
    (key.0, key.1@, key.2@)
}

/// The key under which the path of an index is recorded.
pub open spec fn path_key_of(index: IndexView, nodes: Seq<NodeIndex>) -> PathKeyView {
    (index.index_type == IndexType::BTreeMap, index.columns, nodes)
}

/// Whether some tag of the recorded paths stands for the key.
pub open spec fn has_key(paths: Map<u32, PathKeyView>, key: PathKeyView) -> bool {
    exists|t: u32| paths.contains_key(t) && #[trigger] paths[t] == key
}

/// A tag that stands for the key.
pub open spec fn tag_of_key(paths: Map<u32, PathKeyView>, key: PathKeyView) -> u32 {
    choose|t: u32| paths.contains_key(t) && #[trigger] paths[t] == key
}

/// No two tags stand for the same path.
pub open spec fn one_tag_per_path(paths: Map<u32, PathKeyView>) -> bool {
    forall|s: u32, t: u32|
        paths.contains_key(s) && paths.contains_key(t) && #[trigger] paths[s] == #[trigger] paths[t]
            ==> s == t
}

/// The recorded paths after the pair of `tag` and `key` has been put in:
/// whatever stood under the tag or for the key has left.
pub open spec fn paths_insert(paths: Map<u32, PathKeyView>, tag: u32, key: PathKeyView) -> Map<
    u32,
    PathKeyView,
> {
    Map::new(
        |t: u32| t == tag || (paths.contains_key(t) && paths[t] != key),
        |t: u32|
            if t == tag {
                key
            } else {
                paths[t]
            },
    )
}

/// Putting a pair in keeps the tags of distinct paths distinct.
pub proof fn lemma_paths_insert(paths: Map<u32, PathKeyView>, tag: u32, key: PathKeyView)
    requires
        one_tag_per_path(paths),
    ensures
        one_tag_per_path(paths_insert(paths, tag, key)),
        has_key(paths_insert(paths, tag, key), key),
        tag_of_key(paths_insert(paths, tag, key), key) == tag,
{
    let r = paths_insert(paths, tag, key);
    assert(r.contains_key(tag) && r[tag] == key);
    assert forall|s: u32, t: u32|
        r.contains_key(s) && r.contains_key(t) && #[trigger] r[s] == #[trigger] r[t] implies s
        == t by {
        if s != tag && t != tag {
            assert(paths[s] == paths[t]);
        }
    }
}

/// No recorded path.
pub open spec fn no_paths() -> Map<u32, PathKeyView> {
    Map::empty()
}

/// `BiHashMap::new` of bimap: a map without pairs.
#[verifier::external_body]
pub(crate) fn path_map_new() -> (fresh: PathMap)
    ensures
        recorded_paths(fresh) == no_paths(),
{
    bimap::BiHashMap::new()
}

/// `BiHashMap::get_by_right` of bimap: a left value paired with the given
/// right value, or nothing where no pair has that right value.
#[verifier::external_body]
pub(crate) fn path_map_get_by_right(m: &PathMap, key: &PathKey) -> (r: Option<u32>)
    ensures
        r matches Some(t) ==> recorded_paths(*m).contains_key(t) && recorded_paths(*m)[t]
            == key_view(*key),
        r is None ==> !has_key(recorded_paths(*m), key_view(*key)),
{
    m.get_by_right(key).copied()
}

/// `BiHashMap::insert` of bimap: the pair is put in, and any pair with the
/// same left or the same right value is taken out first.
#[verifier::external_body]
pub(crate) fn path_map_insert(m: &mut PathMap, tag: u32, key: PathKey)
    ensures
        recorded_paths(*final(m)) == paths_insert(recorded_paths(*old(m)), tag, key_view(key)),
{
    m.insert(tag, key);
}

/// `BiHashMap::left_values` of bimap: every left value once, in no stated order.
#[verifier::external_body]
pub(crate) fn path_map_tags(m: &PathMap) -> (r: Vec<u32>)
    ensures
        r@.no_duplicates(),
        r@.to_set() == recorded_paths(*m).dom(),
{
    m.left_values().copied().collect()
}

/// `BiHashMap::iter` of bimap: every pair once, in no stated order, the
/// right value of each copied.
#[verifier::external_body]
pub(crate) fn path_map_pairs(m: &PathMap) -> (r: Vec<(u32, PathKey)>)
    ensures
        forall|i: int|
            0 <= i < r@.len() ==> recorded_paths(*m).contains_key((#[trigger] r@[i]).0)
                && recorded_paths(*m)[r@[i].0] == key_view(r@[i].1),
        forall|t: u32|
            recorded_paths(*m).contains_key(t) ==> exists|i: int|
                0 <= i < r@.len() && (#[trigger] r@[i]).0 == t,
        forall|i: int, j: int|
            0 <= i < j < r@.len() ==> (#[trigger] r@[i]).0 != (#[trigger] r@[j]).0,
{
    m.iter().map(|(l, r)| (*l, r.clone())).collect()
}

/// The key under which the path of an index is recorded.
pub fn path_key(index: &Index, nodes: &Vec<NodeIndex>) -> (r: PathKey)
    ensures
        key_view(r) == path_key_of(index@, nodes@),
{
    let ordered = match index.index_type {
        IndexType::HashMap => false,
        IndexType::BTreeMap => true,
    };
    (ordered, copy_columns(&index.columns), copy_columns(nodes))
}

} // verus!
