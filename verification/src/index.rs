//! Indexes over the columns of a node's state, and duplicate-free lists of them.

use vstd::prelude::*;

verus! {

/// Identity of an operator in the dataflow graph.
pub type NodeIndex = usize;

/// The kind of structure that backs an index.
#[derive(Clone, Copy, Debug, PartialEq, Eq, Hash, Structural)]
pub enum IndexType {
    /// Point lookups only.
    HashMap,
    /// Point and range lookups.
    BTreeMap,
}

/// An index: a kind and the ordered list of column positions it covers.
#[derive(Clone, Debug, PartialEq, Eq, Hash)]
pub struct Index {
    pub index_type: IndexType,
    pub columns: Vec<usize>,
}

/// What an [`Index`] stands for in contracts.
pub ghost struct IndexView {
    pub index_type: IndexType,
    pub columns: Seq<usize>,
}

impl View for Index {
    type V = IndexView;

    open spec fn view(&self) -> IndexView {
        IndexView { index_type: self.index_type, columns: self.columns@ }
    }
}

/// Copy of a list of column positions.
pub fn copy_columns(columns: &Vec<usize>) -> (r: Vec<usize>)
    ensures
        r@ == columns@,
{
    let mut out: Vec<usize> = Vec::new();
    let mut i: usize = 0;
    while i < columns.len()
        invariant
            i <= columns.len(),
            out@ == columns@.take(i as int),
        decreases columns.len() - i,
    {
        out.push(columns[i]);
        assert(columns@.take(i + 1) =~= columns@.take(i as int).push(columns@[i as int]));
        i += 1;
    }
    assert(columns@.take(columns.len() as int) =~= columns@);
    out
}

/// Whether two lists of column positions are equal, element by element.
pub fn same_columns(a: &Vec<usize>, b: &Vec<usize>) -> (r: bool)
    ensures
        r == (a@ == b@),
{
    if a.len() != b.len() {
        return false;
    }
    let mut i: usize = 0;
    while i < a.len()
        invariant
            i <= a.len(),
            a.len() == b.len(),
            forall|k: int| 0 <= k < i ==> a@[k] == b@[k],
        decreases a.len() - i,
    {
        if a[i] != b[i] {
            return false;
        }
        i += 1;
    }
    assert(a@ =~= b@);
    true
}

impl Index {
    /// An index of the given kind over the given columns.
    pub fn new(index_type: IndexType, columns: Vec<usize>) -> (r: Index)
        ensures
            r@ == (IndexView { index_type, columns: columns@ }),
    {
        Index { index_type, columns }
    }

    /// A hash index over the given columns.
    pub fn hash_map(columns: Vec<usize>) -> (r: Index)
        ensures
            r@ == (IndexView { index_type: IndexType::HashMap, columns: columns@ }),
    {
        Index { index_type: IndexType::HashMap, columns }
    }

    /// An ordered index over the given columns.
    pub fn btree_map(columns: Vec<usize>) -> (r: Index)
        ensures
            r@ == (IndexView { index_type: IndexType::BTreeMap, columns: columns@ }),
    {
        Index { index_type: IndexType::BTreeMap, columns }
    }

    /// Whether the two indexes have the same kind and the same columns in the same order.
    pub fn same(&self, other: &Index) -> (r: bool)
        ensures
            r == (self@ == other@),
    {
        self.index_type == other.index_type && same_columns(&self.columns, &other.columns)
    }

    /// A copy of this index.
    pub fn duplicate(&self) -> (r: Index)
        ensures
            r@ == self@,
    {
        Index { index_type: self.index_type, columns: copy_columns(&self.columns) }
    }
}

/// An index requested for lookups, strict or weak.
///
/// A strict index is consulted while replays are processed; a weak one is
/// not, and is always accompanied by a strict index of the same shape.
#[derive(Clone, Debug, PartialEq, Eq, Hash)]
pub enum LookupIndex {
    Strict(Index),
    Weak(Index),
}

/// What a [`LookupIndex`] stands for in contracts.
pub ghost enum LookupIndexView {
    Strict(IndexView),
    Weak(IndexView),
}

impl LookupIndexView {
    /// The index itself, without its strictness.
    pub open spec fn index(self) -> IndexView {
        match self {
            LookupIndexView::Strict(i) => i,
            LookupIndexView::Weak(i) => i,
        }
    }

    /// Whether this is a weak index.
    pub open spec fn is_weak(self) -> bool {
        self is Weak
    }

    /// The same strictness around another index.
    pub open spec fn with_index(self, index: IndexView) -> LookupIndexView {
        match self {
            LookupIndexView::Strict(_) => LookupIndexView::Strict(index),
            LookupIndexView::Weak(_) => LookupIndexView::Weak(index),
        }
    }
}

impl View for LookupIndex {
    type V = LookupIndexView;

    open spec fn view(&self) -> LookupIndexView {
        match self {
            LookupIndex::Strict(i) => LookupIndexView::Strict(i@),
            LookupIndex::Weak(i) => LookupIndexView::Weak(i@),
        }
    }
}

impl LookupIndex {
    /// The index itself, without its strictness.
    pub fn index(&self) -> (r: &Index)
        ensures
            r@ == self@.index(),
    {
        match self {
            LookupIndex::Strict(i) => i,
            LookupIndex::Weak(i) => i,
        }
    }

    /// Whether this is a weak index.
    pub fn is_weak(&self) -> (r: bool)
        ensures
            r == self@.is_weak(),
    {
        match self {
            LookupIndex::Strict(_) => false,
            LookupIndex::Weak(_) => true,
        }
    }

    /// Gives up the strictness and keeps the index.
    pub fn into_index(self) -> (r: Index)
        ensures
            r@ == self@.index(),
    {
        match self {
            LookupIndex::Strict(i) => i,
            LookupIndex::Weak(i) => i,
        }
    }

    /// Whether the two have the same strictness and the same index.
    pub fn same(&self, other: &LookupIndex) -> (r: bool)
        ensures
            r == (self@ == other@),
    {
        match (self, other) {
            (LookupIndex::Strict(a), LookupIndex::Strict(b)) => a.same(b),
            (LookupIndex::Weak(a), LookupIndex::Weak(b)) => a.same(b),
            _ => false,
        }
    }

    /// A copy of this lookup index.
    pub fn duplicate(&self) -> (r: LookupIndex)
        ensures
            r@ == self@,
    {
        match self {
            LookupIndex::Strict(i) => LookupIndex::Strict(i.duplicate()),
            LookupIndex::Weak(i) => LookupIndex::Weak(i.duplicate()),
        }
    }
}

/// Adds `x` to the end of `s` unless `s` already holds it.
pub open spec fn seq_insert<T>(s: Seq<T>, x: T) -> Seq<T> {
    if s.contains(x) {
        s
    } else {
        s.push(x)
    }
}

/// Adds each element of `more`, in order, to `s` as [`seq_insert`] does.
pub open spec fn seq_extend<T>(s: Seq<T>, more: Seq<T>) -> Seq<T>
    decreases more.len(),
{
    if more.len() == 0 {
        s
    } else {
        seq_insert(seq_extend(s, more.drop_last()), more.last())
    }
}

/// Inserting keeps a duplicate-free list duplicate-free and adds exactly the new element.
pub proof fn lemma_seq_insert<T>(s: Seq<T>, x: T)
    requires
        s.no_duplicates(),
    ensures
        seq_insert(s, x).no_duplicates(),
        seq_insert(s, x).to_set() == s.to_set().insert(x),
        forall|y: T| seq_insert(s, x).contains(y) <==> (y == x || s.contains(y)),
{
    let r = seq_insert(s, x);
    if !s.contains(x) {
        assert forall|i: int, j: int| 0 <= i < r.len() && 0 <= j < r.len() && i != j implies r[i]
            != r[j] by {
            if i < s.len() && j < s.len() {
            } else if i < s.len() {
                assert(s.contains(r[i]));
            } else {
                assert(s.contains(r[j]));
            }
        }
    }
    assert forall|y: T| r.contains(y) <==> (y == x || s.contains(y)) by {
        if r.contains(y) {
            let i = choose|i: int| 0 <= i < r.len() && r[i] == y;
            if i < s.len() {
                assert(s[i] == y);
            }
        }
        if s.contains(y) {
            let i = choose|i: int| 0 <= i < s.len() && s[i] == y;
            assert(r[i] == y);
        }
        if y == x {
            if s.contains(x) {
            } else {
                assert(r[s.len() as int] == x);
            }
        }
    }
    assert(r.to_set() =~= s.to_set().insert(x));
}

/// What a plain list of indexes stands for in contracts.
pub open spec fn index_views(s: Seq<Index>) -> Seq<IndexView> {
    Seq::new(s.len(), |k: int| s[k]@)
}

/// A list of indexes in which none occurs twice, in the order they were added.
#[derive(Clone, Debug)]
pub struct IndexSet {
    items: Vec<Index>,
}

impl View for IndexSet {
    type V = Seq<IndexView>;

    closed spec fn view(&self) -> Seq<IndexView> {
        index_views(self.items@)
    }
}

impl IndexSet {
    /// No index occurs twice.
    pub open spec fn wf(&self) -> bool {
        self@.no_duplicates()
    }

    /// The empty list.
    pub fn new() -> (r: IndexSet)
        ensures
            r@ == Seq::<IndexView>::empty(),
            r.wf(),
    {
        let r = IndexSet { items: Vec::new() };
        assert(r@ =~= Seq::<IndexView>::empty());
        r
    }

    /// The number of indexes.
    pub fn len(&self) -> (r: usize)
        ensures
            r == self@.len(),
    {
        self.items.len()
    }

    /// Whether the list holds no index.
    pub fn is_empty(&self) -> (r: bool)
        ensures
            r == (self@.len() == 0),
    {
        self.items.len() == 0
    }

    /// The index at position `i`, in order of addition.
    pub fn get(&self, i: usize) -> (r: &Index)
        requires
            i < self@.len(),
        ensures
            r@ == self@[i as int],
    {
        &self.items[i]
    }

    /// Whether the list holds the index.
    pub fn contains(&self, index: &Index) -> (r: bool)
        ensures
            r == self@.contains(index@),
    {
        let mut i: usize = 0;
        while i < self.items.len()
            invariant
                i <= self.items.len(),
                forall|k: int| 0 <= k < i ==> self@[k] != index@,
            decreases self.items.len() - i,
        {
            if self.items[i].same(index) {
                assert(self@[i as int] == index@);
                return true;
            }
            i += 1;
        }
        false
    }

    /// Adds the index at the end unless the list holds it; says whether it was added.
    pub fn insert(&mut self, index: Index) -> (r: bool)
        requires
            old(self).wf(),
        ensures
            r == !old(self)@.contains(index@),
            final(self)@ == seq_insert(old(self)@, index@),
            final(self).wf(),
    {
        if self.contains(&index) {
            false
        } else {
            proof {
                lemma_seq_insert(self@, index@);
            }
            let ghost before = self@;
            self.items.push(index);
            assert(self@ =~= before.push(index@));
            true
        }
    }

    /// Removes every index.
    pub fn clear(&mut self)
        ensures
            final(self)@ == Seq::<IndexView>::empty(),
            final(self).wf(),
    {
        self.items.clear();
        assert(self@ =~= Seq::<IndexView>::empty());
    }

    /// A copy of the list.
    pub fn duplicate(&self) -> (r: IndexSet)
        ensures
            r@ == self@,
    {
        let mut items: Vec<Index> = Vec::new();
        let mut i: usize = 0;
        while i < self.items.len()
            invariant
                i <= self.items.len(),
                items@.len() == i,
                index_views(items@) == self@.take(i as int),
            decreases self.items.len() - i,
        {
            let ghost before = items@;
            items.push(self.items[i].duplicate());
            assert forall|k: int| 0 <= k < i + 1 implies index_views(items@)[k] == self@[k] by {
                if k < i {
                    assert(index_views(before)[k] == self@.take(i as int)[k]);
                    assert(items@[k] == before[k]);
                }
            }
            assert(index_views(items@) =~= self@.take(i + 1));
            i += 1;
        }
        assert(self@.take(self.items.len() as int) =~= self@);
        IndexSet { items }
    }

    /// The indexes as a plain list, in order of addition.
    pub fn to_vec(&self) -> (r: Vec<Index>)
        ensures
            index_views(r@) == self@,
    {
        let d = self.duplicate();
        d.items
    }
}

} // verus!
