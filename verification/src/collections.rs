//! Hash collections over node indices that also keep the order of insertion,
//! so that what is walked in order is walked in a stated order.

use crate::index::{lemma_seq_insert, seq_insert, Index, IndexSet, IndexView, NodeIndex};
use vstd::prelude::*;

verus! {

broadcast use vstd::std_specs::hash::group_hash_axioms;

/// A list with one more element holds what it held, and that element.
pub proof fn lemma_push_contains<T>(s: Seq<T>, x: T)
    ensures
        forall|y: T| s.push(x).contains(y) <==> (s.contains(y) || y == x),
{
    assert forall|y: T| s.push(x).contains(y) <==> (s.contains(y) || y == x) by {
        if s.contains(y) {
            let j = choose|j: int| 0 <= j < s.len() && s[j] == y;
            assert(s.push(x)[j] == y);
        }
        if y == x {
            assert(s.push(x)[s.len() as int] == x);
        }
        if s.push(x).contains(y) {
            let j = choose|j: int| 0 <= j < s.push(x).len() && s.push(x)[j] == y;
            if j < s.len() {
                assert(s[j] == y);
            }
        }
    }
}

/// The first `i + 1` elements are the first `i` and the one at position `i`.
pub proof fn lemma_take_next<T>(s: Seq<T>, i: int)
    requires
        0 <= i < s.len(),
    ensures
        s.take(i + 1) == s.take(i).push(s[i]),
        forall|y: T| s.take(i + 1).contains(y) <==> (s.take(i).contains(y) || y == s[i]),
        s.no_duplicates() ==> !s.take(i).contains(s[i]),
{
    assert(s.take(i + 1) =~= s.take(i).push(s[i]));
    lemma_push_contains(s.take(i), s[i]);
    if s.no_duplicates() && s.take(i).contains(s[i]) {
        let j = choose|j: int| 0 <= j < i && s.take(i)[j] == s[i];
        assert(s[j] == s[i]);
    }
}

/// The position of `k` in `keys`, or the length of `keys` if it is absent.
pub open spec fn position_of(keys: Seq<NodeIndex>, k: NodeIndex) -> int
    decreases keys.len(),
{
    if keys.len() == 0 {
        0
    } else if keys[0] == k {
        0
    } else {
        1 + position_of(keys.drop_first(), k)
    }
}

/// `position_of` finds the first occurrence of a key that is present, and
/// runs to the end for one that is absent.
pub proof fn lemma_position_of(keys: Seq<NodeIndex>, k: NodeIndex)
    ensures
        0 <= position_of(keys, k) <= keys.len(),
        keys.contains(k) <==> position_of(keys, k) < keys.len(),
        position_of(keys, k) < keys.len() ==> keys[position_of(keys, k)] == k,
        forall|i: int| 0 <= i < position_of(keys, k) ==> keys[i] != k,
    decreases keys.len(),
{
    if keys.len() > 0 && keys[0] != k {
        let rest = keys.drop_first();
        lemma_position_of(rest, k);
        if keys.contains(k) {
            let i = choose|i: int| 0 <= i < keys.len() && keys[i] == k;
            assert(rest[i - 1] == k);
        }
        if rest.contains(k) {
            let i = choose|i: int| 0 <= i < rest.len() && rest[i] == k;
            assert(keys[i + 1] == k);
        }
        assert forall|i: int| 0 <= i < position_of(keys, k) implies keys[i] != k by {
            if i > 0 {
                assert(rest[i - 1] == keys[i]);
            }
        }
    } else if keys.len() > 0 {
        assert(keys[0] == k);
    }
}

/// A set of node indices that remembers the order in which they were added.
#[derive(Debug)]
pub struct NodeSet {
    members: std::collections::HashSet<NodeIndex>,
    items: Vec<NodeIndex>,
}

impl View for NodeSet {
    type V = Set<NodeIndex>;

    closed spec fn view(&self) -> Set<NodeIndex> {
        self.members@
    }
}

impl NodeSet {
    /// The members in order of insertion.
    pub closed spec fn order(&self) -> Seq<NodeIndex> {
        self.items@
    }

    /// No member occurs twice, and the members are those of the set.
    pub open spec fn wf(&self) -> bool {
        &&& self.order().no_duplicates()
        &&& self.order().to_set() == self@
    }

    /// The members are exactly what the order lists.
    pub proof fn lemma_members(&self)
        requires
            self.wf(),
        ensures
            self.order().to_set() == self@,
            forall|n: NodeIndex| self@.contains(n) <==> self.order().contains(n),
    {
        assert forall|n: NodeIndex| self@.contains(n) <==> self.order().contains(n) by {
            assert(self.order().to_set().contains(n) <==> self.order().contains(n));
        }
    }

    /// The empty set.
    pub fn new() -> (r: NodeSet)
        ensures
            r@ == Set::<NodeIndex>::empty(),
            r.order() == Seq::<NodeIndex>::empty(),
            r.wf(),
    {
        let r = NodeSet { members: std::collections::HashSet::new(), items: Vec::new() };
        assert(r.order().to_set() =~= Set::<NodeIndex>::empty());
        r
    }

    /// The number of members.
    pub fn len(&self) -> (r: usize)
        ensures
            r == self.order().len(),
    {
        self.items.len()
    }

    /// The member at position `i`, in order of insertion.
    pub fn get(&self, i: usize) -> (r: NodeIndex)
        requires
            i < self.order().len(),
        ensures
            r == self.order()[i as int],
            self.wf() ==> self@.contains(r),
    {
        proof {
            if self.wf() {
                assert(self.items@.contains(self.items@[i as int]));
                assert(self.order().to_set().contains(self.items@[i as int]));
            }
        }
        self.items[i]
    }

    /// Whether `n` is a member.
    pub fn contains(&self, n: NodeIndex) -> (r: bool)
        ensures
            r == self@.contains(n),
    {
        self.members.contains(&n)
    }

    /// Adds `n`; says whether it was new.
    pub fn insert(&mut self, n: NodeIndex) -> (r: bool)
        requires
            old(self).wf(),
        ensures
            final(self).wf(),
            r == !old(self)@.contains(n),
            final(self)@ == old(self)@.insert(n),
            final(self).order() == if r {
                old(self).order().push(n)
            } else {
                old(self).order()
            },
    {
        let ghost before = self.items@;
        let fresh = self.members.insert(n);
        if fresh {
            proof {
                assert(!before.contains(n)) by {
                    assert(before.to_set().contains(n) == before.contains(n));
                }
                lemma_seq_insert(before, n);
            }
            self.items.push(n);
            assert(self.items@ == seq_insert(before, n));
        } else {
            assert(self@ =~= old(self)@);
        }
        fresh
    }

    /// Removes every member.
    pub fn clear(&mut self)
        ensures
            final(self).wf(),
            final(self)@ == Set::<NodeIndex>::empty(),
            final(self).order() == Seq::<NodeIndex>::empty(),
    {
        self.members.clear();
        self.items.clear();
        assert(self.order().to_set() =~= Set::<NodeIndex>::empty());
    }
}

/// A map from node indices to values that remembers the order in which keys were added.
#[derive(Clone, Debug)]
pub struct NodeMap<V> {
    map: std::collections::HashMap<NodeIndex, V>,
    keys: Vec<NodeIndex>,
}

impl<V> View for NodeMap<V> {
    type V = Map<NodeIndex, V>;

    closed spec fn view(&self) -> Map<NodeIndex, V> {
        self.map@
    }
}

impl<V> NodeMap<V> {
    /// The keys in order of insertion.
    pub closed spec fn order(&self) -> Seq<NodeIndex> {
        self.keys@
    }

    /// The keys that are listed are the keys that have a value, each once.
    pub closed spec fn inv(&self) -> bool {
        &&& self.keys@.no_duplicates()
        &&& self.keys@.to_set() == self.map@.dom()
    }

    /// No key occurs twice, and the keys are those of the map.
    pub open spec fn wf(&self) -> bool {
        &&& self.inv()
        &&& self.order().no_duplicates()
        &&& self.order().to_set() == self@.dom()
    }

    /// The empty map.
    pub fn new() -> (r: NodeMap<V>)
        ensures
            r@ == Map::<NodeIndex, V>::empty(),
            r.order() == Seq::<NodeIndex>::empty(),
            r.wf(),
    {
        let r = NodeMap { map: std::collections::HashMap::new(), keys: Vec::new() };
        assert(r.keys@.to_set() =~= r.map@.dom());
        r
    }

    /// The number of keys.
    pub fn len(&self) -> (r: usize)
        ensures
            r == self.order().len(),
    {
        self.keys.len()
    }

    /// The key at position `i`, in order of insertion.
    pub fn key_at(&self, i: usize) -> (r: NodeIndex)
        requires
            self.wf(),
            i < self.order().len(),
        ensures
            r == self.order()[i as int],
            self@.contains_key(r),
    {
        proof {
            assert(self.keys@.contains(self.keys@[i as int]));
            assert(self.keys@.to_set().contains(self.keys@[i as int]));
        }
        self.keys[i]
    }

    /// The value at position `i`, in order of insertion of its key.
    pub fn value_at(&self, i: usize) -> (r: &V)
        requires
            self.wf(),
            i < self.order().len(),
        ensures
            *r == self@[self.order()[i as int]],
    {
        let k = self.key_at(i);
        let v = self.map.get(&k);
        v.unwrap()
    }

    /// The position of `k` among the keys, or their number if it is absent.
    fn find(&self, k: NodeIndex) -> (r: usize)
        ensures
            r == position_of(self.keys@, k),
            r <= self.keys@.len(),
            (r < self.keys@.len()) == self.keys@.contains(k),
    {
        let mut i: usize = 0;
        while i < self.keys.len()
            invariant
                i <= self.keys.len(),
                forall|j: int| 0 <= j < i ==> self.keys@[j] != k,
            decreases self.keys.len() - i,
        {
            if self.keys[i] == k {
                proof {
                    lemma_position_of(self.keys@, k);
                }
                return i;
            }
            i += 1;
        }
        proof {
            lemma_position_of(self.keys@, k);
        }
        i
    }

    /// Whether `k` has a value.
    pub fn contains_key(&self, k: NodeIndex) -> (r: bool)
        requires
            self.wf(),
        ensures
            r == self@.contains_key(k),
    {
        self.map.contains_key(&k)
    }

    /// The value of `k`, if it has one.
    pub fn get(&self, k: NodeIndex) -> (r: Option<&V>)
        requires
            self.wf(),
        ensures
            r is Some == self@.contains_key(k),
            r matches Some(v) ==> *v == self@[k],
    {
        self.map.get(&k)
    }

    /// Sets the value of `k`.
    pub fn insert(&mut self, k: NodeIndex, v: V)
        requires
            old(self).wf(),
        ensures
            final(self).wf(),
            final(self)@ == old(self)@.insert(k, v),
            final(self).order() == if old(self)@.contains_key(k) {
                old(self).order()
            } else {
                old(self).order().push(k)
            },
    {
        let ghost before = self.keys@;
        let ghost dom = self.map@.dom();
        if !self.map.contains_key(&k) {
            proof {
                assert(!before.contains(k)) by {
                    assert(before.to_set().contains(k) == before.contains(k));
                }
                lemma_seq_insert(before, k);
            }
            self.keys.push(k);
            assert(self.keys@ == seq_insert(before, k));
        }
        self.map.insert(k, v);
        proof {
            assert(self.map@.dom() =~= dom.insert(k));
            assert(self.keys@.to_set() =~= self.map@.dom()) by {
                assert forall|q: NodeIndex| self.keys@.to_set().contains(q) <==> dom.insert(
                    k,
                ).contains(q) by {
                    assert(before.to_set().contains(q) == before.contains(q));
                    assert(self.keys@.to_set().contains(q) == self.keys@.contains(q));
                    if dom.contains(k) {
                    } else {
                        lemma_push_contains(before, k);
                    }
                }
            }
        }
    }

    /// Removes `k` and hands back its value.
    pub fn remove(&mut self, k: NodeIndex) -> (r: Option<V>)
        requires
            old(self).wf(),
        ensures
            final(self).wf(),
            final(self)@ == old(self)@.remove(k),
            r is Some == old(self)@.contains_key(k),
            r matches Some(w) ==> w == old(self)@[k],
            final(self).order() == old(self).order().remove_value(k),
    {
        let ghost bk = self.keys@;
        let ghost dom = self.map@.dom();
        let r = self.map.remove(&k);
        proof {
            assert(bk.to_set().contains(k) == bk.contains(k));
            assert(self.map@.dom() =~= dom.remove(k));
        }
        if r.is_some() {
            let i = self.find(k);
            self.keys.remove(i);
            proof {
                lemma_position_of(bk, k);
                assert(bk.remove_value(k) == bk.remove(i as int)) by {
                    bk.index_of_first_ensures(k);
                    let idx = bk.index_of_first(k);
                    assert(idx is Some);
                    assert(bk[idx->0] == k);
                    assert(idx->0 == i);
                }
                assert(self.keys@ == bk.remove(i as int));
                assert forall|a: int, b: int|
                    0 <= a < self.keys@.len() && 0 <= b < self.keys@.len() && a != b
                    implies self.keys@[a] != self.keys@[b] by {
                    let a2 = if a < i { a } else { a + 1 };
                    let b2 = if b < i { b } else { b + 1 };
                    assert(self.keys@[a] == bk[a2]);
                    assert(self.keys@[b] == bk[b2]);
                }
                assert forall|q: NodeIndex| self.keys@.to_set().contains(q) <==> dom.remove(
                    k,
                ).contains(q) by {
                    assert(bk.to_set().contains(q) == bk.contains(q));
                    if self.keys@.contains(q) {
                        let a = choose|a: int| 0 <= a < self.keys@.len() && self.keys@[a] == q;
                        let a2 = if a < i { a } else { a + 1 };
                        assert(bk[a2] == q);
                        assert(bk[i as int] == k);
                        assert(q != k);
                    }
                    if dom.remove(k).contains(q) {
                        lemma_position_of(bk, q);
                        let p = position_of(bk, q);
                        let p2 = if p < i { p } else { p - 1 };
                        assert(p != i);
                        assert(self.keys@[p2] == q);
                    }
                }
                assert(self.keys@.to_set() =~= self.map@.dom());
            }
        } else {
            proof {
                bk.index_of_first_ensures(k);
                assert(self.map@ =~= old(self)@);
            }
        }
        r
    }

    /// Removes every key.
    pub fn clear(&mut self)
        ensures
            final(self).wf(),
            final(self)@ == Map::<NodeIndex, V>::empty(),
            final(self).order() == Seq::<NodeIndex>::empty(),
    {
        self.map.clear();
        self.keys.clear();
        assert(self.keys@.to_set() =~= self.map@.dom());
    }
}

/// For each materialized node, its indexes in order of addition.
pub type IndexTable = Map<NodeIndex, Seq<IndexView>>;

/// The indexes of `n` in the table; none for a node it lacks.
pub open spec fn table_get(t: IndexTable, n: NodeIndex) -> Seq<IndexView> {
    if t.contains_key(n) {
        t[n]
    } else {
        Seq::empty()
    }
}

/// Whether the table holds the index for the node.
pub open spec fn table_has(t: IndexTable, n: NodeIndex, i: IndexView) -> bool {
    t.contains_key(n) && t[n].contains(i)
}

/// The table with the index added to those of `n`.
pub open spec fn table_insert(t: IndexTable, n: NodeIndex, i: IndexView) -> IndexTable {
    t.insert(n, seq_insert(table_get(t, n), i))
}

/// The table with an entry for `n`, empty if it had none.
pub open spec fn table_touch(t: IndexTable, n: NodeIndex) -> IndexTable {
    t.insert(n, table_get(t, n))
}

/// No node of the table has an index twice.
pub open spec fn table_wf(t: IndexTable) -> bool {
    forall|n: NodeIndex| t.contains_key(n) ==> (#[trigger] t[n]).no_duplicates()
}

/// Every index that `a` holds for a node, `b` holds for it too.
pub open spec fn table_within(a: IndexTable, b: IndexTable) -> bool {
    forall|n: NodeIndex, i: IndexView| #[trigger] table_has(a, n, i) ==> table_has(b, n, i)
}

/// What a table holds after an index has been added, whether or not the table is well-formed.
pub proof fn lemma_table_has_insert(t: IndexTable, n: NodeIndex, i: IndexView)
    ensures
        forall|m: NodeIndex, j: IndexView| #[trigger]
            table_has(table_insert(t, n, i), m, j) <==> (table_has(t, m, j) || (m == n && j == i)),
        forall|m: NodeIndex|
            table_insert(t, n, i).contains_key(m) <==> (t.contains_key(m) || m == n),
{
    let before = table_get(t, n);
    lemma_push_contains(before, i);
    let r = table_insert(t, n, i);
    assert forall|m: NodeIndex, j: IndexView| #[trigger]
        table_has(r, m, j) <==> (table_has(t, m, j) || (m == n && j == i)) by {
        if m != n {
            if t.contains_key(m) {
                assert(r[m] == t[m]);
            }
        } else {
            assert(r[n] == seq_insert(before, i));
            if !t.contains_key(n) {
                assert(!before.contains(j));
            }
        }
    }
}

impl NodeMap<IndexSet> {
    /// For each key, what its indexes stand for.
    pub open spec fn table(&self) -> IndexTable {
        Map::new(|k: NodeIndex| self@.contains_key(k), |k: NodeIndex| self@[k]@)
    }

    /// The map is well-formed and so is each of its index lists.
    pub open spec fn table_ok(&self) -> bool {
        &&& self.wf()
        &&& forall|k: NodeIndex| self@.contains_key(k) ==> (#[trigger] self@[k]).wf()
    }

    /// A well-formed map stands for a well-formed table.
    pub proof fn lemma_table_ok(&self)
        requires
            self.table_ok(),
        ensures
            table_wf(self.table()),
    {
        assert forall|n: NodeIndex| self.table().contains_key(n) implies (
        #[trigger] self.table()[n]).no_duplicates() by {
            assert(self@[n].wf());
        }
    }

    /// Whether the node has the index.
    pub fn has_index(&self, n: NodeIndex, index: &Index) -> (r: bool)
        requires
            self.table_ok(),
        ensures
            r == table_has(self.table(), n, index@),
    {
        match self.get(n) {
            Some(set) => set.contains(index),
            None => false,
        }
    }

    /// The number of indexes of the node; zero for a node without an entry.
    pub fn count(&self, n: NodeIndex) -> (r: usize)
        requires
            self.table_ok(),
        ensures
            r == table_get(self.table(), n).len(),
    {
        match self.get(n) {
            Some(set) => set.len(),
            None => 0,
        }
    }

    /// Adds the index to those of the node; says whether it was new there.
    /// The node keeps its place among the keys.
    pub fn insert_index(&mut self, n: NodeIndex, index: Index) -> (r: bool)
        requires
            old(self).table_ok(),
        ensures
            final(self).table_ok(),
            final(self).table() == table_insert(old(self).table(), n, index@),
            r == !table_has(old(self).table(), n, index@),
            final(self).order() == if old(self)@.contains_key(n) {
                old(self).order()
            } else {
                old(self).order().push(n)
            },
    {
        let ghost before = self@;
        let ghost table = self.table();
        let ghost keys = self.keys@;
        let present = self.map.contains_key(&n);
        let mut set = match self.map.remove(&n) {
            Some(set) => set,
            None => IndexSet::new(),
        };
        assert(set@ == table_get(table, n));
        let added = set.insert(index);
        if !present {
            proof {
                assert(!keys.contains(n)) by {
                    assert(keys.to_set().contains(n) == keys.contains(n));
                }
                lemma_seq_insert(keys, n);
            }
            self.keys.push(n);
            assert(self.keys@ == seq_insert(keys, n));
        }
        self.map.insert(n, set);
        proof {
            assert(self@ =~= before.insert(n, set));
            assert(self.keys@.to_set() =~= self.map@.dom()) by {
                assert forall|q: NodeIndex| self.keys@.to_set().contains(q)
                    <==> self.map@.dom().contains(q) by {
                    assert(keys.to_set().contains(q) == keys.contains(q));
                    assert(self.keys@.to_set().contains(q) == self.keys@.contains(q));
                    if !present {
                        lemma_push_contains(keys, n);
                    }
                }
            }
            assert(self.table() =~= table_insert(table, n, index@));
        }
        added
    }

    /// Gives the node an entry, empty if it had none.
    pub fn touch(&mut self, n: NodeIndex)
        requires
            old(self).table_ok(),
        ensures
            final(self).table_ok(),
            final(self).table() == table_touch(old(self).table(), n),
    {
        let ghost before = *self;
        if !self.contains_key(n) {
            self.insert(n, IndexSet::new());
        }
        assert(self.table() =~= table_touch(before.table(), n));
    }
}

} // verus!
