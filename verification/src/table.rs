//! A table: values under distinct keys.

use vstd::prelude::*;

verus! {

/// A type whose values can be told apart.
pub trait TableKey: View + Sized {
    fn same(&self, other: &Self) -> (r: bool)
        ensures
            r == (self@ == other@),
    ;
}

impl TableKey for [u8; 20] {
    fn same(&self, other: &[u8; 20]) -> (r: bool) {
        crate::bytes::bytes_equal(self, other)
    }
}

/// Values under distinct keys.
pub struct Table<K: TableKey, V> {
    entries: Vec<(K, V)>,
}

/// Where the key stands among the entries, if it does.
spec fn holds_at<K: TableKey, V>(entries: Seq<(K, V)>, k: K::V, i: int) -> bool {
    0 <= i < entries.len() && entries[i].0@ == k
}

spec fn holds<K: TableKey, V>(entries: Seq<(K, V)>, k: K::V) -> bool {
    exists|i: int| holds_at(entries, k, i)
}

spec fn place<K: TableKey, V>(entries: Seq<(K, V)>, k: K::V) -> int {
    choose|i: int| holds_at(entries, k, i)
}

spec fn contents<K: TableKey, V>(entries: Seq<(K, V)>) -> Map<K::V, V> {
    Map::new(|k: K::V| holds(entries, k), |k: K::V| entries[place(entries, k)].1)
}

spec fn distinct<K: TableKey, V>(entries: Seq<(K, V)>) -> bool {
    forall|i: int, j: int|
        0 <= i < j < entries.len() ==> #[trigger] entries[i].0@ != #[trigger] entries[j].0@
}

impl<K: TableKey, V> View for Table<K, V> {
    type V = Map<K::V, V>;

    closed spec fn view(&self) -> Map<K::V, V> {
        contents(self.entries@)
    }
}

/// An entry is what the table holds under its key.
proof fn lemma_entry<K: TableKey, V>(entries: Seq<(K, V)>, i: int)
    requires
        distinct(entries),
        0 <= i < entries.len(),
    ensures
        contents(entries).dom().contains(entries[i].0@),
        contents(entries)[entries[i].0@] == entries[i].1,
{
    let k = entries[i].0@;
    assert(holds_at(entries, k, i));
    assert(holds_at(entries, k, place(entries, k)));
}

proof fn lemma_push<K: TableKey, V>(entries: Seq<(K, V)>, k: K, v: V)
    requires
        distinct(entries),
        !holds(entries, k@),
    ensures
        distinct(entries.push((k, v))),
        contents(entries.push((k, v))) == contents(entries).insert(k@, v),
{
    let after = entries.push((k, v));
    let n = entries.len() as int;
    assert(after[n] == (k, v));
    assert forall|i: int, j: int| 0 <= i < j < after.len() implies #[trigger] after[i].0@
        != #[trigger] after[j].0@ by {
        assert(after[i] == entries[i]);
        if j == n {
            if entries[i].0@ == k@ {
                assert(holds_at(entries, k@, i));
            }
        } else {
            assert(after[j] == entries[j]);
            assert(entries[i].0@ != entries[j].0@);
        }
    }
    assert forall|x: K::V| #![auto]
        contents(after).dom().contains(x) == contents(entries).insert(k@, v).dom().contains(x) by {
        if holds(after, x) {
            let i = place(after, x);
            assert(holds_at(after, x, i));
            if i < n {
                assert(holds_at(entries, x, i));
            }
        }
        if holds(entries, x) {
            assert(holds_at(after, x, place(entries, x)));
        }
        assert(holds_at(after, k@, n));
    }
    assert forall|x: K::V| #[trigger] contents(after).dom().contains(x) implies contents(after)[x]
        == contents(entries).insert(k@, v)[x] by {
        let i = place(after, x);
        assert(holds_at(after, x, i));
        lemma_entry(after, i);
        if i < n {
            lemma_entry(entries, i);
            assert(holds_at(entries, x, i));
        }
    }
    assert(contents(after) =~= contents(entries).insert(k@, v));
}

/// The entries without the one at `i`, whose place the last one takes.
spec fn cut<K: TableKey, V>(entries: Seq<(K, V)>, i: int) -> Seq<(K, V)> {
    entries.update(i, entries.last()).drop_last()
}

proof fn lemma_cut<K: TableKey, V>(entries: Seq<(K, V)>, i: int)
    requires
        distinct(entries),
        0 <= i < entries.len(),
    ensures
        distinct(cut(entries, i)),
        contents(cut(entries, i)) == contents(entries).remove(entries[i].0@),
{
    let after = cut(entries, i);
    let k = entries[i].0@;
    let last = entries.len() - 1;
    assert forall|a: int, b: int| 0 <= a < b < after.len() implies #[trigger] after[a].0@
        != #[trigger] after[b].0@ by {
        let a0 = if a == i {
            last
        } else {
            a
        };
        let b0 = if b == i {
            last
        } else {
            b
        };
        assert(after[a] == entries[a0] && after[b] == entries[b0]);
    }
    assert forall|x: K::V| #![auto]
        contents(after).dom().contains(x) == contents(entries).remove(k).dom().contains(x) by {
        if holds(after, x) {
            let a = place(after, x);
            assert(holds_at(after, x, a));
            let a0 = if a == i {
                last
            } else {
                a
            };
            assert(after[a] == entries[a0]);
            assert(holds_at(entries, x, a0));
        }
        if holds(entries, x) && x != k {
            let b = place(entries, x);
            assert(holds_at(entries, x, b));
            let b0 = if b == last {
                i
            } else {
                b
            };
            assert(after[b0] == entries[b]);
            assert(holds_at(after, x, b0));
        }
    }
    assert forall|x: K::V| #[trigger] contents(after).dom().contains(x) implies contents(after)[x]
        == contents(entries).remove(k)[x] by {
        let a = place(after, x);
        assert(holds_at(after, x, a));
        let a0 = if a == i {
            last
        } else {
            a
        };
        assert(after[a] == entries[a0]);
        lemma_entry(after, a);
        lemma_entry(entries, a0);
    }
    assert(contents(after) =~= contents(entries).remove(k));
}

impl<K: TableKey, V> Table<K, V> {
    #[verifier::type_invariant]
    spec fn well_formed(self) -> bool {
        distinct(self.entries@)
    }

    pub fn new() -> (r: Table<K, V>)
        ensures
            r@ == Map::<K::V, V>::empty(),
    {
        let r = Table { entries: Vec::new() };
        assert(r@ =~= Map::empty());
        r
    }

    /// The keys in the order in which the entries stand, which is not fixed.
    pub closed spec fn order(&self) -> Seq<K::V> {
        self.entries@.map_values(|e: (K, V)| e.0@)
    }

    /// The number of entries. Every key stands at one place of the order.
    pub fn len(&self) -> (r: usize)
        ensures
            r == self.order().len(),
            self.order().no_duplicates(),
            forall|k: K::V| self@.dom().contains(k) <==> self.order().contains(k),
    {
        proof {
            use_type_invariant(self);
            let e = self.entries@;
            assert forall|i: int, j: int|
                0 <= i < self.order().len() && 0 <= j < self.order().len() && i
                    != j implies self.order()[i] != self.order()[j] by {
                assert(e[i].0@ != e[j].0@);
            }
            assert forall|k: K::V| self@.dom().contains(k) <==> self.order().contains(k) by {
                if holds(e, k) {
                    assert(self.order()[place(e, k)] == k);
                }
                if self.order().contains(k) {
                    let i = choose|i: int| 0 <= i < self.order().len() && self.order()[i] == k;
                    assert(holds_at(e, k, i));
                }
            }
        }
        self.entries.len()
    }

    /// The value of the entry at a place.
    pub fn nth(&self, i: usize) -> (r: &V)
        requires
            i < self.order().len(),
        ensures
            self@.dom().contains(self.order()[i as int]),
            self@[self.order()[i as int]] == *r,
    {
        proof {
            use_type_invariant(self);
            lemma_entry(self.entries@, i as int);
        }
        &self.entries[i].1
    }

    fn find(&self, k: &K) -> (r: Option<usize>)
        ensures
            match r {
                Some(i) => holds_at(self.entries@, k@, i as int),
                None => !holds(self.entries@, k@),
            },
    {
        let n: usize = self.entries.len();
        let mut i: usize = 0;
        while i < n
            invariant
                n == self.entries@.len(),
                i <= n,
                forall|j: int| 0 <= j < i ==> !holds_at(self.entries@, k@, j),
            decreases n - i,
        {
            if self.entries[i].0.same(k) {
                return Some(i);
            }
            i = i + 1;
        }
        None
    }

    /// The value under a key.
    pub fn get(&self, k: &K) -> (r: Option<&V>)
        ensures
            match r {
                Some(v) => self@.dom().contains(k@) && self@[k@] == *v,
                None => !self@.dom().contains(k@),
            },
    {
        proof {
            use_type_invariant(self);
        }
        match self.find(k) {
            Some(i) => {
                proof {
                    lemma_entry(self.entries@, i as int);
                }
                Some(&self.entries[i].1)
            },
            None => None,
        }
    }

    /// Takes the value under a key out of the table.
    pub fn remove(&mut self, k: &K) -> (r: Option<V>)
        ensures
            final(self)@ == old(self)@.remove(k@),
            match r {
                Some(v) => old(self)@.dom().contains(k@) && old(self)@[k@] == v,
                None => !old(self)@.dom().contains(k@),
            },
    {
        proof {
            use_type_invariant(&*self);
        }
        match self.find(k) {
            Some(i) => {
                proof {
                    lemma_entry(self.entries@, i as int);
                    lemma_cut(self.entries@, i as int);
                }
                let mut entries: Vec<(K, V)> = Vec::new();
                std::mem::swap(&mut self.entries, &mut entries);
                let pair = entries.swap_remove(i);
                assert(entries@ =~= cut(old(self).entries@, i as int));
                self.entries = entries;
                Some(pair.1)
            },
            None => {
                assert(self@ =~= old(self)@.remove(k@));
                None
            },
        }
    }

    /// Puts a value under a key, in place of the one that may be there.
    pub fn insert(&mut self, k: K, v: V)
        ensures
            final(self)@ == old(self)@.insert(k@, v),
    {
        let _ = self.remove(&k);
        proof {
            use_type_invariant(&*self);
            if holds(self.entries@, k@) {
                assert(self@.dom().contains(k@));
            }
            lemma_push(self.entries@, k, v);
        }
        let ghost gone = self@;
        let mut entries: Vec<(K, V)> = Vec::new();
        std::mem::swap(&mut self.entries, &mut entries);
        entries.push((k, v));
        self.entries = entries;
        assert(gone.insert(k@, v) =~= old(self)@.insert(k@, v));
    }
}

} // verus!
