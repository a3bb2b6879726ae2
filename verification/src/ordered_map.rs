//! A map from strings to values that is walked in the order of its keys.
use crate::text;
use vstd::prelude::*;

verus! {

/// A map from strings to values. Its entries stand in the order of their keys, and no
/// key occurs twice.
#[derive(Debug)]
pub struct OrderedMap<V> {
    entries: Vec<(String, V)>,
}

impl<V> View for OrderedMap<V> {
    type V = Map<Seq<char>, V>;

    closed spec fn view(&self) -> Map<Seq<char>, V> {
        Map::new(
            |k: Seq<char>| self.keys().contains(k),
            |k: Seq<char>| self.values()[self.keys().index_of(k)],
        )
    }
}

impl<V> OrderedMap<V> {
    /// The keys, in order.
    pub closed spec fn keys(self) -> Seq<Seq<char>> {
        Seq::new(self.entries@.len(), |i: int| self.entries@[i].0@)
    }

    /// The values, in the order of their keys.
    pub closed spec fn values(self) -> Seq<V> {
        Seq::new(self.entries@.len(), |i: int| self.entries@[i].1)
    }

    /// The keys ascend.
    pub open spec fn wf(self) -> bool {
        forall|i: int, j: int|
            #![trigger self.keys()[i], self.keys()[j]]
            0 <= i < j < self.keys().len() ==> text::text_lt(self.keys()[i], self.keys()[j])
    }

    /// The keys are distinct, and key and value at one position belong together.
    pub proof fn lemma_entries(self)
        requires
            self.wf(),
        ensures
            self.keys().no_duplicates(),
            self.keys().len() == self.values().len(),
            forall|k: Seq<char>| self@.dom().contains(k) <==> self.keys().contains(k),
            forall|i: int|
                #![trigger self.keys()[i]]
                0 <= i < self.keys().len() ==> self@.dom().contains(self.keys()[i])
                    && self@[self.keys()[i]] == self.values()[i],
    {
        assert forall|i: int, j: int|
            0 <= i < self.keys().len() && 0 <= j < self.keys().len() && i != j implies
            self.keys()[i] != self.keys()[j] by {
            text::lemma_text_lt_irreflexive(self.keys()[i]);
            if i < j {
                assert(text::text_lt(self.keys()[i], self.keys()[j]));
            } else {
                assert(text::text_lt(self.keys()[j], self.keys()[i]));
            }
        }
        assert forall|i: int|
            #![trigger self.keys()[i]]
            0 <= i < self.keys().len() implies self@.dom().contains(self.keys()[i])
                && self@[self.keys()[i]] == self.values()[i] by {
            let k = self.keys()[i];
            assert(self.keys().contains(k));
            assert(self.keys().index_of(k) == i);
        }
    }

    /// A map without entries.
    pub fn new() -> (m: Self)
        ensures
            m.wf(),
            m@ == Map::<Seq<char>, V>::empty(),
            m.keys() == Seq::<Seq<char>>::empty(),
    {
        let m = OrderedMap { entries: Vec::new() };
        assert(m.keys() == Seq::<Seq<char>>::empty());
        assert(m@ == Map::<Seq<char>, V>::empty());
        m
    }

    /// The number of entries.
    pub fn len(&self) -> (n: usize)
        ensures
            n == self.keys().len(),
            n == self.values().len(),
    {
        self.entries.len()
    }

    /// The key at a position of the order.
    pub fn key_at(&self, i: usize) -> (k: &String)
        requires
            i < self.keys().len(),
        ensures
            k@ == self.keys()[i as int],
    {
        &self.entries[i].0
    }

    /// The value at a position of the order.
    pub fn value_at(&self, i: usize) -> (v: &V)
        requires
            i < self.keys().len(),
        ensures
            *v == self.values()[i as int],
    {
        &self.entries[i].1
    }

    /// The first position whose key does not stand before `key`.
    fn position(&self, key: &str) -> (p: usize)
        requires
            self.wf(),
        ensures
            p <= self.keys().len(),
            forall|i: int| 0 <= i < p ==> text::text_lt(#[trigger] self.keys()[i], key@),
            forall|i: int|
                p <= i < self.keys().len() ==> !text::text_lt(#[trigger] self.keys()[i], key@),
    {
        let n = self.entries.len();
        let mut p: usize = 0;
        while p < n && text::str_lt(self.entries[p].0.as_str(), key)
            invariant
                n == self.entries@.len(),
                p <= n,
                forall|i: int| 0 <= i < p ==> text::text_lt(#[trigger] self.keys()[i], key@),
            decreases n - p,
        {
            p += 1;
        }
        proof {
            assert forall|i: int| p <= i < self.keys().len() implies !text::text_lt(
                #[trigger] self.keys()[i],
                key@,
            ) by {
                if i > p && text::text_lt(self.keys()[i], key@) {
                    assert(text::text_lt(self.keys()[p as int], self.keys()[i]));
                    text::lemma_text_lt_transitive(self.keys()[p as int], self.keys()[i], key@);
                }
                assert(self.keys()[p as int] == self.entries@[p as int].0@);
            }
        }
        p
    }

    /// The position of `key`, if it is in the map.
    pub fn index_of(&self, key: &str) -> (r: Option<usize>)
        requires
            self.wf(),
        ensures
            match r {
                Some(i) => i < self.keys().len() && self.keys()[i as int] == key@
                    && self@.dom().contains(key@) && self@[key@] == self.values()[i as int],
                None => !self@.dom().contains(key@) && !self.keys().contains(key@),
            },
    {
        let p = self.position(key);
        proof {
            self.lemma_entries();
        }
        if p < self.entries.len() && text::str_eq(self.entries[p].0.as_str(), key) {
            assert(self.keys()[p as int] == key@);
            Some(p)
        } else {
            proof {
                if self.keys().contains(key@) {
                    let i = self.keys().index_of(key@);
                    text::lemma_text_lt_irreflexive(key@);
                    assert(self.keys()[i] == key@);
                    assert(p < i);
                    assert(text::text_lt(self.keys()[p as int], self.keys()[i]));
                }
            }
            None
        }
    }

    /// The value of `key`.
    pub fn get(&self, key: &str) -> (r: Option<&V>)
        requires
            self.wf(),
        ensures
            match r {
                Some(v) => self@.dom().contains(key@) && *v == self@[key@],
                None => !self@.dom().contains(key@),
            },
    {
        match self.index_of(key) {
            Some(i) => Some(&self.entries[i].1),
            None => None,
        }
    }

    /// Whether `key` is in the map.
    pub fn contains_key(&self, key: &str) -> (r: bool)
        requires
            self.wf(),
        ensures
            r == self@.dom().contains(key@),
    {
        self.index_of(key).is_some()
    }

    /// Sets the value of `key`.
    pub fn insert(&mut self, key: String, value: V)
        requires
            old(self).wf(),
        ensures
            final(self).wf(),
            final(self)@ == old(self)@.insert(key@, value),
    {
        let p = self.position(key.as_str());
        let ghost before = *self;
        let ghost k = key@;
        proof {
            before.lemma_entries();
        }
        if p < self.entries.len() && text::str_eq(self.entries[p].0.as_str(), key.as_str()) {
            self.entries.set(p, (key, value));
            proof {
                assert(self.keys() == before.keys());
                assert(self.values() == before.values().update(p as int, value));
                self.lemma_entries();
                before.lemma_replaced(*self, p as int, k, value);
            }
        } else {
            proof {
                before.lemma_absent(p as int, k);
            }
            self.entries.insert(p, (key, value));
            proof {
                assert(self.keys() == before.keys().insert(p as int, k));
                assert(self.values() == before.values().insert(p as int, value));
                before.lemma_inserted(*self, p as int, k, value);
            }
        }
    }

    proof fn lemma_absent(self, p: int, k: Seq<char>)
        requires
            self.wf(),
            0 <= p <= self.keys().len(),
            forall|i: int| 0 <= i < p ==> text::text_lt(#[trigger] self.keys()[i], k),
            forall|i: int|
                p <= i < self.keys().len() ==> !text::text_lt(#[trigger] self.keys()[i], k),
            p < self.keys().len() ==> self.keys()[p] != k,
        ensures
            !self.keys().contains(k),
            forall|i: int|
                p <= i < self.keys().len() ==> text::text_lt(k, #[trigger] self.keys()[i]),
    {
        assert forall|i: int| p <= i < self.keys().len() implies text::text_lt(
            k,
            #[trigger] self.keys()[i],
        ) by {
            text::lemma_text_lt_total(k, self.keys()[p]);
            if i > p {
                assert(text::text_lt(self.keys()[p], self.keys()[i]));
                text::lemma_text_lt_transitive(k, self.keys()[p], self.keys()[i]);
            }
        }
        text::lemma_text_lt_irreflexive(k);
    }

    proof fn lemma_replaced(self, new: Self, p: int, k: Seq<char>, value: V)
        requires
            self.wf(),
            new.wf(),
            0 <= p < self.keys().len(),
            self.keys()[p] == k,
            new.keys() == self.keys(),
            new.values() == self.values().update(p, value),
        ensures
            new@ == self@.insert(k, value),
    {
        self.lemma_entries();
        new.lemma_entries();
        assert forall|x: Seq<char>| new@.dom().contains(x) implies #[trigger] new@[x]
            == self@.insert(k, value)[x] by {
            let i = new.keys().index_of(x);
            assert(new.keys()[i] == x);
            assert(self.keys()[i] == x);
        }
        assert(new@.dom() == self@.insert(k, value).dom());
        assert(new@ =~= self@.insert(k, value));
    }

    proof fn lemma_inserted(self, new: Self, p: int, k: Seq<char>, value: V)
        requires
            self.wf(),
            0 <= p <= self.keys().len(),
            !self.keys().contains(k),
            new.keys() == self.keys().insert(p, k),
            self.keys().len() == self.values().len(),
            new.values() == self.values().insert(p, value),
            forall|i: int| 0 <= i < p ==> text::text_lt(#[trigger] self.keys()[i], k),
            forall|i: int|
                p <= i < self.keys().len() ==> text::text_lt(k, #[trigger] self.keys()[i]),
        ensures
            new.wf(),
            new@ == self@.insert(k, value),
    {
        self.lemma_entries();
        assert forall|i: int, j: int|
            #![trigger new.keys()[i], new.keys()[j]]
            0 <= i < j < new.keys().len() implies text::text_lt(
            new.keys()[i],
            new.keys()[j],
        ) by {
            let oi = if i < p { i } else { i - 1 };
            let oj = if j < p { j } else { j - 1 };
            if i != p && j != p {
                assert(text::text_lt(self.keys()[oi], self.keys()[oj]));
            }
        }
        new.lemma_entries();
        assert forall|x: Seq<char>| new@.dom().contains(x) <==> self@.insert(
            k,
            value,
        ).dom().contains(x) by {
            if new.keys().contains(x) {
                let i = new.keys().index_of(x);
                if i != p {
                    let oi = if i < p { i } else { i - 1 };
                    assert(self.keys()[oi] == x);
                }
            }
            if self.keys().contains(x) {
                let i = self.keys().index_of(x);
                let ni = if i < p { i } else { i + 1 };
                assert(new.keys()[ni] == x);
            }
            assert(new.keys()[p] == k);
        }
        assert forall|x: Seq<char>| new@.dom().contains(x) implies #[trigger] new@[x]
            == self@.insert(k, value)[x] by {
            let i = new.keys().index_of(x);
            assert(new.keys()[i] == x);
            if i != p {
                let oi = if i < p { i } else { i - 1 };
                assert(self.keys()[oi] == x);
            }
        }
        assert(new@.dom() == self@.insert(k, value).dom());
        assert(new@ =~= self@.insert(k, value));
    }
}

/// Every item is before all that follow it.
pub open spec fn ascending<T>(list: Seq<T>, before: spec_fn(T, T) -> bool) -> bool {
    forall|i: int, j: int|
        0 <= i < j < list.len() ==> before(#[trigger] list[i], #[trigger] list[j])
}

/// Two ascending lists of the same items are the same list.
pub proof fn lemma_ascending_unique<T>(a: Seq<T>, b: Seq<T>, before: spec_fn(T, T) -> bool)
    requires
        forall|x: T, y: T| #[trigger] before(x, y) ==> !before(y, x),
        ascending(a, before),
        ascending(b, before),
        forall|x: T| a.contains(x) <==> b.contains(x),
    ensures
        a == b,
    decreases a.len(),
{
    if a.len() == 0 {
        if b.len() > 0 {
            assert(b.contains(b[0]));
        }
        assert(a =~= b);
    } else {
        let x = a.last();
        assert(a.contains(x) && b.contains(x));
        let k = b.index_of(x);
        let y = b.last();
        assert(b.contains(y) && a.contains(y));
        let l = a.index_of(y);
        if k < b.len() - 1 {
            assert(before(b[k], b[b.len() - 1]));
            if l < a.len() - 1 {
                assert(before(a[l], a[a.len() - 1]));
            }
        }
        assert(x == y);
        let a1 = a.drop_last();
        let b1 = b.drop_last();
        assert forall|z: T| a1.contains(z) <==> b1.contains(z) by {
            if a1.contains(z) {
                let i = a1.index_of(z);
                assert(before(a[i], a[a.len() - 1]));
                assert(a.contains(z));
                let j = b.index_of(z);
                assert(b1[j] == z);
            }
            if b1.contains(z) {
                let i = b1.index_of(z);
                assert(before(b[i], b[b.len() - 1]));
                assert(b.contains(z));
                let j = a.index_of(z);
                assert(a1[j] == z);
            }
        }
        lemma_ascending_unique(a1, b1, before);
        assert(a =~= a1.push(x));
        assert(b =~= b1.push(x));
    }
}

/// A map is walked in the order of its keys, each once, and every key is found with the value that
/// stands at its position; no other key is found.
pub proof fn entries_are_found_in_order<V>(
    m: OrderedMap<V>,
    n: usize,
    i: usize,
    j: usize,
    key: &String,
    value: &V,
    later: &String,
    name: &str,
    at: Option<usize>,
    found: Option<&V>,
    held: bool,
)
    requires
        m.wf(),
        call_ensures(OrderedMap::<V>::len, (&m,), n),
        i < j < n,
        call_ensures(OrderedMap::<V>::key_at, (&m, i), key),
        call_ensures(OrderedMap::<V>::value_at, (&m, i), value),
        call_ensures(OrderedMap::<V>::key_at, (&m, j), later),
        call_ensures(OrderedMap::<V>::index_of, (&m, name), at),
        call_ensures(OrderedMap::<V>::get, (&m, name), found),
        call_ensures(OrderedMap::<V>::contains_key, (&m, name), held),
    ensures
        text::text_lt(key@, later@),
        name@ == key@ ==> at == Some(i) && held && (found matches Some(v) && *v == *value),
        held <==> at is Some,
        held <==> found is Some,
        at matches Some(k) ==> k < n,
        m@.dom().finite() && m@.dom().len() == n,
{
    m.lemma_entries();
    let keys = m.keys();
    assert(keys[i as int] == key@);
    assert(keys[j as int] == later@);
    assert(m@.dom() =~= keys.to_set());
    keys.unique_seq_to_set();
    if name@ == key@ {
        assert(keys.contains(name@));
        if let Some(k) = at {
            assert(keys[k as int] == keys[i as int]);
        }
    }
}

/// What was set under a key is what is there afterwards; what stands under other keys stays.
pub proof fn set_value_is_there<V>(m: &mut OrderedMap<V>, key: String, value: V, other: Seq<char>)
    requires
        old(m).wf(),
        call_ensures(OrderedMap::<V>::insert, (m, key, value), ()),
    ensures
        final(m).wf(),
        final(m)@.dom().contains(key@),
        final(m)@[key@] == value,
        other != key@ ==> (final(m)@.dom().contains(other) <==> old(m)@.dom().contains(other)),
        other != key@ && old(m)@.dom().contains(other) ==> final(m)@[other] == old(m)@[other],
{
}

} // verus!
