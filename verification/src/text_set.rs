//! A set of strings that is walked in the order of its items.
use crate::ordered_map::OrderedMap;
use crate::text;
use vstd::prelude::*;

verus! {

/// A set of strings. Its items stand in order, and none occurs twice.
#[derive(Debug)]
pub struct TextSet {
    entries: OrderedMap<()>,
}

impl View for TextSet {
    type V = Set<Seq<char>>;

    closed spec fn view(&self) -> Set<Seq<char>> {
        self.entries@.dom()
    }
}

impl TextSet {
    /// The items, in order.
    pub closed spec fn items(self) -> Seq<Seq<char>> {
        self.entries.keys()
    }

    pub closed spec fn wf(self) -> bool {
        self.entries.wf()
    }

    /// The items ascend, and they are the members of the set.
    pub proof fn lemma_items(self)
        requires
            self.wf(),
        ensures
            self.items().no_duplicates(),
            self.items().to_set() == self@,
            self@.finite(),
            self@.len() == self.items().len(),
            forall|i: int, j: int|
                0 <= i < j < self.items().len() ==> text::text_lt(
                    #[trigger] self.items()[i],
                    #[trigger] self.items()[j],
                ),
    {
        self.entries.lemma_entries();
        assert(self.items().to_set() =~= self@);
        self.items().unique_seq_to_set();
    }

    /// A set without items.
    pub fn new() -> (s: TextSet)
        ensures
            s.wf(),
            s@ == Set::<Seq<char>>::empty(),
            s.items() == Seq::<Seq<char>>::empty(),
    {
        let s = TextSet { entries: OrderedMap::new() };
        assert(s@ =~= Set::<Seq<char>>::empty());
        s
    }

    /// The number of items.
    pub fn len(&self) -> (n: usize)
        ensures
            n == self.items().len(),
    {
        self.entries.len()
    }

    /// The item at a position of the order.
    pub fn item_at(&self, i: usize) -> (s: &String)
        requires
            i < self.items().len(),
        ensures
            s@ == self.items()[i as int],
    {
        self.entries.key_at(i)
    }

    /// Whether the set holds `item`.
    pub fn contains(&self, item: &str) -> (r: bool)
        requires
            self.wf(),
        ensures
            r == self@.contains(item@),
    {
        self.entries.contains_key(item)
    }

    /// Adds an item.
    pub fn insert(&mut self, item: String)
        requires
            old(self).wf(),
        ensures
            final(self).wf(),
            final(self)@ == old(self)@.insert(item@),
    {
        let ghost before = self@;
        let ghost added = item@;
        self.entries.insert(item, ());
        assert(self@ =~= before.insert(added));
    }

    /// Adds the items of another set.
    pub fn extend(&mut self, other: &TextSet)
        requires
            old(self).wf(),
            other.wf(),
        ensures
            final(self).wf(),
            final(self)@ == old(self)@.union(other@),
    {
        let n = other.len();
        let mut i: usize = 0;
        let ghost before = self@;
        proof {
            assert(self@ =~= before.union(other.items().take(0).to_set()));
        }
        while i < n
            invariant
                n == other.items().len(),
                i <= n,
                self.wf(),
                self@ == before.union(other.items().take(i as int).to_set()),
            decreases n - i,
        {
            self.insert(other.item_at(i).clone());
            proof {
                let more = other.items().take(i + 1);
                let less = other.items().take(i as int);
                assert(more == less.push(other.items()[i as int]));
                assert(more.to_set() =~= less.to_set().insert(other.items()[i as int])) by {
                    assert forall|x: Seq<char>| #[trigger] more.to_set().contains(x)
                        <==> less.to_set().insert(other.items()[i as int]).contains(x) by {
                        if more.contains(x) {
                            let k = more.index_of(x);
                            if k < i {
                                assert(less[k] == x);
                            }
                        }
                        if less.contains(x) {
                            let k = less.index_of(x);
                            assert(more[k] == x);
                        }
                        assert(more[i as int] == other.items()[i as int]);
                    }
                }
                assert(self@ =~= before.union(more.to_set()));
            }
            i += 1;
        }
        proof {
            assert(other.items().take(n as int) == other.items());
            other.lemma_items();
        }
    }

    /// A copy of the set.
    pub fn copy(&self) -> (r: TextSet)
        requires
            self.wf(),
        ensures
            r.wf(),
            r@ == self@,
    {
        let mut r = TextSet::new();
        r.extend(self);
        assert(r@ =~= self@);
        r
    }
}

/// A set is walked in the order of its items, each once, and holds what stands at its positions.
pub proof fn items_are_held_in_order(
    s: TextSet,
    n: usize,
    i: usize,
    j: usize,
    a: &String,
    b: &String,
    item: &str,
    held: bool,
)
    requires
        s.wf(),
        call_ensures(TextSet::len, (&s,), n),
        i < j < n,
        call_ensures(TextSet::item_at, (&s, i), a),
        call_ensures(TextSet::item_at, (&s, j), b),
        call_ensures(TextSet::contains, (&s, item), held),
    ensures
        crate::text::text_lt(a@, b@),
        item@ == a@ ==> held,
        held ==> exists|k: int| 0 <= k < s.items().len() && #[trigger] s.items()[k] == item@,
{
    s.lemma_items();
    let items = s.items();
    assert(items[i as int] == a@ && items[j as int] == b@);
    assert(items.to_set().contains(items[i as int]));
    if held {
        assert(items.to_set().contains(item@));
        let k = items.index_of(item@);
        assert(items[k] == item@);
    }
}

/// A set holds what is put into it, one by one or all at once, besides what it held, and nothing
/// else; a copy holds the same.
pub proof fn sets_hold_what_is_put_in(
    s: &mut TextSet,
    t: &mut TextSet,
    item: String,
    other: TextSet,
    copy: TextSet,
    x: Seq<char>,
)
    requires
        call_ensures(TextSet::insert, (s, item), ()),
        call_ensures(TextSet::extend, (t, &other), ()),
        call_ensures(TextSet::copy, (&other,), copy),
    ensures
        final(s)@.contains(x) <==> old(s)@.contains(x) || x == item@,
        final(t)@.contains(x) <==> old(t)@.contains(x) || other@.contains(x),
        copy@.contains(x) <==> other@.contains(x),
{
}

} // verus!
