//! Bookmarks and the graph that they form.
use crate::jj::{BookmarkInfo, Change};
use crate::ordered_map;
use crate::ordered_map::OrderedMap;
use crate::text;
use crate::text_set::TextSet;
use vstd::prelude::*;

verus! {

/// A bookmark with the change that carries it.
#[derive(Debug, Clone, Copy)]
pub struct Bookmark<'a> {
    pub info: &'a BookmarkInfo,
    pub change: &'a Change,
}

impl<'a> Bookmark<'a> {
    /// The name of the bookmark, without a remote.
    pub fn name(&self) -> (r: &str)
        ensures
            r@ == self.info@.name(),
    {
        self.info.name()
    }
}

// ---------------------------------------------------------------------------
// The graph
// ---------------------------------------------------------------------------
/// The bookmarks of a submission, each with the bookmarks that it sits on.
#[derive(Debug)]
pub struct BookmarkGraph {
    parents: OrderedMap<TextSet>,
}

/// What a [`BookmarkGraph`] says: the parents of every bookmark.
pub type GraphView = Map<Seq<char>, Set<Seq<char>>>;

impl View for BookmarkGraph {
    type V = GraphView;

    closed spec fn view(&self) -> GraphView {
        self.parents@.map_values(|s: TextSet| s@)
    }
}

/// One of the bookmarks sits on the other.
pub open spec fn linked(g: GraphView, a: Seq<char>, b: Seq<char>) -> bool {
    &&& g.dom().contains(a)
    &&& g.dom().contains(b)
    &&& g[a].contains(b) || g[b].contains(a)
}

/// A path of `n` links leads from `a` to `b`.
pub open spec fn path(g: GraphView, a: Seq<char>, b: Seq<char>, n: nat) -> bool
    decreases n,
{
    if n == 0 {
        a == b
    } else {
        exists|mid: Seq<char>| #[trigger] linked(g, mid, b) && path(g, a, mid, (n - 1) as nat)
    }
}

/// The bookmarks hang together.
pub open spec fn connected(g: GraphView, a: Seq<char>, b: Seq<char>) -> bool {
    exists|n: nat| path(g, a, b, n)
}

/// All bookmarks that hang together with `a`.
pub open spec fn component_of(g: GraphView, a: Seq<char>) -> Set<Seq<char>> {
    Set::new(|b: Seq<char>| connected(g, a, b))
}

/// The bookmark is of the set, and no bookmark of the graph sits on it.
pub open spec fn is_leaf(g: GraphView, members: Set<Seq<char>>, b: Seq<char>) -> bool {
    &&& members.contains(b)
    &&& forall|x: Seq<char>| g.dom().contains(x) ==> !(#[trigger] g[x]).contains(b)
}

/// No bookmark of the set sits on two others, and exactly one has none on top.
pub open spec fn linear(g: GraphView, members: Set<Seq<char>>) -> bool {
    &&& forall|b: Seq<char>| #[trigger] members.contains(b) ==> g[b].len() <= 1
    &&& exists|leaf: Seq<char>| sole_leaf(g, members, leaf)
}

/// The bookmark is the only leaf of the set.
pub open spec fn sole_leaf(g: GraphView, members: Set<Seq<char>>, leaf: Seq<char>) -> bool {
    &&& is_leaf(g, members, leaf)
    &&& forall|b: Seq<char>| #[trigger] is_leaf(g, members, b) ==> b == leaf
}

/// The only element of a set.
pub open spec fn only(s: Set<Seq<char>>) -> Seq<char> {
    choose|x: Seq<char>| s.contains(x)
}

/// The bookmark and what it sits on, down to a bookmark without a single parent, and at
/// most `limit` bookmarks.
pub open spec fn chain(g: GraphView, b: Seq<char>, limit: nat) -> Seq<Seq<char>>
    decreases limit,
{
    if limit == 0 {
        Seq::empty()
    } else if g.dom().contains(b) && g[b].len() == 1 {
        seq![b] + chain(g, only(g[b]), (limit - 1) as nat)
    } else {
        seq![b]
    }
}

proof fn lemma_path_step(g: GraphView, a: Seq<char>, mid: Seq<char>, b: Seq<char>)
    requires
        connected(g, a, mid),
        linked(g, mid, b),
    ensures
        connected(g, a, b),
{
    let n = choose|n: nat| path(g, a, mid, n);
    assert(path(g, a, mid, (n + 1 - 1) as nat));
    assert(path(g, a, b, n + 1));
}

proof fn lemma_path_join(g: GraphView, a: Seq<char>, b: Seq<char>, c: Seq<char>, n: nat)
    requires
        connected(g, a, b),
        path(g, b, c, n),
    ensures
        connected(g, a, c),
    decreases n,
{
    if n > 0 {
        let mid = choose|mid: Seq<char>| #[trigger]
            linked(g, mid, c) && path(g, b, mid, (n - 1) as nat);
        lemma_path_join(g, a, b, mid, (n - 1) as nat);
        lemma_path_step(g, a, mid, c);
    }
}

/// What hangs together with something hangs together with all that does.
proof fn lemma_connected_transitive(g: GraphView, a: Seq<char>, b: Seq<char>, c: Seq<char>)
    requires
        connected(g, a, b),
        connected(g, b, c),
    ensures
        connected(g, a, c),
{
    let n = choose|n: nat| path(g, b, c, n);
    lemma_path_join(g, a, b, c, n);
}

proof fn lemma_path_reversed(g: GraphView, a: Seq<char>, b: Seq<char>, n: nat)
    requires
        path(g, a, b, n),
    ensures
        connected(g, b, a),
    decreases n,
{
    if n == 0 {
        assert(path(g, b, a, 0));
    } else {
        let mid = choose|mid: Seq<char>| #[trigger]
            linked(g, mid, b) && path(g, a, mid, (n - 1) as nat);
        lemma_path_reversed(g, a, mid, (n - 1) as nat);
        assert(path(g, b, b, 0));
        lemma_path_step(g, b, b, mid);
        lemma_connected_transitive(g, b, mid, a);
    }
}

/// Hanging together goes both ways.
proof fn lemma_connected_symmetric(g: GraphView, a: Seq<char>, b: Seq<char>)
    requires
        connected(g, a, b),
    ensures
        connected(g, b, a),
{
    let n = choose|n: nat| path(g, a, b, n);
    lemma_path_reversed(g, a, b, n);
}

proof fn lemma_path_closed(
    g: GraphView,
    closed: Set<Seq<char>>,
    a: Seq<char>,
    b: Seq<char>,
    n: nat,
)
    requires
        closed.contains(a),
        forall|x: Seq<char>, y: Seq<char>|
            closed.contains(x) && #[trigger] linked(g, x, y) ==> closed.contains(y),
        path(g, a, b, n),
    ensures
        closed.contains(b),
    decreases n,
{
    if n > 0 {
        let mid = choose|mid: Seq<char>| #[trigger]
            linked(g, mid, b) && path(g, a, mid, (n - 1) as nat);
        lemma_path_closed(g, closed, a, mid, (n - 1) as nat);
    }
}

/// The component of a bookmark of the graph holds bookmarks of the graph only.
pub proof fn component_stays_inside(g: GraphView, a: Seq<char>, b: Seq<char>)
    requires
        g.dom().contains(a),
        connected(g, a, b),
    ensures
        g.dom().contains(b),
{
    let n = choose|n: nat| path(g, a, b, n);
    lemma_path_closed(g, g.dom(), a, b, n);
}

/// The bookmarks of a graph fall into components: each hangs together with itself, and two
/// components that share a bookmark are the same.
pub proof fn components_are_classes(g: GraphView, a: Seq<char>, b: Seq<char>)
    ensures
        component_of(g, a).contains(a),
        component_of(g, a).contains(b) ==> component_of(g, a) == component_of(g, b),
{
    assert(path(g, a, a, 0));
    if component_of(g, a).contains(b) {
        lemma_connected_symmetric(g, a, b);
        assert forall|x: Seq<char>| component_of(g, a).contains(x) <==> component_of(
            g,
            b,
        ).contains(x) by {
            if connected(g, a, x) {
                lemma_connected_transitive(g, b, a, x);
            }
            if connected(g, b, x) {
                lemma_connected_transitive(g, a, b, x);
            }
        }
        assert(component_of(g, a) =~= component_of(g, b));
    }
}

/// The components of a graph, in the order of their first members.
pub open spec fn are_components(g: GraphView, list: Seq<TextSet>) -> bool {
    &&& forall|i: int|
        0 <= i < list.len() ==> {
            let c = #[trigger] list[i];
            &&& c.wf()
            &&& c.items().len() > 0
            &&& g.dom().contains(c.items()[0])
            &&& c@ == component_of(g, c.items()[0])
        }
    &&& forall|i: int, j: int|
        0 <= i < j < list.len() ==> text::text_lt(
            (#[trigger] list[i]).items()[0],
            (#[trigger] list[j]).items()[0],
        )
    &&& forall|b: Seq<char>| #[trigger]
        g.dom().contains(b) ==> exists|i: int|
            0 <= i < list.len() && (#[trigger] list[i])@.contains(b)
}

/// The bookmark is of the set, and all others of the set stand behind it in order.
spec fn is_first(s: Set<Seq<char>>, x: Seq<char>) -> bool {
    &&& s.contains(x)
    &&& forall|y: Seq<char>| #[trigger] s.contains(y) ==> x == y || text::text_lt(x, y)
}

/// The first members of a list of sets.
spec fn firsts(list: Seq<TextSet>) -> Seq<Seq<char>> {
    Seq::new(list.len(), |i: int| list[i].items()[0])
}

proof fn lemma_first_item(c: TextSet)
    requires
        c.wf(),
        c.items().len() > 0,
    ensures
        is_first(c@, c.items()[0]),
{
    c.lemma_items();
    let items = c.items();
    assert(items.to_set().contains(items[0]));
    assert forall|y: Seq<char>| #[trigger] c@.contains(y) implies items[0] == y || text::text_lt(
        items[0],
        y,
    ) by {
        assert(items.to_set().contains(y));
        let k = items.index_of(y);
        if k > 0 {
            assert(text::text_lt(items[0], items[k]));
        }
    }
}

proof fn lemma_firsts(g: GraphView, list: Seq<TextSet>, x: Seq<char>)
    requires
        are_components(g, list),
    ensures
        firsts(list).contains(x) <==> g.dom().contains(x) && is_first(component_of(g, x), x),
{
    if firsts(list).contains(x) {
        let i = firsts(list).index_of(x);
        let c = list[i];
        assert(c.items()[0] == x);
        lemma_first_item(c);
    }
    if g.dom().contains(x) && is_first(component_of(g, x), x) {
        let i = choose|i: int| 0 <= i < list.len() && (#[trigger] list[i])@.contains(x);
        let c = list[i];
        let root = c.items()[0];
        components_are_classes(g, root, x);
        lemma_first_item(c);
        assert(component_of(g, x).contains(root));
        assert(c@.contains(x));
        if x != root {
            text::lemma_text_lt_transitive(x, root, x);
            text::lemma_text_lt_irreflexive(x);
        }
        assert(firsts(list)[i] == x);
    }
}

/// A graph has one list of components.
pub proof fn components_are_unique(g: GraphView, a: Seq<TextSet>, b: Seq<TextSet>)
    requires
        are_components(g, a),
        are_components(g, b),
    ensures
        a.len() == b.len(),
        forall|i: int| 0 <= i < a.len() ==> (#[trigger] a[i])@ == b[i]@,
{
    let fa = firsts(a);
    let fb = firsts(b);
    assert forall|x: Seq<char>| fa.contains(x) <==> fb.contains(x) by {
        lemma_firsts(g, a, x);
        lemma_firsts(g, b, x);
    }
    let before = |x: Seq<char>, y: Seq<char>| text::text_lt(x, y);
    assert forall|x: Seq<char>, y: Seq<char>| #[trigger] before(x, y) implies !before(y, x) by {
        if text::text_lt(y, x) {
            text::lemma_text_lt_transitive(x, y, x);
        }
        text::lemma_text_lt_irreflexive(x);
    }
    ordered_map::lemma_ascending_unique(fa, fb, before);
    assert(fa.len() == a.len() && fb.len() == b.len());
    assert forall|i: int| 0 <= i < a.len() implies (#[trigger] a[i])@ == b[i]@ by {
        assert(fa[i] == fb[i]);
        assert(a[i]@ == component_of(g, a[i].items()[0]));
        assert(b[i]@ == component_of(g, b[i].items()[0]));
    }
}

impl BookmarkGraph {
    /// Every parent is a bookmark of the graph.
    pub closed spec fn wf(self) -> bool {
        &&& self.parents.wf()
        &&& forall|b: Seq<char>| #[trigger] self.parents@.dom().contains(b) ==> self.parents@[b].wf()
        &&& forall|b: Seq<char>, p: Seq<char>|
            self.parents@.dom().contains(b) && #[trigger] self.parents@[b]@.contains(p)
                ==> self.parents@.dom().contains(p)
    }

    /// Builds the graph of the given bookmarks. Parents that are not among the bookmarks are
    /// left out.
    pub fn from_lookups(
        bookmarks: OrderedMap<Bookmark>,
        adjacency: &OrderedMap<TextSet>,
    ) -> (g: BookmarkGraph)
        requires
            bookmarks.wf(),
            crate::change_map::adjacency_wf(*adjacency),
        ensures
            g.wf(),
            g@.dom() == bookmarks@.dom(),
            forall|b: Seq<char>, p: Seq<char>|
                bookmarks@.dom().contains(b) ==> (#[trigger] g@[b].contains(p)
                    <==> bookmarks@.dom().contains(p) && adjacency@.dom().contains(b)
                    && adjacency@[b]@.contains(p)),
    {
        let mut parents: OrderedMap<TextSet> = OrderedMap::new();
        let n = bookmarks.len();
        let mut i: usize = 0;
        let ghost keys = bookmarks.keys();
        proof {
            bookmarks.lemma_entries();
        }
        while i < n
            invariant
                bookmarks.wf(),
                crate::change_map::adjacency_wf(*adjacency),
                keys == bookmarks.keys(),
                n == keys.len(),
                i <= n,
                parents.wf(),
                forall|b: Seq<char>| #[trigger]
                    parents@.dom().contains(b) <==> keys.take(i as int).contains(b),
                forall|b: Seq<char>| #[trigger]
                    parents@.dom().contains(b) ==> parents@[b].wf() && forall|p: Seq<char>|
                        (#[trigger] parents@[b]@.contains(p) <==> bookmarks@.dom().contains(p)
                            && adjacency@.dom().contains(b) && adjacency@[b]@.contains(p)),
            decreases n - i,
        {
            let name = bookmarks.key_at(i);
            let mut kept = TextSet::new();
            if let Some(all) = adjacency.get(name.as_str()) {
                let m = all.len();
                let mut j: usize = 0;
                proof {
                    all.lemma_items();
                }
                while j < m
                    invariant
                        bookmarks.wf(),
                        all.wf(),
                        m == all.items().len(),
                        all.items().to_set() == all@,
                        j <= m,
                        kept.wf(),
                        forall|p: Seq<char>| #[trigger]
                            kept@.contains(p) <==> bookmarks@.dom().contains(p)
                                && all.items().take(j as int).contains(p),
                    decreases m - j,
                {
                    let p = all.item_at(j);
                    let ghost before = kept@;
                    if bookmarks.contains_key(p.as_str()) {
                        kept.insert(p.clone());
                    }
                    proof {
                        let next = all.items().take(j + 1);
                        assert forall|x: Seq<char>| #[trigger]
                            next.contains(x) <==> all.items().take(j as int).contains(x) || x
                                == p@ by {
                            lemma_take_contains(all.items(), j as int, x);
                        }
                        assert forall|x: Seq<char>| #[trigger]
                            kept@.contains(x) <==> bookmarks@.dom().contains(x) && next.contains(
                                x,
                            ) by {
                            assert(before.contains(x) <==> bookmarks@.dom().contains(x)
                                && all.items().take(j as int).contains(x));
                        }
                    }
                    j += 1;
                }
                assert(all.items().take(m as int) == all.items());
                assert forall|p: Seq<char>| all.items().contains(p) <==> all@.contains(p) by {
                    assert(all.items().to_set().contains(p) <==> all.items().contains(p));
                }
            }
            let ghost before = parents@;
            parents.insert(name.clone(), kept);
            proof {
                let next = keys.take(i + 1);
                assert forall|x: Seq<char>| #[trigger]
                    parents@.dom().contains(x) <==> next.contains(x) by {
                    lemma_take_contains(keys, i as int, x);
                    assert(before.dom().contains(x) <==> keys.take(i as int).contains(x));
                }
            }
            i += 1;
        }
        assert(keys.take(n as int) == keys);
        let g = BookmarkGraph { parents };
        assert(g@.dom() =~= bookmarks@.dom());
        g
    }

    /// The number of bookmarks.
    pub fn len(&self) -> (n: usize)
        requires
            self.wf(),
        ensures
            self@.dom().finite(),
            n == self@.dom().len(),
    {
        proof {
            self.parents.lemma_entries();
            self.parents.keys().unique_seq_to_set();
            assert(self.parents.keys().to_set() =~= self@.dom());
        }
        self.parents.len()
    }

    /// The parents of a bookmark of the graph.
    fn parents_of(&self, b: &str) -> (r: &TextSet)
        requires
            self.wf(),
            self@.dom().contains(b@),
        ensures
            r.wf(),
            r@ == self@[b@],
    {
        match self.parents.index_of(b) {
            Some(i) => self.parents.value_at(i),
            None => {
                assert(false);
                self.parents.value_at(0)
            },
        }
    }

    /// Whether one of two bookmarks of the graph sits on the other.
    fn are_linked(&self, a: &str, b: &str) -> (r: bool)
        requires
            self.wf(),
            self@.dom().contains(a@),
            self@.dom().contains(b@),
        ensures
            r == linked(self@, a@, b@),
    {
        self.parents_of(a).contains(b) || self.parents_of(b).contains(a)
    }

    /// The bookmarks that hang together with the given one.
    fn component(&self, b: &str) -> (r: TextSet)
        requires
            self.wf(),
            self@.dom().contains(b@),
        ensures
            r.wf(),
            r@ == component_of(self@, b@),
    {
        let ghost g = self@;
        let mut seen = TextSet::new();
        let mut stack: Vec<String> = Vec::new();
        stack.push(b.to_owned());
        let n = self.len();
        proof {
            assert(path(g, b@, b@, 0));
            assert(text::texts(stack@) =~= seq![b@]);
            assert(text::texts(stack@)[0] == b@);
        }
        while stack.len() > 0
            invariant
                g == self@,
                self.wf(),
                g.dom().finite(),
                g.dom().contains(b@),
                seen.wf(),
                forall|x: Seq<char>| #[trigger]
                    text::texts(stack@).contains(x) ==> connected(g, b@, x) && g.dom().contains(x),
                forall|x: Seq<char>| #[trigger]
                    seen@.contains(x) ==> connected(g, b@, x) && g.dom().contains(x),
                seen@.contains(b@) || text::texts(stack@).contains(b@),
                forall|x: Seq<char>, y: Seq<char>|
                    seen@.contains(x) && #[trigger] linked(g, x, y) ==> seen@.contains(y)
                        || text::texts(stack@).contains(y),
            decreases g.dom().len() - seen@.len(), stack@.len(),
        {
            let ghost stack0 = text::texts(stack@);
            proof {
                seen.lemma_items();
                vstd::set_lib::lemma_len_subset(seen@, g.dom());
            }
            let top = match stack.pop() {
                Some(top) => top,
                None => String::new(),
            };
            let ghost rest = text::texts(stack@);
            proof {
                assert(rest == stack0.drop_last());
                assert(top@ == stack0.last());
                assert(stack0.contains(top@));
                assert forall|x: Seq<char>| stack0.contains(x) implies x == top@ || rest.contains(
                    x,
                ) by {
                    let k = stack0.index_of(x);
                    if k < stack0.len() - 1 {
                        assert(rest[k] == x);
                    }
                }
                assert forall|x: Seq<char>| rest.contains(x) implies stack0.contains(x) by {
                    let k = rest.index_of(x);
                    assert(stack0[k] == x);
                }
            }
            if seen.contains(top.as_str()) {
                continue;
            }
            seen.insert(top.clone());
            proof {
                seen.lemma_items();
                vstd::set_lib::lemma_len_subset(seen@, g.dom());
                self.parents.lemma_entries();
            }
            let n = self.parents.len();
            let mut i: usize = 0;
            while i < n
                invariant
                    g == self@,
                    self.wf(),
                    n == self.parents.keys().len(),
                    forall|k: Seq<char>| g.dom().contains(k) <==> self.parents.keys().contains(k),
                    i <= n,
                    g.dom().contains(top@),
                    connected(g, b@, top@),
                    forall|x: Seq<char>| #[trigger]
                        text::texts(stack@).contains(x) ==> rest.contains(x) || (linked(g, top@, x)
                            && connected(g, b@, x)),
                    forall|x: Seq<char>| rest.contains(x) ==> #[trigger] text::texts(
                        stack@,
                    ).contains(x),
                    forall|k: int|
                        0 <= k < i && linked(g, top@, #[trigger] self.parents.keys()[k])
                            ==> text::texts(stack@).contains(self.parents.keys()[k]),
                decreases n - i,
            {
                let name = self.parents.key_at(i);
                assert(self.parents.keys().contains(name@));
                if self.are_linked(top.as_str(), name.as_str()) {
                    let ghost before = text::texts(stack@);
                    stack.push(name.clone());
                    proof {
                        lemma_path_step(g, b@, top@, name@);
                        assert(text::texts(stack@) == before.push(name@));
                        assert forall|x: Seq<char>| #[trigger]
                            text::texts(stack@).contains(x) <==> before.contains(x) || x
                                == name@ by {
                            lemma_push_contains(before, name@, x);
                        }
                    }
                }
                i += 1;
            }
            proof {
                assert forall|y: Seq<char>| linked(g, top@, y) implies text::texts(
                    stack@,
                ).contains(y) by {
                    assert(self.parents.keys().contains(y));
                    let k = self.parents.keys().index_of(y);
                    assert(linked(g, top@, self.parents.keys()[k]));
                }
            }
        }
        proof {
            assert(text::texts(stack@).len() == 0);
            assert forall|x: Seq<char>| connected(g, b@, x) implies seen@.contains(x) by {
                let n = choose|n: nat| path(g, b@, x, n);
                lemma_path_closed(g, seen@, b@, x, n);
            }
            assert(seen@ =~= component_of(g, b@));
        }
        seen
    }

    /// The components of the graph, each as its members, in the order of their first
    /// members.
    pub fn components(&self) -> (list: Vec<TextSet>)
        requires
            self.wf(),
        ensures
            are_components(self@, list@),
    {
        let ghost g = self@;
        let mut list: Vec<TextSet> = Vec::new();
        let mut placed = TextSet::new();
        let n = self.parents.len();
        let mut i: usize = 0;
        let ghost keys = self.parents.keys();
        proof {
            self.parents.lemma_entries();
        }
        while i < n
            invariant
                g == self@,
                self.wf(),
                keys == self.parents.keys(),
                n == keys.len(),
                i <= n,
                forall|k: Seq<char>| g.dom().contains(k) <==> keys.contains(k),
                placed.wf(),
                forall|b: Seq<char>| #[trigger]
                    placed@.contains(b) <==> exists|k: int|
                        0 <= k < list@.len() && (#[trigger] list@[k])@.contains(b),
                forall|k: int| 0 <= k < i ==> placed@.contains(#[trigger] keys[k]),
                forall|k: int|
                    0 <= k < list@.len() ==> {
                        let c = #[trigger] list@[k];
                        &&& c.wf()
                        &&& c.items().len() > 0
                        &&& g.dom().contains(c.items()[0])
                        &&& c@ == component_of(g, c.items()[0])
                        &&& exists|at: int| 0 <= at < i && #[trigger] keys[at] == c.items()[0]
                    },
                forall|k: int, l: int|
                    0 <= k < l < list@.len() ==> text::text_lt(
                        (#[trigger] list@[k]).items()[0],
                        (#[trigger] list@[l]).items()[0],
                    ),
            decreases n - i,
        {
            let name = self.parents.key_at(i);
            assert(keys.contains(name@));
            if !placed.contains(name.as_str()) {
                let c = self.component(name.as_str());
                let ghost before = list@;
                let ghost placed0 = placed@;
                proof {
                    components_are_classes(g, name@, name@);
                    c.lemma_items();
                    assert(c@.contains(name@));
                    assert(c.items().to_set().contains(name@));
                    assert(c.items().contains(name@));
                    let least = c.items()[0];
                    assert(c.items().to_set().contains(least));
                    assert(c@.contains(least));
                    component_stays_inside(g, name@, least);
                    components_are_classes(g, name@, least);
                    assert(keys.contains(least));
                    let at = keys.index_of(least);
                    assert(keys[at] == least);
                    if at < i {
                        assert(placed@.contains(keys[at]));
                        let k = choose|k: int|
                            0 <= k < list@.len() && (#[trigger] list@[k])@.contains(least);
                        let root = list@[k].items()[0];
                        components_are_classes(g, root, least);
                        components_are_classes(g, least, name@);
                        assert(list@[k]@.contains(name@));
                        assert(placed@.contains(name@));
                    }
                    let pos = c.items().index_of(name@);
                    if at > i {
                        assert(text::text_lt(keys[i as int], keys[at]));
                        if pos > 0 {
                            assert(text::text_lt(c.items()[0], c.items()[pos]));
                            text::lemma_text_lt_transitive(least, name@, least);
                            text::lemma_text_lt_irreflexive(least);
                        }
                    }
                    assert(least == name@);
                    assert forall|k: int| 0 <= k < before.len() implies text::text_lt(
                        (#[trigger] before[k]).items()[0],
                        name@,
                    ) by {
                        let at = choose|at: int|
                            0 <= at < i && #[trigger] keys[at] == before[k].items()[0];
                        assert(text::text_lt(keys[at], keys[i as int]));
                    }
                }
                placed.extend(&c);
                list.push(c);
                proof {
                    assert(list@ == before.push(c));
                    assert forall|b: Seq<char>| #[trigger]
                        placed@.contains(b) <==> exists|k: int|
                            0 <= k < list@.len() && (#[trigger] list@[k])@.contains(b) by {
                        if placed0.contains(b) {
                            let k = choose|k: int|
                                0 <= k < before.len() && (#[trigger] before[k])@.contains(b);
                            assert(list@[k]@.contains(b));
                        }
                        if c@.contains(b) {
                            assert(list@[before.len() as int]@.contains(b));
                        }
                        if exists|k: int|
                            0 <= k < list@.len() && (#[trigger] list@[k])@.contains(b) {
                            let k = choose|k: int|
                                0 <= k < list@.len() && (#[trigger] list@[k])@.contains(b);
                            if k < before.len() {
                                assert(before[k]@.contains(b));
                            }
                        }
                    }
                    assert(keys[i as int] == c.items()[0]);
                }
            }
            i += 1;
        }
        proof {
            assert forall|b: Seq<char>| #[trigger] g.dom().contains(b) implies exists|i: int|
                0 <= i < list.len() && (#[trigger] list[i])@.contains(b) by {
                assert(keys.contains(b));
                let at = keys.index_of(b);
                assert(placed@.contains(keys[at]));
                let k = choose|k: int| 0 <= k < list@.len() && (#[trigger] list@[k])@.contains(b);
                assert(list[k]@.contains(b));
            }
        }
        list
    }

    /// Whether no bookmark of the graph sits on the given one.
    fn nothing_on(&self, b: &str) -> (r: bool)
        requires
            self.wf(),
        ensures
            r == forall|x: Seq<char>| self@.dom().contains(x) ==> !(#[trigger] self@[x]).contains(b@),
    {
        let n = self.parents.len();
        let mut i: usize = 0;
        let ghost g = self@;
        let ghost keys = self.parents.keys();
        proof {
            self.parents.lemma_entries();
        }
        while i < n
            invariant
                g == self@,
                self.wf(),
                keys == self.parents.keys(),
                n == keys.len(),
                i <= n,
                forall|k: int|
                    0 <= k < n ==> g.dom().contains(#[trigger] keys[k]),
                forall|k: int| 0 <= k < i ==> !g[#[trigger] keys[k]].contains(b@),
            decreases n - i,
        {
            let name = self.parents.key_at(i);
            assert(name@ == keys[i as int]);
            if self.parents_of(name.as_str()).contains(b) {
                assert(g.dom().contains(name@) && g[name@].contains(b@));
                return false;
            }
            i += 1;
        }
        assert forall|x: Seq<char>| g.dom().contains(x) implies !(#[trigger] g[x]).contains(b@) by {
            assert(keys.contains(x));
            let k = keys.index_of(x);
            assert(!g[keys[k]].contains(b@));
        }
        true
    }

    /// The bookmarks among `members` that nothing sits on.
    pub fn leaves(&self, members: &TextSet) -> (r: TextSet)
        requires
            self.wf(),
            members.wf(),
        ensures
            r.wf(),
            forall|b: Seq<char>| #[trigger] r@.contains(b) <==> is_leaf(self@, members@, b),
    {
        let mut r = TextSet::new();
        let n = members.len();
        let mut i: usize = 0;
        let ghost items = members.items();
        proof {
            members.lemma_items();
        }
        while i < n
            invariant
                self.wf(),
                members.wf(),
                items == members.items(),
                items.to_set() == members@,
                n == items.len(),
                i <= n,
                r.wf(),
                forall|b: Seq<char>| #[trigger]
                    r@.contains(b) <==> items.take(i as int).contains(b) && is_leaf(
                        self@,
                        members@,
                        b,
                    ),
            decreases n - i,
        {
            let name = members.item_at(i);
            let ghost before = r@;
            assert(items.to_set().contains(name@));
            if self.nothing_on(name.as_str()) {
                r.insert(name.clone());
            }
            proof {
                let next = items.take(i + 1);
                assert forall|b: Seq<char>| #[trigger]
                    r@.contains(b) <==> next.contains(b) && is_leaf(self@, members@, b) by {
                    lemma_take_contains(items, i as int, b);
                    assert(before.contains(b) <==> items.take(i as int).contains(b) && is_leaf(
                        self@,
                        members@,
                        b,
                    ));
                }
            }
            i += 1;
        }
        assert(items.take(n as int) == items);
        assert forall|b: Seq<char>| #[trigger] r@.contains(b) <==> is_leaf(self@, members@, b) by {
            if is_leaf(self@, members@, b) {
                assert(items.to_set().contains(b));
                assert(items.contains(b));
            }
        }
        r
    }

    /// Whether the members form a line: no bookmark sits on two others, and exactly one has
    /// none on top.
    pub fn is_linear(&self, members: &TextSet) -> (r: bool)
        requires
            self.wf(),
            members.wf(),
            members@.subset_of(self@.dom()),
        ensures
            r == linear(self@, members@),
    {
        let n = members.len();
        let mut i: usize = 0;
        let ghost g = self@;
        let ghost items = members.items();
        proof {
            members.lemma_items();
        }
        while i < n
            invariant
                g == self@,
                self.wf(),
                members.wf(),
                members@.subset_of(g.dom()),
                items == members.items(),
                items.to_set() == members@,
                n == items.len(),
                i <= n,
                forall|k: int| 0 <= k < i ==> g[#[trigger] items[k]].len() <= 1,
            decreases n - i,
        {
            let name = members.item_at(i);
            assert(items.to_set().contains(name@));
            let parents = self.parents_of(name.as_str());
            proof {
                parents.lemma_items();
            }
            if parents.len() > 1 {
                assert(members@.contains(name@) && g[name@].len() > 1);
                return false;
            }
            i += 1;
        }
        let leaves = self.leaves(members);
        proof {
            assert forall|b: Seq<char>| #[trigger] members@.contains(b) implies g[b].len()
                <= 1 by {
                assert(items.to_set().contains(b));
                let k = items.index_of(b);
                assert(g[items[k]].len() <= 1);
            }
            leaves.lemma_items();
            let found = leaves.items();
            if found.len() == 1 {
                let leaf = found[0];
                assert(found.to_set().contains(leaf));
                assert forall|b: Seq<char>| #[trigger] is_leaf(g, members@, b) implies b == leaf by {
                    assert(leaves@.contains(b));
                    assert(found.contains(b));
                }
                assert(sole_leaf(g, members@, leaf));
            } else if exists|leaf: Seq<char>| sole_leaf(g, members@, leaf) {
                let leaf = choose|leaf: Seq<char>| sole_leaf(g, members@, leaf);
                assert(leaves@.contains(leaf));
                assert(found.contains(leaf));
                assert(found.len() > 1);
                assert(found.to_set().contains(found[0]));
                assert(found.to_set().contains(found[1]));
                assert(is_leaf(g, members@, found[0]));
                assert(is_leaf(g, members@, found[1]));
                assert(found[0] == found[1]);
                assert(false);
            }
        }
        leaves.len() == 1
    }

    /// The bookmark and what it sits on, top to bottom.
    pub fn downstack(&self, b: &str) -> (r: Vec<String>)
        requires
            self.wf(),
            self@.dom().contains(b@),
        ensures
            text::texts(r@) == chain(self@, b@, self@.dom().len()),
    {
        let ghost g = self@;
        let mut r: Vec<String> = Vec::new();
        let mut left = self.len();
        let mut at = b.to_owned();
        let mut more = true;
        let ghost whole = chain(g, b@, g.dom().len());
        assert(Seq::<Seq<char>>::empty() + whole =~= whole);
        assert(text::texts(r@) =~= Seq::<Seq<char>>::empty());
        while more && left > 0
            invariant
                g == self@,
                self.wf(),
                g.dom().contains(at@),
                more ==> whole == text::texts(r@) + chain(g, at@, left as nat),
                !more ==> whole == text::texts(r@),
            decreases left,
        {
            let ghost before = text::texts(r@);
            let parents = self.parents_of(at.as_str());
            proof {
                parents.lemma_items();
            }
            let ghost top = at@;
            if parents.len() == 1 {
                let below = parents.item_at(0).clone();
                proof {
                    assert(parents.items().to_set().contains(below@));
                    let o = only(g[top]);
                    assert(g[top].contains(below@));
                    assert(g[top].contains(o));
                    assert(parents.items().contains(o));
                    assert(o == below@);
                    assert(self.parents@[top]@.contains(below@));
                }
                r.push(at);
                at = below;
                proof {
                    assert(text::texts(r@) == before.push(top));
                    assert(whole =~= before.push(top) + chain(g, at@, (left - 1) as nat));
                }
            } else {
                r.push(at.clone());
                more = false;
                assert(text::texts(r@) == before.push(top));
                assert(before + seq![top] =~= before.push(top));
            }
            left = left - 1;
        }
        assert(text::texts(r@) + Seq::<Seq<char>>::empty() =~= text::texts(r@));
        r
    }
}

// ---------------------------------------------------------------------------
// Lines
// ---------------------------------------------------------------------------
/// There are finitely many bookmarks, each sits on finitely many, and on none that is not of
/// the graph.
pub open spec fn self_contained(g: GraphView) -> bool {
    &&& g.dom().finite()
    &&& forall|b: Seq<char>| #[trigger] g.dom().contains(b) ==> g[b].finite()
    &&& forall|b: Seq<char>, p: Seq<char>|
        g.dom().contains(b) && #[trigger] g[b].contains(p) ==> g.dom().contains(p)
}

/// Whatever a bookmark sits on has a lower rank, so that no bookmark sits on itself, however
/// many bookmarks are in between.
pub open spec fn ranked(g: GraphView, rank: spec_fn(Seq<char>) -> nat) -> bool {
    forall|b: Seq<char>, p: Seq<char>|
        g.dom().contains(b) && #[trigger] g[b].contains(p) ==> rank(p) < rank(b)
}

proof fn lemma_only_inside(s: Set<Seq<char>>)
    requires
        s.finite(),
        s.len() == 1,
    ensures
        s.contains(only(s)),
{
    if forall|x: Seq<char>| !s.contains(x) {
        assert(s =~= Set::empty());
    }
}

proof fn lemma_only(s: Set<Seq<char>>, x: Seq<char>)
    requires
        s.finite(),
        s.len() <= 1,
        s.contains(x),
    ensures
        s.len() == 1,
        only(s) == x,
{
    let o = only(s);
    assert(s.contains(o));
    if o != x {
        vstd::set_lib::lemma_len_subset(set![o, x], s);
    } else {
        vstd::set_lib::lemma_len_subset(set![x], s);
    }
}

proof fn lemma_chain_steps(
    g: GraphView,
    b: Seq<char>,
    limit: nat,
    rank: spec_fn(Seq<char>) -> nat,
)
    requires
        self_contained(g),
        ranked(g, rank),
        g.dom().contains(b),
        limit > 0,
    ensures
        ({
            let c = chain(g, b, limit);
            &&& 0 < c.len() <= limit
            &&& c[0] == b
            &&& forall|i: int| 0 <= i < c.len() ==> g.dom().contains(#[trigger] c[i])
            &&& forall|i: int, j: int|
                0 <= i < j < c.len() ==> rank(#[trigger] c[j]) < rank(#[trigger] c[i])
            &&& forall|i: int|
                0 <= i < c.len() - 1 ==> g[#[trigger] c[i]].len() == 1 && c[i + 1] == only(g[c[i]])
            &&& c.len() < limit ==> g[c.last()].len() != 1
        }),
    decreases limit,
{
    let c = chain(g, b, limit);
    if g[b].len() == 1 {
        let below = only(g[b]);
        lemma_only_inside(g[b]);
        if limit > 1 {
            let rest = chain(g, below, (limit - 1) as nat);
            lemma_chain_steps(g, below, (limit - 1) as nat, rank);
            assert(c == seq![b] + rest);
            assert forall|i: int| 0 <= i < c.len() implies g.dom().contains(#[trigger] c[i]) by {
                if i > 0 {
                    assert(c[i] == rest[i - 1]);
                }
            }
            assert forall|i: int, j: int| 0 <= i < j < c.len() implies rank(#[trigger] c[j]) < rank(
                #[trigger] c[i],
            ) by {
                assert(c[j] == rest[j - 1]);
                if i > 0 {
                    assert(c[i] == rest[i - 1]);
                } else if j > 1 {
                    assert(rank(rest[j - 1]) < rank(rest[0]));
                }
            }
            assert forall|i: int| 0 <= i < c.len() - 1 implies g[#[trigger] c[i]].len() == 1 && c[i
                + 1] == only(g[c[i]]) by {
                assert(c[i + 1] == rest[i]);
                if i > 0 {
                    assert(c[i] == rest[i - 1]);
                }
            }
            assert(c.last() == rest.last());
        } else {
            assert(chain(g, below, 0) == Seq::<Seq<char>>::empty());
            assert(c =~= seq![b]);
        }
    }
}

/// A set that is not empty has a member of the highest rank.
proof fn lemma_highest(s: Set<Seq<char>>, rank: spec_fn(Seq<char>) -> nat) -> (top: Seq<char>)
    requires
        s.finite(),
        s.len() > 0,
    ensures
        s.contains(top),
        forall|x: Seq<char>| s.contains(x) ==> rank(x) <= rank(top),
    decreases s.len(),
{
    let a = s.choose();
    let rest = s.remove(a);
    if rest.len() == 0 {
        assert forall|x: Seq<char>| s.contains(x) implies rank(x) <= rank(a) by {
            if x != a {
                assert(rest.contains(x));
            }
        }
        a
    } else {
        let b = lemma_highest(rest, rank);
        let top = if rank(a) <= rank(b) {
            b
        } else {
            a
        };
        assert forall|x: Seq<char>| s.contains(x) implies rank(x) <= rank(top) by {
            if x != a {
                assert(rest.contains(x));
            }
        }
        top
    }
}

/// The bookmarks of a graph fulfil what the laws on graphs ask for.
pub proof fn graphs_are_self_contained(graph: BookmarkGraph)
    requires
        graph.wf(),
    ensures
        self_contained(graph@),
{
    let g = graph@;
    graph.parents.lemma_entries();
    assert(graph.parents.keys().to_set() =~= g.dom());
    assert forall|b: Seq<char>| #[trigger] g.dom().contains(b) implies g[b].finite() by {
        graph.parents@[b].lemma_items();
    }
    assert forall|b: Seq<char>, p: Seq<char>|
        g.dom().contains(b) && #[trigger] g[b].contains(p) implies g.dom().contains(p) by {
        assert(graph.parents@[b]@.contains(p));
    }
}

/// In a line, where no bookmark sits on itself, what is below the leaf is the whole line:
/// every bookmark of the component once, each right above the one that it sits on, down to one
/// that sits on nothing.
pub proof fn downstack_is_the_line(
    g: GraphView,
    leaf: Seq<char>,
    rank: spec_fn(Seq<char>) -> nat,
)
    requires
        self_contained(g),
        ranked(g, rank),
        g.dom().contains(leaf),
        linear(g, component_of(g, leaf)),
        is_leaf(g, component_of(g, leaf), leaf),
    ensures
        ({
            let c = chain(g, leaf, g.dom().len());
            &&& c.to_set() == component_of(g, leaf)
            &&& c.no_duplicates()
            &&& c.len() > 0
            &&& c[0] == leaf
            &&& forall|i: int| 0 <= i < c.len() - 1 ==> g[#[trigger] c[i]].contains(c[i + 1])
            &&& g[c.last()].len() == 0
        }),
{
    let members = component_of(g, leaf);
    let n = g.dom().len();
    let c = chain(g, leaf, n);
    assert(n > 0) by {
        vstd::set_lib::lemma_len_subset(set![leaf], g.dom());
    }
    lemma_chain_steps(g, leaf, n, rank);
    assert(c.no_duplicates()) by {
        assert forall|i: int, j: int| 0 <= i < c.len() && 0 <= j < c.len() && i != j implies c[i]
            != c[j] by {
            if i < j {
                assert(rank(c[j]) < rank(c[i]));
            } else {
                assert(rank(c[i]) < rank(c[j]));
            }
        }
    }
    c.unique_seq_to_set();
    let on_chain = c.to_set();
    components_are_classes(g, leaf, leaf);
    assert forall|x: Seq<char>| #[trigger] on_chain.contains(x) implies members.contains(x) by {
        let k = c.index_of(x);
        lemma_chain_connected(g, leaf, n, rank, k);
    }
    // The chain ends where it ends, not where the limit cuts it.
    assert(g[c.last()].len() == 0) by {
        let last = c.last();
        assert(on_chain.contains(last));
        assert(g[last].len() <= 1);
        if g[last].len() == 1 {
            let below = only(g[last]);
            lemma_only_inside(g[last]);
            assert(rank(below) < rank(last));
            assert(!on_chain.contains(below)) by {
                if on_chain.contains(below) {
                    let k = c.index_of(below);
                    if k < c.len() - 1 {
                        assert(rank(c[c.len() - 1]) < rank(c[k]));
                    }
                }
            }
            assert(on_chain.insert(below).subset_of(g.dom())) by {
                assert forall|x: Seq<char>| on_chain.insert(below).contains(x) implies g.dom()
                    .contains(x) by {
                    if x != below {
                        let k = c.index_of(x);
                        assert(g.dom().contains(c[k]));
                    }
                }
            }
            vstd::set_lib::lemma_len_subset(on_chain.insert(below), g.dom());
        }
    }
    assert forall|i: int| 0 <= i < c.len() - 1 implies g[#[trigger] c[i]].contains(c[i + 1]) by {
        lemma_only_inside(g[c[i]]);
    }
    // Whatever is missing has something missing on top of it, which cannot go on.
    let missing = members.difference(on_chain);
    assert(missing.subset_of(g.dom())) by {
        assert forall|x: Seq<char>| missing.contains(x) implies g.dom().contains(x) by {
            component_stays_inside(g, leaf, x);
        }
    }
    vstd::set_lib::lemma_set_subset_finite(g.dom(), missing);
    if missing.len() > 0 {
        let top = lemma_highest(missing, rank);
        assert(on_chain.contains(c[0]));
        assert(!is_leaf(g, members, top));
        let above = choose|x: Seq<char>| g.dom().contains(x) && (#[trigger] g[x]).contains(top);
        component_stays_inside(g, leaf, top);
        assert(linked(g, top, above));
        lemma_path_step(g, leaf, top, above);
        assert(members.contains(above));
        if on_chain.contains(above) {
            let k = c.index_of(above);
            lemma_only(g[above], top);
            if k < c.len() - 1 {
                assert(c[k + 1] == only(g[c[k]]));
                assert(on_chain.contains(c[k + 1]));
            } else {
                assert(c.last() == above);
            }
        } else {
            assert(missing.contains(above));
        }
        assert(false);
    }
    assert(on_chain =~= members) by {
        assert forall|x: Seq<char>| members.contains(x) implies on_chain.contains(x) by {
            if !on_chain.contains(x) {
                assert(missing.contains(x));
                vstd::set_lib::lemma_len_subset(set![x], missing);
            }
        }
    }
}

proof fn lemma_chain_connected(
    g: GraphView,
    b: Seq<char>,
    limit: nat,
    rank: spec_fn(Seq<char>) -> nat,
    k: int,
)
    requires
        self_contained(g),
        ranked(g, rank),
        g.dom().contains(b),
        limit > 0,
        0 <= k < chain(g, b, limit).len(),
    ensures
        connected(g, b, chain(g, b, limit)[k]),
    decreases k,
{
    let c = chain(g, b, limit);
    lemma_chain_steps(g, b, limit, rank);
    if k == 0 {
        assert(path(g, b, b, 0));
    } else {
        lemma_chain_connected(g, b, limit, rank, k - 1);
        let above = c[k - 1];
        assert(c[k] == only(g[above]));
        lemma_only_inside(g[above]);
        assert(linked(g, above, c[k]));
        lemma_path_step(g, b, above, c[k]);
    }
}

proof fn lemma_take_contains(s: Seq<Seq<char>>, i: int, x: Seq<char>)
    requires
        0 <= i < s.len(),
    ensures
        s.take(i + 1).contains(x) <==> s.take(i).contains(x) || x == s[i],
{
    let longer = s.take(i + 1);
    let shorter = s.take(i);
    if longer.contains(x) {
        let k = longer.index_of(x);
        if k < i {
            assert(shorter[k] == x);
        }
    }
    if shorter.contains(x) {
        let k = shorter.index_of(x);
        assert(longer[k] == x);
    }
    assert(longer[i] == s[i]);
}

proof fn lemma_push_contains(s: Seq<Seq<char>>, last: Seq<char>, x: Seq<char>)
    ensures
        s.push(last).contains(x) <==> s.contains(x) || x == last,
{
    let longer = s.push(last);
    if longer.contains(x) {
        let k = longer.index_of(x);
        if k < s.len() {
            assert(s[k] == x);
        }
    }
    if s.contains(x) {
        let k = s.index_of(x);
        assert(longer[k] == x);
    }
    assert(longer[s.len() as int] == last);
}

// ---------------------------------------------------------------------------
// Laws of the graph
// ---------------------------------------------------------------------------
/// The leaves of a set are the bookmarks of it that no bookmark of the graph sits on.
pub proof fn leaves_have_nothing_on_top(
    graph: BookmarkGraph,
    members: TextSet,
    r: TextSet,
    b: Seq<char>,
)
    requires
        call_ensures(BookmarkGraph::leaves, (&graph, &members), r),
    ensures
        r@.contains(b) <==> members@.contains(b) && !exists|x: Seq<char>|
            graph@.dom().contains(x) && (#[trigger] graph@[x]).contains(b),
{
}

/// A set of bookmarks is a line exactly where none of it sits on two and exactly one of it has none
/// on top.
pub proof fn line_has_one_leaf_and_no_fork(
    graph: BookmarkGraph,
    members: TextSet,
    leaves: TextSet,
    r: bool,
)
    requires
        call_ensures(BookmarkGraph::leaves, (&graph, &members), leaves),
        call_ensures(BookmarkGraph::is_linear, (&graph, &members), r),
    ensures
        r <==> (forall|b: Seq<char>| #[trigger] members@.contains(b) ==> graph@[b].len() <= 1)
            && leaves@.len() == 1,
{
    leaves.lemma_items();
    let g = graph@;
    let found = leaves@;
    if exists|leaf: Seq<char>| sole_leaf(g, members@, leaf) {
        let leaf = choose|leaf: Seq<char>| sole_leaf(g, members@, leaf);
        assert(found.contains(leaf));
        assert(found =~= set![leaf]);
    }
    if found.len() == 1 {
        lemma_only_inside(found);
        let leaf = only(found);
        assert(is_leaf(g, members@, leaf));
        assert forall|b: Seq<char>| #[trigger] is_leaf(g, members@, b) implies b == leaf by {
            assert(found.contains(b));
            lemma_only(found, b);
        }
        assert(sole_leaf(g, members@, leaf));
    }
}

/// Every bookmark of the graph is in one component, and in one only, together with all that it sits
/// on. No component is empty, and none is larger than it has to be: what holds one of its bookmarks,
/// and with every bookmark what it sits on and what sits on it, holds all of it.
pub proof fn components_part_the_graph(
    graph: BookmarkGraph,
    list: Vec<TextSet>,
    b: Seq<char>,
    p: Seq<char>,
    i: int,
    j: int,
    closed: Set<Seq<char>>,
)
    requires
        call_ensures(BookmarkGraph::components, (&graph,), list),
        graph.wf(),
    ensures
        graph@.dom().contains(b) ==> exists|k: int|
            0 <= k < list@.len() && (#[trigger] list@[k])@.contains(b),
        0 <= i < list@.len() && list@[i]@.contains(b) ==> {
            &&& graph@.dom().contains(b)
            &&& graph@[b].contains(p) ==> list@[i]@.contains(p)
            &&& graph@.dom().contains(p) && graph@[p].contains(b) ==> list@[i]@.contains(p)
            &&& 0 <= j < list@.len() && list@[j]@.contains(b) ==> i == j
            &&& closed.contains(b) && (forall|x: Seq<char>, y: Seq<char>|
                graph@.dom().contains(x) && #[trigger] graph@[x].contains(y) ==> (closed.contains(x)
                    <==> closed.contains(y))) ==> list@[i]@.subset_of(closed)
        },
        0 <= i < list@.len() ==> list@[i]@.len() > 0,
{
    let g = graph@;
    graphs_are_self_contained(graph);
    if 0 <= i < list@.len() {
        let c = list@[i];
        c.lemma_items();
        let first = c.items()[0];
        assert(c.items().to_set().contains(first));
        assert(c@.contains(first));
        vstd::set_lib::lemma_len_subset(set![first], c@);
        if c@.contains(b) {
            component_stays_inside(g, first, b);
            if g[b].contains(p) {
                assert(linked(g, b, p));
                lemma_path_step(g, first, b, p);
            }
            if g.dom().contains(p) && g[p].contains(b) {
                assert(linked(g, b, p));
                lemma_path_step(g, first, b, p);
            }
            if 0 <= j < list@.len() && list@[j]@.contains(b) && i != j {
                list@[j].lemma_items();
                let other = list@[j].items()[0];
                assert(connected(g, first, b));
                assert(connected(g, other, b));
                lemma_connected_symmetric(g, other, b);
                lemma_connected_transitive(g, first, b, other);
                components_are_classes(g, first, other);
                assert(list@[i]@ == list@[j]@);
                lemma_first_item(list@[i]);
                lemma_first_item(list@[j]);
                text::lemma_text_lt_irreflexive(first);
                if i < j {
                    assert(text::text_lt(first, other));
                } else {
                    assert(text::text_lt(other, first));
                }
                assert(is_first(list@[i]@, first));
                assert(is_first(list@[j]@, other));
                text::lemma_text_lt_transitive(first, other, first);
                text::lemma_text_lt_transitive(other, first, other);
                text::lemma_text_lt_irreflexive(other);
                assert(false);
            }
            if closed.contains(b) && (forall|x: Seq<char>, y: Seq<char>|
                g.dom().contains(x) && #[trigger] g[x].contains(y) ==> (closed.contains(x)
                    <==> closed.contains(y))) {
                assert forall|x: Seq<char>| c@.contains(x) implies closed.contains(x) by {
                    lemma_connected_symmetric(g, first, b);
                    lemma_connected_transitive(g, b, first, x);
                    let n = choose|n: nat| path(g, b, x, n);
                    lemma_path_in(g, closed, b, x, n);
                }
            }
        }
    }
}

proof fn lemma_path_in(g: GraphView, closed: Set<Seq<char>>, a: Seq<char>, b: Seq<char>, n: nat)
    requires
        closed.contains(a),
        forall|x: Seq<char>, y: Seq<char>|
            g.dom().contains(x) && #[trigger] g[x].contains(y) ==> (closed.contains(x)
                <==> closed.contains(y)),
        path(g, a, b, n),
    ensures
        closed.contains(b),
    decreases n,
{
    if n > 0 {
        let mid = choose|mid: Seq<char>| #[trigger]
            linked(g, mid, b) && path(g, a, mid, (n - 1) as nat);
        lemma_path_in(g, closed, a, mid, (n - 1) as nat);
        if g[mid].contains(b) {
        } else {
            assert(g[b].contains(mid));
        }
    }
}

/// The graph holds exactly the given bookmarks, each on those of them that it sits on.
pub proof fn graph_holds_the_given_bookmarks(
    bookmarks: OrderedMap<Bookmark>,
    adjacency: OrderedMap<TextSet>,
    graph: BookmarkGraph,
    b: Seq<char>,
    p: Seq<char>,
)
    requires
        call_ensures(BookmarkGraph::from_lookups, (bookmarks, &adjacency), graph),
    ensures
        graph@.dom().contains(b) <==> bookmarks@.dom().contains(b),
        bookmarks@.dom().contains(b) && bookmarks@.dom().contains(p) && adjacency@.dom().contains(b)
            ==> (graph@[b].contains(p) <==> adjacency@[b]@.contains(p)),
        bookmarks@.dom().contains(b) && (!bookmarks@.dom().contains(p)
            || !adjacency@.dom().contains(b)) ==> !graph@[b].contains(p),
{
}

/// What is below a bookmark starts with it and goes on, bookmark by bookmark, with the only one that
/// the last sits on.
pub proof fn downstack_goes_from_parent_to_parent(
    graph: BookmarkGraph,
    b: &str,
    r: Vec<String>,
    i: int,
)
    requires
        graph.wf(),
        graph@.dom().contains(b@),
        call_ensures(BookmarkGraph::downstack, (&graph, b), r),
    ensures
        r@.len() > 0,
        r@[0]@ == b@,
        0 <= i < r@.len() - 1 ==> graph@[r@[i]@].contains(r@[i + 1]@) && graph@[r@[i]@].len() == 1,
        r@.len() < graph@.dom().len() ==> graph@[r@.last()@].len() != 1,
        r@.len() <= graph@.dom().len(),
{
    let g = graph@;
    graphs_are_self_contained(graph);
    vstd::set_lib::lemma_len_subset(set![b@], g.dom());
    let all = text::texts(r@);
    assert(all.len() == r@.len());
    lemma_chain_goes_on(g, b@, g.dom().len(), i);
    assert(all[0] == r@[0]@);
    assert(all[all.len() - 1] == r@.last()@);
    if 0 <= i < r@.len() - 1 {
        assert(all[i] == r@[i]@);
        assert(all[i + 1] == r@[i + 1]@);
    }
}

proof fn lemma_chain_goes_on(g: GraphView, b: Seq<char>, limit: nat, i: int)
    requires
        self_contained(g),
        g.dom().contains(b),
        limit > 0,
    ensures
        ({
            let c = chain(g, b, limit);
            &&& 0 < c.len() <= limit
            &&& c[0] == b
            &&& 0 <= i < c.len() - 1 ==> g[c[i]].contains(c[i + 1]) && g[c[i]].len() == 1
            &&& c.len() < limit ==> g[c.last()].len() != 1
        }),
    decreases limit,
{
    let c = chain(g, b, limit);
    if g[b].len() == 1 {
        lemma_only_inside(g[b]);
        let below = only(g[b]);
        assert(g[b].contains(below));
        if limit > 1 {
            lemma_chain_goes_on(g, below, (limit - 1) as nat, i - 1);
            let rest = chain(g, below, (limit - 1) as nat);
            assert(c =~= seq![b] + rest);
            assert(c.last() == rest.last());
            if 0 < i < c.len() - 1 {
                assert(c[i] == rest[i - 1] && c[i + 1] == rest[i]);
            }
            assert(c[1] == rest[0]);
        } else {
            assert(chain(g, below, 0) =~= Seq::empty());
            assert(c =~= seq![b]);
        }
    }
}

/// A bookmark is called what its information says.
pub proof fn bookmark_is_called_by_its_name(b: Bookmark, r: &str)
    requires
        call_ensures(Bookmark::name, (&b,), r),
    ensures
        *b.info matches BookmarkInfo::Local { name, .. } ==> r@ == name@,
        *b.info matches BookmarkInfo::Remote { name, .. } ==> r@ == name@,
{
}

} // verus!
