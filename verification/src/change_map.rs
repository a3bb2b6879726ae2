//! Changes by commit ID, and the bookmark graph that they span.
use crate::bookmark::Bookmark;
use crate::jj;
use crate::jj::{BookmarkInfo, BookmarkView, Change, ChangeView};
use crate::ordered_map::OrderedMap;
use crate::text;
use crate::text_set::TextSet;
use vstd::prelude::*;

verus! {

/// Changes, each under its commit ID.
#[derive(Debug)]
pub struct ChangeMap {
    changes: OrderedMap<Change>,
}

impl View for ChangeMap {
    type V = Map<Seq<char>, ChangeView>;

    closed spec fn view(&self) -> Map<Seq<char>, ChangeView> {
        Map::new(|id: Seq<char>| self.changes@.dom().contains(id), |id: Seq<char>| self.changes@[id]@)
    }
}

/// All parents of all changes are among the changes.
pub open spec fn parents_known(m: Map<Seq<char>, ChangeView>) -> bool {
    forall|id: Seq<char>, p: Seq<char>|
        m.dom().contains(id) && #[trigger] m[id].parent_commit_ids.contains(p) ==> m.dom().contains(
            p,
        )
}

/// No change that is a parent carries more than one bookmark.
pub open spec fn parents_single(m: Map<Seq<char>, ChangeView>) -> bool {
    forall|id: Seq<char>, p: Seq<char>|
        m.dom().contains(id) && #[trigger] m[id].parent_commit_ids.contains(p)
            ==> m[p].bookmarks.len() <= 1
}

/// The change `mid` carries no bookmark, and `id` is one of its parents.
pub open spec fn passes_on(
    m: Map<Seq<char>, ChangeView>,
    mid: Seq<char>,
    id: Seq<char>,
) -> bool {
    &&& m.dom().contains(mid)
    &&& m[mid].bookmarks.len() == 0
    &&& m[mid].parent_commit_ids.contains(id)
}

/// The change `id` is one of `from`, or `n` steps below one of them, over parents of
/// changes without bookmarks.
pub open spec fn reached_in(
    m: Map<Seq<char>, ChangeView>,
    from: Seq<Seq<char>>,
    id: Seq<char>,
    n: nat,
) -> bool
    decreases n,
{
    if n == 0 {
        from.contains(id)
    } else {
        exists|mid: Seq<char>| #[trigger]
            passes_on(m, mid, id) && reached_in(m, from, mid, (n - 1) as nat)
    }
}

/// The change `id` is reached from `from` over changes without bookmarks.
pub open spec fn reached(
    m: Map<Seq<char>, ChangeView>,
    from: Seq<Seq<char>>,
    id: Seq<char>,
) -> bool {
    exists|n: nat| reached_in(m, from, id, n)
}

/// The full names of the nearest bookmarks at or below `from`.
pub open spec fn nearest_bookmarks(
    m: Map<Seq<char>, ChangeView>,
    from: Seq<Seq<char>>,
) -> Set<Seq<char>> {
    Set::new(
        |name: Seq<char>|
            exists|id: Seq<char>| #[trigger]
                reached(m, from, id) && m[id].bookmarks.len() == 1 && m[id].bookmarks[0].full_name()
                    == name,
    )
}

/// The change carries a bookmark of that name.
pub open spec fn carries(c: ChangeView, name: Seq<char>) -> bool {
    exists|i: int| 0 <= i < c.bookmarks.len() && #[trigger] c.bookmarks[i].name() == name
}

/// The bookmark `parent` is a nearest bookmark below a change that carries `name`.
pub open spec fn sits_on(
    m: Map<Seq<char>, ChangeView>,
    name: Seq<char>,
    parent: Seq<char>,
) -> bool {
    exists|id: Seq<char>| #[trigger]
        m.dom().contains(id) && carries(m[id], name) && nearest_bookmarks(
            m,
            m[id].parent_commit_ids,
        ).contains(parent)
}

/// Every bookmark name that a change carries is a key.
pub open spec fn names_all(
    keys: Map<Seq<char>, TextSet>,
    m: Map<Seq<char>, ChangeView>,
) -> bool {
    forall|id: Seq<char>, name: Seq<char>|
        m.dom().contains(id) && #[trigger] carries(m[id], name) ==> keys.dom().contains(name)
}

/// No change carries a bookmark of that name.
pub open spec fn carried_by_none(m: Map<Seq<char>, ChangeView>, name: Seq<char>) -> bool {
    forall|id: Seq<char>| #[trigger] m.dom().contains(id) ==> !carries(m[id], name)
}

/// Every set of an adjacency list is well-formed.
pub open spec fn adjacency_wf(m: OrderedMap<TextSet>) -> bool {
    m.wf() && forall|k: Seq<char>| #[trigger] m@.dom().contains(k) ==> m@[k].wf()
}

proof fn lemma_reached_start(m: Map<Seq<char>, ChangeView>, from: Seq<Seq<char>>, id: Seq<char>)
    requires
        from.contains(id),
    ensures
        reached(m, from, id),
{
    assert(reached_in(m, from, id, 0));
}

proof fn lemma_reached_step(
    m: Map<Seq<char>, ChangeView>,
    from: Seq<Seq<char>>,
    mid: Seq<char>,
    id: Seq<char>,
)
    requires
        reached(m, from, mid),
        passes_on(m, mid, id),
    ensures
        reached(m, from, id),
{
    let n = choose|n: nat| reached_in(m, from, mid, n);
    assert(reached_in(m, from, id, n + 1)) by {
        assert(reached_in(m, from, mid, (n + 1 - 1) as nat));
    }
}

/// A set that holds the start and the parents of its members without bookmarks holds
/// everything that is reached.
proof fn lemma_closed(
    m: Map<Seq<char>, ChangeView>,
    from: Seq<Seq<char>>,
    closed: Set<Seq<char>>,
    id: Seq<char>,
    n: nat,
)
    requires
        forall|x: Seq<char>| from.contains(x) ==> closed.contains(x),
        forall|x: Seq<char>, p: Seq<char>|
            closed.contains(x) && m[x].bookmarks.len() == 0
                && #[trigger] m[x].parent_commit_ids.contains(p) ==> closed.contains(p),
        reached_in(m, from, id, n),
    ensures
        closed.contains(id),
    decreases n,
{
    if n > 0 {
        let mid = choose|mid: Seq<char>| #[trigger]
            passes_on(m, mid, id) && reached_in(m, from, mid, (n - 1) as nat);
        lemma_closed(m, from, closed, mid, (n - 1) as nat);
    }
}

/// The bookmarks of one change, each with the change.
pub open spec fn pairs_of(c: ChangeView) -> Seq<(BookmarkView, ChangeView)> {
    Seq::new(c.bookmarks.len(), |j: int| (c.bookmarks[j], c))
}

/// The bookmarks of a list of changes, in order, each with its change.
pub open spec fn bookmark_pairs(changes: Seq<ChangeView>) -> Seq<(BookmarkView, ChangeView)>
    decreases changes.len(),
{
    if changes.len() == 0 {
        Seq::empty()
    } else {
        bookmark_pairs(changes.drop_last()) + pairs_of(changes.last())
    }
}

/// The map holds, under each name that occurs in `pairs`, the last pair of that name.
pub open spec fn holds_last(
    m: Map<Seq<char>, Bookmark>,
    pairs: Seq<(BookmarkView, ChangeView)>,
) -> bool {
    &&& forall|k: int| 0 <= k < pairs.len() ==> m.dom().contains((#[trigger] pairs[k]).0.name())
    &&& forall|name: Seq<char>| #[trigger]
        m.dom().contains(name) ==> exists|k: int|
            {
                &&& 0 <= k < pairs.len()
                &&& #[trigger] pairs[k] == (m[name].info@, m[name].change@)
                &&& pairs[k].0.name() == name
                &&& forall|l: int| k < l < pairs.len() ==> (#[trigger] pairs[l]).0.name() != name
            }
}

proof fn lemma_holds_last_push(
    m: Map<Seq<char>, Bookmark>,
    pairs: Seq<(BookmarkView, ChangeView)>,
    b: Bookmark,
)
    requires
        holds_last(m, pairs),
    ensures
        holds_last(m.insert(b.info@.name(), b), pairs.push((b.info@, b.change@))),
{
    let name0 = b.info@.name();
    let m1 = m.insert(name0, b);
    let pairs1 = pairs.push((b.info@, b.change@));
    assert forall|k: int| 0 <= k < pairs1.len() implies m1.dom().contains(
        (#[trigger] pairs1[k]).0.name(),
    ) by {
        if k < pairs.len() {
            assert(pairs1[k] == pairs[k]);
        }
    }
    assert forall|name: Seq<char>| #[trigger] m1.dom().contains(name) implies exists|k: int|
        {
            &&& 0 <= k < pairs1.len()
            &&& #[trigger] pairs1[k] == (m1[name].info@, m1[name].change@)
            &&& pairs1[k].0.name() == name
            &&& forall|l: int| k < l < pairs1.len() ==> (#[trigger] pairs1[l]).0.name() != name
        } by {
        if name == name0 {
            assert(pairs1[pairs.len() as int] == (m1[name].info@, m1[name].change@));
        } else {
            assert(m.dom().contains(name));
            let k = choose|k: int|
                {
                    &&& 0 <= k < pairs.len()
                    &&& #[trigger] pairs[k] == (m[name].info@, m[name].change@)
                    &&& pairs[k].0.name() == name
                    &&& forall|l: int|
                        k < l < pairs.len() ==> (#[trigger] pairs[l]).0.name() != name
                };
            assert(pairs1[k] == pairs[k]);
            assert forall|l: int| k < l < pairs1.len() implies (#[trigger] pairs1[l]).0.name()
                != name by {
                if l < pairs.len() {
                    assert(pairs1[l] == pairs[l]);
                }
            }
        }
    }
}

/// The bookmark name occurs in the first `i` changes, or in the first `j` bookmarks of the
/// change at `i`; `at` is the position of such a change.
spec fn named_before(
    order: Seq<ChangeView>,
    i: int,
    j: int,
    name: Seq<char>,
    at: int,
) -> bool {
    &&& 0 <= at < order.len()
    &&& (at < i && carries(order[at], name)) || (at == i && exists|l: int|
        0 <= l < j && l < order[i].bookmarks.len() && (#[trigger] order[i].bookmarks[l]).name()
            == name)
}

/// The adjacency list that the first `i` changes, and `j` bookmarks of the next, give.
spec fn adjacency_of(
    m: OrderedMap<TextSet>,
    all: Map<Seq<char>, ChangeView>,
    order: Seq<ChangeView>,
    i: int,
    j: int,
) -> bool {
    &&& adjacency_wf(m)
    &&& forall|name: Seq<char>| #[trigger]
        m@.dom().contains(name) <==> exists|at: int| #[trigger] named_before(order, i, j, name, at)
    &&& forall|name: Seq<char>, parent: Seq<char>|
        m@.dom().contains(name) ==> (#[trigger] m@[name]@.contains(parent) <==> exists|at: int|
            #[trigger] named_before(order, i, j, name, at) && nearest_bookmarks(
                all,
                order[at].parent_commit_ids,
            ).contains(parent))
}

proof fn lemma_adjacency_step(
    before: OrderedMap<TextSet>,
    after: OrderedMap<TextSet>,
    all: Map<Seq<char>, ChangeView>,
    order: Seq<ChangeView>,
    i: int,
    j: int,
)
    requires
        0 <= i < order.len(),
        0 <= j < order[i].bookmarks.len(),
        adjacency_of(before, all, order, i, j),
        after.wf(),
        ({
            let name = order[i].bookmarks[j].name();
            let parents = nearest_bookmarks(all, order[i].parent_commit_ids);
            let known = if before@.dom().contains(name) {
                before@[name]@
            } else {
                Set::empty()
            };
            &&& after@ == before@.insert(name, after@[name])
            &&& after@.dom().contains(name)
            &&& after@[name].wf()
            &&& after@[name]@ == known.union(parents)
        }),
    ensures
        adjacency_of(after, all, order, i, j + 1),
{
    let name0 = order[i].bookmarks[j].name();
    assert forall|name: Seq<char>, at: int| #[trigger]
        named_before(order, i, j + 1, name, at) <==> named_before(order, i, j, name, at) || (name
            == name0 && at == i) by {
        if named_before(order, i, j + 1, name, at) && at == i {
            let l = choose|l: int|
                0 <= l < j + 1 && l < order[i].bookmarks.len() && (
                #[trigger] order[i].bookmarks[l]).name() == name;
            if l < j {
                assert(named_before(order, i, j, name, at));
            }
        }
        if named_before(order, i, j, name, at) && at == i {
            let l = choose|l: int|
                0 <= l < j && l < order[i].bookmarks.len() && (
                #[trigger] order[i].bookmarks[l]).name() == name;
            assert(0 <= l < j + 1 && order[i].bookmarks[l].name() == name);
        }
    }
    assert(named_before(order, i, j + 1, name0, i));
    assert forall|name: Seq<char>| #[trigger] after@.dom().contains(name) <==> exists|at: int|
        #[trigger] named_before(order, i, j + 1, name, at) by {
        if name != name0 {
            assert(after@.dom().contains(name) <==> before@.dom().contains(name));
            if before@.dom().contains(name) {
                let at = choose|at: int| #[trigger] named_before(order, i, j, name, at);
                assert(named_before(order, i, j + 1, name, at));
            }
            if exists|at: int| #[trigger] named_before(order, i, j + 1, name, at) {
                let at = choose|at: int| #[trigger] named_before(order, i, j + 1, name, at);
                assert(named_before(order, i, j, name, at));
            }
        }
    }
    assert forall|name: Seq<char>, parent: Seq<char>| after@.dom().contains(name) implies (
    #[trigger] after@[name]@.contains(parent) <==> exists|at: int| #[trigger]
        named_before(order, i, j + 1, name, at) && nearest_bookmarks(
            all,
            order[at].parent_commit_ids,
        ).contains(parent)) by {
        if after@[name]@.contains(parent) {
            if name == name0 && nearest_bookmarks(all, order[i].parent_commit_ids).contains(
                parent,
            ) {
                assert(named_before(order, i, j + 1, name, i));
            } else {
                assert(before@.dom().contains(name));
                assert(before@[name]@.contains(parent));
                let at = choose|at: int| #[trigger]
                    named_before(order, i, j, name, at) && nearest_bookmarks(
                        all,
                        order[at].parent_commit_ids,
                    ).contains(parent);
                assert(named_before(order, i, j + 1, name, at));
            }
        }
        if exists|at: int| #[trigger]
            named_before(order, i, j + 1, name, at) && nearest_bookmarks(
                all,
                order[at].parent_commit_ids,
            ).contains(parent) {
            let at = choose|at: int| #[trigger]
                named_before(order, i, j + 1, name, at) && nearest_bookmarks(
                    all,
                    order[at].parent_commit_ids,
                ).contains(parent);
            if named_before(order, i, j, name, at) {
                assert(before@.dom().contains(name));
                assert(before@[name]@.contains(parent));
            }
        }
    }
    assert forall|k: Seq<char>| #[trigger] after@.dom().contains(k) implies after@[k].wf() by {
        if k != name0 {
            assert(before@.dom().contains(k));
        }
    }
}

proof fn lemma_adjacency_row(
    m: OrderedMap<TextSet>,
    all: Map<Seq<char>, ChangeView>,
    order: Seq<ChangeView>,
    i: int,
)
    requires
        0 <= i < order.len(),
        adjacency_of(m, all, order, i, order[i].bookmarks.len() as int),
    ensures
        adjacency_of(m, all, order, i + 1, 0),
{
    let j = order[i].bookmarks.len() as int;
    assert forall|name: Seq<char>, at: int| #[trigger]
        named_before(order, i + 1, 0, name, at) <==> named_before(order, i, j, name, at) by {
    }
    assert forall|name: Seq<char>| #[trigger] m@.dom().contains(name) <==> exists|at: int|
        #[trigger] named_before(order, i + 1, 0, name, at) by {
        if m@.dom().contains(name) {
            let at = choose|at: int| #[trigger] named_before(order, i, j, name, at);
            assert(named_before(order, i + 1, 0, name, at));
        }
        if exists|at: int| #[trigger] named_before(order, i + 1, 0, name, at) {
            let at = choose|at: int| #[trigger] named_before(order, i + 1, 0, name, at);
            assert(named_before(order, i, j, name, at));
        }
    }
    assert forall|name: Seq<char>, parent: Seq<char>| m@.dom().contains(name) implies (
    #[trigger] m@[name]@.contains(parent) <==> exists|at: int| #[trigger]
        named_before(order, i + 1, 0, name, at) && nearest_bookmarks(
            all,
            order[at].parent_commit_ids,
        ).contains(parent)) by {
        if m@[name]@.contains(parent) {
            let at = choose|at: int| #[trigger]
                named_before(order, i, j, name, at) && nearest_bookmarks(
                    all,
                    order[at].parent_commit_ids,
                ).contains(parent);
            assert(named_before(order, i + 1, 0, name, at));
        }
        if exists|at: int| #[trigger]
            named_before(order, i + 1, 0, name, at) && nearest_bookmarks(
                all,
                order[at].parent_commit_ids,
            ).contains(parent) {
            let at = choose|at: int| #[trigger]
                named_before(order, i + 1, 0, name, at) && nearest_bookmarks(
                    all,
                    order[at].parent_commit_ids,
                ).contains(parent);
            assert(named_before(order, i, j, name, at));
        }
    }
}

proof fn lemma_adjacency_done(m: OrderedMap<TextSet>, changes: ChangeMap)
    requires
        changes.wf(),
        adjacency_of(m, changes@, changes.in_order(), changes.in_order().len() as int, 0),
    ensures
        forall|name: Seq<char>| #[trigger]
            m@.dom().contains(name) <==> exists|id: Seq<char>| #[trigger]
                changes@.dom().contains(id) && carries(changes@[id], name),
        forall|name: Seq<char>, parent: Seq<char>|
            m@.dom().contains(name) ==> (#[trigger] m@[name]@.contains(parent) <==> sits_on(
                changes@,
                name,
                parent,
            )),
{
    let all = changes@;
    let order = changes.in_order();
    let n = order.len() as int;
    changes.lemma_in_order();
    assert forall|name: Seq<char>| #[trigger] m@.dom().contains(name) <==> exists|id: Seq<char>|
        #[trigger] all.dom().contains(id) && carries(all[id], name) by {
        if m@.dom().contains(name) {
            let at = choose|at: int| #[trigger] named_before(order, n, 0, name, at);
            assert(all.dom().contains(order[at].commit_id));
        }
        if exists|id: Seq<char>| #[trigger] all.dom().contains(id) && carries(all[id], name) {
            let id = choose|id: Seq<char>| #[trigger]
                all.dom().contains(id) && carries(all[id], name);
            let at = choose|at: int| 0 <= at < order.len() && #[trigger] order[at] == all[id];
            assert(named_before(order, n, 0, name, at));
        }
    }
    assert forall|name: Seq<char>, parent: Seq<char>| m@.dom().contains(name) implies (
    #[trigger] m@[name]@.contains(parent) <==> sits_on(all, name, parent)) by {
        if m@[name]@.contains(parent) {
            let at = choose|at: int| #[trigger]
                named_before(order, n, 0, name, at) && nearest_bookmarks(
                    all,
                    order[at].parent_commit_ids,
                ).contains(parent);
            let id = order[at].commit_id;
            assert(all.dom().contains(id) && all[id] == order[at]);
        }
        if sits_on(all, name, parent) {
            let id = choose|id: Seq<char>| #[trigger]
                all.dom().contains(id) && carries(all[id], name) && nearest_bookmarks(
                    all,
                    all[id].parent_commit_ids,
                ).contains(parent);
            let at = choose|at: int| 0 <= at < order.len() && #[trigger] order[at] == all[id];
            assert(named_before(order, n, 0, name, at));
        }
    }
}

impl ChangeMap {
    /// Every change stands under its own commit ID.
    pub closed spec fn wf(self) -> bool {
        &&& self.changes.wf()
        &&& forall|id: Seq<char>| #[trigger]
            self.changes@.dom().contains(id) ==> self.changes@[id]@.commit_id == id
    }

    /// The changes, in the order of their commit IDs.
    pub closed spec fn in_order(self) -> Seq<ChangeView> {
        Seq::new(self.changes.values().len(), |i: int| self.changes.values()[i]@)
    }

    /// The changes in order are the changes of the map, each once, with ascending
    /// commit IDs.
    pub proof fn lemma_in_order(self)
        requires
            self.wf(),
        ensures
            self@.dom().finite(),
            self@.dom().len() == self.in_order().len(),
            forall|i: int|
                #![trigger self.in_order()[i]]
                0 <= i < self.in_order().len() ==> self@.dom().contains(
                    self.in_order()[i].commit_id,
                ) && self@[self.in_order()[i].commit_id] == self.in_order()[i],
            forall|id: Seq<char>| #[trigger]
                self@.dom().contains(id) ==> self@[id].commit_id == id && exists|i: int|
                    0 <= i < self.in_order().len() && #[trigger] self.in_order()[i] == self@[id],
            forall|i: int, j: int|
                0 <= i < j < self.in_order().len() ==> text::text_lt(
                    (#[trigger] self.in_order()[i]).commit_id,
                    (#[trigger] self.in_order()[j]).commit_id,
                ),
    {
        self.changes.lemma_entries();
        let keys = self.changes.keys();
        assert(keys.to_set() =~= self@.dom());
        keys.unique_seq_to_set();
        assert forall|i: int|
            #![trigger self.in_order()[i]]
            0 <= i < self.in_order().len() implies self@.dom().contains(
            self.in_order()[i].commit_id,
        ) && self@[self.in_order()[i].commit_id] == self.in_order()[i]
            && self.in_order()[i].commit_id == keys[i] by {
            assert(self.changes@.dom().contains(keys[i]));
        }
        assert forall|id: Seq<char>| #[trigger] self@.dom().contains(id) implies self@[id].commit_id
            == id && exists|i: int|
            0 <= i < self.in_order().len() && #[trigger] self.in_order()[i] == self@[id] by {
            assert(self.changes@.dom().contains(id));
            let i = keys.index_of(id);
            assert(keys[i] == id);
            assert(self.in_order()[i] == self@[id]);
        }
        assert forall|i: int, j: int| 0 <= i < j < self.in_order().len() implies text::text_lt(
            (#[trigger] self.in_order()[i]).commit_id,
            (#[trigger] self.in_order()[j]).commit_id,
        ) by {
            assert(text::text_lt(keys[i], keys[j]));
        }
    }

    /// A map without changes.
    pub fn new() -> (m: ChangeMap)
        ensures
            m.wf(),
            m@ == Map::<Seq<char>, ChangeView>::empty(),
    {
        let m = ChangeMap { changes: OrderedMap::new() };
        assert(m@ =~= Map::<Seq<char>, ChangeView>::empty());
        m
    }

    /// The number of changes.
    pub fn len(&self) -> (n: usize)
        requires
            self.wf(),
        ensures
            n == self.in_order().len(),
    {
        self.changes.len()
    }

    /// The change at a position of the order.
    pub fn change_at(&self, i: usize) -> (c: &Change)
        requires
            self.wf(),
            i < self.in_order().len(),
        ensures
            c@ == self.in_order()[i as int],
    {
        proof {
            self.changes.lemma_entries();
        }
        self.changes.value_at(i)
    }

    /// The change with a commit ID.
    pub fn get(&self, id: &str) -> (r: Option<&Change>)
        requires
            self.wf(),
        ensures
            match r {
                Some(c) => self@.dom().contains(id@) && c@ == self@[id@],
                None => !self@.dom().contains(id@),
            },
    {
        self.changes.get(id)
    }

    /// Puts a change under its commit ID.
    pub fn insert(&mut self, change: Change)
        requires
            old(self).wf(),
        ensures
            final(self).wf(),
            final(self)@ == old(self)@.insert(change@.commit_id, change@),
    {
        let ghost before = *self;
        let ghost added = change@;
        let id = change.commit_id.clone();
        self.changes.insert(id, change);
        proof {
            assert forall|id: Seq<char>| #[trigger] self.changes@.dom().contains(id) implies
                self.changes@[id]@.commit_id == id by {
                if id != added.commit_id {
                    assert(before.changes@.dom().contains(id));
                }
            }
            assert(self@ =~= before@.insert(added.commit_id, added));
        }
    }

    /// Puts every change of another map into this one.
    pub fn extend(&mut self, other: ChangeMap)
        requires
            old(self).wf(),
            other.wf(),
        ensures
            final(self).wf(),
            final(self)@ == old(self)@.union_prefer_right(other@),
    {
        let n = other.len();
        let mut i: usize = 0;
        let ghost before = self@;
        proof {
            other.lemma_in_order();
        }
        while i < n
            invariant
                other.wf(),
                n == other.in_order().len(),
                i <= n,
                self.wf(),
                forall|k: int|
                    0 <= k < n ==> other@.dom().contains(
                        (#[trigger] other.in_order()[k]).commit_id,
                    ) && other@[other.in_order()[k].commit_id] == other.in_order()[k],
                forall|x: Seq<char>| #[trigger]
                    self@.dom().contains(x) <==> before.dom().contains(x) || exists|k: int|
                        0 <= k < i && (#[trigger] other.in_order()[k]).commit_id == x,
                forall|x: Seq<char>| #[trigger]
                    self@.dom().contains(x) ==> self@[x] == (if exists|k: int|
                        0 <= k < i && (#[trigger] other.in_order()[k]).commit_id == x {
                        other@[x]
                    } else {
                        before[x]
                    }),
            decreases n - i,
        {
            let ghost prior = self@;
            let ghost c = other.in_order()[i as int];
            self.insert(other.change_at(i).clone());
            proof {
                assert(self@ == prior.insert(c.commit_id, c));
                assert forall|x: Seq<char>| #[trigger] self@.dom().contains(x) <==> before.dom().contains(x) || exists|k: int|
                    0 <= k < i + 1 && (#[trigger] other.in_order()[k]).commit_id == x by {
                    if exists|k: int|
                        0 <= k < i && (#[trigger] other.in_order()[k]).commit_id == x {
                        let k = choose|k: int|
                            0 <= k < i && (#[trigger] other.in_order()[k]).commit_id == x;
                        assert(0 <= k < i + 1);
                    }
                    assert(prior.dom().contains(x) || x == c.commit_id || !self@.dom().contains(x));
                }
                assert forall|x: Seq<char>| #[trigger] self@.dom().contains(x) implies self@[x] == (
                if exists|k: int| 0 <= k < i + 1 && (#[trigger] other.in_order()[k]).commit_id == x {
                    other@[x]
                } else {
                    before[x]
                }) by {
                    if x == c.commit_id {
                        assert(other.in_order()[i as int].commit_id == x);
                    } else {
                        assert(prior.dom().contains(x));
                    }
                }
            }
            i += 1;
        }
        proof {
            assert forall|x: Seq<char>| (exists|k: int|
                0 <= k < n && (#[trigger] other.in_order()[k]).commit_id == x)
                <==> other@.dom().contains(x) by {
                if other@.dom().contains(x) {
                    let k = choose|k: int|
                        0 <= k < other.in_order().len() && #[trigger] other.in_order()[k]
                            == other@[x];
                    assert(other.in_order()[k].commit_id == x);
                }
            }
            assert(self@ =~= before.union_prefer_right(other@));
        }
    }

    /// The first bookmark of that name, by the order of the commit IDs, with the change
    /// that carries it.
    pub fn get_bookmark<'a>(&'a self, bookmark: &str) -> (r: Option<Bookmark<'a>>)
        requires
            self.wf(),
        ensures
            match r {
                Some(b) => exists|i: int, j: int|
                    #![trigger self.in_order()[i].bookmarks[j]]
                    {
                        &&& 0 <= i < self.in_order().len()
                        &&& 0 <= j < self.in_order()[i].bookmarks.len()
                        &&& b.change@ == self.in_order()[i]
                        &&& b.info@ == self.in_order()[i].bookmarks[j]
                        &&& b.info@.name() == bookmark@
                        &&& forall|k: int|
                            0 <= k < i ==> !carries(#[trigger] self.in_order()[k], bookmark@)
                        &&& forall|k: int|
                            0 <= k < j ==> (#[trigger] self.in_order()[i].bookmarks[k]).name()
                                != bookmark@
                    },
                None => forall|id: Seq<char>| #[trigger]
                    self@.dom().contains(id) ==> !carries(self@[id], bookmark@),
            },
            r is None ==> carried_by_none(self@, bookmark@),
    {
        let n = self.len();
        let mut i: usize = 0;
        while i < n
            invariant
                self.wf(),
                n == self.in_order().len(),
                i <= n,
                forall|k: int| 0 <= k < i ==> !carries(#[trigger] self.in_order()[k], bookmark@),
            decreases n - i,
        {
            let change = self.change_at(i);
            let m = change.bookmarks.len();
            let mut j: usize = 0;
            assert(change@.bookmarks.len() == m);
            while j < m
                invariant
                    self.wf(),
                    i < self.in_order().len(),
                    change@ == self.in_order()[i as int],
                    m == change.bookmarks@.len(),
                    m == change@.bookmarks.len(),
                    j <= m,
                    forall|k: int| 0 <= k < i ==> !carries(#[trigger] self.in_order()[k], bookmark@),
                    forall|k: int|
                        0 <= k < j ==> (#[trigger] change@.bookmarks[k]).name() != bookmark@,
                decreases m - j,
            {
                let info = &change.bookmarks[j];
                assert(info@ == change@.bookmarks[j as int]);
                if text::str_eq(info.name(), bookmark) {
                    assert(self.in_order()[i as int].bookmarks[j as int] == info@);
                    return Some(Bookmark { info, change });
                }
                j += 1;
            }
            i += 1;
        }
        proof {
            self.lemma_in_order();
            assert forall|id: Seq<char>| #[trigger] self@.dom().contains(id) implies !carries(
                self@[id],
                bookmark@,
            ) by {
                let k = choose|k: int|
                    0 <= k < self.in_order().len() && #[trigger] self.in_order()[k] == self@[id];
                assert(!carries(self.in_order()[k], bookmark@));
            }
        }
        None
    }

    /// The bookmarks by name, each with its change. Where changes share a bookmark name,
    /// the last one in the order of the commit IDs stands.
    pub fn create_bookmark_map<'a>(&'a self) -> (m: OrderedMap<Bookmark<'a>>)
        requires
            self.wf(),
        ensures
            m.wf(),
            holds_last(m@, bookmark_pairs(self.in_order())),
    {
        let mut m: OrderedMap<Bookmark<'a>> = OrderedMap::new();
        let n = self.len();
        let mut i: usize = 0;
        assert(self.in_order().take(0) == Seq::<ChangeView>::empty());
        while i < n
            invariant
                self.wf(),
                n == self.in_order().len(),
                i <= n,
                m.wf(),
                holds_last(m@, bookmark_pairs(self.in_order().take(i as int))),
            decreases n - i,
        {
            let change = self.change_at(i);
            let count = change.bookmarks.len();
            let mut j: usize = 0;
            let ghost before = bookmark_pairs(self.in_order().take(i as int));
            assert(before + pairs_of(change@).take(0) == before);
            while j < count
                invariant
                    count == change.bookmarks@.len(),
                    j <= count,
                    m.wf(),
                    holds_last(m@, before + pairs_of(change@).take(j as int)),
                decreases count - j,
            {
                let b = Bookmark { info: &change.bookmarks[j], change };
                let name = b.info.name().to_owned();
                proof {
                    let done = before + pairs_of(change@).take(j as int);
                    lemma_holds_last_push(m@, done, b);
                    assert(done.push((b.info@, b.change@)) == before + pairs_of(change@).take(
                        j + 1,
                    ));
                }
                m.insert(name, b);
                j += 1;
            }
            proof {
                assert(pairs_of(change@).take(count as int) == pairs_of(change@));
                assert(self.in_order().take(i + 1).drop_last() == self.in_order().take(i as int));
                assert(self.in_order().take(i + 1).last() == change@);
            }
            i += 1;
        }
        assert(self.in_order().take(n as int) == self.in_order());
        m
    }

    /// The parents of every bookmark: the nearest bookmarks below the changes that carry
    /// it.
    pub fn create_adjacency_list(&self) -> (m: OrderedMap<TextSet>)
        requires
            self.wf(),
            parents_known(self@),
            parents_single(self@),
        ensures
            adjacency_wf(m),
            forall|name: Seq<char>| #[trigger]
                m@.dom().contains(name) <==> exists|id: Seq<char>| #[trigger]
                    self@.dom().contains(id) && carries(self@[id], name),
            names_all(m@, self@),
            forall|name: Seq<char>, parent: Seq<char>|
                m@.dom().contains(name) ==> (#[trigger] m@[name]@.contains(parent) <==> sits_on(
                    self@,
                    name,
                    parent,
                )),
    {
        let mut m: OrderedMap<TextSet> = OrderedMap::new();
        let n = self.len();
        let mut i: usize = 0;
        let ghost order = self.in_order();
        proof {
            self.lemma_in_order();
        }
        while i < n
            invariant
                self.wf(),
                parents_known(self@),
                parents_single(self@),
                order == self.in_order(),
                n == order.len(),
                i <= n,
                forall|k: int|
                    0 <= k < n ==> self@.dom().contains((#[trigger] order[k]).commit_id)
                        && self@[order[k].commit_id] == order[k],
                adjacency_of(m, self@, order, i as int, 0),
            decreases n - i,
        {
            let change = self.change_at(i);
            let ghost c = order[i as int];
            assert(change@ == c);
            assert forall|p: Seq<char>|
                text::texts(change.parent_commit_ids@).contains(p) implies self@.dom().contains(p)
                && self@[p].bookmarks.len() <= 1 by {
                assert(self@[c.commit_id].parent_commit_ids.contains(p));
            }
            let parents = self.nearest(&change.parent_commit_ids);
            let count = change.bookmarks.len();
            let mut j: usize = 0;
            while j < count
                invariant
                    count == change.bookmarks@.len(),
                    j <= count,
                    i < n,
                    n == order.len(),
                    change@ == c,
                    c == order[i as int],
                    parents.wf(),
                    parents@ == nearest_bookmarks(self@, c.parent_commit_ids),
                    adjacency_of(m, self@, order, i as int, j as int),
                decreases count - j,
            {
                let name = change.bookmarks[j].name();
                let mut all = match m.get(name) {
                    Some(known) => known.copy(),
                    None => TextSet::new(),
                };
                let ghost known = all@;
                all.extend(&parents);
                let ghost before = m;
                m.insert(name.to_owned(), all);
                proof {
                    assert(change.bookmarks@[j as int]@ == c.bookmarks[j as int]);
                    lemma_adjacency_step(before, m, self@, order, i as int, j as int);
                }
                j += 1;
            }
            proof {
                lemma_adjacency_row(m, self@, order, i as int);
            }
            i += 1;
        }
        proof {
            lemma_adjacency_done(m, *self);
        }
        m
    }

    /// The nearest bookmarks at or below the given parents.
    fn nearest(&self, parents: &Vec<String>) -> (r: TextSet)
        requires
            self.wf(),
            parents_known(self@),
            parents_single(self@),
            forall|p: Seq<char>|
                text::texts(parents@).contains(p) ==> self@.dom().contains(p)
                    && self@[p].bookmarks.len() <= 1,
        ensures
            r.wf(),
            r@ == nearest_bookmarks(self@, text::texts(parents@)),
    {
        let ghost m = self@;
        let ghost from = text::texts(parents@);
        let mut stack = text::clone_strings(parents);
        let mut visited = TextSet::new();
        let mut found = TextSet::new();
        proof {
            self.lemma_in_order();
            assert forall|x: Seq<char>| #[trigger] text::texts(stack@).contains(x) implies reached(
                m,
                from,
                x,
            ) by {
                lemma_reached_start(m, from, x);
            }
        }
        while stack.len() > 0
            invariant
                m == self@,
                self.wf(),
                parents_known(m),
                parents_single(m),
                m.dom().finite(),
                visited.wf(),
                found.wf(),
                forall|x: Seq<char>| #[trigger]
                    text::texts(stack@).contains(x) ==> reached(m, from, x) && m.dom().contains(x)
                        && m[x].bookmarks.len() <= 1,
                forall|x: Seq<char>| #[trigger]
                    visited@.contains(x) ==> reached(m, from, x) && m.dom().contains(x)
                        && m[x].bookmarks.len() <= 1,
                forall|x: Seq<char>| #[trigger]
                    from.contains(x) ==> visited@.contains(x) || text::texts(stack@).contains(x),
                forall|x: Seq<char>, p: Seq<char>|
                    visited@.contains(x) && m[x].bookmarks.len() == 0
                        && #[trigger] m[x].parent_commit_ids.contains(p) ==> visited@.contains(p)
                        || text::texts(stack@).contains(p),
                forall|name: Seq<char>| #[trigger]
                    found@.contains(name) <==> exists|x: Seq<char>| #[trigger]
                        visited@.contains(x) && m[x].bookmarks.len() == 1
                            && m[x].bookmarks[0].full_name() == name,
            decreases m.dom().len() - visited@.len(), stack@.len(),
        {
            let ghost stack0 = text::texts(stack@);
            let ghost visited0 = visited@;
            let ghost found0 = found@;
            proof {
                visited.lemma_items();
                vstd::set_lib::lemma_len_subset(visited@, m.dom());
            }
            let id = match stack.pop() {
                Some(id) => id,
                None => String::new(),
            };
            let ghost rest = text::texts(stack@);
            proof {
                assert(rest == stack0.drop_last());
                assert(id@ == stack0.last());
                assert(stack0.contains(id@));
                assert forall|x: Seq<char>| stack0.contains(x) implies x == id@ || rest.contains(
                    x,
                ) by {
                    let k = stack0.index_of(x);
                    if k < stack0.len() - 1 {
                        assert(rest[k] == x);
                    }
                }
                assert forall|x: Seq<char>| rest.contains(x) implies stack0.contains(x) by {
                    let k = rest.index_of(x);
                    assert(stack0[k] == x);
                }
            }
            if visited.contains(id.as_str()) {
                continue;
            }
            let change = match self.get(id.as_str()) {
                Some(change) => change,
                None => {
                    assert(false);
                    return found;
                },
            };
            visited.insert(id.clone());
            proof {
                visited.lemma_items();
                vstd::set_lib::lemma_len_subset(visited@, m.dom());
                assert(change@.bookmarks.len() == change.bookmarks@.len());
            }
            if change.bookmarks.len() == 0 {
                let more = text::clone_strings(&change.parent_commit_ids);
                let ghost added = text::texts(more@);
                proof {
                    assert forall|x: Seq<char>| added.contains(x) implies reached(m, from, x)
                        && m.dom().contains(x) && m[x].bookmarks.len() <= 1 by {
                        assert(m[id@].parent_commit_ids.contains(x));
                        lemma_reached_step(m, from, id@, x);
                    }
                }
                let mut extra = more;
                stack.append(&mut extra);
                proof {
                    assert(text::texts(stack@) == rest + added);
                    assert forall|x: Seq<char>| #[trigger] text::texts(stack@).contains(x)
                        <==> rest.contains(x) || added.contains(x) by {
                        let all = rest + added;
                        if all.contains(x) {
                            let k = all.index_of(x);
                            if k < rest.len() {
                                assert(rest[k] == x);
                            } else {
                                assert(added[k - rest.len()] == x);
                            }
                        }
                        if rest.contains(x) {
                            let k = rest.index_of(x);
                            assert(all[k] == x);
                        }
                        if added.contains(x) {
                            let k = added.index_of(x);
                            assert(all[k + rest.len()] == x);
                        }
                    }
                    assert forall|name: Seq<char>| #[trigger] found@.contains(name) <==> exists|
                        x: Seq<char>,
                    | #[trigger]
                        visited@.contains(x) && m[x].bookmarks.len() == 1
                            && m[x].bookmarks[0].full_name() == name by {
                        if exists|x: Seq<char>| #[trigger]
                            visited0.contains(x) && m[x].bookmarks.len() == 1
                                && m[x].bookmarks[0].full_name() == name {
                            let x = choose|x: Seq<char>| #[trigger]
                                visited0.contains(x) && m[x].bookmarks.len() == 1
                                    && m[x].bookmarks[0].full_name() == name;
                            assert(visited@.contains(x));
                        }
                        if exists|x: Seq<char>| #[trigger]
                            visited@.contains(x) && m[x].bookmarks.len() == 1
                                && m[x].bookmarks[0].full_name() == name {
                            let x = choose|x: Seq<char>| #[trigger]
                                visited@.contains(x) && m[x].bookmarks.len() == 1
                                    && m[x].bookmarks[0].full_name() == name;
                            assert(visited0.contains(x));
                        }
                    }
                }
            } else {
                let name = change.bookmarks[0].full_name();
                assert(name@ == m[id@].bookmarks[0].full_name());
                found.insert(name);
                proof {
                    assert forall|name: Seq<char>| #[trigger] found@.contains(name) <==> exists|
                        x: Seq<char>,
                    | #[trigger]
                        visited@.contains(x) && m[x].bookmarks.len() == 1
                            && m[x].bookmarks[0].full_name() == name by {
                        if found0.contains(name) {
                            let x = choose|x: Seq<char>| #[trigger]
                                visited0.contains(x) && m[x].bookmarks.len() == 1
                                    && m[x].bookmarks[0].full_name() == name;
                            assert(visited@.contains(x));
                        }
                        if name == m[id@].bookmarks[0].full_name() {
                            assert(visited@.contains(id@));
                        }
                        if exists|x: Seq<char>| #[trigger]
                            visited@.contains(x) && m[x].bookmarks.len() == 1
                                && m[x].bookmarks[0].full_name() == name {
                            let x = choose|x: Seq<char>| #[trigger]
                                visited@.contains(x) && m[x].bookmarks.len() == 1
                                    && m[x].bookmarks[0].full_name() == name;
                            assert(x == id@ || visited0.contains(x));
                        }
                    }
                }
            }
        }
        proof {
            assert(text::texts(stack@).len() == 0);
            assert forall|x: Seq<char>| reached(m, from, x) implies visited@.contains(x) by {
                let n = choose|n: nat| reached_in(m, from, x, n);
                lemma_closed(m, from, visited@, x, n);
            }
            assert forall|name: Seq<char>| #[trigger] found@.contains(name) <==> nearest_bookmarks(
                m,
                from,
            ).contains(name) by {
                if found@.contains(name) {
                    let x = choose|x: Seq<char>| #[trigger]
                        visited@.contains(x) && m[x].bookmarks.len() == 1
                            && m[x].bookmarks[0].full_name() == name;
                    assert(reached(m, from, x));
                }
                if nearest_bookmarks(m, from).contains(name) {
                    let x = choose|x: Seq<char>| #[trigger]
                        reached(m, from, x) && m[x].bookmarks.len() == 1
                            && m[x].bookmarks[0].full_name() == name;
                    assert(visited@.contains(x));
                }
            }
            assert(found@ =~= nearest_bookmarks(m, from));
        }
        found
    }
}

impl Default for ChangeMap {
    fn default() -> (m: ChangeMap)
        ensures
            m.wf(),
            m@ == Map::<Seq<char>, ChangeView>::empty(),
    {
        ChangeMap::new()
    }
}

// ---------------------------------------------------------------------------
// Made-up changes
// ---------------------------------------------------------------------------
/// A change without parents, bookmarks or description beyond its names.
pub open spec fn mock_change(
    key: Seq<char>,
    change_id: Seq<char>,
    bookmarks: Seq<BookmarkView>,
) -> ChangeView {
    ChangeView {
        commit_id: "commit_"@ + key,
        change_id,
        description: "description_"@ + key,
        parent_commit_ids: Seq::empty(),
        bookmarks,
        pending_bookmark: false,
    }
}

/// The texts that are not in `known`.
pub open spec fn not_among(new: Seq<Seq<char>>, known: Seq<Seq<char>>) -> Seq<Seq<char>> {
    new.filter(|s: Seq<char>| !known.contains(s))
}

/// The change with the given parents added, except those that it has already.
pub open spec fn with_parents(c: ChangeView, ids: Seq<Seq<char>>) -> ChangeView {
    ChangeView {
        parent_commit_ids: c.parent_commit_ids + not_among(ids, c.parent_commit_ids),
        ..c
    }
}

/// The change with the named bookmarks added, except those whose name it has already.
pub open spec fn with_bookmarks(c: ChangeView, bookmarks: Seq<Seq<char>>) -> ChangeView {
    ChangeView {
        bookmarks: c.bookmarks + bookmarks.map_values(|s: Seq<char>| jj::bookmark_of(s)).filter(
            |b: BookmarkView| !carries(c, b.name()),
        ),
        ..c
    }
}

/// The changes, each put on top of the one before it.
pub open spec fn stacked(changes: Seq<ChangeView>) -> Seq<ChangeView> {
    Seq::new(
        changes.len(),
        |i: int|
            if i == 0 {
                changes[0]
            } else {
                with_parents(changes[i], seq![changes[i - 1].commit_id])
            },
    )
}

impl Change {
    /// A made-up change, named after a change ID.
    pub fn mock_from_change_id(change_id: &str) -> (c: Change)
        ensures
            c@ == mock_change(change_id@, change_id@, Seq::empty()),
    {
        let c = Change {
            commit_id: "commit_".to_owned().concat(change_id),
            change_id: change_id.to_owned(),
            description: "description_".to_owned().concat(change_id),
            parent_commit_ids: Vec::new(),
            bookmarks: Vec::new(),
            pending_bookmark: false,
        };
        assert(c@ =~= mock_change(change_id@, change_id@, Seq::empty()));
        c
    }

    /// A made-up change that carries one bookmark.
    pub fn mock_from_bookmark(bookmark: &str) -> (c: Change)
        requires
            bookmark@.len() > 0,
        ensures
            c@ == mock_change(
                bookmark@,
                "change_"@ + bookmark@,
                seq![jj::bookmark_of(bookmark@)],
            ),
    {
        let mut bookmarks: Vec<BookmarkInfo> = Vec::new();
        if let Ok(info) = BookmarkInfo::parse(bookmark) {
            bookmarks.push(info);
        }
        let c = Change {
            commit_id: "commit_".to_owned().concat(bookmark),
            change_id: "change_".to_owned().concat(bookmark),
            description: "description_".to_owned().concat(bookmark),
            parent_commit_ids: Vec::new(),
            bookmarks,
            pending_bookmark: false,
        };
        assert(c@ =~= mock_change(
            bookmark@,
            "change_"@ + bookmark@,
            seq![jj::bookmark_of(bookmark@)],
        ));
        c
    }

    /// Adds the commit IDs to the parents, except those that are among them already.
    fn add_parents(self, ids: &Vec<String>) -> (c: Change)
        ensures
            c@ == with_parents(self@, text::texts(ids@)),
    {
        let mut c = self;
        let ghost known = text::texts(self.parent_commit_ids@);
        let ghost new = text::texts(ids@);
        let mut fresh: Vec<String> = Vec::new();
        let n = ids.len();
        let mut i: usize = 0;
        let ghost keep = |s: Seq<char>| !known.contains(s);
        while i < n
            invariant
                n == ids@.len(),
                i <= n,
                c == self,
                known == text::texts(self.parent_commit_ids@),
                new == text::texts(ids@),
                keep == (|s: Seq<char>| !known.contains(s)),
                text::texts(fresh@) == new.take(i as int).filter(keep),
            decreases n - i,
        {
            let known_already = text::contains_string(&c.parent_commit_ids, ids[i].as_str());
            proof {
                assert(new.take(i + 1).drop_last() == new.take(i as int));
                assert(new.take(i + 1).last() == new[i as int]);
                reveal(Seq::filter);
            }
            if !known_already {
                let ghost before = text::texts(fresh@);
                fresh.push(ids[i].clone());
                assert(text::texts(fresh@) == before.push(new[i as int]));
            }
            i += 1;
        }
        assert(new.take(n as int) == new);
        let ghost added = text::texts(fresh@);
        c.parent_commit_ids.append(&mut fresh);
        assert(text::texts(c.parent_commit_ids@) == known + added);
        c
    }

    /// Adds parents by commit ID, except those that the change has already.
    pub fn with_mock_parent_commit_ids(self, parent_commit_ids: Vec<&str>) -> (c: Change)
        ensures
            c@ == with_parents(self@, text::slices(parent_commit_ids@)),
    {
        let ids = text::to_strings(&parent_commit_ids);
        self.add_parents(&ids)
    }

    /// Adds parents by the bookmark that they were made from, except those that the change
    /// has already.
    pub fn with_mock_parent_bookmarks(self, parent_bookmarks: Vec<&str>) -> (c: Change)
        ensures
            c@ == with_parents(
                self@,
                text::slices(parent_bookmarks@).map_values(|s: Seq<char>| "commit_"@ + s),
            ),
    {
        let mut ids: Vec<String> = Vec::new();
        let n = parent_bookmarks.len();
        let mut i: usize = 0;
        let ghost all = text::slices(parent_bookmarks@).map_values(
            |s: Seq<char>| "commit_"@ + s,
        );
        while i < n
            invariant
                n == parent_bookmarks@.len(),
                i <= n,
                all == text::slices(parent_bookmarks@).map_values(|s: Seq<char>| "commit_"@ + s),
                text::texts(ids@) == all.take(i as int),
            decreases n - i,
        {
            let ghost before = text::texts(ids@);
            ids.push("commit_".to_owned().concat(parent_bookmarks[i]));
            assert(text::texts(ids@) == before.push(all[i as int]));
            i += 1;
        }
        assert(all.take(n as int) == all);
        self.add_parents(&ids)
    }

    /// Whether the change carries a bookmark of that name.
    fn carries_name(&self, name: &str) -> (r: bool)
        ensures
            r == carries(self@, name@),
    {
        let n = self.bookmarks.len();
        let mut i: usize = 0;
        while i < n
            invariant
                n == self.bookmarks@.len(),
                i <= n,
                forall|k: int| 0 <= k < i ==> (#[trigger] self@.bookmarks[k]).name() != name@,
            decreases n - i,
        {
            assert(self.bookmarks@[i as int]@ == self@.bookmarks[i as int]);
            if text::str_eq(self.bookmarks[i].name(), name) {
                return true;
            }
            i += 1;
        }
        false
    }

    /// Adds bookmarks, except those whose name the change has already.
    pub fn with_mock_bookmarks(self, bookmarks: Vec<&str>) -> (c: Change)
        requires
            forall|i: int| 0 <= i < bookmarks@.len() ==> (#[trigger] bookmarks@[i])@.len() > 0,
        ensures
            c@ == with_bookmarks(self@, text::slices(bookmarks@)),
    {
        let mut c = self;
        let ghost known = self@;
        let ghost new = text::slices(bookmarks@).map_values(|s: Seq<char>| jj::bookmark_of(s));
        let ghost keep = |b: BookmarkView| !carries(known, b.name());
        let mut fresh: Vec<BookmarkInfo> = Vec::new();
        let n = bookmarks.len();
        let mut i: usize = 0;
        while i < n
            invariant
                n == bookmarks@.len(),
                i <= n,
                c == self,
                known == self@,
                new == text::slices(bookmarks@).map_values(|s: Seq<char>| jj::bookmark_of(s)),
                keep == (|b: BookmarkView| !carries(known, b.name())),
                forall|i: int| 0 <= i < bookmarks@.len() ==> (#[trigger] bookmarks@[i])@.len() > 0,
                jj::bookmark_views(fresh@) == new.take(i as int).filter(keep),
            decreases n - i,
        {
            proof {
                assert(new.take(i + 1).drop_last() == new.take(i as int));
                assert(new.take(i + 1).last() == new[i as int]);
                reveal(Seq::filter);
            }
            if let Ok(info) = BookmarkInfo::parse(bookmarks[i]) {
                assert(info@ == new[i as int]);
                if !c.carries_name(info.name()) {
                    let ghost before = jj::bookmark_views(fresh@);
                    fresh.push(info);
                    assert(jj::bookmark_views(fresh@) == before.push(new[i as int]));
                }
            }
            i += 1;
        }
        assert(new.take(n as int) == new);
        let ghost added = jj::bookmark_views(fresh@);
        c.bookmarks.append(&mut fresh);
        assert(jj::bookmark_views(c.bookmarks@) == known.bookmarks + added);
        c
    }

    /// A made-up stack: each change on top of the one before it. The first is the root.
    pub fn mock_stack(changes: Vec<Change>) -> (stack: Vec<Change>)
        ensures
            jj::change_views(stack@) == stacked(jj::change_views(changes@)),
    {
        let mut stack: Vec<Change> = Vec::new();
        let n = changes.len();
        let mut i: usize = 0;
        let ghost given = jj::change_views(changes@);
        while i < n
            invariant
                n == changes@.len(),
                i <= n,
                given == jj::change_views(changes@),
                jj::change_views(stack@) == stacked(given).take(i as int),
            decreases n - i,
        {
            let ghost before = jj::change_views(stack@);
            let change = changes[i].clone();
            assert(change@ == given[i as int]);
            if i == 0 {
                stack.push(change);
                assert(jj::change_views(stack@) == before.push(stacked(given)[0]));
            } else {
                let mut below: Vec<String> = Vec::new();
                assert(jj::change_views(stack@).len() == i);
                assert(jj::change_views(stack@)[i - 1] == stacked(given)[i - 1]);
                below.push(stack[i - 1].commit_id.clone());
                proof {
                    assert(stack@[i - 1]@ == stacked(given)[i - 1]);
                    assert(text::texts(below@) == seq![given[i - 1].commit_id]);
                }
                let change = change.add_parents(&below);
                stack.push(change);
                assert(jj::change_views(stack@) == before.push(stacked(given)[i as int]));
            }
            i += 1;
        }
        assert(stacked(given).take(n as int) == stacked(given));
        stack
    }

    /// A made-up stack, by commit ID. Where two changes share a commit ID, the last stands.
    pub fn mock_stack_map(changes: Vec<Change>) -> (m: ChangeMap)
        ensures
            m.wf(),
            m@ == by_commit_id(stacked(jj::change_views(changes@))),
    {
        let stack = Change::mock_stack(changes);
        let ghost all = jj::change_views(stack@);
        let mut m = ChangeMap::new();
        let n = stack.len();
        let mut i: usize = 0;
        while i < n
            invariant
                n == stack@.len(),
                i <= n,
                all == jj::change_views(stack@),
                m.wf(),
                m@ == by_commit_id(all.take(i as int)),
            decreases n - i,
        {
            m.insert(stack[i].clone());
            proof {
                assert(all.take(i + 1).drop_last() == all.take(i as int));
                assert(all.take(i + 1).last() == all[i as int]);
            }
            i += 1;
        }
        assert(all.take(n as int) == all);
        m
    }
}

/// The changes under their commit IDs; of several with one ID, the last.
pub open spec fn by_commit_id(changes: Seq<ChangeView>) -> Map<Seq<char>, ChangeView>
    decreases changes.len(),
{
    if changes.len() == 0 {
        Map::empty()
    } else {
        by_commit_id(changes.drop_last()).insert(changes.last().commit_id, changes.last())
    }
}

// ---------------------------------------------------------------------------
// Laws
// ---------------------------------------------------------------------------
/// `way` leads from a parent of the change `id` down over changes without bookmarks, from each to one
/// of its parents, to a change with exactly one bookmark.
pub open spec fn leads_down(
    m: Map<Seq<char>, ChangeView>,
    id: Seq<char>,
    way: Seq<Seq<char>>,
) -> bool {
    &&& way.len() > 0
    &&& m[id].parent_commit_ids.contains(way[0])
    &&& forall|i: int|
        0 <= i < way.len() - 1 ==> m.dom().contains(#[trigger] way[i]) && m[way[i]].bookmarks.len()
            == 0 && m[way[i]].parent_commit_ids.contains(way[i + 1])
    &&& m[way.last()].bookmarks.len() == 1
}

proof fn lemma_way_reaches(
    m: Map<Seq<char>, ChangeView>,
    id: Seq<char>,
    way: Seq<Seq<char>>,
    k: int,
)
    requires
        way.len() > 0,
        m[id].parent_commit_ids.contains(way[0]),
        forall|i: int|
            0 <= i < way.len() - 1 ==> m.dom().contains(#[trigger] way[i])
                && m[way[i]].bookmarks.len() == 0 && m[way[i]].parent_commit_ids.contains(
                way[i + 1],
            ),
        0 <= k < way.len(),
    ensures
        reached_in(m, m[id].parent_commit_ids, way[k], k as nat),
    decreases k,
{
    if k > 0 {
        lemma_way_reaches(m, id, way, k - 1);
        assert(m.dom().contains(way[k - 1]));
        assert(passes_on(m, way[k - 1], way[k - 1 + 1]));
    }
}

spec fn leads_to(
    m: Map<Seq<char>, ChangeView>,
    id: Seq<char>,
    way: Seq<Seq<char>>,
    end: Seq<char>,
) -> bool {
    &&& way.len() > 0
    &&& way.last() == end
    &&& m[id].parent_commit_ids.contains(way[0])
    &&& forall|i: int|
        0 <= i < way.len() - 1 ==> m.dom().contains(#[trigger] way[i]) && m[way[i]].bookmarks.len()
            == 0 && m[way[i]].parent_commit_ids.contains(way[i + 1])
}

proof fn lemma_reached_by_a_way(
    m: Map<Seq<char>, ChangeView>,
    id: Seq<char>,
    end: Seq<char>,
    n: nat,
) -> (way: Seq<Seq<char>>)
    requires
        reached_in(m, m[id].parent_commit_ids, end, n),
    ensures
        leads_to(m, id, way, end),
    decreases n,
{
    if n == 0 {
        seq![end]
    } else {
        let mid = choose|mid: Seq<char>| #[trigger]
            passes_on(m, mid, end) && reached_in(
                m,
                m[id].parent_commit_ids,
                mid,
                (n - 1) as nat,
            );
        let before = lemma_reached_by_a_way(m, id, mid, (n - 1) as nat);
        let way = before.push(end);
        assert forall|i: int| 0 <= i < way.len() - 1 implies m.dom().contains(#[trigger] way[i])
            && m[way[i]].bookmarks.len() == 0 && m[way[i]].parent_commit_ids.contains(
            way[i + 1],
        ) by {
            if i < before.len() - 1 {
                assert(way[i] == before[i] && way[i + 1] == before[i + 1]);
            } else {
                assert(way[i] == mid);
            }
        }
        way
    }
}

/// A bookmark sits on the bookmarks that the ways down from its change lead to first: over parents,
/// past changes without bookmarks, to a change that has one. It sits on no other.
pub proof fn bookmark_sits_on_the_nearest_below(
    changes: ChangeMap,
    m: OrderedMap<TextSet>,
    id: Seq<char>,
    i: int,
    way: Seq<Seq<char>>,
    parent: Seq<char>,
)
    requires
        call_ensures(ChangeMap::create_adjacency_list, (&changes,), m),
    ensures
        ({
            let all = changes@;
            let name = all[id].bookmarks[i].name();
            &&& all.dom().contains(id) && 0 <= i < all[id].bookmarks.len() ==> m@.dom().contains(name)
                && (leads_down(all, id, way) ==> m@[name]@.contains(
                all[way.last()].bookmarks[0].full_name(),
            ))
            &&& m@.dom().contains(parent) ==> exists|x: Seq<char>| #[trigger]
                all.dom().contains(x) && carries(all[x], parent)
        }),
        forall|name: Seq<char>|
            m@.dom().contains(name) && #[trigger] m@[name]@.contains(parent) ==> exists|
                x: Seq<char>,
                w: Seq<Seq<char>>,
            |
                changes@.dom().contains(x) && carries(changes@[x], name) && #[trigger] leads_down(
                    changes@,
                    x,
                    w,
                ) && changes@[w.last()].bookmarks[0].full_name() == parent,
{
    let all = changes@;
    if all.dom().contains(id) && 0 <= i < all[id].bookmarks.len() {
        let name = all[id].bookmarks[i].name();
        assert(all[id].bookmarks[i].name() == name);
        assert(carries(all[id], name));
        assert(exists|x: Seq<char>| #[trigger] changes@.dom().contains(x) && carries(
            changes@[x],
            name,
        ));
        assert(m@.dom().contains(name));
        if leads_down(all, id, way) {
            lemma_way_reaches(all, id, way, way.len() - 1);
            assert(reached(all, all[id].parent_commit_ids, way.last()));
            assert(sits_on(all, name, all[way.last()].bookmarks[0].full_name()));
        }
    }
    assert forall|name: Seq<char>|
        m@.dom().contains(name) && #[trigger] m@[name]@.contains(parent) implies exists|
        x: Seq<char>,
        w: Seq<Seq<char>>,
    |
        all.dom().contains(x) && carries(all[x], name) && #[trigger] leads_down(all, x, w)
            && all[w.last()].bookmarks[0].full_name() == parent by {
        assert(sits_on(all, name, parent));
        let x = choose|x: Seq<char>| #[trigger]
            all.dom().contains(x) && carries(all[x], name) && nearest_bookmarks(
                all,
                all[x].parent_commit_ids,
            ).contains(parent);
        let from = all[x].parent_commit_ids;
        let end = choose|end: Seq<char>| #[trigger]
            reached(all, from, end) && all[end].bookmarks.len() == 1
                && all[end].bookmarks[0].full_name() == parent;
        let n = choose|n: nat| reached_in(all, from, end, n);
        let w = lemma_reached_by_a_way(all, x, end, n);
        assert(leads_down(all, x, w));
    }
}

proof fn lemma_pairs_hold(changes: Seq<ChangeView>, i: int, j: int) -> (k: int)
    requires
        0 <= i < changes.len(),
        0 <= j < changes[i].bookmarks.len(),
    ensures
        0 <= k < bookmark_pairs(changes).len(),
        bookmark_pairs(changes)[k] == (changes[i].bookmarks[j], changes[i]),
    decreases changes.len(),
{
    let before = changes.drop_last();
    let n = bookmark_pairs(before).len() as int;
    if i < before.len() {
        let k = lemma_pairs_hold(before, i, j);
        assert(bookmark_pairs(changes)[k] == bookmark_pairs(before)[k]);
        k
    } else {
        assert(bookmark_pairs(changes)[n + j] == pairs_of(changes.last())[j]);
        n + j
    }
}

proof fn lemma_pairs_come_from(changes: Seq<ChangeView>, k: int) -> (r: (int, int))
    requires
        0 <= k < bookmark_pairs(changes).len(),
    ensures
        0 <= r.0 < changes.len(),
        0 <= r.1 < changes[r.0].bookmarks.len(),
        bookmark_pairs(changes)[k] == (changes[r.0].bookmarks[r.1], changes[r.0]),
    decreases changes.len(),
{
    let before = changes.drop_last();
    let n = bookmark_pairs(before).len() as int;
    if k < n {
        let r = lemma_pairs_come_from(before, k);
        assert(bookmark_pairs(changes)[k] == bookmark_pairs(before)[k]);
        r
    } else {
        assert(bookmark_pairs(changes)[k] == pairs_of(changes.last())[k - n]);
        (changes.len() - 1, k - n)
    }
}

/// Every bookmark of every change is in the map under its name, and what is in the map is a bookmark
/// of that name, with a change of the repository that carries it.
pub proof fn bookmark_map_holds_every_bookmark(
    changes: ChangeMap,
    m: OrderedMap<Bookmark>,
    id: Seq<char>,
    i: int,
    name: Seq<char>,
)
    requires
        changes.wf(),
        call_ensures(ChangeMap::create_bookmark_map, (&changes,), m),
    ensures
        changes@.dom().contains(id) && 0 <= i < changes@[id].bookmarks.len() ==> m@.dom().contains(
            changes@[id].bookmarks[i].name(),
        ),
        m@.dom().contains(name) ==> {
            let b = m@[name];
            &&& b.info@.name() == name
            &&& changes@.dom().contains(b.change@.commit_id)
            &&& changes@[b.change@.commit_id] == b.change@
            &&& b.change@.bookmarks.contains(b.info@)
        },
{
    changes.lemma_in_order();
    let order = changes.in_order();
    let pairs = bookmark_pairs(order);
    if changes@.dom().contains(id) && 0 <= i < changes@[id].bookmarks.len() {
        let at = choose|at: int| 0 <= at < order.len() && #[trigger] order[at] == changes@[id];
        let k = lemma_pairs_hold(order, at, i);
        assert(m@.dom().contains(pairs[k].0.name()));
    }
    if m@.dom().contains(name) {
        let k = choose|k: int|
            0 <= k < pairs.len() && #[trigger] pairs[k] == (m@[name].info@, m@[name].change@)
                && pairs[k].0.name() == name && forall|l: int|
                k < l < pairs.len() ==> (#[trigger] pairs[l]).0.name() != name;
        let (at, j) = lemma_pairs_come_from(order, k);
        assert(order[at].bookmarks[j] == m@[name].info@);
        assert(changes@.dom().contains(order[at].commit_id));
    }
}

/// A bookmark is found exactly where some change carries one of that name, and it is one of that
/// name, with the change that carries it.
pub proof fn carried_bookmark_is_found(
    changes: ChangeMap,
    name: &str,
    r: Option<Bookmark>,
    id: Seq<char>,
    i: int,
)
    requires
        changes.wf(),
        call_ensures(ChangeMap::get_bookmark, (&changes, name), r),
    ensures
        changes@.dom().contains(id) && 0 <= i < changes@[id].bookmarks.len()
            && changes@[id].bookmarks[i].name() == name@ ==> r is Some,
        r matches Some(b) ==> {
            &&& b.info@.name() == name@
            &&& changes@.dom().contains(b.change@.commit_id)
            &&& changes@[b.change@.commit_id] == b.change@
            &&& b.change@.bookmarks.contains(b.info@)
        },
{
    changes.lemma_in_order();
    if changes@.dom().contains(id) && 0 <= i < changes@[id].bookmarks.len()
        && changes@[id].bookmarks[i].name() == name@ {
        assert(carries(changes@[id], name@));
    }
}

/// A change that was put in stands under its own commit ID; what stood under another stays.
pub proof fn change_stands_under_its_commit_id(m: &mut ChangeMap, change: Change, id: Seq<char>)
    requires
        old(m).wf(),
        call_ensures(ChangeMap::insert, (m, change), ()),
    ensures
        final(m)@.dom().contains(change.commit_id@),
        final(m)@[change.commit_id@] == change@,
        id != change.commit_id@ ==> (final(m)@.dom().contains(id) <==> old(m)@.dom().contains(id))
            && final(m)@[id] == old(m)@[id],
{
}

/// In a made-up stack every change keeps what it says and has the one before it among its parents.
pub proof fn stack_puts_each_on_the_one_before(changes: Vec<Change>, stack: Vec<Change>, i: int)
    requires
        call_ensures(Change::mock_stack, (changes,), stack),
    ensures
        stack@.len() == changes@.len(),
        0 <= i < changes@.len() ==> stack@[i].commit_id@ == changes@[i].commit_id@
            && stack@[i].change_id@ == changes@[i].change_id@ && stack@[i].description@
            == changes@[i].description@ && jj::bookmark_views(stack@[i].bookmarks@)
            == jj::bookmark_views(changes@[i].bookmarks@),
        0 < i < changes@.len() ==> text::texts(stack@[i].parent_commit_ids@).contains(
            changes@[i - 1].commit_id@,
        ),
{
    let given = jj::change_views(changes@);
    let made = jj::change_views(stack@);
    assert(made.len() == stack@.len() && given.len() == changes@.len());
    if 0 <= i < changes@.len() {
        assert(made[i] == stack@[i]@);
        assert(given[i] == changes@[i]@);
        if i > 0 {
            assert(given[i - 1] == changes@[i - 1]@);
            let below = given[i - 1].commit_id;
            let known = given[i].parent_commit_ids;
            let f = |s: Seq<char>| !known.contains(s);
            let added = seq![below].filter(f);
            let all = known + added;
            if !known.contains(below) {
                seq![below].lemma_filter_contains(f, 0);
                let k = added.index_of(below);
                assert(all[known.len() + k] == below);
            } else {
                let k = known.index_of(below);
                assert(all[k] == below);
            }
        }
    }
}

/// A made-up change is named after what it is made from.
pub proof fn made_up_changes_have_their_names(
    key: &str,
    c: Change,
    d: Change,
    info: Result<BookmarkInfo, crate::error::Error>,
)
    requires
        call_ensures(Change::mock_from_change_id, (key,), c),
        call_ensures(Change::mock_from_bookmark, (key,), d),
        call_ensures(BookmarkInfo::parse, (key,), info),
        key@.len() > 0,
    ensures
        c.commit_id@ == "commit_"@ + key@,
        c.change_id@ == key@,
        c.description@ == "description_"@ + key@,
        c.bookmarks@.len() == 0,
        c.parent_commit_ids@.len() == 0,
        !c.pending_bookmark,
        d.commit_id@ == "commit_"@ + key@,
        d.change_id@ == "change_"@ + key@,
        d.description@ == "description_"@ + key@,
        d.bookmarks@.len() == 1,
        info is Ok && d.bookmarks@[0]@ == info->Ok_0@,
        d.parent_commit_ids@.len() == 0,
        !d.pending_bookmark,
{
    assert(jj::bookmark_views(c.bookmarks@).len() == c.bookmarks@.len());
    assert(jj::bookmark_views(d.bookmarks@).len() == d.bookmarks@.len());
    assert(jj::bookmark_views(d.bookmarks@)[0] == d.bookmarks@[0]@);
    assert(text::texts(c.parent_commit_ids@).len() == c.parent_commit_ids@.len());
    assert(text::texts(d.parent_commit_ids@).len() == d.parent_commit_ids@.len());
}

/// Where several changes carry a bookmark of one name, the one that is found is that of the first
/// commit ID, and the one that stands in the map that of the last.
pub proof fn first_is_found_and_last_stands(
    changes: ChangeMap,
    name: &str,
    r: Option<Bookmark>,
    m: OrderedMap<Bookmark>,
    id: Seq<char>,
)
    requires
        changes.wf(),
        call_ensures(ChangeMap::get_bookmark, (&changes, name), r),
        call_ensures(ChangeMap::create_bookmark_map, (&changes,), m),
        changes@.dom().contains(id),
        carries(changes@[id], name@),
    ensures
        r is Some,
        !text::text_lt(id, r->0.change@.commit_id),
        m@.dom().contains(name@),
        !text::text_lt(m@[name@].change@.commit_id, id),
{
    changes.lemma_in_order();
    let order = changes.in_order();
    let pairs = bookmark_pairs(order);
    let at = choose|at: int| 0 <= at < order.len() && #[trigger] order[at] == changes@[id];
    let j = choose|j: int| 0 <= j < changes@[id].bookmarks.len() && #[trigger] changes@[id].bookmarks[j].name() == name@;
    assert(order[at].commit_id == id);
    let b = r->0;
    let (i, l) = choose|i: int, l: int|
        #![trigger order[i].bookmarks[l]]
        {
            &&& 0 <= i < order.len()
            &&& 0 <= l < order[i].bookmarks.len()
            &&& b.change@ == order[i]
            &&& b.info@ == order[i].bookmarks[l]
            &&& b.info@.name() == name@
            &&& forall|k: int| 0 <= k < i ==> !carries(#[trigger] order[k], name@)
            &&& forall|k: int| 0 <= k < l ==> (#[trigger] order[i].bookmarks[k]).name() != name@
        };
    assert(carries(order[at], name@));
    assert(i <= at);
    lemma_not_before(order, i, at);
    let k = lemma_pairs_hold(order, at, j);
    assert(m@.dom().contains(pairs[k].0.name()));
    let p = choose|p: int|
        0 <= p < pairs.len() && #[trigger] pairs[p] == (m@[name@].info@, m@[name@].change@)
            && pairs[p].0.name() == name@ && forall|q: int|
            p < q < pairs.len() ==> (#[trigger] pairs[q]).0.name() != name@;
    assert(k <= p);
    let (x, y) = lemma_pairs_come_from(order, p);
    assert(order[x] == m@[name@].change@);
    lemma_pairs_in_order(order, x, y, p, at, j, k);
    lemma_not_before(order, at, x);
}

proof fn lemma_not_before(order: Seq<ChangeView>, a: int, b: int)
    requires
        0 <= a <= b < order.len(),
        forall|i: int, j: int|
            0 <= i < j < order.len() ==> text::text_lt(
                (#[trigger] order[i]).commit_id,
                (#[trigger] order[j]).commit_id,
            ),
    ensures
        !text::text_lt(order[b].commit_id, order[a].commit_id),
{
    let x = order[a].commit_id;
    let y = order[b].commit_id;
    text::lemma_text_lt_irreflexive(x);
    if a < b && text::text_lt(y, x) {
        text::lemma_text_lt_transitive(x, y, x);
    }
}

proof fn lemma_pairs_in_order(
    order: Seq<ChangeView>,
    x: int,
    y: int,
    p: int,
    at: int,
    j: int,
    k: int,
)
    requires
        0 <= x < order.len(),
        0 <= at < order.len(),
        0 <= p < bookmark_pairs(order).len(),
        0 <= k <= p,
        bookmark_pairs(order)[p] == (order[x].bookmarks[y], order[x]),
        bookmark_pairs(order)[k] == (order[at].bookmarks[j], order[at]),
        forall|i: int, j: int|
            0 <= i < j < order.len() ==> text::text_lt(
                (#[trigger] order[i]).commit_id,
                (#[trigger] order[j]).commit_id,
            ),
    ensures
        at <= x,
    decreases order.len(),
{
    if x < at {
        let before = order.drop_last();
        let n = bookmark_pairs(before).len() as int;
        assert forall|i: int, j: int| 0 <= i < j < before.len() implies text::text_lt(
            (#[trigger] before[i]).commit_id,
            (#[trigger] before[j]).commit_id,
        ) by {
            assert(before[i] == order[i] && before[j] == order[j]);
        }
        text::lemma_text_lt_irreflexive(order[x].commit_id);
        assert(text::text_lt(order[x].commit_id, order[at].commit_id));
        if p >= n {
            assert(bookmark_pairs(order)[p] == pairs_of(order.last())[p - n]);
            assert(order[x] == order.last());
            assert(text::text_lt(order[x].commit_id, order[order.len() - 1].commit_id));
        } else {
            assert(bookmark_pairs(order)[p] == bookmark_pairs(before)[p]);
            assert(bookmark_pairs(order)[k] == bookmark_pairs(before)[k]);
            let (u, v) = lemma_pairs_come_from(before, k);
            assert(before[u] == order[at]);
            text::lemma_text_lt_irreflexive(order[at].commit_id);
            if u < at {
                assert(text::text_lt(order[u].commit_id, order[at].commit_id));
            } else if at < u {
                assert(text::text_lt(order[at].commit_id, order[u].commit_id));
            }
            lemma_pairs_in_order(before, x, y, p, at, j, k);
        }
    }
}

/// Of two maps that are put together, the second decides where both have a change.
pub proof fn later_changes_decide(m: &mut ChangeMap, other: ChangeMap, id: Seq<char>)
    requires
        call_ensures(ChangeMap::extend, (m, other), ()),
    ensures
        other@.dom().contains(id) ==> final(m)@.dom().contains(id) && final(m)@[id] == other@[id],
        !other@.dom().contains(id) && old(m)@.dom().contains(id) ==> final(m)@.dom().contains(id)
            && final(m)@[id] == old(m)@[id],
        !other@.dom().contains(id) && !old(m)@.dom().contains(id) ==> !final(m)@.dom().contains(id),
{
}

proof fn lemma_added_parents(known: Seq<Seq<char>>, new: Seq<Seq<char>>, all: Seq<Seq<char>>, p: Seq<char>)
    requires
        all == known + not_among(new, known),
    ensures
        all.contains(p) <==> known.contains(p) || new.contains(p),
        all.take(known.len() as int) == known,
{
    let f = |s: Seq<char>| !known.contains(s);
    let added = new.filter(f);
    assert(all.take(known.len() as int) =~= known);
    if all.contains(p) {
        let i = all.index_of(p);
        if i < known.len() {
            assert(known[i] == p);
        } else {
            assert(added[i - known.len()] == p);
            new.lemma_filter_contains_rev(f, p);
        }
    }
    if known.contains(p) {
        let i = known.index_of(p);
        assert(all[i] == p);
    } else if new.contains(p) {
        let i = new.index_of(p);
        new.lemma_filter_contains(f, i);
        let j = added.index_of(p);
        assert(all[known.len() + j] == p);
    }
}

/// A change that gets parents keeps those that it has, in front, and has the given ones besides, and
/// no others; nothing else about it changes.
pub proof fn parents_are_added(c: Change, ids: Vec<&str>, r: Change, p: Seq<char>, i: int)
    requires
        call_ensures(Change::with_mock_parent_commit_ids, (c, ids), r),
    ensures
        text::texts(r.parent_commit_ids@).contains(p) <==> text::texts(
            c.parent_commit_ids@,
        ).contains(p) || text::slices(ids@).contains(p),
        0 <= i < c.parent_commit_ids@.len() ==> i < r.parent_commit_ids@.len()
            && r.parent_commit_ids@[i]@ == c.parent_commit_ids@[i]@,
        r.commit_id@ == c.commit_id@,
        r.change_id@ == c.change_id@,
        r.description@ == c.description@,
        jj::bookmark_views(r.bookmarks@) == jj::bookmark_views(c.bookmarks@),
        r.pending_bookmark == c.pending_bookmark,
{
    let known = text::texts(c.parent_commit_ids@);
    let all = text::texts(r.parent_commit_ids@);
    lemma_added_parents(known, text::slices(ids@), all, p);
    assert(known.len() == c.parent_commit_ids@.len() && all.len() == r.parent_commit_ids@.len());
    if 0 <= i < known.len() {
        assert(all.take(known.len() as int)[i] == all[i]);
        assert(known[i] == c.parent_commit_ids@[i]@);
        assert(all[i] == r.parent_commit_ids@[i]@);
    }
}

/// Parents that are given by a bookmark are the commits that were made up from it.
pub proof fn parents_are_added_by_bookmark(
    c: Change,
    names: Vec<&str>,
    r: Change,
    name: &str,
    parent: Change,
    i: int,
)
    requires
        call_ensures(Change::with_mock_parent_bookmarks, (c, names), r),
        0 <= i < names@.len(),
        name@ == names@[i]@,
        call_ensures(Change::mock_from_bookmark, (name,), parent),
    ensures
        text::texts(r.parent_commit_ids@).contains(parent.commit_id@),
        r.commit_id@ == c.commit_id@,
{
    let known = text::texts(c.parent_commit_ids@);
    let all = text::texts(r.parent_commit_ids@);
    let new = text::slices(names@).map_values(|s: Seq<char>| "commit_"@ + s);
    assert(text::slices(names@)[i] == name@);
    assert(new[i] == parent.commit_id@);
    assert(new.contains(parent.commit_id@));
    lemma_added_parents(known, new, all, parent.commit_id@);
}

/// A change that gets bookmarks keeps those that it has, in front, and carries every given one.
pub proof fn bookmarks_are_added(
    c: Change,
    names: Vec<&str>,
    r: Change,
    i: int,
    k: int,
    info: Result<BookmarkInfo, crate::error::Error>,
)
    requires
        call_ensures(Change::with_mock_bookmarks, (c, names), r),
        0 <= i < names@.len(),
        names@[i]@.len() > 0,
        call_ensures(BookmarkInfo::parse, (names@[i],), info),
    ensures
        info is Ok,
        carries(r@, info->Ok_0@.name()),
        !carries(c@, info->Ok_0@.name()) ==> r@.bookmarks.contains(info->Ok_0@),
        0 <= k < c.bookmarks@.len() ==> k < r.bookmarks@.len() && r.bookmarks@[k]@
            == c.bookmarks@[k]@,
        r.commit_id@ == c.commit_id@,
        r.change_id@ == c.change_id@,
{
    let known = c@.bookmarks;
    let f = |b: BookmarkView| !carries(c@, b.name());
    let new = text::slices(names@).map_values(|s: Seq<char>| jj::bookmark_of(s));
    let added = new.filter(f);
    let all = r@.bookmarks;
    let b = info->Ok_0@;
    assert(text::slices(names@)[i] == names@[i]@);
    assert(new[i] == b);
    assert(all == known + added);
    if carries(c@, b.name()) {
        let x = choose|x: int| 0 <= x < known.len() && #[trigger] known[x].name() == b.name();
        assert(all[x] == known[x]);
        assert(all[x].name() == b.name());
    } else {
        new.lemma_filter_contains(f, i);
        let x = added.index_of(b);
        assert(all[known.len() + x] == b);
        assert(all[known.len() + x].name() == b.name());
    }
    assert(known.len() == c.bookmarks@.len() && all.len() == r.bookmarks@.len());
    if 0 <= k < known.len() {
        assert(all[k] == known[k]);
        assert(all[k] == r.bookmarks@[k]@);
        assert(known[k] == c.bookmarks@[k]@);
    }
}

proof fn lemma_by_commit_id(changes: Seq<ChangeView>, i: int)
    requires
        0 <= i < changes.len(),
        forall|j: int| i < j < changes.len() ==> (#[trigger] changes[j]).commit_id
            != changes[i].commit_id,
    ensures
        by_commit_id(changes).dom().contains(changes[i].commit_id),
        by_commit_id(changes)[changes[i].commit_id] == changes[i],
    decreases changes.len(),
{
    if i < changes.len() - 1 {
        let before = changes.drop_last();
        assert forall|j: int| i < j < before.len() implies (#[trigger] before[j]).commit_id
            != before[i].commit_id by {
            assert(before[j] == changes[j]);
        }
        lemma_by_commit_id(before, i);
        assert(changes[changes.len() - 1].commit_id != changes[i].commit_id);
    }
}

/// A made-up stack by commit ID holds every change of the stack, but for one whose commit ID a later
/// one has too.
pub proof fn stack_map_holds_the_stack(
    changes: Vec<Change>,
    stack: Vec<Change>,
    m: ChangeMap,
    i: int,
)
    requires
        call_ensures(Change::mock_stack, (changes,), stack),
        call_ensures(Change::mock_stack_map, (changes,), m),
        0 <= i < stack@.len(),
        forall|j: int| i < j < stack@.len() ==> (#[trigger] stack@[j]).commit_id@
            != stack@[i].commit_id@,
    ensures
        m@.dom().contains(stack@[i].commit_id@),
        m@[stack@[i].commit_id@] == stack@[i]@,
{
    let all = jj::change_views(stack@);
    assert(all.len() == stack@.len());
    assert(all[i] == stack@[i]@);
    assert forall|j: int| i < j < all.len() implies (#[trigger] all[j]).commit_id
        != all[i].commit_id by {
        assert(all[j] == stack@[j]@);
        assert(stack@[j].commit_id@ != stack@[i].commit_id@);
    }
    lemma_by_commit_id(all, i);
}

} // verus!
