//! What the actions of a submission have in common.
use crate::error::Error;
use crate::ordered_map::OrderedMap;
use crate::style;
use crate::text;
use vstd::prelude::*;

verus! {

/// What an action did.
#[derive(Debug)]
pub enum ActionResultData {
    /// Bookmarks were pushed, or would have been.
    Pushed {
        bookmarks: Vec<String>,
        /// The bookmarks that were created, by change ID.
        created_bookmarks: OrderedMap<String>,
        /// Whether anything was pushed, so that the bookmarks show in the summary.
        pushed: bool,
    },
}

/// What an [`ActionResultData`] says.
#[verifier::ext_equal]
pub struct PushedView {
    pub bookmarks: Seq<Seq<char>>,
    pub created_bookmarks: Map<Seq<char>, Seq<char>>,
    pub pushed: bool,
}

impl View for ActionResultData {
    type V = PushedView;

    open spec fn view(&self) -> PushedView {
        match self {
            ActionResultData::Pushed { bookmarks, created_bookmarks, pushed } => PushedView {
                bookmarks: text::texts(bookmarks@),
                created_bookmarks: created_bookmarks@.map_values(|s: String| s@),
                pushed: *pushed,
            },
        }
    }
}

impl ActionResultData {
    /// The map of the created bookmarks is well-formed, so that it can be looked into.
    pub open spec fn wf(self) -> bool {
        match self {
            ActionResultData::Pushed { created_bookmarks, .. } => created_bookmarks.wf(),
        }
    }
}

/// Nothing was pushed, and nothing was created.
pub open spec fn nothing_pushed() -> PushedView {
    PushedView { bookmarks: Seq::empty(), created_bookmarks: Map::empty(), pushed: false }
}

/// What an action shows and returns.
#[derive(Debug)]
pub struct ActionReport {
    /// A line about something that is done.
    pub completed: Option<String>,
    /// A message for the operator.
    pub message: Option<String>,
    pub result: Result<ActionResultData, Error>,
}

/// `r` shows this and succeeds with this.
pub open spec fn reports(
    r: ActionReport,
    completed: Option<Seq<char>>,
    message: Option<Seq<char>>,
    result: PushedView,
) -> bool {
    &&& text::opt_text(r.completed) == completed
    &&& text::opt_text(r.message) == message
    &&& r.result is Ok
    &&& r.result->Ok_0.wf()
    &&& r.result->Ok_0@ == result
}

/// `r` shows this message and fails with it.
pub open spec fn reports_failure(r: ActionReport, message: Seq<char>) -> bool {
    &&& r.completed is None
    &&& text::opt_text(r.message) == Some(message)
    &&& crate::error::other_error(r.result, message)
}

/// What to do for an action.
#[derive(Debug)]
pub enum ActionStep {
    /// Nothing: this is the report.
    Done(ActionReport),
    /// Run this command, and report by what became of it.
    Run { argv: Vec<String> },
}

/// Names, highlighted and with commas between them.
pub open spec fn highlighted(names: Seq<Seq<char>>) -> Seq<char> {
    text::joined(names.map_values(|s: Seq<char>| style::magenta_text(s)), ", "@)
}

/// Names, highlighted and with commas between them.
pub fn highlight(names: &Vec<String>) -> (r: String)
    ensures
        r@ == highlighted(text::texts(names@)),
{
    let mut parts: Vec<String> = Vec::new();
    let n = names.len();
    let mut i: usize = 0;
    let ghost all = text::texts(names@).map_values(|s: Seq<char>| style::magenta_text(s));
    while i < n
        invariant
            n == names@.len(),
            i <= n,
            all == text::texts(names@).map_values(|s: Seq<char>| style::magenta_text(s)),
            text::texts(parts@) == all.take(i as int),
        decreases n - i,
    {
        let ghost before = text::texts(parts@);
        parts.push(style::magenta(names[i].as_str()));
        assert(text::texts(parts@) == before.push(all[i as int]));
        i += 1;
    }
    assert(all.take(n as int) == all);
    text::join(&parts, ", ")
}

/// How a preview names the push command.
pub open spec fn push_preview(argv: Option<Seq<Seq<char>>>) -> Seq<char> {
    match argv {
        Some(argv) => "via `"@ + text::joined(argv, " "@) + "`"@,
        None => "(pushing disabled)"@,
    }
}

/// How a preview names the push command.
pub fn preview_push(argv: &Option<Vec<String>>) -> (r: String)
    ensures
        r@ == push_preview(text::opt_texts(*argv)),
{
    match argv {
        Some(argv) => "via `".to_owned().concat(text::join(argv, " ").as_str()).concat("`"),
        None => "(pushing disabled)".to_owned(),
    }
}

/// The values under the keys; of several values for one key, the last.
pub open spec fn last_of_each(keys: Seq<Seq<char>>, values: Seq<Seq<char>>) -> Map<
    Seq<char>,
    Seq<char>,
>
    decreases keys.len(),
{
    if keys.len() == 0 || values.len() == 0 {
        Map::empty()
    } else {
        last_of_each(keys.drop_last(), values.drop_last()).insert(keys.last(), values.last())
    }
}

/// The values under the keys; of several values for one key, the last.
pub fn by_key(keys: &Vec<String>, values: &Vec<String>) -> (m: OrderedMap<String>)
    requires
        keys@.len() == values@.len(),
    ensures
        m.wf(),
        m@.map_values(|s: String| s@) == last_of_each(text::texts(keys@), text::texts(values@)),
{
    let mut m: OrderedMap<String> = OrderedMap::new();
    let n = keys.len();
    let mut i: usize = 0;
    let ghost ks = text::texts(keys@);
    let ghost vs = text::texts(values@);
    assert(m@.map_values(|s: String| s@) =~= Map::<Seq<char>, Seq<char>>::empty());
    while i < n
        invariant
            n == keys@.len(),
            n == values@.len(),
            i <= n,
            ks == text::texts(keys@),
            vs == text::texts(values@),
            m.wf(),
            m@.map_values(|s: String| s@) == last_of_each(ks.take(i as int), vs.take(i as int)),
        decreases n - i,
    {
        let ghost before = m@;
        m.insert(keys[i].clone(), values[i].clone());
        proof {
            assert(ks.take(i + 1).drop_last() == ks.take(i as int));
            assert(vs.take(i + 1).drop_last() == vs.take(i as int));
            assert(ks.take(i + 1).last() == ks[i as int]);
            assert(vs.take(i + 1).last() == vs[i as int]);
            assert(m@.map_values(|s: String| s@) =~= before.map_values(|s: String| s@).insert(
                ks[i as int],
                vs[i as int],
            ));
        }
        i += 1;
    }
    assert(ks.take(n as int) == ks);
    assert(vs.take(n as int) == vs);
    m
}

/// No values under no keys.
pub fn no_names() -> (m: OrderedMap<String>)
    ensures
        m.wf(),
        m@.map_values(|s: String| s@) == Map::<Seq<char>, Seq<char>>::empty(),
{
    let m: OrderedMap<String> = OrderedMap::new();
    assert(m@.map_values(|s: String| s@) =~= Map::<Seq<char>, Seq<char>>::empty());
    m
}

/// Every name stands in the highlighted list.
pub proof fn highlighting_shows_every_name(names: Seq<Seq<char>>, i: int)
    requires
        0 <= i < names.len(),
    ensures
        text::contains_text(highlighted(names), names[i]),
{
    let parts = names.map_values(|s: Seq<char>| style::magenta_text(s));
    style::lemma_magenta_shows(names[i]);
    assert(parts[i] == style::magenta_text(names[i]));
    text::lemma_contains_joined(parts, ", "@, i, names[i]);
}

/// Every key has a value, and the value of a key that does not come again is the one that was
/// given with it.
pub proof fn last_value_of_a_key_stays(keys: Seq<Seq<char>>, values: Seq<Seq<char>>, i: int)
    requires
        keys.len() == values.len(),
        0 <= i < keys.len(),
    ensures
        last_of_each(keys, values).dom().contains(keys[i]),
        (forall|j: int| i < j < keys.len() ==> #[trigger] keys[j] != keys[i]) ==> last_of_each(
            keys,
            values,
        )[keys[i]] == values[i],
    decreases keys.len(),
{
    let before = keys.drop_last();
    if i < before.len() {
        last_value_of_a_key_stays(before, values.drop_last(), i);
        if forall|j: int| i < j < keys.len() ==> #[trigger] keys[j] != keys[i] {
            assert(keys[keys.len() - 1] != keys[i]);
            assert forall|j: int| i < j < before.len() implies #[trigger] before[j] != before[i] by {
                assert(keys[j] != keys[i]);
            }
        }
    }
}

/// A key is one of those given, and its value is one that was given with it.
pub proof fn keys_come_with_their_values(
    keys: Seq<Seq<char>>,
    values: Seq<Seq<char>>,
    key: Seq<char>,
) -> (i: int)
    requires
        keys.len() == values.len(),
        last_of_each(keys, values).dom().contains(key),
    ensures
        0 <= i < keys.len(),
        keys[i] == key,
        last_of_each(keys, values)[key] == values[i],
    decreases keys.len(),
{
    if keys.last() == key {
        keys.len() - 1
    } else {
        keys_come_with_their_values(keys.drop_last(), values.drop_last(), key)
    }
}

/// A preview names every word of the push command, in order, and says where pushing is disabled.
pub proof fn preview_names_the_command(argv: Option<Vec<String>>, r: String, i: int, j: int)
    requires
        call_ensures(preview_push, (&argv,), r),
    ensures
        argv is None ==> r@ == "(pushing disabled)"@,
        argv matches Some(words) ==> {
            &&& 0 <= i < words@.len() ==> text::contains_text(r@, words@[i]@)
            &&& 0 <= i < words@.len() - 1 ==> text::contains_text(
                r@,
                words@[i]@ + " "@ + words@[i + 1]@,
            )
            &&& 0 <= i < j < words@.len() ==> text::comes_before(r@, words@[i]@, words@[j]@)
        },
{
    if let Some(list) = argv {
        let words = text::texts(list@);
        let line = text::joined(words, " "@);
        assert(words.len() == list@.len());
        if 0 <= i < words.len() {
            assert(words[i] == list@[i]@);
            text::lemma_contains_middle(Seq::empty(), words[i], Seq::empty());
            assert(Seq::<char>::empty() + words[i] + Seq::<char>::empty() =~= words[i]);
            text::lemma_contains_joined(words, " "@, i, words[i]);
            text::lemma_contains_inside("via `"@, line, "`"@, words[i]);
            if i < j < words.len() {
                assert(words[j] == list@[j]@);
                text::lemma_joined_in_order(words, " "@, i, j);
                text::lemma_before_inside("via `"@, line, "`"@, words[i], words[j]);
            }
        }
        if 0 <= i < words.len() - 1 {
            assert(words[i + 1] == list@[i + 1]@);
            let pair = words[i] + " "@ + words[i + 1];
            text::lemma_neighbours_joined(words, " "@, i);
            text::lemma_contains_inside("via `"@, line, "`"@, pair);
        }
    }
}

} // verus!
