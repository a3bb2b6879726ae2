//! The `submit` command: its options, its decisions and its summary.
use crate::action;
use crate::config;
use crate::config::{Config, ForgeType, RepoFetchConfig};
use crate::error;
use crate::error::Error;
use crate::jj;
use crate::jj::{Change, ChangeView};
use crate::merge_request::{MRUpdate, MRUpdateType};
use crate::stack_link;
use crate::stack_link::{OutcomeView, StackLinkOutcome};
use crate::style;
use crate::text;
use crate::text_set::TextSet;
use crate::wrap;
use crate::wrap::VisualWidth;
use cli_table::{Cell, Table};
use vstd::prelude::*;

verus! {

// ---------------------------------------------------------------------------
// Options
// ---------------------------------------------------------------------------
/// Options of the `submit` command.
#[derive(Debug)]
pub struct SubmitCommandConfig {
    /// Options for the revset.
    pub revset_options: SubmitCommandRevsetOptions,
    /// The remote to push to.
    pub remote: Option<String>,
    /// Only print what would be done.
    pub dry_run: bool,
    /// Show the submission plan and do not execute it.
    pub show_plan: bool,
    /// Create bookmarks for the changes in this revset that have none.
    pub create: Option<String>,
    /// Push with the built-in command, and run no hooks.
    pub no_hooks: bool,
}

/// Options for the revset.
#[derive(Debug)]
pub struct SubmitCommandRevsetOptions {
    /// The revset to submit, as an argument of its own.
    pub revset_positional: Option<String>,
    /// The revset to submit, behind a flag.
    pub revset: Option<String>,
    /// Submit all tracked bookmarks.
    pub all_tracked: bool,
}

impl Default for SubmitCommandRevsetOptions {
    fn default() -> (r: Self)
        ensures
            r.revset_positional is None,
            r.revset is None,
            !r.all_tracked,
    {
        SubmitCommandRevsetOptions { revset_positional: None, revset: None, all_tracked: false }
    }
}

impl Default for SubmitCommandConfig {
    fn default() -> (r: Self)
        ensures
            r.revset_options.revset_positional is None,
            r.revset_options.revset is None,
            !r.revset_options.all_tracked,
            r.remote is None,
            !r.dry_run,
            !r.show_plan,
            r.create is None,
            !r.no_hooks,
    {
        SubmitCommandConfig {
            revset_options: SubmitCommandRevsetOptions::default(),
            remote: None,
            dry_run: false,
            show_plan: false,
            create: None,
            no_hooks: false,
        }
    }
}

/// Which bookmarks to work on.
#[derive(Debug)]
pub enum GetBookmarksOptions {
    /// Those in a revset.
    Revset(String),
    /// All tracked ones.
    AllTracked,
}

impl GetBookmarksOptions {
    /// The revset of these bookmarks.
    pub fn to_revset(&self) -> (r: String)
        ensures
            r@ == (match *self {
                GetBookmarksOptions::Revset(revset) => revset@,
                GetBookmarksOptions::AllTracked =>
                    "(mine() & tracked_remote_bookmarks()) ~ trunk()"@,
            }),
    {
        match self {
            GetBookmarksOptions::Revset(revset) => revset.clone(),
            GetBookmarksOptions::AllTracked =>
                "(mine() & tracked_remote_bookmarks()) ~ trunk()".to_owned(),
        }
    }
}

/// The revset that the options ask for: the one that is given, in either way but not in both,
/// all tracked bookmarks, or else what bookmarks are to be created for.
pub open spec fn chosen_revset(c: SubmitCommandConfig) -> Option<Seq<char>> {
    let o = c.revset_options;
    if !o.all_tracked && o.revset_positional is Some && o.revset is None {
        Some(o.revset_positional->0@)
    } else if !o.all_tracked && o.revset_positional is None && o.revset is Some {
        Some(o.revset->0@)
    } else if o.all_tracked && o.revset_positional is None && o.revset is None {
        Some("(mine() & tracked_remote_bookmarks()) ~ trunk()"@)
    } else if !o.all_tracked && o.revset_positional is None && o.revset is None && c.create is Some {
        Some(c.create->0@)
    } else {
        None
    }
}

/// What is said where the options name no revset.
pub open spec fn no_revset_message() -> Seq<char> {
    "You must specify a revset to submit with a positional argument, with the -r option, or with the --tracked option. You can also use the -c option to create bookmarks for changes that don't have one."@
}

impl SubmitCommandConfig {
    /// Which bookmarks to submit.
    pub fn to_get_bookmarks_options(&self) -> (r: Result<GetBookmarksOptions, Error>)
        ensures
            match chosen_revset(*self) {
                Some(revset) => match r {
                    Ok(GetBookmarksOptions::Revset(s)) => !self.revset_options.all_tracked && s@
                        == revset,
                    Ok(GetBookmarksOptions::AllTracked) => self.revset_options.all_tracked,
                    Err(_) => false,
                },
                None => error::other_error(r, no_revset_message()),
            },
    {
        let o = &self.revset_options;
        match (&o.revset_positional, &o.revset, o.all_tracked, &self.create) {
            (Some(revset), None, false, _) => Ok(GetBookmarksOptions::Revset(revset.clone())),
            (None, Some(revset), false, _) => Ok(GetBookmarksOptions::Revset(revset.clone())),
            (None, None, true, _) => Ok(GetBookmarksOptions::AllTracked),
            (None, None, false, Some(create)) => Ok(GetBookmarksOptions::Revset(create.clone())),
            _ => Err(
                Error::Other {
                    message:
                        "You must specify a revset to submit with a positional argument, with the -r option, or with the --tracked option. You can also use the -c option to create bookmarks for changes that don't have one.".to_owned(),
                },
            ),
        }
    }

    /// The long help text.
    pub fn help_long() -> (r: String)
        ensures
            r@ == text::trim(
                "\nSubmit one or more bookmarks to the code forge.\nThis command will create merge requests that don't exist, update\nexisting merge requests to the correct target branch, and sync all\nmerge request descriptions.\n\n"@
                    + style::bold_text(style::yellow_text("Examples:"@))
                    + "\n\nSubmit a single bookmark:\n"@ + style::bold_text(
                    style::green_text("jj vine submit <bookmark>"@),
                ) + "\n\nSubmit all tracked bookmarks:\n"@ + style::bold_text(
                    style::green_text("jj vine submit --tracked"@),
                ) + "\n\nPreview submitting a revset without making changes:\n"@
                    + style::bold_text(
                    style::green_text("jj vine submit -r <revset> --dry-run"@),
                ) + "\n"@,
            ),
    {
        let help =
            "\nSubmit one or more bookmarks to the code forge.\nThis command will create merge requests that don't exist, update\nexisting merge requests to the correct target branch, and sync all\nmerge request descriptions.\n\n".to_owned().concat(
            style::bold(style::yellow("Examples:").as_str()).as_str(),
        ).concat("\n\nSubmit a single bookmark:\n").concat(
            style::bold(style::green("jj vine submit <bookmark>").as_str()).as_str(),
        ).concat("\n\nSubmit all tracked bookmarks:\n").concat(
            style::bold(style::green("jj vine submit --tracked").as_str()).as_str(),
        ).concat("\n\nPreview submitting a revset without making changes:\n").concat(
            style::bold(style::green("jj vine submit -r <revset> --dry-run").as_str()).as_str(),
        ).concat("\n");
        text::str_trim(help.as_str()).to_owned()
    }
}

// ---------------------------------------------------------------------------
// The linked stacks
// ---------------------------------------------------------------------------
/// The lines on linked stacks.
pub open spec fn stack_lines(stacks: Seq<Seq<u64>>) -> Seq<char>
    decreases stacks.len(),
{
    if stacks.len() == 0 {
        Seq::empty()
    } else {
        stack_lines(stacks.drop_last()) + style::bold_text(style::green_text("Stacked:"@)) + " "@
            + stack_link::prs_text(stacks.last(), " → "@) + "\n"@
    }
}

/// The lines on what was not linked.
pub open spec fn note_lines(notes: Seq<Seq<char>>) -> Seq<char>
    decreases notes.len(),
{
    if notes.len() == 0 {
        Seq::empty()
    } else {
        note_lines(notes.drop_last()) + style::yellow_text("Note: "@ + notes.last()) + "\n"@
    }
}

/// What is shown of the outcome of a stack link.
pub open spec fn rendered_outcome(outcome: OutcomeView) -> Seq<char> {
    match outcome {
        OutcomeView::Linked { stacks, unlinked } => stack_lines(stacks) + note_lines(unlinked),
        OutcomeView::Failed { warning } => style::yellow_text("Warning: "@ + warning) + "\n"@,
        OutcomeView::Skipped(_) => Seq::empty(),
    }
}

/// Shows the outcome of a stack link: a line per stack and note, or a warning. Nothing is
/// shown where it was skipped.
pub fn render_stack_link_outcome(output: &mut String, outcome: &StackLinkOutcome)
    ensures
        final(output)@ == old(output)@ + rendered_outcome(outcome@),
{
    let ghost start = output@;
    match outcome {
        StackLinkOutcome::Linked { stacks, unlinked } => {
            let n = stacks.len();
            let mut i: usize = 0;
            let ghost all = stack_link::stack_views(stacks@);
            assert(all.take(0) =~= Seq::<Seq<u64>>::empty());
            assert(start + Seq::<char>::empty() =~= start);
            while i < n
                invariant
                    n == stacks@.len(),
                    i <= n,
                    all == stack_link::stack_views(stacks@),
                    output@ == start + stack_lines(all.take(i as int)),
                decreases n - i,
            {
                let ghost before = output@;
                let ghost done = stack_lines(all.take(i as int));
                output.append(style::bold(style::green("Stacked:").as_str()).as_str());
                output.append(" ");
                output.append(stack_link::write_prs(&stacks[i], " → ").as_str());
                output.append("\n");
                proof {
                    assert(all.take(i + 1).drop_last() == all.take(i as int));
                    assert(all.take(i + 1).last() == stacks@[i as int]@);
                    assert(output@ =~= start + stack_lines(all.take(i + 1)));
                }
                i += 1;
            }
            assert(all.take(n as int) == all);
            let ghost mid = output@;
            let m = unlinked.len();
            let mut j: usize = 0;
            let ghost notes = text::texts(unlinked@);
            assert(notes.take(0) =~= Seq::<Seq<char>>::empty());
            assert(mid + Seq::<char>::empty() =~= mid);
            while j < m
                invariant
                    m == unlinked@.len(),
                    j <= m,
                    notes == text::texts(unlinked@),
                    output@ == mid + note_lines(notes.take(j as int)),
                decreases m - j,
            {
                let line = "Note: ".to_owned().concat(unlinked[j].as_str());
                output.append(style::yellow(line.as_str()).as_str());
                output.append("\n");
                proof {
                    assert(notes.take(j + 1).drop_last() == notes.take(j as int));
                    assert(notes.take(j + 1).last() == notes[j as int]);
                    assert(output@ =~= mid + note_lines(notes.take(j + 1)));
                }
                j += 1;
            }
            assert(notes.take(m as int) == notes);
            assert(output@ =~= start + (stack_lines(all) + note_lines(notes)));
        },
        StackLinkOutcome::Failed { warning } => {
            let line = "Warning: ".to_owned().concat(warning.as_str());
            output.append(style::yellow(line.as_str()).as_str());
            output.append("\n");
            assert(output@ =~= start + (style::yellow_text("Warning: "@ + warning@) + "\n"@));
        },
        StackLinkOutcome::Skipped(_) => {
            assert(output@ =~= start + Seq::<char>::empty());
        },
    }
}

// ---------------------------------------------------------------------------
// The summary
// ---------------------------------------------------------------------------
/// What a submission did.
#[derive(Debug)]
pub struct SubmissionResult {
    pub merge_requests: Vec<MRUpdate>,
    pub errors: Vec<Error>,
    pub bookmarks_pushed: Vec<String>,
    /// The changes after the submission, with the bookmarks that were created.
    pub changes: Vec<Change>,
}

/// A row of the table of merge requests.
#[derive(Debug)]
pub struct SummaryRow {
    pub bookmark: String,
    pub title: String,
    pub link: String,
    pub status: String,
}

/// What a [`SummaryRow`] says.
#[verifier::ext_equal]
pub struct RowView {
    pub bookmark: Seq<char>,
    pub title: Seq<char>,
    pub link: Seq<char>,
    pub status: Seq<char>,
}

impl View for SummaryRow {
    type V = RowView;

    open spec fn view(&self) -> RowView {
        RowView {
            bookmark: self.bookmark@,
            title: self.title@,
            link: self.link@,
            status: self.status@,
        }
    }
}

/// What a list of rows says.
pub open spec fn row_views(v: Seq<SummaryRow>) -> Seq<RowView> {
    Seq::new(v.len(), |i: int| v[i]@)
}

/// How wide a title may be in the table.
pub const TITLE_WIDTH: usize = 60;

/// The row of a merge request. One that was just created is linked where it is edited.
pub open spec fn row_of<W: VisualWidth>(w: &W, u: MRUpdate) -> RowView {
    RowView {
        bookmark: style::magenta_text(u.bookmark@),
        title: wrap::wrapped(w, u.title@, TITLE_WIDTH as nat),
        link: style::dimmed_text(
            if u.update_type == MRUpdateType::Created {
                u.edit_url@
            } else {
                u.url@
            },
        ),
        status: match u.update_type {
            MRUpdateType::Created => style::green_text("[created]"@),
            MRUpdateType::Updated => style::green_text("[updated]"@),
            MRUpdateType::Unchanged => " "@,
        },
    }
}

/// A merge request with that ID was created.
pub open spec fn was_created(updates: Seq<MRUpdate>, iid: Seq<char>) -> bool {
    exists|i: int|
        0 <= i < updates.len() && (#[trigger] updates[i]).iid@ == iid && updates[i].update_type
            == MRUpdateType::Created
}

/// The update is reported for its ID: it is the first of that ID, except that what was just
/// created is not also reported as updated.
pub open spec fn is_reported(updates: Seq<MRUpdate>, iid: Seq<char>, at: int) -> bool {
    &&& 0 <= at < updates.len()
    &&& counts_for(updates, iid, updates[at])
    &&& forall|k: int| 0 <= k < at ==> !counts_for(updates, iid, #[trigger] updates[k])
}

/// The update may be reported for that ID.
pub open spec fn counts_for(updates: Seq<MRUpdate>, iid: Seq<char>, u: MRUpdate) -> bool {
    &&& u.iid@ == iid
    &&& !(was_created(updates, iid) && u.update_type == MRUpdateType::Updated)
}

/// An update of that ID is in the list.
pub open spec fn has_iid(updates: Seq<MRUpdate>, iid: Seq<char>) -> bool {
    exists|i: int| 0 <= i < updates.len() && (#[trigger] updates[i]).iid@ == iid
}

/// The positions of the updates that are reported: one for each ID, in the order of the IDs.
pub open spec fn are_reported(updates: Seq<MRUpdate>, picks: Seq<int>) -> bool {
    &&& forall|i: int|
        0 <= i < picks.len() ==> is_reported(
            updates,
            updates[#[trigger] picks[i]].iid@,
            picks[i],
        )
    &&& forall|i: int, j: int|
        0 <= i < j < picks.len() ==> text::text_lt(
            updates[#[trigger] picks[i]].iid@,
            updates[#[trigger] picks[j]].iid@,
        )
    &&& forall|iid: Seq<char>| #[trigger]
        has_iid(updates, iid) ==> exists|i: int|
            0 <= i < picks.len() && updates[#[trigger] picks[i]].iid@ == iid
}

/// Whether a merge request with that ID was created.
fn find_created(updates: &Vec<MRUpdate>, iid: &str) -> (r: bool)
    ensures
        r == was_created(updates@, iid@),
{
    let n = updates.len();
    let mut i: usize = 0;
    while i < n
        invariant
            n == updates@.len(),
            i <= n,
            forall|k: int|
                0 <= k < i ==> !((#[trigger] updates@[k]).iid@ == iid@ && updates@[k].update_type
                    == MRUpdateType::Created),
        decreases n - i,
    {
        if text::str_eq(updates[i].iid.as_str(), iid) && updates[i].update_type
            == MRUpdateType::Created {
            return true;
        }
        i += 1;
    }
    false
}

/// The position of the update that is reported for an ID.
fn find_reported(updates: &Vec<MRUpdate>, iid: &str) -> (at: usize)
    requires
        has_iid(updates@, iid@),
    ensures
        is_reported(updates@, iid@, at as int),
{
    let created = find_created(updates, iid);
    let n = updates.len();
    let mut i: usize = 0;
    proof {
        if was_created(updates@, iid@) {
            let k = choose|k: int|
                0 <= k < updates@.len() && (#[trigger] updates@[k]).iid@ == iid@
                    && updates@[k].update_type == MRUpdateType::Created;
            assert(counts_for(updates@, iid@, updates@[k]));
        } else {
            let k = choose|k: int| 0 <= k < updates@.len() && (#[trigger] updates@[k]).iid@ == iid@;
            assert(counts_for(updates@, iid@, updates@[k]));
        }
    }
    let ghost some = choose|k: int|
        0 <= k < updates@.len() && counts_for(updates@, iid@, #[trigger] updates@[k]);
    while i < n
        invariant
            n == updates@.len(),
            i <= n,
            created == was_created(updates@, iid@),
            0 <= some < n,
            counts_for(updates@, iid@, updates@[some]),
            forall|k: int| 0 <= k < i ==> !counts_for(updates@, iid@, #[trigger] updates@[k]),
        decreases n - i,
    {
        if text::str_eq(updates[i].iid.as_str(), iid) && !(created && updates[i].update_type
            == MRUpdateType::Updated) {
            return i;
        }
        i += 1;
    }
    assert(false);
    0
}

/// The positions of the updates that are reported.
pub fn pick_reported(updates: &Vec<MRUpdate>) -> (picks: Vec<usize>)
    ensures
        are_reported(updates@, positions(picks@)),
{
    let n = updates.len();
    let mut ids = TextSet::new();
    let mut i: usize = 0;
    while i < n
        invariant
            n == updates@.len(),
            i <= n,
            ids.wf(),
            forall|iid: Seq<char>| #[trigger]
                ids@.contains(iid) <==> exists|k: int|
                    0 <= k < i && (#[trigger] updates@[k]).iid@ == iid,
        decreases n - i,
    {
        let ghost before = ids@;
        ids.insert(updates[i].iid.clone());
        proof {
            assert forall|iid: Seq<char>| #[trigger] ids@.contains(iid) <==> exists|k: int|
                0 <= k < i + 1 && (#[trigger] updates@[k]).iid@ == iid by {
                if before.contains(iid) {
                    let k = choose|k: int| 0 <= k < i && (#[trigger] updates@[k]).iid@ == iid;
                    assert(0 <= k < i + 1);
                }
                if iid == updates@[i as int].iid@ {
                    assert(ids@.contains(iid));
                }
                if exists|k: int| 0 <= k < i + 1 && (#[trigger] updates@[k]).iid@ == iid {
                    let k = choose|k: int| 0 <= k < i + 1 && (#[trigger] updates@[k]).iid@ == iid;
                    if k < i {
                        assert(before.contains(iid));
                    }
                }
            }
        }
        i += 1;
    }
    let mut picks: Vec<usize> = Vec::new();
    let m = ids.len();
    let mut j: usize = 0;
    let ghost items = ids.items();
    proof {
        ids.lemma_items();
        assert forall|iid: Seq<char>| #[trigger] ids@.contains(iid) <==> has_iid(
            updates@,
            iid,
        ) by {}
    }
    while j < m
        invariant
            items == ids.items(),
            m == items.len(),
            j <= m,
            items.to_set() == ids@,
            forall|iid: Seq<char>| #[trigger] ids@.contains(iid) <==> has_iid(updates@, iid),
            picks@.len() == j,
            forall|k: int|
                0 <= k < j ==> is_reported(updates@, items[k], #[trigger] picks@[k] as int),
        decreases m - j,
    {
        let iid = ids.item_at(j);
        assert(items.to_set().contains(iid@));
        let at = find_reported(updates, iid.as_str());
        picks.push(at);
        j += 1;
    }
    proof {
        let at = positions(picks@);
        assert forall|k: int| 0 <= k < at.len() implies is_reported(
            updates@,
            updates@[#[trigger] at[k]].iid@,
            at[k],
        ) && updates@[at[k]].iid@ == items[k] by {
            assert(is_reported(updates@, items[k], picks@[k] as int));
        }
        assert forall|a: int, b: int| 0 <= a < b < at.len() implies text::text_lt(
            updates@[#[trigger] at[a]].iid@,
            updates@[#[trigger] at[b]].iid@,
        ) by {
            assert(updates@[at[a]].iid@ == items[a]);
            assert(updates@[at[b]].iid@ == items[b]);
        }
        assert forall|iid: Seq<char>| #[trigger] has_iid(updates@, iid) implies exists|k: int|
            0 <= k < at.len() && updates@[#[trigger] at[k]].iid@ == iid by {
            assert(ids@.contains(iid));
            assert(items.to_set().contains(iid));
            let k = items.index_of(iid);
            assert(updates@[at[k]].iid@ == items[k]);
        }
    }
    picks
}

/// Positions as numbers.
pub open spec fn positions(picks: Seq<usize>) -> Seq<int> {
    Seq::new(picks.len(), |i: int| picks[i] as int)
}

/// The row of a merge request.
fn write_row<W: VisualWidth>(w: &W, u: &MRUpdate) -> (r: SummaryRow)
    ensures
        r@ == row_of(w, *u),
{
    let title = wrap::wrap(w, u.title.as_str(), TITLE_WIDTH);
    let bookmark = style::magenta(u.bookmark.as_str());
    match u.update_type {
        MRUpdateType::Created => SummaryRow {
            bookmark,
            title,
            link: style::dimmed(u.edit_url.as_str()),
            status: style::green("[created]"),
        },
        MRUpdateType::Updated => SummaryRow {
            bookmark,
            title,
            link: style::dimmed(u.url.as_str()),
            status: style::green("[updated]"),
        },
        MRUpdateType::Unchanged => SummaryRow {
            bookmark,
            title,
            link: style::dimmed(u.url.as_str()),
            status: " ".to_owned(),
        },
    }
}

/// The rows of the table of merge requests.
pub open spec fn are_rows<W: VisualWidth>(
    w: &W,
    updates: Seq<MRUpdate>,
    rows: Seq<RowView>,
) -> bool {
    exists|picks: Seq<int>| #[trigger]
        are_reported(updates, picks) && rows == Seq::new(
            picks.len(),
            |i: int| row_of(w, updates[picks[i]]),
        )
}

/// The rows of the table of merge requests: one for each ID, in the order of the IDs.
pub fn summary_rows<W: VisualWidth>(w: &W, updates: &Vec<MRUpdate>) -> (rows: Vec<SummaryRow>)
    ensures
        are_rows(w, updates@, row_views(rows@)),
{
    let picks = pick_reported(updates);
    let ghost at = positions(picks@);
    let ghost all = Seq::new(at.len(), |i: int| row_of(w, updates@[at[i]]));
    let mut rows: Vec<SummaryRow> = Vec::new();
    let n = picks.len();
    let mut i: usize = 0;
    while i < n
        invariant
            n == picks@.len(),
            i <= n,
            at == positions(picks@),
            are_reported(updates@, at),
            all == Seq::new(at.len(), |i: int| row_of(w, updates@[at[i]])),
            row_views(rows@) == all.take(i as int),
        decreases n - i,
    {
        let ghost before = row_views(rows@);
        assert(at[i as int] == picks@[i as int] as int);
        assert(is_reported(updates@, updates@[at[i as int]].iid@, at[i as int]));
        let row = write_row(w, &updates[picks[i]]);
        let ghost added = row@;
        rows.push(row);
        assert(row_views(rows@) == before.push(added));
        i += 1;
    }
    assert(all.take(n as int) == all);
    rows
}

/// No merge request is reported twice.
pub proof fn nothing_is_reported_twice(updates: Seq<MRUpdate>, picks: Seq<int>, i: int, j: int)
    requires
        are_reported(updates, picks),
        0 <= i < j < picks.len(),
    ensures
        updates[picks[i]].iid@ != updates[picks[j]].iid@,
{
    text::lemma_text_lt_irreflexive(updates[picks[i]].iid@);
}

/// What was just created is not reported as updated.
pub proof fn created_is_not_reported_as_updated(updates: Seq<MRUpdate>, picks: Seq<int>, i: int)
    requires
        are_reported(updates, picks),
        0 <= i < picks.len(),
        was_created(updates, updates[picks[i]].iid@),
    ensures
        updates[picks[i]].update_type != MRUpdateType::Updated,
{
    assert(is_reported(updates, updates[picks[i]].iid@, picks[i]));
}

/// The text is not empty and has no white space at its ends.
pub open spec fn is_bare(s: Seq<char>) -> bool {
    s.len() > 0 && !text::is_white(s[0]) && !text::is_white(s.last())
}

/// Every line of the cell stands in the table, unless it has white space at its ends.
pub open spec fn stands_in(table: Seq<char>, cell: Seq<char>) -> bool {
    forall|k: int|
        0 <= k < text::lines(cell).len() && is_bare(#[trigger] text::lines(cell)[k])
            ==> text::contains_text(table, text::lines(cell)[k])
}

/// Every cell of the row stands in the table.
pub open spec fn row_stands_in(table: Seq<char>, row: RowView) -> bool {
    &&& stands_in(table, row.bookmark)
    &&& stands_in(table, row.title)
    &&& stands_in(table, row.link)
    &&& stands_in(table, row.status)
}

/// Line `k` of a cell. A cell with fewer lines is blank there.
pub open spec fn cell_line(cell: Seq<char>, k: int) -> Seq<char> {
    if 0 <= k < text::lines(cell).len() {
        text::lines(cell)[k]
    } else {
        Seq::empty()
    }
}

/// What line `k` of a row shows, from left to right: that line of each cell, and the end of the
/// line.
pub open spec fn line_parts(row: RowView, k: int) -> Seq<Seq<char>> {
    seq![
        cell_line(row.bookmark, k),
        cell_line(row.title, k),
        cell_line(row.link, k),
        cell_line(row.status, k),
        "\n"@,
    ]
}

/// What the first `height` lines of a row show, from top to bottom.
pub open spec fn row_parts(row: RowView, height: nat) -> Seq<Seq<char>>
    decreases height,
{
    if height == 0 {
        Seq::empty()
    } else {
        row_parts(row, (height - 1) as nat) + line_parts(row, height - 1)
    }
}

/// How many lines a row has: as many as the highest of its cells.
pub open spec fn row_height(row: RowView) -> nat {
    let bookmark = text::lines(row.bookmark).len();
    let title = text::lines(row.title).len();
    let link = text::lines(row.link).len();
    let status = text::lines(row.status).len();
    let left = if bookmark < title {
        title
    } else {
        bookmark
    };
    let right = if link < status {
        status
    } else {
        link
    };
    if left < right {
        right
    } else {
        left
    }
}

/// What a table shows, from top to bottom: its rows, one after the other.
pub open spec fn table_parts(rows: Seq<RowView>) -> Seq<Seq<char>>
    decreases rows.len(),
{
    if rows.len() == 0 {
        Seq::empty()
    } else {
        table_parts(rows.drop_last()) + row_parts(rows.last(), row_height(rows.last()))
    }
}

/// Each part stands in the text at its position, after the parts before it.
pub open spec fn placed(whole: Seq<char>, parts: Seq<Seq<char>>, at: Seq<int>) -> bool {
    &&& at.len() == parts.len()
    &&& forall|n: int| 0 <= n < parts.len() ==> text::has_at(whole, #[trigger] at[n], parts[n])
    &&& forall|m: int, n: int|
        0 <= m < n < parts.len() ==> #[trigger] at[m] + parts[m].len() <= #[trigger] at[n]
}

/// The table shows all parts of the rows in their order, without the white space at its ends.
pub open spec fn lays_out(table: Seq<char>, rows: Seq<RowView>) -> bool {
    exists|whole: Seq<char>, at: Seq<int>|
        table == text::trim(whole) && #[trigger] placed(whole, table_parts(rows), at)
}

/// `cli_table::Table::table` with an empty border and an empty separator, displayed. The rows
/// come one after the other, the lines of a row one after the other, and in a line that line
/// of every cell from left to right, as it is. The whole is trimmed. What fills the space
/// between the cells, and when displaying fails, is not stated: the control sequences there
/// depend on the console that the process runs in.
#[verifier::external_body]
fn display_table(rows: &Vec<SummaryRow>) -> (r: Result<String, String>)
    ensures
        r matches Ok(table) ==> lays_out(table@, row_views(rows@)),
{
    let cells: Vec<Vec<cli_table::CellStruct>> = rows.iter().map(
        |r| vec![(&r.bookmark).cell(), (&r.title).cell(), (&r.link).cell(), (&r.status).cell()],
    ).collect();
    cells.table().border(cli_table::format::Border::builder().build()).separator(
        cli_table::format::Separator::builder().build(),
    ).display().map(|t| t.to_string()).map_err(|e| e.to_string())
}

/// The text of a displayed table, or of the reason why there is none.
spec fn shown_text(out: Result<String, String>) -> Result<Seq<char>, Seq<char>> {
    match out {
        Ok(table) => Ok(table@),
        Err(reason) => Err(reason@),
    }
}

/// Every cell of every row stands in the table.
pub open spec fn rows_stand_in(table: Seq<char>, rows: Seq<RowView>) -> bool {
    forall|i: int| 0 <= i < rows.len() ==> row_stands_in(table, #[trigger] rows[i])
}

/// A table of these rows was displayed as this text, or could not be for this reason.
pub closed spec fn displayed(rows: Seq<RowView>, r: Result<Seq<char>, Seq<char>>) -> bool {
    &&& exists|list: Vec<SummaryRow>, out: Result<String, String>|
        {
            &&& row_views(list@) == rows
            &&& #[trigger] call_ensures(display_table, (&list,), out)
            &&& r == shown_text(out)
        }
    &&& r matches Ok(table) ==> lays_out(table, rows)
}

proof fn lemma_row_parts(row: RowView, height: nat, k: int, c: int)
    requires
        0 <= k < height,
        0 <= c < 5,
    ensures
        row_parts(row, height).len() == 5 * height,
        row_parts(row, height)[5 * k + c] == line_parts(row, k)[c],
    decreases height,
{
    let before = (height - 1) as nat;
    if before > 0 {
        lemma_row_parts(row, before, if k < before {
            k
        } else {
            0
        }, c);
    }
    assert(row_parts(row, before).len() == 5 * before);
}

proof fn lemma_table_starts(rows: Seq<RowView>, i: int)
    requires
        0 <= i <= rows.len(),
    ensures
        table_parts(rows.take(i)).len() <= table_parts(rows).len(),
        forall|n: int|
            0 <= n < table_parts(rows.take(i)).len() ==> #[trigger] table_parts(rows)[n]
                == table_parts(rows.take(i))[n],
    decreases rows.len(),
{
    if i < rows.len() {
        assert(rows.drop_last().take(i) =~= rows.take(i));
        lemma_table_starts(rows.drop_last(), i);
    } else {
        assert(rows.take(i) =~= rows);
    }
}

/// Where the part of a cell stands among the parts of a table.
spec fn part_index(rows: Seq<RowView>, i: int, k: int, c: int) -> int {
    table_parts(rows.take(i)).len() + 5 * k + c
}

proof fn lemma_part(rows: Seq<RowView>, i: int, k: int, c: int)
    requires
        0 <= i < rows.len(),
        0 <= k < row_height(rows[i]),
        0 <= c < 5,
    ensures
        0 <= part_index(rows, i, k, c) < table_parts(rows.take(i + 1)).len(),
        part_index(rows, i, k, c) < table_parts(rows).len(),
        table_parts(rows)[part_index(rows, i, k, c)] == line_parts(rows[i], k)[c],
{
    let upto = rows.take(i + 1);
    assert(upto.drop_last() =~= rows.take(i));
    assert(upto.last() == rows[i]);
    lemma_row_parts(rows[i], row_height(rows[i]), k, c);
    lemma_table_starts(rows, i + 1);
    let n = part_index(rows, i, k, c);
    assert(table_parts(upto)[n] == row_parts(rows[i], row_height(rows[i]))[5 * k + c]);
}

/// What is displayed keeps its order: of two lines of cells that have no white space at their
/// ends, the one of an earlier row, of an earlier line of the row, or further to the left in the
/// line, comes first.
pub proof fn displayed_table_keeps_the_order(
    rows: Seq<RowView>,
    table: Seq<char>,
    i: int,
    k: int,
    c: int,
    j: int,
    l: int,
    d: int,
)
    requires
        displayed(rows, Ok::<Seq<char>, Seq<char>>(table)),
        0 <= i < rows.len(),
        0 <= j < rows.len(),
        0 <= k < row_height(rows[i]),
        0 <= l < row_height(rows[j]),
        0 <= c < 4,
        0 <= d < 4,
        i < j || (i == j && k < l) || (i == j && k == l && c < d),
        is_bare(line_parts(rows[i], k)[c]),
        is_bare(line_parts(rows[j], l)[d]),
    ensures
        text::comes_before(table, line_parts(rows[i], k)[c], line_parts(rows[j], l)[d]),
{
    let parts = table_parts(rows);
    let (whole, at) = choose|whole: Seq<char>, at: Seq<int>|
        table == text::trim(whole) && #[trigger] placed(whole, parts, at);
    let m = part_index(rows, i, k, c);
    let n = part_index(rows, j, l, d);
    lemma_part(rows, i, k, c);
    lemma_part(rows, j, l, d);
    if i < j {
        assert(rows.take(j).take(i + 1) =~= rows.take(i + 1));
        lemma_table_starts(rows.take(j), i + 1);
    }
    assert(m < n);
    assert(at[m] + parts[m].len() <= at[n]);
    let r = text::white_run(whole);
    text::lemma_trim_keeps(whole, at[m], parts[m]);
    text::lemma_trim_keeps(whole, at[n], parts[n]);
    assert(text::has_at(table, at[m] - r, parts[m]));
    assert(text::has_at(table, at[n] - r, parts[n]));
}

proof fn lemma_line_shown(rows: Seq<RowView>, table: Seq<char>, i: int, k: int, c: int)
    requires
        lays_out(table, rows),
        0 <= i < rows.len(),
        0 <= k < row_height(rows[i]),
        0 <= c < 4,
        is_bare(line_parts(rows[i], k)[c]),
    ensures
        text::contains_text(table, line_parts(rows[i], k)[c]),
{
    let parts = table_parts(rows);
    let (whole, at) = choose|whole: Seq<char>, at: Seq<int>|
        table == text::trim(whole) && #[trigger] placed(whole, parts, at);
    lemma_part(rows, i, k, c);
    let n = part_index(rows, i, k, c);
    assert(text::has_at(whole, at[n], parts[n]));
    text::lemma_trim_keeps(whole, at[n], parts[n]);
}

/// A table that was displayed shows every cell of every row.
pub proof fn displayed_table_shows_every_row(rows: Seq<RowView>, table: Seq<char>)
    requires
        displayed(rows, Ok::<Seq<char>, Seq<char>>(table)),
    ensures
        rows_stand_in(table, rows),
{
    assert forall|i: int| 0 <= i < rows.len() implies row_stands_in(
        table,
        #[trigger] rows[i],
    ) by {
        let row = rows[i];
        assert forall|k: int|
            0 <= k < text::lines(row.bookmark).len() && is_bare(
                #[trigger] text::lines(row.bookmark)[k],
            ) implies text::contains_text(table, text::lines(row.bookmark)[k]) by {
            lemma_line_shown(rows, table, i, k, 0);
        }
        assert forall|k: int|
            0 <= k < text::lines(row.title).len() && is_bare(
                #[trigger] text::lines(row.title)[k],
            ) implies text::contains_text(table, text::lines(row.title)[k]) by {
            lemma_line_shown(rows, table, i, k, 1);
        }
        assert forall|k: int|
            0 <= k < text::lines(row.link).len() && is_bare(
                #[trigger] text::lines(row.link)[k],
            ) implies text::contains_text(table, text::lines(row.link)[k]) by {
            lemma_line_shown(rows, table, i, k, 2);
        }
        assert forall|k: int|
            0 <= k < text::lines(row.status).len() && is_bare(
                #[trigger] text::lines(row.status)[k],
            ) implies text::contains_text(table, text::lines(row.status)[k]) by {
            lemma_line_shown(rows, table, i, k, 3);
        }
    }
}

/// The lines on errors.
pub open spec fn error_lines(errors: Seq<Error>) -> Seq<char>
    decreases errors.len(),
{
    if errors.len() == 0 {
        Seq::empty()
    } else {
        error_lines(errors.drop_last()) + "  • "@ + errors.last().text() + "\n"@
    }
}

/// The summary of a submission. `table` is the table of its merge requests.
pub open spec fn summary_text(
    pushed: Seq<Seq<char>>,
    table: Option<Seq<char>>,
    errors: Seq<Error>,
) -> Seq<char> {
    let head = "\n═══════════════════════════════════════\n"@ + style::bold_text("Summary"@)
        + "\n═══════════════════════════════════════\n"@;
    let bookmarks = if pushed.len() == 0 {
        "No bookmarks pushed\n"@
    } else {
        "Pushed: "@ + action::highlighted(pushed) + "\n"@
    };
    let requests = match table {
        Some(table) => "\n"@ + style::bold_text("Merge Requests:"@) + "\n\n"@ + table + "\n"@,
        None => Seq::empty(),
    };
    let faults = if errors.len() == 0 {
        Seq::empty()
    } else {
        "\n✗ "@ + text::decimal(errors.len()) + " error(s) occurred:\n"@ + error_lines(errors)
    };
    head + bookmarks + requests + faults
}

/// The summary of a submission. `table` is the table of its merge requests, where there are
/// any.
pub fn write_summary(
    pushed: &Vec<String>,
    table: Option<&str>,
    errors: &Vec<Error>,
) -> (r: String)
    ensures
        r@ == summary_text(text::texts(pushed@), text::opt_slice(table), errors@),
{
    let head = "\n═══════════════════════════════════════\n".to_owned().concat(
        style::bold("Summary").as_str(),
    ).concat("\n═══════════════════════════════════════\n");
    assert(text::texts(pushed@).len() == pushed@.len());
    let bookmarks = if pushed.len() == 0 {
        "No bookmarks pushed\n".to_owned()
    } else {
        "Pushed: ".to_owned().concat(action::highlight(pushed).as_str()).concat("\n")
    };
    let requests = match table {
        Some(table) => "\n".to_owned().concat(style::bold("Merge Requests:").as_str()).concat(
            "\n\n",
        ).concat(table).concat("\n"),
        None => String::new(),
    };
    assert(table is None ==> requests@ =~= Seq::<char>::empty());
    let mut faults = String::new();
    if errors.len() > 0 {
        let n = errors.len();
        let ghost start = "\n✗ "@ + text::decimal(errors@.len()) + " error(s) occurred:\n"@;
        faults = "\n✗ ".to_owned().concat(text::u64_text(n as u64).as_str()).concat(
            " error(s) occurred:\n",
        );
        let mut i: usize = 0;
        assert(errors@.take(0) =~= Seq::<Error>::empty());
        assert(start + Seq::<char>::empty() =~= start);
        while i < n
            invariant
                n == errors@.len(),
                i <= n,
                faults@ == start + error_lines(errors@.take(i as int)),
            decreases n - i,
        {
            faults = faults.concat("  • ").concat(errors[i].to_string().as_str()).concat("\n");
            proof {
                assert(errors@.take(i + 1).drop_last() == errors@.take(i as int));
                assert(errors@.take(i + 1).last() == errors@[i as int]);
                assert(faults@ =~= start + error_lines(errors@.take(i + 1)));
            }
            i += 1;
        }
        assert(errors@.take(n as int) == errors@);
    } else {
        assert(faults@ =~= Seq::<char>::empty());
    }
    head.concat(bookmarks.as_str()).concat(requests.as_str()).concat(faults.as_str())
}

/// What there is to say about merge requests, for the log.
pub open spec fn warnings_of(u: MRUpdate) -> Seq<Seq<char>> {
    match u.warnings {
        Some(list) => text::texts(list@).map_values(
            |s: Seq<char>| style::yellow_text("\nWarning: "@ + s),
        ),
        None => Seq::empty(),
    }
}

/// The warnings of the updates that are reported, in their order.
pub open spec fn warnings_at(updates: Seq<MRUpdate>, picks: Seq<int>) -> Seq<Seq<char>>
    decreases picks.len(),
{
    if picks.len() == 0 {
        Seq::empty()
    } else {
        warnings_at(updates, picks.drop_last()) + warnings_of(updates[picks.last()])
    }
}

/// The warnings of the updates that are reported.
pub fn summary_warnings(updates: &Vec<MRUpdate>) -> (r: Vec<String>)
    ensures
        exists|picks: Seq<int>| #[trigger]
            are_reported(updates@, picks) && text::texts(r@) == warnings_at(updates@, picks),
{
    let picks = pick_reported(updates);
    let ghost at = positions(picks@);
    let mut r: Vec<String> = Vec::new();
    let n = picks.len();
    let mut i: usize = 0;
    assert(at.take(0) =~= Seq::<int>::empty());
    assert(text::texts(r@) =~= Seq::<Seq<char>>::empty());
    while i < n
        invariant
            n == picks@.len(),
            i <= n,
            at == positions(picks@),
            are_reported(updates@, at),
            text::texts(r@) == warnings_at(updates@, at.take(i as int)),
        decreases n - i,
    {
        proof {
            assert(at[i as int] == picks@[i as int] as int);
            assert(is_reported(updates@, updates@[at[i as int]].iid@, at[i as int]));
            assert(at.take(i + 1).drop_last() == at.take(i as int));
            assert(at.take(i + 1).last() == at[i as int]);
        }
        let u = &updates[picks[i]];
        let ghost before = text::texts(r@);
        if let Some(list) = &u.warnings {
            let m = list.len();
            let mut j: usize = 0;
            let ghost all = warnings_of(*u);
            assert(before + all.take(0) =~= before);
            while j < m
                invariant
                    m == list@.len(),
                    j <= m,
                    all == text::texts(list@).map_values(
                        |s: Seq<char>| style::yellow_text("\nWarning: "@ + s),
                    ),
                    text::texts(r@) == before + all.take(j as int),
                decreases m - j,
            {
                let ghost now = text::texts(r@);
                let line = "\nWarning: ".to_owned().concat(list[j].as_str());
                r.push(style::yellow(line.as_str()));
                proof {
                    assert(text::texts(r@) =~= now.push(all[j as int]));
                    assert(text::texts(r@) =~= before + all.take(j + 1));
                }
                j += 1;
            }
            assert(all.take(m as int) == all);
        } else {
            assert(before + warnings_of(*u) =~= before);
        }
        i += 1;
    }
    assert(at.take(n as int) == at);
    r
}

// ---------------------------------------------------------------------------
// The course of a submission
// ---------------------------------------------------------------------------
/// A bookmark of a submission, as it is named in messages.
#[derive(Debug)]
pub struct BookmarkLabel {
    /// The change that the bookmark stands on, or will be created for.
    pub change_id: String,
    /// The name, plain.
    pub raw_name: String,
    /// The name as it is shown.
    pub shown: String,
}

/// How far a submission has come.
#[derive(Debug)]
pub enum SubmitState {
    /// Nothing has been done.
    Ready,
    /// The remote is being fetched.
    Fetching,
    /// The changes that bookmarks are to be created for are being looked up.
    Creating { revset: String, create: String },
    /// The bookmarks are being looked up. The changes in `pending` will have one created.
    Listing { revset: String, pending: TextSet },
    /// The changes to submit are being looked up.
    Finding { labels: Vec<BookmarkLabel> },
    /// The forge is being set up.
    Opening { labels: Vec<BookmarkLabel> },
    /// The submission is being planned.
    Planning,
    /// The plan is being executed.
    Executing,
    /// The stacks are being linked.
    Linking { result: SubmissionResult },
    /// Everything has been done.
    Finished,
}

/// What has happened.
#[derive(Debug)]
pub enum SubmitEvent {
    Start,
    Fetched(Result<(), Error>),
    /// The log of the changes that bookmarks are to be created for.
    CreateLogged(Result<Vec<Change>, Error>),
    /// The bookmarks in the revset.
    Listed(Result<Vec<BookmarkLabel>, Error>),
    /// How many changes there are to submit.
    Found(Result<usize, Error>),
    Opened(Result<(), Error>),
    /// The plan, as text.
    Planned(Result<String, Error>),
    Executed(Result<SubmissionResult, Error>),
    Linked(StackLinkOutcome),
}

/// What to do next.
#[derive(Debug)]
pub enum SubmitAction {
    /// Run `jj` with these arguments.
    Fetch { args: Vec<String> },
    /// Look up the changes in this revset.
    LogForCreate { revset: String },
    /// Look up the bookmarks in this revset, where these changes will have one created.
    List { revset: String, pending: TextSet },
    /// Look up the changes to submit, from these changes, where those in `pending` will have a
    /// bookmark created.
    FindChanges { change_ids: Vec<String>, pending: TextSet },
    /// Set up the forge.
    OpenForge,
    /// Plan the submission.
    Plan,
    /// Execute the plan.
    Execute,
    /// Link the stacks.
    Link,
    /// Stop.
    Finish(SubmitEnd),
}

/// How a submission ends.
#[derive(Debug)]
pub enum SubmitEnd {
    /// Everything went well.
    Done,
    /// It was stopped.
    Failed(Error),
    /// It was carried out, with these errors.
    Errors(Vec<Error>),
}

/// What to show.
#[derive(Debug)]
pub struct SubmitOutput {
    /// What is being done now.
    pub current: Option<String>,
    /// A message.
    pub message: Option<String>,
    /// What to print as it stands.
    pub printed: String,
    /// Warnings, for the log.
    pub warnings: Vec<String>,
}

/// A step of a submission.
#[derive(Debug)]
pub struct SubmitStep {
    pub state: SubmitState,
    pub output: SubmitOutput,
    pub action: SubmitAction,
}

/// The step shows exactly this.
pub open spec fn shows(
    step: SubmitStep,
    current: Option<Seq<char>>,
    message: Option<Seq<char>>,
    printed: Seq<char>,
) -> bool {
    &&& text::opt_text(step.output.current) == current
    &&& text::opt_text(step.output.message) == message
    &&& step.output.printed@ == printed
    &&& step.output.warnings@.len() == 0
}

/// The step stops the submission with this error and shows nothing.
pub open spec fn stops(step: SubmitStep, e: Error) -> bool {
    &&& step.state is Finished
    &&& step.action matches SubmitAction::Finish(SubmitEnd::Failed(told)) && told == e
    &&& shows(step, None, None, Seq::empty())
}

/// The step stops the submission with this message and shows nothing else.
pub open spec fn stops_with(
    step: SubmitStep,
    message: Seq<char>,
    shown: Option<Seq<char>>,
) -> bool {
    &&& step.state is Finished
    &&& step.action matches SubmitAction::Finish(SubmitEnd::Failed(Error::Other { message: m }))
        && m@ == message
    &&& shows(step, None, shown, Seq::empty())
}

/// The arguments of the fetch, with the remote where one is given.
pub open spec fn fetch_args(
    fetch: RepoFetchConfig,
    remote: Option<Seq<char>>,
) -> Option<Seq<Seq<char>>> {
    match fetch.args() {
        Some(args) => Some(
            match remote {
                Some(remote) => args + seq!["--remote"@, remote],
                None => args,
            },
        ),
        None => None,
    }
}

/// What a dry run says about the fetch.
pub open spec fn fetch_preview(args: Seq<Seq<char>>) -> Seq<char> {
    "Would run `jj "@ + text::joined(args, " "@)
        + "` before planning (note that the plan may change based on newly fetched data!)"@
}

/// The step looks up the bookmarks of the submission. `shown` is a message from before.
pub open spec fn looks_up(c: SubmitCommandConfig, shown: Option<Seq<char>>, step: SubmitStep) -> bool {
    match chosen_revset(c) {
        None => stops_with(step, no_revset_message(), shown),
        Some(revset) => match c.create {
            Some(create) => {
                &&& step.state matches SubmitState::Creating { revset: r, create: k } && r@ == revset
                    && k@ == create@
                &&& step.action matches SubmitAction::LogForCreate { revset: r } && r@ == "("@
                    + create@ + ") & ("@ + revset + ")"@
                &&& shows(step, Some("Creating and pushing bookmarks"@), shown, Seq::empty())
            },
            None => {
                &&& step.state matches SubmitState::Listing { revset: r, pending } && r@ == revset
                    && pending.wf() && pending@ == Set::<Seq<char>>::empty()
                &&& step.action matches SubmitAction::List { revset: r, pending } && r@ == revset
                    && pending.wf() && pending@ == Set::<Seq<char>>::empty()
                &&& shows(step, None, shown, Seq::empty())
            },
        },
    }
}

/// The changes that will have a bookmark created: those without one.
pub open spec fn is_pending(changes: Seq<ChangeView>, id: Seq<char>) -> bool {
    exists|i: int|
        0 <= i < changes.len() && (#[trigger] changes[i]).bookmarks.len() == 0
            && changes[i].change_id == id
}

/// The set holds exactly the changes that will have a bookmark created.
pub open spec fn are_pending(changes: Seq<ChangeView>, pending: TextSet) -> bool {
    &&& pending.wf()
    &&& forall|id: Seq<char>| #[trigger] pending@.contains(id) <==> is_pending(changes, id)
}

/// The changes of the bookmarks.
pub open spec fn label_changes(labels: Seq<BookmarkLabel>) -> Seq<Seq<char>> {
    Seq::new(labels.len(), |i: int| labels[i].change_id@)
}

/// The plain names of the bookmarks.
pub open spec fn raw_names(labels: Seq<BookmarkLabel>) -> Seq<Seq<char>> {
    Seq::new(labels.len(), |i: int| labels[i].raw_name@)
}

/// The names of the bookmarks as they are shown.
pub open spec fn shown_names(labels: Seq<BookmarkLabel>) -> Seq<Seq<char>> {
    Seq::new(labels.len(), |i: int| labels[i].shown@)
}

/// The announcement of a submission.
pub open spec fn announcement(c: SubmitCommandConfig, labels: Seq<BookmarkLabel>) -> Seq<char> {
    "Submitting bookmarks"@ + (if c.dry_run {
        " (dry run)"@
    } else if c.show_plan {
        " (plan only)"@
    } else {
        ""@
    }) + ": "@ + text::joined(shown_names(labels), ", "@)
}

/// The step ends the submission with its summary, after `linked`. Whatever the table of the
/// merge requests looks like, it stands in the summary; where it cannot be displayed, the
/// submission is stopped.
pub open spec fn concludes<W: VisualWidth>(
    w: &W,
    result: SubmissionResult,
    linked: Seq<char>,
    step: SubmitStep,
) -> bool {
    &&& step.state is Finished
    &&& step.output.current is None
    &&& step.output.message is None
    &&& exists|picks: Seq<int>| #[trigger]
        are_reported(result.merge_requests@, picks) && text::texts(step.output.warnings@)
            == warnings_at(result.merge_requests@, picks)
    &&& if result.merge_requests@.len() == 0 {
        step.output.printed@ == linked + summary_text(
            text::texts(result.bookmarks_pushed@),
            None,
            result.errors@,
        ) && ends_with_errors(step.action, result.errors@)
    } else {
        exists|rows: Seq<RowView>, r: Result<Seq<char>, Seq<char>>|
            are_rows(w, result.merge_requests@, rows) && #[trigger] displayed(rows, r)
                && match r {
                Ok(table) => step.output.printed@ == linked + summary_text(
                    text::texts(result.bookmarks_pushed@),
                    Some(table),
                    result.errors@,
                ) && ends_with_errors(step.action, result.errors@),
                Err(reason) => step.output.printed@ == linked && (
                step.action matches SubmitAction::Finish(
                    SubmitEnd::Failed(Error::Io { message }),
                ) && message@ == reason),
            }
    }
}

/// The action stops the submission, with these errors where there are any.
pub open spec fn ends_with_errors(a: SubmitAction, errors: Seq<Error>) -> bool {
    if errors.len() == 0 {
        a matches SubmitAction::Finish(SubmitEnd::Done)
    } else {
        a matches SubmitAction::Finish(SubmitEnd::Errors(list)) && list@ == errors
    }
}

/// The event answers what is being waited for.
pub open spec fn fits(state: SubmitState, event: SubmitEvent) -> bool {
    match state {
        SubmitState::Ready => event is Start,
        SubmitState::Fetching => event is Fetched,
        SubmitState::Creating { .. } => event is CreateLogged,
        SubmitState::Listing { .. } => event is Listed,
        SubmitState::Finding { .. } => event is Found,
        SubmitState::Opening { .. } => event is Opened,
        SubmitState::Planning => event is Planned,
        SubmitState::Executing => event is Executed,
        SubmitState::Linking { .. } => event is Linked,
        SubmitState::Finished => false,
    }
}

/// The step that follows an event.
pub open spec fn advances<W: VisualWidth>(
    w: &W,
    c: SubmitCommandConfig,
    repo: Config,
    state: SubmitState,
    event: SubmitEvent,
    step: SubmitStep,
) -> bool {
    match (state, event) {
        (SubmitState::Ready, SubmitEvent::Start) => match fetch_args(
            repo.fetch,
            text::opt_text(c.remote),
        ) {
            Some(args) => if c.dry_run {
                looks_up(c, Some(fetch_preview(args)), step)
            } else {
                &&& step.state is Fetching
                &&& step.action matches SubmitAction::Fetch { args: a } && text::texts(a@) == args
                &&& shows(step, None, None, Seq::empty())
            },
            None => looks_up(c, None, step),
        },
        (SubmitState::Fetching, SubmitEvent::Fetched(fetched)) => match fetched {
            Ok(()) => looks_up(c, None, step),
            Err(e) => stops(step, e),
        },
        (
            SubmitState::Creating { revset, create },
            SubmitEvent::CreateLogged(logged),
        ) => match logged {
            Err(e) => stops(step, e),
            Ok(changes) => if changes@.len() == 0 {
                stops_with(
                    step,
                    "Your change parameter resolved to a revset ("@ + create@ + ") & ("@ + revset@
                        + "), which is empty. This is probably not what you intended, as no bookmarks would be created. Not continuing with submit."@,
                    None,
                )
            } else {
                &&& step.state matches SubmitState::Listing { revset: r, pending } && r@ == revset@
                    && are_pending(jj::change_views(changes@), pending)
                &&& step.action matches SubmitAction::List { revset: r, pending } && r@ == revset@
                    && are_pending(jj::change_views(changes@), pending)
                &&& shows(step, None, None, Seq::empty())
            },
        },
        (
            SubmitState::Listing { revset, pending },
            SubmitEvent::Listed(listed),
        ) => match listed {
            Err(e) => stops(step, e),
            Ok(labels) => if labels@.len() == 0 {
                stops_with(step, "No bookmarks in revset "@ + revset@, None)
            } else {
                &&& step.state matches SubmitState::Finding { labels: l } && l == labels
                &&& step.action matches SubmitAction::FindChanges { change_ids, pending: p }
                    && text::texts(change_ids@) == label_changes(labels@) && p == pending
                &&& shows(step, None, None, Seq::empty())
            },
        },
        (SubmitState::Finding { labels }, SubmitEvent::Found(found)) => match found {
            Err(e) => stops(step, e),
            Ok(count) => if count == 0 {
                stops_with(
                    step,
                    "Resolved bookmark(s) "@ + text::joined(raw_names(labels@), ", "@)
                        + " but found no changes to submit — the named bookmark(s) may already be merged into trunk (inspect with `jj log -r <bookmark>`). For a stacked/ancestry-walked submit, also confirm `jj config get user.email` matches the change authors."@,
                    None,
                )
            } else {
                &&& step.state matches SubmitState::Opening { labels: l } && l == labels
                &&& step.action is OpenForge
                &&& shows(step, None, None, Seq::empty())
            },
        },
        (SubmitState::Opening { labels }, SubmitEvent::Opened(opened)) => match opened {
            Err(e) => stops(step, e),
            Ok(()) => {
                &&& step.state is Planning
                &&& step.action is Plan
                &&& shows(step, None, Some(announcement(c, labels@)), Seq::empty())
            },
        },
        (SubmitState::Planning, SubmitEvent::Planned(planned)) => match planned {
            Err(e) => stops(step, e),
            Ok(plan) => if c.show_plan {
                &&& step.state is Finished
                &&& step.action matches SubmitAction::Finish(SubmitEnd::Done)
                &&& shows(step, None, None, "Submission plan:\n"@ + plan@ + "\n"@)
            } else {
                &&& step.state is Executing
                &&& step.action is Execute
                &&& shows(step, None, None, Seq::empty())
            },
        },
        (SubmitState::Executing, SubmitEvent::Executed(executed)) => match executed {
            Err(e) => stops(step, e),
            Ok(result) => if repo.forge == ForgeType::GitHub {
                &&& step.state matches SubmitState::Linking { result: r } && r == result
                &&& step.action is Link
                &&& shows(step, None, None, Seq::empty())
            } else {
                concludes(w, result, Seq::empty(), step)
            },
        },
        (SubmitState::Linking { result }, SubmitEvent::Linked(outcome)) => concludes(
            w,
            result,
            rendered_outcome(outcome@),
            step,
        ),
        _ => true,
    }
}

fn silent() -> (r: SubmitOutput)
    ensures
        r.current is None,
        r.message is None,
        r.printed@ == Seq::<char>::empty(),
        r.warnings@.len() == 0,
{
    let r = SubmitOutput {
        current: None,
        message: None,
        printed: String::new(),
        warnings: Vec::new(),
    };
    assert(r.printed@ =~= Seq::<char>::empty());
    r
}

fn stop(e: Error) -> (step: SubmitStep)
    ensures
        stops(step, e),
{
    SubmitStep {
        state: SubmitState::Finished,
        output: silent(),
        action: SubmitAction::Finish(SubmitEnd::Failed(e)),
    }
}

fn look_up(c: &SubmitCommandConfig, shown: Option<String>) -> (step: SubmitStep)
    ensures
        looks_up(*c, text::opt_text(shown), step),
{
    let mut output = silent();
    output.message = shown;
    let revset = match c.to_get_bookmarks_options() {
        Ok(options) => options.to_revset(),
        Err(e) => {
            return SubmitStep {
                state: SubmitState::Finished,
                output,
                action: SubmitAction::Finish(SubmitEnd::Failed(e)),
            };
        },
    };
    match &c.create {
        Some(create) => {
            output.current = Some("Creating and pushing bookmarks".to_owned());
            let both = "(".to_owned().concat(create.as_str()).concat(") & (").concat(
                revset.as_str(),
            ).concat(")");
            SubmitStep {
                state: SubmitState::Creating { revset, create: create.clone() },
                output,
                action: SubmitAction::LogForCreate { revset: both },
            }
        },
        None => SubmitStep {
            state: SubmitState::Listing { revset: revset.clone(), pending: TextSet::new() },
            output,
            action: SubmitAction::List { revset, pending: TextSet::new() },
        },
    }
}

/// The changes that will have a bookmark created.
fn find_pending(changes: &Vec<Change>) -> (pending: TextSet)
    ensures
        are_pending(jj::change_views(changes@), pending),
{
    let mut pending = TextSet::new();
    let n = changes.len();
    let mut i: usize = 0;
    let ghost all = jj::change_views(changes@);
    while i < n
        invariant
            n == changes@.len(),
            i <= n,
            all == jj::change_views(changes@),
            pending.wf(),
            forall|id: Seq<char>| #[trigger]
                pending@.contains(id) <==> exists|k: int|
                    0 <= k < i && (#[trigger] all[k]).bookmarks.len() == 0 && all[k].change_id
                        == id,
        decreases n - i,
    {
        let ghost before = pending@;
        let change = &changes[i];
        assert(all[i as int] == change@);
        assert(change@.bookmarks.len() == change.bookmarks@.len());
        if change.bookmarks.len() == 0 {
            pending.insert(change.change_id.clone());
        }
        proof {
            assert forall|id: Seq<char>| #[trigger] pending@.contains(id) <==> exists|k: int|
                0 <= k < i + 1 && (#[trigger] all[k]).bookmarks.len() == 0 && all[k].change_id
                    == id by {
                if before.contains(id) {
                    let k = choose|k: int|
                        0 <= k < i && (#[trigger] all[k]).bookmarks.len() == 0 && all[k].change_id
                            == id;
                    assert(0 <= k < i + 1);
                }
                if exists|k: int|
                    0 <= k < i + 1 && (#[trigger] all[k]).bookmarks.len() == 0 && all[k].change_id
                        == id {
                    let k = choose|k: int|
                        0 <= k < i + 1 && (#[trigger] all[k]).bookmarks.len() == 0
                            && all[k].change_id == id;
                    if k < i {
                        assert(before.contains(id));
                    }
                }
                if pending@.contains(id) && !before.contains(id) {
                    assert(all[i as int].bookmarks.len() == 0 && all[i as int].change_id == id);
                }
            }
        }
        i += 1;
    }
    pending
}

/// The changes of the bookmarks.
fn collect_changes(labels: &Vec<BookmarkLabel>) -> (r: Vec<String>)
    ensures
        text::texts(r@) == label_changes(labels@),
{
    let mut r: Vec<String> = Vec::new();
    let n = labels.len();
    let mut i: usize = 0;
    let ghost all = label_changes(labels@);
    while i < n
        invariant
            n == labels@.len(),
            i <= n,
            all == label_changes(labels@),
            text::texts(r@) == all.take(i as int),
        decreases n - i,
    {
        let ghost before = text::texts(r@);
        r.push(labels[i].change_id.clone());
        assert(text::texts(r@) == before.push(all[i as int]));
        i += 1;
    }
    assert(all.take(n as int) == all);
    r
}

/// The names of the bookmarks, plain or as they are shown.
fn collect_names(labels: &Vec<BookmarkLabel>, plain: bool) -> (r: Vec<String>)
    ensures
        text::texts(r@) == (if plain {
            raw_names(labels@)
        } else {
            shown_names(labels@)
        }),
{
    let mut r: Vec<String> = Vec::new();
    let n = labels.len();
    let mut i: usize = 0;
    let ghost all = if plain {
        raw_names(labels@)
    } else {
        shown_names(labels@)
    };
    while i < n
        invariant
            n == labels@.len(),
            i <= n,
            all == (if plain {
                raw_names(labels@)
            } else {
                shown_names(labels@)
            }),
            text::texts(r@) == all.take(i as int),
        decreases n - i,
    {
        let ghost before = text::texts(r@);
        if plain {
            r.push(labels[i].raw_name.clone());
        } else {
            r.push(labels[i].shown.clone());
        }
        assert(text::texts(r@) == before.push(all[i as int]));
        i += 1;
    }
    assert(all.take(n as int) == all);
    r
}

/// Ends a submission with its summary.
fn conclude<W: VisualWidth>(w: &W, result: SubmissionResult, linked: String) -> (step: SubmitStep)
    ensures
        concludes(w, result, linked@, step),
{
    let mut output = silent();
    output.warnings = summary_warnings(&result.merge_requests);
    let ghost told = output.warnings@;
    if result.merge_requests.len() == 0 {
        let summary = write_summary(&result.bookmarks_pushed, None, &result.errors);
        output.printed = linked.concat(summary.as_str());
    } else {
        let rows = summary_rows(w, &result.merge_requests);
        let shown = display_table(&rows);
        let ghost r: Result<Seq<char>, Seq<char>> = shown_text(shown);
        proof {
            assert(displayed(row_views(rows@), r));
        }
        match shown {
            Ok(table) => {
                let summary = write_summary(
                    &result.bookmarks_pushed,
                    Some(table.as_str()),
                    &result.errors,
                );
                output.printed = linked.concat(summary.as_str());
                assert(output.printed@ == linked@ + summary_text(
                    text::texts(result.bookmarks_pushed@),
                    Some(table@),
                    result.errors@,
                ));
            },
            Err(reason) => {
                output.printed = linked;
                return SubmitStep {
                    state: SubmitState::Finished,
                    output,
                    action: SubmitAction::Finish(
                        SubmitEnd::Failed(Error::Io { message: reason }),
                    ),
                };
            },
        }
    }
    let end = if result.errors.len() > 0 {
        SubmitEnd::Errors(result.errors)
    } else {
        SubmitEnd::Done
    };
    SubmitStep { state: SubmitState::Finished, output, action: SubmitAction::Finish(end) }
}

/// The step that follows an event. The caller carries out the action and hands back what came
/// of it, until the action is to finish.
pub fn submit<W: VisualWidth>(
    w: &W,
    config: &SubmitCommandConfig,
    repo_config: &Config,
    state: SubmitState,
    event: SubmitEvent,
) -> (step: SubmitStep)
    requires
        fits(state, event),
    ensures
        advances(w, *config, *repo_config, state, event, step),
{
    match (state, event) {
        (SubmitState::Ready, SubmitEvent::Start) => {
            let mut args = match repo_config.fetch.to_args() {
                Some(args) => text::to_strings(&args),
                None => return look_up(config, None),
            };
            let ghost base = text::texts(args@);
            if let Some(remote) = &config.remote {
                args.push("--remote".to_owned());
                args.push(remote.clone());
                assert(text::texts(args@) =~= base + seq!["--remote"@, remote@]);
            }
            if config.dry_run {
                let message = "Would run `jj ".to_owned().concat(
                    text::join(&args, " ").as_str(),
                ).concat(
                    "` before planning (note that the plan may change based on newly fetched data!)",
                );
                return look_up(config, Some(message));
            }
            SubmitStep {
                state: SubmitState::Fetching,
                output: silent(),
                action: SubmitAction::Fetch { args },
            }
        },
        (SubmitState::Fetching, SubmitEvent::Fetched(fetched)) => match fetched {
            Ok(()) => look_up(config, None),
            Err(e) => stop(e),
        },
        (
            SubmitState::Creating { revset, create },
            SubmitEvent::CreateLogged(logged),
        ) => match logged {
            Err(e) => stop(e),
            Ok(changes) => {
                if changes.len() == 0 {
                    return stop(
                        Error::Other {
                            message: "Your change parameter resolved to a revset (".to_owned().concat(
                                create.as_str(),
                            ).concat(") & (").concat(revset.as_str()).concat(
                                "), which is empty. This is probably not what you intended, as no bookmarks would be created. Not continuing with submit.",
                            ),
                        },
                    );
                }
                let pending = find_pending(&changes);
                SubmitStep {
                    state: SubmitState::Listing {
                        revset: revset.clone(),
                        pending: pending.copy(),
                    },
                    output: silent(),
                    action: SubmitAction::List { revset, pending },
                }
            },
        },
        (
            SubmitState::Listing { revset, pending },
            SubmitEvent::Listed(listed),
        ) => match listed {
            Err(e) => stop(e),
            Ok(labels) => {
                if labels.len() == 0 {
                    return stop(
                        Error::Other {
                            message: "No bookmarks in revset ".to_owned().concat(revset.as_str()),
                        },
                    );
                }
                let change_ids = collect_changes(&labels);
                SubmitStep {
                    state: SubmitState::Finding { labels },
                    output: silent(),
                    action: SubmitAction::FindChanges { change_ids, pending },
                }
            },
        },
        (SubmitState::Finding { labels }, SubmitEvent::Found(found)) => match found {
            Err(e) => stop(e),
            Ok(count) => {
                if count == 0 {
                    let names = collect_names(&labels, true);
                    return stop(
                        Error::Other {
                            message: "Resolved bookmark(s) ".to_owned().concat(
                                text::join(&names, ", ").as_str(),
                            ).concat(
                                " but found no changes to submit — the named bookmark(s) may already be merged into trunk (inspect with `jj log -r <bookmark>`). For a stacked/ancestry-walked submit, also confirm `jj config get user.email` matches the change authors.",
                            ),
                        },
                    );
                }
                SubmitStep {
                    state: SubmitState::Opening { labels },
                    output: silent(),
                    action: SubmitAction::OpenForge,
                }
            },
        },
        (SubmitState::Opening { labels }, SubmitEvent::Opened(opened)) => match opened {
            Err(e) => stop(e),
            Ok(()) => {
                let names = collect_names(&labels, false);
                let mode = if config.dry_run {
                    " (dry run)"
                } else if config.show_plan {
                    " (plan only)"
                } else {
                    ""
                };
                let mut output = silent();
                output.message = Some(
                    "Submitting bookmarks".to_owned().concat(mode).concat(": ").concat(
                        text::join(&names, ", ").as_str(),
                    ),
                );
                SubmitStep { state: SubmitState::Planning, output, action: SubmitAction::Plan }
            },
        },
        (SubmitState::Planning, SubmitEvent::Planned(planned)) => match planned {
            Err(e) => stop(e),
            Ok(plan) => {
                if config.show_plan {
                    let mut output = silent();
                    output.printed = "Submission plan:\n".to_owned().concat(
                        plan.as_str(),
                    ).concat("\n");
                    return SubmitStep {
                        state: SubmitState::Finished,
                        output,
                        action: SubmitAction::Finish(SubmitEnd::Done),
                    };
                }
                SubmitStep {
                    state: SubmitState::Executing,
                    output: silent(),
                    action: SubmitAction::Execute,
                }
            },
        },
        (SubmitState::Executing, SubmitEvent::Executed(executed)) => match executed {
            Err(e) => stop(e),
            Ok(result) => {
                if repo_config.forge == ForgeType::GitHub {
                    return SubmitStep {
                        state: SubmitState::Linking { result },
                        output: silent(),
                        action: SubmitAction::Link,
                    };
                }
                let nothing = String::new();
                assert(nothing@ =~= Seq::<char>::empty());
                conclude(w, result, nothing)
            },
        },
        (SubmitState::Linking { result }, SubmitEvent::Linked(outcome)) => {
            let mut linked = String::new();
            assert(linked@ =~= Seq::<char>::empty());
            render_stack_link_outcome(&mut linked, &outcome);
            assert(linked@ =~= rendered_outcome(outcome@));
            conclude(w, result, linked)
        },
        _ => SubmitStep {
            state: SubmitState::Finished,
            output: silent(),
            action: SubmitAction::Finish(SubmitEnd::Done),
        },
    }
}

// ---------------------------------------------------------------------------
// Laws of a submission
// ---------------------------------------------------------------------------
/// A dry run fetches nothing.
pub proof fn dry_run_fetches_nothing<W: VisualWidth>(
    w: &W,
    c: SubmitCommandConfig,
    repo: Config,
    state: SubmitState,
    event: SubmitEvent,
    step: SubmitStep,
)
    requires
        c.dry_run,
        fits(state, event),
        advances(w, c, repo, state, event, step),
    ensures
        !(step.action is Fetch),
        !(step.state is Fetching),
{
}

/// A submission that only shows its plan executes nothing.
pub proof fn show_plan_executes_nothing<W: VisualWidth>(
    w: &W,
    c: SubmitCommandConfig,
    repo: Config,
    state: SubmitState,
    event: SubmitEvent,
    step: SubmitStep,
)
    requires
        c.show_plan,
        fits(state, event),
        !(state is Executing),
        !(state is Linking),
        advances(w, c, repo, state, event, step),
    ensures
        !(step.action is Execute),
        !(step.state is Executing),
        !(step.state is Linking),
{
}

/// Stacks are linked for GitHub only, and only after the plan has been executed.
pub proof fn only_github_links<W: VisualWidth>(
    w: &W,
    c: SubmitCommandConfig,
    repo: Config,
    state: SubmitState,
    event: SubmitEvent,
    step: SubmitStep,
)
    requires
        fits(state, event),
        advances(w, c, repo, state, event, step),
        step.action is Link,
    ensures
        repo.forge == ForgeType::GitHub,
        state is Executing,
        event matches SubmitEvent::Executed(Ok(_)),
{
}

/// What is found never goes unnoticed: where bookmarks were named and there is nothing to
/// submit, the submission fails.
pub proof fn nothing_to_submit_fails<W: VisualWidth>(
    w: &W,
    c: SubmitCommandConfig,
    repo: Config,
    labels: Vec<BookmarkLabel>,
    step: SubmitStep,
)
    requires
        advances(
            w,
            c,
            repo,
            SubmitState::Finding { labels },
            SubmitEvent::Found(Ok(0)),
            step,
        ),
    ensures
        step.action matches SubmitAction::Finish(SubmitEnd::Failed(_)),
{
}

/// The changes that will have a bookmark created are the same for the lookup of the bookmarks
/// and for that of the changes to submit.
pub proof fn pending_changes_are_carried<W: VisualWidth>(
    w: &W,
    c: SubmitCommandConfig,
    repo: Config,
    revset: String,
    create: String,
    changes: Vec<Change>,
    labels: Vec<BookmarkLabel>,
    listing: SubmitStep,
    finding: SubmitStep,
)
    requires
        changes@.len() > 0,
        labels@.len() > 0,
        advances(
            w,
            c,
            repo,
            SubmitState::Creating { revset, create },
            SubmitEvent::CreateLogged(Ok(changes)),
            listing,
        ),
        advances(w, c, repo, listing.state, SubmitEvent::Listed(Ok(labels)), finding),
    ensures
        listing.action matches SubmitAction::List { pending, .. } && are_pending(
            jj::change_views(changes@),
            pending,
        ),
        finding.action matches SubmitAction::FindChanges { change_ids, pending } && text::texts(
            change_ids@,
        ) == label_changes(labels@) && are_pending(jj::change_views(changes@), pending),
{
}

/// Linking never decides how a submission ends: whatever came of it, the submission ends by its
/// own errors, unless the table of the merge requests cannot be displayed.
pub proof fn linking_fails_no_submission<W: VisualWidth>(
    w: &W,
    c: SubmitCommandConfig,
    repo: Config,
    result: SubmissionResult,
    outcome: StackLinkOutcome,
    step: SubmitStep,
)
    requires
        advances(
            w,
            c,
            repo,
            SubmitState::Linking { result },
            SubmitEvent::Linked(outcome),
            step,
        ),
    ensures
        ends_with_errors(step.action, result.errors@) || (result.merge_requests@.len() > 0
            && exists|rows: Seq<RowView>, reason: Seq<char>| #[trigger]
            displayed(rows, Err::<Seq<char>, Seq<char>>(reason))),
{
    if result.merge_requests@.len() > 0 && !ends_with_errors(step.action, result.errors@) {
        let (rows, r) = choose|rows: Seq<RowView>, r: Result<Seq<char>, Seq<char>>|
            are_rows(w, result.merge_requests@, rows) && #[trigger] displayed(rows, r)
                && match r {
                Ok(table) => step.output.printed@ == rendered_outcome(outcome@) + summary_text(
                    text::texts(result.bookmarks_pushed@),
                    Some(table),
                    result.errors@,
                ) && ends_with_errors(step.action, result.errors@),
                Err(reason) => step.output.printed@ == rendered_outcome(outcome@) && (
                step.action matches SubmitAction::Finish(
                    SubmitEnd::Failed(Error::Io { message }),
                ) && message@ == reason),
            };
        assert(r is Err);
        assert(displayed(rows, Err::<Seq<char>, Seq<char>>(r->Err_0)));
    }
}

proof fn lemma_highlighted_line(name: Seq<char>)
    requires
        !name.contains('\n'),
    ensures
        text::lines(style::magenta_text(name)) == seq![style::magenta_text(name)],
        is_bare(style::magenta_text(name)),
{
    reveal_strlit("\u{1b}[35m");
    reveal_strlit("\u{1b}[39m");
    let start = "\u{1b}[35m"@;
    let end = "\u{1b}[39m"@;
    let s = style::magenta_text(name);
    assert(s[0] == '\u{1b}');
    assert(s.last() == 'm');
    text::lemma_find(s, '\n');
    if s.contains('\n') {
        let i = s.index_of('\n');
        if i < start.len() {
            assert(start[i] == '\n');
        } else if i < start.len() + name.len() {
            assert(name[i - start.len()] == '\n');
        } else {
            assert(end[i - start.len() - name.len()] == '\n');
        }
    }
}

/// A summary holds its table as it is.
proof fn lemma_table_in_summary(
    linked: Seq<char>,
    pushed: Seq<Seq<char>>,
    table: Seq<char>,
    errors: Seq<Error>,
) -> (around: (Seq<char>, Seq<char>))
    ensures
        linked + summary_text(pushed, Some(table), errors) == around.0 + table + around.1,
{
    let title = "\n"@ + style::bold_text("Merge Requests:"@) + "\n\n"@;
    let head = "\n═══════════════════════════════════════\n"@ + style::bold_text("Summary"@)
        + "\n═══════════════════════════════════════\n"@;
    let bookmarks = if pushed.len() == 0 {
        "No bookmarks pushed\n"@
    } else {
        "Pushed: "@ + action::highlighted(pushed) + "\n"@
    };
    let faults = if errors.len() == 0 {
        Seq::empty()
    } else {
        "\n✗ "@ + text::decimal(errors.len()) + " error(s) occurred:\n"@ + error_lines(errors)
    };
    let whole = summary_text(pushed, Some(table), errors);
    assert(whole == head + bookmarks + (title + table + "\n"@) + faults);
    let before = linked + head + bookmarks + title;
    let after = "\n"@ + faults;
    assert(linked + whole =~= before + table + after);
    (before, after)
}

/// Every merge request of a submission is in what is printed, with the bookmark of the update
/// that is reported for it, unless the table cannot be displayed. They come in the order in
/// which they are reported.
pub proof fn summary_shows_every_request<W: VisualWidth>(
    w: &W,
    result: SubmissionResult,
    linked: Seq<char>,
    step: SubmitStep,
) -> (picks: Seq<int>)
    requires
        concludes(w, result, linked, step),
        ends_with_errors(step.action, result.errors@),
        result.merge_requests@.len() > 0,
    ensures
        are_reported(result.merge_requests@, picks),
        forall|i: int|
            0 <= i < picks.len() && !name_at(result, picks, i).contains('\n')
                ==> text::contains_text(
                step.output.printed@,
                style::magenta_text(#[trigger] name_at(result, picks, i)),
            ),
        forall|i: int, j: int|
            0 <= i < j < picks.len() && !name_at(result, picks, i).contains('\n') && !name_at(
                result,
                picks,
                j,
            ).contains('\n') ==> text::comes_before(
                step.output.printed@,
                style::magenta_text(#[trigger] name_at(result, picks, i)),
                style::magenta_text(#[trigger] name_at(result, picks, j)),
            ),
{
    let updates = result.merge_requests@;
    let pushed = text::texts(result.bookmarks_pushed@);
    let printed = step.output.printed@;
    let (rows, r) = choose|rows: Seq<RowView>, r: Result<Seq<char>, Seq<char>>|
        are_rows(w, updates, rows) && #[trigger] displayed(rows, r) && match r {
            Ok(table) => step.output.printed@ == linked + summary_text(
                pushed,
                Some(table),
                result.errors@,
            ) && ends_with_errors(step.action, result.errors@),
            Err(reason) => step.output.printed@ == linked && (step.action matches SubmitAction::Finish(
                SubmitEnd::Failed(Error::Io { message }),
            ) && message@ == reason),
        };
    assert(r is Ok);
    let table = r->Ok_0;
    let picks = choose|picks: Seq<int>| #[trigger]
        are_reported(updates, picks) && rows == Seq::new(
            picks.len(),
            |i: int| row_of(w, updates[picks[i]]),
        );
    let (before, after) = lemma_table_in_summary(linked, pushed, table, result.errors@);
    assert forall|i: int|
        0 <= i < picks.len() && !name_at(result, picks, i).contains('\n') implies text::contains_text(
        printed,
        style::magenta_text(#[trigger] name_at(result, picks, i)),
    ) by {
        lemma_name_line(w, result, picks, rows, i);
        lemma_line_shown(rows, table, i, 0, 0);
        text::lemma_contains_inside(
            before,
            table,
            after,
            style::magenta_text(name_at(result, picks, i)),
        );
    }
    assert forall|i: int, j: int|
        0 <= i < j < picks.len() && !name_at(result, picks, i).contains('\n') && !name_at(
            result,
            picks,
            j,
        ).contains('\n') implies text::comes_before(
        printed,
        style::magenta_text(#[trigger] name_at(result, picks, i)),
        style::magenta_text(#[trigger] name_at(result, picks, j)),
    ) by {
        lemma_name_line(w, result, picks, rows, i);
        lemma_name_line(w, result, picks, rows, j);
        displayed_table_keeps_the_order(rows, table, i, 0, 0, j, 0, 0);
        text::lemma_before_inside(
            before,
            table,
            after,
            style::magenta_text(name_at(result, picks, i)),
            style::magenta_text(name_at(result, picks, j)),
        );
    }
    picks
}

/// The bookmark of the update that is reported at a position.
pub open spec fn name_at(result: SubmissionResult, picks: Seq<int>, i: int) -> Seq<char> {
    result.merge_requests@[picks[i]].bookmark@
}

proof fn lemma_name_line<W: VisualWidth>(
    w: &W,
    result: SubmissionResult,
    picks: Seq<int>,
    rows: Seq<RowView>,
    i: int,
)
    requires
        rows == Seq::new(picks.len(), |i: int| row_of(w, result.merge_requests@[picks[i]])),
        0 <= i < picks.len(),
        !name_at(result, picks, i).contains('\n'),
    ensures
        row_height(rows[i]) > 0,
        line_parts(rows[i], 0)[0] == style::magenta_text(name_at(result, picks, i)),
        is_bare(line_parts(rows[i], 0)[0]),
{
    lemma_highlighted_line(name_at(result, picks, i));
    assert(rows[i].bookmark == style::magenta_text(name_at(result, picks, i)));
    assert(text::lines(rows[i].bookmark).len() == 1);
}

/// How many steps a submission has yet to take at most.
pub open spec fn steps_left(state: SubmitState) -> nat {
    match state {
        SubmitState::Ready => 9,
        SubmitState::Fetching => 8,
        SubmitState::Creating { .. } => 7,
        SubmitState::Listing { .. } => 6,
        SubmitState::Finding { .. } => 5,
        SubmitState::Opening { .. } => 4,
        SubmitState::Planning => 3,
        SubmitState::Executing => 2,
        SubmitState::Linking { .. } => 1,
        SubmitState::Finished => 0,
    }
}

/// Every step brings a submission nearer to its end, and it has ended exactly where the
/// action is to finish.
pub proof fn every_step_makes_progress<W: VisualWidth>(
    w: &W,
    c: SubmitCommandConfig,
    repo: Config,
    state: SubmitState,
    event: SubmitEvent,
    step: SubmitStep,
)
    requires
        fits(state, event),
        advances(w, c, repo, state, event, step),
    ensures
        steps_left(step.state) < steps_left(state),
        step.state is Finished <==> step.action is Finish,
{
}

// ---------------------------------------------------------------------------
// Laws of the course of a submission
// ---------------------------------------------------------------------------
/// A submission for which changes were found goes on with them, however many there are: the forge is
/// set up next, with the bookmarks that were named.
pub proof fn found_changes_are_submitted<W: VisualWidth>(
    w: &W,
    c: SubmitCommandConfig,
    repo: Config,
    labels: Vec<BookmarkLabel>,
    count: usize,
    step: SubmitStep,
)
    requires
        call_ensures(
            submit::<W>,
            (w, &c, &repo, SubmitState::Finding { labels }, SubmitEvent::Found(Ok(count))),
            step,
        ),
        count > 0,
    ensures
        step.action is OpenForge,
        step.state matches SubmitState::Opening { labels: l } && l == labels,
        step.output.message is None,
        step.output.printed@.len() == 0,
{
}

/// Where bookmarks were named and no changes were found, the submission stops with an error that
/// names every one of them.
pub proof fn bookmarks_without_changes_are_named<W: VisualWidth>(
    w: &W,
    c: SubmitCommandConfig,
    repo: Config,
    labels: Vec<BookmarkLabel>,
    step: SubmitStep,
    i: int,
)
    requires
        call_ensures(
            submit::<W>,
            (w, &c, &repo, SubmitState::Finding { labels }, SubmitEvent::Found(Ok(0usize))),
            step,
        ),
    ensures
        step.state is Finished,
        step.action matches SubmitAction::Finish(SubmitEnd::Failed(e)) && (0 <= i < labels@.len()
            ==> text::contains_text(e.text(), labels@[i].raw_name@)),
{
    if 0 <= i < labels@.len() {
        let names = raw_names(labels@);
        lemma_listed_in_text(
            "Resolved bookmark(s) "@,
            names,
            ", "@,
            " but found no changes to submit — the named bookmark(s) may already be merged into trunk (inspect with `jj log -r <bookmark>`). For a stacked/ancestry-walked submit, also confirm `jj config get user.email` matches the change authors."@,
            i,
        );
        assert(names[i] == labels@[i].raw_name@);
    }
}

proof fn lemma_listed_in_text(
    head: Seq<char>,
    list: Seq<Seq<char>>,
    sep: Seq<char>,
    tail: Seq<char>,
    i: int,
)
    requires
        0 <= i < list.len(),
    ensures
        text::contains_text(head + text::joined(list, sep) + tail, list[i]),
{
    lemma_holds_itself(list[i]);
    text::lemma_contains_joined(list, sep, i, list[i]);
    text::lemma_contains_inside(head, text::joined(list, sep), tail, list[i]);
}

proof fn lemma_holds_itself(s: Seq<char>)
    ensures
        text::contains_text(s, s),
{
    text::lemma_contains_middle(Seq::empty(), s, Seq::empty());
    assert(Seq::<char>::empty() + s + Seq::<char>::empty() =~= s);
}

/// Whatever fails stops the submission there and then, with that error.
pub proof fn errors_stop_the_submission<W: VisualWidth>(
    w: &W,
    c: SubmitCommandConfig,
    repo: Config,
    state: SubmitState,
    event: SubmitEvent,
    e: Error,
    step: SubmitStep,
)
    requires
        call_ensures(submit::<W>, (w, &c, &repo, state, event), step),
        fits(state, event),
        ({
            ||| event == SubmitEvent::Fetched(Err(e))
            ||| event == SubmitEvent::CreateLogged(Err(e))
            ||| event == SubmitEvent::Listed(Err(e))
            ||| event == SubmitEvent::Found(Err(e))
            ||| event == SubmitEvent::Opened(Err(e))
            ||| event == SubmitEvent::Planned(Err(e))
            ||| event == SubmitEvent::Executed(Err(e))
        }),
    ensures
        step.state is Finished,
        step.action == SubmitAction::Finish(SubmitEnd::Failed(e)),
{
}

/// What is fetched first: nothing in a dry run or where fetching is disabled; else what the
/// configuration says, by default the bookmarks that are tracked, and from the given remote where
/// one is given. A dry run shows the words instead.
pub proof fn fetching_comes_first<W: VisualWidth>(
    w: &W,
    c: SubmitCommandConfig,
    repo: Config,
    words: Option<Vec<&str>>,
    step: SubmitStep,
    i: int,
)
    requires
        call_ensures(
            submit::<W>,
            (w, &c, &repo, SubmitState::Ready, SubmitEvent::Start),
            step,
        ),
        call_ensures(RepoFetchConfig::to_args, (&repo.fetch,), words),
    ensures
        step.action is Fetch <==> words is Some && !c.dry_run,
        step.action is Fetch <==> step.state is Fetching,
        step.action matches SubmitAction::Fetch { args } ==> {
            let n = words->0@.len() as int;
            &&& 0 <= i < n ==> args@[i]@ == words->0@[i]@
            &&& c.remote is None ==> args@.len() == n
            &&& c.remote matches Some(remote) ==> args@.len() == n + 2 && args@[n]@ == "--remote"@
                && args@[n + 1]@ == remote@
        },
        words is Some && c.dry_run ==> step.output.message is Some && (0 <= i < words->0@.len()
            ==> text::contains_text(step.output.message->0@, words->0@[i]@)),
{
    if let Some(list) = words {
        let all = text::slices(list@);
        assert(all.len() == list@.len());
        let n = all.len() as int;
        let meant = fetch_args(repo.fetch, text::opt_text(c.remote))->0;
        if let SubmitAction::Fetch { args } = step.action {
            assert(text::texts(args@) == meant);
            assert(text::texts(args@).len() == args@.len());
            if 0 <= i < n {
                assert(text::texts(args@)[i] == args@[i]@);
                assert(all[i] == list@[i]@);
            }
            if c.remote is Some {
                assert(text::texts(args@)[n] == args@[n]@);
                assert(text::texts(args@)[n + 1] == args@[n + 1]@);
            }
        }
        if c.dry_run && 0 <= i < n {
            assert(all[i] == list@[i]@);
            assert(meant[i] == all[i]);
            lemma_listed_in_text(
                "Would run `jj "@,
                meant,
                " "@,
                "` before planning (note that the plan may change based on newly fetched data!)"@,
                i,
            );
        }
    }
}

/// What the options ask for. A revset that is given, in one of the two ways and without
/// `--tracked`, is the revset; `--tracked` alone is all tracked bookmarks that are one's own and
/// not in the trunk; with none of them it is what bookmarks are to be created for. Everything else
/// is an error.
pub proof fn options_give_the_revset(
    c: SubmitCommandConfig,
    r: Result<GetBookmarksOptions, Error>,
    revset: String,
)
    requires
        call_ensures(SubmitCommandConfig::to_get_bookmarks_options, (&c,), r),
        r matches Ok(options) ==> call_ensures(GetBookmarksOptions::to_revset, (&options,), revset),
    ensures
        ({
            let o = c.revset_options;
            &&& !o.all_tracked && o.revset is None ==> (o.revset_positional matches Some(given)
                ==> r is Ok && revset@ == given@)
            &&& !o.all_tracked && o.revset_positional is None ==> (o.revset matches Some(given)
                ==> r is Ok && revset@ == given@)
            &&& o.all_tracked && o.revset_positional is None && o.revset is None ==> r is Ok
                && revset@ == "(mine() & tracked_remote_bookmarks()) ~ trunk()"@
            &&& !o.all_tracked && o.revset_positional is None && o.revset is None ==> (
            c.create matches Some(create) ==> r is Ok && revset@ == create@)
            &&& o.revset_positional is Some && o.revset is Some ==> r is Err
            &&& o.all_tracked && (o.revset_positional is Some || o.revset is Some) ==> r is Err
            &&& !o.all_tracked && o.revset_positional is None && o.revset is None
                && c.create is None ==> r is Err
        }),
{
}

/// After the fetch, or without one, the bookmarks of the revset are looked up; where bookmarks are to
/// be created, first the changes that are both in that revset and in the one to create for.
pub proof fn revset_is_looked_up<W: VisualWidth>(
    w: &W,
    c: SubmitCommandConfig,
    repo: Config,
    state: SubmitState,
    event: SubmitEvent,
    options: Result<GetBookmarksOptions, Error>,
    revset: String,
    step: SubmitStep,
)
    requires
        ({
            ||| state is Fetching && event == SubmitEvent::Fetched(Ok(()))
            ||| state is Ready && event is Start && c.dry_run
            ||| state is Ready && event is Start && repo.fetch == RepoFetchConfig::Enabled(false)
        }),
        call_ensures(submit::<W>, (w, &c, &repo, state, event), step),
        call_ensures(SubmitCommandConfig::to_get_bookmarks_options, (&c,), options),
        options matches Ok(o) ==> call_ensures(GetBookmarksOptions::to_revset, (&o,), revset),
    ensures
        options matches Err(e) ==> step.state is Finished && (step.action matches
            SubmitAction::Finish(SubmitEnd::Failed(told)) && told.text() == e.text()),
        options is Ok && c.create is None ==> {
            &&& step.state matches SubmitState::Listing { revset: r, pending } && r@ == revset@
                && pending@ == Set::<Seq<char>>::empty()
            &&& step.action matches SubmitAction::List { revset: r, pending } && r@ == revset@
                && pending@ == Set::<Seq<char>>::empty()
        },
        step.output.current is Some <==> options is Ok && c.create is Some,
        step.output.current matches Some(current) ==> current@ == "Creating and pushing bookmarks"@,
        options is Ok ==> (c.create matches Some(create) ==> {
            &&& step.state matches SubmitState::Creating { revset: r, create: k } && r@ == revset@
                && k@ == create@
            &&& step.action matches SubmitAction::LogForCreate { revset: r } && r@ == "("@ + create@
                + ") & ("@ + revset@ + ")"@
        }),
{
}

/// The changes that bookmarks are created for are those of the log that have none. Where the log is
/// empty the submission stops; else the bookmarks of the revset are looked up.
pub proof fn changes_without_bookmarks_get_one<W: VisualWidth>(
    w: &W,
    c: SubmitCommandConfig,
    repo: Config,
    revset: String,
    create: String,
    changes: Vec<Change>,
    step: SubmitStep,
    id: Seq<char>,
)
    requires
        call_ensures(
            submit::<W>,
            (
                w,
                &c,
                &repo,
                SubmitState::Creating { revset, create },
                SubmitEvent::CreateLogged(Ok(changes)),
            ),
            step,
        ),
    ensures
        changes@.len() == 0 ==> step.state is Finished && (step.action matches SubmitAction::Finish(
            SubmitEnd::Failed(e),
        ) && text::contains_text(e.text(), create@) && text::contains_text(e.text(), revset@)),
        changes@.len() > 0 ==> {
            &&& step.state is Listing
            &&& step.action matches SubmitAction::List { revset: r, pending } && r@ == revset@ && (
            pending@.contains(id) <==> exists|i: int|
                0 <= i < changes@.len() && (#[trigger] changes@[i]).change_id@ == id
                    && changes@[i].bookmarks@.len() == 0)
        },
{
    let views = jj::change_views(changes@);
    if changes@.len() == 0 {
        let e = step.action->Finish_0->Failed_0;
        let head = "Your change parameter resolved to a revset ("@;
        let mid = ") & ("@;
        let tail =
            "), which is empty. This is probably not what you intended, as no bookmarks would be created. Not continuing with submit."@;
        text::lemma_contains_middle(head, create@, mid + revset@ + tail);
        assert(e.text() =~= head + create@ + (mid + revset@ + tail));
        text::lemma_contains_middle(head + create@ + mid, revset@, tail);
        assert(e.text() =~= head + create@ + mid + revset@ + tail);
    } else {
        if is_pending(views, id) {
            let i = choose|i: int|
                0 <= i < views.len() && (#[trigger] views[i]).bookmarks.len() == 0
                    && views[i].change_id == id;
            assert(views[i] == changes@[i]@);
            assert(jj::bookmark_views(changes@[i].bookmarks@).len() == changes@[i].bookmarks@.len());
            assert(changes@[i].change_id@ == id);
        }
        if exists|i: int|
            0 <= i < changes@.len() && (#[trigger] changes@[i]).change_id@ == id
                && changes@[i].bookmarks@.len() == 0 {
            let i = choose|i: int|
                0 <= i < changes@.len() && (#[trigger] changes@[i]).change_id@ == id
                    && changes@[i].bookmarks@.len() == 0;
            assert(views[i] == changes@[i]@);
            assert(jj::bookmark_views(changes@[i].bookmarks@).len() == 0);
            assert(views[i].bookmarks.len() == 0);
        }
    }
}

/// Of the bookmarks that are listed all are looked for, by their changes and in their order, with the
/// changes that will have one created. Where none is listed the submission stops and tells the
/// revset.
pub proof fn listed_bookmarks_are_looked_for<W: VisualWidth>(
    w: &W,
    c: SubmitCommandConfig,
    repo: Config,
    revset: String,
    pending: TextSet,
    labels: Vec<BookmarkLabel>,
    step: SubmitStep,
    i: int,
)
    requires
        call_ensures(
            submit::<W>,
            (
                w,
                &c,
                &repo,
                SubmitState::Listing { revset, pending },
                SubmitEvent::Listed(Ok(labels)),
            ),
            step,
        ),
    ensures
        labels@.len() == 0 ==> step.state is Finished && (step.action matches SubmitAction::Finish(
            SubmitEnd::Failed(e),
        ) && text::contains_text(e.text(), revset@)),
        labels@.len() > 0 ==> {
            &&& step.state matches SubmitState::Finding { labels: l } && l == labels
            &&& step.action matches SubmitAction::FindChanges { change_ids, pending: p } && p@
                == pending@ && change_ids@.len() == labels@.len() && (0 <= i < labels@.len()
                ==> change_ids@[i]@ == labels@[i].change_id@)
        },
{
    if labels@.len() == 0 {
        let head = "No bookmarks in revset "@;
        text::lemma_contains_middle(head, revset@, Seq::empty());
        assert(head + revset@ + Seq::<char>::empty() =~= head + revset@);
    } else {
        let ids = step.action->change_ids@;
        assert(text::texts(ids).len() == ids.len());
        if 0 <= i < labels@.len() {
            assert(text::texts(ids)[i] == ids[i]@);
        }
    }
}

/// Once the forge is set up the submission is announced, with every bookmark as it is shown, and
/// planned. A dry run and a plan that is only shown are announced as such.
pub proof fn submission_is_announced<W: VisualWidth>(
    w: &W,
    c: SubmitCommandConfig,
    repo: Config,
    labels: Vec<BookmarkLabel>,
    step: SubmitStep,
    i: int,
    j: int,
)
    requires
        call_ensures(
            submit::<W>,
            (w, &c, &repo, SubmitState::Opening { labels }, SubmitEvent::Opened(Ok(()))),
            step,
        ),
    ensures
        step.state is Planning,
        step.action is Plan,
        step.output.message is Some,
        0 <= i < labels@.len() ==> text::contains_text(
            step.output.message->0@,
            labels@[i].shown@,
        ),
        0 <= i < j < labels@.len() ==> text::comes_before(
            step.output.message->0@,
            labels@[i].shown@,
            labels@[j].shown@,
        ),
        c.dry_run ==> text::contains_text(step.output.message->0@, " (dry run)"@),
        !c.dry_run && c.show_plan ==> text::contains_text(
            step.output.message->0@,
            " (plan only)"@,
        ),
{
    let names = shown_names(labels@);
    let list = text::joined(names, ", "@);
    let mark = if c.dry_run {
        " (dry run)"@
    } else if c.show_plan {
        " (plan only)"@
    } else {
        ""@
    };
    let head = "Submitting bookmarks"@ + mark + ": "@;
    let message = step.output.message->0@;
    assert(message =~= head + list + Seq::<char>::empty());
    text::lemma_contains_middle("Submitting bookmarks"@, mark, ": "@ + list);
    assert(message =~= "Submitting bookmarks"@ + mark + (": "@ + list));
    if 0 <= i < labels@.len() {
        assert(names[i] == labels@[i].shown@);
        lemma_listed_in_text(head, names, ", "@, Seq::empty(), i);
        if i < j < labels@.len() {
            assert(names[j] == labels@[j].shown@);
            text::lemma_joined_in_order(names, ", "@, i, j);
            text::lemma_before_inside(head, list, Seq::empty(), names[i], names[j]);
        }
    }
}

/// A plan that is only to be shown is printed, and that is the end, without an error; every other
/// plan is executed.
pub proof fn plan_is_shown_or_executed<W: VisualWidth>(
    w: &W,
    c: SubmitCommandConfig,
    repo: Config,
    plan: String,
    step: SubmitStep,
)
    requires
        call_ensures(
            submit::<W>,
            (w, &c, &repo, SubmitState::Planning, SubmitEvent::Planned(Ok(plan))),
            step,
        ),
    ensures
        c.show_plan ==> step.action == SubmitAction::Finish(SubmitEnd::Done)
            && step.state is Finished && text::contains_text(step.output.printed@, plan@),
        !c.show_plan ==> step.action is Execute && step.state is Executing,
{
    if c.show_plan {
        text::lemma_contains_middle("Submission plan:\n"@, plan@, "\n"@);
    }
}

/// On GitHub the stacks are linked after the execution, with all that it gave; on no other forge.
pub proof fn github_links_what_was_submitted<W: VisualWidth>(
    w: &W,
    c: SubmitCommandConfig,
    repo: Config,
    result: SubmissionResult,
    step: SubmitStep,
)
    requires
        call_ensures(
            submit::<W>,
            (w, &c, &repo, SubmitState::Executing, SubmitEvent::Executed(Ok(result))),
            step,
        ),
    ensures
        repo.forge == ForgeType::GitHub ==> step.action is Link && (step.state matches
            SubmitState::Linking { result: r } && r == result),
        repo.forge != ForgeType::GitHub ==> step.action is Finish && step.state is Finished,
{
}

proof fn lemma_error_lines(errors: Seq<Error>, i: int)
    requires
        0 <= i < errors.len(),
    ensures
        text::contains_text(error_lines(errors), errors[i].text()),
    decreases errors.len(),
{
    let before = errors.drop_last();
    let told = errors.last().text();
    if i < before.len() {
        lemma_error_lines(before, i);
        let tail = "  • "@ + told + "\n"@;
        text::lemma_contains_inside(
            Seq::empty(),
            error_lines(before),
            tail,
            errors[i].text(),
        );
        assert(Seq::<char>::empty() + error_lines(before) + tail =~= error_lines(errors));
    } else {
        text::lemma_contains_middle(error_lines(before) + "  • "@, told, "\n"@);
    }
}

/// A summary tells everything that is in it: every bookmark that was pushed, or that none was, the
/// table as it is, and every error.
pub proof fn summary_tells_everything(
    pushed: Vec<String>,
    table: Option<&str>,
    errors: Vec<Error>,
    r: String,
    i: int,
)
    requires
        call_ensures(write_summary, (&pushed, table, &errors), r),
    ensures
        0 <= i < pushed@.len() ==> text::contains_text(r@, pushed@[i]@),
        pushed@.len() == 0 ==> text::contains_text(r@, "No bookmarks pushed"@),
        table matches Some(table) ==> text::contains_text(r@, table@),
        0 <= i < errors@.len() ==> text::contains_text(r@, errors@[i].text()),
{
    lemma_summary(text::texts(pushed@), text::opt_slice(table), errors@, i);
    if 0 <= i < pushed@.len() {
        assert(text::texts(pushed@)[i] == pushed@[i]@);
    }
    assert(text::texts(pushed@).len() == pushed@.len());
}

proof fn lemma_summary(
    pushed: Seq<Seq<char>>,
    table: Option<Seq<char>>,
    errors: Seq<Error>,
    i: int,
)
    ensures
        0 <= i < pushed.len() ==> text::contains_text(
            summary_text(pushed, table, errors),
            pushed[i],
        ),
        pushed.len() == 0 ==> text::contains_text(
            summary_text(pushed, table, errors),
            "No bookmarks pushed"@,
        ),
        table matches Some(table) ==> text::contains_text(
            summary_text(pushed, Some(table), errors),
            table,
        ),
        0 <= i < errors.len() ==> text::contains_text(
            summary_text(pushed, table, errors),
            errors[i].text(),
        ),
{
    let whole = summary_text(pushed, table, errors);
    let head = "\n═══════════════════════════════════════\n"@ + style::bold_text("Summary"@)
        + "\n═══════════════════════════════════════\n"@;
    let bookmarks = if pushed.len() == 0 {
        "No bookmarks pushed\n"@
    } else {
        "Pushed: "@ + action::highlighted(pushed) + "\n"@
    };
    let requests = match table {
        Some(table) => "\n"@ + style::bold_text("Merge Requests:"@) + "\n\n"@ + table + "\n"@,
        None => Seq::empty(),
    };
    let faults = if errors.len() == 0 {
        Seq::empty()
    } else {
        "\n✗ "@ + text::decimal(errors.len()) + " error(s) occurred:\n"@ + error_lines(errors)
    };
    assert(whole =~= head + bookmarks + (requests + faults));
    if 0 <= i < pushed.len() {
        action::highlighting_shows_every_name(pushed, i);
        text::lemma_contains_inside(
            "Pushed: "@,
            action::highlighted(pushed),
            "\n"@,
            pushed[i],
        );
        text::lemma_contains_inside(head, bookmarks, requests + faults, pushed[i]);
    }
    if pushed.len() == 0 {
        reveal_strlit("No bookmarks pushed\n");
        reveal_strlit("No bookmarks pushed");
        reveal_strlit("\n");
        assert("No bookmarks pushed\n"@ =~= Seq::<char>::empty() + "No bookmarks pushed"@ + "\n"@);
        text::lemma_contains_middle(Seq::empty(), "No bookmarks pushed"@, "\n"@);
        text::lemma_contains_inside(head, bookmarks, requests + faults, "No bookmarks pushed"@);
    }
    if let Some(t) = table {
        let title = "\n"@ + style::bold_text("Merge Requests:"@) + "\n\n"@;
        text::lemma_contains_middle(head + bookmarks + title, t, "\n"@ + faults);
        assert(whole =~= head + bookmarks + title + t + ("\n"@ + faults));
    }
    if 0 <= i < errors.len() {
        lemma_error_lines(errors, i);
        let start = head + bookmarks + requests + ("\n✗ "@ + text::decimal(errors.len())
            + " error(s) occurred:\n"@);
        text::lemma_contains_inside(start, error_lines(errors), Seq::empty(), errors[i].text());
        assert(whole =~= start + error_lines(errors) + Seq::<char>::empty());
    }
}

/// How a submission ends. It ends by its errors: well where there are none, and else with all of
/// them, in their order; only a table that cannot be displayed ends it otherwise. What is printed
/// starts with what came of the linking and tells every bookmark that was pushed and every error.
pub proof fn submission_ends_by_its_errors<W: VisualWidth>(
    w: &W,
    c: SubmitCommandConfig,
    repo: Config,
    result: SubmissionResult,
    outcome: StackLinkOutcome,
    linked: bool,
    step: SubmitStep,
    i: int,
)
    requires
        linked ==> call_ensures(
            submit::<W>,
            (w, &c, &repo, SubmitState::Linking { result }, SubmitEvent::Linked(outcome)),
            step,
        ),
        !linked ==> repo.forge != ForgeType::GitHub && call_ensures(
            submit::<W>,
            (w, &c, &repo, SubmitState::Executing, SubmitEvent::Executed(Ok(result))),
            step,
        ),
    ensures
        step.state is Finished,
        step.action is Finish,
        ({
            ||| result.errors@.len() == 0 && step.action == SubmitAction::Finish(SubmitEnd::Done)
            ||| result.errors@.len() > 0 && (step.action matches SubmitAction::Finish(
                SubmitEnd::Errors(list),
            ) && list@ == result.errors@)
            ||| result.merge_requests@.len() > 0 && (step.action matches SubmitAction::Finish(
                SubmitEnd::Failed(e),
            ) && e is Io)
        }),
        !(step.action->Finish_0 is Failed) ==> {
            &&& 0 <= i < result.bookmarks_pushed@.len() ==> text::contains_text(
                step.output.printed@,
                result.bookmarks_pushed@[i]@,
            )
            &&& 0 <= i < result.errors@.len() ==> text::contains_text(
                step.output.printed@,
                result.errors@[i].text(),
            )
        },
        linked ==> text::starts_with(step.output.printed@, rendered_outcome(outcome@)),
{
    let shown = if linked {
        rendered_outcome(outcome@)
    } else {
        Seq::<char>::empty()
    };
    assert(concludes(w, result, shown, step));
    let pushed = text::texts(result.bookmarks_pushed@);
    assert(pushed.len() == result.bookmarks_pushed@.len());
    let printed = step.output.printed@;
    if result.merge_requests@.len() == 0 {
        lemma_after(shown, pushed, None, result.errors@, printed, i);
    } else {
        let (rows, r) = choose|rows: Seq<RowView>, r: Result<Seq<char>, Seq<char>>|
            are_rows(w, result.merge_requests@, rows) && #[trigger] displayed(rows, r)
                && match r {
                Ok(table) => step.output.printed@ == shown + summary_text(
                    pushed,
                    Some(table),
                    result.errors@,
                ) && ends_with_errors(step.action, result.errors@),
                Err(reason) => step.output.printed@ == shown && (
                step.action matches SubmitAction::Finish(
                    SubmitEnd::Failed(Error::Io { message }),
                ) && message@ == reason),
            };
        match r {
            Ok(table) => lemma_after(shown, pushed, Some(table), result.errors@, printed, i),
            Err(reason) => {
                assert(printed.subrange(0, shown.len() as int) =~= shown);
            },
        }
    }
    if 0 <= i < pushed.len() {
        assert(pushed[i] == result.bookmarks_pushed@[i]@);
    }
}

proof fn lemma_after(
    shown: Seq<char>,
    pushed: Seq<Seq<char>>,
    table: Option<Seq<char>>,
    errors: Seq<Error>,
    printed: Seq<char>,
    i: int,
)
    requires
        printed == shown + summary_text(pushed, table, errors),
    ensures
        text::starts_with(printed, shown),
        0 <= i < pushed.len() ==> text::contains_text(printed, pushed[i]),
        0 <= i < errors.len() ==> text::contains_text(printed, errors[i].text()),
{
    let summary = summary_text(pushed, table, errors);
    lemma_summary(pushed, table, errors, i);
    assert(printed.subrange(0, shown.len() as int) =~= shown);
    assert(printed =~= shown + summary + Seq::<char>::empty());
    if 0 <= i < pushed.len() {
        text::lemma_contains_inside(shown, summary, Seq::empty(), pushed[i]);
    }
    if 0 <= i < errors.len() {
        text::lemma_contains_inside(shown, summary, Seq::empty(), errors[i].text());
    }
}

proof fn lemma_stack_lines(stacks: Seq<Seq<u64>>, i: int, k: int)
    requires
        0 <= i < stacks.len(),
        0 <= k < stacks[i].len(),
    ensures
        text::contains_text(
            stack_lines(stacks),
            "#"@ + text::decimal(stacks[i][k] as nat),
        ),
    decreases stacks.len(),
{
    let before = stacks.drop_last();
    let one = "#"@ + text::decimal(stacks[i][k] as nat);
    let start = style::bold_text(style::green_text("Stacked:"@)) + " "@;
    let last = stack_link::prs_text(stacks.last(), " → "@);
    if i < before.len() {
        lemma_stack_lines(before, i, k);
        text::lemma_contains_inside(
            Seq::empty(),
            stack_lines(before),
            start + last + "\n"@,
            one,
        );
        assert(Seq::<char>::empty() + stack_lines(before) + (start + last + "\n"@)
            =~= stack_lines(stacks));
    } else {
        stack_link::lemma_prs_shown(stacks[i], " → "@, k);
        text::lemma_contains_inside(stack_lines(before) + start, last, "\n"@, one);
        assert(stack_lines(before) + start + last + "\n"@ =~= stack_lines(stacks));
    }
}

proof fn lemma_note_lines(notes: Seq<Seq<char>>, i: int)
    requires
        0 <= i < notes.len(),
    ensures
        text::contains_text(note_lines(notes), notes[i]),
    decreases notes.len(),
{
    let before = notes.drop_last();
    if i < before.len() {
        lemma_note_lines(before, i);
        let tail = style::yellow_text("Note: "@ + notes.last()) + "\n"@;
        text::lemma_contains_inside(Seq::empty(), note_lines(before), tail, notes[i]);
        assert(Seq::<char>::empty() + note_lines(before) + tail =~= note_lines(notes));
    } else {
        let line = "Note: "@ + notes[i];
        text::lemma_contains_middle("Note: "@, notes[i], Seq::empty());
        assert("Note: "@ + notes[i] + Seq::<char>::empty() =~= line);
        text::lemma_contains_inside("\u{1b}[33m"@, line, "\u{1b}[39m"@, notes[i]);
        assert(style::yellow_text(line) == "\u{1b}[33m"@ + line + "\u{1b}[39m"@);
        text::lemma_contains_inside(
            note_lines(before),
            style::yellow_text(line),
            "\n"@,
            notes[i],
        );
    }
}

/// What is shown of a stack link is added to the output. Of linked stacks every PR is shown, and every
/// note; of a failure the warning; of what was skipped nothing.
pub proof fn outcome_is_shown(
    output: &mut String,
    outcome: StackLinkOutcome,
    i: int,
    k: int,
)
    requires
        call_ensures(render_stack_link_outcome, (output, &outcome), ()),
    ensures
        text::starts_with(final(output)@, old(output)@),
        outcome is Skipped ==> final(output)@ == old(output)@,
        outcome matches StackLinkOutcome::Failed { warning } ==> text::contains_text(
            final(output)@,
            warning@,
        ),
        outcome matches StackLinkOutcome::Linked { stacks, unlinked } ==> {
            &&& 0 <= i < stacks@.len() && 0 <= k < stacks@[i]@.len() ==> text::contains_text(
                final(output)@,
                "#"@ + text::decimal(stacks@[i]@[k] as nat),
            )
            &&& 0 <= i < unlinked@.len() ==> text::contains_text(
                final(output)@,
                unlinked@[i]@,
            )
        },
{
    let before = old(output)@;
    let after = final(output)@;
    let told = rendered_outcome(outcome@);
    let none = Seq::<char>::empty();
    assert(after.subrange(0, before.len() as int) =~= before);
    assert(after =~= before + told + none);
    match outcome {
        StackLinkOutcome::Skipped(_) => {
            assert(after =~= before);
        },
        StackLinkOutcome::Failed { warning } => {
            let line = "Warning: "@ + warning@;
            let start = "\u{1b}[33m"@ + "Warning: "@;
            let end = "\u{1b}[39m"@ + "\n"@;
            text::lemma_contains_middle(before + start, warning@, end);
            assert(style::yellow_text(line) == "\u{1b}[33m"@ + line + "\u{1b}[39m"@);
            assert(after =~= before + start + warning@ + end);
        },
        StackLinkOutcome::Linked { stacks, unlinked } => {
            let all = stack_link::stack_views(stacks@);
            let notes = text::texts(unlinked@);
            assert(told == stack_lines(all) + note_lines(notes));
            if 0 <= i < stacks@.len() && 0 <= k < stacks@[i]@.len() {
                assert(all[i] == stacks@[i]@);
                lemma_stack_lines(all, i, k);
                let one = "#"@ + text::decimal(stacks@[i]@[k] as nat);
                text::lemma_contains_inside(before, stack_lines(all), note_lines(notes), one);
                assert(after =~= before + stack_lines(all) + note_lines(notes));
            }
            if 0 <= i < unlinked@.len() {
                assert(notes[i] == unlinked@[i]@);
                lemma_note_lines(notes, i);
                text::lemma_contains_inside(
                    before + stack_lines(all),
                    note_lines(notes),
                    none,
                    notes[i],
                );
                assert(after =~= before + stack_lines(all) + note_lines(notes) + none);
            }
        },
    }
}

/// One update is reported for each merge request, in the order of their IDs: the first, except that
/// none is reported as updated that was also created.
pub proof fn one_update_is_reported_for_each(
    updates: Vec<MRUpdate>,
    picks: Vec<usize>,
    i: int,
    j: int,
    u: int,
)
    requires
        call_ensures(pick_reported, (&updates,), picks),
    ensures
        0 <= u < updates@.len() ==> exists|k: int|
            0 <= k < picks@.len() && updates@[#[trigger] picks@[k] as int].iid@
                == updates@[u].iid@,
        0 <= i < picks@.len() ==> picks@[i] < updates@.len(),
        0 <= i < j < picks@.len() ==> text::text_lt(
            updates@[picks@[i] as int].iid@,
            updates@[picks@[j] as int].iid@,
        ),
        0 <= i < picks@.len() && 0 <= u < updates@.len() && updates@[u].iid@
            == updates@[picks@[i] as int].iid@ ==> {
            &&& updates@[u].update_type == MRUpdateType::Created
                ==> updates@[picks@[i] as int].update_type != MRUpdateType::Updated
            &&& u < picks@[i] ==> updates@[u].update_type == MRUpdateType::Updated
        },
{
    let at = positions(picks@);
    assert(at.len() == picks@.len());
    if 0 <= u < updates@.len() {
        assert(has_iid(updates@, updates@[u].iid@));
        let k = choose|k: int| 0 <= k < at.len() && updates@[#[trigger] at[k]].iid@
            == updates@[u].iid@;
        assert(picks@[k] as int == at[k]);
    }
    if 0 <= i < picks@.len() {
        assert(at[i] == picks@[i] as int);
        assert(is_reported(updates@, updates@[at[i]].iid@, at[i]));
        if i < j < picks@.len() {
            assert(at[j] == picks@[j] as int);
        }
        if 0 <= u < updates@.len() && updates@[u].iid@ == updates@[at[i]].iid@ {
            let iid = updates@[u].iid@;
            if updates@[u].update_type == MRUpdateType::Created {
                assert(was_created(updates@, iid));
            }
            if u < at[i] {
                assert(!counts_for(updates@, iid, updates@[u]));
            }
        }
    }
}

proof fn lemma_reported_once(updates: Seq<MRUpdate>, a: Seq<int>, b: Seq<int>)
    requires
        are_reported(updates, a),
        are_reported(updates, b),
    ensures
        a == b,
{
    let ids_a = Seq::new(a.len(), |i: int| updates[a[i]].iid@);
    let ids_b = Seq::new(b.len(), |i: int| updates[b[i]].iid@);
    let before = |x: Seq<char>, y: Seq<char>| text::text_lt(x, y);
    assert forall|x: Seq<char>, y: Seq<char>| #[trigger] before(x, y) implies !before(y, x) by {
        if text::text_lt(y, x) {
            text::lemma_text_lt_transitive(x, y, x);
        }
        text::lemma_text_lt_irreflexive(x);
    }
    assert(crate::ordered_map::ascending(ids_a, before)) by {
        assert forall|i: int, j: int| 0 <= i < j < ids_a.len() implies before(
            #[trigger] ids_a[i],
            #[trigger] ids_a[j],
        ) by {
            assert(text::text_lt(updates[a[i]].iid@, updates[a[j]].iid@));
        }
    }
    assert(crate::ordered_map::ascending(ids_b, before)) by {
        assert forall|i: int, j: int| 0 <= i < j < ids_b.len() implies before(
            #[trigger] ids_b[i],
            #[trigger] ids_b[j],
        ) by {
            assert(text::text_lt(updates[b[i]].iid@, updates[b[j]].iid@));
        }
    }
    assert forall|x: Seq<char>| ids_a.contains(x) <==> ids_b.contains(x) by {
        if ids_a.contains(x) {
            let i = ids_a.index_of(x);
            assert(is_reported(updates, updates[a[i]].iid@, a[i]));
            assert(has_iid(updates, x));
            let k = choose|k: int| 0 <= k < b.len() && updates[#[trigger] b[k]].iid@ == x;
            assert(ids_b[k] == x);
        }
        if ids_b.contains(x) {
            let i = ids_b.index_of(x);
            assert(is_reported(updates, updates[b[i]].iid@, b[i]));
            assert(has_iid(updates, x));
            let k = choose|k: int| 0 <= k < a.len() && updates[#[trigger] a[k]].iid@ == x;
            assert(ids_a[k] == x);
        }
    }
    crate::ordered_map::lemma_ascending_unique(ids_a, ids_b, before);
    assert(a.len() == ids_a.len() && b.len() == ids_b.len());
    assert forall|i: int| 0 <= i < a.len() implies a[i] == b[i] by {
        assert(ids_a[i] == updates[a[i]].iid@);
        assert(ids_b[i] == updates[b[i]].iid@);
        let iid = ids_a[i];
        assert(is_reported(updates, iid, a[i]));
        assert(is_reported(updates, iid, b[i]));
        if a[i] < b[i] {
            assert(!counts_for(updates, iid, updates[a[i]]));
        } else if b[i] < a[i] {
            assert(!counts_for(updates, iid, updates[b[i]]));
        }
    }
    assert(a =~= b);
}

/// Every reported update has a row, in their order. It shows the bookmark, the title as it is broken
/// into lines, the address where it is edited if it was just created and else its address, and what
/// became of it.
pub proof fn rows_say_what_was_reported<W: VisualWidth>(
    w: &W,
    updates: Vec<MRUpdate>,
    picks: Vec<usize>,
    rows: Vec<SummaryRow>,
    i: int,
    title: &str,
    broken: String,
)
    requires
        call_ensures(pick_reported, (&updates,), picks),
        call_ensures(summary_rows::<W>, (w, &updates), rows),
        0 <= i < picks@.len(),
        title@ == updates@[picks@[i] as int].title@,
        call_ensures(wrap::wrap::<W>, (w, title, 60usize), broken),
    ensures
        rows@.len() == picks@.len(),
        rows@[i].title@ == broken@,
        text::contains_text(rows@[i].bookmark@, updates@[picks@[i] as int].bookmark@),
        ({
            let u = updates@[picks@[i] as int];
            let row = rows@[i];
            &&& u.update_type == MRUpdateType::Created ==> text::contains_text(
                row.link@,
                u.edit_url@,
            ) && text::contains_text(row.status@, "[created]"@)
            &&& u.update_type == MRUpdateType::Updated ==> text::contains_text(row.link@, u.url@)
                && text::contains_text(row.status@, "[updated]"@)
            &&& u.update_type == MRUpdateType::Unchanged ==> text::contains_text(row.link@, u.url@)
                && row.status@ == " "@
        }),
{
    let at = positions(picks@);
    let told = choose|told: Seq<int>| #[trigger]
        are_reported(updates@, told) && row_views(rows@) == Seq::new(
            told.len(),
            |i: int| row_of(w, updates@[told[i]]),
        );
    lemma_reported_once(updates@, at, told);
    assert(at[i] == picks@[i] as int);
    assert(row_views(rows@).len() == rows@.len());
    assert(row_views(rows@)[i] == rows@[i]@);
    let u = updates@[at[i]];
    assert(rows@[i]@ == row_of(w, u));
    style::lemma_magenta_shows(u.bookmark@);
    style::lemma_dimmed_shows(u.url@);
    style::lemma_dimmed_shows(u.edit_url@);
    style::lemma_green_shows("[created]"@);
    style::lemma_green_shows("[updated]"@);
}

proof fn lemma_warning_listed(updates: Seq<MRUpdate>, picks: Seq<int>, k: int, n: int)
    requires
        0 <= k < picks.len(),
        updates[picks[k]].warnings is Some,
        0 <= n < updates[picks[k]].warnings->0@.len(),
    ensures
        exists|m: int|
            0 <= m < warnings_at(updates, picks).len() && text::contains_text(
                #[trigger] warnings_at(updates, picks)[m],
                updates[picks[k]].warnings->0@[n]@,
            ),
    decreases picks.len(),
{
    let before = picks.drop_last();
    let all = warnings_at(updates, picks);
    let told = updates[picks[k]].warnings->0@[n]@;
    let len = warnings_at(updates, before).len() as int;
    if k < before.len() {
        lemma_warning_listed(updates, before, k, n);
        let m = choose|m: int|
            0 <= m < warnings_at(updates, before).len() && text::contains_text(
                #[trigger] warnings_at(updates, before)[m],
                told,
            );
        assert(all[m] == warnings_at(updates, before)[m]);
    } else {
        let list = warnings_of(updates[picks.last()]);
        let line = "\nWarning: "@ + told;
        assert(text::texts(updates[picks[k]].warnings->0@)[n] == told);
        assert(list[n] == style::yellow_text(line));
        assert(all[len + n] == list[n]);
        text::lemma_contains_middle("\nWarning: "@, told, Seq::empty());
        assert("\nWarning: "@ + told + Seq::<char>::empty() =~= line);
        let start = "\u{1b}[33m"@;
        let end = "\u{1b}[39m"@;
        text::lemma_contains_inside(start, line, end, told);
        assert(style::yellow_text(line) == start + line + end);
    }
}

/// Every warning of every update that is reported is handed on.
pub proof fn warnings_are_handed_on(
    updates: Vec<MRUpdate>,
    picks: Vec<usize>,
    r: Vec<String>,
    i: int,
    n: int,
)
    requires
        call_ensures(pick_reported, (&updates,), picks),
        call_ensures(summary_warnings, (&updates,), r),
        0 <= i < picks@.len(),
        updates@[picks@[i] as int].warnings is Some,
        0 <= n < updates@[picks@[i] as int].warnings->0@.len(),
    ensures
        exists|m: int|
            0 <= m < r@.len() && text::contains_text(
                (#[trigger] r@[m])@,
                updates@[picks@[i] as int].warnings->0@[n]@,
            ),
{
    let at = positions(picks@);
    let told = choose|told: Seq<int>| #[trigger]
        are_reported(updates@, told) && text::texts(r@) == warnings_at(updates@, told);
    lemma_reported_once(updates@, at, told);
    assert(at[i] == picks@[i] as int);
    lemma_warning_listed(updates@, at, i, n);
    let all = warnings_at(updates@, at);
    let m = choose|m: int|
        0 <= m < all.len() && text::contains_text(
            #[trigger] all[m],
            updates@[at[i]].warnings->0@[n]@,
        );
    assert(text::texts(r@).len() == r@.len());
    assert(text::texts(r@)[m] == r@[m]@);
}

/// The warnings of a submission that was carried out are those of the updates that are reported,
/// whether stacks were linked or not. Its summary tells how many errors there were, and, where no
/// bookmark was pushed, that none was.
pub proof fn end_of_a_submission_tells_its_warnings<W: VisualWidth>(
    w: &W,
    c: SubmitCommandConfig,
    repo: Config,
    result: SubmissionResult,
    outcome: StackLinkOutcome,
    linked: bool,
    step: SubmitStep,
    warnings: Vec<String>,
)
    requires
        linked ==> call_ensures(
            submit::<W>,
            (w, &c, &repo, SubmitState::Linking { result }, SubmitEvent::Linked(outcome)),
            step,
        ),
        !linked ==> repo.forge != ForgeType::GitHub && call_ensures(
            submit::<W>,
            (w, &c, &repo, SubmitState::Executing, SubmitEvent::Executed(Ok(result))),
            step,
        ),
        call_ensures(summary_warnings, (&result.merge_requests,), warnings),
    ensures
        text::texts(step.output.warnings@) == text::texts(warnings@),
        step.output.message is None,
        !(step.action->Finish_0 is Failed) ==> {
            &&& result.errors@.len() > 0 ==> text::contains_text(
                step.output.printed@,
                text::decimal(result.errors@.len()) + " error(s) occurred"@,
            )
            &&& result.bookmarks_pushed@.len() == 0 ==> text::contains_text(
                step.output.printed@,
                "No bookmarks pushed"@,
            )
        },
{
    let shown = if linked {
        rendered_outcome(outcome@)
    } else {
        Seq::<char>::empty()
    };
    assert(concludes(w, result, shown, step));
    let a = choose|a: Seq<int>| #[trigger]
        are_reported(result.merge_requests@, a) && text::texts(step.output.warnings@)
            == warnings_at(result.merge_requests@, a);
    let b = choose|b: Seq<int>| #[trigger]
        are_reported(result.merge_requests@, b) && text::texts(warnings@) == warnings_at(
            result.merge_requests@,
            b,
        );
    lemma_reported_once(result.merge_requests@, a, b);
    let pushed = text::texts(result.bookmarks_pushed@);
    assert(pushed.len() == result.bookmarks_pushed@.len());
    let printed = step.output.printed@;
    if result.merge_requests@.len() == 0 {
        lemma_counts_shown(shown, pushed, None, result.errors@, printed);
    } else {
        let (rows, r) = choose|rows: Seq<RowView>, r: Result<Seq<char>, Seq<char>>|
            are_rows(w, result.merge_requests@, rows) && #[trigger] displayed(rows, r)
                && match r {
                Ok(table) => step.output.printed@ == shown + summary_text(
                    pushed,
                    Some(table),
                    result.errors@,
                ) && ends_with_errors(step.action, result.errors@),
                Err(reason) => step.output.printed@ == shown && (
                step.action matches SubmitAction::Finish(
                    SubmitEnd::Failed(Error::Io { message }),
                ) && message@ == reason),
            };
        if let Ok(table) = r {
            lemma_counts_shown(shown, pushed, Some(table), result.errors@, printed);
        }
    }
}

proof fn lemma_counts_shown(
    shown: Seq<char>,
    pushed: Seq<Seq<char>>,
    table: Option<Seq<char>>,
    errors: Seq<Error>,
    printed: Seq<char>,
)
    requires
        printed == shown + summary_text(pushed, table, errors),
    ensures
        errors.len() > 0 ==> text::contains_text(
            printed,
            text::decimal(errors.len()) + " error(s) occurred"@,
        ),
        pushed.len() == 0 ==> text::contains_text(printed, "No bookmarks pushed"@),
{
    let summary = summary_text(pushed, table, errors);
    lemma_summary(pushed, table, errors, 0);
    assert(printed =~= shown + summary + Seq::<char>::empty());
    if pushed.len() == 0 {
        text::lemma_contains_inside(shown, summary, Seq::empty(), "No bookmarks pushed"@);
    }
    if errors.len() > 0 {
        reveal_strlit(" error(s) occurred:\n");
        reveal_strlit(" error(s) occurred");
        reveal_strlit(":\n");
        let told = text::decimal(errors.len()) + " error(s) occurred"@;
        let faults = "\n✗ "@ + text::decimal(errors.len()) + " error(s) occurred:\n"@ + error_lines(
            errors,
        );
        let rest = ":\n"@ + error_lines(errors);
        assert(" error(s) occurred:\n"@ =~= " error(s) occurred"@ + ":\n"@);
        text::lemma_contains_middle("\n✗ "@, told, rest);
        assert(faults =~= "\n✗ "@ + told + rest);
        let head = "\n═══════════════════════════════════════\n"@ + style::bold_text("Summary"@)
            + "\n═══════════════════════════════════════\n"@;
        let bookmarks = if pushed.len() == 0 {
            "No bookmarks pushed\n"@
        } else {
            "Pushed: "@ + action::highlighted(pushed) + "\n"@
        };
        let requests = match table {
            Some(table) => "\n"@ + style::bold_text("Merge Requests:"@) + "\n\n"@ + table + "\n"@,
            None => Seq::empty(),
        };
        text::lemma_contains_inside(head + bookmarks + requests, faults, Seq::empty(), told);
        assert(summary =~= head + bookmarks + requests + faults + Seq::<char>::empty());
        text::lemma_contains_inside(shown, summary, Seq::empty(), told);
    }
}

/// A dry run says from which remote would be fetched, and only a dry run says anything before the
/// bookmarks are looked up.
pub proof fn only_a_dry_run_previews_the_fetch<W: VisualWidth>(
    w: &W,
    c: SubmitCommandConfig,
    repo: Config,
    step: SubmitStep,
)
    requires
        call_ensures(
            submit::<W>,
            (w, &c, &repo, SubmitState::Ready, SubmitEvent::Start),
            step,
        ),
    ensures
        step.output.message is Some <==> c.dry_run && repo.fetch != RepoFetchConfig::Enabled(false),
        step.output.message is Some ==> (c.remote matches Some(remote) ==> text::contains_text(
            step.output.message->0@,
            "--remote "@ + remote@,
        )),
        step.output.printed@.len() == 0,
{
    if c.dry_run && repo.fetch != RepoFetchConfig::Enabled(false) && c.remote is Some {
        let remote = c.remote->0@;
        let base = repo.fetch.args()->0;
        let all = base + seq!["--remote"@, remote];
        let flagged = base.push("--remote"@);
        assert(all =~= flagged.push(remote));
        text::lemma_joined_push(flagged, " "@, remote);
        text::lemma_joined_push(base, " "@, "--remote"@);
        reveal_strlit("--remote ");
        reveal_strlit("--remote");
        reveal_strlit(" ");
        let told = "--remote "@ + remote;
        assert("--remote "@ =~= "--remote"@ + " "@);
        let before = if base.len() == 0 {
            Seq::<char>::empty()
        } else {
            text::joined(base, " "@) + " "@
        };
        assert(text::joined(all, " "@) =~= before + told + Seq::<char>::empty());
        text::lemma_contains_middle(before, told, Seq::empty());
        text::lemma_contains_inside(
            "Would run `jj "@,
            text::joined(all, " "@),
            "` before planning (note that the plan may change based on newly fetched data!)"@,
            told,
        );
    }
}

proof fn lemma_in_help(before: Seq<char>, inner: Seq<char>, after: Seq<char>, r: Seq<char>)
    requires
        r == text::trim(before + style::bold_text(style::green_text(inner)) + after),
        inner.len() > 0,
        !text::is_white(inner[0]),
        !text::is_white(inner.last()),
    ensures
        text::contains_text(r, inner),
{
    let green = style::green_text(inner);
    let shown = style::bold_text(green);
    reveal_strlit("\u{1b}[32m");
    reveal_strlit("\u{1b}[1m");
    text::lemma_stands_inside("\u{1b}[32m"@, inner, "\u{1b}[39m"@, 0, inner);
    text::lemma_stands_inside("\u{1b}[1m"@, green, "\u{1b}[0m"@, 5, inner);
    text::lemma_stands_inside(before, shown, after, 9, inner);
    text::lemma_trim_keeps(before + shown + after, before.len() as int + 9, inner);
}

/// The long help shows how to submit a bookmark, all tracked bookmarks, and a preview of a revset.
pub proof fn help_shows_the_commands(r: String)
    requires
        call_ensures(SubmitCommandConfig::help_long, (), r),
    ensures
        text::contains_text(r@, "jj vine submit <bookmark>"@),
        text::contains_text(r@, "jj vine submit --tracked"@),
        text::contains_text(r@, "jj vine submit -r <revset> --dry-run"@),
{
    reveal_strlit("jj vine submit <bookmark>");
    reveal_strlit("jj vine submit --tracked");
    reveal_strlit("jj vine submit -r <revset> --dry-run");
    let one = style::bold_text(style::green_text("jj vine submit <bookmark>"@));
    let all = style::bold_text(style::green_text("jj vine submit --tracked"@));
    let look = style::bold_text(style::green_text("jj vine submit -r <revset> --dry-run"@));
    let a =
        "\nSubmit one or more bookmarks to the code forge.\nThis command will create merge requests that don't exist, update\nexisting merge requests to the correct target branch, and sync all\nmerge request descriptions.\n\n"@
        + style::bold_text(style::yellow_text("Examples:"@)) + "\n\nSubmit a single bookmark:\n"@;
    let b = "\n\nSubmit all tracked bookmarks:\n"@;
    let c = "\n\nPreview submitting a revset without making changes:\n"@;
    let d = "\n"@;
    let whole = a + one + b + all + c + look + d;
    assert(r@ == text::trim(whole));
    assert(whole =~= a + one + (b + all + c + look + d));
    lemma_in_help(a, "jj vine submit <bookmark>"@, b + all + c + look + d, r@);
    assert(whole =~= a + one + b + all + (c + look + d));
    lemma_in_help(a + one + b, "jj vine submit --tracked"@, c + look + d, r@);
    lemma_in_help(
        a + one + b + all + c,
        "jj vine submit -r <revset> --dry-run"@,
        d,
        r@,
    );
}

/// Nothing is asked for by default: no revset, no remote, no bookmarks to create, and neither a dry
/// run nor a plan only nor a run without hooks.
pub proof fn nothing_is_asked_for_by_default(c: SubmitCommandConfig)
    requires
        call_ensures(SubmitCommandConfig::default, (), c),
    ensures
        c.revset_options.revset_positional is None,
        c.revset_options.revset is None,
        !c.revset_options.all_tracked,
        c.remote is None,
        c.create is None,
        !c.dry_run,
        !c.show_plan,
        !c.no_hooks,
{
}

proof fn lemma_errors_in_order(errors: Seq<Error>, i: int, j: int)
    requires
        0 <= i < j < errors.len(),
    ensures
        text::comes_before(error_lines(errors), errors[i].text(), errors[j].text()),
    decreases errors.len(),
{
    let before = errors.drop_last();
    let told = errors.last().text();
    let lines = error_lines(before);
    let none = Seq::<char>::empty();
    if j < before.len() {
        lemma_errors_in_order(before, i, j);
        let tail = "  • "@ + told + "\n"@;
        text::lemma_before_inside(none, lines, tail, errors[i].text(), errors[j].text());
        assert(none + lines + tail =~= error_lines(errors));
    } else {
        lemma_error_lines(before, i);
        lemma_follows(lines, "  • "@, told, "\n"@, errors[i].text());
    }
}

proof fn lemma_follows(
    a: Seq<char>,
    between: Seq<char>,
    b: Seq<char>,
    after: Seq<char>,
    inner: Seq<char>,
)
    requires
        text::contains_text(a, inner),
    ensures
        text::comes_before(a + between + b + after, inner, b),
{
    let whole = a + between + b + after;
    let i = choose|i: int| text::has_at(a, i, inner);
    let j = (a + between).len() as int;
    assert(whole.subrange(i, i + inner.len()) =~= a.subrange(i, i + inner.len()));
    assert(whole.subrange(j, j + b.len()) =~= b);
    assert(text::has_at(whole, i, inner));
    assert(text::has_at(whole, j, b));
}

proof fn lemma_parts_in_order(
    a: Seq<char>,
    b: Seq<char>,
    x: Seq<char>,
    y: Seq<char>,
)
    requires
        text::contains_text(a, x),
        text::contains_text(b, y),
    ensures
        text::comes_before(a + b, x, y),
{
    let whole = a + b;
    let i = choose|i: int| text::has_at(a, i, x);
    let j = choose|j: int| text::has_at(b, j, y);
    let n = a.len() as int;
    assert(whole.subrange(i, i + x.len()) =~= a.subrange(i, i + x.len()));
    assert(whole.subrange(n + j, n + j + y.len()) =~= b.subrange(j, j + y.len()));
    assert(text::has_at(whole, i, x));
    assert(text::has_at(whole, n + j, y));
}

/// A summary goes from what was pushed over the table to the errors, and tells these in their order.
pub proof fn summary_goes_in_order(
    pushed: Vec<String>,
    table: Option<&str>,
    errors: Vec<Error>,
    r: String,
    i: int,
    j: int,
)
    requires
        call_ensures(write_summary, (&pushed, table, &errors), r),
    ensures
        table matches Some(table) ==> {
            &&& 0 <= i < pushed@.len() ==> text::comes_before(r@, pushed@[i]@, table@)
            &&& 0 <= j < errors@.len() ==> text::comes_before(r@, table@, errors@[j].text())
        },
        0 <= i < pushed@.len() && 0 <= j < errors@.len() ==> text::comes_before(
            r@,
            pushed@[i]@,
            errors@[j].text(),
        ),
        0 <= i < j < errors@.len() ==> text::comes_before(
            r@,
            errors@[i].text(),
            errors@[j].text(),
        ),
{
    let names = text::texts(pushed@);
    assert(names.len() == pushed@.len());
    let none = Seq::<char>::empty();
    let head = "\n═══════════════════════════════════════\n"@ + style::bold_text("Summary"@)
        + "\n═══════════════════════════════════════\n"@;
    let bookmarks = if names.len() == 0 {
        "No bookmarks pushed\n"@
    } else {
        "Pushed: "@ + action::highlighted(names) + "\n"@
    };
    let title = "\n"@ + style::bold_text("Merge Requests:"@) + "\n\n"@;
    let requests = match text::opt_slice(table) {
        Some(table) => title + table + "\n"@,
        None => Seq::empty(),
    };
    let count = "\n✗ "@ + text::decimal(errors@.len()) + " error(s) occurred:\n"@;
    let faults = if errors@.len() == 0 {
        Seq::empty()
    } else {
        count + error_lines(errors@)
    };
    assert(r@ =~= head + bookmarks + requests + faults);
    if 0 <= i < names.len() {
        assert(names[i] == pushed@[i]@);
        action::highlighting_shows_every_name(names, i);
        text::lemma_contains_inside("Pushed: "@, action::highlighted(names), "\n"@, names[i]);
        text::lemma_contains_inside(head, bookmarks, none, names[i]);
        assert(head + bookmarks + none =~= head + bookmarks);
        text::lemma_contains_inside(none, head + bookmarks, requests, names[i]);
        assert(none + (head + bookmarks) + requests =~= head + bookmarks + requests);
    }
    if let Some(t) = table {
        text::lemma_contains_middle(title, t@, "\n"@);
        text::lemma_contains_middle(head + bookmarks + title, t@, "\n"@);
        assert(head + bookmarks + title + t@ + "\n"@ =~= head + bookmarks + requests);
        if 0 <= i < names.len() {
            lemma_parts_in_order(head + bookmarks, requests, names[i], t@);
            text::lemma_before_inside(none, head + bookmarks + requests, faults, names[i], t@);
            assert(none + (head + bookmarks + requests) + faults =~= r@);
        }
    }
    if 0 <= j < errors@.len() {
        lemma_error_lines(errors@, j);
        let told = errors@[j].text();
        text::lemma_contains_inside(count, error_lines(errors@), none, told);
        assert(count + error_lines(errors@) + none =~= faults);
        if 0 <= i < names.len() {
            lemma_parts_in_order(head + bookmarks + requests, faults, names[i], told);
        }
        if let Some(t) = table {
            lemma_parts_in_order(head + bookmarks + requests, faults, t@, told);
        }
        if 0 <= i < j {
            lemma_errors_in_order(errors@, i, j);
            text::lemma_before_inside(
                count,
                error_lines(errors@),
                none,
                errors@[i].text(),
                told,
            );
            text::lemma_before_inside(
                head + bookmarks + requests,
                faults,
                none,
                errors@[i].text(),
                told,
            );
            assert(head + bookmarks + requests + faults + none =~= r@);
        }
    }
}

/// What is shown of linked stacks goes from the stacks to the notes.
pub proof fn stacks_are_shown_before_notes(
    output: &mut String,
    outcome: StackLinkOutcome,
    i: int,
    k: int,
    j: int,
)
    requires
        call_ensures(render_stack_link_outcome, (output, &outcome), ()),
    ensures
        outcome matches StackLinkOutcome::Linked { stacks, unlinked } ==> (0 <= i < stacks@.len()
            && 0 <= k < stacks@[i]@.len() && 0 <= j < unlinked@.len() ==> text::comes_before(
            final(output)@,
            "#"@ + text::decimal(stacks@[i]@[k] as nat),
            unlinked@[j]@,
        )),
{
    if let StackLinkOutcome::Linked { stacks, unlinked } = outcome {
        if 0 <= i < stacks@.len() && 0 <= k < stacks@[i]@.len() && 0 <= j < unlinked@.len() {
            let all = stack_link::stack_views(stacks@);
            let notes = text::texts(unlinked@);
            let one = "#"@ + text::decimal(stacks@[i]@[k] as nat);
            let none = Seq::<char>::empty();
            assert(all[i] == stacks@[i]@);
            assert(notes[j] == unlinked@[j]@);
            lemma_stack_lines(all, i, k);
            lemma_note_lines(notes, j);
            lemma_parts_in_order(stack_lines(all), note_lines(notes), one, notes[j]);
            let told = stack_lines(all) + note_lines(notes);
            text::lemma_before_inside(old(output)@, told, none, one, notes[j]);
            assert(old(output)@ + told + none =~= final(output)@);
        }
    }
}

} // verus!
