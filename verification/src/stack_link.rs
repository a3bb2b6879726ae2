//! Registering submitted pull requests as GitHub-native stacks.
//!
//! After a successful submit, `gh-stack link <pr>...` is run once per linear component of
//! the bookmark graph, with the pull requests bottom to top. Nothing here fails a submit: a
//! link that fails becomes a warning.
use crate::bookmark;
use crate::bookmark::BookmarkGraph;
use crate::bytes;
use crate::config;
use crate::config::GitHubConfig;
use crate::error::Error;
use crate::link_log::{Asked, LoggedRunner};
use crate::merge_request::MRUpdate;
use crate::ordered_map;
use crate::ordered_map::OrderedMap;
use crate::process::Spawned;
use crate::text;
use crate::text_set::TextSet;
use vstd::prelude::*;

verus! {

/// How long one `gh-stack link` may take, in seconds.
pub const STACK_LINK_TIMEOUT_SECS: u64 = 60;

/// Outcome of the stack link, to be shown to the operator.
#[derive(Debug)]
pub enum StackLinkOutcome {
    /// Nothing was linked, or nothing was worth linking.
    Skipped(SkipReason),
    /// At least one stack was linked. `stacks` holds the PR numbers of each, bottom to top;
    /// `unlinked` holds notes about what was submitted and not added to a stack.
    Linked { stacks: Vec<Vec<u64>>, unlinked: Vec<String> },
    /// A failure that does not fail the submit.
    Failed { warning: String },
}

/// What a [`StackLinkOutcome`] says.
pub enum OutcomeView {
    Skipped(SkipReason),
    Linked { stacks: Seq<Seq<u64>>, unlinked: Seq<Seq<char>> },
    Failed { warning: Seq<char> },
}

/// The numbers of a list of stacks.
pub open spec fn stack_views(v: Seq<Vec<u64>>) -> Seq<Seq<u64>> {
    Seq::new(v.len(), |i: int| v[i]@)
}

impl View for StackLinkOutcome {
    type V = OutcomeView;

    open spec fn view(&self) -> OutcomeView {
        match self {
            StackLinkOutcome::Skipped(reason) => OutcomeView::Skipped(*reason),
            StackLinkOutcome::Linked { stacks, unlinked } => OutcomeView::Linked {
                stacks: stack_views(stacks@),
                unlinked: text::texts(unlinked@),
            },
            StackLinkOutcome::Failed { warning } => OutcomeView::Failed { warning: warning@ },
        }
    }
}

/// Why nothing was linked.
#[derive(Debug, Clone, Copy, PartialEq, Eq, Structural)]
pub enum SkipReason {
    /// A dry run must not touch the forge.
    DryRun,
    /// The operator asked for a submit without hooks.
    NoHooks,
    /// The configuration disables linking.
    Disabled,
    /// No linear component gave a contiguous run of two or more PRs.
    NoQualifyingStack,
}

impl SkipReason {
    /// A notice of the cause.
    pub fn describe(&self) -> (r: &'static str)
        ensures
            r@ == (match *self {
                SkipReason::DryRun => "dry run: skipping stack link"@,
                SkipReason::NoHooks => "--no-hooks: skipping stack link"@,
                SkipReason::Disabled => "github.linkStack is false: skipping stack link"@,
                SkipReason::NoQualifyingStack => "no linear stack of >= 2 PRs to link"@,
            }),
    {
        match self {
            SkipReason::DryRun => "dry run: skipping stack link",
            SkipReason::NoHooks => "--no-hooks: skipping stack link",
            SkipReason::Disabled => "github.linkStack is false: skipping stack link",
            SkipReason::NoQualifyingStack => "no linear stack of >= 2 PRs to link",
        }
    }
}

// ---------------------------------------------------------------------------
// PR numbers
// ---------------------------------------------------------------------------
/// The bookmark and the ID of each merge request.
pub open spec fn iids(updates: Seq<MRUpdate>) -> Seq<(Seq<char>, Seq<char>)> {
    Seq::new(updates.len(), |i: int| (updates[i].bookmark@, updates[i].iid@))
}

/// The PR number of each bookmark: that of its first merge request with a numeric ID.
pub open spec fn pr_numbers(updates: Seq<(Seq<char>, Seq<char>)>) -> Map<Seq<char>, u64>
    decreases updates.len(),
{
    if updates.len() == 0 {
        Map::empty()
    } else {
        let known = pr_numbers(updates.drop_last());
        let (bookmark, iid) = updates.last();
        match text::parsed_u64(iid) {
            Some(pr) if !known.dom().contains(bookmark) => known.insert(bookmark, pr),
            _ => known,
        }
    }
}

/// The PR number of each bookmark. Merge requests without a numeric ID are left out.
pub fn build_pr_map(merge_requests: &Vec<MRUpdate>) -> (m: OrderedMap<u64>)
    ensures
        m.wf(),
        m@ == pr_numbers(iids(merge_requests@)),
{
    let mut m: OrderedMap<u64> = OrderedMap::new();
    let n = merge_requests.len();
    let mut i: usize = 0;
    let ghost all = iids(merge_requests@);
    while i < n
        invariant
            n == merge_requests@.len(),
            i <= n,
            all == iids(merge_requests@),
            m.wf(),
            m@ == pr_numbers(all.take(i as int)),
        decreases n - i,
    {
        let update = &merge_requests[i];
        proof {
            assert(all.take(i + 1).drop_last() == all.take(i as int));
            assert(all.take(i + 1).last() == all[i as int]);
        }
        if let Some(pr) = text::parse_u64(update.iid.as_str()) {
            if !m.contains_key(update.bookmark.as_str()) {
                m.insert(update.bookmark.clone(), pr);
            }
        }
        i += 1;
    }
    assert(all.take(n as int) == all);
    m
}

/// A PR number as people write it.
pub open spec fn pr_text(pr: u64) -> Seq<char> {
    "#"@ + text::decimal(pr as nat)
}

/// PR numbers as people write them, bottom to top.
pub open spec fn prs_text(prs: Seq<u64>, arrow: Seq<char>) -> Seq<char> {
    text::joined(prs.map_values(|pr: u64| pr_text(pr)), arrow)
}

/// PR numbers, bottom to top, with an arrow between them.
pub fn write_prs(prs: &Vec<u64>, arrow: &str) -> (r: String)
    ensures
        r@ == prs_text(prs@, arrow@),
{
    let mut parts: Vec<String> = Vec::new();
    let n = prs.len();
    let mut i: usize = 0;
    let ghost all = prs@.map_values(|pr: u64| pr_text(pr));
    while i < n
        invariant
            n == prs@.len(),
            i <= n,
            all == prs@.map_values(|pr: u64| pr_text(pr)),
            text::texts(parts@) == all.take(i as int),
        decreases n - i,
    {
        let ghost before = text::texts(parts@);
        parts.push("#".to_owned().concat(text::u64_text(prs[i]).as_str()));
        assert(text::texts(parts@) == before.push(all[i as int]));
        i += 1;
    }
    assert(all.take(n as int) == all);
    text::join(&parts, arrow)
}

/// PR numbers for a message, e.g. `#12 -> #13 -> #14`.
pub fn format_prs(prs: &Vec<u64>) -> (r: String)
    ensures
        r@ == prs_text(prs@, " -> "@),
{
    write_prs(prs, " -> ")
}

/// PR numbers as arguments of a command.
pub open spec fn pr_args(prs: Seq<u64>) -> Seq<Seq<char>> {
    prs.map_values(|pr: u64| text::decimal(pr as nat))
}

/// PR numbers as arguments of a command.
fn write_pr_args(prs: &Vec<u64>) -> (r: Vec<String>)
    ensures
        text::texts(r@) == pr_args(prs@),
{
    let mut r: Vec<String> = Vec::new();
    let n = prs.len();
    let mut i: usize = 0;
    while i < n
        invariant
            n == prs@.len(),
            i <= n,
            text::texts(r@) == pr_args(prs@).take(i as int),
        decreases n - i,
    {
        let ghost before = text::texts(r@);
        r.push(text::u64_text(prs[i]));
        assert(text::texts(r@) == before.push(pr_args(prs@)[i as int]));
        i += 1;
    }
    assert(pr_args(prs@).take(n as int) == pr_args(prs@));
    r
}

// ---------------------------------------------------------------------------
// Contiguous runs
// ---------------------------------------------------------------------------
/// The result of holding a bottom-to-top run of bookmarks against the PR numbers.
#[derive(Debug)]
pub struct ContiguityScan {
    /// The contiguous run of PRs, bottom to top.
    pub prs: Vec<u64>,
    /// Bookmarks without a PR above that run.
    pub trailing_unmapped: Vec<String>,
    /// A bookmark with a PR sits above one without that is itself above the run.
    pub interior_gap: bool,
}

/// What a [`ContiguityScan`] says.
#[verifier::ext_equal]
pub struct ScanView {
    pub prs: Seq<u64>,
    pub trailing_unmapped: Seq<Seq<char>>,
    pub interior_gap: bool,
}

impl View for ContiguityScan {
    type V = ScanView;

    open spec fn view(&self) -> ScanView {
        ScanView {
            prs: self.prs@,
            trailing_unmapped: text::texts(self.trailing_unmapped@),
            interior_gap: self.interior_gap,
        }
    }
}

/// How many bookmarks with a PR the run starts with.
pub open spec fn mapped_run(ordered: Seq<Seq<char>>, prs: Map<Seq<char>, u64>) -> int
    decreases ordered.len(),
{
    if ordered.len() > 0 && prs.dom().contains(ordered[0]) {
        1 + mapped_run(ordered.skip(1), prs)
    } else {
        0
    }
}

/// How many bookmarks without a PR the run starts with.
pub open spec fn unmapped_run(ordered: Seq<Seq<char>>, prs: Map<Seq<char>, u64>) -> int
    decreases ordered.len(),
{
    if ordered.len() > 0 && !prs.dom().contains(ordered[0]) {
        1 + unmapped_run(ordered.skip(1), prs)
    } else {
        0
    }
}

/// A bottom-to-top run: bookmarks without a PR at the bottom are dropped, the PRs that
/// follow are the run, and bookmarks without a PR above it are a trailing gap, or an
/// interior one where a bookmark with a PR follows.
pub open spec fn scan(ordered: Seq<Seq<char>>, prs: Map<Seq<char>, u64>) -> ScanView {
    let above_bottom = ordered.skip(unmapped_run(ordered, prs));
    let count = mapped_run(above_bottom, prs);
    let rest = above_bottom.skip(count);
    let gap = unmapped_run(rest, prs);
    ScanView {
        prs: above_bottom.take(count).map_values(|b: Seq<char>| prs[b]),
        trailing_unmapped: rest.take(gap),
        interior_gap: gap < rest.len(),
    }
}

/// A run is no longer than the list; its members have no PR, and what follows has one.
proof fn lemma_unmapped_run(ordered: Seq<Seq<char>>, prs: Map<Seq<char>, u64>)
    ensures
        0 <= unmapped_run(ordered, prs) <= ordered.len(),
        forall|i: int|
            0 <= i < unmapped_run(ordered, prs) ==> !prs.dom().contains(#[trigger] ordered[i]),
        unmapped_run(ordered, prs) < ordered.len() ==> prs.dom().contains(
            ordered[unmapped_run(ordered, prs)],
        ),
    decreases ordered.len(),
{
    if ordered.len() > 0 && !prs.dom().contains(ordered[0]) {
        let rest = ordered.skip(1);
        lemma_unmapped_run(rest, prs);
        assert forall|i: int| 0 <= i < unmapped_run(ordered, prs) implies !prs.dom().contains(
            #[trigger] ordered[i],
        ) by {
            if i > 0 {
                assert(ordered[i] == rest[i - 1]);
            }
        }
    }
}

/// A run is no longer than the list; its members have a PR, and what follows has none.
proof fn lemma_mapped_run(ordered: Seq<Seq<char>>, prs: Map<Seq<char>, u64>)
    ensures
        0 <= mapped_run(ordered, prs) <= ordered.len(),
        forall|i: int|
            0 <= i < mapped_run(ordered, prs) ==> prs.dom().contains(#[trigger] ordered[i]),
        mapped_run(ordered, prs) < ordered.len() ==> !prs.dom().contains(
            ordered[mapped_run(ordered, prs)],
        ),
    decreases ordered.len(),
{
    if ordered.len() > 0 && prs.dom().contains(ordered[0]) {
        let rest = ordered.skip(1);
        lemma_mapped_run(rest, prs);
        assert forall|i: int| 0 <= i < mapped_run(ordered, prs) implies prs.dom().contains(
            #[trigger] ordered[i],
        ) by {
            if i > 0 {
                assert(ordered[i] == rest[i - 1]);
            }
        }
    }
}

/// The first position from `from` on whose bookmark has a PR.
fn skip_unmapped(ordered: &Vec<String>, from: usize, prs: &OrderedMap<u64>) -> (to: usize)
    requires
        prs.wf(),
        from <= ordered@.len(),
    ensures
        to == from + unmapped_run(text::texts(ordered@).skip(from as int), prs@),
        from <= to <= ordered@.len(),
{
    let n = ordered.len();
    let ghost all = text::texts(ordered@);
    let mut i = from;
    while i < n && !prs.contains_key(ordered[i].as_str())
        invariant
            n == ordered@.len(),
            all == text::texts(ordered@),
            prs.wf(),
            from <= i <= n,
            unmapped_run(all.skip(from as int), prs@) == i - from + unmapped_run(
                all.skip(i as int),
                prs@,
            ),
        decreases n - i,
    {
        assert(all.skip(i as int)[0] == all[i as int]);
        assert(all.skip(i as int).skip(1) == all.skip(i + 1));
        i += 1;
    }
    proof {
        if i < n {
            assert(all.skip(i as int)[0] == all[i as int]);
        }
        assert(unmapped_run(all.skip(i as int), prs@) == 0);
    }
    i
}

/// Holds a bottom-to-top run of bookmarks against the PR numbers.
pub fn scan_contiguous_run(ordered: &Vec<String>, pr_map: &OrderedMap<u64>) -> (r: ContiguityScan)
    requires
        pr_map.wf(),
    ensures
        r@ == scan(text::texts(ordered@), pr_map@),
{
    let n = ordered.len();
    let ghost all = text::texts(ordered@);
    assert(all.skip(0) == all);
    let start = skip_unmapped(ordered, 0, pr_map);
    let ghost above = all.skip(start as int);
    let mut prs: Vec<u64> = Vec::new();
    let mut i = start;
    assert(above.skip(0) == above);
    while i < n && pr_map.contains_key(ordered[i].as_str())
        invariant
            n == ordered@.len(),
            all == text::texts(ordered@),
            pr_map.wf(),
            start <= i <= n,
            above == all.skip(start as int),
            mapped_run(above, pr_map@) == i - start + mapped_run(all.skip(i as int), pr_map@),
            prs@ == above.take(i - start).map_values(|b: Seq<char>| pr_map@[b]),
        decreases n - i,
    {
        proof {
            assert(all.skip(i as int)[0] == all[i as int]);
            assert(all.skip(i as int).skip(1) == all.skip(i + 1));
            assert(above[i - start] == all[i as int]);
        }
        if let Some(pr) = pr_map.get(ordered[i].as_str()) {
            prs.push(*pr);
        }
        assert(prs@ =~= above.take(i + 1 - start).map_values(|b: Seq<char>| pr_map@[b]));
        i += 1;
    }
    proof {
        if i < n {
            assert(all.skip(i as int)[0] == all[i as int]);
        }
        assert(mapped_run(all.skip(i as int), pr_map@) == 0);
        assert(above.skip(i - start) == all.skip(i as int));
    }
    let stop = i;
    let end = skip_unmapped(ordered, stop, pr_map);
    let ghost rest = all.skip(stop as int);
    let mut trailing_unmapped: Vec<String> = Vec::new();
    let mut k = stop;
    while k < end
        invariant
            n == ordered@.len(),
            all == text::texts(ordered@),
            stop <= k <= end <= n,
            rest == all.skip(stop as int),
            text::texts(trailing_unmapped@) == rest.take(k - stop),
        decreases end - k,
    {
        let ghost before = text::texts(trailing_unmapped@);
        trailing_unmapped.push(ordered[k].clone());
        assert(text::texts(trailing_unmapped@) == before.push(rest[k - stop]));
        k += 1;
    }
    ContiguityScan { prs, trailing_unmapped, interior_gap: end < n }
}

/// The PRs of a scan are those of neighbouring bookmarks: nothing between the lowest and the
/// highest is left out, and nothing with a PR lies below them. Where there is no interior
/// gap, nothing with a PR lies above them either.
pub proof fn scanned_run_is_contiguous(ordered: Seq<Seq<char>>, prs: Map<Seq<char>, u64>)
    ensures
        ({
            let s = scan(ordered, prs);
            let from = unmapped_run(ordered, prs);
            let to = from + s.prs.len();
            &&& 0 <= from <= to <= ordered.len()
            &&& forall|i: int|
                from <= i < to ==> prs.dom().contains(#[trigger] ordered[i]) && s.prs[i - from]
                    == prs[ordered[i]]
            &&& forall|i: int| 0 <= i < from ==> !prs.dom().contains(#[trigger] ordered[i])
            &&& !s.interior_gap ==> forall|i: int|
                to <= i < ordered.len() ==> !prs.dom().contains(#[trigger] ordered[i])
            &&& s.interior_gap ==> exists|i: int|
                to < i < ordered.len() && prs.dom().contains(#[trigger] ordered[i])
        }),
{
    let s = scan(ordered, prs);
    let from = unmapped_run(ordered, prs);
    lemma_unmapped_run(ordered, prs);
    let above = ordered.skip(from);
    lemma_mapped_run(above, prs);
    let count = mapped_run(above, prs);
    let rest = above.skip(count);
    lemma_unmapped_run(rest, prs);
    let gap = unmapped_run(rest, prs);
    let to = from + count;
    assert(s.prs.len() == count);
    assert forall|i: int| from <= i < to implies prs.dom().contains(#[trigger] ordered[i])
        && s.prs[i - from] == prs[ordered[i]] by {
        assert(above[i - from] == ordered[i]);
    }
    if !s.interior_gap {
        assert forall|i: int| to <= i < ordered.len() implies !prs.dom().contains(
            #[trigger] ordered[i],
        ) by {
            assert(rest[i - to] == ordered[i]);
        }
    } else {
        assert(rest[gap] == ordered[to + gap]);
        if gap == 0 {
            assert(above[count] == ordered[to]);
            assert(false);
        }
        assert(prs.dom().contains(ordered[to + gap]));
    }
}

// ---------------------------------------------------------------------------
// What to do with each component
// ---------------------------------------------------------------------------
/// What to do with one component of the graph.
#[derive(Debug)]
pub enum LinkStep {
    /// Nothing: it is no line, or it has fewer than two PRs to link.
    Skip,
    /// Warn: linking across the gap would corrupt the base chains of the PRs.
    Gap { prs: Vec<u64> },
    /// Link these PRs, and leave out the bookmarks above them.
    Link { prs: Vec<u64>, left_out: Vec<String> },
}

/// What a [`LinkStep`] says.
pub enum StepView {
    Skip,
    Gap { prs: Seq<u64> },
    Link { prs: Seq<u64>, left_out: Seq<Seq<char>> },
}

impl View for LinkStep {
    type V = StepView;

    open spec fn view(&self) -> StepView {
        match self {
            LinkStep::Skip => StepView::Skip,
            LinkStep::Gap { prs } => StepView::Gap { prs: prs@ },
            LinkStep::Link { prs, left_out } => StepView::Link {
                prs: prs@,
                left_out: text::texts(left_out@),
            },
        }
    }
}

/// What a list of steps says.
pub open spec fn step_views(v: Seq<LinkStep>) -> Seq<StepView> {
    Seq::new(v.len(), |i: int| v[i]@)
}

/// The only leaf of a linear component.
pub open spec fn leaf_of(g: bookmark::GraphView, members: Set<Seq<char>>) -> Seq<char> {
    choose|leaf: Seq<char>| bookmark::sole_leaf(g, members, leaf)
}

/// What to do with a scanned run.
pub open spec fn step_of_scan(s: ScanView) -> StepView {
    if s.interior_gap {
        StepView::Gap { prs: s.prs }
    } else if s.prs.len() < 2 {
        StepView::Skip
    } else {
        StepView::Link { prs: s.prs, left_out: s.trailing_unmapped }
    }
}

/// What to do with a component.
pub open spec fn step_of(
    g: bookmark::GraphView,
    members: Set<Seq<char>>,
    prs: Map<Seq<char>, u64>,
) -> StepView {
    if bookmark::linear(g, members) {
        step_of_scan(
            scan(bookmark::chain(g, leaf_of(g, members), g.dom().len()).reverse(), prs),
        )
    } else {
        StepView::Skip
    }
}

/// The steps for a list of components.
pub open spec fn steps_of(
    g: bookmark::GraphView,
    components: Seq<TextSet>,
    prs: Map<Seq<char>, u64>,
) -> Seq<StepView> {
    Seq::new(components.len(), |i: int| step_of(g, components[i]@, prs))
}

/// The list the other way round.
fn reversed(list: &Vec<String>) -> (r: Vec<String>)
    ensures
        text::texts(r@) == text::texts(list@).reverse(),
{
    let mut r: Vec<String> = Vec::new();
    let n = list.len();
    let mut i: usize = 0;
    let ghost all = text::texts(list@).reverse();
    while i < n
        invariant
            n == list@.len(),
            i <= n,
            all == text::texts(list@).reverse(),
            text::texts(r@) == all.take(i as int),
        decreases n - i,
    {
        let ghost before = text::texts(r@);
        r.push(list[n - 1 - i].clone());
        assert(text::texts(r@) == before.push(all[i as int]));
        i += 1;
    }
    assert(all.take(n as int) == all);
    r
}

/// What to do with a component.
pub fn plan_component(
    graph: &BookmarkGraph,
    members: &TextSet,
    pr_map: &OrderedMap<u64>,
) -> (r: LinkStep)
    requires
        graph.wf(),
        members.wf(),
        members@.subset_of(graph@.dom()),
        pr_map.wf(),
    ensures
        r@ == step_of(graph@, members@, pr_map@),
{
    if !graph.is_linear(members) {
        return LinkStep::Skip;
    }
    let leaves = graph.leaves(members);
    let ghost leaf = leaf_of(graph@, members@);
    proof {
        assert(bookmark::sole_leaf(graph@, members@, leaf));
        leaves.lemma_items();
        assert(leaves@.contains(leaf));
        assert(leaves.items().to_set().contains(leaf));
        assert(leaves.items().len() > 0);
        assert(leaves.items().to_set().contains(leaves.items()[0]));
        assert(bookmark::is_leaf(graph@, members@, leaves.items()[0]));
    }
    let top = leaves.item_at(0);
    let ordered = reversed(&graph.downstack(top.as_str()));
    let scan = scan_contiguous_run(&ordered, pr_map);
    if scan.interior_gap {
        LinkStep::Gap { prs: scan.prs }
    } else if scan.prs.len() < 2 {
        LinkStep::Skip
    } else {
        LinkStep::Link { prs: scan.prs, left_out: scan.trailing_unmapped }
    }
}

/// What to do with each component of the graph.
pub fn plan_links(graph: &BookmarkGraph, pr_map: &OrderedMap<u64>) -> (r: Vec<LinkStep>)
    requires
        graph.wf(),
        pr_map.wf(),
    ensures
        exists|components: Seq<TextSet>| #[trigger]
            bookmark::are_components(graph@, components) && step_views(r@) == steps_of(
                graph@,
                components,
                pr_map@,
            ),
{
    let components = graph.components();
    let mut r: Vec<LinkStep> = Vec::new();
    let n = components.len();
    let mut i: usize = 0;
    let ghost all = steps_of(graph@, components@, pr_map@);
    while i < n
        invariant
            graph.wf(),
            pr_map.wf(),
            bookmark::are_components(graph@, components@),
            n == components@.len(),
            i <= n,
            all == steps_of(graph@, components@, pr_map@),
            step_views(r@) == all.take(i as int),
        decreases n - i,
    {
        let ghost before = step_views(r@);
        proof {
            let c = components@[i as int];
            assert forall|b: Seq<char>| c@.contains(b) implies graph@.dom().contains(b) by {
                bookmark::component_stays_inside(graph@, c.items()[0], b);
            }
        }
        let step = plan_component(graph, &components[i], pr_map);
        r.push(step);
        assert(step_views(r@) == before.push(all[i as int]));
        i += 1;
    }
    assert(all.take(n as int) == all);
    r
}

/// Linking never reaches across a gap, and never takes fewer than two PRs: what a step links
/// is the whole of a contiguous run.
pub proof fn links_are_whole_runs(
    g: bookmark::GraphView,
    members: Set<Seq<char>>,
    prs: Map<Seq<char>, u64>,
)
    ensures
        step_of(g, members, prs) matches StepView::Link { prs: linked, left_out } ==> {
            let ordered = bookmark::chain(g, leaf_of(g, members), g.dom().len()).reverse();
            let from = unmapped_run(ordered, prs);
            &&& bookmark::linear(g, members)
            &&& linked.len() >= 2
            &&& from + linked.len() <= ordered.len()
            &&& forall|i: int|
                0 <= i < linked.len() ==> prs.dom().contains(ordered[from + i])
                    && #[trigger] linked[i] == prs[ordered[from + i]]
            &&& forall|i: int|
                0 <= i < ordered.len() && !(from <= i < from + linked.len())
                    ==> !prs.dom().contains(#[trigger] ordered[i])
        },
{
    let ordered = bookmark::chain(g, leaf_of(g, members), g.dom().len()).reverse();
    scanned_run_is_contiguous(ordered, prs);
    if let StepView::Link { prs: linked, left_out } = step_of(g, members, prs) {
        let from = unmapped_run(ordered, prs);
        assert forall|i: int| 0 <= i < linked.len() implies prs.dom().contains(ordered[from + i])
            && #[trigger] linked[i] == prs[ordered[from + i]] by {
            let at = from + i;
            assert(prs.dom().contains(ordered[at]) && scan(ordered, prs).prs[at - from]
                == prs[ordered[at]]);
        }
    }
}

// ---------------------------------------------------------------------------
// Carrying the steps out
// ---------------------------------------------------------------------------
/// Result of a single `gh-stack link`.
#[derive(Debug, Clone, PartialEq, Eq)]
pub enum LinkOutcome {
    /// The stack was linked, or had been already.
    Linked,
    /// Stacked PRs are not enabled for the repository.
    NotEnabled,
    /// Anything else. `detail` does not hold the token.
    Failed { detail: String },
}

/// Runs `gh-stack link`.
pub trait StackLinkRunner {
    /// Links these PRs, bottom to top.
    fn run(&self, prs: &Vec<u64>, github: &GitHubConfig) -> LinkOutcome;
}

/// What the steps so far have given.
#[verifier::ext_equal]
pub struct Tally {
    pub stacks: Seq<Seq<u64>>,
    pub warnings: Seq<Seq<char>>,
    pub notes: Seq<Seq<char>>,
}

/// The warning of a gap.
pub open spec fn gap_warning(prs: Seq<u64>) -> Seq<char> {
    "skipped linking a stack with a missing middle PR (linking across the gap would corrupt PR base chains); PRs found below the gap: "@
        + prs_text(prs, " -> "@)
}

/// The note on what was left out above a linked run.
pub open spec fn left_out_note(prs: Seq<u64>, left_out: Seq<Seq<char>>) -> Seq<char> {
    "linked "@ + prs_text(prs, " -> "@) + " but left the top of the stack ("@ + text::joined(
        left_out,
        ", "@,
    ) + ") out — it has no PR yet; re-submit once it does"@
}

/// The warning that stacks are not enabled.
pub open spec fn not_enabled_warning(prs: Seq<u64>, project: Seq<char>) -> Seq<char> {
    "stacked PRs are not enabled for "@ + project
        + "; enable them or set github.linkStack = false (not linked: "@ + prs_text(prs, " -> "@)
        + ")"@
}

/// The warning of a failed link.
pub open spec fn failed_warning(prs: Seq<u64>, detail: Seq<char>) -> Seq<char> {
    "failed to link stack "@ + prs_text(prs, " -> "@) + " ("@ + detail
        + "); rerun by hand: gh-stack link "@ + text::joined(pr_args(prs), " "@)
}

/// The tally after one more step. `outcome` is what linking gave, where the step links.
pub open spec fn tally_step(
    t: Tally,
    step: StepView,
    outcome: LinkOutcome,
    project: Seq<char>,
) -> Tally {
    match step {
        StepView::Skip => t,
        StepView::Gap { prs } => Tally { warnings: t.warnings.push(gap_warning(prs)), ..t },
        StepView::Link { prs, left_out } => match outcome {
            LinkOutcome::Linked => Tally {
                stacks: t.stacks.push(prs),
                notes: if left_out.len() > 0 {
                    t.notes.push(left_out_note(prs, left_out))
                } else {
                    t.notes
                },
                ..t
            },
            LinkOutcome::NotEnabled => Tally {
                warnings: t.warnings.push(not_enabled_warning(prs, project)),
                ..t
            },
            LinkOutcome::Failed { detail } => Tally {
                warnings: t.warnings.push(failed_warning(prs, detail@)),
                ..t
            },
        },
    }
}

/// The tally of all steps, with one outcome for each.
pub open spec fn tally(
    steps: Seq<StepView>,
    outcomes: Seq<LinkOutcome>,
    project: Seq<char>,
) -> Tally
    decreases steps.len(),
{
    if steps.len() == 0 {
        Tally { stacks: Seq::empty(), warnings: Seq::empty(), notes: Seq::empty() }
    } else {
        tally_step(
            tally(steps.drop_last(), outcomes.drop_last(), project),
            steps.last(),
            outcomes.last(),
            project,
        )
    }
}

/// The PR is in one of the stacks.
pub open spec fn in_stacks(stacks: Seq<Seq<u64>>, pr: u64) -> bool {
    exists|i: int| 0 <= i < stacks.len() && (#[trigger] stacks[i]).contains(pr)
}

/// The PR was submitted and is in none of the stacks.
pub open spec fn is_orphan(prs: Map<Seq<char>, u64>, stacks: Seq<Seq<u64>>, pr: u64) -> bool {
    &&& exists|b: Seq<char>| #[trigger] prs.dom().contains(b) && prs[b] == pr
    &&& !in_stacks(stacks, pr)
}

/// All orphans, each once, in ascending order.
pub open spec fn are_orphans(
    orphans: Seq<u64>,
    prs: Map<Seq<char>, u64>,
    stacks: Seq<Seq<u64>>,
) -> bool {
    &&& forall|i: int, j: int|
        0 <= i < j < orphans.len() ==> #[trigger] orphans[i] < #[trigger] orphans[j]
    &&& forall|pr: u64| #[trigger] orphans.contains(pr) <==> is_orphan(prs, stacks, pr)
}

/// The note on submitted PRs that are in no stack.
pub open spec fn orphan_note(orphans: Seq<u64>) -> Seq<char> {
    "these submitted PR(s) were not added to any stack (separate or non-linear component): "@
        + prs_text(orphans, " -> "@)
}

/// The outcome that a tally and the orphans give. Failures go before everything else.
pub open spec fn conclusion(t: Tally, orphans: Seq<u64>) -> OutcomeView {
    if t.warnings.len() > 0 {
        OutcomeView::Failed { warning: text::joined(t.warnings, "; "@) }
    } else if t.stacks.len() == 0 {
        OutcomeView::Skipped(SkipReason::NoQualifyingStack)
    } else {
        OutcomeView::Linked {
            stacks: t.stacks,
            unlinked: if orphans.len() > 0 {
                t.notes.push(orphan_note(orphans))
            } else {
                t.notes
            },
        }
    }
}

/// What the steps so far have given.
#[derive(Debug)]
pub struct LinkTally {
    pub stacks: Vec<Vec<u64>>,
    pub warnings: Vec<String>,
    pub notes: Vec<String>,
}

impl View for LinkTally {
    type V = Tally;

    open spec fn view(&self) -> Tally {
        Tally {
            stacks: stack_views(self.stacks@),
            warnings: text::texts(self.warnings@),
            notes: text::texts(self.notes@),
        }
    }
}

impl LinkTally {
    /// Nothing yet.
    pub fn new() -> (t: LinkTally)
        ensures
            t@ == (Tally {
                stacks: Seq::empty(),
                warnings: Seq::empty(),
                notes: Seq::empty(),
            }),
    {
        let t = LinkTally { stacks: Vec::new(), warnings: Vec::new(), notes: Vec::new() };
        assert(t@ =~= Tally { stacks: Seq::empty(), warnings: Seq::empty(), notes: Seq::empty() });
        t
    }

    fn warn(&mut self, warning: String)
        ensures
            final(self)@ == (Tally { warnings: old(self)@.warnings.push(warning@), ..old(self)@ }),
    {
        let ghost before = self@;
        let ghost added = warning@;
        self.warnings.push(warning);
        assert(text::texts(self.warnings@) == before.warnings.push(added));
    }

    /// Takes one more step into account. `outcome` is what linking gave; it is not looked at
    /// where the step does not link.
    pub fn add(&mut self, step: LinkStep, outcome: LinkOutcome, project: &str)
        ensures
            final(self)@ == tally_step(old(self)@, step@, outcome, project@),
    {
        let ghost before = self@;
        match step {
            LinkStep::Skip => {},
            LinkStep::Gap { prs } => {
                self.warn(
                    "skipped linking a stack with a missing middle PR (linking across the gap would corrupt PR base chains); PRs found below the gap: ".to_owned().concat(
                        format_prs(&prs).as_str(),
                    ),
                );
            },
            LinkStep::Link { prs, left_out } => match outcome {
                LinkOutcome::Linked => {
                    if left_out.len() > 0 {
                        let note = "linked ".to_owned().concat(format_prs(&prs).as_str()).concat(
                            " but left the top of the stack (",
                        ).concat(text::join(&left_out, ", ").as_str()).concat(
                            ") out — it has no PR yet; re-submit once it does",
                        );
                        let ghost added = note@;
                        self.notes.push(note);
                        assert(text::texts(self.notes@) == before.notes.push(added));
                    }
                    let ghost linked = prs@;
                    self.stacks.push(prs);
                    assert(stack_views(self.stacks@) == before.stacks.push(linked));
                },
                LinkOutcome::NotEnabled => {
                    self.warn(
                        "stacked PRs are not enabled for ".to_owned().concat(project).concat(
                            "; enable them or set github.linkStack = false (not linked: ",
                        ).concat(format_prs(&prs).as_str()).concat(")"),
                    );
                },
                LinkOutcome::Failed { detail } => {
                    let args = write_pr_args(&prs);
                    self.warn(
                        "failed to link stack ".to_owned().concat(
                            format_prs(&prs).as_str(),
                        ).concat(" (").concat(detail.as_str()).concat(
                            "); rerun by hand: gh-stack link ",
                        ).concat(text::join(&args, " ").as_str()),
                    );
                },
            },
        }
    }

    /// The outcome, with the orphans among the submitted PRs.
    pub fn conclude(self, pr_map: &OrderedMap<u64>) -> (r: StackLinkOutcome)
        requires
            pr_map.wf(),
        ensures
            exists|orphans: Seq<u64>| #[trigger]
                are_orphans(orphans, pr_map@, self@.stacks) && r@ == conclusion(self@, orphans),
    {
        let orphans = find_orphans(pr_map, &self.stacks);
        assert(are_orphans(orphans@, pr_map@, self@.stacks));
        assert(self@.warnings.len() == self.warnings@.len());
        assert(self@.stacks.len() == self.stacks@.len());
        if self.warnings.len() > 0 {
            return StackLinkOutcome::Failed { warning: text::join(&self.warnings, "; ") };
        }
        if self.stacks.len() == 0 {
            return StackLinkOutcome::Skipped(SkipReason::NoQualifyingStack);
        }
        let mut unlinked = self.notes;
        if orphans.len() > 0 {
            let ghost before = text::texts(unlinked@);
            let note =
                "these submitted PR(s) were not added to any stack (separate or non-linear component): ".to_owned().concat(
                format_prs(&orphans).as_str(),
            );
            let ghost added = note@;
            unlinked.push(note);
            assert(text::texts(unlinked@) == before.push(added));
        }
        StackLinkOutcome::Linked { stacks: self.stacks, unlinked }
    }
}

/// Whether a PR is in one of the stacks.
fn is_linked(stacks: &Vec<Vec<u64>>, pr: u64) -> (r: bool)
    ensures
        r == in_stacks(stack_views(stacks@), pr),
{
    let n = stacks.len();
    let mut i: usize = 0;
    while i < n
        invariant
            n == stacks@.len(),
            i <= n,
            forall|k: int| 0 <= k < i ==> !(#[trigger] stack_views(stacks@)[k]).contains(pr),
        decreases n - i,
    {
        let stack = &stacks[i];
        let m = stack.len();
        let mut j: usize = 0;
        assert(stack_views(stacks@)[i as int] == stack@);
        while j < m
            invariant
                n == stacks@.len(),
                i < n,
                m == stack@.len(),
                stack_views(stacks@)[i as int] == stack@,
                j <= m,
                forall|k: int| 0 <= k < j ==> stack@[k] != pr,
            decreases m - j,
        {
            if stack[j] == pr {
                assert(stack@.contains(pr));
                return true;
            }
            j += 1;
        }
        i += 1;
    }
    false
}

/// Adds a number to an ascending list, unless it is there.
fn insert_ascending(list: &mut Vec<u64>, pr: u64)
    requires
        forall|i: int, j: int|
            0 <= i < j < old(list)@.len() ==> #[trigger] old(list)@[i] < #[trigger] old(list)@[j],
    ensures
        forall|i: int, j: int|
            0 <= i < j < final(list)@.len() ==> #[trigger] final(list)@[i]
                < #[trigger] final(list)@[j],
        forall|x: u64| #[trigger]
            final(list)@.contains(x) <==> old(list)@.contains(x) || x == pr,
{
    let ghost before = list@;
    let n = list.len();
    let mut p: usize = 0;
    while p < n && list[p] < pr
        invariant
            n == list@.len(),
            list@ == before,
            p <= n,
            forall|k: int| 0 <= k < p ==> #[trigger] before[k] < pr,
        decreases n - p,
    {
        p += 1;
    }
    if p < n && list[p] == pr {
        assert(before.contains(pr));
        return;
    }
    list.insert(p, pr);
    proof {
        let after = list@;
        assert(after == before.insert(p as int, pr));
        assert forall|x: u64| #[trigger] after.contains(x) <==> before.contains(x) || x == pr by {
            if before.contains(x) {
                let k = before.index_of(x);
                if k < p {
                    assert(after[k] == x);
                } else {
                    assert(after[k + 1] == x);
                }
            }
            if after.contains(x) {
                let k = after.index_of(x);
                if k < p {
                    assert(before[k] == x);
                } else if k > p {
                    assert(before[k - 1] == x);
                }
            }
            assert(after[p as int] == pr);
        }
    }
}

/// The submitted PRs that are in none of the stacks, each once, in ascending order.
pub fn find_orphans(pr_map: &OrderedMap<u64>, stacks: &Vec<Vec<u64>>) -> (orphans: Vec<u64>)
    requires
        pr_map.wf(),
    ensures
        are_orphans(orphans@, pr_map@, stack_views(stacks@)),
{
    let mut orphans: Vec<u64> = Vec::new();
    let n = pr_map.len();
    let mut i: usize = 0;
    let ghost values = pr_map.values();
    let ghost views = stack_views(stacks@);
    while i < n
        invariant
            pr_map.wf(),
            values == pr_map.values(),
            views == stack_views(stacks@),
            n == values.len(),
            n == pr_map.keys().len(),
            i <= n,
            forall|a: int, b: int|
                0 <= a < b < orphans@.len() ==> #[trigger] orphans@[a] < #[trigger] orphans@[b],
            forall|pr: u64| #[trigger]
                orphans@.contains(pr) <==> values.take(i as int).contains(pr) && !in_stacks(
                    views,
                    pr,
                ),
        decreases n - i,
    {
        let pr = *pr_map.value_at(i);
        let ghost before = orphans@;
        if !is_linked(stacks, pr) {
            insert_ascending(&mut orphans, pr);
        }
        proof {
            let next = values.take(i + 1);
            let done = values.take(i as int);
            assert(next == done.push(pr));
            assert forall|x: u64| #[trigger] next.contains(x) <==> done.contains(x) || x == pr by {
                if done.contains(x) {
                    assert(next[done.index_of(x)] == x);
                }
                if next.contains(x) && x != pr {
                    assert(done[next.index_of(x)] == x);
                }
                assert(next[i as int] == pr);
            }
            assert forall|x: u64| #[trigger] orphans@.contains(x) <==> next.contains(x)
                && !in_stacks(views, x) by {
                assert(before.contains(x) <==> done.contains(x) && !in_stacks(views, x));
            }
        }
        i += 1;
    }
    proof {
        assert(values.take(n as int) == values);
        pr_map.lemma_entries();
        let keys = pr_map.keys();
        assert forall|pr: u64| #[trigger] orphans@.contains(pr) <==> is_orphan(
            pr_map@,
            views,
            pr,
        ) by {
            if values.contains(pr) {
                let k = values.index_of(pr);
                assert(pr_map@.dom().contains(keys[k]) && pr_map@[keys[k]] == pr);
            }
            if exists|b: Seq<char>| #[trigger] pr_map@.dom().contains(b) && pr_map@[b] == pr {
                let b = choose|b: Seq<char>| #[trigger]
                    pr_map@.dom().contains(b) && pr_map@[b] == pr;
                assert(keys.contains(b));
                let k = keys.index_of(b);
                assert(pr_map@[keys[k]] == values[k]);
                assert(values.contains(pr));
            }
        }
    }
    orphans
}

/// There is one list of all orphans.
pub proof fn orphans_are_unique(
    a: Seq<u64>,
    b: Seq<u64>,
    prs: Map<Seq<char>, u64>,
    stacks: Seq<Seq<u64>>,
)
    requires
        are_orphans(a, prs, stacks),
        are_orphans(b, prs, stacks),
    ensures
        a == b,
{
    assert forall|x: u64| a.contains(x) <==> b.contains(x) by {
        assert(a.contains(x) <==> is_orphan(prs, stacks, x));
        assert(b.contains(x) <==> is_orphan(prs, stacks, x));
    }
    ordered_map::lemma_ascending_unique(a, b, |x: u64, y: u64| x < y);
}

/// What the runner is asked for these steps, where it answers with these outcomes: the PRs of
/// each step that links, in order, and nothing for any other step.
pub open spec fn calls(
    steps: Seq<StepView>,
    outcomes: Seq<LinkOutcome>,
    github: GitHubConfig,
) -> Seq<Asked>
    decreases steps.len(),
{
    if steps.len() == 0 {
        Seq::empty()
    } else {
        let before = calls(steps.drop_last(), outcomes.drop_last(), github);
        match steps.last() {
            StepView::Link { prs, .. } => before.push(
                Asked { prs, github, outcome: outcomes.last() },
            ),
            _ => before,
        }
    }
}

/// Links every linear component of the graph. Whatever the runner answers, it is asked once
/// for each component that is to be linked, in the order of the components and with the PRs
/// of its run, and for nothing else. The outcome is what the answers give together.
pub fn link_from_graph<R: StackLinkRunner>(
    runner: &mut LoggedRunner<R>,
    github: &GitHubConfig,
    graph: &BookmarkGraph,
    merge_requests: &Vec<MRUpdate>,
) -> (r: StackLinkOutcome)
    requires
        graph.wf(),
        old(runner).wf(),
    ensures
        final(runner).wf(),
        final(runner).inner() == old(runner).inner(),
        exists|components: Seq<TextSet>, outcomes: Seq<LinkOutcome>, orphans: Seq<u64>|
            linked_as(
                old(runner).asked(),
                final(runner).asked(),
                *github,
                graph@,
                iids(merge_requests@),
                components,
                outcomes,
                orphans,
                r@,
            ),
{
    let pr_map = build_pr_map(merge_requests);
    let mut steps = plan_links(graph, &pr_map);
    let ghost plan = step_views(steps@);
    let ghost project = config::target_of(github.target_project@, github.project@);
    let ghost mut outcomes: Seq<LinkOutcome> = Seq::empty();
    let ghost start = runner.asked();
    let mut total = LinkTally::new();
    let n = steps.len();
    let mut i: usize = 0;
    assert(start + Seq::<Asked>::empty() =~= start);
    while i < n
        invariant
            i <= n,
            n == plan.len(),
            outcomes.len() == i,
            step_views(steps@) == plan.skip(i as int),
            runner.wf(),
            runner.inner() == old(runner).inner(),
            runner.asked() == start + calls(plan.take(i as int), outcomes, *github),
            project == config::target_of(github.target_project@, github.project@),
            total@ == tally(plan.take(i as int), outcomes, project),
        decreases n - i,
    {
        assert(step_views(steps@).len() == n - i);
        assert(step_views(steps@)[0] == plan[i as int]);
        let ghost before = step_views(steps@);
        let step = steps.remove(0);
        assert(step_views(steps@) == before.skip(1));
        assert(before.skip(1) == plan.skip(i + 1));
        let outcome = match &step {
            LinkStep::Link { prs, left_out } => runner.run(prs, github),
            _ => LinkOutcome::Linked,
        };
        proof {
            assert(step@ == plan[i as int]);
            let next = outcomes.push(outcome);
            assert(plan.take(i + 1).drop_last() == plan.take(i as int));
            assert(plan.take(i + 1).last() == plan[i as int]);
            assert(next.drop_last() == outcomes);
            assert(runner.asked() =~= start + calls(plan.take(i + 1), next, *github));
            outcomes = next;
        }
        total.add(step, outcome, github.target_project());
        i += 1;
    }
    assert(plan.take(n as int) == plan);
    let ghost t = total@;
    let r = total.conclude(&pr_map);
    proof {
        let components = choose|components: Seq<TextSet>| #[trigger]
            bookmark::are_components(graph@, components) && plan == steps_of(
                graph@,
                components,
                pr_map@,
            );
        let orphans = choose|orphans: Seq<u64>| #[trigger]
            are_orphans(orphans, pr_map@, t.stacks) && r@ == conclusion(t, orphans);
        assert(linked_as(
            start,
            runner.asked(),
            *github,
            graph@,
            iids(merge_requests@),
            components,
            outcomes,
            orphans,
            r@,
        ));
    }
    r
}

/// `r` is what linking gives, and the runner was asked what linking asks, where the components
/// of the graph, the answers of the runner and the orphans are these. `before` and `after` are
/// what the runner had been asked before and after.
pub open spec fn linked_as(
    before: Seq<Asked>,
    after: Seq<Asked>,
    github: GitHubConfig,
    g: bookmark::GraphView,
    updates: Seq<(Seq<char>, Seq<char>)>,
    components: Seq<TextSet>,
    outcomes: Seq<LinkOutcome>,
    orphans: Seq<u64>,
    r: OutcomeView,
) -> bool {
    let prs = pr_numbers(updates);
    let steps = steps_of(g, components, prs);
    let t = tally(
        steps,
        outcomes,
        config::target_of(github.target_project@, github.project@),
    );
    &&& bookmark::are_components(g, components)
    &&& outcomes.len() == steps.len()
    &&& after == before + calls(steps, outcomes, github)
    &&& are_orphans(orphans, prs, t.stacks)
    &&& r == conclusion(t, orphans)
}

/// Why linking is skipped before anything is looked at.
pub open spec fn gate(dry_run: bool, no_hooks: bool, link_stack: bool) -> Option<SkipReason> {
    if dry_run {
        Some(SkipReason::DryRun)
    } else if no_hooks {
        Some(SkipReason::NoHooks)
    } else if !link_stack {
        Some(SkipReason::Disabled)
    } else {
        None
    }
}

/// Why linking is skipped before anything is looked at.
pub fn skip_reason(github: &GitHubConfig, dry_run: bool, no_hooks: bool) -> (r: Option<SkipReason>)
    ensures
        r == gate(dry_run, no_hooks, github.link_stack),
{
    if dry_run {
        Some(SkipReason::DryRun)
    } else if no_hooks {
        Some(SkipReason::NoHooks)
    } else if !github.link_stack {
        Some(SkipReason::Disabled)
    } else {
        None
    }
}

/// Registers the submitted PRs as GitHub-native stacks. `graph` is the bookmark graph after
/// the submission, or why it could not be built; it is not looked at where linking is skipped.
/// The runner is asked nothing where linking is skipped or there is no graph.
pub fn link_stacks<R: StackLinkRunner>(
    runner: &mut LoggedRunner<R>,
    github: &GitHubConfig,
    graph: Result<BookmarkGraph, Error>,
    merge_requests: &Vec<MRUpdate>,
    dry_run: bool,
    no_hooks: bool,
) -> (r: StackLinkOutcome)
    requires
        graph matches Ok(g) ==> g.wf(),
        old(runner).wf(),
    ensures
        final(runner).wf(),
        final(runner).inner() == old(runner).inner(),
        match gate(dry_run, no_hooks, github.link_stack) {
            Some(reason) => r@ == OutcomeView::Skipped(reason) && final(runner).asked() == old(
                runner,
            ).asked(),
            None => match graph {
                Err(e) => r@ == (OutcomeView::Failed {
                    warning: "could not rebuild bookmark graph for stack link: "@ + e.text(),
                }) && final(runner).asked() == old(runner).asked(),
                Ok(g) => exists|
                    components: Seq<TextSet>,
                    outcomes: Seq<LinkOutcome>,
                    orphans: Seq<u64>,
                |
                    linked_as(
                        old(runner).asked(),
                        final(runner).asked(),
                        *github,
                        g@,
                        iids(merge_requests@),
                        components,
                        outcomes,
                        orphans,
                        r@,
                    ),
            },
        },
{
    if let Some(reason) = skip_reason(github, dry_run, no_hooks) {
        return StackLinkOutcome::Skipped(reason);
    }
    match graph {
        Ok(graph) => link_from_graph(runner, github, &graph, merge_requests),
        Err(e) => StackLinkOutcome::Failed {
            warning: "could not rebuild bookmark graph for stack link: ".to_owned().concat(
                e.to_string().as_str(),
            ),
        },
    }
}

// ---------------------------------------------------------------------------
// Laws of linking
// ---------------------------------------------------------------------------
/// A step warns: it found a gap, or its link did not succeed.
pub open spec fn step_warns(step: StepView, outcome: LinkOutcome) -> bool {
    step is Gap || (step is Link && !(outcome is Linked))
}

/// The step linked exactly these PRs.
pub open spec fn step_linked(step: StepView, outcome: LinkOutcome, linked: Seq<u64>) -> bool {
    outcome is Linked && (step matches StepView::Link { prs, .. } && prs == linked)
}

proof fn lemma_tally(steps: Seq<StepView>, outcomes: Seq<LinkOutcome>, project: Seq<char>)
    requires
        outcomes.len() == steps.len(),
    ensures
        tally(steps, outcomes, project).warnings.len() == 0 <==> forall|i: int|
            0 <= i < steps.len() ==> !step_warns(#[trigger] steps[i], outcomes[i]),
        forall|k: int|
            #![trigger tally(steps, outcomes, project).stacks[k]]
            0 <= k < tally(steps, outcomes, project).stacks.len() ==> exists|i: int|
                0 <= i < steps.len() && step_linked(
                    #[trigger] steps[i],
                    outcomes[i],
                    tally(steps, outcomes, project).stacks[k],
                ),
    decreases steps.len(),
{
    if steps.len() > 0 {
        let s1 = steps.drop_last();
        let o1 = outcomes.drop_last();
        lemma_tally(s1, o1, project);
        let t1 = tally(s1, o1, project);
        let t = tally(steps, outcomes, project);
        let n = s1.len() as int;
        assert(steps[n] == steps.last() && outcomes[n] == outcomes.last());
        if t.warnings.len() == 0 {
            assert(t1.warnings.len() == 0);
            assert forall|i: int| 0 <= i < steps.len() implies !step_warns(
                #[trigger] steps[i],
                outcomes[i],
            ) by {
                if i < n {
                    assert(!step_warns(s1[i], o1[i]));
                }
            }
        }
        if forall|i: int| 0 <= i < steps.len() ==> !step_warns(#[trigger] steps[i], outcomes[i]) {
            assert forall|i: int| 0 <= i < s1.len() implies !step_warns(
                #[trigger] s1[i],
                o1[i],
            ) by {
                assert(!step_warns(steps[i], outcomes[i]));
            }
            assert(!step_warns(steps[n], outcomes[n]));
        }
        assert forall|k: int|
            #![trigger t.stacks[k]]
            0 <= k < t.stacks.len() implies exists|i: int|
            0 <= i < steps.len() && step_linked(#[trigger] steps[i], outcomes[i], t.stacks[k]) by {
            if k < t1.stacks.len() {
                assert(t.stacks[k] == t1.stacks[k]);
                let i = choose|i: int|
                    0 <= i < s1.len() && step_linked(#[trigger] s1[i], o1[i], t1.stacks[k]);
                assert(steps[i] == s1[i] && outcomes[i] == o1[i]);
                assert(step_linked(steps[i], outcomes[i], t.stacks[k]));
            } else {
                assert(step_linked(steps[n], outcomes[n], t.stacks[k]));
            }
        }
    }
}

/// Failures go before successes: where any component has a gap or was not linked, the outcome
/// is a failure, however many others were linked; where none has, it is not.
pub proof fn any_failure_shows(
    steps: Seq<StepView>,
    outcomes: Seq<LinkOutcome>,
    project: Seq<char>,
    orphans: Seq<u64>,
)
    requires
        outcomes.len() == steps.len(),
    ensures
        conclusion(tally(steps, outcomes, project), orphans) is Failed <==> exists|i: int|
            0 <= i < steps.len() && step_warns(#[trigger] steps[i], outcomes[i]),
{
    lemma_tally(steps, outcomes, project);
}

/// A link that fails stops no other: the runner is asked to link the same stacks whatever it
/// answers.
pub proof fn answers_stop_no_link(
    steps: Seq<StepView>,
    a: Seq<LinkOutcome>,
    b: Seq<LinkOutcome>,
    github: GitHubConfig,
)
    requires
        a.len() == steps.len(),
        b.len() == steps.len(),
    ensures
        calls(steps, a, github).len() == calls(steps, b, github).len(),
        forall|k: int|
            0 <= k < calls(steps, a, github).len() ==> (#[trigger] calls(steps, a, github)[k]).prs
                == calls(steps, b, github)[k].prs,
    decreases steps.len(),
{
    if steps.len() > 0 {
        answers_stop_no_link(steps.drop_last(), a.drop_last(), b.drop_last(), github);
        let before = calls(steps.drop_last(), a.drop_last(), github);
        assert forall|k: int| 0 <= k < calls(steps, a, github).len() implies (#[trigger] calls(
            steps,
            a,
            github,
        )[k]).prs == calls(steps, b, github)[k].prs by {
            if k < before.len() {
                assert(before[k].prs == calls(steps.drop_last(), b.drop_last(), github)[k].prs);
            }
        }
    }
}

proof fn lemma_calls(
    steps: Seq<StepView>,
    outcomes: Seq<LinkOutcome>,
    github: GitHubConfig,
    k: int,
)
    requires
        outcomes.len() == steps.len(),
        0 <= k < calls(steps, outcomes, github).len(),
    ensures
        calls(steps, outcomes, github)[k].github == github,
        exists|i: int|
            0 <= i < steps.len() && (#[trigger] steps[i] matches StepView::Link { prs, .. } && prs
                == calls(steps, outcomes, github)[k].prs) && outcomes[i] == calls(
                steps,
                outcomes,
                github,
            )[k].outcome,
    decreases steps.len(),
{
    let s1 = steps.drop_last();
    let o1 = outcomes.drop_last();
    let before = calls(s1, o1, github);
    if k < before.len() {
        lemma_calls(s1, o1, github, k);
        let i = choose|i: int|
            0 <= i < s1.len() && (#[trigger] s1[i] matches StepView::Link { prs, .. } && prs
                == before[k].prs) && o1[i] == before[k].outcome;
        assert(steps[i] == s1[i] && outcomes[i] == o1[i]);
    } else {
        let last = steps.len() - 1;
        assert(steps[last] is Link && outcomes[last] == outcomes.last());
    }
}

/// The runner is asked for nothing but whole runs of two or more PRs in a linear component, so
/// never across a gap.
pub proof fn asked_for_whole_runs_only(
    g: bookmark::GraphView,
    components: Seq<TextSet>,
    prs: Map<Seq<char>, u64>,
    outcomes: Seq<LinkOutcome>,
    github: GitHubConfig,
    k: int,
)
    requires
        outcomes.len() == components.len(),
        0 <= k < calls(steps_of(g, components, prs), outcomes, github).len(),
    ensures
        calls(steps_of(g, components, prs), outcomes, github)[k].prs.len() >= 2,
        exists|i: int|
            0 <= i < components.len() && bookmark::linear(g, (#[trigger] components[i])@)
                && step_of(g, components[i]@, prs) is Link && step_of(
                g,
                components[i]@,
                prs,
            )->Link_prs == calls(steps_of(g, components, prs), outcomes, github)[k].prs,
{
    let steps = steps_of(g, components, prs);
    lemma_calls(steps, outcomes, github, k);
    let call = calls(steps, outcomes, github)[k];
    let i = choose|i: int|
        0 <= i < steps.len() && (#[trigger] steps[i] matches StepView::Link { prs, .. } && prs
            == call.prs) && outcomes[i] == call.outcome;
    assert(steps[i] == step_of(g, components[i]@, prs));
    links_are_whole_runs(g, components[i]@, prs);
}

/// The PRs that a step found.
pub open spec fn prs_of(step: StepView) -> Seq<u64> {
    match step {
        StepView::Skip => Seq::empty(),
        StepView::Gap { prs } => prs,
        StepView::Link { prs, .. } => prs,
    }
}

proof fn lemma_warnings(
    steps: Seq<StepView>,
    outcomes: Seq<LinkOutcome>,
    project: Seq<char>,
    i: int,
)
    requires
        outcomes.len() == steps.len(),
        0 <= i < steps.len(),
        step_warns(steps[i], outcomes[i]),
    ensures
        exists|k: int|
            0 <= k < tally(steps, outcomes, project).warnings.len() && text::contains_text(
                #[trigger] tally(steps, outcomes, project).warnings[k],
                prs_text(prs_of(steps[i]), " -> "@),
            ),
    decreases steps.len(),
{
    let s1 = steps.drop_last();
    let o1 = outcomes.drop_last();
    let t1 = tally(s1, o1, project);
    let t = tally(steps, outcomes, project);
    let named = prs_text(prs_of(steps[i]), " -> "@);
    if i < steps.len() - 1 {
        lemma_warnings(s1, o1, project, i);
        let k = choose|k: int|
            0 <= k < t1.warnings.len() && text::contains_text(#[trigger] t1.warnings[k], named);
        assert(t.warnings[k] == t1.warnings[k]);
    } else {
        let k = t1.warnings.len() as int;
        let warning = t.warnings[k];
        match steps[i] {
            StepView::Link { prs, .. } => match outcomes[i] {
                LinkOutcome::Failed { detail } => {
                    let tail = " ("@ + detail@ + "); rerun by hand: gh-stack link "@
                        + text::joined(pr_args(prs), " "@);
                    text::lemma_contains_middle("failed to link stack "@, named, tail);
                    assert(warning == "failed to link stack "@ + named + tail);
                },
                _ => {
                    let head = "stacked PRs are not enabled for "@ + project
                        + "; enable them or set github.linkStack = false (not linked: "@;
                    text::lemma_contains_middle(head, named, ")"@);
                    assert(warning == head + named + ")"@);
                },
            },
            _ => {
                text::lemma_contains_middle(
                    "skipped linking a stack with a missing middle PR (linking across the gap would corrupt PR base chains); PRs found below the gap: "@,
                    named,
                    Seq::empty(),
                );
                assert(warning =~= "skipped linking a stack with a missing middle PR (linking across the gap would corrupt PR base chains); PRs found below the gap: "@
                    + named + Seq::<char>::empty());
            },
        }
        assert(text::contains_text(t.warnings[k], named));
    }
}

/// A failure is never silent on which PRs it left unlinked: the warning names the PRs of every
/// component that has a gap or was not linked.
pub proof fn failures_name_their_prs(
    steps: Seq<StepView>,
    outcomes: Seq<LinkOutcome>,
    project: Seq<char>,
    orphans: Seq<u64>,
    i: int,
)
    requires
        outcomes.len() == steps.len(),
        0 <= i < steps.len(),
        step_warns(steps[i], outcomes[i]),
    ensures
        conclusion(tally(steps, outcomes, project), orphans) matches OutcomeView::Failed { warning }
            && text::contains_text(warning, prs_text(prs_of(steps[i]), " -> "@)),
{
    lemma_warnings(steps, outcomes, project, i);
    let t = tally(steps, outcomes, project);
    let named = prs_text(prs_of(steps[i]), " -> "@);
    let k = choose|k: int|
        0 <= k < t.warnings.len() && text::contains_text(#[trigger] t.warnings[k], named);
    text::lemma_contains_joined(t.warnings, "; "@, k, named);
}

/// Every stack that is reported as linked is one that a step linked, and has two or more PRs.
pub proof fn linked_stacks_were_planned(
    g: bookmark::GraphView,
    components: Seq<TextSet>,
    prs: Map<Seq<char>, u64>,
    outcomes: Seq<LinkOutcome>,
    project: Seq<char>,
    k: int,
)
    requires
        outcomes.len() == components.len(),
        0 <= k < tally(steps_of(g, components, prs), outcomes, project).stacks.len(),
    ensures
        tally(steps_of(g, components, prs), outcomes, project).stacks[k].len() >= 2,
        exists|i: int|
            0 <= i < components.len() && step_linked(
                step_of(g, (#[trigger] components[i])@, prs),
                outcomes[i],
                tally(steps_of(g, components, prs), outcomes, project).stacks[k],
            ),
{
    let steps = steps_of(g, components, prs);
    lemma_tally(steps, outcomes, project);
    let t = tally(steps, outcomes, project);
    let i = choose|i: int|
        0 <= i < steps.len() && step_linked(#[trigger] steps[i], outcomes[i], t.stacks[k]);
    assert(steps[i] == step_of(g, components[i]@, prs));
    links_are_whole_runs(g, components[i]@, prs);
}

/// An outcome that reports links reports at least one stack; where no stack was linked, nothing
/// is said of PRs that are in none, so that a single PR stays quiet.
pub proof fn notes_come_with_stacks(t: Tally, orphans: Seq<u64>)
    ensures
        conclusion(t, orphans) matches OutcomeView::Linked { stacks, .. } ==> stacks.len() > 0,
        t.warnings.len() == 0 && t.stacks.len() == 0 ==> conclusion(t, orphans)
            == OutcomeView::Skipped(SkipReason::NoQualifyingStack),
{
}

/// A dry run, a submit without hooks and a configuration that disables linking each skip it,
/// in this order.
pub proof fn gates_skip(dry_run: bool, no_hooks: bool, link_stack: bool)
    ensures
        gate(dry_run, no_hooks, link_stack) is None <==> !dry_run && !no_hooks && link_stack,
        dry_run ==> gate(dry_run, no_hooks, link_stack) == Some(SkipReason::DryRun),
{
}

// ---------------------------------------------------------------------------
// The `gh-stack` command
// ---------------------------------------------------------------------------
/// A call of `gh-stack`. The token is in the environment only.
#[derive(Debug)]
pub struct GhStackCommand {
    pub program: String,
    pub args: Vec<String>,
    /// The variables that are set for the call, by name.
    pub env: Vec<(String, String)>,
}

/// The call links these PRs with this token. The token is in the environment only, and the
/// repository is pinned, so that a fork links stacks on the target.
pub open spec fn is_gh_stack_call(
    call: GhStackCommand,
    prs: Seq<u64>,
    github: GitHubConfig,
    token: Seq<char>,
) -> bool {
    &&& call.program@ == "gh-stack"@
    &&& text::texts(call.args@) == seq!["link"@] + pr_args(prs)
    &&& call.env@.len() == 2
    &&& call.env@[0].0@ == "GH_TOKEN"@
    &&& call.env@[0].1@ == token
    &&& call.env@[1].0@ == "GH_REPO"@
    &&& call.env@[1].1@ == config::target_of(github.target_project@, github.project@)
}

/// The call that links these PRs.
pub fn gh_stack_command(prs: &Vec<u64>, github: &GitHubConfig, token: String) -> (r: GhStackCommand)
    ensures
        is_gh_stack_call(r, prs@, *github, token@),
{
    let mut args: Vec<String> = Vec::new();
    args.push("link".to_owned());
    let mut numbers = write_pr_args(prs);
    let ghost added = text::texts(numbers@);
    assert(text::texts(args@) =~= seq!["link"@]);
    args.append(&mut numbers);
    assert(text::texts(args@) == seq!["link"@] + added);
    let mut env: Vec<(String, String)> = Vec::new();
    env.push(("GH_TOKEN".to_owned(), token));
    env.push(("GH_REPO".to_owned(), github.target_project().to_owned()));
    GhStackCommand { program: "gh-stack".to_owned(), args, env }
}

/// What to do for a link: the call of `gh-stack`, or, where there is no token, the outcome
/// without one.
pub fn gh_stack_start(
    token: Result<String, Error>,
    prs: &Vec<u64>,
    github: &GitHubConfig,
) -> (r: Result<GhStackCommand, LinkOutcome>)
    ensures
        match token {
            Ok(token) => r matches Ok(call) && is_gh_stack_call(call, prs@, *github, token@),
            Err(e) => r matches Err(LinkOutcome::Failed { detail }) && detail@
                == "could not resolve GH_TOKEN: "@ + e.text(),
        },
{
    match token {
        Ok(token) => Ok(gh_stack_command(prs, github, token)),
        Err(e) => Err(missing_token_outcome(&e)),
    }
}

/// What the end of a call of `gh-stack` means.
pub open spec fn link_outcome(spawned: Spawned, outcome: LinkOutcome) -> bool {
    match spawned {
        Spawned::Finished(output) => {
            let stderr = text::trim(bytes::lossy_text(output.stderr@));
            if output.ok() {
                outcome is Linked
            } else if output.code == Some(9i32) {
                outcome is NotEnabled
            } else if stderr.len() == 0 {
                outcome matches LinkOutcome::Failed { detail } && detail@
                    == "gh-stack exited with "@ + output.status@
            } else {
                outcome matches LinkOutcome::Failed { detail } && detail@
                    == "gh-stack exited with "@ + output.status@ + ": "@ + stderr
                    + " (stderr may be truncated)"@
            }
        },
        Spawned::TimedOut => outcome matches LinkOutcome::Failed { detail } && detail@
            == "gh-stack timed out after "@ + text::decimal(STACK_LINK_TIMEOUT_SECS as nat) + "s"@,
        Spawned::NotFound { reason } => outcome matches LinkOutcome::Failed { detail } && detail@
            == "could not run gh-stack: "@ + reason@,
        Spawned::Failed { reason } => outcome matches LinkOutcome::Failed { detail } && detail@
            == "could not run gh-stack: "@ + reason@,
    }
}

/// What became of a call of `gh-stack`.
pub fn gh_stack_outcome(spawned: Spawned) -> (r: LinkOutcome)
    ensures
        link_outcome(spawned, r),
{
    match spawned {
        Spawned::Finished(output) => {
            if output.success() {
                return LinkOutcome::Linked;
            }
            if let Some(code) = output.code {
                if code == 9 {
                    return LinkOutcome::NotEnabled;
                }
            }
            let all = bytes::from_utf8_lossy(&output.stderr);
            let stderr = text::str_trim(all.as_str());
            let exited = "gh-stack exited with ".to_owned().concat(output.status.as_str());
            if stderr.is_empty() {
                LinkOutcome::Failed { detail: exited }
            } else {
                LinkOutcome::Failed {
                    detail: exited.concat(": ").concat(stderr).concat(
                        " (stderr may be truncated)",
                    ),
                }
            }
        },
        Spawned::TimedOut => LinkOutcome::Failed {
            detail: "gh-stack timed out after ".to_owned().concat(
                text::u64_text(STACK_LINK_TIMEOUT_SECS).as_str(),
            ).concat("s"),
        },
        Spawned::NotFound { reason } => LinkOutcome::Failed {
            detail: "could not run gh-stack: ".to_owned().concat(reason.as_str()),
        },
        Spawned::Failed { reason } => LinkOutcome::Failed {
            detail: "could not run gh-stack: ".to_owned().concat(reason.as_str()),
        },
    }
}

/// What a token that could not be resolved means.
pub fn missing_token_outcome(e: &Error) -> (r: LinkOutcome)
    ensures
        r matches LinkOutcome::Failed { detail } && detail@ == "could not resolve GH_TOKEN: "@
            + e.text(),
{
    LinkOutcome::Failed {
        detail: "could not resolve GH_TOKEN: ".to_owned().concat(e.to_string().as_str()),
    }
}

// ---------------------------------------------------------------------------
// Laws of what is linked
// ---------------------------------------------------------------------------
proof fn lemma_line_chain(g: bookmark::GraphView, line: Seq<Seq<char>>, k: int, limit: nat)
    requires
        0 <= k < line.len(),
        k < limit,
        forall|i: int| 0 <= i < line.len() ==> g.dom().contains(#[trigger] line[i]),
        g[line[0]] == Set::<Seq<char>>::empty(),
        forall|i: int| 0 < i < line.len() ==> g[#[trigger] line[i]] == set![line[i - 1]],
    ensures
        bookmark::chain(g, line[k], limit) == line.take(k + 1).reverse(),
    decreases k,
{
    let got = bookmark::chain(g, line[k], limit);
    let meant = line.take(k + 1).reverse();
    if k == 0 {
        assert(g[line[0]].len() == 0);
        assert(got =~= seq![line[0]]);
        assert(meant =~= seq![line[0]]);
    } else {
        let below = line[k - 1];
        assert(g[line[k]] == set![below]);
        assert(g[line[k]].len() == 1);
        assert(g[line[k]].contains(below));
        let only = bookmark::only(g[line[k]]);
        assert(g[line[k]].contains(only));
        assert(only == below);
        lemma_line_chain(g, line, k - 1, (limit - 1) as nat);
        assert(got == seq![line[k]] + line.take(k).reverse());
        assert(meant =~= seq![line[k]] + line.take(k).reverse());
    }
}

/// A line of bookmarks, bottom to top, is a linear component, and is walked as that line.
proof fn lemma_line(g: bookmark::GraphView, members: Set<Seq<char>>, line: Seq<Seq<char>>)
    requires
        bookmark::self_contained(g),
        line.len() > 0,
        line.no_duplicates(),
        members == line.to_set(),
        forall|i: int| 0 <= i < line.len() ==> g.dom().contains(#[trigger] line[i]),
        g[line[0]] == Set::<Seq<char>>::empty(),
        forall|i: int| 0 < i < line.len() ==> g[#[trigger] line[i]] == set![line[i - 1]],
        forall|x: Seq<char>| g.dom().contains(x) ==> !(#[trigger] g[x]).contains(line.last()),
    ensures
        bookmark::linear(g, members),
        bookmark::chain(g, leaf_of(g, members), g.dom().len()).reverse() == line,
{
    let top = line.last();
    let last = line.len() - 1;
    assert forall|b: Seq<char>| #[trigger] members.contains(b) implies g[b].len() <= 1 by {
        let i = line.index_of(b);
        if i > 0 {
            assert(g[line[i]] == set![line[i - 1]]);
        }
    }
    assert(line[last] == top);
    assert(members.contains(top));
    assert forall|b: Seq<char>| #[trigger] bookmark::is_leaf(g, members, b) implies b == top by {
        let i = line.index_of(b);
        if i < last {
            assert(g[line[i + 1]] == set![line[i]]);
            assert(g[line[i + 1]].contains(b));
        }
    }
    assert(bookmark::is_leaf(g, members, top));
    assert(bookmark::sole_leaf(g, members, top));
    let leaf = leaf_of(g, members);
    assert(bookmark::sole_leaf(g, members, leaf));
    assert(leaf == top);
    assert(line.to_set().subset_of(g.dom()));
    line.unique_seq_to_set();
    vstd::set_lib::lemma_len_subset(line.to_set(), g.dom());
    lemma_line_chain(g, line, last, g.dom().len());
    assert(line.take(last + 1) =~= line);
    assert(line.reverse().reverse() =~= line);
}

/// A line of bookmarks of which the PRs lie next to each other is linked exactly where there are
/// two or more of them, and then all of them, bottom to top. The bookmarks above them are named as
/// left out.
pub proof fn neighbouring_prs_are_linked(
    graph: BookmarkGraph,
    members: TextSet,
    pr_map: OrderedMap<u64>,
    line: Seq<Seq<char>>,
    from: int,
    to: int,
    r: LinkStep,
)
    requires
        call_ensures(plan_component, (&graph, &members, &pr_map), r),
        graph.wf(),
        line.len() > 0,
        line.no_duplicates(),
        members@ == line.to_set(),
        forall|i: int| 0 <= i < line.len() ==> graph@.dom().contains(#[trigger] line[i]),
        graph@[line[0]] == Set::<Seq<char>>::empty(),
        forall|i: int| 0 < i < line.len() ==> graph@[#[trigger] line[i]] == set![line[i - 1]],
        forall|x: Seq<char>|
            graph@.dom().contains(x) ==> !(#[trigger] graph@[x]).contains(line.last()),
        0 <= from <= to <= line.len(),
        forall|i: int|
            0 <= i < line.len() ==> (pr_map@.dom().contains(#[trigger] line[i]) <==> from <= i
                < to),
    ensures
        to - from >= 2 <==> r is Link,
        to - from < 2 ==> r is Skip,
        r matches LinkStep::Link { prs, left_out } ==> {
            &&& prs@.len() == to - from
            &&& forall|k: int| from <= k < to ==> prs@[k - from] == pr_map@[#[trigger] line[k]]
            &&& text::texts(left_out@) == line.skip(to)
        },
{
    bookmark::graphs_are_self_contained(graph);
    lemma_line(graph@, members@, line);
    let prs = pr_map@;
    lemma_scan_run(line, prs, from, to);
}

proof fn lemma_scan_run(line: Seq<Seq<char>>, prs: Map<Seq<char>, u64>, from: int, to: int)
    requires
        0 <= from <= to <= line.len(),
        forall|i: int|
            0 <= i < line.len() ==> (prs.dom().contains(#[trigger] line[i]) <==> from <= i < to),
    ensures
        ({
            let s = scan(line, prs);
            &&& !s.interior_gap
            &&& s.prs.len() == to - from
            &&& forall|k: int| from <= k < to ==> s.prs[k - from] == prs[#[trigger] line[k]]
            &&& from < to ==> s.trailing_unmapped == line.skip(to)
        }),
{
    lemma_unmapped_run(line, prs);
    let u = unmapped_run(line, prs);
    if u < from {
        assert(prs.dom().contains(line[u]));
    }
    if from < to && u > from {
        assert(!prs.dom().contains(line[from]));
    }
    let above = line.skip(u);
    lemma_mapped_run(above, prs);
    let count = mapped_run(above, prs);
    if from < to {
        assert(u == from);
        if count < to - from {
            assert(above[count] == line[from + count]);
        } else if count > to - from {
            assert(above[to - from] == line[to]);
        }
        assert(count == to - from);
    } else {
        if count > 0 {
            assert(above[0] == line[u]);
        }
        assert(count == 0);
        if u < line.len() {
            assert(prs.dom().contains(line[u]));
        }
    }
    let rest = above.skip(count);
    lemma_unmapped_run(rest, prs);
    let gap = unmapped_run(rest, prs);
    if gap < rest.len() {
        assert(rest[gap] == line[u + count + gap]);
    }
    assert(gap == rest.len());
    let s = scan(line, prs);
    assert forall|k: int| from <= k < to implies s.prs[k - from] == prs[#[trigger] line[k]] by {
        assert(above[k - from] == line[k]);
    }
    if from < to {
        assert(rest =~= line.skip(to));
        assert(rest.take(gap) =~= rest);
    }
}

/// A line with a bookmark without a PR between two with one is never linked: it is a gap, told by
/// the PRs below it.
pub proof fn gap_is_never_linked(
    graph: BookmarkGraph,
    members: TextSet,
    pr_map: OrderedMap<u64>,
    line: Seq<Seq<char>>,
    low: int,
    hole: int,
    high: int,
    r: LinkStep,
)
    requires
        call_ensures(plan_component, (&graph, &members, &pr_map), r),
        graph.wf(),
        line.len() > 0,
        line.no_duplicates(),
        members@ == line.to_set(),
        forall|i: int| 0 <= i < line.len() ==> graph@.dom().contains(#[trigger] line[i]),
        graph@[line[0]] == Set::<Seq<char>>::empty(),
        forall|i: int| 0 < i < line.len() ==> graph@[#[trigger] line[i]] == set![line[i - 1]],
        forall|x: Seq<char>|
            graph@.dom().contains(x) ==> !(#[trigger] graph@[x]).contains(line.last()),
        0 <= low < hole < high < line.len(),
        forall|i: int| 0 <= i < low ==> !pr_map@.dom().contains(#[trigger] line[i]),
        forall|i: int| low <= i < hole ==> pr_map@.dom().contains(#[trigger] line[i]),
        !pr_map@.dom().contains(line[hole]),
        pr_map@.dom().contains(line[high]),
    ensures
        r is Gap,
        r->Gap_prs@.len() == hole - low,
        forall|k: int| low <= k < hole ==> r->Gap_prs@[k - low] == pr_map@[#[trigger] line[k]],
{
    bookmark::graphs_are_self_contained(graph);
    lemma_line(graph@, members@, line);
    let prs = pr_map@;
    scanned_run_is_contiguous(line, prs);
    let s = scan(line, prs);
    let from = unmapped_run(line, prs);
    let to = from + s.prs.len();
    if from < low {
        lemma_unmapped_run(line, prs);
        assert(!prs.dom().contains(line[from]));
    } else if from > low {
        assert(!prs.dom().contains(line[low]));
    }
    if to > hole {
        assert(prs.dom().contains(line[hole]));
    } else if to < hole {
        lemma_unmapped_run(line, prs);
        let above = line.skip(from);
        lemma_mapped_run(above, prs);
        assert(above[s.prs.len() as int] == line[to]);
    }
    if !s.interior_gap {
        assert(!prs.dom().contains(line[high]));
    }
}

/// What is no line is left alone: where a bookmark sits on two others, or two bookmarks have
/// nothing on top.
pub proof fn what_is_no_line_is_left_alone(
    graph: BookmarkGraph,
    members: TextSet,
    pr_map: OrderedMap<u64>,
    a: Seq<char>,
    b: Seq<char>,
    r: LinkStep,
)
    requires
        call_ensures(plan_component, (&graph, &members, &pr_map), r),
        members@.contains(a),
        members@.contains(b),
        graph@[a].len() > 1 || (a != b && forall|x: Seq<char>|
            graph@.dom().contains(x) ==> !(#[trigger] graph@[x]).contains(a) && !graph@[x].contains(
                b,
            )),
    ensures
        r is Skip,
{
    if bookmark::linear(graph@, members@) {
        assert(graph@[a].len() <= 1);
        let leaf = choose|leaf: Seq<char>| bookmark::sole_leaf(graph@, members@, leaf);
        assert(bookmark::is_leaf(graph@, members@, a));
        assert(bookmark::is_leaf(graph@, members@, b));
    }
}

proof fn lemma_pr_numbers(updates: Seq<(Seq<char>, Seq<char>)>)
    ensures
        forall|i: int|
            0 <= i < updates.len() && text::parsed_u64((#[trigger] updates[i]).1) is Some
                ==> pr_numbers(updates).dom().contains(updates[i].0),
        forall|i: int|
            0 <= i < updates.len() && text::parsed_u64((#[trigger] updates[i]).1) is Some && (
            forall|j: int|
                0 <= j < i ==> !((#[trigger] updates[j]).0 == updates[i].0 && text::parsed_u64(
                    updates[j].1,
                ) is Some)) ==> pr_numbers(updates)[updates[i].0] == text::parsed_u64(
                updates[i].1,
            )->0,
        forall|b: Seq<char>| #[trigger]
            pr_numbers(updates).dom().contains(b) ==> exists|i: int|
                0 <= i < updates.len() && (#[trigger] updates[i]).0 == b && text::parsed_u64(
                    updates[i].1,
                ) == Some(pr_numbers(updates)[b]),
    decreases updates.len(),
{
    if updates.len() > 0 {
        let before = updates.drop_last();
        let n = before.len() as int;
        lemma_pr_numbers(before);
        assert(updates[n] == updates.last());
        assert forall|i: int|
            0 <= i < updates.len() && text::parsed_u64((#[trigger] updates[i]).1) is Some implies
            pr_numbers(updates).dom().contains(updates[i].0) by {
            if i < n {
                assert(before[i] == updates[i]);
            }
        }
        assert forall|i: int|
            0 <= i < updates.len() && text::parsed_u64((#[trigger] updates[i]).1) is Some && (
            forall|j: int|
                0 <= j < i ==> !((#[trigger] updates[j]).0 == updates[i].0 && text::parsed_u64(
                    updates[j].1,
                ) is Some)) implies pr_numbers(updates)[updates[i].0] == text::parsed_u64(
            updates[i].1,
        )->0 by {
            if i < n {
                assert(before[i] == updates[i]);
                assert forall|j: int| 0 <= j < i implies !((#[trigger] before[j]).0 == before[i].0
                    && text::parsed_u64(before[j].1) is Some) by {
                    assert(updates[j] == before[j]);
                }
            } else {
                if pr_numbers(before).dom().contains(updates[n].0) {
                    let j = choose|j: int|
                        0 <= j < before.len() && (#[trigger] before[j]).0 == updates[n].0
                            && text::parsed_u64(before[j].1) == Some(
                            pr_numbers(before)[updates[n].0],
                        );
                    assert(updates[j] == before[j]);
                }
            }
        }
        assert forall|b: Seq<char>| #[trigger]
            pr_numbers(updates).dom().contains(b) implies exists|i: int|
            0 <= i < updates.len() && (#[trigger] updates[i]).0 == b && text::parsed_u64(
                updates[i].1,
            ) == Some(pr_numbers(updates)[b]) by {
            if pr_numbers(before).dom().contains(b) {
                let i = choose|i: int|
                    0 <= i < before.len() && (#[trigger] before[i]).0 == b && text::parsed_u64(
                        before[i].1,
                    ) == Some(pr_numbers(before)[b]);
                assert(updates[i] == before[i]);
            } else {
                assert(updates[n].0 == b);
            }
        }
    }
}

/// The PR of a bookmark is the number of its first merge request that has one, and every bookmark
/// with such a merge request has a PR.
pub proof fn first_number_is_the_pr(updates: Vec<MRUpdate>, m: OrderedMap<u64>)
    requires
        call_ensures(build_pr_map, (&updates,), m),
    ensures
        forall|i: int|
            0 <= i < updates@.len() && text::parsed_u64((#[trigger] updates@[i]).iid@) is Some
                ==> m@.dom().contains(updates@[i].bookmark@),
        forall|i: int|
            0 <= i < updates@.len() && text::parsed_u64((#[trigger] updates@[i]).iid@) is Some && (
            forall|j: int|
                0 <= j < i ==> !((#[trigger] updates@[j]).bookmark@ == updates@[i].bookmark@
                    && text::parsed_u64(updates@[j].iid@) is Some))
                ==> m@[updates@[i].bookmark@] == text::parsed_u64(updates@[i].iid@)->0,
        forall|b: Seq<char>| #[trigger]
            m@.dom().contains(b) ==> exists|i: int|
                0 <= i < updates@.len() && (#[trigger] updates@[i]).bookmark@ == b
                    && text::parsed_u64(updates@[i].iid@) == Some(m@[b]),
{
    let all = iids(updates@);
    lemma_pr_numbers(all);
    assert forall|i: int| 0 <= i < updates@.len() implies all[i] == (
        (#[trigger] updates@[i]).bookmark@,
        updates@[i].iid@,
    ) by {}
    assert forall|i: int|
        0 <= i < updates@.len() && text::parsed_u64((#[trigger] updates@[i]).iid@) is Some && (
        forall|j: int|
            0 <= j < i ==> !((#[trigger] updates@[j]).bookmark@ == updates@[i].bookmark@
                && text::parsed_u64(updates@[j].iid@) is Some)) implies m@[updates@[i].bookmark@]
        == text::parsed_u64(updates@[i].iid@)->0 by {
        assert forall|j: int| 0 <= j < i implies !((#[trigger] all[j]).0 == all[i].0
            && text::parsed_u64(all[j].1) is Some) by {
            assert(all[j] == (updates@[j].bookmark@, updates@[j].iid@));
        }
        assert(text::parsed_u64(all[i].1) is Some);
    }
    assert forall|b: Seq<char>| #[trigger] m@.dom().contains(b) implies exists|i: int|
        0 <= i < updates@.len() && (#[trigger] updates@[i]).bookmark@ == b && text::parsed_u64(
            updates@[i].iid@,
        ) == Some(m@[b]) by {
        let i = choose|i: int|
            0 <= i < all.len() && (#[trigger] all[i]).0 == b && text::parsed_u64(all[i].1) == Some(
                pr_numbers(all)[b],
            );
        assert(updates@[i].bookmark@ == b);
    }
}

pub(crate) proof fn lemma_prs_shown(prs: Seq<u64>, arrow: Seq<char>, k: int)
    requires
        0 <= k < prs.len(),
    ensures
        text::contains_text(prs_text(prs, arrow), "#"@ + text::decimal(prs[k] as nat)),
{
    let parts = prs.map_values(|pr: u64| pr_text(pr));
    let one = "#"@ + text::decimal(prs[k] as nat);
    assert(parts[k] == one);
    text::lemma_contains_middle(Seq::empty(), one, Seq::empty());
    assert(Seq::<char>::empty() + one + Seq::<char>::empty() =~= one);
    text::lemma_contains_joined(parts, arrow, k, one);
}

/// Every PR of a list is written with its number, in the order of the list.
pub proof fn every_pr_is_written(prs: Vec<u64>, arrow: &str, r: String, k: int, l: int)
    requires
        call_ensures(write_prs, (&prs, arrow), r),
        0 <= k < prs@.len(),
    ensures
        text::contains_text(r@, "#"@ + text::decimal(prs@[k] as nat)),
        k < l < prs@.len() ==> text::comes_before(
            r@,
            "#"@ + text::decimal(prs@[k] as nat),
            "#"@ + text::decimal(prs@[l] as nat),
        ),
{
    lemma_prs_shown(prs@, arrow@, k);
    if k < l < prs@.len() {
        let parts = prs@.map_values(|pr: u64| pr_text(pr));
        text::lemma_joined_in_order(parts, arrow@, k, l);
    }
}

/// Where the steps that link stand among the steps: the `k`-th call is for the `k`-th of them.
proof fn lemma_call_positions(
    steps: Seq<StepView>,
    outcomes: Seq<LinkOutcome>,
    github: GitHubConfig,
) -> (at: Seq<int>)
    requires
        outcomes.len() == steps.len(),
    ensures
        at.len() == calls(steps, outcomes, github).len(),
        forall|k: int, l: int| 0 <= k < l < at.len() ==> #[trigger] at[k] < #[trigger] at[l],
        forall|k: int|
            0 <= k < at.len() ==> 0 <= #[trigger] at[k] < steps.len() && steps[at[k]] is Link
                && steps[at[k]]->Link_prs == calls(steps, outcomes, github)[k].prs
                && outcomes[at[k]] == calls(steps, outcomes, github)[k].outcome && calls(
                steps,
                outcomes,
                github,
            )[k].github == github,
        forall|i: int| 0 <= i < steps.len() && #[trigger] steps[i] is Link ==> at.contains(i),
    decreases steps.len(),
{
    if steps.len() == 0 {
        Seq::empty()
    } else {
        let s1 = steps.drop_last();
        let o1 = outcomes.drop_last();
        let n = s1.len() as int;
        let before = lemma_call_positions(s1, o1, github);
        let cs = calls(steps, outcomes, github);
        let at = if steps.last() is Link {
            before.push(n)
        } else {
            before
        };
        assert(steps[n] == steps.last() && outcomes[n] == outcomes.last());
        assert forall|k: int| 0 <= k < at.len() implies 0 <= #[trigger] at[k] < steps.len()
            && steps[at[k]] is Link && steps[at[k]]->Link_prs == cs[k].prs && outcomes[at[k]]
            == cs[k].outcome && cs[k].github == github by {
            if k < before.len() {
                assert(at[k] == before[k]);
                assert(s1[before[k]] == steps[before[k]]);
                assert(o1[before[k]] == outcomes[before[k]]);
                assert(cs[k] == calls(s1, o1, github)[k]);
            }
        }
        assert forall|k: int, l: int| 0 <= k < l < at.len() implies #[trigger] at[k]
            < #[trigger] at[l] by {
            assert(at[k] == before[k]);
            if l < before.len() {
                assert(at[l] == before[l]);
            }
        }
        assert forall|i: int| 0 <= i < steps.len() && #[trigger] steps[i] is Link implies
            at.contains(i) by {
            if i < n {
                assert(s1[i] == steps[i]);
                assert(before.contains(i));
                let k = before.index_of(i);
                assert(at[k] == i);
            } else {
                assert(at[n - n + before.len()] == n);
            }
        }
        at
    }
}

proof fn lemma_stacks_are_calls(
    steps: Seq<StepView>,
    outcomes: Seq<LinkOutcome>,
    project: Seq<char>,
    github: GitHubConfig,
)
    requires
        outcomes.len() == steps.len(),
        tally(steps, outcomes, project).warnings.len() == 0,
    ensures
        tally(steps, outcomes, project).stacks.len() == calls(steps, outcomes, github).len(),
        forall|k: int|
            0 <= k < calls(steps, outcomes, github).len() ==> tally(
                steps,
                outcomes,
                project,
            ).stacks[k] == (#[trigger] calls(steps, outcomes, github)[k]).prs,
    decreases steps.len(),
{
    if steps.len() > 0 {
        let s1 = steps.drop_last();
        let o1 = outcomes.drop_last();
        lemma_stacks_are_calls(s1, o1, project, github);
        let cs = calls(steps, outcomes, github);
        let before = calls(s1, o1, github);
        let t = tally(steps, outcomes, project);
        assert forall|k: int| 0 <= k < cs.len() implies t.stacks[k] == (#[trigger] cs[k]).prs by {
            if k < before.len() {
                assert(cs[k] == before[k]);
            }
        }
    }
}

proof fn lemma_failed_call_shows(
    steps: Seq<StepView>,
    outcomes: Seq<LinkOutcome>,
    project: Seq<char>,
    i: int,
)
    requires
        outcomes.len() == steps.len(),
        0 <= i < steps.len(),
        steps[i] is Link,
        outcomes[i] is Failed,
    ensures
        exists|k: int|
            0 <= k < tally(steps, outcomes, project).warnings.len() && #[trigger] tally(
                steps,
                outcomes,
                project,
            ).warnings[k] == failed_warning(steps[i]->Link_prs, outcomes[i]->detail@),
    decreases steps.len(),
{
    let s1 = steps.drop_last();
    let o1 = outcomes.drop_last();
    let t1 = tally(s1, o1, project);
    let t = tally(steps, outcomes, project);
    if i < steps.len() - 1 {
        lemma_failed_call_shows(s1, o1, project, i);
        let k = choose|k: int|
            0 <= k < t1.warnings.len() && #[trigger] t1.warnings[k] == failed_warning(
                s1[i]->Link_prs,
                o1[i]->detail@,
            );
        assert(t.warnings[k] == t1.warnings[k]);
    } else {
        assert(t.warnings[t1.warnings.len() as int] == failed_warning(
            steps[i]->Link_prs,
            outcomes[i]->detail@,
        ));
    }
}

proof fn lemma_by_hand()
    ensures
        "); rerun by hand: gh-stack link "@ == "); rerun by hand: "@ + "gh-stack link "@,
{
    reveal_strlit("); rerun by hand: gh-stack link ");
    reveal_strlit("); rerun by hand: ");
    reveal_strlit("gh-stack link ");
    assert("); rerun by hand: gh-stack link "@ =~= "); rerun by hand: "@ + "gh-stack link "@);
}

proof fn lemma_failure_told(
    steps: Seq<StepView>,
    outcomes: Seq<LinkOutcome>,
    project: Seq<char>,
    i: int,
)
    requires
        outcomes.len() == steps.len(),
        0 <= i < steps.len(),
        steps[i] is Link,
        outcomes[i] is Failed,
    ensures
        ({
            let told = text::joined(tally(steps, outcomes, project).warnings, "; "@);
            &&& text::contains_text(told, outcomes[i]->detail@)
            &&& text::contains_text(
                told,
                "gh-stack link "@ + text::joined(
                    steps[i]->Link_prs.map_values(|pr: u64| text::decimal(pr as nat)),
                    " "@,
                ),
            )
        }),
{
    let warnings = tally(steps, outcomes, project).warnings;
    let prs = steps[i]->Link_prs;
    let detail = outcomes[i]->detail@;
    lemma_failed_call_shows(steps, outcomes, project, i);
    let told = failed_warning(prs, detail);
    let w = choose|w: int| 0 <= w < warnings.len() && #[trigger] warnings[w] == told;
    let head = "failed to link stack "@ + prs_text(prs, " -> "@) + " ("@;
    let args = text::joined(pr_args(prs), " "@);
    let by_hand = "); rerun by hand: gh-stack link "@;
    lemma_by_hand();
    assert(told == head + detail + by_hand + args);
    text::lemma_contains_third_last(head, detail, by_hand, args);
    text::lemma_contains_split_tail(
        head + detail,
        by_hand,
        "); rerun by hand: "@,
        "gh-stack link "@,
        args,
    );
    text::lemma_contains_joined(warnings, "; "@, w, detail);
    text::lemma_contains_joined(warnings, "; "@, w, "gh-stack link "@ + args);
    assert(pr_args(prs) =~= prs.map_values(|pr: u64| text::decimal(pr as nat)));
}

proof fn lemma_refusal_told(
    steps: Seq<StepView>,
    outcomes: Seq<LinkOutcome>,
    project: Seq<char>,
    orphans: Seq<u64>,
    r: StackLinkOutcome,
    i: int,
    n: int,
)
    requires
        outcomes.len() == steps.len(),
        r@ == conclusion(tally(steps, outcomes, project), orphans),
        0 <= i < steps.len(),
        steps[i] is Link,
        !(outcomes[i] is Linked),
    ensures
        r is Failed,
        r->warning@ == text::joined(tally(steps, outcomes, project).warnings, "; "@),
        0 <= n < steps[i]->Link_prs.len() ==> text::contains_text(
            r->warning@,
            "#"@ + text::decimal(steps[i]->Link_prs[n] as nat),
        ),
{
    let prs = steps[i]->Link_prs;
    assert(step_warns(steps[i], outcomes[i]));
    failures_name_their_prs(steps, outcomes, project, orphans, i);
    if 0 <= n < prs.len() {
        lemma_prs_shown(prs, " -> "@, n);
        lemma_contains_transitive(
            r->warning@,
            prs_text(prs, " -> "@),
            "#"@ + text::decimal(prs[n] as nat),
        );
    }
}

proof fn lemma_answered(
    before: Seq<Asked>,
    after: Seq<Asked>,
    github: GitHubConfig,
    steps: Seq<StepView>,
    outcomes: Seq<LinkOutcome>,
    project: Seq<char>,
    orphans: Seq<u64>,
    r: StackLinkOutcome,
)
    requires
        outcomes.len() == steps.len(),
        after == before + calls(steps, outcomes, github),
        r@ == conclusion(tally(steps, outcomes, project), orphans),
    ensures
        before.len() <= after.len(),
        after.take(before.len() as int) == before,
        r matches StackLinkOutcome::Linked { stacks, .. } ==> stacks@.len() > 0 && stacks@.len()
            == after.len() - before.len(),
        r is Skipped ==> r->Skipped_0 == SkipReason::NoQualifyingStack && after == before,
{
    let t = tally(steps, outcomes, project);
    let cs = calls(steps, outcomes, github);
    assert(after.take(before.len() as int) =~= before);
    if t.warnings.len() == 0 {
        lemma_stacks_are_calls(steps, outcomes, project, github);
        if t.stacks.len() == 0 {
            assert(cs =~= Seq::empty());
            assert(after =~= before);
        }
    }
    if let StackLinkOutcome::Linked { stacks, .. } = r {
        assert(stack_views(stacks@) == t.stacks);
        assert(stack_views(stacks@).len() == stacks@.len());
    }
}

proof fn lemma_one_answer(
    before: Seq<Asked>,
    after: Seq<Asked>,
    github: GitHubConfig,
    steps: Seq<StepView>,
    outcomes: Seq<LinkOutcome>,
    project: Seq<char>,
    orphans: Seq<u64>,
    r: StackLinkOutcome,
    k: int,
    n: int,
)
    requires
        outcomes.len() == steps.len(),
        after == before + calls(steps, outcomes, github),
        r@ == conclusion(tally(steps, outcomes, project), orphans),
        before.len() <= k < after.len(),
    ensures
        ({
            let call = after[k];
            &&& call.github == github
            &&& r matches StackLinkOutcome::Linked { stacks, .. } ==> call.outcome is Linked
                && stacks@[k - before.len()]@ == call.prs
            &&& !(call.outcome is Linked) ==> r is Failed && (0 <= n < call.prs.len()
                ==> text::contains_text(
                r->warning@,
                "#"@ + text::decimal(call.prs[n] as nat),
            ))
            &&& call.outcome matches LinkOutcome::Failed { detail } ==> r is Failed
                && text::contains_text(r->warning@, detail@) && text::contains_text(
                r->warning@,
                "gh-stack link "@ + text::joined(
                    call.prs.map_values(|pr: u64| text::decimal(pr as nat)),
                    " "@,
                ),
            )
        }),
{
    let t = tally(steps, outcomes, project);
    let cs = calls(steps, outcomes, github);
    let b = before.len() as int;
    let at = lemma_call_positions(steps, outcomes, github);
    let call = after[k];
    assert(call == cs[k - b]);
    let i = at[k - b];
    assert(steps[i] is Link && steps[i]->Link_prs == call.prs && outcomes[i] == call.outcome);
    if !(call.outcome is Linked) {
        lemma_refusal_told(steps, outcomes, project, orphans, r, i, n);
    }
    if call.outcome is Failed {
        lemma_failure_told(steps, outcomes, project, i);
    }
    if let StackLinkOutcome::Linked { stacks, .. } = r {
        lemma_stacks_are_calls(steps, outcomes, project, github);
        assert(stack_views(stacks@) == t.stacks);
        assert(stack_views(stacks@)[k - b] == stacks@[k - b]@);
    }
}

/// What is reported is what was asked and answered. Every stack that is asked for is reported as
/// linked, in order, unless something failed. An answer other than that it was linked makes the
/// whole a failure, whose warning names every PR of that stack, says why where that is known, and
/// gives the command to run by hand. Nothing is skipped after something was asked.
pub proof fn answers_are_reported<R: StackLinkRunner>(
    runner: &mut LoggedRunner<R>,
    github: GitHubConfig,
    graph: BookmarkGraph,
    merge_requests: Vec<MRUpdate>,
    r: StackLinkOutcome,
    k: int,
    n: int,
)
    requires
        call_ensures(link_from_graph::<R>, (runner, &github, &graph, &merge_requests), r),
    ensures
        old(runner).asked().len() <= final(runner).asked().len(),
        final(runner).asked().take(old(runner).asked().len() as int) == old(runner).asked(),
        r matches StackLinkOutcome::Linked { stacks, .. } ==> stacks@.len() > 0 && stacks@.len()
            == final(runner).asked().len() - old(runner).asked().len(),
        r is Skipped ==> r->Skipped_0 == SkipReason::NoQualifyingStack && final(runner).asked()
            == old(runner).asked(),
        old(runner).asked().len() <= k < final(runner).asked().len() ==> {
            let call = final(runner).asked()[k];
            &&& call.github == github
            &&& r matches StackLinkOutcome::Linked { stacks, .. } ==> call.outcome is Linked
                && stacks@[k - old(runner).asked().len()]@ == call.prs
            &&& !(call.outcome is Linked) ==> r is Failed && (0 <= n < call.prs.len()
                ==> text::contains_text(
                r->warning@,
                "#"@ + text::decimal(call.prs[n] as nat),
            ))
            &&& call.outcome matches LinkOutcome::Failed { detail } ==> r is Failed
                && text::contains_text(r->warning@, detail@) && text::contains_text(
                r->warning@,
                "gh-stack link "@ + text::joined(
                    call.prs.map_values(|pr: u64| text::decimal(pr as nat)),
                    " "@,
                ),
            )
        },
{
    let g = graph@;
    let updates = iids(merge_requests@);
    let project = config::target_of(github.target_project@, github.project@);
    let before = old(runner).asked();
    let after = final(runner).asked();
    let (components, outcomes, orphans) = choose|
        components: Seq<TextSet>,
        outcomes: Seq<LinkOutcome>,
        orphans: Seq<u64>,
    |
        linked_as(before, after, github, g, updates, components, outcomes, orphans, r@);
    let steps = steps_of(g, components, pr_numbers(updates));
    lemma_answered(before, after, github, steps, outcomes, project, orphans, r);
    if before.len() <= k < after.len() {
        lemma_one_answer(before, after, github, steps, outcomes, project, orphans, r, k, n);
    }
}

proof fn lemma_contains_transitive(a: Seq<char>, b: Seq<char>, c: Seq<char>)
    requires
        text::contains_text(a, b),
        text::contains_text(b, c),
    ensures
        text::contains_text(a, c),
{
    let i = choose|i: int| text::has_at(a, i, b);
    let head = a.take(i);
    let tail = a.skip(i + b.len());
    text::lemma_contains_inside(head, b, tail, c);
    assert(head + a.subrange(i, i + b.len()) + tail =~= a);
}

/// The calls are for the steps at these positions, one for each step that links, in their order.
pub open spec fn asked_in_order(steps: Seq<LinkStep>, asked: Seq<Asked>, at: Seq<int>) -> bool {
    &&& at.len() == asked.len()
    &&& forall|k: int, l: int| 0 <= k < l < at.len() ==> #[trigger] at[k] < #[trigger] at[l]
    &&& forall|k: int|
        0 <= k < at.len() ==> 0 <= #[trigger] at[k] < steps.len() && steps[at[k]] is Link
            && steps[at[k]]->Link_prs@ == asked[k].prs
    &&& forall|i: int| 0 <= i < steps.len() && #[trigger] steps[i] is Link ==> at.contains(i)
}

/// What is asked for is what is planned: the runner is asked once for each step that links, in the
/// order of the steps and with its PRs, and for nothing else.
#[verifier::rlimit(40)]
pub proof fn every_planned_link_is_asked_for<R: StackLinkRunner>(
    runner: &mut LoggedRunner<R>,
    github: GitHubConfig,
    graph: BookmarkGraph,
    merge_requests: Vec<MRUpdate>,
    pr_map: OrderedMap<u64>,
    steps: Vec<LinkStep>,
    r: StackLinkOutcome,
)
    requires
        call_ensures(build_pr_map, (&merge_requests,), pr_map),
        call_ensures(plan_links, (&graph, &pr_map), steps),
        call_ensures(link_from_graph::<R>, (runner, &github, &graph, &merge_requests), r),
    ensures
        exists|at: Seq<int>|
            asked_in_order(
                steps@,
                final(runner).asked().skip(old(runner).asked().len() as int),
                at,
            ),
        (exists|i: int| 0 <= i < steps@.len() && #[trigger] steps@[i] is Gap) ==> r is Failed,
{
    let g = graph@;
    let updates = iids(merge_requests@);
    let project = config::target_of(github.target_project@, github.project@);
    let before = old(runner).asked();
    let after = final(runner).asked();
    let (components, outcomes, orphans) = choose|
        components: Seq<TextSet>,
        outcomes: Seq<LinkOutcome>,
        orphans: Seq<u64>,
    |
        linked_as(before, after, github, g, updates, components, outcomes, orphans, r@);
    let views = steps_of(g, components, pr_numbers(updates));
    let others = choose|others: Seq<TextSet>| #[trigger]
        bookmark::are_components(g, others) && step_views(steps@) == steps_of(g, others, pr_map@);
    lemma_same_steps(g, components, others, pr_map@);
    assert(after.skip(before.len() as int) =~= calls(views, outcomes, github));
    lemma_planned(steps@, outcomes, github);
    if exists|i: int| 0 <= i < steps@.len() && #[trigger] steps@[i] is Gap {
        let i = choose|i: int| 0 <= i < steps@.len() && #[trigger] steps@[i] is Gap;
        assert(step_views(steps@)[i] == steps@[i]@);
        assert(step_warns(views[i], outcomes[i]));
        any_failure_shows(views, outcomes, project, orphans);
    }
}

proof fn lemma_same_steps(
    g: bookmark::GraphView,
    a: Seq<TextSet>,
    b: Seq<TextSet>,
    prs: Map<Seq<char>, u64>,
)
    requires
        bookmark::are_components(g, a),
        bookmark::are_components(g, b),
    ensures
        steps_of(g, a, prs) == steps_of(g, b, prs),
{
    bookmark::components_are_unique(g, a, b);
    assert forall|i: int| 0 <= i < a.len() implies #[trigger] steps_of(g, a, prs)[i] == steps_of(
        g,
        b,
        prs,
    )[i] by {
        assert(a[i]@ == b[i]@);
    }
    assert(steps_of(g, a, prs) =~= steps_of(g, b, prs));
}

proof fn lemma_planned(steps: Seq<LinkStep>, outcomes: Seq<LinkOutcome>, github: GitHubConfig)
    requires
        outcomes.len() == steps.len(),
    ensures
        exists|at: Seq<int>|
            asked_in_order(steps, calls(step_views(steps), outcomes, github), at),
{
    let views = step_views(steps);
    let at = lemma_call_positions(views, outcomes, github);
    let new = calls(views, outcomes, github);
    assert forall|k: int| 0 <= k < at.len() implies 0 <= #[trigger] at[k] < steps.len()
        && steps[at[k]] is Link && steps[at[k]]->Link_prs@ == new[k].prs by {
        assert(views[at[k]] == steps[at[k]]@);
    }
    assert forall|i: int| 0 <= i < steps.len() && #[trigger] steps[i] is Link implies at.contains(
        i,
    ) by {
        assert(views[i] == steps[i]@);
    }
    assert(asked_in_order(steps, new, at));
}

/// There is one step for each component of the graph, in their order, and it is the one that the
/// component alone gives.
pub proof fn each_component_has_its_step(
    graph: BookmarkGraph,
    pr_map: OrderedMap<u64>,
    components: Vec<TextSet>,
    steps: Vec<LinkStep>,
    i: int,
    one: LinkStep,
)
    requires
        call_ensures(BookmarkGraph::components, (&graph,), components),
        call_ensures(plan_links, (&graph, &pr_map), steps),
        0 <= i < components@.len(),
        call_ensures(plan_component, (&graph, &components@[i], &pr_map), one),
    ensures
        steps@.len() == components@.len(),
        steps@[i]@ == one@,
{
    let g = graph@;
    let planned = step_views(steps@);
    let others = choose|others: Seq<TextSet>| #[trigger]
        bookmark::are_components(g, others) && planned == steps_of(g, others, pr_map@);
    bookmark::components_are_unique(g, components@, others);
    assert(planned.len() == steps@.len());
    assert(planned[i] == steps@[i]@);
    assert(components@[i]@ == others[i]@);
}

/// No submitted PR is passed over in silence: where stacks were linked, every PR that is in none of
/// them is named in a note.
pub proof fn prs_outside_stacks_are_noted<R: StackLinkRunner>(
    runner: &mut LoggedRunner<R>,
    github: GitHubConfig,
    graph: BookmarkGraph,
    merge_requests: Vec<MRUpdate>,
    pr_map: OrderedMap<u64>,
    r: StackLinkOutcome,
    b: Seq<char>,
)
    requires
        call_ensures(build_pr_map, (&merge_requests,), pr_map),
        call_ensures(link_from_graph::<R>, (runner, &github, &graph, &merge_requests), r),
        pr_map@.dom().contains(b),
        r is Linked,
        forall|i: int| 0 <= i < r->stacks@.len() ==> !(#[trigger] r->stacks@[i])@.contains(pr_map@[b]),
    ensures
        exists|k: int|
            0 <= k < r->unlinked@.len() && text::contains_text(
                (#[trigger] r->unlinked@[k])@,
                "#"@ + text::decimal(pr_map@[b] as nat),
            ),
{
    let g = graph@;
    let updates = iids(merge_requests@);
    let project = config::target_of(github.target_project@, github.project@);
    let (components, outcomes, orphans) = choose|
        components: Seq<TextSet>,
        outcomes: Seq<LinkOutcome>,
        orphans: Seq<u64>,
    |
        linked_as(
            old(runner).asked(),
            final(runner).asked(),
            github,
            g,
            updates,
            components,
            outcomes,
            orphans,
            r@,
        );
    let prs = pr_numbers(updates);
    let steps = steps_of(g, components, prs);
    let t = tally(steps, outcomes, project);
    let pr = pr_map@[b];
    let stacks = stack_views(r->stacks@);
    assert(t.stacks == stacks);
    assert(!in_stacks(t.stacks, pr)) by {
        if in_stacks(t.stacks, pr) {
            let i = choose|i: int| 0 <= i < t.stacks.len() && (#[trigger] t.stacks[i]).contains(pr);
            assert(stacks[i] == r->stacks@[i]@);
        }
    }
    assert(is_orphan(prs, t.stacks, pr));
    assert(orphans.contains(pr));
    let o = orphans.index_of(pr);
    let told = text::texts(r->unlinked@);
    assert(told == t.notes.push(orphan_note(orphans)));
    let k = t.notes.len() as int;
    assert(told[k] == orphan_note(orphans));
    assert(told.len() == r->unlinked@.len());
    assert(told[k] == r->unlinked@[k]@);
    lemma_prs_shown(orphans, " -> "@, o);
    let head =
        "these submitted PR(s) were not added to any stack (separate or non-linear component): "@;
    let one = "#"@ + text::decimal(pr as nat);
    text::lemma_contains_inside(head, prs_text(orphans, " -> "@), Seq::empty(), one);
    assert(head + prs_text(orphans, " -> "@) + Seq::<char>::empty() =~= orphan_note(orphans));
}

/// Linking happens only where it is neither a dry run nor without hooks nor disabled; else nothing
/// is asked and the first of these is the reason. Without a graph nothing is asked either, and the
/// warning says why there is none. Otherwise it is the linking of the graph.
pub proof fn linking_keeps_to_its_gates<R: StackLinkRunner>(
    runner: &mut LoggedRunner<R>,
    github: GitHubConfig,
    graph: Result<BookmarkGraph, Error>,
    merge_requests: Vec<MRUpdate>,
    dry_run: bool,
    no_hooks: bool,
    r: StackLinkOutcome,
)
    requires
        call_ensures(
            link_stacks::<R>,
            (runner, &github, graph, &merge_requests, dry_run, no_hooks),
            r,
        ),
    ensures
        dry_run ==> r == StackLinkOutcome::Skipped(SkipReason::DryRun),
        !dry_run && no_hooks ==> r == StackLinkOutcome::Skipped(SkipReason::NoHooks),
        !dry_run && !no_hooks && !github.link_stack ==> r == StackLinkOutcome::Skipped(
            SkipReason::Disabled,
        ),
        dry_run || no_hooks || !github.link_stack || graph is Err ==> final(runner).asked() == old(
            runner,
        ).asked(),
        !dry_run && !no_hooks && github.link_stack ==> (graph matches Err(e) ==> r is Failed
            && text::contains_text(r->warning@, e.text())),
        !dry_run && !no_hooks && github.link_stack && graph is Ok ==> !(r is Skipped
            && r->Skipped_0 != SkipReason::NoQualifyingStack),
{
    if let Err(e) = graph {
        if !dry_run && !no_hooks && github.link_stack {
            let head = "could not rebuild bookmark graph for stack link: "@;
            text::lemma_contains_middle(head, e.text(), Seq::empty());
            assert(head + e.text() + Seq::<char>::empty() =~= head + e.text());
        }
    }
}

/// The call of `gh-stack`: `link`, and then the number of every PR, in order. The token and the
/// target repository are in the environment, and the token is in no argument unless it is the
/// text of one of them.
pub proof fn gh_stack_gets_every_pr(
    prs: Vec<u64>,
    github: GitHubConfig,
    token: String,
    target: &str,
    r: GhStackCommand,
    k: int,
)
    requires
        call_ensures(gh_stack_command, (&prs, &github, token), r),
        call_ensures(GitHubConfig::target_project, (&github,), target),
    ensures
        r.program@ == "gh-stack"@,
        r.args@.len() == prs@.len() + 1,
        r.args@[0]@ == "link"@,
        0 <= k < prs@.len() ==> r.args@[k + 1]@ == text::decimal(prs@[k] as nat),
        r.env@.len() == 2,
        r.env@[0].0@ == "GH_TOKEN"@,
        r.env@[0].1@ == token@,
        r.env@[1].0@ == "GH_REPO"@,
        r.env@[1].1@ == target@,
{
    let words = text::texts(r.args@);
    assert(words.len() == r.args@.len());
    assert(words[0] == r.args@[0]@);
    if 0 <= k < prs@.len() {
        assert(words[k + 1] == r.args@[k + 1]@);
        assert(words[k + 1] == pr_args(prs@)[k]);
    }
}

/// What the end of `gh-stack` means: with code zero the stack is linked, with code nine stacks are
/// not enabled, and everything else is a failure that tells what happened.
pub proof fn gh_stack_exit_is_read(spawned: Spawned, r: LinkOutcome)
    requires
        call_ensures(gh_stack_outcome, (spawned,), r),
    ensures
        r is Linked <==> (spawned matches Spawned::Finished(output) && output.code == Some(0i32)),
        r is NotEnabled <==> (spawned matches Spawned::Finished(output) && output.code == Some(
            9i32,
        )),
        r matches LinkOutcome::Failed { detail } ==> match spawned {
            Spawned::Finished(output) => text::contains_text(detail@, output.status@)
                && text::contains_text(
                detail@,
                text::trim(bytes::lossy_text(output.stderr@)),
            ),
            Spawned::NotFound { reason } => text::contains_text(detail@, reason@),
            Spawned::Failed { reason } => text::contains_text(detail@, reason@),
            Spawned::TimedOut => text::contains_text(detail@, "timed out"@),
        },
{
    if let LinkOutcome::Failed { detail } = r {
        match spawned {
            Spawned::Finished(output) => {
                let head = "gh-stack exited with "@;
                let stderr = text::trim(bytes::lossy_text(output.stderr@));
                let tail = if stderr.len() == 0 {
                    Seq::<char>::empty()
                } else {
                    ": "@ + stderr + " (stderr may be truncated)"@
                };
                text::lemma_contains_middle(head, output.status@, tail);
                assert(detail@ =~= head + output.status@ + tail);
                text::lemma_contains_middle(
                    head + output.status@ + (if stderr.len() == 0 {
                        Seq::empty()
                    } else {
                        ": "@
                    }),
                    stderr,
                    if stderr.len() == 0 {
                        Seq::empty()
                    } else {
                        " (stderr may be truncated)"@
                    },
                );
                if stderr.len() == 0 {
                    assert(head + output.status@ + Seq::<char>::empty() + stderr
                        + Seq::<char>::empty() =~= detail@);
                } else {
                    assert(head + output.status@ + ": "@ + stderr + " (stderr may be truncated)"@
                        =~= detail@);
                }
            },
            Spawned::NotFound { reason } => {
                text::lemma_contains_middle("could not run gh-stack: "@, reason@, Seq::empty());
                assert("could not run gh-stack: "@ + reason@ + Seq::<char>::empty() =~= detail@);
            },
            Spawned::Failed { reason } => {
                text::lemma_contains_middle("could not run gh-stack: "@, reason@, Seq::empty());
                assert("could not run gh-stack: "@ + reason@ + Seq::<char>::empty() =~= detail@);
            },
            Spawned::TimedOut => {
                reveal_strlit("gh-stack timed out after ");
                reveal_strlit("gh-stack ");
                reveal_strlit("timed out");
                reveal_strlit(" after ");
                let rest = " after "@ + text::decimal(STACK_LINK_TIMEOUT_SECS as nat) + "s"@;
                assert("gh-stack timed out after "@ =~= "gh-stack "@ + "timed out"@ + " after "@);
                text::lemma_contains_middle("gh-stack "@, "timed out"@, rest);
                assert(detail@ =~= "gh-stack "@ + "timed out"@ + rest);
            },
        }
    }
}

/// A link starts a command exactly where there is a token, and the command is the one for that
/// token; else the outcome is a failure that tells why there is none.
pub proof fn link_needs_a_token(
    token: Result<String, Error>,
    prs: Vec<u64>,
    github: GitHubConfig,
    r: Result<GhStackCommand, LinkOutcome>,
)
    requires
        call_ensures(gh_stack_start, (token, &prs, &github), r),
    ensures
        r is Ok <==> token is Ok,
        r matches Ok(call) ==> call.env@.len() == 2 && call.env@[0].0@ == "GH_TOKEN"@
            && call.env@[0].1@ == token->Ok_0@ && call.args@.len() == prs@.len() + 1,
        r matches Err(outcome) ==> outcome is Failed && text::contains_text(
            outcome->detail@,
            token->Err_0.text(),
        ),
{
    match token {
        Ok(token) => {
            let words = text::texts(r->Ok_0.args@);
            assert(words.len() == r->Ok_0.args@.len());
        },
        Err(e) => {
            let head = "could not resolve GH_TOKEN: "@;
            text::lemma_contains_middle(head, e.text(), Seq::empty());
            assert(head + e.text() + Seq::<char>::empty() =~= head + e.text());
        },
    }
}

proof fn lemma_left_out_noted(
    steps: Seq<StepView>,
    outcomes: Seq<LinkOutcome>,
    project: Seq<char>,
    i: int,
)
    requires
        outcomes.len() == steps.len(),
        0 <= i < steps.len(),
        steps[i] is Link,
        outcomes[i] is Linked,
        steps[i]->left_out.len() > 0,
    ensures
        exists|k: int|
            0 <= k < tally(steps, outcomes, project).notes.len() && #[trigger] tally(
                steps,
                outcomes,
                project,
            ).notes[k] == left_out_note(steps[i]->Link_prs, steps[i]->left_out),
    decreases steps.len(),
{
    let s1 = steps.drop_last();
    let o1 = outcomes.drop_last();
    let t1 = tally(s1, o1, project);
    let t = tally(steps, outcomes, project);
    if i < steps.len() - 1 {
        lemma_left_out_noted(s1, o1, project, i);
        let k = choose|k: int|
            0 <= k < t1.notes.len() && #[trigger] t1.notes[k] == left_out_note(
                s1[i]->Link_prs,
                s1[i]->left_out,
            );
        assert(t.notes[k] == t1.notes[k]);
    } else {
        assert(t.notes[t1.notes.len() as int] == left_out_note(
            steps[i]->Link_prs,
            steps[i]->left_out,
        ));
    }
}

proof fn lemma_left_out_named(
    steps: Seq<StepView>,
    outcomes: Seq<LinkOutcome>,
    project: Seq<char>,
    i: int,
    n: int,
) -> (k: int)
    requires
        outcomes.len() == steps.len(),
        0 <= i < steps.len(),
        steps[i] is Link,
        0 <= n < steps[i]->left_out.len(),
        tally(steps, outcomes, project).warnings.len() == 0,
    ensures
        0 <= k < tally(steps, outcomes, project).notes.len(),
        text::contains_text(tally(steps, outcomes, project).notes[k], steps[i]->left_out[n]),
{
    let t = tally(steps, outcomes, project);
    let names = steps[i]->left_out;
    lemma_tally(steps, outcomes, project);
    assert(!step_warns(steps[i], outcomes[i]));
    lemma_left_out_noted(steps, outcomes, project, i);
    let k = choose|k: int|
        0 <= k < t.notes.len() && #[trigger] t.notes[k] == left_out_note(
            steps[i]->Link_prs,
            names,
        );
    text::lemma_contains_middle(Seq::empty(), names[n], Seq::empty());
    assert(Seq::<char>::empty() + names[n] + Seq::<char>::empty() =~= names[n]);
    text::lemma_contains_joined(names, ", "@, n, names[n]);
    let head = "linked "@ + prs_text(steps[i]->Link_prs, " -> "@)
        + " but left the top of the stack ("@;
    let tail = ") out — it has no PR yet; re-submit once it does"@;
    text::lemma_contains_inside(head, text::joined(names, ", "@), tail, names[n]);
    assert(head + text::joined(names, ", "@) + tail =~= t.notes[k]);
    k
}

proof fn lemma_left_out_told(
    steps: Seq<LinkStep>,
    outcomes: Seq<LinkOutcome>,
    project: Seq<char>,
    orphans: Seq<u64>,
    r: StackLinkOutcome,
    i: int,
    n: int,
)
    requires
        outcomes.len() == steps.len(),
        r@ == conclusion(tally(step_views(steps), outcomes, project), orphans),
        r is Linked,
        0 <= i < steps.len(),
        steps[i] is Link,
        0 <= n < steps[i]->left_out@.len(),
    ensures
        exists|k: int|
            0 <= k < r->unlinked@.len() && text::contains_text(
                (#[trigger] r->unlinked@[k])@,
                steps[i]->left_out@[n]@,
            ),
{
    let views = step_views(steps);
    let t = tally(views, outcomes, project);
    let told = text::texts(r->unlinked@);
    assert(views[i] == steps[i]@);
    assert(views[i]->left_out[n] == steps[i]->left_out@[n]@);
    let k = lemma_left_out_named(views, outcomes, project, i, n);
    assert(told.len() == r->unlinked@.len());
    assert(r@->unlinked == told);
    assert(told[k] == t.notes[k]);
    assert(r->unlinked@[k]@ == told[k]);
}

/// Where stacks were linked, every bookmark that was left out above one of them is named in a note.
pub proof fn left_out_bookmarks_are_noted<R: StackLinkRunner>(
    runner: &mut LoggedRunner<R>,
    github: GitHubConfig,
    graph: BookmarkGraph,
    merge_requests: Vec<MRUpdate>,
    pr_map: OrderedMap<u64>,
    steps: Vec<LinkStep>,
    r: StackLinkOutcome,
    i: int,
    n: int,
)
    requires
        call_ensures(build_pr_map, (&merge_requests,), pr_map),
        call_ensures(plan_links, (&graph, &pr_map), steps),
        call_ensures(link_from_graph::<R>, (runner, &github, &graph, &merge_requests), r),
        r is Linked,
        0 <= i < steps@.len(),
        steps@[i] is Link,
        0 <= n < steps@[i]->left_out@.len(),
    ensures
        exists|k: int|
            0 <= k < r->unlinked@.len() && text::contains_text(
                (#[trigger] r->unlinked@[k])@,
                steps@[i]->left_out@[n]@,
            ),
{
    let g = graph@;
    let updates = iids(merge_requests@);
    let project = config::target_of(github.target_project@, github.project@);
    let (components, outcomes, orphans) = choose|
        components: Seq<TextSet>,
        outcomes: Seq<LinkOutcome>,
        orphans: Seq<u64>,
    |
        linked_as(
            old(runner).asked(),
            final(runner).asked(),
            github,
            g,
            updates,
            components,
            outcomes,
            orphans,
            r@,
        );
    let others = choose|others: Seq<TextSet>| #[trigger]
        bookmark::are_components(g, others) && step_views(steps@) == steps_of(g, others, pr_map@);
    lemma_same_steps(g, components, others, pr_map@);
    let views = steps_of(g, components, pr_numbers(updates));
    assert(views == step_views(steps@));
    assert(r@ == conclusion(tally(views, outcomes, project), orphans));
    lemma_left_out_told(steps@, outcomes, project, orphans, r, i, n);
}

/// Why nothing was linked is told by what it is.
pub proof fn reasons_are_told(reason: SkipReason, r: &'static str)
    requires
        call_ensures(SkipReason::describe, (&reason,), r),
    ensures
        reason == SkipReason::DryRun ==> r@ == "dry run: skipping stack link"@,
        reason == SkipReason::NoHooks ==> r@ == "--no-hooks: skipping stack link"@,
        reason == SkipReason::Disabled ==> r@ == "github.linkStack is false: skipping stack link"@,
        reason == SkipReason::NoQualifyingStack ==> r@ == "no linear stack of >= 2 PRs to link"@,
{
}

/// A scan splits a run of bookmarks in four: those without a PR at the bottom, which are dropped; the
/// PRs that follow, all of them and in their order; the bookmarks without a PR above these; and
/// the rest, which is there exactly where there is an interior gap.
pub proof fn scan_splits_the_run(
    ordered: Vec<String>,
    pr_map: OrderedMap<u64>,
    r: ContiguityScan,
    from: int,
    to: int,
    end: int,
    k: int,
)
    requires
        call_ensures(scan_contiguous_run, (&ordered, &pr_map), r),
        0 <= from <= to <= end <= ordered@.len(),
        forall|i: int| 0 <= i < from ==> !pr_map@.dom().contains((#[trigger] ordered@[i])@),
        forall|i: int| from <= i < to ==> pr_map@.dom().contains((#[trigger] ordered@[i])@),
        forall|i: int| to <= i < end ==> !pr_map@.dom().contains((#[trigger] ordered@[i])@),
        from == to ==> end == to,
        from < ordered@.len() ==> from < to,
        to < ordered@.len() ==> to < end,
        end < ordered@.len() ==> pr_map@.dom().contains(ordered@[end]@),
    ensures
        r.prs@.len() == to - from,
        0 <= k < to - from ==> r.prs@[k] == pr_map@[ordered@[from + k]@],
        r.trailing_unmapped@.len() == end - to,
        0 <= k < end - to ==> r.trailing_unmapped@[k]@ == ordered@[to + k]@,
        r.interior_gap == (end < ordered@.len()),
{
    let all = text::texts(ordered@);
    let prs = pr_map@;
    assert(all.len() == ordered@.len());
    assert forall|i: int| 0 <= i < all.len() implies all[i] == (#[trigger] ordered@[i])@ by {}
    lemma_unmapped_is(all, prs, from);
    let above = all.skip(from);
    assert forall|i: int| 0 <= i < to - from implies prs.dom().contains(#[trigger] above[i]) by {
        assert(above[i] == ordered@[from + i]@);
    }
    if to < all.len() {
        assert(above[to - from] == ordered@[to]@);
    }
    lemma_mapped_is(above, prs, to - from);
    let rest = above.skip(to - from);
    assert forall|i: int| 0 <= i < end - to implies !prs.dom().contains(#[trigger] rest[i]) by {
        assert(rest[i] == ordered@[to + i]@);
    }
    if end < all.len() {
        assert(rest[end - to] == ordered@[end]@);
    }
    lemma_unmapped_is(rest, prs, end - to);
    let told = text::texts(r.trailing_unmapped@);
    assert(told.len() == r.trailing_unmapped@.len());
    if 0 <= k < end - to {
        assert(told[k] == r.trailing_unmapped@[k]@);
        assert(rest[k] == ordered@[to + k]@);
    }
    if 0 <= k < to - from {
        assert(above[k] == ordered@[from + k]@);
    }
}

proof fn lemma_unmapped_is(ordered: Seq<Seq<char>>, prs: Map<Seq<char>, u64>, n: int)
    requires
        0 <= n <= ordered.len(),
        forall|i: int| 0 <= i < n ==> !prs.dom().contains(#[trigger] ordered[i]),
        n < ordered.len() ==> prs.dom().contains(ordered[n]),
    ensures
        unmapped_run(ordered, prs) == n,
{
    lemma_unmapped_run(ordered, prs);
    let m = unmapped_run(ordered, prs);
    if m < n {
        assert(prs.dom().contains(ordered[m]));
    } else if n < m {
        assert(!prs.dom().contains(ordered[n]));
    }
}

proof fn lemma_mapped_is(ordered: Seq<Seq<char>>, prs: Map<Seq<char>, u64>, n: int)
    requires
        0 <= n <= ordered.len(),
        forall|i: int| 0 <= i < n ==> prs.dom().contains(#[trigger] ordered[i]),
        n < ordered.len() ==> !prs.dom().contains(ordered[n]),
    ensures
        mapped_run(ordered, prs) == n,
{
    lemma_mapped_run(ordered, prs);
    let m = mapped_run(ordered, prs);
    if m < n {
        assert(!prs.dom().contains(ordered[m]));
    } else if n < m {
        assert(prs.dom().contains(ordered[n]));
    }
}

/// The orphans are the submitted PRs that are in none of the stacks, each once and in ascending
/// order.
pub proof fn orphans_are_in_no_stack(
    pr_map: OrderedMap<u64>,
    stacks: Vec<Vec<u64>>,
    r: Vec<u64>,
    pr: u64,
    i: int,
    j: int,
)
    requires
        call_ensures(find_orphans, (&pr_map, &stacks), r),
    ensures
        r@.contains(pr) <==> (exists|b: Seq<char>| #[trigger]
            pr_map@.dom().contains(b) && pr_map@[b] == pr) && !exists|k: int|
            0 <= k < stacks@.len() && (#[trigger] stacks@[k])@.contains(pr),
        0 <= i < j < r@.len() ==> r@[i] < r@[j],
{
    let views = stack_views(stacks@);
    assert(views.len() == stacks@.len());
    if in_stacks(views, pr) {
        let k = choose|k: int| 0 <= k < views.len() && (#[trigger] views[k]).contains(pr);
        assert(stacks@[k]@.contains(pr));
    }
    if exists|k: int| 0 <= k < stacks@.len() && (#[trigger] stacks@[k])@.contains(pr) {
        let k = choose|k: int| 0 <= k < stacks@.len() && (#[trigger] stacks@[k])@.contains(pr);
        assert(views[k].contains(pr));
    }
    assert(r@.contains(pr) <==> is_orphan(pr_map@, views, pr));
}

} // verus!
