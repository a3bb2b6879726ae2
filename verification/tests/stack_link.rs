use core::cell::RefCell;
use jj_vine::bookmark::BookmarkGraph;
use jj_vine::change_map::ChangeMap;
use jj_vine::config::GitHubConfig;
use jj_vine::error::Error;
use jj_vine::jj::Change;
use jj_vine::link_log::LoggedRunner;
use jj_vine::merge_request::{MRUpdate, MRUpdateType};
use jj_vine::process::{RawOutput, Spawned};
use jj_vine::stack_link::{
    build_pr_map, format_prs, gh_stack_command, gh_stack_outcome, gh_stack_start,
    link_from_graph, link_stacks, missing_token_outcome, LinkOutcome, SkipReason,
    StackLinkOutcome, StackLinkRunner,
};

/// A runner that records the PRs of every call and returns a canned outcome.
struct RecordingRunner {
    calls: RefCell<Vec<Vec<u64>>>,
    response: LinkOutcome,
}

impl RecordingRunner {
    fn logged(response: LinkOutcome) -> LoggedRunner<Self> {
        LoggedRunner::new(Self { calls: RefCell::new(Vec::new()), response })
    }

    fn calls(&self) -> Vec<Vec<u64>> {
        self.calls.borrow().clone()
    }
}

impl StackLinkRunner for RecordingRunner {
    fn run(&self, prs: &Vec<u64>, _github: &GitHubConfig) -> LinkOutcome {
        self.calls.borrow_mut().push(prs.to_vec());
        self.response.clone()
    }
}

fn mr_update(bookmark: &str, iid: &str) -> MRUpdate {
    MRUpdate {
        iid: iid.to_owned(),
        title: format!("PR for {bookmark}"),
        url: String::new(),
        edit_url: String::new(),
        bookmark: bookmark.to_owned(),
        update_type: MRUpdateType::Created,
        warnings: None,
    }
}

fn github_config() -> GitHubConfig {
    GitHubConfig {
        project: "owner/repo".to_owned(),
        link_stack: true,
        ..GitHubConfig::default()
    }
}

fn linear_graph_changes(bottom_to_top: &[&str]) -> ChangeMap {
    Change::mock_stack_map(bottom_to_top.iter().map(|b| Change::mock_from_bookmark(b)).collect())
}

fn graph_of(changes: &ChangeMap) -> BookmarkGraph {
    BookmarkGraph::from_lookups(changes.create_bookmark_map(), &changes.create_adjacency_list())
}

#[test]
fn linear_three_stack_links_bottom_to_top_once() {
    let changes = linear_graph_changes(&["feature-a", "feature-b", "feature-c"]);
    let graph = graph_of(&changes);
    let mrs = vec![
        mr_update("feature-a", "10"),
        mr_update("feature-b", "20"),
        mr_update("feature-c", "30"),
    ];
    let mut runner = RecordingRunner::logged(LinkOutcome::Linked);

    let outcome = link_from_graph(&mut runner, &github_config(), &graph, &mrs);

    assert!(matches!(outcome, StackLinkOutcome::Linked { .. }));
    assert_eq!(
        runner.into_inner().calls(),
        vec![vec![10, 20, 30]],
        "exactly one invocation, PRs bottom-to-top"
    );
}

#[test]
fn two_independent_components_link_separately() {
    let mut changes = linear_graph_changes(&["feature-a", "feature-b"]);
    changes.extend(linear_graph_changes(&["feature-c", "feature-d"]));
    let graph = graph_of(&changes);
    let mrs = vec![
        mr_update("feature-a", "1"),
        mr_update("feature-b", "2"),
        mr_update("feature-c", "3"),
        mr_update("feature-d", "4"),
    ];
    let mut runner = RecordingRunner::logged(LinkOutcome::Linked);

    let outcome = link_from_graph(&mut runner, &github_config(), &graph, &mrs);

    assert!(matches!(outcome, StackLinkOutcome::Linked { .. }));
    let mut calls = runner.into_inner().calls();
    calls.sort();
    assert_eq!(
        calls,
        vec![vec![1, 2], vec![3, 4]],
        "two components => two invocations"
    );
}

#[test]
fn non_linear_component_is_skipped_without_invocation() {
    let changes = Change::mock_stack_map(vec![
        Change::mock_from_bookmark("feature-a"),
        Change::mock_from_bookmark("feature-b"),
        Change::mock_from_bookmark("feature-c")
            .with_mock_parent_bookmarks(vec!["feature-a", "feature-b"]),
    ]);
    let graph = graph_of(&changes);
    let mrs = vec![
        mr_update("feature-a", "1"),
        mr_update("feature-b", "2"),
        mr_update("feature-c", "3"),
    ];
    let mut runner = RecordingRunner::logged(LinkOutcome::Linked);

    let outcome = link_from_graph(&mut runner, &github_config(), &graph, &mrs);

    assert!(
        matches!(outcome, StackLinkOutcome::Skipped(SkipReason::NoQualifyingStack)),
        "non-linear component yields no qualifying stack"
    );
    assert!(runner.into_inner().calls().is_empty(), "runner must not be called");
}

#[test]
fn single_pr_component_is_skipped() {
    let changes = linear_graph_changes(&["feature-a"]);
    let graph = graph_of(&changes);
    let mrs = vec![mr_update("feature-a", "1")];
    let mut runner = RecordingRunner::logged(LinkOutcome::Linked);

    let outcome = link_from_graph(&mut runner, &github_config(), &graph, &mrs);

    assert!(matches!(outcome, StackLinkOutcome::Skipped(SkipReason::NoQualifyingStack)));
    assert!(runner.into_inner().calls().is_empty(), "a single PR is not a stack");
}

#[test]
fn bottom_gap_is_dropped_and_top_run_links() {
    let changes = linear_graph_changes(&["feature-a", "feature-b", "feature-c"]);
    let graph = graph_of(&changes);
    let mrs = vec![mr_update("feature-b", "20"), mr_update("feature-c", "30")];
    let mut runner = RecordingRunner::logged(LinkOutcome::Linked);

    let outcome = link_from_graph(&mut runner, &github_config(), &graph, &mrs);

    assert!(matches!(outcome, StackLinkOutcome::Linked { .. }));
    assert_eq!(
        runner.into_inner().calls(),
        vec![vec![20, 30]],
        "bottom gap dropped; contiguous top run links"
    );
}

#[test]
fn interior_gap_skips_the_whole_component_and_never_links_across() {
    let changes = linear_graph_changes(&["feature-a", "feature-b", "feature-c"]);
    let graph = graph_of(&changes);
    let mrs = vec![mr_update("feature-a", "10"), mr_update("feature-c", "30")];
    let mut runner = RecordingRunner::logged(LinkOutcome::Linked);

    let outcome = link_from_graph(&mut runner, &github_config(), &graph, &mrs);

    assert!(
        runner.into_inner().calls().is_empty(),
        "the runner MUST NOT be invoked for an interior-gap component"
    );
    match outcome {
        StackLinkOutcome::Failed { warning } => {
            assert!(
                warning.contains("#10"),
                "warning must name the PR(s) found below the gap, got: {warning}"
            );
            assert!(
                !warning.contains("#30"),
                "the PR above the interior gap must not be linked or claimed, got: {warning}"
            );
        }
        other => panic!("interior gap must surface as Failed, got: {other:?}"),
    }
}

#[test]
fn trailing_gap_links_the_bottom_run_and_notes_the_unlinked_top() {
    let changes = linear_graph_changes(&["feature-a", "feature-b", "feature-c"]);
    let graph = graph_of(&changes);
    let mrs = vec![mr_update("feature-a", "10"), mr_update("feature-b", "20")];
    let mut runner = RecordingRunner::logged(LinkOutcome::Linked);

    let outcome = link_from_graph(&mut runner, &github_config(), &graph, &mrs);

    assert_eq!(
        runner.into_inner().calls(),
        vec![vec![10, 20]],
        "the contiguous bottom run links; the unmapped top is dropped, not fatal"
    );
    match outcome {
        StackLinkOutcome::Linked { stacks, unlinked } => {
            assert_eq!(stacks, vec![vec![10, 20]]);
            assert_eq!(unlinked.len(), 1, "one note for the unlinked top");
            assert!(
                unlinked[0].contains("feature-c"),
                "note must name the unlinked top bookmark, got: {}",
                unlinked[0]
            );
            assert_eq!(
                unlinked[0],
                "linked #10 -> #20 but left the top of the stack (feature-c) out — it has no PR yet; re-submit once it does"
            );
        }
        other => panic!("trailing gap must still Link the bottom run, got: {other:?}"),
    }
}

#[test]
fn four_stack_with_unmapped_leaf_still_links_the_lower_three() {
    let changes = linear_graph_changes(&["feature-a", "feature-b", "feature-c", "feature-d"]);
    let graph = graph_of(&changes);
    let mrs = vec![
        mr_update("feature-a", "1"),
        mr_update("feature-b", "2"),
        mr_update("feature-c", "3"),
    ];
    let mut runner = RecordingRunner::logged(LinkOutcome::Linked);

    let outcome = link_from_graph(&mut runner, &github_config(), &graph, &mrs);

    assert_eq!(
        runner.into_inner().calls(),
        vec![vec![1, 2, 3]],
        "the lower three link; the unmapped leaf is left out, not fatal"
    );
    assert!(matches!(outcome, StackLinkOutcome::Linked { .. }));
}

#[test]
fn interior_gap_with_a_mapped_bookmark_above_it_is_still_fatal() {
    let changes = linear_graph_changes(&["feature-a", "feature-b", "feature-c", "feature-d"]);
    let graph = graph_of(&changes);
    let mrs = vec![
        mr_update("feature-a", "1"),
        mr_update("feature-c", "3"),
        mr_update("feature-d", "4"),
    ];
    let mut runner = RecordingRunner::logged(LinkOutcome::Linked);

    let outcome = link_from_graph(&mut runner, &github_config(), &graph, &mrs);

    assert!(
        runner.into_inner().calls().is_empty(),
        "an interior gap with a mapped bookmark above it must never link"
    );
    assert!(matches!(outcome, StackLinkOutcome::Failed { .. }));
}

#[test]
fn orphan_pr_in_a_separate_component_is_noted_alongside_the_linked_stack() {
    let mut changes = linear_graph_changes(&["feature-a", "feature-b"]);
    changes.extend(linear_graph_changes(&["feature-solo"]));
    let graph = graph_of(&changes);
    let mrs = vec![
        mr_update("feature-a", "1"),
        mr_update("feature-b", "2"),
        mr_update("feature-solo", "9"),
    ];
    let mut runner = RecordingRunner::logged(LinkOutcome::Linked);

    let outcome = link_from_graph(&mut runner, &github_config(), &graph, &mrs);

    assert_eq!(runner.into_inner().calls(), vec![vec![1, 2]], "only the real stack links");
    match outcome {
        StackLinkOutcome::Linked { stacks, unlinked } => {
            assert_eq!(stacks, vec![vec![1, 2]]);
            assert_eq!(unlinked.len(), 1, "one orphan note");
            assert!(
                unlinked[0].contains("#9"),
                "orphan note must name the unstacked PR, got: {}",
                unlinked[0]
            );
            assert!(
                !unlinked[0].contains("#1") && !unlinked[0].contains("#2"),
                "linked PRs must not appear in the orphan note, got: {}",
                unlinked[0]
            );
        }
        other => panic!("expected Linked with an orphan note, got: {other:?}"),
    }
}

#[test]
fn standalone_single_pr_submit_stays_quiet_no_orphan_note() {
    let changes = linear_graph_changes(&["feature-solo"]);
    let graph = graph_of(&changes);
    let mrs = vec![mr_update("feature-solo", "9")];
    let mut runner = RecordingRunner::logged(LinkOutcome::Linked);

    let outcome = link_from_graph(&mut runner, &github_config(), &graph, &mrs);

    assert!(
        matches!(outcome, StackLinkOutcome::Skipped(SkipReason::NoQualifyingStack)),
        "a lone single-PR submit stays a silent skip, no orphan note"
    );
    assert!(runner.into_inner().calls().is_empty());
}

#[test]
fn duplicate_merge_request_per_bookmark_is_deduped() {
    let changes = linear_graph_changes(&["feature-a", "feature-b"]);
    let graph = graph_of(&changes);
    let mrs = vec![
        mr_update("feature-a", "1"),
        mr_update("feature-a", "1"),
        mr_update("feature-b", "2"),
    ];
    let mut runner = RecordingRunner::logged(LinkOutcome::Linked);

    let outcome = link_from_graph(&mut runner, &github_config(), &graph, &mrs);

    assert!(matches!(outcome, StackLinkOutcome::Linked { .. }));
    assert_eq!(
        runner.into_inner().calls(),
        vec![vec![1, 2]],
        "duplicate MRUpdate per bookmark maps to one PR"
    );
}

#[test]
fn non_numeric_iid_is_skipped_and_the_rest_proceed() {
    let changes = linear_graph_changes(&["feature-a", "feature-b"]);
    let graph = graph_of(&changes);
    let mrs = vec![
        mr_update("feature-a", "1"),
        mr_update("feature-b", "2"),
        mr_update("orphan", "not-a-number"),
    ];
    let mut runner = RecordingRunner::logged(LinkOutcome::Linked);

    let outcome = link_from_graph(&mut runner, &github_config(), &graph, &mrs);

    assert!(matches!(outcome, StackLinkOutcome::Linked { .. }));
    assert_eq!(runner.into_inner().calls(), vec![vec![1, 2]]);
}

#[test]
fn exit_code_nine_yields_failed_with_not_enabled_message() {
    let changes = linear_graph_changes(&["feature-a", "feature-b"]);
    let graph = graph_of(&changes);
    let mrs = vec![mr_update("feature-a", "1"), mr_update("feature-b", "2")];
    let mut runner = RecordingRunner::logged(LinkOutcome::NotEnabled);

    let outcome = link_from_graph(&mut runner, &github_config(), &graph, &mrs);

    match outcome {
        StackLinkOutcome::Failed { warning } => {
            assert!(
                warning.contains("stacked PRs are not enabled for owner/repo"),
                "exit 9 must give the dedicated actionable message, got: {warning}"
            );
            assert!(warning.contains("github.linkStack = false"));
            assert!(warning.contains("#1 -> #2"), "the PRs must be named, got: {warning}");
        }
        other => panic!("exit 9 must yield Failed, got: {other:?}"),
    }
    assert_eq!(runner.into_inner().calls(), vec![vec![1, 2]]);
}

fn unbuilt() -> Result<BookmarkGraph, Error> {
    Err(Error::Other { message: "must not be looked at".to_owned() })
}

#[test]
fn dry_run_skips_before_touching_anything() {
    let mut runner = RecordingRunner::logged(LinkOutcome::Linked);

    let outcome = link_stacks(
        &mut runner,
        &github_config(),
        unbuilt(),
        &vec![],
        true,  // dry_run
        false, // no_hooks
    );

    assert!(matches!(outcome, StackLinkOutcome::Skipped(SkipReason::DryRun)));
    assert!(runner.into_inner().calls().is_empty());
}

#[test]
fn no_hooks_skips_before_touching_anything() {
    let mut runner = RecordingRunner::logged(LinkOutcome::Linked);

    let outcome = link_stacks(
        &mut runner,
        &github_config(),
        unbuilt(),
        &vec![],
        false, // dry_run
        true,  // no_hooks
    );

    assert!(matches!(outcome, StackLinkOutcome::Skipped(SkipReason::NoHooks)));
    assert!(runner.into_inner().calls().is_empty());
}

#[test]
fn disabled_knob_skips_before_touching_anything() {
    let github = GitHubConfig { link_stack: false, ..github_config() };
    let mut runner = RecordingRunner::logged(LinkOutcome::Linked);

    let outcome = link_stacks(&mut runner, &github, unbuilt(), &vec![], false, false);

    assert!(matches!(outcome, StackLinkOutcome::Skipped(SkipReason::Disabled)));
    assert!(runner.into_inner().calls().is_empty());
}

#[test]
fn graph_that_cannot_be_built_is_a_warning() {
    let mut runner = RecordingRunner::logged(LinkOutcome::Linked);
    let outcome = link_stacks(
        &mut runner,
        &github_config(),
        Err(Error::JjCommand { message: "jj log failed".to_owned(), output: None }),
        &vec![],
        false,
        false,
    );
    match outcome {
        StackLinkOutcome::Failed { warning } => assert_eq!(
            warning,
            "could not rebuild bookmark graph for stack link: jj log failed"
        ),
        other => panic!("expected a warning, got: {other:?}"),
    }
    assert!(runner.into_inner().calls().is_empty(), "nothing is linked without a graph");
}

#[test]
fn generic_runner_failure_names_prs_for_manual_rerun() {
    let changes = linear_graph_changes(&["feature-a", "feature-b"]);
    let graph = graph_of(&changes);
    let mrs = vec![mr_update("feature-a", "1"), mr_update("feature-b", "2")];
    let mut runner = RecordingRunner::logged(LinkOutcome::Failed {
        detail: "network unreachable".to_owned(),
    });

    let outcome = link_from_graph(&mut runner, &github_config(), &graph, &mrs);

    match outcome {
        StackLinkOutcome::Failed { warning } => {
            assert!(
                warning.contains("gh-stack link 1 2"),
                "warning must give a copy-pasteable rerun, got: {warning}"
            );
        }
        other => panic!("a runner failure must yield Failed, got: {other:?}"),
    }
}

#[test]
fn one_success_one_failure_surfaces_the_failure() {
    let mut changes = linear_graph_changes(&["feature-a", "feature-b"]);
    changes.extend(linear_graph_changes(&["feature-c", "feature-d"]));
    let graph = graph_of(&changes);
    let mrs = vec![
        mr_update("feature-a", "1"),
        mr_update("feature-b", "2"),
        mr_update("feature-c", "3"),
        mr_update("feature-d", "4"),
    ];
    let mut runner = RecordingRunner::logged(LinkOutcome::NotEnabled);

    let outcome = link_from_graph(&mut runner, &github_config(), &graph, &mrs);

    assert!(
        matches!(outcome, StackLinkOutcome::Failed { .. }),
        "any component failure makes the aggregate Failed"
    );
    assert_eq!(runner.into_inner().calls().len(), 2);
}

#[test]
fn build_pr_map_dedupes_and_skips_non_numeric() {
    let mrs = vec![mr_update("a", "5"), mr_update("a", "5"), mr_update("b", "bad")];
    let map = build_pr_map(&mrs);
    assert_eq!(map.get("a"), Some(&5));
    assert!(!map.contains_key("b"), "non-numeric id is skipped");
    assert_eq!(map.len(), 1);
}

#[test]
fn build_pr_map_keeps_the_first_number() {
    let mrs = vec![
        mr_update("a", "x"),
        mr_update("a", "+7"),
        mr_update("a", "8"),
        mr_update("b", "18446744073709551616"),
        mr_update("c", "18446744073709551615"),
    ];
    let map = build_pr_map(&mrs);
    assert_eq!(map.get("a"), Some(&7));
    assert_eq!(map.get("b"), None);
    assert_eq!(map.get("c"), Some(&u64::MAX));
}

#[test]
fn from_lookups_helpers_are_exercised() {
    let changes = linear_graph_changes(&["a", "b", "c"]);
    let adjacency = changes.create_adjacency_list();
    assert_eq!(adjacency.get("b").map(|s| s.len()), Some(1));
    assert!(adjacency.get("b").unwrap().contains("a"));
    assert_eq!(adjacency.get("c").map(|s| s.len()), Some(1));
    assert!(adjacency.get("c").unwrap().contains("b"));
}

#[test]
fn orphans_are_sorted_and_listed_once() {
    let mut changes = linear_graph_changes(&["a", "b"]);
    for solo in ["x", "y", "z"] {
        changes.extend(linear_graph_changes(&[solo]));
    }
    let graph = graph_of(&changes);
    let mrs = vec![
        mr_update("a", "1"),
        mr_update("b", "2"),
        mr_update("x", "30"),
        mr_update("y", "4"),
        mr_update("z", "30"),
    ];
    let mut runner = RecordingRunner::logged(LinkOutcome::Linked);
    match link_from_graph(&mut runner, &github_config(), &graph, &mrs) {
        StackLinkOutcome::Linked { unlinked, .. } => assert_eq!(
            unlinked,
            vec!["these submitted PR(s) were not added to any stack (separate or non-linear component): #4 -> #30".to_owned()]
        ),
        other => panic!("expected a linked stack, got: {other:?}"),
    }
}

#[test]
fn graphs_fall_into_components() {
    let mut changes = linear_graph_changes(&["m", "k", "z"]);
    changes.extend(linear_graph_changes(&["b"]));
    let graph = graph_of(&changes);
    let components = graph.components();
    assert_eq!(components.len(), 2);
    assert_eq!(components[0].item_at(0), "b");
    assert_eq!(components[1].item_at(0), "k");
    assert!(graph.is_linear(&components[1]));
    assert_eq!(graph.leaves(&components[1]).item_at(0), "z");
    assert_eq!(components[1].len(), 3);
    assert_eq!(graph.downstack("z"), vec!["z".to_owned(), "k".to_owned(), "m".to_owned()]);
}

#[test]
fn skip_reasons_are_described() {
    assert_eq!(SkipReason::DryRun.describe(), "dry run: skipping stack link");
    assert_eq!(SkipReason::NoHooks.describe(), "--no-hooks: skipping stack link");
    assert_eq!(
        SkipReason::Disabled.describe(),
        "github.linkStack is false: skipping stack link"
    );
    assert_eq!(
        SkipReason::NoQualifyingStack.describe(),
        "no linear stack of >= 2 PRs to link"
    );
}

#[test]
fn gh_stack_gets_prs_and_environment() {
    let command = gh_stack_command(&vec![3, 14], &github_config(), "tok".to_owned());
    assert_eq!(command.program, "gh-stack");
    assert_eq!(command.args, vec!["link".to_owned(), "3".to_owned(), "14".to_owned()]);
    assert_eq!(
        command.env,
        vec![
            ("GH_TOKEN".to_owned(), "tok".to_owned()),
            ("GH_REPO".to_owned(), "owner/repo".to_owned())
        ]
    );
    assert_eq!(format_prs(&vec![12, 13, 14]), "#12 -> #13 -> #14");
}

#[test]
fn gh_stack_exits_are_told_apart() {
    let exit = |code: Option<i32>, stderr: &str| {
        gh_stack_outcome(Spawned::Finished(RawOutput {
            code,
            status: "exit status: x".to_owned(),
            stdout: vec![],
            stderr: stderr.as_bytes().to_vec(),
        }))
    };
    let failed = |detail: &str| LinkOutcome::Failed { detail: detail.to_owned() };
    assert_eq!(exit(Some(0), "noise"), LinkOutcome::Linked);
    assert_eq!(exit(Some(9), "noise"), LinkOutcome::NotEnabled);
    assert_eq!(exit(Some(1), " \n"), failed("gh-stack exited with exit status: x"));
    assert_eq!(
        exit(None, "killed\n"),
        failed("gh-stack exited with exit status: x: killed (stderr may be truncated)")
    );
    assert_eq!(
        gh_stack_outcome(Spawned::TimedOut),
        failed("gh-stack timed out after 60s")
    );
    assert_eq!(
        gh_stack_outcome(Spawned::Failed { reason: "no such file".to_owned() }),
        failed("could not run gh-stack: no such file")
    );
    assert_eq!(
        missing_token_outcome(&Error::Config { message: "none".to_owned() }),
        failed("could not resolve GH_TOKEN: none")
    );
}

/// A runner that gives a different answer to each call.
struct ScriptedRunner {
    asked: RefCell<Vec<(Vec<u64>, String)>>,
    answers: RefCell<Vec<LinkOutcome>>,
}

impl StackLinkRunner for ScriptedRunner {
    fn run(&self, prs: &Vec<u64>, github: &GitHubConfig) -> LinkOutcome {
        self.asked.borrow_mut().push((prs.to_vec(), github.target_project().to_owned()));
        self.answers.borrow_mut().remove(0)
    }
}

#[test]
fn failed_link_stops_no_other() {
    let mut changes = linear_graph_changes(&["a1", "a2"]);
    changes.extend(linear_graph_changes(&["b1", "b2"]));
    changes.extend(linear_graph_changes(&["c1"]));
    changes.extend(linear_graph_changes(&["d1", "d2"]));
    let graph = graph_of(&changes);
    let mrs = vec![
        mr_update("a1", "1"),
        mr_update("a2", "2"),
        mr_update("b1", "3"),
        mr_update("b2", "4"),
        mr_update("c1", "5"),
        mr_update("d1", "6"),
        mr_update("d2", "7"),
    ];
    let mut runner = LoggedRunner::new(ScriptedRunner {
        asked: RefCell::new(Vec::new()),
        answers: RefCell::new(vec![
            LinkOutcome::Failed { detail: "boom".to_owned() },
            LinkOutcome::NotEnabled,
            LinkOutcome::Linked,
        ]),
    });

    let outcome = link_from_graph(&mut runner, &github_config(), &graph, &mrs);

    let on = |prs: Vec<u64>| (prs, "owner/repo".to_owned());
    assert_eq!(runner.into_inner().asked.take(), vec![on(vec![1, 2]), on(vec![3, 4]), on(vec![6, 7])]);
    match outcome {
        StackLinkOutcome::Failed { warning } => assert_eq!(
            warning,
            "failed to link stack #1 -> #2 (boom); rerun by hand: gh-stack link 1 2; stacked PRs \
             are not enabled for owner/repo; enable them or set github.linkStack = false (not \
             linked: #3 -> #4)"
        ),
        other => panic!("expected a warning, got: {other:?}"),
    }
}

#[test]
fn gh_stack_starts_with_a_token_only() {
    let prs = vec![3, 14];
    let call = gh_stack_start(Ok("tok".to_owned()), &prs, &github_config()).unwrap();
    assert_eq!(call.program, "gh-stack");
    assert_eq!(call.args, vec!["link".to_owned(), "3".to_owned(), "14".to_owned()]);
    assert_eq!(call.env[0], ("GH_TOKEN".to_owned(), "tok".to_owned()));
    assert_eq!(call.env[1], ("GH_REPO".to_owned(), "owner/repo".to_owned()));
    let missing = Err(Error::Config { message: "none".to_owned() });
    assert_eq!(
        gh_stack_start(missing, &prs, &github_config()).unwrap_err(),
        LinkOutcome::Failed { detail: "could not resolve GH_TOKEN: none".to_owned() }
    );
}
