use jj_vine::config::{Config, ForgeType, GitHubConfig, RepoFetchConfig};
use jj_vine::error::Error;
use jj_vine::jj::Change;
use jj_vine::merge_request::{MRUpdate, MRUpdateType};
use jj_vine::stack_link::{SkipReason, StackLinkOutcome};
use jj_vine::submit::{
    pick_reported, render_stack_link_outcome, submit, summary_rows, write_summary, BookmarkLabel,
    SubmissionResult, SubmitAction, SubmitCommandConfig, SubmitCommandRevsetOptions, SubmitEnd,
    SubmitEvent, SubmitState, SubmitStep,
};
use jj_vine::wrap::{wrap, CharColumns};

#[test]
fn linked_single_stack_renders_chain() {
    let mut buf = String::new();
    let outcome = StackLinkOutcome::Linked {
        stacks: vec![vec![10, 20, 30]],
        unlinked: vec![],
    };
    render_stack_link_outcome(&mut buf, &outcome);
    assert!(buf.contains("#10 → #20 → #30"), "buffer was: {buf:?}");
    assert!(!buf.is_empty());
}

#[test]
fn linked_multi_stack_renders_one_line_each() {
    let mut buf = String::new();
    let outcome = StackLinkOutcome::Linked {
        stacks: vec![vec![1, 2], vec![3, 4]],
        unlinked: vec![],
    };
    render_stack_link_outcome(&mut buf, &outcome);
    assert_eq!(buf.lines().count(), 2, "buffer was: {buf:?}");
    assert!(buf.contains("#1 → #2"));
    assert!(buf.contains("#3 → #4"));
}

#[test]
fn linked_with_unlinked_notes_renders_stack_then_notes() {
    let mut buf = String::new();
    let outcome = StackLinkOutcome::Linked {
        stacks: vec![vec![1, 2]],
        unlinked: vec!["left the top of the stack (feature-c) out".into()],
    };
    render_stack_link_outcome(&mut buf, &outcome);
    assert!(buf.contains("#1 → #2"), "buffer was: {buf:?}");
    assert!(
        buf.contains("Note: left the top of the stack (feature-c) out"),
        "buffer was: {buf:?}"
    );
    assert_eq!(buf.lines().count(), 2, "one stack line + one note line");
}

#[test]
fn failed_renders_yellow_warning() {
    let mut buf = String::new();
    let outcome = StackLinkOutcome::Failed { warning: "boom".into() };
    render_stack_link_outcome(&mut buf, &outcome);
    assert!(buf.contains("Warning: boom"), "buffer was: {buf:?}");
    assert_eq!(buf, "\u{1b}[33mWarning: boom\u{1b}[39m\n");
}

#[test]
fn skipped_dry_run_renders_nothing() {
    let mut buf = String::new();
    render_stack_link_outcome(&mut buf, &StackLinkOutcome::Skipped(SkipReason::DryRun));
    assert!(buf.is_empty(), "buffer was: {buf:?}");
}

#[test]
fn skipped_no_qualifying_stack_renders_nothing() {
    let mut buf = String::new();
    render_stack_link_outcome(
        &mut buf,
        &StackLinkOutcome::Skipped(SkipReason::NoQualifyingStack),
    );
    assert!(buf.is_empty(), "buffer was: {buf:?}");
}

// ---------------------------------------------------------------------------
// Options
// ---------------------------------------------------------------------------
fn revset(revset: &str) -> SubmitCommandConfig {
    SubmitCommandConfig {
        revset_options: SubmitCommandRevsetOptions {
            revset_positional: Some(revset.to_owned()),
            ..SubmitCommandRevsetOptions::default()
        },
        ..SubmitCommandConfig::default()
    }
}

#[test]
fn revsets_are_chosen_by_the_options() {
    let chosen = |c: &SubmitCommandConfig| c.to_get_bookmarks_options().map(|o| o.to_revset());
    assert_eq!(chosen(&revset("a")), Ok("a".to_owned()));
    let mut flag = SubmitCommandConfig::default();
    flag.revset_options.revset = Some("b".to_owned());
    assert_eq!(chosen(&flag), Ok("b".to_owned()));
    let mut whole = SubmitCommandConfig::default();
    whole.revset_options.all_tracked = true;
    assert_eq!(
        chosen(&whole),
        Ok("(mine() & tracked_remote_bookmarks()) ~ trunk()".to_owned())
    );
    let create = SubmitCommandConfig {
        create: Some("@".to_owned()),
        ..SubmitCommandConfig::default()
    };
    assert_eq!(chosen(&create), Ok("@".to_owned()));
    let both = SubmitCommandConfig { create: Some("@".to_owned()), ..revset("a") };
    assert_eq!(chosen(&both), Ok("a".to_owned()));
    let err = chosen(&SubmitCommandConfig::default()).unwrap_err();
    assert!(err.to_string().starts_with("You must specify a revset to submit"));
    let mut clash = revset("a");
    clash.revset_options.all_tracked = true;
    assert!(chosen(&clash).is_err());
}

#[test]
fn help_has_highlighted_examples() {
    let help = SubmitCommandConfig::help_long();
    assert!(help.starts_with("Submit one or more bookmarks to the code forge.\n"));
    assert!(help.contains("\u{1b}[1m\u{1b}[33mExamples:\u{1b}[39m\u{1b}[0m"));
    assert!(help.ends_with("jj vine submit -r <revset> --dry-run\u{1b}[39m\u{1b}[0m"));
}

// ---------------------------------------------------------------------------
// The summary
// ---------------------------------------------------------------------------
fn update(iid: &str, bookmark: &str, update_type: MRUpdateType) -> MRUpdate {
    MRUpdate {
        iid: iid.to_owned(),
        title: format!("Title of {bookmark}"),
        url: format!("https://x/{iid}"),
        edit_url: format!("https://x/{iid}/edit"),
        bookmark: bookmark.to_owned(),
        update_type,
        warnings: None,
    }
}

#[test]
fn reported_updates_are_ordered_and_unique() {
    let updates = vec![
        update("9", "a", MRUpdateType::Updated),
        update("10", "b", MRUpdateType::Updated),
        update("10", "b", MRUpdateType::Created),
        update("9", "a", MRUpdateType::Unchanged),
        update("2", "c", MRUpdateType::Unchanged),
    ];
    assert_eq!(pick_reported(&updates), vec![2, 4, 0]);
    let rows = summary_rows(&CharColumns, &updates);
    assert_eq!(rows[0].status, "\u{1b}[32m[created]\u{1b}[39m");
    assert_eq!(rows[0].link, "\u{1b}[2mhttps://x/10/edit\u{1b}[0m");
    assert_eq!(rows[1].status, " ");
    assert_eq!(rows[1].link, "\u{1b}[2mhttps://x/2\u{1b}[0m");
    assert_eq!(rows[2].status, "\u{1b}[32m[updated]\u{1b}[39m");
    assert_eq!(rows[2].bookmark, "\u{1b}[35ma\u{1b}[39m");
    assert_eq!(rows[2].title, "Title of a");
}

#[test]
fn summaries() {
    let bar = "═══════════════════════════════════════";
    assert_eq!(
        write_summary(&vec![], None, &vec![]),
        format!("\n{bar}\n\u{1b}[1mSummary\u{1b}[0m\n{bar}\nNo bookmarks pushed\n")
    );
    let full = write_summary(
        &vec!["a".to_owned()],
        Some("TABLE"),
        &vec![Error::Other { message: "bad".to_owned() }],
    );
    assert!(full.ends_with(
        "Pushed: \u{1b}[35ma\u{1b}[39m\n\n\u{1b}[1mMerge Requests:\u{1b}[0m\n\nTABLE\n\n✗ 1 error(s) occurred:\n  • bad\n"
    ));
}

#[test]
fn long_titles_are_wrapped_at_words() {
    assert_eq!(wrap(&CharColumns, "short", 60), "short");
    assert_eq!(wrap(&CharColumns, "aaa bbb ccc", 7), "aaa bbb\nccc");
    assert_eq!(wrap(&CharColumns, "aaaa bb", 5), "aaaa \nbb");
    assert_eq!(wrap(&CharColumns, "can't stop", 6), "can't \nstop");
    assert_eq!(wrap(&CharColumns, "extraordinary day", 5), "\nextraordinary\nday");
}

// ---------------------------------------------------------------------------
// The course of a submission
// ---------------------------------------------------------------------------
fn github() -> Config {
    Config::builder()
        .forge(ForgeType::GitHub)
        .github(GitHubConfig {
            project: "owner/repo".to_owned(),
            token: "gh-test-token".to_owned(),
            ..GitHubConfig::default()
        })
        .build()
}

fn next(
    config: &SubmitCommandConfig,
    repo: &Config,
    state: SubmitState,
    event: SubmitEvent,
) -> SubmitStep {
    submit(&CharColumns, config, repo, state, event)
}

fn label(name: &str) -> BookmarkLabel {
    BookmarkLabel {
        change_id: format!("id-{name}"),
        raw_name: name.to_owned(),
        shown: format!("<{name}>"),
    }
}

fn failure(step: &SubmitStep) -> String {
    match &step.action {
        SubmitAction::Finish(SubmitEnd::Failed(e)) => e.to_string(),
        other => panic!("must fail, got {other:?}"),
    }
}

#[test]
fn named_bookmark_in_trunk_errors_instead_of_silent_noop() {
    let config = SubmitCommandConfig { dry_run: true, ..revset("on-trunk") };
    let repo = github();
    let step = next(&config, &repo, SubmitState::Ready, SubmitEvent::Start);
    assert_eq!(
        step.output.message.as_deref(),
        Some("Would run `jj git fetch --tracked` before planning (note that the plan may change based on newly fetched data!)")
    );
    assert!(matches!(&step.action, SubmitAction::List { revset, .. } if revset == "on-trunk"));
    let step = next(&config, &repo, step.state, SubmitEvent::Listed(Ok(vec![label("on-trunk")])));
    match &step.action {
        SubmitAction::FindChanges { change_ids, pending } => {
            assert_eq!(change_ids, &vec!["id-on-trunk".to_owned()]);
            assert_eq!(pending.len(), 0);
        }
        other => panic!("must look for the changes, got {other:?}"),
    }
    let step = next(&config, &repo, step.state, SubmitEvent::Found(Ok(0)));

    let message = failure(&step);
    assert!(message.contains("found no changes to submit"), "got: {message}");
    assert!(message.starts_with("Resolved bookmark(s) on-trunk but"), "got: {message}");
}

#[test]
fn tracked_with_no_pushed_bookmarks() {
    let mut config = SubmitCommandConfig::default();
    config.revset_options.all_tracked = true;
    let repo = Config { fetch: RepoFetchConfig::Enabled(false), ..github() };
    let step = next(&config, &repo, SubmitState::Ready, SubmitEvent::Start);
    let step = next(&config, &repo, step.state, SubmitEvent::Listed(Ok(vec![])));

    let message = failure(&step);
    assert!(
        message.contains("No bookmarks in revset (mine() & tracked_remote_bookmarks()) ~ trunk()"),
        "got: {message}"
    );
}

#[test]
fn submission_fetches_first() {
    let config = SubmitCommandConfig { remote: Some("up".to_owned()), ..revset("a") };
    let repo = github();
    let step = next(&config, &repo, SubmitState::Ready, SubmitEvent::Start);
    assert!(
        matches!(&step.action, SubmitAction::Fetch { args } if args.join(" ") == "git fetch --tracked --remote up")
    );
    let failed = next(
        &config,
        &repo,
        SubmitState::Fetching,
        SubmitEvent::Fetched(Err(Error::Io { message: "down".to_owned() })),
    );
    assert_eq!(failure(&failed), "down");
    let step = next(&config, &repo, step.state, SubmitEvent::Fetched(Ok(())));
    assert!(matches!(step.state, SubmitState::Listing { .. }));
}

#[test]
fn creation_marks_changes_without_bookmarks() {
    let config = SubmitCommandConfig { create: Some("all()".to_owned()), ..revset("r") };
    let repo = Config { fetch: RepoFetchConfig::Enabled(false), ..github() };
    let step = next(&config, &repo, SubmitState::Ready, SubmitEvent::Start);
    assert_eq!(step.output.current.as_deref(), Some("Creating and pushing bookmarks"));
    assert!(
        matches!(&step.action, SubmitAction::LogForCreate { revset } if revset == "(all()) & (r)")
    );
    let empty = next(
        &config,
        &repo,
        SubmitState::Creating { revset: "r".to_owned(), create: "all()".to_owned() },
        SubmitEvent::CreateLogged(Ok(vec![])),
    );
    assert!(failure(&empty)
        .starts_with("Your change parameter resolved to a revset (all()) & (r), which is empty."));
    let changes = vec![Change::mock_from_change_id("new"), Change::mock_from_bookmark("old")];
    let step = next(&config, &repo, step.state, SubmitEvent::CreateLogged(Ok(changes)));
    match step.action {
        SubmitAction::List { revset, pending } => {
            assert_eq!(revset, "r");
            assert!(pending.contains("new"));
            assert_eq!(pending.len(), 1);
        }
        other => panic!("must list, got {other:?}"),
    }
    let labels = vec![label("b"), label("a")];
    let step = next(&config, &repo, step.state, SubmitEvent::Listed(Ok(labels)));
    match step.action {
        SubmitAction::FindChanges { change_ids, pending } => {
            assert_eq!(change_ids, vec!["id-b".to_owned(), "id-a".to_owned()]);
            assert!(pending.contains("new"));
            assert_eq!(pending.len(), 1);
        }
        other => panic!("must look for the changes, got {other:?}"),
    }
}

#[test]
fn plans_are_shown_or_executed() {
    let show = SubmitCommandConfig { show_plan: true, ..revset("a") };
    let repo = github();
    let labels = vec![label("a"), label("b")];
    let step = next(&show, &repo, SubmitState::Opening { labels }, SubmitEvent::Opened(Ok(())));
    assert_eq!(
        step.output.message.as_deref(),
        Some("Submitting bookmarks (plan only): <a>, <b>")
    );
    let step = next(&show, &repo, step.state, SubmitEvent::Planned(Ok("1. push".to_owned())));
    assert_eq!(step.output.printed, "Submission plan:\n1. push\n");
    assert!(matches!(step.action, SubmitAction::Finish(SubmitEnd::Done)));
    let step = next(
        &revset("a"),
        &repo,
        SubmitState::Planning,
        SubmitEvent::Planned(Ok("1. push".to_owned())),
    );
    assert!(matches!(step.action, SubmitAction::Execute));
}

fn result() -> SubmissionResult {
    SubmissionResult {
        merge_requests: vec![MRUpdate {
            warnings: Some(vec!["careful".to_owned()]),
            ..update("7", "feature", MRUpdateType::Created)
        }],
        errors: vec![],
        bookmarks_pushed: vec!["feature".to_owned()],
        changes: vec![],
    }
}

#[test]
fn github_links_before_the_summary() {
    let config = revset("a");
    let repo = github();
    let step = next(&config, &repo, SubmitState::Executing, SubmitEvent::Executed(Ok(result())));
    assert!(matches!(step.action, SubmitAction::Link));
    let outcome = StackLinkOutcome::Linked { stacks: vec![vec![7, 8]], unlinked: vec![] };
    let step = next(&config, &repo, step.state, SubmitEvent::Linked(outcome));
    let printed = &step.output.printed;
    assert!(printed.starts_with("\u{1b}[1m\u{1b}[32mStacked:\u{1b}[39m\u{1b}[0m #7 → #8\n\n═"));
    assert!(printed.contains("Title of feature"), "got: {printed}");
    assert!(printed.contains("[created]"), "got: {printed}");
    assert_eq!(
        step.output.warnings,
        vec!["\u{1b}[33m\nWarning: careful\u{1b}[39m".to_owned()]
    );
    assert!(matches!(step.action, SubmitAction::Finish(SubmitEnd::Done)));
}

#[test]
fn failed_links_do_not_fail_the_submission() {
    let config = revset("a");
    let repo = github();
    let step = next(&config, &repo, SubmitState::Executing, SubmitEvent::Executed(Ok(result())));
    let outcome = StackLinkOutcome::Failed { warning: "boom".to_owned() };
    let step = next(&config, &repo, step.state, SubmitEvent::Linked(outcome));
    assert!(step.output.printed.starts_with("\u{1b}[33mWarning: boom\u{1b}[39m\n\n═"));
    assert!(matches!(step.action, SubmitAction::Finish(SubmitEnd::Done)));
}

#[test]
fn other_forges_go_to_the_summary() {
    let config = revset("a");
    let repo = Config { forge: ForgeType::Forgejo, ..github() };
    let mut failed = result();
    failed.merge_requests.clear();
    failed.errors.push(Error::Io { message: "x".to_owned() });
    let step = next(&config, &repo, SubmitState::Executing, SubmitEvent::Executed(Ok(failed)));
    assert!(step.output.printed.ends_with("✗ 1 error(s) occurred:\n  • x\n"));
    assert!(
        matches!(step.action, SubmitAction::Finish(SubmitEnd::Errors(errors)) if errors.len() == 1)
    );
}

/// Where the text stands, after `from`.
fn place(printed: &str, from: usize, part: &str) -> usize {
    let found = printed[from..].find(part);
    from + found.unwrap_or_else(|| panic!("{part:?} must follow, got: {printed}"))
}

#[test]
fn summary_lists_requests_by_their_ids() {
    let repo = Config { forge: ForgeType::Forgejo, ..github() };
    let long = "word ".repeat(15);
    let submitted = SubmissionResult {
        merge_requests: vec![
            update("8", "second", MRUpdateType::Unchanged),
            MRUpdate { title: long, ..update("7", "first", MRUpdateType::Created) },
            update("9", "third", MRUpdateType::Updated),
        ],
        errors: vec![],
        bookmarks_pushed: vec![],
        changes: vec![],
    };
    let executed = SubmitEvent::Executed(Ok(submitted));
    let step = next(&revset("a"), &repo, SubmitState::Executing, executed);
    let printed = &step.output.printed;
    let mut at = place(printed, 0, "Merge Requests:");
    for part in [
        "\u{1b}[35mfirst\u{1b}[39m",
        "word word",
        "[created]",
        "\n",
        "word word",
        "\n",
        "\u{1b}[35msecond\u{1b}[39m",
        "Title of second",
        "\n",
        "\u{1b}[35mthird\u{1b}[39m",
        "Title of third",
        "[updated]",
    ] {
        at = place(printed, at, part) + part.len();
    }
}
