use jj_vine::action::{ActionReport, ActionResultData, ActionStep};
use jj_vine::config::RepoPushConfig;
use jj_vine::error::Error;
use jj_vine::jj::Change;
use jj_vine::push::PushAction;
use jj_vine::push_create::PushCreateAction;

const CYAN_ORIGIN: &str = "\u{1b}[36morigin\u{1b}[39m";

fn push_create_action() -> PushCreateAction {
    PushCreateAction { change_ids: vec!["abcdefgh".to_owned()], remote: "origin".to_owned() }
}

fn push_action() -> PushAction {
    PushAction { bookmarks: vec!["feature-a".to_owned()], remote: "origin".to_owned() }
}

fn done(step: ActionStep) -> ActionReport {
    match step {
        ActionStep::Done(report) => report,
        ActionStep::Run { argv } => panic!("must not run {argv:?}"),
    }
}

fn unwrap_pushed(report: ActionReport) -> (Vec<String>, usize, bool) {
    match report.result.expect("execute should succeed for a disabled/no-op push") {
        ActionResultData::Pushed { bookmarks, created_bookmarks, pushed } => {
            (bookmarks, created_bookmarks.len(), pushed)
        }
    }
}

fn create(dry_run: bool) -> (Vec<String>, usize, bool) {
    unwrap_pushed(done(push_create_action().start(
        &RepoPushConfig::Enabled(false),
        dry_run,
        false,
        &vec!["push-abcdefgh".to_owned()],
    )))
}

#[test]
fn push_create_dry_run_disabled_reports_not_pushed() {
    let (_bookmarks, _created, pushed) = create(true);

    assert!(
        !pushed,
        "dry-run + `push = false` must report pushed == false; a preview that \
         claims it would push contradicts the `(pushing disabled)` plan line"
    );
}

#[test]
fn push_create_dry_run_disabled_reports_no_bookmarks() {
    let (bookmarks, created_bookmarks, _pushed) = create(true);

    assert!(
        bookmarks.is_empty(),
        "dry-run + `push = false` must report no bookmarks as pushed, got {bookmarks:?}"
    );
    assert!(
        created_bookmarks == 0,
        "dry-run + `push = false` must report no created bookmarks, got {created_bookmarks:?}"
    );
}

#[test]
fn push_create_real_disabled_is_noop() {
    let (bookmarks, created_bookmarks, pushed) = create(false);

    assert!(!pushed, "non-dry-run + `push = false` must not push");
    assert!(
        bookmarks.is_empty(),
        "non-dry-run + `push = false` must report no bookmarks, got {bookmarks:?}"
    );
    assert!(
        created_bookmarks == 0,
        "non-dry-run + `push = false` must report no created bookmarks, got {created_bookmarks:?}"
    );
}

#[test]
fn push_dry_run_disabled_reports_not_pushed() {
    let step = push_action().start(&RepoPushConfig::Enabled(false), true, false);
    let (_bookmarks, _created, pushed) = unwrap_pushed(done(step));

    assert!(
        !pushed,
        "dry-run + `push = false` must report pushed == false for PushAction"
    );
}

#[test]
fn push_real_disabled_is_noop() {
    let step = push_action().start(&RepoPushConfig::Enabled(false), false, false);
    let (_bookmarks, _created, pushed) = unwrap_pushed(done(step));

    assert!(
        !pushed,
        "non-dry-run + `push = false` must report pushed == false for PushAction"
    );
}

#[test]
fn push_texts() {
    let a = PushAction {
        bookmarks: vec!["a".to_owned(), "b".to_owned()],
        remote: "origin".to_owned(),
    };
    let names = "\u{1b}[35ma\u{1b}[39m, \u{1b}[35mb\u{1b}[39m";
    assert_eq!(a.id(), "push:a,b");
    assert_eq!(a.group_text(), "Pushing bookmarks");
    assert_eq!(a.text(), format!("Pushing {names}"));
    assert_eq!(a.substep_text(), names);
    assert_eq!(a.plan_text(), format!("Push bookmarks to remote {CYAN_ORIGIN}: {names}"));
}

#[test]
fn push_runs_the_resolved_command() {
    let gate = RepoPushConfig::Command(vec!["jj-hp".to_owned(), "push".to_owned()]);
    match push_action().start(&gate, false, false) {
        ActionStep::Run { argv } => assert_eq!(
            argv.join(" "),
            "jj-hp push --remote origin --bookmark feature-a"
        ),
        other => panic!("must run, got {other:?}"),
    }
    match push_action().start(&gate, false, true) {
        ActionStep::Run { argv } => assert_eq!(
            argv.join(" "),
            "jj git push --remote origin --bookmark feature-a"
        ),
        other => panic!("must run, got {other:?}"),
    }
    let report = done(push_action().start(&gate, true, false));
    assert_eq!(
        report.message.as_deref().unwrap(),
        format!(
            "Would push bookmarks to remote {CYAN_ORIGIN} via `jj-hp push`: \u{1b}[35mfeature-a\u{1b}[39m"
        )
    );
    assert!(unwrap_pushed(report).2);
    let report = done(push_action().start(&RepoPushConfig::Enabled(false), true, false));
    assert!(report.message.unwrap().contains("(pushing disabled)"));
}

#[test]
fn push_reports_what_became_of_it() {
    let names = "\u{1b}[35mfeature-a\u{1b}[39m";
    let pushed = push_action().finish(Ok(true));
    assert_eq!(pushed.completed.as_deref().unwrap(), format!("Pushed {names}"));
    assert!(unwrap_pushed(pushed).2);
    let unchanged = push_action().finish(Ok(false));
    assert!(unchanged.completed.is_none());
    assert!(!unwrap_pushed(unchanged).2);
    let failed = push_action().finish(Err(Error::JjCommand {
        message: "denied".to_owned(),
        output: None,
    }));
    let message = format!("Failed to push {names}: denied");
    assert_eq!(failed.message.as_deref(), Some(message.as_str()));
    assert_eq!(failed.result.unwrap_err(), Error::Other { message });
}

#[test]
fn push_create_texts() {
    let a = PushCreateAction {
        change_ids: vec!["abcdefghij".to_owned(), "zyxwvutsrq".to_owned()],
        remote: "origin".to_owned(),
    };
    let ids = "\u{1b}[35mabcdefgh\u{1b}[39m, \u{1b}[35mzyxwvuts\u{1b}[39m";
    assert_eq!(a.id(), "push_create:abcdefghij,zyxwvutsrq");
    assert_eq!(a.group_text(), "Creating and pushing bookmarks");
    assert_eq!(a.text(), format!("Creating and pushing {ids}"));
    assert_eq!(a.substep_text(), ids);
    assert_eq!(
        a.plan_text(),
        format!("Create and push bookmarks to remote {CYAN_ORIGIN} for changes: {ids}")
    );
    assert_eq!(a.revset(), "abcdefghij|zyxwvutsrq");
}

#[test]
fn push_create_runs_and_reports() {
    let temp = vec!["push-abcdefgh".to_owned()];
    let on = RepoPushConfig::Enabled(true);
    match push_create_action().start(&on, false, false, &temp) {
        ActionStep::Run { argv } => {
            assert_eq!(argv.join(" "), "jj git push --remote origin -c abcdefgh")
        }
        other => panic!("must run, got {other:?}"),
    }
    let preview = done(push_create_action().start(&on, true, false, &temp));
    assert_eq!(
        preview.message.as_deref().unwrap(),
        format!(
            "Would \u{1b}[32mcreate bookmarks\u{1b}[39m and push to remote {CYAN_ORIGIN} via `jj git push` for changes: \u{1b}[35mabcdefgh\u{1b}[39m"
        )
    );
    match preview.result.unwrap() {
        ActionResultData::Pushed { bookmarks, created_bookmarks, pushed } => {
            assert_eq!(bookmarks, temp);
            assert_eq!(created_bookmarks.get("abcdefgh"), Some(&"push-abcdefgh".to_owned()));
            assert!(pushed);
        }
    }
    let change = Change::mock_from_change_id("abcdefgh").with_mock_bookmarks(vec!["x", "y"]);
    let report = push_create_action().finish(Ok(()), Ok(vec![change]));
    assert_eq!(
        report.completed.as_deref(),
        Some("Created bookmarks: \u{1b}[35mx\u{1b}[39m, \u{1b}[35my\u{1b}[39m")
    );
    match report.result.unwrap() {
        ActionResultData::Pushed { bookmarks, created_bookmarks, pushed } => {
            assert_eq!(bookmarks, vec!["x".to_owned(), "y".to_owned()]);
            assert_eq!(created_bookmarks.get("abcdefgh"), Some(&"y".to_owned()));
            assert!(pushed);
        }
    }
}

#[test]
fn push_create_failures() {
    let io = || Error::Io { message: "x".to_owned() };
    let failed = push_create_action().finish(Err(io()), Ok(vec![]));
    assert_eq!(
        failed.result.unwrap_err().to_string(),
        format!(
            "Failed to create and push changes to remote {CYAN_ORIGIN} (\u{1b}[35mabcdefgh\u{1b}[39m): x"
        )
    );
    let unlogged = push_create_action().finish(Ok(()), Err(io()));
    assert_eq!(unlogged.result.unwrap_err(), io());
    assert!(unlogged.message.is_none());
}
