use jj_vine::change_map::ChangeMap;
use jj_vine::error::Error;
use jj_vine::jj::{BookmarkInfo, Change};
use jj_vine::jujutsu::{
    build_push_argv, build_push_create_argv, log_args, log_records, remote_bookmark_args,
    track_args, trunk_alias_args, DecodedRecord, JJAuthor, JJBookmark, JJCommit, Jujutsu,
    LogRecord,
};
use jj_vine::process::{RawOutput, Spawned};
use jj_vine::text_set::TextSet;

fn argv(parts: &[&str]) -> Vec<String> {
    parts.iter().map(|s| (*s).to_owned()).collect()
}

fn ran(code: i32, stdout: &str, stderr: &str) -> Spawned {
    Spawned::Finished(RawOutput {
        code: Some(code),
        status: format!("exit status: {code}"),
        stdout: stdout.as_bytes().to_vec(),
        stderr: stderr.as_bytes().to_vec(),
    })
}

fn repo() -> Jujutsu {
    Jujutsu::new("/repo".to_owned(), Ok(())).expect("jj instance")
}

#[test]
fn bookmark_parsing() -> Result<(), Error> {
    let bookmark = "test-feature@origin".parse::<BookmarkInfo>()?;
    match bookmark {
        BookmarkInfo::Remote { name, remote } => {
            assert_eq!(name, "test-feature");
            assert_eq!(remote, "origin");
        }
        BookmarkInfo::Local { .. } => panic!("Expected remote bookmark"),
    }

    let bookmark = "test-feature".parse::<BookmarkInfo>()?;
    match bookmark {
        BookmarkInfo::Local { name, remote_different_from_local, tracks_remote } => {
            assert_eq!(name, "test-feature");
            assert!(!remote_different_from_local);
            assert!(!tracks_remote);
        }
        BookmarkInfo::Remote { .. } => panic!("Expected local bookmark"),
    }

    let bookmark = "test-feature*".parse::<BookmarkInfo>()?;
    match bookmark {
        BookmarkInfo::Local { name, remote_different_from_local, tracks_remote } => {
            assert_eq!(name, "test-feature");
            assert!(remote_different_from_local);
            assert!(!tracks_remote);
        }
        BookmarkInfo::Remote { .. } => panic!("Expected local bookmark"),
    }

    Ok(())
}

#[test]
fn bookmark_names() {
    let err = "".parse::<BookmarkInfo>().unwrap_err();
    assert!(matches!(&err, Error::Parse { .. }));
    assert_eq!(err.to_string(), "Empty bookmark name");
    let remote = "a@b@origin*".parse::<BookmarkInfo>().unwrap();
    assert_eq!(remote.name(), "a@b");
    assert_eq!(remote.full_name(), "a@b@origin");
    assert!(remote.is_remote() && !remote.is_local() && !remote.is_tracked());
    assert_eq!(remote.full_name().parse::<BookmarkInfo>().unwrap(), remote);
    let plain = "feature/x".parse::<BookmarkInfo>().unwrap();
    assert_eq!(plain.full_name(), "feature/x");
    assert!(plain.is_local() && !plain.is_tracked());
    let local = "x**".parse::<BookmarkInfo>().unwrap();
    assert_eq!(local.full_name(), "x");
    assert!(local.is_local() && !local.is_remote());
}

#[test]
fn build_push_argv_appends_remote_and_bookmark_flags() {
    let cases: [(&str, &[&str], Option<&str>, &[&str], &[&str]); 6] = [
        (
            "default command gets --remote and --bookmark",
            &["jj", "git", "push"],
            Some("origin"),
            &["feat-a"],
            &["jj", "git", "push", "--remote", "origin", "--bookmark", "feat-a"],
        ),
        (
            "jj-hp gate command gets the identical flags",
            &["jj-hp", "push"],
            Some("origin"),
            &["feat-a"],
            &["jj-hp", "push", "--remote", "origin", "--bookmark", "feat-a"],
        ),
        (
            "each bookmark gets its own --bookmark pair, in order",
            &["jj", "git", "push"],
            Some("origin"),
            &["feat-a", "feat-b", "feat-c"],
            &[
                "jj", "git", "push", "--remote", "origin", "--bookmark", "feat-a", "--bookmark",
                "feat-b", "--bookmark", "feat-c",
            ],
        ),
        (
            "no remote omits the --remote flag but keeps bookmarks",
            &["jj", "git", "push"],
            None,
            &["feat-a"],
            &["jj", "git", "push", "--bookmark", "feat-a"],
        ),
        (
            "empty bookmarks yields just the command plus remote",
            &["jj", "git", "push"],
            Some("origin"),
            &[],
            &["jj", "git", "push", "--remote", "origin"],
        ),
        (
            "no remote and no bookmarks yields the bare command",
            &["jj-hp", "push"],
            None,
            &[],
            &["jj-hp", "push"],
        ),
    ];

    for (name, push_argv, remote, bookmarks, expected) in cases {
        let got = build_push_argv(&argv(push_argv), remote, &argv(bookmarks));
        assert_eq!(got, argv(expected), "case: {name}");
    }
}

#[test]
fn build_push_create_argv_appends_remote_and_change_flags() {
    let cases: [(&str, &[&str], Option<&str>, &[&str], &[&str]); 5] = [
        (
            "default command gets --remote and -c",
            &["jj", "git", "push"],
            Some("origin"),
            &["qpvuntsm"],
            &["jj", "git", "push", "--remote", "origin", "-c", "qpvuntsm"],
        ),
        (
            "jj-hp gate command gets the identical -c flags",
            &["jj-hp", "push"],
            Some("origin"),
            &["qpvuntsm"],
            &["jj-hp", "push", "--remote", "origin", "-c", "qpvuntsm"],
        ),
        (
            "each change gets its own -c pair, in order",
            &["jj", "git", "push"],
            Some("origin"),
            &["qpvuntsm", "kkmpptxz", "zzzzzzzz"],
            &[
                "jj", "git", "push", "--remote", "origin", "-c", "qpvuntsm", "-c", "kkmpptxz",
                "-c", "zzzzzzzz",
            ],
        ),
        (
            "no remote omits the --remote flag but keeps changes",
            &["jj", "git", "push"],
            None,
            &["qpvuntsm"],
            &["jj", "git", "push", "-c", "qpvuntsm"],
        ),
        (
            "empty changes yields just the command plus remote",
            &["jj-hp", "push"],
            Some("origin"),
            &[],
            &["jj-hp", "push", "--remote", "origin"],
        ),
    ];

    for (name, push_argv, remote, change_ids, expected) in cases {
        let got = build_push_create_argv(&argv(push_argv), remote, &argv(change_ids));
        assert_eq!(got, argv(expected), "case: {name}");
    }
}

#[test]
fn exec_argv_rejects_empty_argv() {
    let jj = repo();

    let err = jj.exec_argv(&vec![], ran(0, "", "")).unwrap_err().to_string();

    assert!(
        err.contains("push command must not be empty"),
        "unexpected error: {err}"
    );
}

#[test]
fn commands_report_what_became_of_them() {
    let err = Jujutsu::new("/x".to_owned(), Err("no path".to_owned())).unwrap_err();
    assert_eq!(err.to_string(), "jj binary not found in PATH: no path");
    let mut jj = repo();
    assert_eq!(jj.cwd(), "/repo");
    assert_eq!(jj.exec_count(), 0);
    let out = jj.exec(&argv(&["log"]), ran(0, "out", "err")).unwrap();
    assert_eq!((out.stdout.as_str(), out.stderr.as_str()), ("out", "err"));
    assert_eq!(jj.exec_count(), 1);
    let err = jj.exec(&argv(&["log", "-r", "x"]), ran(1, "", "boom")).unwrap_err();
    assert_eq!(err.to_string(), "jj log -r x failed: boom");
    match err {
        Error::JjCommand { output: Some(left), .. } => {
            assert_eq!(left.code, Some(1));
            assert_eq!(left.stderr, b"boom".to_vec());
        }
        other => panic!("must be an error of the command, got: {other:?}"),
    }
    assert_eq!(jj.exec_count(), 2);
    let err = jj.exec(&argv(&["x"]), Spawned::Failed { reason: "io".to_owned() }).unwrap_err();
    assert!(matches!(err, Error::Io { .. }));
    let err = jj.exec(&argv(&["x"]), Spawned::NotFound { reason: "gone".to_owned() }).unwrap_err();
    assert!(matches!(err, Error::Config { .. }));
    let err = jj
        .exec_argv(&argv(&["jj-hp", "push"]), Spawned::NotFound { reason: "gone".to_owned() })
        .unwrap_err();
    assert_eq!(err.to_string(), "push command binary `jj-hp` not found in PATH: gone");
    let err = jj.exec_argv(&argv(&["jj-hp", "push"]), ran(2, "", "no")).unwrap_err();
    assert_eq!(err.to_string(), "jj-hp push failed: no");
    assert_eq!(jj.exec_count(), 4);
}

#[test]
fn output_that_is_not_text_is_replaced() {
    let mut jj = repo();
    let spawned = Spawned::Finished(RawOutput {
        code: Some(0),
        status: "exit status: 0".to_owned(),
        stdout: vec![b'a', 0xff, b'b'],
        stderr: vec![],
    });
    assert_eq!(jj.exec(&argv(&["x"]), spawned).unwrap().stdout, "a\u{fffd}b");
}

#[test]
fn pushes_say_whether_anything_changed() {
    let jj = repo();
    let names = argv(&["a"]);
    let push = argv(&["jj", "git", "push"]);
    assert_eq!(jj.push_bookmarks(&names, Some("origin"), &push, ran(0, "", "ok")), Ok(true));
    assert_eq!(
        jj.push_bookmarks(&names, Some("origin"), &push, ran(0, "", "Nothing changed.\n")),
        Ok(false)
    );
    assert_eq!(jj.pushed(&push, ran(0, "", "ok")), Ok(true));
    assert_eq!(jj.pushed(&push, ran(0, "", "Nothing changed.\n")), Ok(false));
    let err = jj.pushed(&push, ran(1, "", "denied")).unwrap_err();
    assert_eq!(err.to_string(), "jj git push failed: denied");
    let err = jj.push_bookmarks(&names, None, &push, ran(1, "", "denied")).unwrap_err();
    assert_eq!(err.to_string(), "jj git push --bookmark a failed: denied");
    assert_eq!(jj.push_changes_create(&names, None, &push, ran(0, "", "")), Ok(()));
    let err = jj.push_changes_create(&names, Some("o"), &push, ran(1, "", "denied")).unwrap_err();
    assert_eq!(err.to_string(), "jj git push --remote o -c a failed: denied");
}

#[test]
fn remotes_and_bookmarks_are_listed() {
    let mut jj = repo();
    assert_eq!(
        jj.list_remotes(ran(0, "origin x\n \nfork y\n", "")).unwrap(),
        argv(&["origin x", "fork y"])
    );
    assert_eq!(jj.remote_bookmark_exists("a", None, ran(0, "x", "")), Ok(true));
    assert_eq!(jj.remote_bookmark_exists("a", None, ran(0, "", "")), Ok(false));
    assert_eq!(
        remote_bookmark_args("a", None),
        argv(&["bookmark", "list", "--remote", "origin", "a"])
    );
    assert_eq!(
        track_args(&argv(&["a", "b"]), Some("up")),
        argv(&["bookmark", "track", "--remote", "up", "a", "b"])
    );
    let err = jj.track_bookmarks(&argv(&["a"]), None, ran(1, "", "no")).unwrap_err();
    assert_eq!(err.to_string(), "jj bookmark track --remote origin a failed: no");
    assert!(jj.track_bookmarks(&argv(&["a"]), None, ran(0, "", "")).is_ok());
}

// ---------------------------------------------------------------------------
// Logs
// ---------------------------------------------------------------------------
fn author() -> JJAuthor {
    JJAuthor {
        name: "n".to_owned(),
        email: "e".to_owned(),
        timestamp: "t".to_owned(),
    }
}

fn commit(id: &str) -> JJCommit {
    JJCommit {
        commit_id: format!("c{id}"),
        parents: argv(&["p"]),
        change_id: id.to_owned(),
        description: "d\n".to_owned(),
        author: author(),
        committer: author(),
    }
}

fn bookmark(name: &str, target: &[&str]) -> JJBookmark {
    JJBookmark {
        name: name.to_owned(),
        remote: None,
        target: target.iter().map(|t| Some((*t).to_owned())).collect(),
        tracking_target: None,
    }
}

#[test]
fn log_template_has_a_line_for_each_part() {
    let args = log_args("trunk()");
    assert_eq!(args[..5], argv(&["log", "-r", "trunk()", "--no-graph", "--template"])[..]);
    assert_eq!(
        args[5],
        r#"json(self) ++ "\n" ++ json(remote_bookmarks.filter(|b| b.tracked() && b.remote() != "git")) ++ "\n" ++ json(local_bookmarks)++ "\n""#
    );
    assert_eq!(
        trunk_alias_args(),
        argv(&["config", "get", r#"revset-aliases."trunk()""#])
    );
}

#[test]
fn log_records_are_three_lines_each() {
    let records = log_records("a\nb\n\nc\nd\r\n  \ne\n");
    assert_eq!(records.len(), 2);
    assert!(matches!(&records[0], LogRecord::Change { commit, remote_tracked, local }
        if commit == "a" && remote_tracked == "b" && local == "c"));
    assert!(matches!(&records[1], LogRecord::Partial { lines } if *lines == argv(&["d", "e"])));
    assert!(log_records("\n \n").is_empty());
}

#[test]
fn log_gives_changes_in_order() {
    let records = log_records("1\n2\n3\n4\n5\n6\n");
    let decoded = vec![
        Ok(DecodedRecord {
            commit: commit("x"),
            remote_tracked: vec![bookmark("a", &["1"]), bookmark("b", &["2"])],
            local: vec![bookmark("a", &["1"]), bookmark("b", &["3"]), bookmark("c", &["4"])],
        }),
        Ok(DecodedRecord { commit: commit("y"), remote_tracked: vec![], local: vec![] }),
    ];
    let changes = Jujutsu::log(&records, decoded).unwrap();
    assert_eq!(changes.len(), 2);
    assert_eq!(changes[0].commit_id, "cx");
    assert_eq!(changes[0].parent_commit_ids, argv(&["p"]));
    assert!(!changes[0].pending_bookmark);
    let local = |name: &str, differs: bool, follows: bool| BookmarkInfo::Local {
        name: name.to_owned(),
        remote_different_from_local: differs,
        tracks_remote: follows,
    };
    assert_eq!(
        changes[0].bookmarks,
        vec![local("a", false, true), local("b", true, true), local("c", false, false)]
    );
    assert_eq!(changes[1].change_id, "y");
    assert_eq!(Jujutsu::count_revset(Ok(changes.clone())), Ok(2));
    assert_eq!(Jujutsu::any_in_revset(Ok(changes)), Ok(true));
    assert_eq!(Jujutsu::any_in_revset(Ok(vec![])), Ok(false));
}

#[test]
fn log_stops_at_the_first_error() {
    let bad = || Error::Parse { message: "bad json".to_owned() };
    let records = log_records("1\n2\n3\n4\n");
    assert_eq!(Jujutsu::log(&records, vec![Err(bad())]).unwrap_err(), bad());
    let good = DecodedRecord { commit: commit("x"), remote_tracked: vec![], local: vec![] };
    let err = Jujutsu::log(&records, vec![Ok(good)]).unwrap_err();
    assert_eq!(err.to_string(), "Failed to parse change line from jj: [\"4\"]");
    let records = log_records("x\"y\nz\n");
    let err = Jujutsu::log(&records, vec![]).unwrap_err();
    assert_eq!(err.to_string(), "Failed to parse change line from jj: [\"x\\\"y\", \"z\"]");
}

#[test]
fn pending_changes_are_marked() {
    let mut pending = TextSet::new();
    pending.insert("b".to_owned());
    let changes = vec![Change::mock_from_change_id("a"), Change::mock_from_change_id("b")];
    let marked = Jujutsu::log_with_pending_bookmarks(changes, &pending);
    assert!(!marked[0].pending_bookmark);
    assert!(marked[1].pending_bookmark);
}

// ---------------------------------------------------------------------------
// The default branch
// ---------------------------------------------------------------------------
fn trunk(names: &[&str]) -> Result<Vec<Change>, Error> {
    Ok(vec![Change::mock_from_change_id("t").with_mock_bookmarks(names.to_vec())])
}

#[test]
fn default_branch_by_bookmark() {
    assert_eq!(repo().default_branch(trunk(&["dev"]), None), Ok("dev".to_owned()));
    let none = repo().default_branch(trunk(&[]), None).unwrap_err();
    assert!(matches!(&none, Error::Other { .. }));
    assert!(none.to_string().contains("no bookmarks"));
    let many = repo().default_branch(Ok(vec![]), None).unwrap_err();
    assert_eq!(many.to_string(), "trunk() returned multiple commits!");
    let failed = Err(Error::Io { message: "x".to_owned() });
    let failed = repo().default_branch(failed, None).unwrap_err();
    assert_eq!(failed, Error::Other { message: "x".to_owned() });
}

#[test]
fn default_branch_by_alias_and_usual_names() {
    assert!(Jujutsu::needs_trunk_alias(&trunk(&["a", "b"])));
    assert!(!Jujutsu::needs_trunk_alias(&trunk(&["a"])));
    assert_eq!(
        repo().default_branch(trunk(&["a", "b"]), Some("dev@origin\n".to_owned())),
        Ok("dev".to_owned())
    );
    let blank = || Some(" \n".to_owned());
    assert_eq!(
        repo().default_branch(trunk(&["trunk", "master"]), blank()),
        Ok("master".to_owned())
    );
    let none = repo().default_branch(trunk(&["a", "b"]), blank()).unwrap_err();
    assert!(none.to_string().starts_with("Could not identify the default branch name."));
    assert_eq!(
        repo().default_branch(trunk(&["trunk", "master"]), None),
        Ok("master".to_owned())
    );
    let err = repo().default_branch(trunk(&["a", "b"]), None).unwrap_err();
    assert!(err.to_string().starts_with("Could not identify the default branch name."));
}

#[test]
fn default_branch_is_remembered() {
    let mut jj = repo();
    assert!(jj.known_default_branch().is_none());
    assert_eq!(jj.default_branch(trunk(&["dev"]), None), Ok("dev".to_owned()));
    assert_eq!(jj.default_branch(trunk(&["other"]), None), Ok("dev".to_owned()));
    assert_eq!(jj.known_default_branch(), Some(Ok("dev".to_owned())));
}

// ---------------------------------------------------------------------------
// Changes
// ---------------------------------------------------------------------------
#[test]
fn descriptions() {
    let mut change = Change::mock_from_change_id("abcdefghij");
    change.description = " Title \r\n\r\nBody\nmore\n".to_owned();
    assert_eq!(change.description_first_line(), "Title");
    assert_eq!(change.description_first_line_quoted_or_empty(), "\"Title\"");
    assert_eq!(change.description_not_first_line(), "Body\nmore");
    assert_eq!(change.change_id_short(), "abcdefgh");
    change.description = String::new();
    assert_eq!(change.description_first_line(), "");
    assert_eq!(
        change.description_first_line_quoted_or_empty(),
        "\u{1b}[33m(no description set)\u{1b}[39m"
    );
    change.description = "only\u{3000}".to_owned();
    assert_eq!(change.description_first_line(), "only");
    assert_eq!(change.description_not_first_line(), "");
}

#[test]
fn pending_bookmarks_become_real() {
    let mut change = Change::mock_from_change_id("x");
    change.pending_bookmark = true;
    change.solidify_bookmark("feature");
    assert!(!change.pending_bookmark);
    assert!(change.bookmarks[0].is_tracked());
    assert_eq!(change.bookmarks[0].name(), "feature");
}

#[test]
fn change_maps() {
    let mut map = ChangeMap::default();
    map.insert(Change::mock_from_bookmark("b"));
    map.insert(Change::mock_from_bookmark("a").with_mock_bookmarks(vec!["a", "z"]));
    assert_eq!(map.len(), 2);
    let found = map.get_bookmark("z").unwrap();
    assert_eq!(found.change.commit_id, "commit_a");
    assert!(map.get_bookmark("nope").is_none());
    let bookmarks = map.create_bookmark_map();
    assert_eq!(bookmarks.len(), 3);
    assert_eq!(bookmarks.get("b").unwrap().change.commit_id, "commit_b");
    assert_eq!(map.get("commit_a").unwrap().bookmarks.len(), 2);
}

#[test]
fn made_up_stacks_are_chained() {
    let stack = Change::mock_stack(vec![
        Change::mock_from_change_id("a"),
        Change::mock_from_change_id("b").with_mock_parent_commit_ids(vec!["commit_a", "x"]),
        Change::mock_from_change_id("c").with_mock_parent_bookmarks(vec!["y"]),
    ]);
    assert!(stack[0].parent_commit_ids.is_empty());
    assert_eq!(stack[1].parent_commit_ids, argv(&["commit_a", "x"]));
    assert_eq!(stack[2].parent_commit_ids, argv(&["commit_y", "commit_b"]));
}

/// Many merges below a bookmark are walked once each.
#[test]
fn merge_ladders_are_walked_once() {
    let mut map = ChangeMap::new();
    map.insert(Change::mock_from_bookmark("base"));
    let mut below = "commit_base".to_owned();
    for i in 0..60 {
        let left = format!("l{i}");
        let right = format!("r{i}");
        let merge = format!("m{i}");
        map.insert(Change::mock_from_change_id(&left).with_mock_parent_commit_ids(vec![&below]));
        map.insert(Change::mock_from_change_id(&right).with_mock_parent_commit_ids(vec![&below]));
        let (l, r) = (format!("commit_{left}"), format!("commit_{right}"));
        map.insert(Change::mock_from_change_id(&merge).with_mock_parent_commit_ids(vec![&l, &r]));
        below = format!("commit_{merge}");
    }
    map.insert(Change::mock_from_bookmark("leaf").with_mock_parent_commit_ids(vec![&below]));
    let adjacency = map.create_adjacency_list();
    assert!(adjacency.get("leaf").unwrap().contains("base"));
    assert_eq!(adjacency.get("leaf").unwrap().len(), 1);
}
