//! The `jj` command: what to run, and what its answers mean.
//!
//! Nothing here runs a command. For each operation there are the arguments to run, and a
//! function that takes what became of the run.
use crate::bytes;
use crate::error;
use crate::error::Error;
use crate::jj;
use crate::jj::{BookmarkInfo, BookmarkView, Change, ChangeView};
use crate::process::{RawOutput, Spawned};
use crate::text;
use crate::text_set::TextSet;
use vstd::prelude::*;

verus! {

// ---------------------------------------------------------------------------
// Push commands
// ---------------------------------------------------------------------------
/// A flag before each value.
pub open spec fn flagged(flag: Seq<char>, values: Seq<Seq<char>>) -> Seq<Seq<char>>
    decreases values.len(),
{
    if values.len() == 0 {
        Seq::empty()
    } else {
        flagged(flag, values.drop_last()).push(flag).push(values.last())
    }
}

/// The flag that names the remote.
pub open spec fn remote_flag(remote: Option<Seq<char>>) -> Seq<Seq<char>> {
    match remote {
        Some(remote) => seq!["--remote"@, remote],
        None => Seq::empty(),
    }
}

/// A push command with the remote and a flag for each value.
pub open spec fn push_command(
    push_argv: Seq<Seq<char>>,
    remote: Option<Seq<char>>,
    flag: Seq<char>,
    values: Seq<Seq<char>>,
) -> Seq<Seq<char>> {
    push_argv + remote_flag(remote) + flagged(flag, values)
}

fn build_argv(
    push_argv: &Vec<String>,
    remote: Option<&str>,
    flag: &str,
    values: &Vec<String>,
) -> (r: Vec<String>)
    ensures
        text::texts(r@) == push_command(
            text::texts(push_argv@),
            text::opt_slice(remote),
            flag@,
            text::texts(values@),
        ),
{
    let mut args = text::clone_strings(push_argv);
    let ghost base = text::texts(args@);
    if let Some(remote) = remote {
        args.push("--remote".to_owned());
        args.push(remote.to_owned());
    }
    let ghost head = base + remote_flag(text::opt_slice(remote));
    assert(text::texts(args@) =~= head);
    let ghost all = text::texts(values@);
    let n = values.len();
    let mut i: usize = 0;
    assert(all.take(0) =~= Seq::<Seq<char>>::empty());
    assert(head + flagged(flag@, all.take(0)) =~= head);
    while i < n
        invariant
            n == values@.len(),
            i <= n,
            all == text::texts(values@),
            text::texts(args@) == head + flagged(flag@, all.take(i as int)),
        decreases n - i,
    {
        let ghost before = text::texts(args@);
        args.push(flag.to_owned());
        args.push(values[i].clone());
        proof {
            assert(text::texts(args@) =~= before.push(flag@).push(all[i as int]));
            assert(all.take(i + 1).drop_last() == all.take(i as int));
            assert(all.take(i + 1).last() == all[i as int]);
            let done = flagged(flag@, all.take(i as int));
            assert(before.push(flag@).push(all[i as int]) =~= head + done.push(flag@).push(
                all[i as int],
            ));
        }
        i += 1;
    }
    assert(all.take(n as int) == all);
    args
}

/// The command that pushes bookmarks: the push command, the remote, and a flag for each
/// bookmark.
pub fn build_push_argv(
    push_argv: &Vec<String>,
    remote: Option<&str>,
    bookmarks: &Vec<String>,
) -> (r: Vec<String>)
    ensures
        text::texts(r@) == push_command(
            text::texts(push_argv@),
            text::opt_slice(remote),
            "--bookmark"@,
            text::texts(bookmarks@),
        ),
{
    build_argv(push_argv, remote, "--bookmark", bookmarks)
}

/// The command that creates bookmarks and pushes them: the push command, the remote, and a
/// flag for each change.
pub fn build_push_create_argv(
    push_argv: &Vec<String>,
    remote: Option<&str>,
    change_ids: &Vec<String>,
) -> (r: Vec<String>)
    ensures
        text::texts(r@) == push_command(
            text::texts(push_argv@),
            text::opt_slice(remote),
            "-c"@,
            text::texts(change_ids@),
        ),
{
    build_argv(push_argv, remote, "-c", change_ids)
}

/// Whatever command pushes, it gets the same flags: a push that goes through another command
/// differs from the built-in one in the command alone.
pub proof fn push_flags_do_not_depend_on_the_command(
    a: Seq<Seq<char>>,
    b: Seq<Seq<char>>,
    remote: Option<Seq<char>>,
    flag: Seq<char>,
    values: Seq<Seq<char>>,
)
    ensures
        push_command(a, remote, flag, values).skip(a.len() as int) == push_command(
            b,
            remote,
            flag,
            values,
        ).skip(b.len() as int),
        push_command(a, remote, flag, values).take(a.len() as int) == a,
{
    let flags = remote_flag(remote) + flagged(flag, values);
    assert(push_command(a, remote, flag, values) =~= a + flags);
    assert(push_command(b, remote, flag, values) =~= b + flags);
    assert((a + flags).skip(a.len() as int) =~= flags);
    assert((b + flags).skip(b.len() as int) =~= flags);
    assert((a + flags).take(a.len() as int) =~= a);
}

/// Every value of a push has a flag of its own right before it, in the order of the values.
pub proof fn every_value_has_its_flag(flag: Seq<char>, values: Seq<Seq<char>>, i: int)
    requires
        0 <= i < values.len(),
    ensures
        flagged(flag, values).len() == 2 * values.len(),
        flagged(flag, values)[2 * i] == flag,
        flagged(flag, values)[2 * i + 1] == values[i],
    decreases values.len(),
{
    let shorter = values.drop_last();
    if i < shorter.len() {
        every_value_has_its_flag(flag, shorter, i);
    } else {
        lemma_flagged_len(flag, shorter);
    }
}

proof fn lemma_flagged_len(flag: Seq<char>, values: Seq<Seq<char>>)
    ensures
        flagged(flag, values).len() == 2 * values.len(),
    decreases values.len(),
{
    if values.len() > 0 {
        lemma_flagged_len(flag, values.drop_last());
    }
}

// ---------------------------------------------------------------------------
// Running commands
// ---------------------------------------------------------------------------
/// What a command that succeeded printed.
#[derive(Debug, Clone)]
pub struct CommandOutput {
    /// The exit status as the platform words it.
    pub status: String,
    pub stdout: String,
    pub stderr: String,
}

/// The `jj` command in one repository.
#[derive(Debug)]
pub struct Jujutsu {
    /// The directory to run all commands from.
    cwd: String,
    /// The default branch, or the text of the error, once it has been determined.
    default_branch: Option<Result<String, String>>,
    /// How many `jj` commands have been run.
    exec_count: usize,
}

/// What is known of the default branch.
pub open spec fn known_branch(
    known: Option<Result<String, String>>,
) -> Option<Result<Seq<char>, Seq<char>>> {
    match known {
        Some(Ok(name)) => Some(Ok(name@)),
        Some(Err(message)) => Some(Err(message@)),
        None => None,
    }
}

/// `r` is the output of a command that succeeded, or says that it failed and what it left
/// behind.
pub open spec fn command_result(
    r: Result<CommandOutput, Error>,
    output: RawOutput,
    command: Seq<char>,
) -> bool {
    if output.ok() {
        r matches Ok(o) && o.status@ == output.status@ && o.stdout@ == bytes::lossy_text(
            output.stdout@,
        ) && o.stderr@ == bytes::lossy_text(output.stderr@)
    } else {
        error::jj_error(
            r,
            command + " failed: "@ + bytes::lossy_text(output.stderr@),
            output,
        )
    }
}

/// `r` is what a `jj` command with these arguments gives.
pub open spec fn jj_result(
    r: Result<CommandOutput, Error>,
    args: Seq<Seq<char>>,
    spawned: Spawned,
) -> bool {
    match spawned {
        Spawned::NotFound { reason } => error::config_error(
            r,
            "jj binary not found in PATH: "@ + reason@,
        ),
        Spawned::Failed { reason } => error::io_error(r, reason@),
        Spawned::TimedOut => true,
        Spawned::Finished(output) => command_result(
            r,
            output,
            "jj "@ + text::joined(args, " "@),
        ),
    }
}

/// `r` is what a command gives that need not be `jj`.
pub open spec fn argv_result(
    r: Result<CommandOutput, Error>,
    argv: Seq<Seq<char>>,
    spawned: Spawned,
) -> bool {
    if argv.len() == 0 {
        error::config_error(r, "push command must not be empty"@)
    } else {
        match spawned {
            Spawned::NotFound { reason } => error::config_error(
                r,
                "push command binary `"@ + argv[0] + "` not found in PATH: "@ + reason@,
            ),
            Spawned::Failed { reason } => error::io_error(r, reason@),
            Spawned::TimedOut => true,
            Spawned::Finished(output) => command_result(r, output, text::joined(argv, " "@)),
        }
    }
}

/// What a command that ran to its end gives.
fn read_output(output: RawOutput, command: String) -> (r: Result<CommandOutput, Error>)
    ensures
        command_result(r, output, command@),
{
    let stderr = bytes::from_utf8_lossy(&output.stderr);
    if !output.success() {
        return Err(
            Error::JjCommand {
                message: command.concat(" failed: ").concat(stderr.as_str()),
                output: Some(output),
            },
        );
    }
    let stdout = bytes::from_utf8_lossy(&output.stdout);
    Ok(CommandOutput { status: output.status, stdout, stderr })
}

impl Jujutsu {
    /// The directory to run all commands from.
    pub closed spec fn dir(self) -> Seq<char> {
        self.cwd@
    }

    /// How many `jj` commands have been run.
    pub closed spec fn count(self) -> usize {
        self.exec_count
    }

    /// The default branch, once it has been determined.
    pub closed spec fn branch(self) -> Option<Result<Seq<char>, Seq<char>>> {
        known_branch(self.default_branch)
    }

    /// The `jj` command in a directory. `found` says whether the binary is on the search
    /// path.
    pub fn new(cwd: String, found: Result<(), String>) -> (r: Result<Jujutsu, Error>)
        ensures
            found is Ok ==> (r matches Ok(j) && j.dir() == cwd@ && j.count() == 0
                && j.branch() is None),
            found matches Err(reason) ==> error::config_error(
                r,
                "jj binary not found in PATH: "@ + reason@,
            ),
    {
        match found {
            Ok(()) => Ok(Jujutsu { cwd, default_branch: None, exec_count: 0 }),
            Err(reason) => Err(
                Error::Config {
                    message: "jj binary not found in PATH: ".to_owned().concat(reason.as_str()),
                },
            ),
        }
    }

    /// The directory to run all commands from.
    pub fn cwd(&self) -> (r: &str)
        ensures
            r@ == self.dir(),
    {
        self.cwd.as_str()
    }

    /// How many `jj` commands have been run. The count wraps around.
    pub fn exec_count(&self) -> (r: usize)
        ensures
            r == self.count(),
    {
        self.exec_count
    }

    /// What a `jj` command with these arguments gives.
    pub fn exec(&mut self, args: &Vec<String>, spawned: Spawned) -> (r: Result<CommandOutput, Error>)
        requires
            !(spawned is TimedOut),
        ensures
            final(self).dir() == old(self).dir(),
            final(self).branch() == old(self).branch(),
            final(self).count() == old(self).count().wrapping_add(1),
            jj_result(r, text::texts(args@), spawned),
    {
        self.exec_count = self.exec_count.wrapping_add(1);
        match spawned {
            Spawned::NotFound { reason } => Err(
                Error::Config {
                    message: "jj binary not found in PATH: ".to_owned().concat(reason.as_str()),
                },
            ),
            Spawned::Failed { reason } => Err(Error::Io { message: reason }),
            Spawned::TimedOut => Err(Error::Io { message: String::new() }),
            Spawned::Finished(output) => read_output(
                output,
                "jj ".to_owned().concat(text::join(args, " ").as_str()),
            ),
        }
    }

    /// What a command gives that need not be `jj`. The first element is the binary.
    pub fn exec_argv(&self, argv: &Vec<String>, spawned: Spawned) -> (r: Result<
        CommandOutput,
        Error,
    >)
        requires
            !(spawned is TimedOut),
        ensures
            argv_result(r, text::texts(argv@), spawned),
    {
        if argv.len() == 0 {
            return Err(Error::Config { message: "push command must not be empty".to_owned() });
        }
        assert(text::texts(argv@)[0] == argv@[0]@);
        match spawned {
            Spawned::NotFound { reason } => Err(
                Error::Config {
                    message: "push command binary `".to_owned().concat(argv[0].as_str()).concat(
                        "` not found in PATH: ",
                    ).concat(reason.as_str()),
                },
            ),
            Spawned::Failed { reason } => Err(Error::Io { message: reason }),
            Spawned::TimedOut => Err(Error::Io { message: String::new() }),
            Spawned::Finished(output) => read_output(output, text::join(argv, " ")),
        }
    }
}

// ---------------------------------------------------------------------------
// Logs
// ---------------------------------------------------------------------------
/// A commit, as `jj` writes it.
#[derive(Debug, Clone, PartialEq, Eq, Hash)]
pub struct JJCommit {
    pub commit_id: String,
    pub parents: Vec<String>,
    pub change_id: String,
    pub description: String,
    pub author: JJAuthor,
    pub committer: JJAuthor,
}

/// The author of a commit, as `jj` writes it.
#[derive(Debug, Clone, PartialEq, Eq, Hash)]
pub struct JJAuthor {
    pub name: String,
    pub email: String,
    pub timestamp: String,
}

/// A bookmark, as `jj` writes it.
#[derive(Debug, Clone, PartialEq, Eq, Hash)]
pub struct JJBookmark {
    pub name: String,
    pub remote: Option<String>,
    pub target: Vec<Option<String>>,
    pub tracking_target: Option<Vec<Option<String>>>,
}

/// The template of a log: for each change a line with the commit, one with the tracked
/// remote bookmarks, and one with the local bookmarks.
pub open spec fn log_template() -> Seq<char> {
    "json(self) ++ \"\\n\" ++ json(remote_bookmarks.filter(|b| b.tracked() && b.remote() != \"git\")) ++ \"\\n\" ++ json(local_bookmarks)++ \"\\n\""@
}

/// The arguments of a log.
pub open spec fn log_command(revset: Seq<char>) -> Seq<Seq<char>> {
    seq!["log"@, "-r"@, revset, "--no-graph"@, "--template"@, log_template()]
}

/// One record of a log.
#[derive(Debug)]
pub enum LogRecord {
    /// The three lines of a change.
    Change { commit: String, remote_tracked: String, local: String },
    /// The lines at the end, where they are too few for a change.
    Partial { lines: Vec<String> },
}

/// What a [`LogRecord`] says.
pub enum RecordView {
    Change { commit: Seq<char>, remote_tracked: Seq<char>, local: Seq<char> },
    Partial { lines: Seq<Seq<char>> },
}

impl View for LogRecord {
    type V = RecordView;

    open spec fn view(&self) -> RecordView {
        match self {
            LogRecord::Change { commit, remote_tracked, local } => RecordView::Change {
                commit: commit@,
                remote_tracked: remote_tracked@,
                local: local@,
            },
            LogRecord::Partial { lines } => RecordView::Partial { lines: text::texts(lines@) },
        }
    }
}

/// What a list of records says.
pub open spec fn record_views(v: Seq<LogRecord>) -> Seq<RecordView> {
    Seq::new(v.len(), |i: int| v[i]@)
}

/// The lines that are not blank.
pub open spec fn filled_lines(s: Seq<char>) -> Seq<Seq<char>> {
    text::lines(s).filter(|line: Seq<char>| text::trim(line).len() > 0)
}

/// The records of a list of lines, three lines each.
pub open spec fn records(lines: Seq<Seq<char>>) -> Seq<RecordView>
    decreases lines.len(),
{
    if lines.len() == 0 {
        Seq::empty()
    } else if lines.len() < 3 {
        seq![RecordView::Partial { lines }]
    } else {
        seq![
            RecordView::Change { commit: lines[0], remote_tracked: lines[1], local: lines[2] },
        ] + records(lines.skip(3))
    }
}

/// The lines of a record.
pub open spec fn record_lines(r: RecordView) -> Seq<Seq<char>> {
    match r {
        RecordView::Change { commit, remote_tracked, local } => seq![commit, remote_tracked, local],
        RecordView::Partial { lines } => lines,
    }
}

/// The lines of a list of records.
pub open spec fn all_lines(list: Seq<RecordView>) -> Seq<Seq<char>>
    decreases list.len(),
{
    if list.len() == 0 {
        Seq::empty()
    } else {
        record_lines(list[0]) + all_lines(list.skip(1))
    }
}

/// Every line of a log is in one record, in order. The last record is partial exactly where the
/// lines do not come out even, and no other is.
pub proof fn records_keep_every_line(lines: Seq<Seq<char>>)
    ensures
        all_lines(records(lines)) == lines,
        forall|i: int| 0 <= i < records(lines).len() - 1 ==> #[trigger] records(lines)[i] is Change,
        lines.len() > 0 ==> records(lines).len() > 0,
        records(lines).len() > 0 ==> (records(lines).last() is Partial <==> lines.len() % 3 != 0),
    decreases lines.len(),
{
    if lines.len() == 0 {
    } else if lines.len() < 3 {
        let last = RecordView::Partial { lines };
        let one = seq![last];
        assert(one.skip(1) =~= Seq::<RecordView>::empty());
        assert(all_lines(one.skip(1)) == Seq::<Seq<char>>::empty());
        assert(record_lines(one[0]) + Seq::<Seq<char>>::empty() =~= lines);
    } else {
        let rest = lines.skip(3);
        records_keep_every_line(rest);
        let first = RecordView::Change {
            commit: lines[0],
            remote_tracked: lines[1],
            local: lines[2],
        };
        let all = records(lines);
        assert(all == seq![first] + records(rest));
        assert(all.skip(1) =~= records(rest));
        assert(record_lines(first) + rest =~= lines);
        assert forall|i: int| 0 <= i < all.len() - 1 implies #[trigger] all[i] is Change by {
            if i > 0 {
                assert(all[i] == records(rest)[i - 1]);
            }
        }
        if rest.len() == 0 {
            assert(records(rest).len() == 0);
            assert(all.last() == first);
        } else {
            assert(all.last() == records(rest).last());
        }
    }
}

/// The arguments of a log.
pub fn log_args(revset: &str) -> (r: Vec<String>)
    ensures
        text::texts(r@) == log_command(revset@),
{
    let mut r: Vec<String> = Vec::new();
    r.push("log".to_owned());
    r.push("-r".to_owned());
    r.push(revset.to_owned());
    r.push("--no-graph".to_owned());
    r.push("--template".to_owned());
    r.push(
        "json(self) ++ \"\\n\" ++ json(remote_bookmarks.filter(|b| b.tracked() && b.remote() != \"git\")) ++ \"\\n\" ++ json(local_bookmarks)++ \"\\n\"".to_owned(),
    );
    assert(text::texts(r@) =~= log_command(revset@));
    r
}

/// The lines of a text that are not blank.
pub fn nonblank_lines(s: &str) -> (r: Vec<String>)
    ensures
        text::texts(r@) == filled_lines(s@),
{
    let lines = text::str_lines(s);
    let mut r: Vec<String> = Vec::new();
    let n = lines.len();
    let mut i: usize = 0;
    let ghost all = text::slices(lines@);
    let ghost keep = |line: Seq<char>| text::trim(line).len() > 0;
    while i < n
        invariant
            n == lines@.len(),
            i <= n,
            all == text::slices(lines@),
            keep == (|line: Seq<char>| text::trim(line).len() > 0),
            text::texts(r@) == all.take(i as int).filter(keep),
        decreases n - i,
    {
        proof {
            reveal(Seq::filter);
            assert(all.take(i + 1).drop_last() == all.take(i as int));
            assert(all.take(i + 1).last() == all[i as int]);
        }
        if !text::str_trim(lines[i]).is_empty() {
            let ghost before = text::texts(r@);
            r.push(lines[i].to_owned());
            assert(text::texts(r@) == before.push(all[i as int]));
        }
        i += 1;
    }
    assert(all.take(n as int) == all);
    r
}

/// The records of a log.
pub fn log_records(stdout: &str) -> (r: Vec<LogRecord>)
    ensures
        record_views(r@) == records(filled_lines(stdout@)),
{
    let lines = nonblank_lines(stdout);
    let ghost all = text::texts(lines@);
    let mut r: Vec<LogRecord> = Vec::new();
    let n = lines.len();
    let mut i: usize = 0;
    assert(all.skip(0) == all);
    assert(record_views(r@) + records(all) =~= records(all));
    while n - i >= 3
        invariant
            n == lines@.len(),
            i <= n,
            all == text::texts(lines@),
            record_views(r@) + records(all.skip(i as int)) == records(all),
        decreases n - i,
    {
        let ghost before = record_views(r@);
        let record = LogRecord::Change {
            commit: lines[i].clone(),
            remote_tracked: lines[i + 1].clone(),
            local: lines[i + 2].clone(),
        };
        let ghost added = record@;
        r.push(record);
        proof {
            assert(record_views(r@) == before.push(added));
            let rest = all.skip(i as int);
            assert(rest[0] == all[i as int] && rest[1] == all[i + 1] && rest[2] == all[i + 2]);
            assert(rest.skip(3) == all.skip(i + 3));
            assert(before + (seq![added] + records(all.skip(i + 3))) =~= before.push(added)
                + records(all.skip(i + 3)));
        }
        i += 3;
    }
    if i < n {
        let mut last: Vec<String> = Vec::new();
        let mut k = i;
        let ghost rest = all.skip(i as int);
        while k < n
            invariant
                n == lines@.len(),
                i <= k <= n,
                all == text::texts(lines@),
                rest == all.skip(i as int),
                text::texts(last@) == rest.take(k - i),
            decreases n - k,
        {
            let ghost before = text::texts(last@);
            last.push(lines[k].clone());
            assert(text::texts(last@) == before.push(rest[k - i]));
            k += 1;
        }
        assert(rest.take(n - i) == rest);
        let ghost before = record_views(r@);
        let record = LogRecord::Partial { lines: last };
        let ghost added = record@;
        r.push(record);
        assert(record_views(r@) == before.push(added));
        assert(before + seq![added] =~= before.push(added));
    } else {
        assert(all.skip(i as int).len() == 0);
        assert(record_views(r@) + Seq::<RecordView>::empty() =~= record_views(r@));
    }
    r
}

/// The three parts of a change, decoded.
#[derive(Debug)]
pub struct DecodedRecord {
    pub commit: JJCommit,
    pub remote_tracked: Vec<JJBookmark>,
    pub local: Vec<JJBookmark>,
}

/// What a bookmark points to.
pub open spec fn targets(v: Seq<Option<String>>) -> Seq<Option<Seq<char>>> {
    Seq::new(v.len(), |i: int| text::opt_text(v[i]))
}

/// The first bookmark of that name.
pub open spec fn first_named(list: Seq<JJBookmark>, name: Seq<char>) -> Option<JJBookmark>
    decreases list.len(),
{
    if list.len() == 0 {
        None
    } else if list[0].name@ == name {
        Some(list[0])
    } else {
        first_named(list.skip(1), name)
    }
}

/// A local bookmark, given the tracked remote bookmarks: it is tracked where one of these has
/// its name, and different where that one points elsewhere.
pub open spec fn local_bookmark(b: JJBookmark, remote_tracked: Seq<JJBookmark>) -> BookmarkView {
    match first_named(remote_tracked, b.name@) {
        Some(rt) => BookmarkView::Local {
            name: b.name@,
            remote_different_from_local: targets(rt.target@) != targets(b.target@),
            tracks_remote: true,
        },
        None => BookmarkView::Local {
            name: b.name@,
            remote_different_from_local: false,
            tracks_remote: false,
        },
    }
}

/// The change that a decoded record describes.
pub open spec fn change_of(d: DecodedRecord) -> ChangeView {
    ChangeView {
        commit_id: d.commit.commit_id@,
        change_id: d.commit.change_id@,
        description: d.commit.description@,
        parent_commit_ids: text::texts(d.commit.parents@),
        bookmarks: Seq::new(
            d.local@.len(),
            |i: int| local_bookmark(d.local@[i], d.remote_tracked@),
        ),
        pending_bookmark: false,
    }
}

/// Whether two bookmarks point to the same.
fn same_target(a: &Vec<Option<String>>, b: &Vec<Option<String>>) -> (r: bool)
    ensures
        r == (targets(a@) == targets(b@)),
{
    if a.len() != b.len() {
        assert(targets(a@).len() != targets(b@).len());
        return false;
    }
    let n = a.len();
    let mut i: usize = 0;
    while i < n
        invariant
            n == a@.len(),
            n == b@.len(),
            i <= n,
            forall|k: int| 0 <= k < i ==> targets(a@)[k] == targets(b@)[k],
        decreases n - i,
    {
        assert(targets(a@)[i as int] == text::opt_text(a@[i as int]));
        assert(targets(b@)[i as int] == text::opt_text(b@[i as int]));
        let same = match (&a[i], &b[i]) {
            (Some(x), Some(y)) => text::str_eq(x.as_str(), y.as_str()),
            (None, None) => true,
            _ => false,
        };
        if !same {
            return false;
        }
        i += 1;
    }
    assert(targets(a@) =~= targets(b@));
    true
}

/// The position of the first bookmark of that name.
fn find_named(list: &Vec<JJBookmark>, name: &str) -> (r: Option<usize>)
    ensures
        match r {
            Some(i) => i < list@.len() && first_named(list@, name@) == Some(list@[i as int]),
            None => first_named(list@, name@) is None,
        },
{
    let n = list.len();
    let mut i: usize = 0;
    assert(list@.skip(0) == list@);
    while i < n
        invariant
            n == list@.len(),
            i <= n,
            first_named(list@, name@) == first_named(list@.skip(i as int), name@),
        decreases n - i,
    {
        assert(list@.skip(i as int)[0] == list@[i as int]);
        if text::str_eq(list[i].name.as_str(), name) {
            return Some(i);
        }
        assert(list@.skip(i as int).skip(1) == list@.skip(i + 1));
        i += 1;
    }
    None
}

impl Change {
    /// The change that a decoded record describes.
    pub fn from_log(record: DecodedRecord) -> (c: Change)
        ensures
            c@ == change_of(record),
    {
        let mut bookmarks: Vec<BookmarkInfo> = Vec::new();
        let n = record.local.len();
        let mut i: usize = 0;
        let ghost all = change_of(record).bookmarks;
        while i < n
            invariant
                n == record.local@.len(),
                i <= n,
                all == change_of(record).bookmarks,
                jj::bookmark_views(bookmarks@) == all.take(i as int),
            decreases n - i,
        {
            let b = &record.local[i];
            let ghost before = jj::bookmark_views(bookmarks@);
            let info = match find_named(&record.remote_tracked, b.name.as_str()) {
                Some(at) => BookmarkInfo::Local {
                    name: b.name.clone(),
                    remote_different_from_local: !same_target(
                        &record.remote_tracked[at].target,
                        &b.target,
                    ),
                    tracks_remote: true,
                },
                None => BookmarkInfo::Local {
                    name: b.name.clone(),
                    remote_different_from_local: false,
                    tracks_remote: false,
                },
            };
            let ghost added = info@;
            bookmarks.push(info);
            proof {
                assert(added == all[i as int]);
                assert(jj::bookmark_views(bookmarks@) == before.push(added));
            }
            i += 1;
        }
        assert(all.take(n as int) == all);
        let c = Change {
            commit_id: record.commit.commit_id,
            change_id: record.commit.change_id,
            description: record.commit.description,
            parent_commit_ids: record.commit.parents,
            bookmarks,
            pending_bookmark: false,
        };
        assert(c@ =~= change_of(record));
        c
    }
}

/// A list of texts as Rust's debug format writes it.
pub uninterp spec fn debug_list(lines: Seq<Seq<char>>) -> Seq<char>;

/// `format!` with the debug format of std, `{:?}`, on a list of strings. The result is under
/// the name `debug_list`; how it quotes and escapes is not stated.
#[verifier::external_body]
fn write_debug(lines: &Vec<String>) -> (r: String)
    ensures
        r@ == debug_list(text::texts(lines@)),
{
    format!("{lines:?}")
}

/// How many records are complete.
pub open spec fn complete(records: Seq<RecordView>) -> nat {
    if records.len() > 0 && records.last() is Partial {
        (records.len() - 1) as nat
    } else {
        records.len()
    }
}

/// The position of the first record that could not be decoded.
pub open spec fn first_bad(decoded: Seq<Result<DecodedRecord, Error>>) -> int
    decreases decoded.len(),
{
    if decoded.len() > 0 && decoded[0] is Ok {
        1 + first_bad(decoded.skip(1))
    } else {
        0
    }
}

/// `r` is what the records of a log give, once the complete ones have been decoded: the first
/// error in order, or all changes.
pub open spec fn log_result(
    r: Result<Vec<Change>, Error>,
    records: Seq<RecordView>,
    decoded: Seq<Result<DecodedRecord, Error>>,
) -> bool {
    let bad = first_bad(decoded);
    if bad < decoded.len() {
        r matches Err(e) && e == decoded[bad]->Err_0
    } else if records.len() > 0 && records.last() is Partial {
        error::parse_error(
            r,
            "Failed to parse change line from jj: "@ + debug_list(records.last()->lines),
        )
    } else {
        r matches Ok(changes) && jj::change_views(changes@) == decoded.map_values(
            |d: Result<DecodedRecord, Error>| change_of(d->Ok_0),
        )
    }
}

proof fn lemma_first_bad(decoded: Seq<Result<DecodedRecord, Error>>, i: int)
    requires
        0 <= i <= decoded.len(),
        forall|k: int| 0 <= k < i ==> #[trigger] decoded[k] is Ok,
    ensures
        i < decoded.len() && decoded[i] is Err ==> first_bad(decoded) == i,
        i == decoded.len() ==> first_bad(decoded) == i,
    decreases decoded.len(),
{
    if decoded.len() > 0 && i > 0 {
        let rest = decoded.skip(1);
        assert forall|k: int| 0 <= k < i - 1 implies #[trigger] rest[k] is Ok by {
            assert(rest[k] == decoded[k + 1]);
        }
        lemma_first_bad(rest, i - 1);
        assert(decoded[0] is Ok);
    }
}

impl Jujutsu {
    /// The changes of a log, given its records and what became of decoding each complete one.
    pub fn log(
        records: &Vec<LogRecord>,
        decoded: Vec<Result<DecodedRecord, Error>>,
    ) -> (r: Result<Vec<Change>, Error>)
        requires
            decoded@.len() == complete(record_views(records@)),
        ensures
            log_result(r, record_views(records@), decoded@),
    {
        let ghost all = decoded@;
        let ghost views = all.map_values(|d: Result<DecodedRecord, Error>| change_of(d->Ok_0));
        let mut left = decoded;
        let mut changes: Vec<Change> = Vec::new();
        let n = left.len();
        let mut i: usize = 0;
        assert(all.skip(0) == all);
        while i < n
            invariant
                all == decoded@,
                n == all.len(),
                i <= n,
                left@ == all.skip(i as int),
                views == all.map_values(|d: Result<DecodedRecord, Error>| change_of(d->Ok_0)),
                forall|k: int| 0 <= k < i ==> #[trigger] all[k] is Ok,
                jj::change_views(changes@) == views.take(i as int),
            decreases n - i,
        {
            let ghost before = jj::change_views(changes@);
            assert(left@[0] == all[i as int]);
            let next = left.remove(0);
            assert(left@ == all.skip(i as int).skip(1));
            assert(all.skip(i as int).skip(1) == all.skip(i + 1));
            match next {
                Ok(record) => {
                    let change = Change::from_log(record);
                    let ghost added = change@;
                    changes.push(change);
                    assert(jj::change_views(changes@) == before.push(added));
                },
                Err(e) => {
                    proof {
                        lemma_first_bad(all, i as int);
                    }
                    return Err(e);
                },
            }
            i += 1;
        }
        proof {
            lemma_first_bad(all, n as int);
            assert(views.take(n as int) == views);
        }
        let m = records.len();
        if m > 0 {
            assert(record_views(records@).last() == records@[m - 1]@);
            if let LogRecord::Partial { lines } = &records[m - 1] {
                return Err(
                    Error::Parse {
                        message: "Failed to parse change line from jj: ".to_owned().concat(
                            write_debug(lines).as_str(),
                        ),
                    },
                );
            }
        }
        Ok(changes)
    }

    /// Marks the changes that will have a bookmark created.
    pub fn log_with_pending_bookmarks(
        changes: Vec<Change>,
        pending_bookmarks: &TextSet,
    ) -> (r: Vec<Change>)
        requires
            pending_bookmarks.wf(),
        ensures
            jj::change_views(r@) == jj::change_views(changes@).map_values(
                |c: ChangeView| with_pending(c, pending_bookmarks@),
            ),
    {
        let ghost given = jj::change_views(changes@);
        let ghost all = given.map_values(|c: ChangeView| with_pending(c, pending_bookmarks@));
        let mut r: Vec<Change> = Vec::new();
        let mut left = changes;
        let n = left.len();
        let mut i: usize = 0;
        while i < n
            invariant
                pending_bookmarks.wf(),
                n == given.len(),
                i <= n,
                all == given.map_values(|c: ChangeView| with_pending(c, pending_bookmarks@)),
                jj::change_views(left@) == given.skip(i as int),
                jj::change_views(r@) == all.take(i as int),
            decreases n - i,
        {
            let ghost rest = jj::change_views(left@);
            let ghost before = jj::change_views(r@);
            assert(rest.len() == n - i);
            assert(rest[0] == given[i as int]);
            let mut change = left.remove(0);
            proof {
                assert(change@ == given[i as int]);
                assert(jj::change_views(left@) == rest.skip(1));
                assert(rest.skip(1) == given.skip(i + 1));
            }
            if pending_bookmarks.contains(change.change_id.as_str()) {
                change.pending_bookmark = true;
            }
            let ghost added = change@;
            assert(added =~= all[i as int]);
            r.push(change);
            assert(jj::change_views(r@) == before.push(added));
            i += 1;
        }
        assert(all.take(n as int) == all);
        r
    }

    /// The number of changes in a revset, given its log.
    pub fn count_revset(log: Result<Vec<Change>, Error>) -> (r: Result<usize, Error>)
        ensures
            log matches Ok(changes) ==> r == Ok::<usize, Error>(changes@.len() as usize),
            log matches Err(e) ==> r == Err::<usize, Error>(e),
    {
        match log {
            Ok(changes) => Ok(changes.len()),
            Err(e) => Err(e),
        }
    }

    /// Whether there are changes in a revset, given its log.
    pub fn any_in_revset(log: Result<Vec<Change>, Error>) -> (r: Result<bool, Error>)
        ensures
            log matches Ok(changes) ==> r == Ok::<bool, Error>(changes@.len() > 0),
            log matches Err(e) ==> r == Err::<bool, Error>(e),
    {
        match log {
            Ok(changes) => Ok(changes.len() > 0),
            Err(e) => Err(e),
        }
    }
}

/// The change, marked where its ID is among those that will have a bookmark created.
pub open spec fn with_pending(c: ChangeView, pending: Set<Seq<char>>) -> ChangeView {
    ChangeView { pending_bookmark: c.pending_bookmark || pending.contains(c.change_id), ..c }
}

// ---------------------------------------------------------------------------
// Bookmarks and remotes
// ---------------------------------------------------------------------------
/// A list of one text.
fn args1(a: &str) -> (r: Vec<String>)
    ensures
        text::texts(r@) == seq![a@],
{
    let mut r: Vec<String> = Vec::new();
    r.push(a.to_owned());
    assert(text::texts(r@) =~= seq![a@]);
    r
}

/// A list with one more text.
fn and(list: Vec<String>, a: &str) -> (r: Vec<String>)
    ensures
        text::texts(r@) == text::texts(list@).push(a@),
{
    let mut r = list;
    r.push(a.to_owned());
    assert(text::texts(r@) =~= text::texts(list@).push(a@));
    r
}

/// The remote, or the usual one.
pub open spec fn remote_or_origin(remote: Option<Seq<char>>) -> Seq<char> {
    match remote {
        Some(remote) => remote,
        None => "origin"@,
    }
}

/// The remote, or the usual one.
fn pick_remote<'a>(remote: Option<&'a str>) -> (r: &'a str)
    ensures
        r@ == remote_or_origin(text::opt_slice(remote)),
{
    match remote {
        Some(remote) => remote,
        None => "origin",
    }
}

/// The arguments that track bookmarks on a remote.
pub open spec fn track_command(
    bookmark_names: Seq<Seq<char>>,
    remote: Option<Seq<char>>,
) -> Seq<Seq<char>> {
    seq!["bookmark"@, "track"@, "--remote"@, remote_or_origin(remote)] + bookmark_names
}

/// The arguments that track bookmarks on a remote.
pub fn track_args(bookmark_names: &Vec<String>, remote: Option<&str>) -> (r: Vec<String>)
    ensures
        text::texts(r@) == track_command(text::texts(bookmark_names@), text::opt_slice(remote)),
{
    let mut r = and(and(and(args1("bookmark"), "track"), "--remote"), pick_remote(remote));
    let mut names = text::clone_strings(bookmark_names);
    let ghost head = text::texts(r@);
    let ghost tail = text::texts(names@);
    r.append(&mut names);
    assert(text::texts(r@) =~= head + tail);
    assert(head =~= seq![
        "bookmark"@,
        "track"@,
        "--remote"@,
        remote_or_origin(text::opt_slice(remote)),
    ]);
    r
}

/// The arguments that list the remotes.
pub fn list_remotes_args() -> (r: Vec<String>)
    ensures
        text::texts(r@) == remotes_command(),
{
    let r = and(and(args1("git"), "remote"), "list");
    assert(text::texts(r@) =~= remotes_command());
    r
}

/// The arguments that list the remotes.
pub open spec fn remotes_command() -> Seq<Seq<char>> {
    seq!["git"@, "remote"@, "list"@]
}

/// The arguments that look for a bookmark on a remote.
pub open spec fn remote_bookmark_command(
    bookmark: Seq<char>,
    remote: Option<Seq<char>>,
) -> Seq<Seq<char>> {
    seq!["bookmark"@, "list"@, "--remote"@, remote_or_origin(remote), bookmark]
}

/// The arguments that look for a bookmark on a remote.
pub fn remote_bookmark_args(bookmark: &str, remote: Option<&str>) -> (r: Vec<String>)
    ensures
        text::texts(r@) == remote_bookmark_command(bookmark@, text::opt_slice(remote)),
{
    let r = and(
        and(and(and(args1("bookmark"), "list"), "--remote"), pick_remote(remote)),
        bookmark,
    );
    assert(text::texts(r@) =~= remote_bookmark_command(bookmark@, text::opt_slice(remote)));
    r
}

/// The arguments that ask what `trunk()` stands for.
pub fn trunk_alias_args() -> (r: Vec<String>)
    ensures
        text::texts(r@) == seq!["config"@, "get"@, "revset-aliases.\"trunk()\""@],
{
    let r = and(and(args1("config"), "get"), "revset-aliases.\"trunk()\"");
    assert(text::texts(r@) =~= seq!["config"@, "get"@, "revset-aliases.\"trunk()\""@]);
    r
}

/// The result of a command, with the output read by `f`.
pub open spec fn read_as<T>(
    r: Result<T, Error>,
    ran: Result<CommandOutput, Error>,
    f: spec_fn(CommandOutput, T) -> bool,
) -> bool {
    match ran {
        Ok(output) => r matches Ok(value) && f(output, value),
        Err(e) => r == Err::<T, Error>(e),
    }
}

/// The first of the usual names of a default branch that is among the bookmarks.
pub open spec fn usual_branch(bookmarks: Seq<BookmarkView>) -> Option<Seq<char>> {
    if has_name(bookmarks, "main"@) {
        Some("main"@)
    } else if has_name(bookmarks, "master"@) {
        Some("master"@)
    } else if has_name(bookmarks, "trunk"@) {
        Some("trunk"@)
    } else {
        None
    }
}

/// A bookmark of that name is in the list.
pub open spec fn has_name(bookmarks: Seq<BookmarkView>, name: Seq<char>) -> bool {
    exists|i: int| 0 <= i < bookmarks.len() && #[trigger] bookmarks[i].name() == name
}

/// The name of the bookmark that the alias of `trunk()` was printed as. A blank alias names
/// none.
pub open spec fn alias_name(alias: Option<Seq<char>>) -> Option<Seq<char>> {
    match alias {
        Some(printed) => {
            let name = text::trim(printed);
            if name.len() == 0 {
                None
            } else {
                Some(jj::bookmark_of(name).name())
            }
        },
        None => None,
    }
}

/// The name of the bookmark that the alias of `trunk()` was printed as.
fn read_alias(alias: Option<String>) -> (r: Option<String>)
    ensures
        text::opt_text(r) == alias_name(text::opt_text(alias)),
{
    match alias {
        Some(printed) => match BookmarkInfo::parse(text::str_trim(printed.as_str())) {
            Ok(bookmark) => Some(bookmark.name().to_owned()),
            Err(_) => None,
        },
        None => None,
    }
}

/// The default branch, or what is wrong. `trunk` is the log of `trunk()`; `alias` is what
/// the alias of `trunk()` was printed as, where it has been asked for and there is one.
pub open spec fn branch_of(
    trunk: Result<Seq<ChangeView>, Seq<char>>,
    alias: Option<Seq<char>>,
) -> Result<Seq<char>, Seq<char>> {
    match trunk {
        Err(message) => Err(message),
        Ok(changes) => {
            if changes.len() != 1 {
                Err("trunk() returned multiple commits!"@)
            } else {
                let bookmarks = changes[0].bookmarks;
                if bookmarks.len() == 0 {
                    Err("`jj log -r 'trunk()'` returned a commit with no bookmarks!"@)
                } else if bookmarks.len() == 1 {
                    Ok(bookmarks[0].name())
                } else {
                    match alias_name(alias) {
                        Some(name) => Ok(name),
                        None => match usual_branch(bookmarks) {
                            Some(name) => Ok(name),
                            None => Err(
                                "Could not identify the default branch name. Try setting the `revset-aliases.trunk()` config option or set the `jj-vine.default_base_branch` config option explicitly."@,
                            ),
                        },
                    }
                }
            }
        },
    }
}

/// What the log of `trunk()` says.
pub open spec fn trunk_view(trunk: Result<Vec<Change>, Error>) -> Result<
    Seq<ChangeView>,
    Seq<char>,
> {
    match trunk {
        Ok(changes) => Ok(jj::change_views(changes@)),
        Err(e) => Err(e.text()),
    }
}

/// Whether a list of bookmarks holds one of that name.
fn holds_name(bookmarks: &Vec<BookmarkInfo>, name: &str) -> (r: bool)
    ensures
        r == has_name(jj::bookmark_views(bookmarks@), name@),
{
    let n = bookmarks.len();
    let mut i: usize = 0;
    while i < n
        invariant
            n == bookmarks@.len(),
            i <= n,
            forall|k: int|
                0 <= k < i ==> (#[trigger] jj::bookmark_views(bookmarks@)[k]).name() != name@,
        decreases n - i,
    {
        assert(jj::bookmark_views(bookmarks@)[i as int] == bookmarks@[i as int]@);
        if text::str_eq(bookmarks[i].name(), name) {
            return true;
        }
        i += 1;
    }
    false
}

/// The default branch, or what is wrong.
fn find_branch(trunk: Result<Vec<Change>, Error>, alias: Option<String>) -> (r: Result<
    String,
    String,
>)
    ensures
        known_branch(Some(r)) == Some(branch_of(trunk_view(trunk), text::opt_text(alias))),
{
    let changes = match trunk {
        Ok(changes) => changes,
        Err(e) => return Err(e.to_string()),
    };
    assert(jj::change_views(changes@).len() == changes@.len());
    if changes.len() != 1 {
        return Err("trunk() returned multiple commits!".to_owned());
    }
    let bookmarks = &changes[0].bookmarks;
    proof {
        assert(jj::change_views(changes@)[0] == changes@[0]@);
        assert(changes@[0]@.bookmarks == jj::bookmark_views(bookmarks@));
        assert(jj::bookmark_views(bookmarks@).len() == bookmarks@.len());
    }
    if bookmarks.len() == 0 {
        return Err("`jj log -r 'trunk()'` returned a commit with no bookmarks!".to_owned());
    }
    if bookmarks.len() == 1 {
        assert(jj::bookmark_views(bookmarks@)[0] == bookmarks@[0]@);
        return Ok(bookmarks[0].name().to_owned());
    }
    match read_alias(alias) {
        Some(name) => Ok(name),
        None => {
            if holds_name(bookmarks, "main") {
                Ok("main".to_owned())
            } else if holds_name(bookmarks, "master") {
                Ok("master".to_owned())
            } else if holds_name(bookmarks, "trunk") {
                Ok("trunk".to_owned())
            } else {
                Err(
                    "Could not identify the default branch name. Try setting the `revset-aliases.trunk()` config option or set the `jj-vine.default_base_branch` config option explicitly.".to_owned(),
                )
            }
        },
    }
}

/// `r` is the default branch that is known, or the error.
pub open spec fn branch_result(
    r: Result<String, Error>,
    known: Result<Seq<char>, Seq<char>>,
) -> bool {
    match known {
        Ok(name) => r matches Ok(b) && b@ == name,
        Err(message) => error::other_error(r, message),
    }
}

impl Jujutsu {
    /// What tracking bookmarks gives.
    pub fn track_bookmarks(
        &mut self,
        bookmark_names: &Vec<String>,
        remote: Option<&str>,
        spawned: Spawned,
    ) -> (r: Result<(), Error>)
        requires
            !(spawned is TimedOut),
        ensures
            final(self).dir() == old(self).dir(),
            final(self).branch() == old(self).branch(),
            final(self).count() == old(self).count().wrapping_add(1),
            exists|ran: Result<CommandOutput, Error>| #[trigger]
                jj_result(
                    ran,
                    track_command(text::texts(bookmark_names@), text::opt_slice(remote)),
                    spawned,
                ) && read_as(r, ran, |o: CommandOutput, v: ()| true),
    {
        let args = track_args(bookmark_names, remote);
        let ran = self.exec(&args, spawned);
        let ghost told = ran;
        let r = match ran {
            Ok(_) => Ok(()),
            Err(e) => Err(e),
        };
        assert(read_as(r, told, |o: CommandOutput, v: ()| true));
        r
    }

    /// Whether a push command changed anything, given what became of it.
    pub fn pushed(&self, argv: &Vec<String>, spawned: Spawned) -> (r: Result<bool, Error>)
        requires
            !(spawned is TimedOut),
        ensures
            exists|ran: Result<CommandOutput, Error>| #[trigger]
                argv_result(ran, text::texts(argv@), spawned) && read_as(
                    r,
                    ran,
                    |o: CommandOutput, v: bool|
                        v == !text::contains_text(o.stderr@, "Nothing changed."@),
                ),
    {
        let ran = self.exec_argv(argv, spawned);
        let ghost told = ran;
        let r = match ran {
            Ok(output) => Ok(!text::str_contains(output.stderr.as_str(), "Nothing changed.")),
            Err(e) => Err(e),
        };
        assert(read_as(
            r,
            told,
            |o: CommandOutput, v: bool| v == !text::contains_text(o.stderr@, "Nothing changed."@),
        ));
        r
    }

    /// Whether pushing these bookmarks changed anything, given what became of the command of
    /// [`build_push_argv`].
    pub fn push_bookmarks(
        &self,
        bookmarks: &Vec<String>,
        remote: Option<&str>,
        push_argv: &Vec<String>,
        spawned: Spawned,
    ) -> (r: Result<bool, Error>)
        requires
            !(spawned is TimedOut),
        ensures
            exists|ran: Result<CommandOutput, Error>| #[trigger]
                argv_result(
                    ran,
                    push_command(
                        text::texts(push_argv@),
                        text::opt_slice(remote),
                        "--bookmark"@,
                        text::texts(bookmarks@),
                    ),
                    spawned,
                ) && read_as(
                    r,
                    ran,
                    |o: CommandOutput, v: bool|
                        v == !text::contains_text(o.stderr@, "Nothing changed."@),
                ),
    {
        let args = build_push_argv(push_argv, remote, bookmarks);
        self.pushed(&args, spawned)
    }

    /// Whether creating and pushing bookmarks succeeded, given what became of the command of
    /// [`build_push_create_argv`].
    pub fn push_changes_create(
        &self,
        change_ids: &Vec<String>,
        remote: Option<&str>,
        push_argv: &Vec<String>,
        spawned: Spawned,
    ) -> (r: Result<(), Error>)
        requires
            !(spawned is TimedOut),
        ensures
            exists|ran: Result<CommandOutput, Error>| #[trigger]
                argv_result(
                    ran,
                    push_command(
                        text::texts(push_argv@),
                        text::opt_slice(remote),
                        "-c"@,
                        text::texts(change_ids@),
                    ),
                    spawned,
                ) && read_as(r, ran, |o: CommandOutput, v: ()| true),
    {
        let args = build_push_create_argv(push_argv, remote, change_ids);
        let ran = self.exec_argv(&args, spawned);
        let ghost told = ran;
        let r = match ran {
            Ok(_) => Ok(()),
            Err(e) => Err(e),
        };
        assert(read_as(r, told, |o: CommandOutput, v: ()| true));
        r
    }

    /// The lines of a listing of the remotes.
    pub fn list_remotes(&mut self, spawned: Spawned) -> (r: Result<Vec<String>, Error>)
        requires
            !(spawned is TimedOut),
        ensures
            final(self).dir() == old(self).dir(),
            final(self).branch() == old(self).branch(),
            final(self).count() == old(self).count().wrapping_add(1),
            exists|ran: Result<CommandOutput, Error>| #[trigger]
                jj_result(ran, remotes_command(), spawned) && read_as(
                    r,
                    ran,
                    |o: CommandOutput, v: Vec<String>| text::texts(v@) == filled_lines(o.stdout@),
                ),
    {
        let args = list_remotes_args();
        let ran = self.exec(&args, spawned);
        let ghost told = ran;
        let r = match ran {
            Ok(output) => Ok(nonblank_lines(output.stdout.as_str())),
            Err(e) => Err(e),
        };
        assert(read_as(
            r,
            told,
            |o: CommandOutput, v: Vec<String>| text::texts(v@) == filled_lines(o.stdout@),
        ));
        r
    }

    /// Whether a bookmark exists on a remote.
    pub fn remote_bookmark_exists(
        &mut self,
        bookmark: &str,
        remote: Option<&str>,
        spawned: Spawned,
    ) -> (r: Result<bool, Error>)
        requires
            !(spawned is TimedOut),
        ensures
            final(self).dir() == old(self).dir(),
            final(self).branch() == old(self).branch(),
            final(self).count() == old(self).count().wrapping_add(1),
            exists|ran: Result<CommandOutput, Error>| #[trigger]
                jj_result(
                    ran,
                    remote_bookmark_command(bookmark@, text::opt_slice(remote)),
                    spawned,
                ) && read_as(r, ran, |o: CommandOutput, v: bool| v == (o.stdout@.len() > 0)),
    {
        let args = remote_bookmark_args(bookmark, remote);
        let ran = self.exec(&args, spawned);
        let ghost told = ran;
        let r = match ran {
            Ok(output) => Ok(!output.stdout.as_str().is_empty()),
            Err(e) => Err(e),
        };
        assert(read_as(r, told, |o: CommandOutput, v: bool| v == (o.stdout@.len() > 0)));
        r
    }

    /// Whether the alias of `trunk()` has to be asked for: where `trunk()` is one change with
    /// several bookmarks.
    pub fn needs_trunk_alias(trunk: &Result<Vec<Change>, Error>) -> (r: bool)
        ensures
            r == (trunk matches Ok(changes) && changes@.len() == 1
                && changes@[0].bookmarks@.len() > 1),
    {
        match trunk {
            Ok(changes) => changes.len() == 1 && changes[0].bookmarks.len() > 1,
            Err(_) => false,
        }
    }

    /// The default branch, where it has been determined before.
    pub fn known_default_branch(&self) -> (r: Option<Result<String, Error>>)
        ensures
            match self.branch() {
                Some(known) => r is Some && branch_result(r->0, known),
                None => r is None,
            },
    {
        match &self.default_branch {
            Some(Ok(name)) => Some(Ok(name.clone())),
            Some(Err(message)) => Some(Err(Error::Other { message: message.clone() })),
            None => None,
        }
    }

    /// The default branch. What has been determined once stays, and the arguments are then
    /// not looked at.
    pub fn default_branch(
        &mut self,
        trunk: Result<Vec<Change>, Error>,
        alias: Option<String>,
    ) -> (r: Result<String, Error>)
        ensures
            final(self).dir() == old(self).dir(),
            final(self).count() == old(self).count(),
            final(self).branch() == (match old(self).branch() {
                Some(known) => Some(known),
                None => Some(branch_of(trunk_view(trunk), text::opt_text(alias))),
            }),
            branch_result(r, final(self).branch()->0),
    {
        if let Some(known) = self.known_default_branch() {
            return known;
        }
        let found = find_branch(trunk, alias);
        self.default_branch = Some(found);
        match &self.default_branch {
            Some(Ok(name)) => Ok(name.clone()),
            Some(Err(message)) => Err(Error::Other { message: message.clone() }),
            None => Err(Error::Other { message: String::new() }),
        }
    }
}

/// Where `trunk()` is one change with one bookmark, that bookmark is the default branch,
/// whatever the alias says.
pub proof fn single_trunk_bookmark_decides(c: ChangeView, alias: Option<Seq<char>>)
    requires
        c.bookmarks.len() == 1,
    ensures
        branch_of(Ok(seq![c]), alias) == Ok::<Seq<char>, Seq<char>>(c.bookmarks[0].name()),
{
}

pub(crate) proof fn lemma_spelled_out(
    run: Seq<String>,
    command: Seq<String>,
    remote: Seq<char>,
    flag: Seq<char>,
    values: Seq<String>,
    i: int,
)
    requires
        text::texts(run) == push_command(
            text::texts(command),
            Some(remote),
            flag,
            text::texts(values),
        ),
    ensures
        run.len() == command.len() + 2 + 2 * values.len(),
        0 <= i < command.len() ==> run[i]@ == command[i]@,
        run[command.len() as int]@ == "--remote"@,
        run[command.len() as int + 1]@ == remote,
        0 <= i < values.len() ==> run[command.len() + 2 + 2 * i]@ == flag,
        0 <= i < values.len() ==> run[command.len() + 3 + 2 * i]@ == values[i]@,
{
    let words = text::texts(run);
    let n = command.len() as int;
    let tail = flagged(flag, text::texts(values));
    lemma_flagged_len(flag, text::texts(values));
    assert(text::texts(command).len() == n);
    assert(words.len() == run.len());
    if 0 <= i < n {
        assert(words[i] == text::texts(command)[i]);
    }
    assert(words[n] == "--remote"@ && words[n + 1] == remote);
    if 0 <= i < values.len() {
        every_value_has_its_flag(flag, text::texts(values), i);
        assert(words[n + 2 + 2 * i] == tail[2 * i]);
        assert(words[n + 3 + 2 * i] == tail[2 * i + 1]);
        assert(text::texts(values)[i] == values[i]@);
    }
}

// ---------------------------------------------------------------------------
// Laws of reading what `jj` says
// ---------------------------------------------------------------------------
/// Two bookmarks point to the same commits.
proof fn lemma_same_targets(a: JJBookmark, b: JJBookmark)
    ensures
        targets(a.target@) == targets(b.target@) <==> a.target@.len() == b.target@.len()
            && forall|k: int|
            0 <= k < a.target@.len() ==> text::opt_text(#[trigger] a.target@[k]) == text::opt_text(
                b.target@[k],
            ),
{
    let x = targets(a.target@);
    let y = targets(b.target@);
    if x == y {
        assert(x.len() == y.len());
        assert forall|k: int| 0 <= k < a.target@.len() implies text::opt_text(
            #[trigger] a.target@[k],
        ) == text::opt_text(b.target@[k]) by {
            assert(x[k] == y[k]);
        }
    }
    if a.target@.len() == b.target@.len() && forall|k: int|
        0 <= k < a.target@.len() ==> text::opt_text(#[trigger] a.target@[k]) == text::opt_text(
            b.target@[k],
        ) {
        assert forall|k: int| 0 <= k < x.len() implies x[k] == y[k] by {
            assert(text::opt_text(a.target@[k]) == text::opt_text(b.target@[k]));
        }
        assert(x =~= y);
    }
}

proof fn lemma_first_named(list: Seq<JJBookmark>, name: Seq<char>) -> (at: int)
    ensures
        first_named(list, name) is None <==> forall|i: int|
            0 <= i < list.len() ==> (#[trigger] list[i]).name@ != name,
        first_named(list, name) is Some ==> 0 <= at < list.len() && list[at].name@ == name
            && first_named(list, name) == Some(list[at]) && forall|i: int|
            0 <= i < at ==> (#[trigger] list[i]).name@ != name,
    decreases list.len(),
{
    if list.len() == 0 {
        0
    } else if list[0].name@ == name {
        assert(!forall|i: int| 0 <= i < list.len() ==> (#[trigger] list[i]).name@ != name);
        0
    } else {
        let rest = list.skip(1);
        let at = lemma_first_named(rest, name);
        if first_named(rest, name) is None {
            assert forall|i: int| 0 <= i < list.len() implies (#[trigger] list[i]).name@ != name by {
                if i > 0 {
                    assert(rest[i - 1].name@ != name);
                }
            }
        } else {
            assert(list[at + 1] == rest[at]);
            assert(list[at + 1].name@ == name);
            assert forall|i: int| 0 <= i < at + 1 implies (#[trigger] list[i]).name@ != name by {
                if i > 0 {
                    assert(rest[i - 1].name@ != name);
                }
            }
        }
        at + 1
    }
}

/// A change that is read from a log says what its record says: the IDs, the description, the
/// parents and the local bookmarks, character for character and in their order. It is not
/// marked to have a bookmark created.
pub proof fn change_says_what_its_record_says(record: DecodedRecord, c: Change)
    requires
        call_ensures(Change::from_log, (record,), c),
    ensures
        c.commit_id@ == record.commit.commit_id@,
        c.change_id@ == record.commit.change_id@,
        c.description@ == record.commit.description@,
        c.parent_commit_ids@.len() == record.commit.parents@.len(),
        forall|i: int|
            0 <= i < c.parent_commit_ids@.len() ==> (#[trigger] c.parent_commit_ids@[i])@
                == record.commit.parents@[i]@,
        c.bookmarks@.len() == record.local@.len(),
        forall|i: int|
            0 <= i < c.bookmarks@.len() ==> (
            #[trigger] c.bookmarks@[i] matches BookmarkInfo::Local { name, .. } && name@
                == record.local@[i].name@),
        !c.pending_bookmark,
{
    lemma_change_fields(record, c);
    assert forall|i: int| 0 <= i < c.bookmarks@.len() implies (
    #[trigger] c.bookmarks@[i] matches BookmarkInfo::Local { name, .. } && name@
        == record.local@[i].name@) by {
        assert(jj::bookmark_views(c.bookmarks@)[i] == local_bookmark(
            record.local@[i],
            record.remote_tracked@,
        ));
    }
}

proof fn lemma_change_fields(record: DecodedRecord, c: Change)
    requires
        c@ == change_of(record),
    ensures
        c.commit_id@ == record.commit.commit_id@,
        c.change_id@ == record.commit.change_id@,
        c.description@ == record.commit.description@,
        c.parent_commit_ids@.len() == record.commit.parents@.len(),
        forall|i: int|
            0 <= i < c.parent_commit_ids@.len() ==> (#[trigger] c.parent_commit_ids@[i])@
                == record.commit.parents@[i]@,
        c.bookmarks@.len() == record.local@.len(),
        !c.pending_bookmark,
{
    let told = text::texts(c.parent_commit_ids@);
    let meant = text::texts(record.commit.parents@);
    assert(told == meant);
    assert(told.len() == c.parent_commit_ids@.len() && meant.len()
        == record.commit.parents@.len());
    assert forall|i: int| 0 <= i < c.parent_commit_ids@.len() implies (
    #[trigger] c.parent_commit_ids@[i])@ == record.commit.parents@[i]@ by {
        assert(told[i] == meant[i]);
    }
    assert(jj::bookmark_views(c.bookmarks@).len() == c.bookmarks@.len());
}

/// A local bookmark counts as tracked exactly where a tracked remote bookmark has its name. It
/// counts as different exactly where the first of these points to other commits.
pub proof fn bookmark_is_tracked_by_its_name(record: DecodedRecord, c: Change, i: int)
    requires
        call_ensures(Change::from_log, (record,), c),
        0 <= i < record.local@.len(),
    ensures
        ({
            let tracks_remote = c.bookmarks@[i]->tracks_remote;
            let remote_different_from_local = c.bookmarks@[i]->remote_different_from_local;
            let local = record.local@[i];
            let remotes = record.remote_tracked@;
            &&& c.bookmarks@[i] is Local
            &&& tracks_remote <==> exists|j: int|
                0 <= j < remotes.len() && (#[trigger] remotes[j]).name@ == local.name@
            &&& !tracks_remote ==> !remote_different_from_local
            &&& forall|j: int|
                0 <= j < remotes.len() && (#[trigger] remotes[j]).name@ == local.name@ && (forall|
                    e: int,
                |
                    0 <= e < j ==> (#[trigger] remotes[e]).name@ != local.name@) ==> (
                remote_different_from_local <==> !(remotes[j].target@.len() == local.target@.len()
                    && forall|k: int|
                    0 <= k < local.target@.len() ==> text::opt_text(#[trigger] remotes[j].target@[k])
                        == text::opt_text(local.target@[k])))
        }),
{
    let local = record.local@[i];
    let remotes = record.remote_tracked@;
    lemma_change_fields(record, c);
    assert(jj::bookmark_views(c.bookmarks@)[i] == c.bookmarks@[i]@);
    assert(c.bookmarks@[i]@ == local_bookmark(local, remotes));
    let at = lemma_first_named(remotes, local.name@);
    assert forall|j: int|
        0 <= j < remotes.len() && (#[trigger] remotes[j]).name@ == local.name@ && (forall|e: int|
            0 <= e < j ==> (#[trigger] remotes[e]).name@ != local.name@) implies (
    c.bookmarks@[i]->remote_different_from_local <==> !(remotes[j].target@.len()
        == local.target@.len() && forall|k: int|
        0 <= k < local.target@.len() ==> text::opt_text(#[trigger] remotes[j].target@[k])
            == text::opt_text(local.target@[k]))) by {
        assert(j == at) by {
            if at < j {
                assert(remotes[at].name@ != local.name@);
            }
        }
        lemma_same_targets(remotes[j], local);
    }
}

/// A log is read where every record of it is complete and could be decoded, and into one change
/// for each, in their order; the first record that could not be decoded decides otherwise.
pub proof fn log_reads_every_record(
    records: Vec<LogRecord>,
    decoded: Vec<Result<DecodedRecord, Error>>,
    r: Result<Vec<Change>, Error>,
)
    requires
        call_ensures(Jujutsu::log, (&records, decoded), r),
    ensures
        r is Ok <==> (forall|i: int| 0 <= i < decoded@.len() ==> #[trigger] decoded@[i] is Ok) && !(
        records@.len() > 0 && records@.last() is Partial),
        r matches Ok(changes) ==> changes@.len() == decoded@.len() && forall|i: int|
            0 <= i < changes@.len() ==> {
                let commit = (#[trigger] decoded@[i])->Ok_0.commit;
                &&& changes@[i].commit_id@ == commit.commit_id@
                &&& changes@[i].change_id@ == commit.change_id@
                &&& changes@[i].description@ == commit.description@
                &&& changes@[i].bookmarks@.len() == decoded@[i]->Ok_0.local@.len()
                &&& changes@[i].parent_commit_ids@.len() == commit.parents@.len()
                &&& !changes@[i].pending_bookmark
            },
        forall|i: int|
            0 <= i < decoded@.len() && #[trigger] decoded@[i] is Err && (forall|k: int|
                0 <= k < i ==> #[trigger] decoded@[k] is Ok) ==> r is Err && r->Err_0
                == decoded@[i]->Err_0,
{
    let views = record_views(records@);
    assert(views.len() == records@.len());
    if records@.len() > 0 {
        assert(views.last() == records@.last()@);
    }
    if forall|i: int| 0 <= i < decoded@.len() ==> #[trigger] decoded@[i] is Ok {
        lemma_first_bad(decoded@, decoded@.len() as int);
    } else {
        let i = lemma_first_err(decoded@);
        lemma_first_bad(decoded@, i);
    }
    if let Ok(changes) = r {
        let told = jj::change_views(changes@);
        assert(told.len() == changes@.len());
        assert forall|i: int| 0 <= i < changes@.len() implies {
            let commit = (#[trigger] decoded@[i])->Ok_0.commit;
            &&& changes@[i].commit_id@ == commit.commit_id@
            &&& changes@[i].change_id@ == commit.change_id@
            &&& changes@[i].description@ == commit.description@
            &&& changes@[i].bookmarks@.len() == decoded@[i]->Ok_0.local@.len()
            &&& changes@[i].parent_commit_ids@.len() == commit.parents@.len()
            &&& !changes@[i].pending_bookmark
        } by {
            assert(told[i] == changes@[i]@);
            lemma_change_fields(decoded@[i]->Ok_0, changes@[i]);
        }
    }
    assert forall|i: int|
        0 <= i < decoded@.len() && #[trigger] decoded@[i] is Err && (forall|k: int|
            0 <= k < i ==> #[trigger] decoded@[k] is Ok) implies r is Err && r->Err_0
        == decoded@[i]->Err_0 by {
        lemma_first_bad(decoded@, i);
    }
}

proof fn lemma_first_err(decoded: Seq<Result<DecodedRecord, Error>>) -> (i: int)
    requires
        !forall|i: int| 0 <= i < decoded.len() ==> #[trigger] decoded[i] is Ok,
    ensures
        0 <= i < decoded.len(),
        decoded[i] is Err,
        forall|k: int| 0 <= k < i ==> #[trigger] decoded[k] is Ok,
    decreases decoded.len(),
{
    if decoded[0] is Err {
        0
    } else {
        let rest = decoded.skip(1);
        let bad = choose|i: int| 0 <= i < decoded.len() && !(#[trigger] decoded[i] is Ok);
        assert(rest[bad - 1] is Err);
        let i = lemma_first_err(rest);
        assert(decoded[i + 1] == rest[i]);
        assert forall|k: int| 0 <= k < i + 1 implies #[trigger] decoded[k] is Ok by {
            if k > 0 {
                assert(rest[k - 1] is Ok);
            }
        }
        i + 1
    }
}

/// Every three lines of a log that are not blank make a record: the commit, the tracked remote
/// bookmarks and the local bookmarks. What is left makes a partial one at the end.
pub proof fn three_lines_make_a_record(
    stdout: &str,
    lines: Vec<String>,
    r: Vec<LogRecord>,
    k: int,
)
    requires
        call_ensures(nonblank_lines, (stdout,), lines),
        call_ensures(log_records, (stdout,), r),
        k >= 0,
    ensures
        3 * k + 2 < lines@.len() ==> k < r@.len() && (r@[k] matches LogRecord::Change {
            commit,
            remote_tracked,
            local,
        } && commit@ == lines@[3 * k]@ && remote_tracked@ == lines@[3 * k + 1]@ && local@
            == lines@[3 * k + 2]@),
        3 * k == lines@.len() ==> r@.len() == k,
        3 * k < lines@.len() <= 3 * k + 2 ==> r@.len() == k + 1 && (
        r@[k] matches LogRecord::Partial { lines: left } && left@.len() == lines@.len() - 3 * k),
{
    let all = text::texts(lines@);
    assert(all.len() == lines@.len());
    lemma_records_at(all, k);
    let views = record_views(r@);
    assert(views.len() == r@.len());
    if 3 * k + 2 < lines@.len() {
        assert(views[k] == r@[k]@);
        assert(all[3 * k] == lines@[3 * k]@);
        assert(all[3 * k + 1] == lines@[3 * k + 1]@);
        assert(all[3 * k + 2] == lines@[3 * k + 2]@);
    } else if 3 * k < lines@.len() {
        assert(views[k] == r@[k]@);
        if let LogRecord::Partial { lines: left } = r@[k] {
            assert(text::texts(left@).len() == left@.len());
        }
    }
}

proof fn lemma_records_at(lines: Seq<Seq<char>>, k: int)
    requires
        k >= 0,
    ensures
        3 * k + 2 < lines.len() ==> k < records(lines).len() && records(lines)[k] == (
        RecordView::Change {
            commit: lines[3 * k],
            remote_tracked: lines[3 * k + 1],
            local: lines[3 * k + 2],
        }),
        3 * k == lines.len() ==> records(lines).len() == k,
        3 * k < lines.len() <= 3 * k + 2 ==> records(lines).len() == k + 1 && (
        records(lines)[k] matches RecordView::Partial { lines: left } && left.len() == lines.len()
            - 3 * k),
    decreases k,
{
    if k > 0 && lines.len() >= 3 {
        let rest = lines.skip(3);
        lemma_records_at(rest, k - 1);
        if 3 * k < lines.len() {
            assert(records(lines)[k] == records(rest)[k - 1]);
        }
    }
}

/// The lines that are read are those that are not blank: none of them is, every other line of
/// the text is among them, and where no line is blank they are all lines in their order.
pub proof fn no_filled_line_is_lost(s: &str, r: Vec<String>)
    requires
        call_ensures(nonblank_lines, (s,), r),
    ensures
        forall|i: int|
            0 <= i < r@.len() ==> text::trim((#[trigger] r@[i])@).len() > 0 && text::lines(
                s@,
            ).contains(r@[i]@),
        forall|line: Seq<char>| #[trigger]
            text::lines(s@).contains(line) && text::trim(line).len() > 0 ==> text::texts(
                r@,
            ).contains(line),
        r@.len() <= text::lines(s@).len(),
        (forall|k: int|
            0 <= k < text::lines(s@).len() ==> text::trim(#[trigger] text::lines(s@)[k]).len() > 0)
            ==> text::texts(r@) == text::lines(s@),
{
    let all = text::lines(s@);
    let keep = |line: Seq<char>| text::trim(line).len() > 0;
    let told = text::texts(r@);
    lemma_filter(all, keep);
    assert forall|i: int| 0 <= i < r@.len() implies text::trim((#[trigger] r@[i])@).len() > 0
        && all.contains(r@[i]@) by {
        assert(told[i] == r@[i]@);
        assert(told.contains(told[i]));
        assert(keep(told[i]));
    }
    assert forall|line: Seq<char>| #[trigger]
        all.contains(line) && text::trim(line).len() > 0 implies told.contains(line) by {
        assert(keep(line));
    }
    assert(told.len() == r@.len());
    if forall|k: int| 0 <= k < all.len() ==> text::trim(#[trigger] all[k]).len() > 0 {
        assert forall|k: int| 0 <= k < all.len() implies keep(#[trigger] all[k]) by {}
    }
}

proof fn lemma_filter(all: Seq<Seq<char>>, keep: spec_fn(Seq<char>) -> bool)
    ensures
        all.filter(keep).len() <= all.len(),
        forall|x: Seq<char>| #[trigger] all.filter(keep).contains(x) <==> all.contains(x) && keep(x),
        (forall|k: int| 0 <= k < all.len() ==> keep(#[trigger] all[k])) ==> all.filter(keep) == all,
    decreases all.len(),
{
    reveal(Seq::filter);
    if all.len() > 0 {
        let before = all.drop_last();
        lemma_filter(before, keep);
        let f = before.filter(keep);
        assert forall|x: Seq<char>| #[trigger] all.filter(keep).contains(x) <==> all.contains(x)
            && keep(x) by {
            if all.contains(x) && keep(x) {
                let i = all.index_of(x);
                if i < before.len() {
                    assert(before[i] == x);
                    assert(before.contains(x));
                    assert(f.contains(x));
                    let k = f.index_of(x);
                    assert(all.filter(keep)[k] == x);
                } else {
                    assert(all.filter(keep)[f.len() as int] == x);
                }
            }
            if all.filter(keep).contains(x) {
                let k = all.filter(keep).index_of(x);
                if k < f.len() {
                    assert(f[k] == x);
                    assert(f.contains(x));
                    assert(before.contains(x));
                    let i = before.index_of(x);
                    assert(all[i] == x);
                } else {
                    assert(all[all.len() - 1] == x);
                }
            }
        }
        if forall|k: int| 0 <= k < all.len() ==> keep(#[trigger] all[k]) {
            assert forall|k: int| 0 <= k < before.len() implies keep(#[trigger] before[k]) by {
                assert(keep(all[k]));
            }
            assert(keep(all[all.len() - 1]));
            assert(all.filter(keep) =~= before.push(all.last()));
            assert(before.push(all.last()) =~= all);
        }
    } else {
        assert(all.filter(keep) =~= all);
    }
}

/// Marking changes changes nothing but the mark, keeps their order, and marks those whose ID is
/// given, besides those that were marked before.
pub proof fn marking_changes_only_the_mark(
    changes: Vec<Change>,
    pending: TextSet,
    r: Vec<Change>,
    i: int,
)
    requires
        call_ensures(Jujutsu::log_with_pending_bookmarks, (changes, &pending), r),
    ensures
        r@.len() == changes@.len(),
        0 <= i < r@.len() ==> {
            &&& r@[i].pending_bookmark <==> changes@[i].pending_bookmark || pending@.contains(
                changes@[i].change_id@,
            )
            &&& r@[i].commit_id@ == changes@[i].commit_id@
            &&& r@[i].change_id@ == changes@[i].change_id@
            &&& r@[i].description@ == changes@[i].description@
            &&& text::texts(r@[i].parent_commit_ids@) == text::texts(
                changes@[i].parent_commit_ids@,
            )
            &&& jj::bookmark_views(r@[i].bookmarks@) == jj::bookmark_views(changes@[i].bookmarks@)
        },
{
    assert(jj::change_views(r@).len() == r@.len());
    assert(jj::change_views(changes@).len() == changes@.len());
    if 0 <= i < r@.len() {
        assert(jj::change_views(r@)[i] == r@[i]@);
        assert(jj::change_views(changes@)[i] == changes@[i]@);
    }
}

/// A command that ran succeeds exactly where it exited with code zero; what it printed is then
/// handed on, its output and its error stream each as what it is. Else the error tells what
/// command it was and what it wrote to its error stream, and carries all that it left behind.
pub proof fn exit_code_decides(
    j: &mut Jujutsu,
    args: Vec<String>,
    output: RawOutput,
    r: Result<CommandOutput, Error>,
    k: int,
)
    requires
        call_ensures(Jujutsu::exec, (j, &args, Spawned::Finished(output)), r),
    ensures
        r is Ok <==> output.code == Some(0i32),
        r matches Ok(o) ==> o.stdout@ == bytes::lossy_text(output.stdout@) && o.stderr@
            == bytes::lossy_text(output.stderr@) && o.status@ == output.status@,
        r matches Err(e) ==> {
            &&& e matches Error::JjCommand { output: left, .. } && left == Some(output)
            &&& text::contains_text(e.text(), bytes::lossy_text(output.stderr@))
            &&& 0 <= k < args@.len() ==> text::contains_text(e.text(), args@[k]@)
        },
        final(j).branch() == old(j).branch(),
        final(j).dir() == old(j).dir(),
{
    if let Err(e) = r {
        let words = text::joined(text::texts(args@), " "@);
        lemma_failure_tells("jj "@, words, output);
        if 0 <= k < args@.len() {
            assert(text::texts(args@)[k] == args@[k]@);
            lemma_self(args@[k]@);
            text::lemma_contains_joined(text::texts(args@), " "@, k, args@[k]@);
            let tail = " failed: "@ + bytes::lossy_text(output.stderr@);
            text::lemma_contains_inside("jj "@, words, tail, args@[k]@);
            assert(e.text() =~= "jj "@ + words + tail);
        }
    }
}

proof fn lemma_self(s: Seq<char>)
    ensures
        text::contains_text(s, s),
{
    text::lemma_contains_middle(Seq::empty(), s, Seq::empty());
    assert(Seq::<char>::empty() + s + Seq::<char>::empty() =~= s);
}

proof fn lemma_failure_tells(head: Seq<char>, words: Seq<char>, output: RawOutput)
    ensures
        text::contains_text(
            head + words + " failed: "@ + bytes::lossy_text(output.stderr@),
            bytes::lossy_text(output.stderr@),
        ),
{
    let told = bytes::lossy_text(output.stderr@);
    text::lemma_contains_middle(head + words + " failed: "@, told, Seq::empty());
    assert(head + words + " failed: "@ + told + Seq::<char>::empty() =~= head + words
        + " failed: "@ + told);
}

/// A command that need not be `jj` succeeds and fails as `jj` does; where it cannot be found, the
/// error names its binary, and where there is no command, it fails whatever came of it.
pub proof fn argv_exit_code_decides(
    j: Jujutsu,
    argv: Vec<String>,
    spawned: Spawned,
    r: Result<CommandOutput, Error>,
)
    requires
        call_ensures(Jujutsu::exec_argv, (&j, &argv, spawned), r),
        !(spawned is TimedOut),
    ensures
        r is Ok <==> argv@.len() > 0 && (spawned matches Spawned::Finished(output) && output.code
            == Some(0i32)),
        r is Ok ==> r->Ok_0.stdout@ == bytes::lossy_text(spawned->Finished_0.stdout@)
            && r->Ok_0.stderr@ == bytes::lossy_text(spawned->Finished_0.stderr@),
        argv@.len() > 0 && spawned is NotFound ==> r->Err_0 is Config && text::contains_text(
            r->Err_0.text(),
            argv@[0]@,
        ),
        argv@.len() > 0 && r is Err ==> (spawned matches Spawned::Finished(output) ==> {
            &&& r->Err_0 matches Error::JjCommand { output: left, .. } && left == Some(output)
            &&& text::contains_text(r->Err_0.text(), bytes::lossy_text(output.stderr@))
        }),
{
    if argv@.len() > 0 {
        assert(text::texts(argv@)[0] == argv@[0]@);
        match spawned {
            Spawned::NotFound { reason } => {
                text::lemma_contains_middle(
                    "push command binary `"@,
                    argv@[0]@,
                    "` not found in PATH: "@ + reason@,
                );
                assert(r->Err_0.text() =~= "push command binary `"@ + argv@[0]@
                    + ("` not found in PATH: "@ + reason@));
            },
            Spawned::Finished(output) => {
                let words = text::joined(text::texts(argv@), " "@);
                lemma_failure_tells(Seq::empty(), words, output);
                assert(Seq::<char>::empty() + words =~= words);
            },
            _ => {},
        }
    }
}

/// A push that succeeded changed something unless it says that nothing changed; where it failed,
/// so does this.
pub proof fn push_tells_whether_anything_changed(
    j: Jujutsu,
    argv: Vec<String>,
    spawned: Spawned,
    r: Result<bool, Error>,
)
    requires
        call_ensures(Jujutsu::pushed, (&j, &argv, spawned), r),
        !(spawned is TimedOut),
    ensures
        r is Ok <==> argv@.len() > 0 && (spawned matches Spawned::Finished(output) && output.code
            == Some(0i32)),
        r is Ok ==> (r->Ok_0 <==> !text::contains_text(
            bytes::lossy_text(spawned->Finished_0.stderr@),
            "Nothing changed."@,
        )),
{
}

/// The default branch, once it is known, is what is given whatever is asked, and it is found by
/// the log of `trunk()` alone unless that is one change with several bookmarks.
pub proof fn default_branch_is_found_once(
    j: &mut Jujutsu,
    trunk: Result<Vec<Change>, Error>,
    alias: Option<String>,
    r: Result<String, Error>,
)
    requires
        call_ensures(Jujutsu::default_branch, (j, trunk, alias), r),
    ensures
        old(j).branch() matches Some(known) ==> final(j).branch() == Some(known) && (match known {
            Ok(name) => r is Ok && r->Ok_0@ == name,
            Err(message) => r is Err && r->Err_0.text() == message,
        }),
        old(j).branch() is None ==> {
            &&& final(j).branch() matches Some(known) && (known is Ok <==> r is Ok)
            &&& trunk is Err ==> r is Err && r->Err_0.text() == trunk->Err_0.text()
            &&& trunk matches Ok(changes) ==> {
                &&& changes@.len() != 1 ==> r is Err
                &&& changes@.len() == 1 && changes@[0].bookmarks@.len() == 0 ==> r is Err
                &&& changes@.len() == 1 && changes@[0].bookmarks@.len() == 1 ==> r is Ok
                    && r->Ok_0@ == changes@[0].bookmarks@[0]@.name()
            }
        },
        final(j).dir() == old(j).dir(),
        final(j).count() == old(j).count(),
{
    if let Ok(changes) = trunk {
        assert(jj::change_views(changes@).len() == changes@.len());
        if changes@.len() == 1 {
            assert(jj::change_views(changes@)[0] == changes@[0]@);
            let names = jj::bookmark_views(changes@[0].bookmarks@);
            assert(names.len() == changes@[0].bookmarks@.len());
            if names.len() == 1 {
                assert(names[0] == changes@[0].bookmarks@[0]@);
            }
        }
    }
}

/// Where `trunk()` is one change with several bookmarks, the alias decides by the bookmark that
/// it names, whether or not that is among them. Without one, or with a blank one, the first of
/// `main`, `master` and `trunk` that is among them is the default branch; where none is, there is
/// none.
pub proof fn several_trunk_bookmarks(
    j: &mut Jujutsu,
    change: Change,
    changes: Vec<Change>,
    alias: Option<String>,
    r: Result<String, Error>,
)
    requires
        old(j).branch() is None,
        changes@ == seq![change],
        change.bookmarks@.len() > 1,
        call_ensures(Jujutsu::default_branch, (j, Ok(changes), alias), r),
    ensures
        alias matches Some(printed) && text::trim(printed@).len() > 0 ==> r is Ok && r->Ok_0@
            == jj::bookmark_of(text::trim(alias->0@)).name(),
        alias is None || text::trim(alias->0@).len() == 0 ==> {
            let named = |name: Seq<char>|
                exists|i: int|
                    0 <= i < change.bookmarks@.len() && (#[trigger] change.bookmarks@[i])@.name()
                        == name;
            &&& named("main"@) ==> r is Ok && r->Ok_0@ == "main"@
            &&& !named("main"@) && named("master"@) ==> r is Ok && r->Ok_0@ == "master"@
            &&& !named("main"@) && !named("master"@) && named("trunk"@) ==> r is Ok && r->Ok_0@
                == "trunk"@
            &&& !named("main"@) && !named("master"@) && !named("trunk"@) ==> r is Err
        },
{
    let views = jj::change_views(changes@);
    assert(views.len() == 1 && views[0] == change@);
    let names = jj::bookmark_views(change.bookmarks@);
    assert(names.len() == change.bookmarks@.len());
    lemma_named(change.bookmarks@, "main"@);
    lemma_named(change.bookmarks@, "master"@);
    lemma_named(change.bookmarks@, "trunk"@);
}

proof fn lemma_named(list: Seq<BookmarkInfo>, name: Seq<char>)
    ensures
        has_name(jj::bookmark_views(list), name) <==> exists|i: int|
            0 <= i < list.len() && (#[trigger] list[i])@.name() == name,
{
    let views = jj::bookmark_views(list);
    if has_name(views, name) {
        let i = choose|i: int| 0 <= i < views.len() && #[trigger] views[i].name() == name;
        assert(list[i]@.name() == name);
    }
    if exists|i: int| 0 <= i < list.len() && (#[trigger] list[i])@.name() == name {
        let i = choose|i: int| 0 <= i < list.len() && (#[trigger] list[i])@.name() == name;
        assert(views[i].name() == name);
    }
}

// ---------------------------------------------------------------------------
// Laws of the commands
// ---------------------------------------------------------------------------
proof fn lemma_words(list: Seq<String>, i: int)
    ensures
        text::texts(list).len() == list.len(),
        0 <= i < list.len() ==> text::texts(list)[i] == list[i]@,
{
}

/// Bookmarks are tracked on the given remote, or on `origin` where none is given, each by its name
/// and in their order.
pub proof fn tracking_names_every_bookmark(
    names: Vec<String>,
    remote: Option<&str>,
    r: Vec<String>,
    i: int,
)
    requires
        call_ensures(track_args, (&names, remote), r),
    ensures
        r@.len() == names@.len() + 4,
        r@[0]@ == "bookmark"@,
        r@[1]@ == "track"@,
        r@[2]@ == "--remote"@,
        remote matches Some(remote) ==> r@[3]@ == remote@,
        remote is None ==> r@[3]@ == "origin"@,
        0 <= i < names@.len() ==> r@[4 + i]@ == names@[i]@,
{
    lemma_words(r@, 0);
    lemma_words(r@, 1);
    lemma_words(r@, 2);
    lemma_words(r@, 3);
    lemma_words(r@, 4 + i);
    lemma_words(names@, i);
}

/// A bookmark is looked for by its name on the given remote, or on `origin` where none is given.
pub proof fn bookmark_is_looked_for_on_its_remote(
    bookmark: &str,
    remote: Option<&str>,
    r: Vec<String>,
)
    requires
        call_ensures(remote_bookmark_args, (bookmark, remote), r),
    ensures
        r@.len() == 5,
        r@[0]@ == "bookmark"@,
        r@[1]@ == "list"@,
        r@[2]@ == "--remote"@,
        remote matches Some(remote) ==> r@[3]@ == remote@,
        remote is None ==> r@[3]@ == "origin"@,
        r@[4]@ == bookmark@,
{
    lemma_words(r@, 0);
    lemma_words(r@, 1);
    lemma_words(r@, 2);
    lemma_words(r@, 3);
    lemma_words(r@, 4);
}

/// What is run to read a log, to list the remotes and to ask for the alias of `trunk()`. The revset
/// of a log stands behind `-r`, as it is.
pub proof fn questions_to_jj(
    revset: &str,
    log: Vec<String>,
    remotes: Vec<String>,
    alias: Vec<String>,
)
    requires
        call_ensures(log_args, (revset,), log),
        call_ensures(list_remotes_args, (), remotes),
        call_ensures(trunk_alias_args, (), alias),
    ensures
        log@.len() == 6,
        log@[0]@ == "log"@,
        log@[1]@ == "-r"@,
        log@[2]@ == revset@,
        log@[3]@ == "--no-graph"@,
        log@[4]@ == "--template"@,
        log@[5]@
            == "json(self) ++ \"\\n\" ++ json(remote_bookmarks.filter(|b| b.tracked() && b.remote() != \"git\")) ++ \"\\n\" ++ json(local_bookmarks)++ \"\\n\""@,
        remotes@.len() == 3,
        remotes@[0]@ == "git"@,
        remotes@[1]@ == "remote"@,
        remotes@[2]@ == "list"@,
        alias@.len() == 3,
        alias@[0]@ == "config"@,
        alias@[1]@ == "get"@,
        alias@[2]@ == "revset-aliases.\"trunk()\""@,
{
    lemma_words(log@, 0);
    lemma_words(log@, 1);
    lemma_words(log@, 2);
    lemma_words(log@, 3);
    lemma_words(log@, 4);
    lemma_words(log@, 5);
    lemma_words(remotes@, 0);
    lemma_words(remotes@, 1);
    lemma_words(remotes@, 2);
    lemma_words(alias@, 0);
    lemma_words(alias@, 1);
    lemma_words(alias@, 2);
}

/// A push command keeps its own words, names the remote where there is one, and has a flag before
/// each value, in their order: `--bookmark` for bookmarks and `-c` for changes.
pub proof fn push_commands_name_every_value(
    command: Vec<String>,
    remote: Option<&str>,
    values: Vec<String>,
    r: Vec<String>,
    c: Vec<String>,
    i: int,
)
    requires
        call_ensures(build_push_argv, (&command, remote, &values), r),
        call_ensures(build_push_create_argv, (&command, remote, &values), c),
    ensures
        ({
            let n = command@.len() as int;
            let at = if remote is Some {
                n + 2
            } else {
                n
            };
            &&& r@.len() == at + 2 * values@.len()
            &&& c@.len() == r@.len()
            &&& 0 <= i < n ==> r@[i]@ == command@[i]@ && c@[i]@ == command@[i]@
            &&& remote matches Some(remote) ==> r@[n]@ == "--remote"@ && r@[n + 1]@ == remote@
                && c@[n]@ == "--remote"@ && c@[n + 1]@ == remote@
            &&& 0 <= i < values@.len() ==> r@[at + 2 * i]@ == "--bookmark"@ && r@[at + 2 * i + 1]@
                == values@[i]@ && c@[at + 2 * i]@ == "-c"@ && c@[at + 2 * i + 1]@ == values@[i]@
        }),
{
    lemma_built(command, remote, "--bookmark"@, values, r, i);
    lemma_built(command, remote, "-c"@, values, c, i);
}

proof fn lemma_built(
    command: Vec<String>,
    remote: Option<&str>,
    flag: Seq<char>,
    values: Vec<String>,
    r: Vec<String>,
    i: int,
)
    requires
        text::texts(r@) == push_command(
            text::texts(command@),
            text::opt_slice(remote),
            flag,
            text::texts(values@),
        ),
    ensures
        ({
            let n = command@.len() as int;
            let at = if remote is Some {
                n + 2
            } else {
                n
            };
            &&& r@.len() == at + 2 * values@.len()
            &&& 0 <= i < n ==> r@[i]@ == command@[i]@
            &&& remote matches Some(remote) ==> r@[n]@ == "--remote"@ && r@[n + 1]@ == remote@
            &&& 0 <= i < values@.len() ==> r@[at + 2 * i]@ == flag && r@[at + 2 * i + 1]@
                == values@[i]@
        }),
{
    let n = command@.len() as int;
    let all = text::texts(values@);
    let at = if remote is Some {
        n + 2
    } else {
        n
    };
    lemma_words(command@, i);
    lemma_words(values@, i);
    lemma_flagged_len(flag, all);
    lemma_words(r@, i);
    lemma_words(r@, n);
    lemma_words(r@, n + 1);
    lemma_words(r@, at + 2 * i);
    lemma_words(r@, at + 2 * i + 1);
    if 0 <= i < values@.len() {
        every_value_has_its_flag(flag, all, i);
        assert(flagged(flag, all)[2 * i] == flag);
        assert(flagged(flag, all)[2 * i + 1] == all[i]);
        assert(text::texts(r@)[at + 2 * i] == flagged(flag, all)[2 * i]);
        assert(text::texts(r@)[at + 2 * i + 1] == flagged(flag, all)[2 * i + 1]);
    }
}

/// Pushing bookmarks, and creating them, succeeds exactly where the command exited with zero and
/// there was one; bookmarks were pushed unless the command says that nothing changed.
pub proof fn pushing_succeeds_with_its_command(
    j: Jujutsu,
    names: Vec<String>,
    remote: Option<&str>,
    command: Vec<String>,
    spawned: Spawned,
    r: Result<bool, Error>,
    c: Result<(), Error>,
)
    requires
        command@.len() > 0,
        !(spawned is TimedOut),
        call_ensures(Jujutsu::push_bookmarks, (&j, &names, remote, &command, spawned), r),
        call_ensures(Jujutsu::push_changes_create, (&j, &names, remote, &command, spawned), c),
    ensures
        r is Ok <==> (spawned matches Spawned::Finished(output) && output.code == Some(0i32)),
        c is Ok <==> (spawned matches Spawned::Finished(output) && output.code == Some(0i32)),
        r is Ok ==> (r->Ok_0 <==> !text::contains_text(
            bytes::lossy_text(spawned->Finished_0.stderr@),
            "Nothing changed."@,
        )),
        spawned matches Spawned::Finished(output) ==> {
            &&& r is Err ==> text::contains_text(
                r->Err_0.text(),
                bytes::lossy_text(output.stderr@),
            )
            &&& c is Err ==> text::contains_text(
                c->Err_0.text(),
                bytes::lossy_text(output.stderr@),
            )
        },
{
    let words = push_command(
        text::texts(command@),
        text::opt_slice(remote),
        "--bookmark"@,
        text::texts(names@),
    );
    let others = push_command(
        text::texts(command@),
        text::opt_slice(remote),
        "-c"@,
        text::texts(names@),
    );
    assert(text::texts(command@).len() == command@.len());
    assert(words.len() > 0 && others.len() > 0);
    if let Spawned::Finished(output) = spawned {
        lemma_failure_tells(Seq::empty(), text::joined(words, " "@), output);
        assert(Seq::<char>::empty() + text::joined(words, " "@) =~= text::joined(words, " "@));
        lemma_failure_tells(Seq::empty(), text::joined(others, " "@), output);
        assert(Seq::<char>::empty() + text::joined(others, " "@) =~= text::joined(others, " "@));
    }
}

/// Tracking bookmarks succeeds exactly where the command exited with zero, and a bookmark is on a
/// remote exactly where the listing printed anything. Either is one more command that was run.
pub proof fn tracking_and_looking_go_by_the_command(
    j: &mut Jujutsu,
    k: &mut Jujutsu,
    names: Vec<String>,
    bookmark: &str,
    remote: Option<&str>,
    spawned: Spawned,
    r: Result<(), Error>,
    found: Result<bool, Error>,
)
    requires
        !(spawned is TimedOut),
        call_ensures(Jujutsu::track_bookmarks, (j, &names, remote, spawned), r),
        call_ensures(Jujutsu::remote_bookmark_exists, (k, bookmark, remote, spawned), found),
    ensures
        r is Ok <==> (spawned matches Spawned::Finished(output) && output.code == Some(0i32)),
        found is Ok <==> (spawned matches Spawned::Finished(output) && output.code == Some(0i32)),
        found is Ok ==> (found->Ok_0 <==> bytes::lossy_text(spawned->Finished_0.stdout@).len() > 0),
        final(j).count() == old(j).count().wrapping_add(1),
        final(k).count() == old(k).count().wrapping_add(1),
        final(j).branch() == old(j).branch(),
        final(k).branch() == old(k).branch(),
{
}

/// The remotes are the lines of what the listing printed that are not blank.
pub proof fn remotes_are_the_filled_lines(
    j: &mut Jujutsu,
    spawned: Spawned,
    r: Result<Vec<String>, Error>,
    printed: &str,
    lines: Vec<String>,
)
    requires
        !(spawned is TimedOut),
        call_ensures(Jujutsu::list_remotes, (j, spawned), r),
        spawned matches Spawned::Finished(output) ==> printed@ == bytes::lossy_text(output.stdout@),
        call_ensures(nonblank_lines, (printed,), lines),
    ensures
        r is Ok <==> (spawned matches Spawned::Finished(output) && output.code == Some(0i32)),
        r is Ok ==> text::texts(r->Ok_0@) == text::texts(lines@),
{
}

/// A revset is counted by its log, and has something in it exactly where the count is not zero; what
/// went wrong with the log goes wrong here.
pub proof fn revset_is_counted_by_its_log(
    log: Result<Vec<Change>, Error>,
    n: Result<usize, Error>,
    any: Result<bool, Error>,
)
    requires
        call_ensures(Jujutsu::count_revset, (log,), n),
        call_ensures(Jujutsu::any_in_revset, (log,), any),
    ensures
        log matches Ok(changes) ==> n is Ok && any is Ok && n->Ok_0 == changes@.len() && (any->Ok_0
            <==> changes@.len() > 0),
        log matches Err(e) ==> n == Err::<usize, Error>(e) && any == Err::<bool, Error>(e),
{
    if let Ok(changes) = log {
        assert(changes@.len() == changes.len());
    }
}

/// The alias of `trunk()` is asked for exactly where `trunk()` is one change with several bookmarks.
pub proof fn alias_is_asked_for_where_needed(trunk: Result<Vec<Change>, Error>, r: bool)
    requires
        call_ensures(Jujutsu::needs_trunk_alias, (&trunk,), r),
    ensures
        trunk is Err ==> !r,
        trunk matches Ok(changes) ==> (r <==> changes@.len() == 1 && changes@[0].bookmarks@.len()
            >= 2),
{
}

/// A `jj` command starts in its directory with nothing run and no default branch known; where the
/// binary is not found, the error says why.
pub proof fn command_starts_fresh(
    cwd: String,
    found: Result<(), String>,
    r: Result<Jujutsu, Error>,
    dir: &str,
    count: usize,
    known: Option<Result<String, Error>>,
)
    requires
        call_ensures(Jujutsu::new, (cwd, found), r),
        r matches Ok(j) ==> call_ensures(Jujutsu::cwd, (&j,), dir) && call_ensures(
            Jujutsu::exec_count,
            (&j,),
            count,
        ) && call_ensures(Jujutsu::known_default_branch, (&j,), known),
    ensures
        r is Ok <==> found is Ok,
        r is Ok ==> dir@ == cwd@ && count == 0 && known is None,
        found matches Err(reason) ==> text::contains_text(r->Err_0.text(), reason@),
{
    if let Err(reason) = found {
        let head = "jj binary not found in PATH: "@;
        text::lemma_contains_middle(head, reason@, Seq::empty());
        assert(head + reason@ + Seq::<char>::empty() =~= head + reason@);
    }
}

/// Every `jj` command counts as one more that was run, whatever came of it. One that could not be run
/// fails, and the error says why.
pub proof fn every_command_counts(
    j: &mut Jujutsu,
    args: Vec<String>,
    spawned: Spawned,
    r: Result<CommandOutput, Error>,
)
    requires
        call_ensures(Jujutsu::exec, (j, &args, spawned), r),
    ensures
        final(j).count() == old(j).count().wrapping_add(1),
        spawned matches Spawned::NotFound { reason } ==> r is Err && r->Err_0 is Config
            && text::contains_text(r->Err_0.text(), reason@),
        spawned matches Spawned::Failed { reason } ==> r is Err && r->Err_0 is Io
            && r->Err_0.text() == reason@,
{
    if let Spawned::NotFound { reason } = spawned {
        let head = "jj binary not found in PATH: "@;
        text::lemma_contains_middle(head, reason@, Seq::empty());
        assert(head + reason@ + Seq::<char>::empty() =~= head + reason@);
    }
}

} // verus!
