//! Pushing bookmarks.
use crate::action;
use crate::action::{ActionReport, ActionResultData, ActionStep, PushedView};
use crate::config::RepoPushConfig;
use crate::error::Error;
use crate::jujutsu;
use crate::style;
use crate::text;
use vstd::prelude::*;

verus! {

/// Push bookmarks to a remote.
#[derive(Debug, Clone, PartialEq, Eq)]
pub struct PushAction {
    pub bookmarks: Vec<String>,
    pub remote: String,
}

/// What `start` answers.
pub open spec fn push_start(
    a: PushAction,
    push: RepoPushConfig,
    dry_run: bool,
    no_hooks: bool,
    r: ActionStep,
) -> bool {
    let argv = push.resolved(no_hooks);
    let bookmarks = text::texts(a.bookmarks@);
    if dry_run {
        r matches ActionStep::Done(report) && action::reports(
            report,
            None,
            Some(
                "Would push bookmarks to remote "@ + style::cyan_text(a.remote@) + " "@
                    + action::push_preview(argv) + ": "@ + action::highlighted(bookmarks),
            ),
            PushedView { bookmarks, created_bookmarks: Map::empty(), pushed: argv is Some },
        )
    } else {
        match argv {
            None => r matches ActionStep::Done(report) && action::reports(
                report,
                None,
                None,
                PushedView { bookmarks, created_bookmarks: Map::empty(), pushed: false },
            ),
            Some(argv) => r matches ActionStep::Run { argv: run } && text::texts(run@)
                == jujutsu::push_command(argv, Some(a.remote@), "--bookmark"@, bookmarks),
        }
    }
}

impl PushAction {
    /// What tells this action from others.
    pub fn id(&self) -> (r: String)
        ensures
            r@ == "push:"@ + text::joined(text::texts(self.bookmarks@), ","@),
    {
        "push:".to_owned().concat(text::join(&self.bookmarks, ",").as_str())
    }

    /// The heading of actions of this kind.
    pub fn group_text(&self) -> (r: String)
        ensures
            r@ == "Pushing bookmarks"@,
    {
        "Pushing bookmarks".to_owned()
    }

    /// What the action does, as a line of progress.
    pub fn text(&self) -> (r: String)
        ensures
            r@ == "Pushing "@ + action::highlighted(text::texts(self.bookmarks@)),
    {
        "Pushing ".to_owned().concat(action::highlight(&self.bookmarks).as_str())
    }

    /// What the action does, below its heading.
    pub fn substep_text(&self) -> (r: String)
        ensures
            r@ == action::highlighted(text::texts(self.bookmarks@)),
    {
        action::highlight(&self.bookmarks)
    }

    /// What the action will do, in a plan.
    pub fn plan_text(&self) -> (r: String)
        ensures
            r@ == "Push bookmarks to remote "@ + style::cyan_text(self.remote@) + ": "@
                + action::highlighted(text::texts(self.bookmarks@)),
    {
        "Push bookmarks to remote ".to_owned().concat(
            style::cyan(self.remote.as_str()).as_str(),
        ).concat(": ").concat(action::highlight(&self.bookmarks).as_str())
    }

    /// What to do: a dry run and a disabled push are reported at once, everything else is a
    /// command to run.
    pub fn start(&self, push: &RepoPushConfig, dry_run: bool, no_hooks: bool) -> (r: ActionStep)
        ensures
            push_start(*self, *push, dry_run, no_hooks, r),
    {
        let argv = push.resolve_argv(no_hooks);
        if dry_run {
            let message = "Would push bookmarks to remote ".to_owned().concat(
                style::cyan(self.remote.as_str()).as_str(),
            ).concat(" ").concat(action::preview_push(&argv).as_str()).concat(": ").concat(
                action::highlight(&self.bookmarks).as_str(),
            );
            return ActionStep::Done(
                ActionReport {
                    completed: None,
                    message: Some(message),
                    result: Ok(self.pushed_data(argv.is_some())),
                },
            );
        }
        match argv {
            None => ActionStep::Done(
                ActionReport {
                    completed: None,
                    message: None,
                    result: Ok(self.pushed_data(false)),
                },
            ),
            Some(argv) => ActionStep::Run {
                argv: jujutsu::build_push_argv(
                    &argv,
                    Some(self.remote.as_str()),
                    &self.bookmarks,
                ),
            },
        }
    }

    fn pushed_data(&self, pushed: bool) -> (r: ActionResultData)
        ensures
            r.wf(),
            r@ == (PushedView {
                bookmarks: text::texts(self.bookmarks@),
                created_bookmarks: Map::empty(),
                pushed,
            }),
    {
        ActionResultData::Pushed {
            bookmarks: text::clone_strings(&self.bookmarks),
            created_bookmarks: action::no_names(),
            pushed,
        }
    }

    /// The report, once the command has been run. `pushed` says whether it changed anything.
    pub fn finish(&self, pushed: Result<bool, Error>) -> (r: ActionReport)
        ensures
            match pushed {
                Ok(pushed) => action::reports(
                    r,
                    if pushed {
                        Some("Pushed "@ + action::highlighted(text::texts(self.bookmarks@)))
                    } else {
                        None
                    },
                    None,
                    PushedView {
                        bookmarks: text::texts(self.bookmarks@),
                        created_bookmarks: Map::empty(),
                        pushed,
                    },
                ),
                Err(e) => action::reports_failure(
                    r,
                    "Failed to push "@ + action::highlighted(text::texts(self.bookmarks@)) + ": "@
                        + e.text(),
                ),
            },
    {
        let names = action::highlight(&self.bookmarks);
        match pushed {
            Ok(pushed) => ActionReport {
                completed: if pushed {
                    Some("Pushed ".to_owned().concat(names.as_str()))
                } else {
                    None
                },
                message: None,
                result: Ok(self.pushed_data(pushed)),
            },
            Err(e) => {
                let message = "Failed to push ".to_owned().concat(names.as_str()).concat(
                    ": ",
                ).concat(e.to_string().as_str());
                ActionReport {
                    completed: None,
                    message: Some(message.clone()),
                    result: Err(Error::Other { message }),
                }
            },
        }
    }
}

/// With pushing disabled no command is run and nothing is reported as pushed, in a dry run or
/// not, with hooks or without.
pub proof fn disabled_push_pushes_nothing(
    a: PushAction,
    dry_run: bool,
    no_hooks: bool,
    r: ActionStep,
)
    requires
        push_start(a, RepoPushConfig::Enabled(false), dry_run, no_hooks, r),
    ensures
        r is Done,
        r->Done_0.result is Ok,
        !r->Done_0.result->Ok_0@.pushed,
{
}

/// A dry run runs nothing.
pub proof fn dry_run_runs_no_push(
    a: PushAction,
    push: RepoPushConfig,
    no_hooks: bool,
    r: ActionStep,
)
    requires
        push_start(a, push, true, no_hooks, r),
    ensures
        r is Done,
{
}

/// Where pushing is not disabled and the run is no dry run, a command is run, and it pushes every
/// bookmark: behind the push command stand the remote and then, in their order, all bookmarks,
/// each behind its flag, and nothing else.
pub proof fn every_bookmark_is_pushed(
    a: PushAction,
    push: RepoPushConfig,
    no_hooks: bool,
    command: Vec<String>,
    r: ActionStep,
    i: int,
)
    requires
        call_ensures(PushAction::start, (&a, &push, false, no_hooks), r),
        call_ensures(RepoPushConfig::resolve_argv, (&push, no_hooks), Some(command)),
    ensures
        r is Run,
        r->argv@.len() == command@.len() + 2 + 2 * a.bookmarks@.len(),
        0 <= i < command@.len() ==> r->argv@[i]@ == command@[i]@,
        r->argv@[command@.len() as int]@ == "--remote"@,
        r->argv@[command@.len() as int + 1]@ == a.remote@,
        0 <= i < a.bookmarks@.len() ==> r->argv@[command@.len() + 2 + 2 * i]@ == "--bookmark"@,
        0 <= i < a.bookmarks@.len() ==> r->argv@[command@.len() + 3 + 2 * i]@ == a.bookmarks@[i]@,
{
    jujutsu::lemma_spelled_out(r->argv@, command@, a.remote@, "--bookmark"@, a.bookmarks@, i);
}

/// A push succeeds exactly where its command did, and then reports all bookmarks of the action,
/// in their order, as pushed exactly where the command changed anything. What went wrong is
/// told.
pub proof fn push_reports_what_happened(a: PushAction, pushed: Result<bool, Error>, r: ActionReport)
    requires
        call_ensures(PushAction::finish, (&a, pushed), r),
    ensures
        r.result is Ok <==> pushed is Ok,
        pushed matches Ok(changed) ==> {
            let ActionResultData::Pushed { bookmarks, created_bookmarks, pushed: told } =
                r.result->Ok_0;
            &&& told == changed
            &&& bookmarks@.len() == a.bookmarks@.len()
            &&& forall|i: int|
                0 <= i < bookmarks@.len() ==> (#[trigger] bookmarks@[i])@ == a.bookmarks@[i]@
            &&& created_bookmarks@ == Map::<Seq<char>, String>::empty()
            &&& r.completed is Some <==> changed
            &&& r.message is None
        },
        pushed matches Err(e) ==> {
            &&& r.message is Some
            &&& text::contains_text(r.message->0@, e.text())
            &&& r.result->Err_0.text() == r.message->0@
        },
{
    match pushed {
        Ok(changed) => lemma_pushed_fields(a, changed, r.result->Ok_0),
        Err(e) => {
            let head = "Failed to push "@ + action::highlighted(text::texts(a.bookmarks@)) + ": "@;
            text::lemma_contains_middle(head, e.text(), Seq::empty());
            assert(head + e.text() + Seq::<char>::empty() =~= head + e.text());
        },
    }
}

proof fn lemma_pushed_fields(a: PushAction, pushed: bool, data: ActionResultData)
    requires
        data@ == (PushedView {
            bookmarks: text::texts(a.bookmarks@),
            created_bookmarks: Map::empty(),
            pushed,
        }),
    ensures
        ({
            let ActionResultData::Pushed { bookmarks, created_bookmarks, pushed: told } = data;
            &&& told == pushed
            &&& bookmarks@.len() == a.bookmarks@.len()
            &&& forall|i: int|
                0 <= i < bookmarks@.len() ==> (#[trigger] bookmarks@[i])@ == a.bookmarks@[i]@
            &&& created_bookmarks@ == Map::<Seq<char>, String>::empty()
        }),
{
    let ActionResultData::Pushed { bookmarks, created_bookmarks, pushed: told } = data;
    assert(text::texts(bookmarks@).len() == bookmarks@.len());
    assert(text::texts(a.bookmarks@).len() == a.bookmarks@.len());
    assert forall|i: int| 0 <= i < bookmarks@.len() implies (#[trigger] bookmarks@[i])@
        == a.bookmarks@[i]@ by {
        assert(text::texts(bookmarks@)[i] == text::texts(a.bookmarks@)[i]);
    }
    assert forall|k: Seq<char>| !created_bookmarks@.dom().contains(k) by {
        assert(!created_bookmarks@.map_values(|s: String| s@).dom().contains(k));
    }
    assert(created_bookmarks@ =~= Map::<Seq<char>, String>::empty());
}

/// A run that runs no command reports all bookmarks of the action, as pushed exactly where it is
/// a dry run and pushing is not disabled. A dry run names the remote and every bookmark.
pub proof fn push_without_command_reports_all(
    a: PushAction,
    push: RepoPushConfig,
    dry_run: bool,
    no_hooks: bool,
    r: ActionStep,
)
    requires
        call_ensures(PushAction::start, (&a, &push, dry_run, no_hooks), r),
    ensures
        r is Done <==> dry_run || push == RepoPushConfig::Enabled(false),
        r matches ActionStep::Done(report) ==> report.completed is None && report.result is Ok && {
            let ActionResultData::Pushed { bookmarks, created_bookmarks, pushed: told } =
                report.result->Ok_0;
            &&& told == (push != RepoPushConfig::Enabled(false))
            &&& bookmarks@.len() == a.bookmarks@.len()
            &&& forall|i: int|
                0 <= i < bookmarks@.len() ==> (#[trigger] bookmarks@[i])@ == a.bookmarks@[i]@
            &&& created_bookmarks@ == Map::<Seq<char>, String>::empty()
        },
        r matches ActionStep::Done(report) ==> (report.message is Some <==> dry_run),
        dry_run ==> text::contains_text(r->Done_0.message->0@, a.remote@) && forall|i: int|
            0 <= i < a.bookmarks@.len() ==> text::contains_text(
                r->Done_0.message->0@,
                (#[trigger] a.bookmarks@[i])@,
            ),
{
    if let ActionStep::Done(report) = r {
        lemma_pushed_fields(a, push != RepoPushConfig::Enabled(false), report.result->Ok_0);
    }
    if dry_run {
        let names = text::texts(a.bookmarks@);
        let head = "Would push bookmarks to remote "@;
        let tail = " "@ + action::push_preview(push.resolved(no_hooks)) + ": "@;
        let list = action::highlighted(names);
        let message = r->Done_0.message->0@;
        style::lemma_cyan_shows(a.remote@);
        text::lemma_contains_inside(head, style::cyan_text(a.remote@), tail + list, a.remote@);
        assert(message =~= head + style::cyan_text(a.remote@) + (tail + list));
        assert forall|i: int| 0 <= i < a.bookmarks@.len() implies text::contains_text(
            message,
            (#[trigger] a.bookmarks@[i])@,
        ) by {
            assert(names[i] == a.bookmarks@[i]@);
            action::highlighting_shows_every_name(names, i);
            let before = head + style::cyan_text(a.remote@) + tail;
            text::lemma_contains_inside(before, list, Seq::empty(), names[i]);
            assert(before + list + Seq::<char>::empty() =~= message);
        }
    }
}

proof fn lemma_names_shown(head: Seq<char>, names: Seq<String>, i: int)
    requires
        0 <= i < names.len(),
    ensures
        text::contains_text(head + action::highlighted(text::texts(names)), names[i]@),
{
    let all = text::texts(names);
    let list = action::highlighted(all);
    assert(all[i] == names[i]@);
    action::highlighting_shows_every_name(all, i);
    text::lemma_contains_inside(head, list, Seq::empty(), all[i]);
    assert(head + list + Seq::<char>::empty() =~= head + list);
}

/// An action names all its bookmarks wherever it is shown, and in a plan its remote.
pub proof fn push_names_its_bookmarks(
    a: PushAction,
    id: String,
    line: String,
    substep: String,
    plan: String,
    i: int,
)
    requires
        call_ensures(PushAction::id, (&a,), id),
        call_ensures(PushAction::text, (&a,), line),
        call_ensures(PushAction::substep_text, (&a,), substep),
        call_ensures(PushAction::plan_text, (&a,), plan),
        0 <= i < a.bookmarks@.len(),
    ensures
        text::starts_with(id@, "push:"@),
        text::contains_text(id@, a.bookmarks@[i]@),
        text::contains_text(line@, a.bookmarks@[i]@),
        text::contains_text(substep@, a.bookmarks@[i]@),
        text::contains_text(plan@, a.bookmarks@[i]@),
        text::contains_text(plan@, a.remote@),
{
    let names = text::texts(a.bookmarks@);
    let name = a.bookmarks@[i]@;
    let none = Seq::<char>::empty();
    assert(names[i] == name);
    lemma_names_shown("Pushing "@, a.bookmarks@, i);
    lemma_names_shown(none, a.bookmarks@, i);
    assert(none + action::highlighted(names) =~= action::highlighted(names));
    let head = "Push bookmarks to remote "@ + style::cyan_text(a.remote@) + ": "@;
    lemma_names_shown(head, a.bookmarks@, i);
    style::lemma_cyan_shows(a.remote@);
    let tail = ": "@ + action::highlighted(names);
    text::lemma_contains_inside(
        "Push bookmarks to remote "@,
        style::cyan_text(a.remote@),
        tail,
        a.remote@,
    );
    assert(plan@ =~= "Push bookmarks to remote "@ + style::cyan_text(a.remote@) + tail);
    text::lemma_contains_middle(none, name, none);
    assert(none + name + none =~= name);
    text::lemma_contains_joined(names, ","@, i, name);
    text::lemma_contains_inside("push:"@, text::joined(names, ","@), none, name);
    assert("push:"@ + text::joined(names, ","@) + none =~= id@);
    assert(id@.subrange(0, "push:"@.len() as int) =~= "push:"@);
}

/// Once bookmarks have been pushed, the line about it names every one of them. Actions of one kind
/// stand under one heading.
pub proof fn pushed_bookmarks_are_told(a: PushAction, r: ActionReport, heading: String, i: int)
    requires
        call_ensures(PushAction::finish, (&a, Ok(true)), r),
        call_ensures(PushAction::group_text, (&a,), heading),
    ensures
        r.completed is Some,
        0 <= i < a.bookmarks@.len() ==> text::contains_text(r.completed->0@, a.bookmarks@[i]@),
        heading@ == "Pushing bookmarks"@,
{
    if 0 <= i < a.bookmarks@.len() {
        lemma_names_shown("Pushed "@, a.bookmarks@, i);
    }
}

} // verus!
