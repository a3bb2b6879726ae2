//! Creating bookmarks for changes and pushing them.
use crate::action;
use crate::action::{ActionReport, ActionResultData, ActionStep, PushedView};
use crate::change_map;
use crate::config::RepoPushConfig;
use crate::error::Error;
use crate::jj;
use crate::jj::{BookmarkView, Change, ChangeView};
use crate::jujutsu;
use crate::style;
use crate::text;
use vstd::prelude::*;

verus! {

/// Push changes to a remote, and have a bookmark created for each.
#[derive(Debug, Clone, PartialEq, Eq)]
pub struct PushCreateAction {
    pub change_ids: Vec<String>,
    pub remote: String,
}

/// The change IDs, shortened.
pub open spec fn short_ids(ids: Seq<Seq<char>>) -> Seq<Seq<char>> {
    ids.map_values(|id: Seq<char>| jj::short_id(id))
}

/// The change IDs as people read them.
pub open spec fn ids_text(a: PushCreateAction) -> Seq<char> {
    action::highlighted(short_ids(text::texts(a.change_ids@)))
}

/// The names of all bookmarks of a list of changes.
pub open spec fn names_of(changes: Seq<ChangeView>) -> Seq<Seq<char>> {
    change_map::bookmark_pairs(changes).map_values(|p: (BookmarkView, ChangeView)| p.0.name())
}

/// For each bookmark of a list of changes the ID of its change.
pub open spec fn owners_of(changes: Seq<ChangeView>) -> Seq<Seq<char>> {
    change_map::bookmark_pairs(changes).map_values(|p: (BookmarkView, ChangeView)| p.1.change_id)
}

/// What `start` answers.
pub open spec fn create_start(
    a: PushCreateAction,
    push: RepoPushConfig,
    dry_run: bool,
    no_hooks: bool,
    temp_names: Seq<Seq<char>>,
    r: ActionStep,
) -> bool {
    let argv = push.resolved(no_hooks);
    let ids = text::texts(a.change_ids@);
    if dry_run {
        r matches ActionStep::Done(report) && action::reports(
            report,
            None,
            Some(
                "Would "@ + style::green_text("create bookmarks"@) + " and push to remote "@
                    + style::cyan_text(a.remote@) + " "@ + action::push_preview(argv)
                    + " for changes: "@ + ids_text(a),
            ),
            if argv is Some {
                PushedView {
                    bookmarks: temp_names,
                    created_bookmarks: action::last_of_each(ids, temp_names),
                    pushed: true,
                }
            } else {
                action::nothing_pushed()
            },
        )
    } else {
        match argv {
            None => r matches ActionStep::Done(report) && action::reports(
                report,
                None,
                None,
                action::nothing_pushed(),
            ),
            Some(argv) => r matches ActionStep::Run { argv: run } && text::texts(run@)
                == jujutsu::push_command(argv, Some(a.remote@), "-c"@, ids),
        }
    }
}

/// The names and the change IDs of all bookmarks of a list of changes.
fn list_bookmarks(changes: &Vec<Change>) -> (r: (Vec<String>, Vec<String>))
    ensures
        text::texts(r.0@) == names_of(jj::change_views(changes@)),
        text::texts(r.1@) == owners_of(jj::change_views(changes@)),
{
    let mut names: Vec<String> = Vec::new();
    let mut owners: Vec<String> = Vec::new();
    let n = changes.len();
    let mut i: usize = 0;
    let ghost all = jj::change_views(changes@);
    assert(all.take(0) == Seq::<ChangeView>::empty());
    while i < n
        invariant
            n == changes@.len(),
            i <= n,
            all == jj::change_views(changes@),
            text::texts(names@) == names_of(all.take(i as int)),
            text::texts(owners@) == owners_of(all.take(i as int)),
        decreases n - i,
    {
        let change = &changes[i];
        let ghost c = all[i as int];
        let m = change.bookmarks.len();
        let mut j: usize = 0;
        let ghost names0 = text::texts(names@);
        let ghost owners0 = text::texts(owners@);
        while j < m
            invariant
                m == change.bookmarks@.len(),
                change@ == c,
                j <= m,
                text::texts(names@) == names0 + Seq::new(
                    j as nat,
                    |k: int| c.bookmarks[k].name(),
                ),
                text::texts(owners@) == owners0 + Seq::new(j as nat, |k: int| c.change_id),
            decreases m - j,
        {
            let ghost names1 = text::texts(names@);
            let ghost owners1 = text::texts(owners@);
            assert(change.bookmarks@[j as int]@ == c.bookmarks[j as int]);
            names.push(change.bookmarks[j].name().to_owned());
            owners.push(change.change_id.clone());
            proof {
                assert(text::texts(names@) =~= names1.push(c.bookmarks[j as int].name()));
                assert(text::texts(owners@) =~= owners1.push(c.change_id));
                assert(text::texts(names@) =~= names0 + Seq::new(
                    (j + 1) as nat,
                    |k: int| c.bookmarks[k].name(),
                ));
                assert(text::texts(owners@) =~= owners0 + Seq::new(
                    (j + 1) as nat,
                    |k: int| c.change_id,
                ));
            }
            j += 1;
        }
        proof {
            assert(all.take(i + 1).drop_last() == all.take(i as int));
            assert(all.take(i + 1).last() == c);
            assert(names_of(all.take(i + 1)) =~= text::texts(names@));
            assert(owners_of(all.take(i + 1)) =~= text::texts(owners@));
        }
        i += 1;
    }
    assert(all.take(n as int) == all);
    (names, owners)
}

impl PushCreateAction {
    /// All change IDs can be shortened.
    pub open spec fn wf(self) -> bool {
        forall|i: int|
            0 <= i < self.change_ids@.len() ==> jj::has_short_id(
                (#[trigger] self.change_ids@[i])@,
            )
    }

    /// The change IDs as people read them.
    fn describe_ids(&self) -> (r: String)
        requires
            self.wf(),
        ensures
            r@ == ids_text(*self),
    {
        let mut short: Vec<String> = Vec::new();
        let n = self.change_ids.len();
        let mut i: usize = 0;
        let ghost all = short_ids(text::texts(self.change_ids@));
        while i < n
            invariant
                self.wf(),
                n == self.change_ids@.len(),
                i <= n,
                all == short_ids(text::texts(self.change_ids@)),
                text::texts(short@) == all.take(i as int),
            decreases n - i,
        {
            let ghost before = text::texts(short@);
            assert(jj::has_short_id(self.change_ids@[i as int]@));
            short.push(jj::shorten(self.change_ids[i].as_str()).to_owned());
            assert(text::texts(short@) == before.push(all[i as int]));
            i += 1;
        }
        assert(all.take(n as int) == all);
        action::highlight(&short)
    }

    /// What tells this action from others.
    pub fn id(&self) -> (r: String)
        ensures
            r@ == "push_create:"@ + text::joined(text::texts(self.change_ids@), ","@),
    {
        "push_create:".to_owned().concat(text::join(&self.change_ids, ",").as_str())
    }

    /// The heading of actions of this kind.
    pub fn group_text(&self) -> (r: String)
        ensures
            r@ == "Creating and pushing bookmarks"@,
    {
        "Creating and pushing bookmarks".to_owned()
    }

    /// What the action does, as a line of progress.
    pub fn text(&self) -> (r: String)
        requires
            self.wf(),
        ensures
            r@ == "Creating and pushing "@ + ids_text(*self),
    {
        "Creating and pushing ".to_owned().concat(self.describe_ids().as_str())
    }

    /// What the action does, below its heading.
    pub fn substep_text(&self) -> (r: String)
        requires
            self.wf(),
        ensures
            r@ == ids_text(*self),
    {
        self.describe_ids()
    }

    /// What the action will do, in a plan.
    pub fn plan_text(&self) -> (r: String)
        requires
            self.wf(),
        ensures
            r@ == "Create and push bookmarks to remote "@ + style::cyan_text(self.remote@)
                + " for changes: "@ + ids_text(*self),
    {
        "Create and push bookmarks to remote ".to_owned().concat(
            style::cyan(self.remote.as_str()).as_str(),
        ).concat(" for changes: ").concat(self.describe_ids().as_str())
    }

    /// What to do: a dry run and a disabled push are reported at once, everything else is a
    /// command to run. `temp_names` holds for each change the name that a preview gives to
    /// its bookmark.
    pub fn start(
        &self,
        push: &RepoPushConfig,
        dry_run: bool,
        no_hooks: bool,
        temp_names: &Vec<String>,
    ) -> (r: ActionStep)
        requires
            self.wf(),
            temp_names@.len() == self.change_ids@.len(),
        ensures
            create_start(*self, *push, dry_run, no_hooks, text::texts(temp_names@), r),
    {
        let argv = push.resolve_argv(no_hooks);
        if dry_run {
            let message = "Would ".to_owned().concat(
                style::green("create bookmarks").as_str(),
            ).concat(" and push to remote ").concat(
                style::cyan(self.remote.as_str()).as_str(),
            ).concat(" ").concat(action::preview_push(&argv).as_str()).concat(
                " for changes: ",
            ).concat(self.describe_ids().as_str());
            let data = if argv.is_some() {
                ActionResultData::Pushed {
                    bookmarks: text::clone_strings(temp_names),
                    created_bookmarks: action::by_key(&self.change_ids, temp_names),
                    pushed: true,
                }
            } else {
                PushCreateAction::nothing()
            };
            return ActionStep::Done(
                ActionReport { completed: None, message: Some(message), result: Ok(data) },
            );
        }
        match argv {
            None => ActionStep::Done(
                ActionReport {
                    completed: None,
                    message: None,
                    result: Ok(PushCreateAction::nothing()),
                },
            ),
            Some(argv) => ActionStep::Run {
                argv: jujutsu::build_push_create_argv(
                    &argv,
                    Some(self.remote.as_str()),
                    &self.change_ids,
                ),
            },
        }
    }

    fn nothing() -> (r: ActionResultData)
        ensures
            r.wf(),
            r@ == action::nothing_pushed(),
    {
        let r = ActionResultData::Pushed {
            bookmarks: Vec::new(),
            created_bookmarks: action::no_names(),
            pushed: false,
        };
        assert(r@ =~= action::nothing_pushed());
        r
    }

    /// The revset of the changes, to look up the bookmarks that were created.
    pub fn revset(&self) -> (r: String)
        ensures
            r@ == text::joined(text::texts(self.change_ids@), "|"@),
    {
        text::join(&self.change_ids, "|")
    }

    /// The report, once the command has been run. `log` is the log of [`Self::revset`] after
    /// that; it is not looked at where the command failed.
    pub fn finish(
        &self,
        created: Result<(), Error>,
        log: Result<Vec<Change>, Error>,
    ) -> (r: ActionReport)
        requires
            self.wf(),
        ensures
            match created {
                Err(e) => action::reports_failure(
                    r,
                    "Failed to create and push changes to remote "@ + style::cyan_text(
                        self.remote@,
                    ) + " ("@ + ids_text(*self) + "): "@ + e.text(),
                ),
                Ok(()) => match log {
                    Err(e) => r.completed is None && r.message is None && (r.result matches Err(
                        told,
                    ) && told == e),
                    Ok(changes) => {
                        let views = jj::change_views(changes@);
                        action::reports(
                            r,
                            Some("Created bookmarks: "@ + action::highlighted(names_of(views))),
                            None,
                            PushedView {
                                bookmarks: names_of(views),
                                created_bookmarks: action::last_of_each(
                                    owners_of(views),
                                    names_of(views),
                                ),
                                pushed: true,
                            },
                        )
                    },
                },
            },
    {
        match created {
            Err(e) => {
                let message = "Failed to create and push changes to remote ".to_owned().concat(
                    style::cyan(self.remote.as_str()).as_str(),
                ).concat(" (").concat(self.describe_ids().as_str()).concat("): ").concat(
                    e.to_string().as_str(),
                );
                ActionReport {
                    completed: None,
                    message: Some(message.clone()),
                    result: Err(Error::Other { message }),
                }
            },
            Ok(()) => match log {
                Err(e) => ActionReport { completed: None, message: None, result: Err(e) },
                Ok(changes) => {
                    let (names, owners) = list_bookmarks(&changes);
                    proof {
                        assert(text::texts(names@).len() == text::texts(owners@).len());
                    }
                    let created_bookmarks = action::by_key(&owners, &names);
                    ActionReport {
                        completed: Some(
                            "Created bookmarks: ".to_owned().concat(
                                action::highlight(&names).as_str(),
                            ),
                        ),
                        message: None,
                        result: Ok(
                            ActionResultData::Pushed {
                                bookmarks: names,
                                created_bookmarks,
                                pushed: true,
                            },
                        ),
                    }
                },
            },
        }
    }
}

/// With pushing disabled no command is run, and nothing is reported as created or pushed: a
/// preview says the same as the real run.
pub proof fn disabled_create_does_nothing(
    a: PushCreateAction,
    dry_run: bool,
    no_hooks: bool,
    temp_names: Seq<Seq<char>>,
    r: ActionStep,
)
    requires
        create_start(a, RepoPushConfig::Enabled(false), dry_run, no_hooks, temp_names, r),
    ensures
        r is Done,
        r->Done_0.result is Ok,
        r->Done_0.result->Ok_0@ == action::nothing_pushed(),
{
}

/// A dry run runs nothing.
pub proof fn dry_run_creates_nothing(
    a: PushCreateAction,
    push: RepoPushConfig,
    no_hooks: bool,
    temp_names: Seq<Seq<char>>,
    r: ActionStep,
)
    requires
        create_start(a, push, true, no_hooks, temp_names, r),
    ensures
        r is Done,
{
}

/// Where pushing is not disabled and the run is no dry run, a command is run, and it creates a
/// bookmark for every change: behind the push command stand the remote and then, in their order,
/// all change IDs, each behind its flag, and nothing else.
pub proof fn every_change_gets_a_bookmark(
    a: PushCreateAction,
    push: RepoPushConfig,
    no_hooks: bool,
    temp_names: Vec<String>,
    command: Vec<String>,
    r: ActionStep,
    i: int,
)
    requires
        call_ensures(PushCreateAction::start, (&a, &push, false, no_hooks, &temp_names), r),
        call_ensures(RepoPushConfig::resolve_argv, (&push, no_hooks), Some(command)),
    ensures
        r is Run,
        r->argv@.len() == command@.len() + 2 + 2 * a.change_ids@.len(),
        0 <= i < command@.len() ==> r->argv@[i]@ == command@[i]@,
        r->argv@[command@.len() as int]@ == "--remote"@,
        r->argv@[command@.len() as int + 1]@ == a.remote@,
        0 <= i < a.change_ids@.len() ==> r->argv@[command@.len() + 2 + 2 * i]@ == "-c"@,
        0 <= i < a.change_ids@.len() ==> r->argv@[command@.len() + 3 + 2 * i]@ == a.change_ids@[i]@,
{
    jujutsu::lemma_spelled_out(r->argv@, command@, a.remote@, "-c"@, a.change_ids@, i);
}

/// A command is run unless the run is a dry run or pushing is disabled, and every such run
/// succeeds. A dry run with pushing reports the given names, one for each change, under the
/// changes, and names the remote.
pub proof fn create_without_command_reports_the_preview(
    a: PushCreateAction,
    push: RepoPushConfig,
    dry_run: bool,
    no_hooks: bool,
    temp_names: Vec<String>,
    r: ActionStep,
)
    requires
        call_ensures(PushCreateAction::start, (&a, &push, dry_run, no_hooks, &temp_names), r),
        temp_names@.len() == a.change_ids@.len(),
    ensures
        r is Done <==> dry_run || push == RepoPushConfig::Enabled(false),
        r matches ActionStep::Done(report) ==> report.result is Ok && report.completed is None && (
        report.message is Some <==> dry_run),
        dry_run ==> text::contains_text(r->Done_0.message->0@, a.remote@),
        dry_run && push != RepoPushConfig::Enabled(false) ==> {
            let ActionResultData::Pushed { bookmarks, created_bookmarks, pushed } =
                r->Done_0.result->Ok_0;
            &&& pushed
            &&& bookmarks@.len() == temp_names@.len()
            &&& forall|i: int|
                0 <= i < temp_names@.len() ==> (#[trigger] bookmarks@[i])@ == temp_names@[i]@
            &&& forall|i: int|
                0 <= i < a.change_ids@.len() ==> created_bookmarks@.dom().contains(
                    (#[trigger] a.change_ids@[i])@,
                )
            &&& forall|i: int|
                0 <= i < a.change_ids@.len() && (forall|j: int|
                    i < j < a.change_ids@.len() ==> a.change_ids@[j]@ != a.change_ids@[i]@)
                    ==> created_bookmarks@[(#[trigger] a.change_ids@[i])@]@ == temp_names@[i]@
        },
{
    let ids = text::texts(a.change_ids@);
    let names = text::texts(temp_names@);
    if dry_run {
        let head = "Would "@ + style::green_text("create bookmarks"@) + " and push to remote "@;
        let tail = " "@ + action::push_preview(push.resolved(no_hooks)) + " for changes: "@
            + ids_text(a);
        style::lemma_cyan_shows(a.remote@);
        text::lemma_contains_inside(head, style::cyan_text(a.remote@), tail, a.remote@);
        assert(r->Done_0.message->0@ =~= head + style::cyan_text(a.remote@) + tail);
        if push != RepoPushConfig::Enabled(false) {
            let ActionResultData::Pushed { bookmarks, created_bookmarks, pushed } =
                r->Done_0.result->Ok_0;
            assert(text::texts(bookmarks@) == names);
            assert(text::texts(bookmarks@).len() == bookmarks@.len());
            assert forall|i: int| 0 <= i < temp_names@.len() implies (#[trigger] bookmarks@[i])@
                == temp_names@[i]@ by {
                assert(text::texts(bookmarks@)[i] == names[i]);
            }
            let map = created_bookmarks@.map_values(|s: String| s@);
            assert(map == action::last_of_each(ids, names));
            assert forall|i: int| 0 <= i < a.change_ids@.len() implies
                created_bookmarks@.dom().contains((#[trigger] a.change_ids@[i])@) by {
                action::last_value_of_a_key_stays(ids, names, i);
                assert(ids[i] == a.change_ids@[i]@);
                assert(map.dom().contains(ids[i]));
            }
            assert forall|i: int|
                0 <= i < a.change_ids@.len() && (forall|j: int|
                    i < j < a.change_ids@.len() ==> a.change_ids@[j]@
                        != a.change_ids@[i]@) implies created_bookmarks@[(
            #[trigger] a.change_ids@[i])@]@ == temp_names@[i]@ by {
                assert(ids[i] == a.change_ids@[i]@);
                assert forall|j: int| i < j < ids.len() implies #[trigger] ids[j] != ids[i] by {
                    assert(ids[j] == a.change_ids@[j]@);
                }
                action::last_value_of_a_key_stays(ids, names, i);
                assert(map[ids[i]] == names[i]);
                assert(created_bookmarks@.dom().contains(ids[i])) by {
                    assert(map.dom().contains(ids[i]));
                }
            }
        }
    }
}

proof fn lemma_listed(changes: Seq<ChangeView>, i: int, j: int) -> (at: int)
    requires
        0 <= i < changes.len(),
        0 <= j < changes[i].bookmarks.len(),
    ensures
        names_of(changes).len() == owners_of(changes).len(),
        0 <= at < names_of(changes).len(),
        names_of(changes)[at] == changes[i].bookmarks[j].name(),
        owners_of(changes)[at] == changes[i].change_id,
    decreases changes.len(),
{
    let before = changes.drop_last();
    let last = changes.last();
    let k = change_map::bookmark_pairs(before).len() as int;
    if i < before.len() {
        let at = lemma_listed(before, i, j);
        assert(change_map::bookmark_pairs(changes)[at] == change_map::bookmark_pairs(before)[at]);
        at
    } else {
        assert(change_map::bookmark_pairs(changes)[k + j].0 == last.bookmarks[j]);
        assert(change_map::bookmark_pairs(changes)[k + j].1 == last);
        k + j
    }
}

/// Creating succeeds exactly where both the command and the log succeeded. Then every bookmark of
/// every change of the log is reported as pushed, every change with a bookmark has one reported as
/// created for it, and each of these is one of its own; an error of the command is told.
pub proof fn create_reports_what_happened(
    a: PushCreateAction,
    created: Result<(), Error>,
    log: Result<Vec<Change>, Error>,
    r: ActionReport,
)
    requires
        call_ensures(PushCreateAction::finish, (&a, created, log), r),
    ensures
        r.result is Ok <==> created is Ok && log is Ok,
        created matches Err(e) ==> r.message is Some && text::contains_text(
            r.message->0@,
            e.text(),
        ) && text::contains_text(r.message->0@, a.remote@) && r.result->Err_0.text()
            == r.message->0@,
        created is Ok && log is Err ==> r.result->Err_0 == log->Err_0,
        created is Ok ==> (log matches Ok(changes) ==> {
            let ActionResultData::Pushed { bookmarks, created_bookmarks, pushed } = r.result->Ok_0;
            &&& pushed
            &&& r.completed is Some
            &&& forall|i: int, j: int|
                0 <= i < changes@.len() && 0 <= j < changes@[i].bookmarks@.len()
                    ==> text::texts(bookmarks@).contains(
                    (#[trigger] changes@[i].bookmarks@[j])@.name(),
                )
            &&& forall|i: int|
                0 <= i < changes@.len() && changes@[i].bookmarks@.len() > 0
                    ==> created_bookmarks@.dom().contains((#[trigger] changes@[i]).change_id@)
            &&& forall|id: Seq<char>| #[trigger]
                created_bookmarks@.dom().contains(id) ==> exists|i: int, j: int|
                    0 <= i < changes@.len() && 0 <= j < changes@[i].bookmarks@.len()
                        && changes@[i].change_id@ == id && (
                    #[trigger] changes@[i].bookmarks@[j])@.name() == created_bookmarks@[id]@
        }),
{
    match created {
        Err(e) => {
            let remote = style::cyan_text(a.remote@);
            let head = "Failed to create and push changes to remote "@;
            let tail = " ("@ + ids_text(a) + "): "@;
            let message = r.message->0@;
            style::lemma_cyan_shows(a.remote@);
            text::lemma_contains_inside(head, remote, tail + e.text(), a.remote@);
            assert(message =~= head + remote + (tail + e.text()));
            text::lemma_contains_middle(head + remote + tail, e.text(), Seq::empty());
            assert(message =~= head + remote + tail + e.text() + Seq::<char>::empty());
        },
        Ok(()) => if let Ok(changes) = log {
            let views = jj::change_views(changes@);
            let names = names_of(views);
            let owners = owners_of(views);
            let ActionResultData::Pushed { bookmarks, created_bookmarks, pushed } = r.result->Ok_0;
            let map = created_bookmarks@.map_values(|s: String| s@);
            assert(map == action::last_of_each(owners, names));
            assert forall|i: int, j: int|
                0 <= i < changes@.len() && 0 <= j < changes@[i].bookmarks@.len() implies
                text::texts(bookmarks@).contains((#[trigger] changes@[i].bookmarks@[j])@.name()) by {
                assert(views[i] == changes@[i]@);
                assert(views[i].bookmarks[j] == changes@[i].bookmarks@[j]@);
                let at = lemma_listed(views, i, j);
                assert(text::texts(bookmarks@)[at] == names[at]);
            }
            assert forall|i: int|
                0 <= i < changes@.len() && changes@[i].bookmarks@.len() > 0 implies
                created_bookmarks@.dom().contains((#[trigger] changes@[i]).change_id@) by {
                assert(views[i] == changes@[i]@);
                assert(views[i].bookmarks[0] == changes@[i].bookmarks@[0]@);
                let at = lemma_listed(views, i, 0);
                action::last_value_of_a_key_stays(owners, names, at);
                assert(map.dom().contains(owners[at]));
            }
            assert forall|id: Seq<char>| #[trigger]
                created_bookmarks@.dom().contains(id) implies exists|i: int, j: int|
                0 <= i < changes@.len() && 0 <= j < changes@[i].bookmarks@.len()
                    && changes@[i].change_id@ == id && (#[trigger] changes@[i].bookmarks@[j])@.name()
                    == created_bookmarks@[id]@ by {
                assert(map.dom().contains(id));
                let at = action::keys_come_with_their_values(owners, names, id);
                let (i, j) = lemma_listed_from(views, at);
                assert(views[i] == changes@[i]@);
                assert(views[i].bookmarks[j] == changes@[i].bookmarks@[j]@);
                assert(map[id] == created_bookmarks@[id]@);
            }
        },
    }
}

proof fn lemma_listed_from(changes: Seq<ChangeView>, at: int) -> (from: (int, int))
    requires
        0 <= at < names_of(changes).len(),
    ensures
        0 <= from.0 < changes.len(),
        0 <= from.1 < changes[from.0].bookmarks.len(),
        names_of(changes)[at] == changes[from.0].bookmarks[from.1].name(),
        owners_of(changes)[at] == changes[from.0].change_id,
    decreases changes.len(),
{
    let before = changes.drop_last();
    let k = change_map::bookmark_pairs(before).len() as int;
    if at < k {
        let from = lemma_listed_from(before, at);
        assert(change_map::bookmark_pairs(changes)[at] == change_map::bookmark_pairs(before)[at]);
        assert(changes[from.0] == before[from.0]);
        from
    } else {
        (changes.len() - 1, at - k)
    }
}

/// An action names all its changes: in full in its ID and in the revset that finds them again, and
/// by their short IDs where it is shown. In a plan it names its remote.
pub proof fn create_names_its_changes(
    a: PushCreateAction,
    id: String,
    revset: String,
    line: String,
    substep: String,
    plan: String,
    i: int,
    short: &str,
    whole: &str,
)
    requires
        call_ensures(PushCreateAction::id, (&a,), id),
        call_ensures(PushCreateAction::revset, (&a,), revset),
        call_ensures(PushCreateAction::text, (&a,), line),
        call_ensures(PushCreateAction::substep_text, (&a,), substep),
        call_ensures(PushCreateAction::plan_text, (&a,), plan),
        0 <= i < a.change_ids@.len(),
        whole@ == a.change_ids@[i]@,
        call_ensures(jj::shorten, (whole,), short),
    ensures
        text::starts_with(id@, "push_create:"@),
        text::contains_text(id@, a.change_ids@[i]@),
        text::contains_text(revset@, a.change_ids@[i]@),
        text::contains_text(line@, short@),
        text::contains_text(substep@, short@),
        text::contains_text(plan@, short@),
        text::contains_text(plan@, a.remote@),
{
    let ids = text::texts(a.change_ids@);
    let shown = short_ids(ids);
    let list = action::highlighted(shown);
    let none = Seq::<char>::empty();
    assert(ids[i] == whole@);
    assert(shown[i] == short@);
    action::highlighting_shows_every_name(shown, i);
    text::lemma_contains_inside("Creating and pushing "@, list, none, short@);
    assert("Creating and pushing "@ + list + none =~= line@);
    let start = "Create and push bookmarks to remote "@;
    let head = start + style::cyan_text(a.remote@) + " for changes: "@;
    text::lemma_contains_inside(head, list, none, short@);
    assert(head + list + none =~= plan@);
    style::lemma_cyan_shows(a.remote@);
    let tail = " for changes: "@ + list;
    text::lemma_contains_inside(start, style::cyan_text(a.remote@), tail, a.remote@);
    assert(plan@ =~= start + style::cyan_text(a.remote@) + tail);
    text::lemma_contains_middle(none, whole@, none);
    assert(none + whole@ + none =~= whole@);
    text::lemma_contains_joined(ids, ","@, i, whole@);
    text::lemma_contains_joined(ids, "|"@, i, whole@);
    text::lemma_contains_inside("push_create:"@, text::joined(ids, ","@), none, whole@);
    assert("push_create:"@ + text::joined(ids, ","@) + none =~= id@);
    assert(id@.subrange(0, "push_create:"@.len() as int) =~= "push_create:"@);
}

/// Once bookmarks have been created, the line about it names every one of them.
pub proof fn created_bookmarks_are_told(
    a: PushCreateAction,
    changes: Vec<Change>,
    r: ActionReport,
    i: int,
)
    requires
        call_ensures(PushCreateAction::finish, (&a, Ok(()), Ok(changes)), r),
    ensures
        r.completed is Some,
        r.result is Ok,
        r.result->Ok_0 matches ActionResultData::Pushed { bookmarks, .. } && (0 <= i
            < bookmarks@.len() ==> text::contains_text(r.completed->0@, bookmarks@[i]@)),
{
    let names = names_of(jj::change_views(changes@));
    let list = action::highlighted(names);
    let ActionResultData::Pushed { bookmarks, created_bookmarks, pushed } = r.result->Ok_0;
    assert(r.result->Ok_0@.bookmarks == names);
    assert(text::texts(bookmarks@).len() == bookmarks@.len());
    if 0 <= i < bookmarks@.len() {
        assert(text::texts(bookmarks@)[i] == bookmarks@[i]@);
        action::highlighting_shows_every_name(names, i);
        text::lemma_contains_inside("Created bookmarks: "@, list, Seq::empty(), names[i]);
        assert("Created bookmarks: "@ + list + Seq::<char>::empty() =~= r.completed->0@);
    }
}

/// Actions of one kind stand under one heading.
pub proof fn creations_have_their_heading(a: PushCreateAction, r: String)
    requires
        call_ensures(PushCreateAction::group_text, (&a,), r),
    ensures
        r@ == "Creating and pushing bookmarks"@,
{
}

} // verus!
