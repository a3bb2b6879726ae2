//! The `init` command: setting up a repository.
use crate::config;
use crate::config::ForgeType;
use crate::error;
use crate::error::Error;
use crate::remote;
use crate::remote::{DetectedForge, DetectedView};
use crate::style;
use crate::text;
use vstd::prelude::*;

verus! {

// ---------------------------------------------------------------------------
// Remotes
// ---------------------------------------------------------------------------
/// The remotes of a repository, by their part in a fork workflow.
#[derive(Debug)]
pub struct Remotes {
    /// The URL that is pushed to.
    pub origin: String,
    /// The URL that merge requests go to, where it is another.
    pub upstream: Option<String>,
    /// The forge that merge requests go to.
    pub target_forge: Option<DetectedForge>,
}

/// What [`Remotes`] say.
#[verifier::ext_equal]
pub struct RemotesView {
    pub origin: Seq<char>,
    pub upstream: Option<Seq<char>>,
    pub target_forge: Option<DetectedView>,
}

impl View for Remotes {
    type V = RemotesView;

    open spec fn view(&self) -> RemotesView {
        RemotesView {
            origin: self.origin@,
            upstream: text::opt_text(self.upstream),
            target_forge: remote::opt_detected(self.target_forge),
        }
    }
}

/// The position of the first line that is no entry of a listing of remotes.
pub open spec fn first_malformed(lines: Seq<Seq<char>>) -> int
    decreases lines.len(),
{
    if lines.len() > 0 && remote::remote_entry(lines[0]) is Some {
        1 + first_malformed(lines.skip(1))
    } else {
        0
    }
}

/// The parts that the remotes have. Beside an `upstream` remote, or a `fork`, the `origin` is
/// one end of a fork workflow.
pub open spec fn triaged(lines: Seq<Seq<char>>) -> Option<RemotesView> {
    let origin = remote::url_of(lines, "origin"@);
    let upstream = remote::url_of(lines, "upstream"@);
    let fork = remote::url_of(lines, "fork"@);
    match origin {
        None => None,
        Some(origin) => Some(
            if upstream is Some {
                RemotesView {
                    origin,
                    upstream,
                    target_forge: remote::forge_of_url(upstream->0),
                }
            } else if fork is Some {
                RemotesView {
                    origin: fork->0,
                    upstream: Some(origin),
                    target_forge: remote::forge_of_url(origin),
                }
            } else {
                RemotesView {
                    origin,
                    upstream: None,
                    target_forge: remote::forge_of_url(origin),
                }
            },
        ),
    }
}

/// `r` is what a listing of remotes gives.
pub open spec fn remotes_result(r: Result<Option<Remotes>, Error>, listing: Seq<char>) -> bool {
    let lines = text::lines(listing);
    let bad = first_malformed(lines);
    if bad < lines.len() {
        error::other_error(r, "Failed to parse remote line: "@ + lines[bad])
    } else {
        match triaged(lines) {
            Some(view) => r is Ok && r->Ok_0 is Some && r->Ok_0->0@ == view,
            None => r is Ok && r->Ok_0 is None,
        }
    }
}

/// The position of the first line that is no entry.
fn find_malformed(lines: &Vec<&str>) -> (r: usize)
    ensures
        r == first_malformed(text::slices(lines@)),
        r <= lines@.len(),
{
    let n = lines.len();
    let mut i: usize = 0;
    let ghost all = text::slices(lines@);
    assert(all.skip(0) == all);
    while i < n
        invariant
            n == lines@.len(),
            i <= n,
            all == text::slices(lines@),
            first_malformed(all) == i + first_malformed(all.skip(i as int)),
        decreases n - i,
    {
        assert(all.skip(i as int)[0] == all[i as int]);
        if remote::read_remote_entry(lines[i]).is_none() {
            return i;
        }
        assert(all.skip(i as int).skip(1) == all.skip(i + 1));
        i += 1;
    }
    i
}

/// The remotes in a listing, by their part in a fork workflow.
pub fn detect_remotes(listing: &str) -> (r: Result<Option<Remotes>, Error>)
    ensures
        remotes_result(r, listing@),
{
    let lines = text::str_lines(listing);
    let bad = find_malformed(&lines);
    if bad < lines.len() {
        return Err(
            Error::Other {
                message: "Failed to parse remote line: ".to_owned().concat(lines[bad]),
            },
        );
    }
    let origin = match remote::find_url(&lines, "origin") {
        Some(origin) => origin,
        None => return Ok(None),
    };
    if let Some(upstream) = remote::find_url(&lines, "upstream") {
        return Ok(
            Some(
                Remotes {
                    origin: origin.to_owned(),
                    target_forge: remote::parse_forge_url(upstream),
                    upstream: Some(upstream.to_owned()),
                },
            ),
        );
    }
    if let Some(fork) = remote::find_url(&lines, "fork") {
        return Ok(
            Some(
                Remotes {
                    origin: fork.to_owned(),
                    target_forge: remote::parse_forge_url(origin),
                    upstream: Some(origin.to_owned()),
                },
            ),
        );
    }
    Ok(
        Some(
            Remotes {
                target_forge: remote::parse_forge_url(origin),
                origin: origin.to_owned(),
                upstream: None,
            },
        ),
    )
}

// ---------------------------------------------------------------------------
// Configuration values
// ---------------------------------------------------------------------------
/// The value that a command printed, where it printed one.
pub open spec fn printed_value(stdout: Option<Seq<char>>) -> Option<Seq<char>> {
    match stdout {
        Some(s) => if text::trim(s).len() == 0 {
            None
        } else {
            Some(text::trim(s))
        },
        None => None,
    }
}

/// The value of a key, given what the command that reads it printed, where it succeeded.
pub fn get_config(stdout: Option<&str>) -> (r: Option<String>)
    ensures
        text::opt_text(r) == printed_value(text::opt_slice(stdout)),
{
    match stdout {
        Some(s) => {
            let value = text::str_trim(s);
            if value.is_empty() {
                None
            } else {
                Some(value.to_owned())
            }
        },
        None => None,
    }
}

/// The arguments that read the value of a key.
pub fn get_config_args(key: &str) -> (r: Vec<String>)
    ensures
        text::texts(r@) == seq!["config"@, "get"@, key@],
{
    let mut r: Vec<String> = Vec::new();
    r.push("config".to_owned());
    r.push("get".to_owned());
    r.push(key.to_owned());
    assert(text::texts(r@) =~= seq!["config"@, "get"@, key@]);
    r
}

/// The arguments that set a key in the repository's own configuration.
pub fn set_config(key: &str, value: &str) -> (r: Vec<String>)
    ensures
        text::texts(r@) == seq!["config"@, "set"@, "--repo"@, key@, value@],
{
    let mut r: Vec<String> = Vec::new();
    r.push("config".to_owned());
    r.push("set".to_owned());
    r.push("--repo".to_owned());
    r.push(key.to_owned());
    r.push(value.to_owned());
    assert(text::texts(r@) =~= seq!["config"@, "set"@, "--repo"@, key@, value@]);
    r
}

// ---------------------------------------------------------------------------
// The course of the set-up
// ---------------------------------------------------------------------------
/// What is said at the start.
pub open spec fn intro_text() -> Seq<char> {
    "This will configure jj-vine for your repository.\n"@ + style::dimmed_text(
        "Configuration will be stored in .jj/repo/config.toml"@,
    ) + "\n\n"@
}

/// What is said at the start.
pub fn intro() -> (r: String)
    ensures
        r@ == intro_text(),
{
    "This will configure jj-vine for your repository.\n".to_owned().concat(
        style::dimmed("Configuration will be stored in .jj/repo/config.toml").as_str(),
    ).concat("\n\n")
}

/// The text of a question, with the key that the answer goes to.
pub open spec fn prompt_text(question: Seq<char>, key: Seq<char>) -> Seq<char> {
    style::bold_text(question) + " "@ + style::dimmed_text(key)
}

fn prompt(question: &str, key: &str) -> (r: String)
    ensures
        r@ == prompt_text(question@, key@),
{
    style::bold(question).concat(" ").concat(style::dimmed(key).as_str())
}

/// How far the set-up has come.
#[derive(Debug)]
pub enum InitState {
    /// Nothing has been done.
    Ready,
    /// The forge is being asked for.
    ChoosingForge { remotes: Option<Remotes> },
    /// The remote is being asked for.
    NamingRemote { forge: ForgeType, remotes: Option<Remotes> },
    /// The default branch is being asked for.
    NamingBranch { forge: ForgeType, remotes: Option<Remotes>, remote_name: String },
    /// The forge is being set up.
    SettingUp { forge: ForgeType },
    /// The aliases are being looked up.
    Closing { forge: ForgeType },
    /// Everything has been done.
    Finished,
}

/// What has happened.
#[derive(Debug)]
pub enum InitEvent {
    /// The set-up starts. `forge` is what the command that reads the forge printed, where it
    /// succeeded; `remotes` is the listing of the remotes.
    Start { forge: Option<String>, remotes: Result<String, Error> },
    /// A forge was chosen, by its position in the list.
    ForgeChosen(usize),
    RemoteNamed(String),
    BranchNamed(String),
    SetUp,
    /// The aliases of `jj`, each with its arguments, where they could be read.
    AliasesListed(Option<Vec<(String, Vec<String>)>>),
}

/// What to do next.
#[derive(Debug)]
pub enum InitAction {
    /// Let the operator choose one of the items.
    SelectForge { prompt: String, items: Vec<String> },
    /// Set the keys to the values, then ask for a text. Its default is the value that the key
    /// has, or else the fallback.
    Ask {
        settings: Vec<(String, String)>,
        prompt: String,
        key: String,
        fallback: String,
    },
    /// Set the keys to the values, then set up the forge.
    SetUpForge {
        settings: Vec<(String, String)>,
        forge: ForgeType,
        remotes: Option<Remotes>,
    },
    /// List the aliases of `jj`.
    ListAliases,
    /// Print this and stop.
    Finish { printed: String },
    /// Stop with this error.
    Fail(Error),
}

/// A step of the set-up.
#[derive(Debug)]
pub struct InitStep {
    pub state: InitState,
    pub action: InitAction,
}

/// The forge, where it need not be asked for: the one that is configured, or else the one
/// that merge requests go to.
pub open spec fn known_forge(
    configured: Option<ForgeType>,
    remotes: Option<RemotesView>,
) -> Option<ForgeType> {
    if configured is Some {
        configured
    } else {
        match remotes {
            Some(r) => match r.target_forge {
                Some(forge) => Some(forge.forge_type),
                None => None,
            },
            None => None,
        }
    }
}

/// What optional remotes say.
pub open spec fn opt_remotes(r: Option<Remotes>) -> Option<RemotesView> {
    match r {
        Some(r) => Some(r@),
        None => None,
    }
}

/// The forge, where it need not be asked for.
pub fn choose_forge(
    configured: Option<ForgeType>,
    remotes: &Option<Remotes>,
) -> (r: Option<ForgeType>)
    ensures
        r == known_forge(configured, opt_remotes(*remotes)),
{
    match configured {
        Some(forge) => Some(forge),
        None => match remotes {
            Some(remotes) => match &remotes.target_forge {
                Some(forge) => Some(forge.forge_type),
                None => None,
            },
            None => None,
        },
    }
}

/// The forge that the configuration names. A value that names none counts as absent.
pub open spec fn configured_forge(stdout: Option<Seq<char>>) -> Option<ForgeType> {
    match printed_value(stdout) {
        Some(value) => config::forge_named(text::lowercase(value)),
        None => None,
    }
}

fn read_forge(stdout: Option<&str>) -> (r: Option<ForgeType>)
    ensures
        r == configured_forge(text::opt_slice(stdout)),
{
    match get_config(stdout) {
        Some(value) => match ForgeType::parse(value.as_str()) {
            Ok(forge) => Some(forge),
            Err(_) => None,
        },
        None => None,
    }
}

/// What settings say.
pub open spec fn setting_views(v: Seq<(String, String)>) -> Seq<(Seq<char>, Seq<char>)> {
    Seq::new(v.len(), |i: int| (v[i].0@, v[i].1@))
}

/// The step sets the forge and asks for the remote.
pub open spec fn asks_remote(
    step: InitStep,
    forge: ForgeType,
    remotes: Option<RemotesView>,
) -> bool {
    &&& step.state matches InitState::NamingRemote { forge: f, remotes: r } && f == forge
        && opt_remotes(r) == remotes
    &&& step.action matches InitAction::Ask { settings, prompt, key, fallback } && setting_views(
        settings@,
    ) == seq![("jj-vine.forge"@, forge.text())] && prompt@ == prompt_text(
        "Remote name"@,
        "jj-vine.remoteName"@,
    ) && key@ == "jj-vine.remoteName"@ && fallback@ == "origin"@
}

/// The alias to recommend for a forge.
pub open spec fn recommended_alias(forge: ForgeType) -> Seq<char> {
    match forge {
        ForgeType::GitHub => "mr"@,
        _ => "pr"@,
    }
}

/// The recommendation of an alias.
pub open spec fn recommendation(forge: ForgeType) -> Seq<char> {
    let alias = recommended_alias(forge);
    "\nIt is useful to set up an alias for this command, such as "@ + style::magenta_text(
        style::bold_text("jj "@ + alias),
    ) + "! Run "@ + style::cyan_text(
        "jj config set --user aliases."@ + alias + " '[\"util\", \"exec\", \"--\", \"jj-vine\"]'"@,
    ) + " to set it up."@
}

/// An alias stands for this tool.
pub open spec fn names_tool(args: Seq<Seq<char>>) -> bool {
    exists|i: int|
        0 <= i < args.len() && text::contains_text(#[trigger] args[i], "jj-vine"@)
}

/// The first alias in a list that stands for this tool.
pub open spec fn tool_alias(aliases: Seq<(String, Vec<String>)>) -> Option<Seq<char>>
    decreases aliases.len(),
{
    if aliases.len() == 0 {
        None
    } else if names_tool(text::texts(aliases[0].1@)) {
        Some(aliases[0].0@)
    } else {
        tool_alias(aliases.skip(1))
    }
}

/// What is said at the end, where this alias stands for the tool.
pub open spec fn outro_text(forge: ForgeType, alias: Option<Seq<char>>) -> Seq<char> {
    let message = match alias {
        Some(alias) => "Configuration complete! You can now use: "@ + style::bold_text(
            "jj "@ + alias,
        ) + "."@,
        None => "Configuration complete! You can now use: "@ + style::bold_text(
            "jj-vine submit"@,
        ) + "."@ + recommendation(forge),
    };
    "\n"@ + style::bold_text(style::green_text("✓"@)) + " "@ + style::green_text(message)
        + "\n\nThere are more configuration options available. See all configuration options at https://codeberg.org/abrenneke/jj-vine#configuration.\n"@
}

/// The event answers what is being waited for.
pub open spec fn fits(state: InitState, event: InitEvent) -> bool {
    match state {
        InitState::Ready => event is Start,
        InitState::ChoosingForge { .. } => event matches InitEvent::ForgeChosen(at) && at < 4,
        InitState::NamingRemote { .. } => event is RemoteNamed,
        InitState::NamingBranch { .. } => event is BranchNamed,
        InitState::SettingUp { .. } => event is SetUp,
        InitState::Closing { .. } => event is AliasesListed,
        InitState::Finished => false,
    }
}

/// The forge at a position of the list.
pub open spec fn forge_at(at: int) -> ForgeType {
    if at == 0 {
        ForgeType::GitLab
    } else if at == 1 {
        ForgeType::GitHub
    } else if at == 2 {
        ForgeType::Forgejo
    } else {
        ForgeType::AzureDevOps
    }
}

/// The step that follows an event.
pub open spec fn advances(state: InitState, event: InitEvent, step: InitStep) -> bool {
    match (state, event) {
        (InitState::Ready, InitEvent::Start { forge, remotes }) => match remotes {
            Err(e) => step.state is Finished && (step.action matches InitAction::Fail(told)
                && told == e),
            Ok(listing) => {
                let lines = text::lines(listing@);
                let bad = first_malformed(lines);
                if bad < lines.len() {
                    step.state is Finished && (step.action matches InitAction::Fail(
                        Error::Other { message },
                    ) && message@ == "Failed to parse remote line: "@ + lines[bad])
                } else {
                    match known_forge(configured_forge(text::opt_text(forge)), triaged(lines)) {
                        Some(known) => asks_remote(step, known, triaged(lines)),
                        None => {
                            &&& step.state matches InitState::ChoosingForge { remotes: r }
                                && opt_remotes(r) == triaged(lines)
                            &&& step.action matches InitAction::SelectForge { prompt, items }
                                && prompt@ == prompt_text(
                                "Which code forge are you using?"@,
                                "jj-vine.forge"@,
                            ) && text::texts(items@) == seq![
                                "GitLab"@,
                                "GitHub"@,
                                "Forgejo"@,
                                "Azure DevOps"@,
                            ]
                        },
                    }
                }
            },
        },
        (InitState::ChoosingForge { remotes }, InitEvent::ForgeChosen(at)) => asks_remote(
            step,
            forge_at(at as int),
            opt_remotes(remotes),
        ),
        (InitState::NamingRemote { forge, remotes }, InitEvent::RemoteNamed(name)) => {
            &&& step.state matches InitState::NamingBranch { forge: f, remotes: r, remote_name }
                && f == forge && r == remotes && remote_name == name
            &&& step.action matches InitAction::Ask { settings, prompt, key, fallback }
                && settings@.len() == 0 && prompt@ == prompt_text(
                "Default branch"@,
                "jj-vine.defaultBranch"@,
            ) && key@ == "jj-vine.defaultBranch"@ && fallback@ == "main"@
        },
        (
            InitState::NamingBranch { forge, remotes, remote_name },
            InitEvent::BranchNamed(branch),
        ) => {
            &&& step.state matches InitState::SettingUp { forge: f } && f == forge
            &&& step.action matches InitAction::SetUpForge { settings, forge: f, remotes: r }
                && setting_views(settings@) == seq![
                ("jj-vine.remoteName"@, remote_name@),
                ("jj-vine.defaultBranch"@, branch@),
            ] && f == forge && r == remotes
        },
        (InitState::SettingUp { forge }, InitEvent::SetUp) => {
            &&& step.state matches InitState::Closing { forge: f } && f == forge
            &&& step.action is ListAliases
        },
        (InitState::Closing { forge }, InitEvent::AliasesListed(aliases)) => {
            &&& step.state is Finished
            &&& step.action matches InitAction::Finish { printed } && printed@ == outro_text(
                forge,
                match aliases {
                    Some(list) => tool_alias(list@),
                    None => None,
                },
            )
        },
        _ => true,
    }
}

fn ask_remote(forge: ForgeType, remotes: Option<Remotes>) -> (step: InitStep)
    ensures
        asks_remote(step, forge, opt_remotes(remotes)),
{
    let mut settings: Vec<(String, String)> = Vec::new();
    settings.push(("jj-vine.forge".to_owned(), forge.to_string()));
    assert(setting_views(settings@) =~= seq![("jj-vine.forge"@, forge.text())]);
    InitStep {
        state: InitState::NamingRemote { forge, remotes },
        action: InitAction::Ask {
            settings,
            prompt: prompt("Remote name", "jj-vine.remoteName"),
            key: "jj-vine.remoteName".to_owned(),
            fallback: "origin".to_owned(),
        },
    }
}

fn fail(e: Error) -> (step: InitStep)
    ensures
        step.state is Finished,
        step.action matches InitAction::Fail(told) && told == e,
{
    InitStep { state: InitState::Finished, action: InitAction::Fail(e) }
}

/// Whether an alias stands for this tool.
fn is_tool(args: &Vec<String>) -> (r: bool)
    ensures
        r == names_tool(text::texts(args@)),
{
    let n = args.len();
    let mut i: usize = 0;
    while i < n
        invariant
            n == args@.len(),
            i <= n,
            forall|k: int|
                0 <= k < i ==> !text::contains_text(
                    #[trigger] text::texts(args@)[k],
                    "jj-vine"@,
                ),
        decreases n - i,
    {
        assert(text::texts(args@)[i as int] == args@[i as int]@);
        if text::str_contains(args[i].as_str(), "jj-vine") {
            return true;
        }
        i += 1;
    }
    false
}

/// The first alias in a list that stands for this tool.
pub fn find_tool_alias(aliases: &Vec<(String, Vec<String>)>) -> (r: Option<String>)
    ensures
        text::opt_text(r) == tool_alias(aliases@),
{
    let n = aliases.len();
    let mut i: usize = 0;
    assert(aliases@.skip(0) == aliases@);
    while i < n
        invariant
            n == aliases@.len(),
            i <= n,
            tool_alias(aliases@) == tool_alias(aliases@.skip(i as int)),
        decreases n - i,
    {
        assert(aliases@.skip(i as int)[0] == aliases@[i as int]);
        if is_tool(&aliases[i].1) {
            return Some(aliases[i].0.clone());
        }
        assert(aliases@.skip(i as int).skip(1) == aliases@.skip(i + 1));
        i += 1;
    }
    None
}

/// What is said at the end, where this alias stands for the tool.
pub fn outro(forge: ForgeType, alias: Option<&str>) -> (r: String)
    ensures
        r@ == outro_text(forge, text::opt_slice(alias)),
{
    let message = match alias {
        Some(alias) => {
            let command = "jj ".to_owned().concat(alias);
            "Configuration complete! You can now use: ".to_owned().concat(
                style::bold(command.as_str()).as_str(),
            ).concat(".")
        },
        None => {
            let short = match forge {
                ForgeType::GitHub => "mr",
                _ => "pr",
            };
            let command = "jj ".to_owned().concat(short);
            let set_up = "jj config set --user aliases.".to_owned().concat(short).concat(
                " '[\"util\", \"exec\", \"--\", \"jj-vine\"]'",
            );
            let advice =
                "\nIt is useful to set up an alias for this command, such as ".to_owned().concat(
                style::magenta(style::bold(command.as_str()).as_str()).as_str(),
            ).concat("! Run ").concat(style::cyan(set_up.as_str()).as_str()).concat(
                " to set it up.",
            );
            "Configuration complete! You can now use: ".to_owned().concat(
                style::bold("jj-vine submit").as_str(),
            ).concat(".").concat(advice.as_str())
        },
    };
    "\n".to_owned().concat(style::bold(style::green("✓").as_str()).as_str()).concat(" ").concat(
        style::green(message.as_str()).as_str(),
    ).concat(
        "\n\nThere are more configuration options available. See all configuration options at https://codeberg.org/abrenneke/jj-vine#configuration.\n",
    )
}

/// The step that follows an event. The caller carries out the action and hands back what came
/// of it, until the set-up has ended.
pub fn init(state: InitState, event: InitEvent) -> (step: InitStep)
    requires
        fits(state, event),
    ensures
        advances(state, event, step),
{
    match (state, event) {
        (InitState::Ready, InitEvent::Start { forge, remotes }) => {
            let listing = match remotes {
                Ok(listing) => listing,
                Err(e) => return fail(e),
            };
            let remotes = match detect_remotes(listing.as_str()) {
                Ok(remotes) => remotes,
                Err(e) => return fail(e),
            };
            let configured = match &forge {
                Some(value) => read_forge(Some(value.as_str())),
                None => read_forge(None),
            };
            match choose_forge(configured, &remotes) {
                Some(known) => ask_remote(known, remotes),
                None => {
                    let mut items: Vec<String> = Vec::new();
                    items.push(ForgeType::GitLab.display_name().to_owned());
                    items.push(ForgeType::GitHub.display_name().to_owned());
                    items.push(ForgeType::Forgejo.display_name().to_owned());
                    items.push(ForgeType::AzureDevOps.display_name().to_owned());
                    assert(text::texts(items@) =~= seq![
                        "GitLab"@,
                        "GitHub"@,
                        "Forgejo"@,
                        "Azure DevOps"@,
                    ]);
                    InitStep {
                        state: InitState::ChoosingForge { remotes },
                        action: InitAction::SelectForge {
                            prompt: prompt("Which code forge are you using?", "jj-vine.forge"),
                            items,
                        },
                    }
                },
            }
        },
        (InitState::ChoosingForge { remotes }, InitEvent::ForgeChosen(at)) => {
            let all = ForgeType::variants();
            let forge = all[at];
            assert(forge == forge_at(at as int));
            ask_remote(forge, remotes)
        },
        (InitState::NamingRemote { forge, remotes }, InitEvent::RemoteNamed(name)) => InitStep {
            state: InitState::NamingBranch { forge, remotes, remote_name: name },
            action: InitAction::Ask {
                settings: Vec::new(),
                prompt: prompt("Default branch", "jj-vine.defaultBranch"),
                key: "jj-vine.defaultBranch".to_owned(),
                fallback: "main".to_owned(),
            },
        },
        (
            InitState::NamingBranch { forge, remotes, remote_name },
            InitEvent::BranchNamed(branch),
        ) => {
            let mut settings: Vec<(String, String)> = Vec::new();
            let ghost expected = seq![
                ("jj-vine.remoteName"@, remote_name@),
                ("jj-vine.defaultBranch"@, branch@),
            ];
            settings.push(("jj-vine.remoteName".to_owned(), remote_name));
            settings.push(("jj-vine.defaultBranch".to_owned(), branch));
            assert(setting_views(settings@) =~= expected);
            InitStep {
                state: InitState::SettingUp { forge },
                action: InitAction::SetUpForge { settings, forge, remotes },
            }
        },
        (InitState::SettingUp { forge }, InitEvent::SetUp) => InitStep {
            state: InitState::Closing { forge },
            action: InitAction::ListAliases,
        },
        (InitState::Closing { forge }, InitEvent::AliasesListed(aliases)) => {
            let alias = match &aliases {
                Some(list) => find_tool_alias(list),
                None => None,
            };
            let printed = match &alias {
                Some(alias) => outro(forge, Some(alias.as_str())),
                None => outro(forge, None),
            };
            InitStep { state: InitState::Finished, action: InitAction::Finish { printed } }
        },
        _ => InitStep {
            state: InitState::Finished,
            action: InitAction::Finish { printed: String::new() },
        },
    }
}

/// How many steps the set-up has yet to take at most.
pub open spec fn steps_left(state: InitState) -> nat {
    match state {
        InitState::Ready => 6,
        InitState::ChoosingForge { .. } => 5,
        InitState::NamingRemote { .. } => 4,
        InitState::NamingBranch { .. } => 3,
        InitState::SettingUp { .. } => 2,
        InitState::Closing { .. } => 1,
        InitState::Finished => 0,
    }
}

/// Every step brings the set-up nearer to its end, so that nothing is asked for twice, and it
/// has ended exactly where there is nothing more to do.
pub proof fn every_step_makes_progress(state: InitState, event: InitEvent, step: InitStep)
    requires
        fits(state, event),
        advances(state, event, step),
    ensures
        steps_left(step.state) < steps_left(state),
        step.state is Finished <==> step.action is Finish || step.action is Fail,
{
}

/// The forge is never asked for where the configuration names one, and that one is kept.
pub proof fn configured_forge_is_kept(
    forge: Option<String>,
    remotes: Result<String, Error>,
    step: InitStep,
)
    requires
        configured_forge(text::opt_text(forge)) is Some,
        advances(InitState::Ready, InitEvent::Start { forge, remotes }, step),
    ensures
        !(step.state is ChoosingForge),
        step.state matches InitState::NamingRemote { forge: f, .. } ==> Some(f)
            == configured_forge(text::opt_text(forge)),
{
}

// ---------------------------------------------------------------------------
// Laws of the set-up
// ---------------------------------------------------------------------------
/// The operator gets the forge that was chosen: of the list that was offered, which holds every
/// forge by its name for people, the item at the chosen position. That forge is set, and the set-up
/// goes on with it and with the remotes that were found.
pub proof fn chosen_forge_is_set_up(
    configured: Option<String>,
    listing: Result<String, Error>,
    first: InitStep,
    at: usize,
    second: InitStep,
    forge: ForgeType,
    shown: &str,
    written: String,
    all: Vec<ForgeType>,
)
    requires
        call_ensures(
            init,
            (InitState::Ready, InitEvent::Start { forge: configured, remotes: listing }),
            first,
        ),
        first.action is SelectForge,
        at < first.action->items@.len(),
        call_ensures(init, (first.state, InitEvent::ForgeChosen(at)), second),
        second.state matches InitState::NamingRemote { forge: f, .. } && f == forge,
        call_ensures(ForgeType::display_name, (&forge,), shown),
        call_ensures(ForgeType::to_string, (&forge,), written),
        call_ensures(ForgeType::variants, (), all),
    ensures
        first.state is ChoosingForge,
        first.action->items@.len() == all@.len(),
        first.action->items@[at as int]@ == shown@,
        forge == ForgeType::GitLab <==> first.action->items@[at as int]@ == "GitLab"@,
        forge == ForgeType::GitHub <==> first.action->items@[at as int]@ == "GitHub"@,
        forge == ForgeType::Forgejo <==> first.action->items@[at as int]@ == "Forgejo"@,
        forge == ForgeType::AzureDevOps <==> first.action->items@[at as int]@ == "Azure DevOps"@,
        second.action matches InitAction::Ask { settings, .. } && settings@.len() == 1
            && settings@[0].0@ == "jj-vine.forge"@ && settings@[0].1@ == written@,
        opt_remotes(second.state->NamingRemote_remotes) == opt_remotes(
            first.state->ChoosingForge_remotes,
        ),
{
    reveal_strlit("GitLab");
    reveal_strlit("GitHub");
    reveal_strlit("Forgejo");
    reveal_strlit("Azure DevOps");
    assert("GitLab"@[3] != "GitHub"@[3]);
    assert("Forgejo"@.len() != "GitLab"@.len());
    assert("Azure DevOps"@.len() != "GitLab"@.len());
    let items = first.action->items@;
    assert(text::texts(items).len() == items.len());
    assert(text::texts(items)[at as int] == items[at as int]@);
    let settings = second.action->Ask_settings@;
    assert(setting_views(settings).len() == settings.len());
    assert(setting_views(settings)[0] == (settings[0].0@, settings[0].1@));
}

/// After any choice a forge is set up: choosing leads to asking for the remote.
pub proof fn choosing_goes_on(remotes: Option<Remotes>, at: usize, step: InitStep)
    requires
        at < 4,
        call_ensures(
            init,
            (InitState::ChoosingForge { remotes }, InitEvent::ForgeChosen(at)),
            step,
        ),
    ensures
        step.state is NamingRemote,
        step.action is Ask,
{
}

/// The forge need not be asked for where the configuration names one, and else where the remotes
/// point to one. Whatever the forge, it is set, and the remote is asked for next.
pub proof fn known_forge_is_not_asked_for(
    configured: Option<String>,
    value: &str,
    named: Result<ForgeType, Error>,
    listing: String,
    text: &str,
    found: Option<Remotes>,
    written: String,
    step: InitStep,
)
    requires
        text@ == listing@,
        call_ensures(detect_remotes, (text,), Ok(found)),
        configured matches Some(s) ==> value@ == text::trim(s@),
        call_ensures(ForgeType::parse, (value,), named),
        call_ensures(
            init,
            (InitState::Ready, InitEvent::Start { forge: configured, remotes: Ok(listing) }),
            step,
        ),
        step.state matches InitState::NamingRemote { forge, .. } ==> call_ensures(
            ForgeType::to_string,
            (&forge,),
            written,
        ),
    ensures
        configured is Some && value@.len() > 0 && named is Ok ==> step.state is NamingRemote
            && step.state->NamingRemote_forge == named->Ok_0,
        configured is None || value@.len() == 0 || named is Err ==> (match found {
            Some(remotes) => match remotes.target_forge {
                Some(forge) => step.state is NamingRemote && step.state->NamingRemote_forge
                    == forge.forge_type,
                None => step.state is ChoosingForge && step.action is SelectForge,
            },
            None => step.state is ChoosingForge && step.action is SelectForge,
        }),
        step.state is NamingRemote ==> {
            &&& opt_remotes(step.state->NamingRemote_remotes) == opt_remotes(found)
            &&& step.action matches InitAction::Ask { settings, key, fallback, .. }
                && settings@.len() == 1 && settings@[0].0@ == "jj-vine.forge"@ && settings@[0].1@
                == written@ && key@ == "jj-vine.remoteName"@ && fallback@ == "origin"@
        },
        step.state is ChoosingForge ==> opt_remotes(step.state->ChoosingForge_remotes)
            == opt_remotes(found),
{
    let lines = text::lines(listing@);
    assert(triaged(lines) == opt_remotes(found));
    if step.state is NamingRemote {
        let settings = step.action->Ask_settings@;
        assert(setting_views(settings).len() == settings.len());
        assert(setting_views(settings)[0] == (settings[0].0@, settings[0].1@));
    }
}

/// Where the remotes could not be listed, or a line of the listing could not be read, the set-up
/// stops with that error and sets nothing.
pub proof fn unreadable_remotes_stop_the_set_up(
    configured: Option<String>,
    listing: Result<String, Error>,
    text: &str,
    e: Error,
    step: InitStep,
)
    requires
        listing matches Ok(listing) ==> text@ == listing@ && call_ensures(
            detect_remotes,
            (text,),
            Err::<Option<Remotes>, Error>(e),
        ),
        listing matches Err(told) ==> told == e,
        call_ensures(
            init,
            (InitState::Ready, InitEvent::Start { forge: configured, remotes: listing }),
            step,
        ),
    ensures
        step.state is Finished,
        step.action matches InitAction::Fail(told) && told.text() == e.text(),
{
}

/// What the operator answers is what is set, each under its key: the remote, and the default
/// branch. The forge and the remotes stay what they were, and when the forge has been set up only
/// the aliases are left to look at.
pub proof fn answers_are_set(
    forge: ForgeType,
    remotes: Option<Remotes>,
    name: String,
    branch: String,
    asked: InitStep,
    set: InitStep,
    last: InitStep,
)
    requires
        call_ensures(
            init,
            (InitState::NamingRemote { forge, remotes }, InitEvent::RemoteNamed(name)),
            asked,
        ),
        call_ensures(init, (asked.state, InitEvent::BranchNamed(branch)), set),
        call_ensures(init, (set.state, InitEvent::SetUp), last),
    ensures
        asked.action matches InitAction::Ask { settings, prompt, key, fallback } && settings@.len()
            == 0 && key@ == "jj-vine.defaultBranch"@ && fallback@ == "main"@ && text::contains_text(
            prompt@,
            "jj-vine.defaultBranch"@,
        ),
        set.action matches InitAction::SetUpForge { settings, forge: f, remotes: r } && f == forge
            && r == remotes && settings@.len() == 2 && settings@[0].0@ == "jj-vine.remoteName"@
            && settings@[0].1@ == name@ && settings@[1].0@ == "jj-vine.defaultBranch"@
            && settings@[1].1@ == branch@,
        last.action is ListAliases,
        last.state matches InitState::Closing { forge: f } && f == forge,
{
    lemma_prompt_shows("Default branch"@, "jj-vine.defaultBranch"@);
    let settings = set.action->SetUpForge_settings@;
    assert(setting_views(settings).len() == settings.len());
    assert(setting_views(settings)[0] == (settings[0].0@, settings[0].1@));
    assert(setting_views(settings)[1] == (settings[1].0@, settings[1].1@));
}

proof fn lemma_prompt_shows(question: Seq<char>, key: Seq<char>)
    ensures
        text::contains_text(prompt_text(question, key), question),
        text::contains_text(prompt_text(question, key), key),
{
    style::lemma_bold_shows(question);
    style::lemma_dimmed_shows(key);
    let head = style::bold_text(question);
    let tail = style::dimmed_text(key);
    text::lemma_contains_inside(Seq::empty(), head, " "@ + tail, question);
    assert(Seq::<char>::empty() + head + (" "@ + tail) =~= prompt_text(question, key));
    text::lemma_contains_inside(head + " "@, tail, Seq::empty(), key);
    assert(head + " "@ + tail + Seq::<char>::empty() =~= prompt_text(question, key));
}

/// The words that set and read a key: the key behind the verb, the value last, and only in the
/// repository's own configuration.
pub proof fn settings_go_to_the_repository(
    key: &str,
    value: &str,
    set: Vec<String>,
    read: Vec<String>,
)
    requires
        call_ensures(set_config, (key, value), set),
        call_ensures(get_config_args, (key,), read),
    ensures
        set@.len() == 5,
        set@[0]@ == "config"@,
        set@[1]@ == "set"@,
        set@[2]@ == "--repo"@,
        set@[3]@ == key@,
        set@[4]@ == value@,
        read@.len() == 3,
        read@[0]@ == "config"@,
        read@[1]@ == "get"@,
        read@[2]@ == key@,
{
    let s = text::texts(set@);
    let r = text::texts(read@);
    assert(s.len() == set@.len() && r.len() == read@.len());
    assert(s[0] == set@[0]@ && s[1] == set@[1]@ && s[2] == set@[2]@ && s[3] == set@[3]@ && s[4]
        == set@[4]@);
    assert(r[0] == read@[0]@ && r[1] == read@[1]@ && r[2] == read@[2]@);
}

/// A value that was printed is read without the white space around it, and a blank one counts as
/// absent.
pub proof fn printed_value_is_read(stdout: Option<&str>, r: Option<String>)
    requires
        call_ensures(get_config, (stdout,), r),
    ensures
        r is Some <==> stdout is Some && text::trim(stdout->0@).len() > 0,
        r is Some ==> r->0@ == text::trim(stdout->0@),
{
}

proof fn lemma_tool_alias(aliases: Seq<(String, Vec<String>)>) -> (at: int)
    ensures
        tool_alias(aliases) is None ==> forall|i: int|
            0 <= i < aliases.len() ==> !names_tool(text::texts((#[trigger] aliases[i]).1@)),
        tool_alias(aliases) matches Some(name) ==> 0 <= at < aliases.len() && name
            == aliases[at].0@ && names_tool(text::texts(aliases[at].1@)) && forall|i: int|
            0 <= i < at ==> !names_tool(text::texts((#[trigger] aliases[i]).1@)),
    decreases aliases.len(),
{
    if aliases.len() == 0 || names_tool(text::texts(aliases[0].1@)) {
        0
    } else {
        let rest = aliases.skip(1);
        let at = lemma_tool_alias(rest);
        assert forall|i: int| 0 <= i < at + 1 && i < aliases.len() && tool_alias(
            aliases,
        ) is Some implies !names_tool(text::texts((#[trigger] aliases[i]).1@)) by {
            if i > 0 {
                assert(rest[i - 1] == aliases[i]);
            }
        }
        assert forall|i: int| 0 <= i < aliases.len() && tool_alias(
            aliases,
        ) is None implies !names_tool(text::texts((#[trigger] aliases[i]).1@)) by {
            if i > 0 {
                assert(rest[i - 1] == aliases[i]);
            }
        }
        at + 1
    }
}

proof fn lemma_outro_shows(forge: ForgeType, alias: Option<Seq<char>>, inner: Seq<char>)
    requires
        alias matches Some(alias) ==> inner == "jj "@ + alias,
        alias is None ==> inner == "jj-vine submit"@ || inner == "jj config set --user aliases."@
            + recommended_alias(forge) + " '[\"util\", \"exec\", \"--\", \"jj-vine\"]'"@,
    ensures
        text::contains_text(outro_text(forge, alias), inner),
{
    let done = "Configuration complete! You can now use: "@;
    let message = match alias {
        Some(alias) => done + style::bold_text("jj "@ + alias) + "."@,
        None => done + style::bold_text("jj-vine submit"@) + "."@ + recommendation(forge),
    };
    if alias is Some || inner == "jj-vine submit"@ {
        style::lemma_bold_shows(inner);
        let tail = if alias is Some {
            "."@
        } else {
            "."@ + recommendation(forge)
        };
        text::lemma_contains_inside(done, style::bold_text(inner), tail, inner);
        assert(message =~= done + style::bold_text(inner) + tail);
    } else {
        style::lemma_cyan_shows(inner);
        let head = done + style::bold_text("jj-vine submit"@) + "."@
            + ("\nIt is useful to set up an alias for this command, such as "@
            + style::magenta_text(style::bold_text("jj "@ + recommended_alias(forge))) + "! Run "@);
        text::lemma_contains_inside(
            head,
            style::cyan_text(inner),
            " to set it up."@,
            inner,
        );
        assert(message =~= head + style::cyan_text(inner) + " to set it up."@);
    }
    let green = style::green_text(message);
    text::lemma_contains_inside("\u{1b}[32m"@, message, "\u{1b}[39m"@, inner);
    assert(green == "\u{1b}[32m"@ + message + "\u{1b}[39m"@);
    let start = "\n"@ + style::bold_text(style::green_text("✓"@)) + " "@;
    let end =
        "\n\nThere are more configuration options available. See all configuration options at https://codeberg.org/abrenneke/jj-vine#configuration.\n"@;
    text::lemma_contains_inside(start, green, end, inner);
    assert(outro_text(forge, alias) =~= start + green + end);
}

/// At the end the operator is told a command that works: the first alias of which an argument
/// names the tool, or, where there is none, the tool itself, with how to set up the alias that is
/// recommended for the forge.
pub proof fn operator_is_told_a_command(
    forge: ForgeType,
    aliases: Option<Vec<(String, Vec<String>)>>,
    step: InitStep,
)
    requires
        call_ensures(
            init,
            (InitState::Closing { forge }, InitEvent::AliasesListed(aliases)),
            step,
        ),
    ensures
        step.state is Finished,
        step.action is Finish,
        ({
            let printed = step.action->printed@;
            let stands_for_tool = |args: Vec<String>|
                exists|k: int|
                    0 <= k < args@.len() && text::contains_text(
                        (#[trigger] args@[k])@,
                        "jj-vine"@,
                    );
            &&& aliases matches Some(list) ==> forall|i: int|
                0 <= i < list@.len() && stands_for_tool((#[trigger] list@[i]).1) && (forall|j: int|
                    0 <= j < i ==> !stands_for_tool((#[trigger] list@[j]).1))
                    ==> text::contains_text(printed, "jj "@ + list@[i].0@)
            &&& aliases is None || (forall|i: int|
                0 <= i < aliases->0@.len() ==> !stands_for_tool((#[trigger] aliases->0@[i]).1)) ==> {
                &&& text::contains_text(printed, "jj-vine submit"@)
                &&& forge == ForgeType::GitHub ==> text::contains_text(
                    printed,
                    "jj config set --user aliases."@ + "mr"@
                        + " '[\"util\", \"exec\", \"--\", \"jj-vine\"]'"@,
                )
                &&& forge != ForgeType::GitHub ==> text::contains_text(
                    printed,
                    "jj config set --user aliases."@ + "pr"@
                        + " '[\"util\", \"exec\", \"--\", \"jj-vine\"]'"@,
                )
            }
        }),
{
    let printed = step.action->printed@;
    let stands_for_tool = |args: Vec<String>|
        exists|k: int|
            0 <= k < args@.len() && text::contains_text((#[trigger] args@[k])@, "jj-vine"@);
    if let Some(list) = aliases {
        let at = lemma_tool_alias(list@);
        assert forall|i: int| 0 <= i < list@.len() implies (stands_for_tool((#[trigger] list@[i]).1)
            <==> names_tool(text::texts(list@[i].1@))) by {
            let args = list@[i].1;
            let words = text::texts(args@);
            if names_tool(words) {
                let k = choose|k: int|
                    0 <= k < words.len() && text::contains_text(#[trigger] words[k], "jj-vine"@);
                assert(words[k] == args@[k]@);
            }
            if stands_for_tool(args) {
                let k = choose|k: int|
                    0 <= k < args@.len() && text::contains_text(
                        (#[trigger] args@[k])@,
                        "jj-vine"@,
                    );
                assert(words[k] == args@[k]@);
                assert(text::contains_text(words[k], "jj-vine"@));
            }
        }
        assert forall|i: int|
            0 <= i < list@.len() && stands_for_tool((#[trigger] list@[i]).1) && (forall|j: int|
                0 <= j < i ==> !stands_for_tool((#[trigger] list@[j]).1)) implies
            text::contains_text(printed, "jj "@ + list@[i].0@) by {
            assert(names_tool(text::texts(list@[i].1@)));
            if at < i {
                assert(!stands_for_tool(list@[at].1));
            }
            assert(i == at);
            lemma_outro_shows(forge, Some(list@[i].0@), "jj "@ + list@[i].0@);
        }
        if forall|i: int| 0 <= i < list@.len() ==> !stands_for_tool((#[trigger] list@[i]).1) {
            if tool_alias(list@) is Some {
                assert(stands_for_tool(list@[at].1));
            }
        }
    }
    if aliases is None || (forall|i: int|
        0 <= i < aliases->0@.len() ==> !stands_for_tool((#[trigger] aliases->0@[i]).1)) {
        lemma_outro_shows(forge, None, "jj-vine submit"@);
        lemma_outro_shows(
            forge,
            None,
            "jj config set --user aliases."@ + recommended_alias(forge)
                + " '[\"util\", \"exec\", \"--\", \"jj-vine\"]'"@,
        );
    }
}

/// Which remotes are found. Without an `origin` there are none. An `upstream` is what merge
/// requests go to. Without one, a `fork` is what is pushed to, and merge requests go to the
/// `origin`; without a fork they go where is pushed. The forge is always that of the URL that they
/// go to.
pub proof fn remotes_by_their_names(
    listing: &str,
    lines: Vec<&str>,
    origin_name: &str,
    upstream_name: &str,
    fork_name: &str,
    origin: Option<&str>,
    upstream: Option<&str>,
    fork: Option<&str>,
    target: &str,
    forge: Option<DetectedForge>,
    found: Option<Remotes>,
)
    requires
        call_ensures(text::str_lines, (listing,), lines),
        origin_name@ == "origin"@,
        upstream_name@ == "upstream"@,
        fork_name@ == "fork"@,
        call_ensures(remote::find_url, (&lines, origin_name), origin),
        call_ensures(remote::find_url, (&lines, upstream_name), upstream),
        call_ensures(remote::find_url, (&lines, fork_name), fork),
        call_ensures(detect_remotes, (listing,), Ok(found)),
        upstream is Some ==> target@ == upstream->0@,
        upstream is None && origin is Some ==> target@ == origin->0@,
        call_ensures(remote::parse_forge_url, (target,), forge),
    ensures
        found is None <==> origin is None,
        found is Some ==> remote::opt_detected(found->0.target_forge) == remote::opt_detected(
            forge,
        ),
        found is Some && upstream is Some ==> found->0.origin@ == origin->0@ && text::opt_text(
            found->0.upstream,
        ) == text::opt_slice(upstream),
        found is Some && upstream is None && fork is Some ==> found->0.origin@ == fork->0@
            && text::opt_text(found->0.upstream) == text::opt_slice(origin),
        found is Some && upstream is None && fork is None ==> found->0.origin@ == origin->0@
            && found->0.upstream is None,
{
    if found is Some {
        assert(found->0@ == triaged(text::lines(listing@))->0);
    }
}

/// A listing of remotes can be read exactly where every line holds two words; else the error shows
/// the first line that does not.
pub proof fn every_line_is_a_remote(
    listing: &str,
    lines: Vec<&str>,
    r: Result<Option<Remotes>, Error>,
)
    requires
        call_ensures(text::str_lines, (listing,), lines),
        call_ensures(detect_remotes, (listing,), r),
    ensures
        r is Ok <==> forall|i: int|
            0 <= i < lines@.len() ==> text::words((#[trigger] lines@[i])@).len() == 2,
        forall|i: int|
            0 <= i < lines@.len() && text::words((#[trigger] lines@[i])@).len() != 2 && (forall|
                j: int,
            |
                0 <= j < i ==> text::words((#[trigger] lines@[j])@).len() == 2)
                ==> text::contains_text(r->Err_0.text(), lines@[i]@),
{
    let all = text::lines(listing@);
    assert(text::slices(lines@).len() == lines@.len());
    assert forall|i: int| 0 <= i < lines@.len() implies all[i] == (#[trigger] lines@[i])@ by {
        assert(text::slices(lines@)[i] == lines@[i]@);
    }
    lemma_first_malformed(all);
    let bad = first_malformed(all);
    if bad < all.len() {
        assert(text::words(lines@[bad]@).len() != 2);
        let head = "Failed to parse remote line: "@;
        text::lemma_contains_middle(head, all[bad], Seq::empty());
        assert(head + all[bad] + Seq::<char>::empty() =~= head + all[bad]);
        assert forall|i: int|
            0 <= i < lines@.len() && text::words((#[trigger] lines@[i])@).len() != 2 && (forall|
                j: int,
            |
                0 <= j < i ==> text::words((#[trigger] lines@[j])@).len() == 2) implies
            text::contains_text(r->Err_0.text(), lines@[i]@) by {
            if bad < i {
                assert(text::words(lines@[bad]@).len() == 2);
            }
            assert(i == bad) by {
                if i < bad {
                    assert(text::words(all[i]).len() == 2);
                }
            }
        }
    } else {
        assert forall|i: int| 0 <= i < lines@.len() implies text::words(
            (#[trigger] lines@[i])@,
        ).len() == 2 by {
            assert(text::words(all[i]).len() == 2);
        }
    }
}

proof fn lemma_first_malformed(lines: Seq<Seq<char>>)
    ensures
        0 <= first_malformed(lines) <= lines.len(),
        forall|i: int|
            0 <= i < first_malformed(lines) ==> text::words(#[trigger] lines[i]).len() == 2,
        first_malformed(lines) < lines.len() ==> text::words(lines[first_malformed(lines)]).len()
            != 2,
    decreases lines.len(),
{
    if lines.len() > 0 && remote::remote_entry(lines[0]) is Some {
        let rest = lines.skip(1);
        lemma_first_malformed(rest);
        assert forall|i: int| 0 <= i < first_malformed(lines) implies text::words(
            #[trigger] lines[i],
        ).len() == 2 by {
            if i > 0 {
                assert(rest[i - 1] == lines[i]);
            }
        }
    }
}

/// Every question is asked in its own words, and shows the key that the answer goes to.
pub proof fn questions_show_their_keys(
    state: InitState,
    event: InitEvent,
    step: InitStep,
)
    requires
        fits(state, event),
        call_ensures(init, (state, event), step),
    ensures
        step.action matches InitAction::SelectForge { prompt, .. } ==> text::contains_text(
            prompt@,
            "Which code forge are you using?"@,
        ) && text::contains_text(prompt@, "jj-vine.forge"@),
        step.action matches InitAction::Ask { prompt, key, fallback, .. } ==> {
            &&& text::contains_text(prompt@, key@)
            &&& step.state is NamingRemote ==> key@ == "jj-vine.remoteName"@ && fallback@
                == "origin"@ && text::contains_text(prompt@, "Remote name"@)
            &&& step.state is NamingBranch ==> key@ == "jj-vine.defaultBranch"@ && fallback@
                == "main"@ && text::contains_text(prompt@, "Default branch"@)
            &&& step.state is NamingRemote || step.state is NamingBranch
        },
{
    lemma_prompt_shows("Which code forge are you using?"@, "jj-vine.forge"@);
    lemma_prompt_shows("Remote name"@, "jj-vine.remoteName"@);
    lemma_prompt_shows("Default branch"@, "jj-vine.defaultBranch"@);
}

/// At the start the operator is told what will be configured, and where that is stored.
pub proof fn start_tells_what_is_configured(r: String)
    requires
        call_ensures(intro, (), r),
    ensures
        text::starts_with(r@, "This will configure jj-vine for your repository.\n"@),
        text::contains_text(r@, "Configuration will be stored in .jj/repo/config.toml"@),
{
    let head = "This will configure jj-vine for your repository.\n"@;
    let place = "Configuration will be stored in .jj/repo/config.toml"@;
    style::lemma_dimmed_shows(place);
    text::lemma_contains_inside(head, style::dimmed_text(place), "\n\n"@, place);
    assert(r@.subrange(0, head.len() as int) =~= head);
}

/// The forge that is configured goes before the one that the remotes point to.
pub proof fn configured_forge_goes_first(
    configured: Option<ForgeType>,
    remotes: Option<Remotes>,
    r: Option<ForgeType>,
)
    requires
        call_ensures(choose_forge, (configured, &remotes), r),
    ensures
        configured is Some ==> r == configured,
        configured is None ==> (remotes matches Some(found) ==> match found.target_forge {
            Some(forge) => r == Some(forge.forge_type),
            None => r is None,
        }),
        configured is None && remotes is None ==> r is None,
{
}

} // verus!
