//! The configuration of a repository.
use crate::bytes;
use crate::error;
use crate::error::Error;
use crate::forge;
use crate::process::{RawOutput, Spawned};
use crate::remote;
use crate::text;
use crate::toml_text;
use vstd::prelude::*;
use vstd::utf8::*;

verus! {

// ---------------------------------------------------------------------------
// Forges
// ---------------------------------------------------------------------------
/// Forge type.
#[derive(Debug, Clone, Copy, PartialEq, Eq, Structural)]
pub enum ForgeType {
    /// GitLab (GitLab.com or self-hosted).
    GitLab,
    /// GitHub (GitHub.com or GitHub Enterprise).
    GitHub,
    /// Forgejo/Gitea (self-hosted or Codeberg).
    Forgejo,
    /// Azure DevOps.
    AzureDevOps,
}

/// The forge that a host name points to.
pub open spec fn forge_of_host(host: Seq<char>) -> Option<ForgeType> {
    if text::contains_text(host, "gitlab"@) {
        Some(ForgeType::GitLab)
    } else if text::contains_text(host, "github"@) {
        Some(ForgeType::GitHub)
    } else if text::contains_text(host, "forgejo"@) || text::contains_text(host, "gitea"@)
        || text::contains_text(host, "codeberg"@) {
        Some(ForgeType::Forgejo)
    } else if text::contains_text(host, "azure"@) {
        Some(ForgeType::AzureDevOps)
    } else {
        None
    }
}

/// The forge with the given name in lower case.
pub open spec fn forge_named(name: Seq<char>) -> Option<ForgeType> {
    if name == "gitlab"@ {
        Some(ForgeType::GitLab)
    } else if name == "github"@ {
        Some(ForgeType::GitHub)
    } else if name == "forgejo"@ {
        Some(ForgeType::Forgejo)
    } else if name == "azure"@ {
        Some(ForgeType::AzureDevOps)
    } else {
        None
    }
}

/// An ASCII text in lower case.
pub open spec fn ascii_lowercase(s: Seq<char>) -> Seq<char> {
    s.map_values(|c: char| text::ascii_lower(c))
}

impl ForgeType {
    /// The name in the configuration.
    pub open spec fn text(self) -> Seq<char> {
        match self {
            ForgeType::GitLab => "gitlab"@,
            ForgeType::GitHub => "github"@,
            ForgeType::Forgejo => "forgejo"@,
            ForgeType::AzureDevOps => "azure"@,
        }
    }

    /// All forge types, in the order of their declaration.
    pub fn variants() -> (r: Vec<ForgeType>)
        ensures
            r@ == seq![
                ForgeType::GitLab,
                ForgeType::GitHub,
                ForgeType::Forgejo,
                ForgeType::AzureDevOps,
            ],
    {
        let mut r: Vec<ForgeType> = Vec::new();
        r.push(ForgeType::GitLab);
        r.push(ForgeType::GitHub);
        r.push(ForgeType::Forgejo);
        r.push(ForgeType::AzureDevOps);
        r
    }

    /// The forge that a host name points to.
    pub fn detect_from_host(host: &str) -> (r: Option<ForgeType>)
        ensures
            r == forge_of_host(host@),
    {
        if text::str_contains(host, "gitlab") {
            Some(ForgeType::GitLab)
        } else if text::str_contains(host, "github") {
            Some(ForgeType::GitHub)
        } else if text::str_contains(host, "forgejo") || text::str_contains(host, "gitea")
            || text::str_contains(host, "codeberg") {
            Some(ForgeType::Forgejo)
        } else if text::str_contains(host, "azure") {
            Some(ForgeType::AzureDevOps)
        } else {
            None
        }
    }

    /// The name for people.
    pub fn display_name(&self) -> (r: &str)
        ensures
            r@ == (match *self {
                ForgeType::GitLab => "GitLab"@,
                ForgeType::GitHub => "GitHub"@,
                ForgeType::Forgejo => "Forgejo"@,
                ForgeType::AzureDevOps => "Azure DevOps"@,
            }),
    {
        match self {
            ForgeType::GitLab => "GitLab",
            ForgeType::GitHub => "GitHub",
            ForgeType::Forgejo => "Forgejo",
            ForgeType::AzureDevOps => "Azure DevOps",
        }
    }

    /// The name in the configuration.
    pub fn to_string(&self) -> (r: String)
        ensures
            r@ == self.text(),
    {
        match self {
            ForgeType::GitLab => "gitlab".to_owned(),
            ForgeType::GitHub => "github".to_owned(),
            ForgeType::Forgejo => "forgejo".to_owned(),
            ForgeType::AzureDevOps => "azure".to_owned(),
        }
    }

    /// The forge with the given name in lower case.
    pub fn named(name: &str) -> (r: Option<ForgeType>)
        ensures
            r == forge_named(name@),
    {
        if text::str_eq(name, "gitlab") {
            Some(ForgeType::GitLab)
        } else if text::str_eq(name, "github") {
            Some(ForgeType::GitHub)
        } else if text::str_eq(name, "forgejo") {
            Some(ForgeType::Forgejo)
        } else if text::str_eq(name, "azure") {
            Some(ForgeType::AzureDevOps)
        } else {
            None
        }
    }

    /// Reads the name of a forge, in upper or lower case.
    pub fn parse(s: &str) -> (r: Result<ForgeType, Error>)
        ensures
            match forge_named(text::lowercase(s@)) {
                Some(forge) => r == Ok::<ForgeType, Error>(forge),
                None => error::config_error(r, "Invalid forge type: "@ + s@),
            },
            is_ascii_chars(s@) ==> match forge_named(ascii_lowercase(s@)) {
                Some(forge) => r == Ok::<ForgeType, Error>(forge),
                None => error::config_error(r, "Invalid forge type: "@ + s@),
            },
    {
        let lower = text::to_lowercase(s);
        match ForgeType::named(lower.as_str()) {
            Some(forge) => Ok(forge),
            None => Err(Error::Config { message: "Invalid forge type: ".to_owned().concat(s) }),
        }
    }
}

impl core::str::FromStr for ForgeType {
    type Err = Error;

    /// Reads the name of a forge, in upper or lower case.
    fn from_str(s: &str) -> (r: Result<Self, Error>)
        ensures
            match forge_named(text::lowercase(s@)) {
                Some(forge) => r == Ok::<ForgeType, Error>(forge),
                None => error::config_error(r, "Invalid forge type: "@ + s@),
            },
            is_ascii_chars(s@) ==> match forge_named(ascii_lowercase(s@)) {
                Some(forge) => r == Ok::<ForgeType, Error>(forge),
                None => error::config_error(r, "Invalid forge type: "@ + s@),
            },
    {
        ForgeType::parse(s)
    }
}

/// Every forge reads back from its name in the configuration.
pub proof fn forge_name_reads_back(forge: ForgeType)
    ensures
        is_ascii_chars(forge.text()),
        ascii_lowercase(forge.text()) == forge.text(),
        forge_named(forge.text()) == Some(forge),
{
    reveal_strlit("gitlab");
    reveal_strlit("github");
    reveal_strlit("forgejo");
    reveal_strlit("azure");
    assert("gitlab"@[3] != "github"@[3]);
    assert("forgejo"@.len() != "gitlab"@.len());
    assert("azure"@.len() != "gitlab"@.len());
    assert(ascii_lowercase(forge.text()) =~= forge.text());
}

// ---------------------------------------------------------------------------
// Descriptions and titles
// ---------------------------------------------------------------------------
/// Stack visualization format.
#[derive(Debug, Clone, Copy, PartialEq, Eq, Structural)]
pub enum DescriptionDiagramFormat {
    /// Do not render this stack visualization.
    Omitted,
    /// A linear numbered list.
    Linear,
    /// A tree of MRs where children are indented.
    Tree,
}

impl Default for DescriptionDiagramFormat {
    fn default() -> (r: Self)
        ensures
            r == DescriptionDiagramFormat::Linear,
    {
        DescriptionDiagramFormat::Linear
    }
}

/// Where the stack block is placed in a PR/MR description.
#[derive(Debug, Clone, Copy, PartialEq, Eq, Structural)]
pub enum StackPlacement {
    /// Stack block after the user's description.
    Bottom,
    /// Stack block before the user's description.
    Top,
}

impl Default for StackPlacement {
    fn default() -> (r: Self)
        ensures
            r == StackPlacement::Bottom,
    {
        StackPlacement::Bottom
    }
}

/// How a title is generated.
#[derive(Debug, Clone)]
pub enum TitleFormat {
    /// Use the first revision's first line as the title.
    FirstRevisionFirstLine,
    /// Use the first revision's full message as the title.
    FirstRevisionFullMessage,
    /// Use the head revision's first line as the title.
    HeadRevisionFirstLine,
    /// Use the head revision's full message as the title.
    HeadRevisionFullMessage,
    /// Use the bookmark name as the title.
    BookmarkName,
    /// Use a custom template.
    Other(String),
}

impl TitleFormat {
    /// Reads a title format. What is none of the named formats is a template.
    pub fn parse(v: &str) -> (r: TitleFormat)
        ensures
            v@ == "firstRevisionFirstLine"@ <==> r is FirstRevisionFirstLine,
            v@ == "firstRevisionFullMessage"@ <==> r is FirstRevisionFullMessage,
            v@ == "headRevisionFirstLine"@ <==> r is HeadRevisionFirstLine,
            v@ == "headRevisionFullMessage"@ <==> r is HeadRevisionFullMessage,
            v@ == "bookmarkName"@ <==> r is BookmarkName,
            r matches TitleFormat::Other(template) ==> template@ == v@,
    {
        proof {
            reveal_strlit("firstRevisionFirstLine");
            reveal_strlit("firstRevisionFullMessage");
            reveal_strlit("headRevisionFirstLine");
            reveal_strlit("headRevisionFullMessage");
            reveal_strlit("bookmarkName");
            assert("firstRevisionFirstLine"@.len() == 22);
            assert("firstRevisionFullMessage"@.len() == 24);
            assert("headRevisionFirstLine"@.len() == 21);
            assert("headRevisionFullMessage"@.len() == 23);
            assert("bookmarkName"@.len() == 12);
        }
        if text::str_eq(v, "firstRevisionFirstLine") {
            TitleFormat::FirstRevisionFirstLine
        } else if text::str_eq(v, "firstRevisionFullMessage") {
            TitleFormat::FirstRevisionFullMessage
        } else if text::str_eq(v, "headRevisionFirstLine") {
            TitleFormat::HeadRevisionFirstLine
        } else if text::str_eq(v, "headRevisionFullMessage") {
            TitleFormat::HeadRevisionFullMessage
        } else if text::str_eq(v, "bookmarkName") {
            TitleFormat::BookmarkName
        } else {
            TitleFormat::Other(v.to_owned())
        }
    }
}

/// Configuration for MR title generation.
#[derive(Debug, Clone)]
pub struct TitleConfig {
    /// Whether to sync MR titles on every submit, or only once at PR/MR creation, when a
    /// PR/MR has only one revision.
    pub sync_single_revision: bool,
    /// How to generate the title when a PR/MR has only one revision.
    pub single_revision: TitleFormat,
    /// Whether to sync MR titles on every submit, or only once at PR/MR creation, when a
    /// PR/MR has multiple revisions.
    pub sync_multiple_revisions: bool,
    /// How to generate the title when a PR/MR has multiple revisions.
    pub multiple_revisions: TitleFormat,
}

impl TitleConfig {
    /// Titles are synced; one revision gives its first line, several give the bookmark name.
    pub open spec fn standard() -> TitleConfig {
        TitleConfig {
            sync_single_revision: true,
            single_revision: TitleFormat::FirstRevisionFirstLine,
            sync_multiple_revisions: true,
            multiple_revisions: TitleFormat::BookmarkName,
        }
    }
}

impl Default for TitleConfig {
    fn default() -> (r: Self)
        ensures
            r == TitleConfig::standard(),
    {
        TitleConfig {
            sync_single_revision: true,
            single_revision: TitleFormat::FirstRevisionFirstLine,
            sync_multiple_revisions: true,
            multiple_revisions: TitleFormat::BookmarkName,
        }
    }
}

/// How a description is generated.
#[derive(Debug, Clone)]
pub enum DescriptionMode {
    /// Do not render a description.
    Omitted,
    /// Render the message of the head commit in the branch, but not the first line.
    NotFirstLine,
    /// Render the full message of the head commit in the branch.
    FullMessage,
    /// Render a list of all commits in the branch, with the first line of each message.
    CommitListFirstLine,
    /// Render a list of all commits in the branch, with their full messages.
    CommitListFull,
    /// Use the contents of the file at the given path as the description.
    File(String),
}

/// What a [`DescriptionMode`] says.
pub enum DescriptionModeView {
    Omitted,
    NotFirstLine,
    FullMessage,
    CommitListFirstLine,
    CommitListFull,
    File(Seq<char>),
}

impl View for DescriptionMode {
    type V = DescriptionModeView;

    open spec fn view(&self) -> DescriptionModeView {
        match self {
            DescriptionMode::Omitted => DescriptionModeView::Omitted,
            DescriptionMode::NotFirstLine => DescriptionModeView::NotFirstLine,
            DescriptionMode::FullMessage => DescriptionModeView::FullMessage,
            DescriptionMode::CommitListFirstLine => DescriptionModeView::CommitListFirstLine,
            DescriptionMode::CommitListFull => DescriptionModeView::CommitListFull,
            DescriptionMode::File(path) => DescriptionModeView::File(path@),
        }
    }
}

/// The description mode that a text names. `file(..)` names the file between the brackets.
/// Every `file(` that the text starts with is taken off, and every `)` that it ends with, so
/// `file(notes(1))` names the file `notes(1`.
pub open spec fn description_mode(v: Seq<char>) -> Option<DescriptionModeView> {
    if v == "none"@ {
        Some(DescriptionModeView::Omitted)
    } else if v == "notFirstLine"@ {
        Some(DescriptionModeView::NotFirstLine)
    } else if v == "fullMessage"@ {
        Some(DescriptionModeView::FullMessage)
    } else if v == "commitListFirstLine"@ {
        Some(DescriptionModeView::CommitListFirstLine)
    } else if v == "commitListFull"@ {
        Some(DescriptionModeView::CommitListFull)
    } else if text::starts_with(v, "file("@) && text::ends_with(v, ")"@) {
        Some(
            DescriptionModeView::File(
                text::without_suffixes(text::without_prefixes(v, "file("@), ")"@),
            ),
        )
    } else {
        None
    }
}

impl DescriptionMode {
    /// Reads a description mode.
    pub fn parse(v: &str) -> (r: Result<DescriptionMode, Error>)
        ensures
            match description_mode(v@) {
                Some(mode) => r is Ok && r->Ok_0@ == mode,
                None => error::parse_error(r, "invalid description mode: "@ + v@),
            },
    {
        if text::str_eq(v, "none") {
            Ok(DescriptionMode::Omitted)
        } else if text::str_eq(v, "notFirstLine") {
            Ok(DescriptionMode::NotFirstLine)
        } else if text::str_eq(v, "fullMessage") {
            Ok(DescriptionMode::FullMessage)
        } else if text::str_eq(v, "commitListFirstLine") {
            Ok(DescriptionMode::CommitListFirstLine)
        } else if text::str_eq(v, "commitListFull") {
            Ok(DescriptionMode::CommitListFull)
        } else if text::str_starts_with(v, "file(") && text::str_ends_with(v, ")") {
            let path = text::trim_end_matches(text::trim_start_matches(v, "file("), ")");
            Ok(DescriptionMode::File(path.to_owned()))
        } else {
            Err(Error::Parse { message: "invalid description mode: ".to_owned().concat(v) })
        }
    }
}

/// How to render the description for different shapes of stacks.
#[derive(Debug, Clone)]
pub struct DescriptionDiagramConfig {
    /// How to render a single PR/MR, without any parents or children besides the trunk.
    pub single: DescriptionDiagramFormat,
    /// How to render a linear stack of MRs.
    pub linear: DescriptionDiagramFormat,
    /// How to render a tree of MRs, where two MRs merge into a common parent.
    pub tree: DescriptionDiagramFormat,
    /// How to render a graph in which any PR/MR has multiple parents.
    pub complex: DescriptionDiagramFormat,
}

impl DescriptionDiagramConfig {
    /// A single PR/MR is not rendered, everything else as a list.
    pub open spec fn standard() -> DescriptionDiagramConfig {
        DescriptionDiagramConfig {
            single: DescriptionDiagramFormat::Omitted,
            linear: DescriptionDiagramFormat::Linear,
            tree: DescriptionDiagramFormat::Linear,
            complex: DescriptionDiagramFormat::Linear,
        }
    }
}

impl Default for DescriptionDiagramConfig {
    fn default() -> (r: Self)
        ensures
            r == DescriptionDiagramConfig::standard(),
    {
        DescriptionDiagramConfig {
            single: DescriptionDiagramFormat::Omitted,
            linear: DescriptionDiagramFormat::Linear,
            tree: DescriptionDiagramFormat::Linear,
            complex: DescriptionDiagramFormat::Linear,
        }
    }
}

/// Configuration for MR description generation.
#[derive(Debug, Clone)]
pub struct DescriptionConfig {
    /// Whether description generation is enabled at all.
    pub enabled: bool,
    /// Whether to sync the description every time the bookmark is submitted.
    pub sync: bool,
    /// How to describe a PR/MR with only one revision. By default, the description includes
    /// the first line of the commit message.
    pub single_revision: DescriptionMode,
    /// How to describe a PR/MR with multiple revisions.
    pub multiple_revisions: DescriptionMode,
    /// How to render the stack.
    pub diagram: DescriptionDiagramConfig,
    /// Where to place the stack block relative to the user's description.
    pub placement: StackPlacement,
}

impl DescriptionConfig {
    /// Descriptions are generated once, with the stack block at the bottom.
    pub open spec fn standard() -> DescriptionConfig {
        DescriptionConfig {
            enabled: true,
            sync: false,
            single_revision: DescriptionMode::FullMessage,
            multiple_revisions: DescriptionMode::CommitListFull,
            diagram: DescriptionDiagramConfig::standard(),
            placement: StackPlacement::Bottom,
        }
    }
}

impl Default for DescriptionConfig {
    fn default() -> (r: Self)
        ensures
            r == DescriptionConfig::standard(),
    {
        DescriptionConfig {
            enabled: true,
            sync: false,
            single_revision: DescriptionMode::FullMessage,
            multiple_revisions: DescriptionMode::CommitListFull,
            diagram: DescriptionDiagramConfig::default(),
            placement: StackPlacement::Bottom,
        }
    }
}

// ---------------------------------------------------------------------------
// Fetching and pushing
// ---------------------------------------------------------------------------
/// What to run before planning a submission.
#[derive(Debug, Clone, PartialEq, Eq)]
pub enum RepoFetchConfig {
    /// If true, runs `jj git fetch --tracked`. If false, nothing is fetched.
    Enabled(bool),
    /// Runs `jj` with these arguments.
    Command(Vec<String>),
}

impl RepoFetchConfig {
    /// The arguments for `jj`, or nothing where fetching is disabled.
    pub open spec fn args(self) -> Option<Seq<Seq<char>>> {
        match self {
            RepoFetchConfig::Enabled(true) => Some(seq!["git"@, "fetch"@, "--tracked"@]),
            RepoFetchConfig::Command(command) => Some(text::texts(command@)),
            RepoFetchConfig::Enabled(false) => None,
        }
    }

    /// The arguments for `jj`, or nothing where fetching is disabled.
    pub fn to_args(&self) -> (r: Option<Vec<&str>>)
        ensures
            text::opt_slices(r) == self.args(),
    {
        match self {
            RepoFetchConfig::Enabled(enabled) => {
                if *enabled {
                    let mut args: Vec<&str> = Vec::new();
                    args.push("git");
                    args.push("fetch");
                    args.push("--tracked");
                    assert(text::slices(args@) =~= seq!["git"@, "fetch"@, "--tracked"@]);
                    Some(args)
                } else {
                    None
                }
            },
            RepoFetchConfig::Command(command) => Some(text::as_slices(command)),
        }
    }
}

impl Default for RepoFetchConfig {
    fn default() -> (r: Self)
        ensures
            r == RepoFetchConfig::Enabled(true),
    {
        RepoFetchConfig::Enabled(true)
    }
}

/// What pushes bookmarks.
#[derive(Debug, PartialEq, Eq)]
pub enum RepoPushConfig {
    /// If true, the built-in `jj git push`. If false, nothing is pushed.
    Enabled(bool),
    /// Runs this command, whose first element is the binary.
    Command(Vec<String>),
}

/// The built-in push command.
pub open spec fn builtin_push() -> Seq<Seq<char>> {
    seq!["jj"@, "git"@, "push"@]
}

impl RepoPushConfig {
    /// The push command, or nothing where pushing is disabled.
    pub open spec fn argv(self) -> Option<Seq<Seq<char>>> {
        match self {
            RepoPushConfig::Enabled(true) => Some(builtin_push()),
            RepoPushConfig::Command(command) => Some(text::texts(command@)),
            RepoPushConfig::Enabled(false) => None,
        }
    }

    /// The push command of one run.
    pub open spec fn resolved(self, no_hooks: bool) -> Option<Seq<Seq<char>>> {
        if no_hooks && self.argv() is Some {
            Some(builtin_push())
        } else {
            self.argv()
        }
    }

    /// The push command, or nothing where pushing is disabled.
    pub fn to_argv(&self) -> (r: Option<Vec<String>>)
        ensures
            text::opt_texts(r) == self.argv(),
    {
        match self {
            RepoPushConfig::Enabled(enabled) => {
                if *enabled {
                    Some(RepoPushConfig::builtin_push_argv())
                } else {
                    None
                }
            },
            RepoPushConfig::Command(command) => Some(text::clone_strings(command)),
        }
    }

    /// The built-in push command.
    fn builtin_push_argv() -> (r: Vec<String>)
        ensures
            text::texts(r@) == builtin_push(),
    {
        let mut r: Vec<String> = Vec::new();
        r.push("jj".to_owned());
        r.push("git".to_owned());
        r.push("push".to_owned());
        assert(text::texts(r@) =~= builtin_push());
        r
    }

    /// The push command of one run. Leaving out the hooks replaces a configured command by
    /// the built-in one; a disabled push stays disabled.
    pub fn resolve_argv(&self, no_hooks: bool) -> (r: Option<Vec<String>>)
        ensures
            text::opt_texts(r) == self.resolved(no_hooks),
    {
        match self.to_argv() {
            Some(argv) => if no_hooks {
                Some(RepoPushConfig::builtin_push_argv())
            } else {
                Some(argv)
            },
            None => None,
        }
    }
}

impl Clone for RepoPushConfig {
    fn clone(&self) -> (r: Self)
        ensures
            r.argv() == self.argv(),
            r is Enabled <==> self is Enabled,
    {
        match self {
            RepoPushConfig::Enabled(enabled) => RepoPushConfig::Enabled(*enabled),
            RepoPushConfig::Command(command) => RepoPushConfig::Command(
                text::clone_strings(command),
            ),
        }
    }
}

impl Default for RepoPushConfig {
    fn default() -> (r: Self)
        ensures
            r == RepoPushConfig::Enabled(true),
    {
        RepoPushConfig::Enabled(true)
    }
}

/// Leaving out the hooks decides which command pushes, never whether one does: a push is
/// disabled exactly where the configuration disables it.
pub proof fn no_hooks_never_enables_a_push(push: RepoPushConfig, no_hooks: bool)
    ensures
        push.resolved(no_hooks) is None <==> push == RepoPushConfig::Enabled(false),
        push.resolved(true) is Some ==> push.resolved(true) == Some(builtin_push()),
        push.resolved(false) == push.argv(),
{
}

// ---------------------------------------------------------------------------
// Forge sections
// ---------------------------------------------------------------------------
/// The target project, which is the project itself where none is set.
pub open spec fn target_of(target: Seq<char>, project: Seq<char>) -> Seq<char> {
    if target.len() == 0 {
        project
    } else {
        target
    }
}

/// GitLab configuration.
#[derive(Debug, Clone)]
pub struct GitLabConfig {
    /// GitLab instance URL (e.g., `https://gitlab.example.com`).
    pub host: String,
    /// GitLab project ID (e.g., `group/project` or `12345`).
    pub project: String,
    /// Target project for MRs (if different from project, enables fork workflow).
    pub target_project: String,
    /// GitLab Personal Access Token.
    pub token: String,
    /// Whether to create dependencies between merge requests.
    pub create_merge_request_dependencies: bool,
}

impl Default for GitLabConfig {
    fn default() -> (r: Self)
        ensures
            r.host@.len() == 0,
            r.project@.len() == 0,
            r.target_project@.len() == 0,
            r.token@.len() == 0,
            !r.create_merge_request_dependencies,
    {
        GitLabConfig {
            host: String::new(),
            project: String::new(),
            target_project: String::new(),
            token: String::new(),
            create_merge_request_dependencies: false,
        }
    }
}

impl GitLabConfig {
    /// The project where MRs target.
    pub fn target_project(&self) -> (r: &str)
        ensures
            r@ == target_of(self.target_project@, self.project@),
    {
        if self.target_project.as_str().is_empty() {
            self.project.as_str()
        } else {
            self.target_project.as_str()
        }
    }

    /// The project where branches are pushed.
    pub fn source_project(&self) -> (r: &str)
        ensures
            r@ == self.project@,
    {
        self.project.as_str()
    }

    /// Whether this is a fork workflow (target differs from source).
    pub fn is_fork_workflow(&self) -> (r: bool)
        ensures
            r == (self.target_project@.len() > 0 && self.target_project@ != self.project@),
    {
        !text::str_eq(self.target_project(), self.project.as_str())
    }
}

/// GitHub configuration.
#[derive(Debug, Clone)]
pub struct GitHubConfig {
    /// GitHub API URL (e.g., `https://api.github.com`).
    pub host: String,
    /// GitHub repository in `owner/repo` format.
    pub project: String,
    /// Target repository for PRs (if different from project, enables fork workflow).
    pub target_project: String,
    /// GitHub Personal Access Token. Takes precedence over `token_command`.
    pub token: String,
    /// A command whose trimmed output is the token, used where `token` is blank.
    pub token_command: Vec<String>,
    /// Whether to register submitted PR stacks as GitHub-native stacks.
    pub link_stack: bool,
}

impl Default for GitHubConfig {
    fn default() -> (r: Self)
        ensures
            r.host@.len() == 0,
            r.project@.len() == 0,
            r.target_project@.len() == 0,
            r.token@.len() == 0,
            r.token_command@.len() == 0,
            !r.link_stack,
    {
        GitHubConfig {
            host: String::new(),
            project: String::new(),
            target_project: String::new(),
            token: String::new(),
            token_command: Vec::new(),
            link_stack: false,
        }
    }
}

/// How long a token command may take, in seconds.
pub const TOKEN_COMMAND_TIMEOUT_SECS: u64 = 10;

/// What has to be done for a token.
#[derive(Debug)]
pub enum TokenRequest {
    /// The configuration holds the token.
    Literal(String),
    /// The token command has to be run.
    Run,
}

/// The text of a token command.
pub open spec fn command_text(c: GitHubConfig) -> Seq<char> {
    text::joined(text::texts(c.token_command@), " "@)
}

/// The token that a token command printed, or what is wrong with it.
pub open spec fn printed_token(stdout: Seq<u8>, command: Seq<char>) -> Result<
    Seq<char>,
    Seq<char>,
> {
    if !valid_utf8(stdout) {
        Err("github.tokenCommand `"@ + command + "` produced non-UTF-8 output"@)
    } else if text::trim(decode_utf8(stdout)).len() == 0 {
        Err("github.tokenCommand `"@ + command + "` produced empty output"@)
    } else {
        Ok(text::trim(decode_utf8(stdout)))
    }
}

/// `r` is the token, or a configuration error, that is expected.
pub open spec fn is_token(
    r: Result<String, Error>,
    expected: Result<Seq<char>, Seq<char>>,
) -> bool {
    match expected {
        Ok(token) => r matches Ok(t) && t@ == token,
        Err(message) => error::config_error(r, message),
    }
}

/// What a token command that ran to its end gives.
pub open spec fn finished_token(output: RawOutput, command: Seq<char>) -> Result<
    Seq<char>,
    Seq<char>,
> {
    if output.ok() {
        printed_token(output.stdout@, command)
    } else {
        Err("github.tokenCommand `"@ + command + "` failed with "@ + output.status@)
    }
}

impl GitHubConfig {
    /// The repository where PRs target.
    pub fn target_project(&self) -> (r: &str)
        ensures
            r@ == target_of(self.target_project@, self.project@),
    {
        if self.target_project.as_str().is_empty() {
            self.project.as_str()
        } else {
            self.target_project.as_str()
        }
    }

    /// The repository where branches are pushed.
    pub fn source_project(&self) -> (r: &str)
        ensures
            r@ == self.project@,
    {
        self.project.as_str()
    }

    /// Whether this is a fork workflow (target differs from source).
    pub fn is_fork_workflow(&self) -> (r: bool)
        ensures
            r == (self.target_project@.len() > 0 && self.target_project@ != self.project@),
    {
        !text::str_eq(self.target_project(), self.project.as_str())
    }

    /// What has to be done for a token: a literal that is not blank is the token, else the
    /// command has to be run.
    pub fn token_request(&self) -> (r: Result<TokenRequest, Error>)
        ensures
            text::trim(self.token@).len() > 0 ==> (r matches Ok(TokenRequest::Literal(t)) && t@
                == text::trim(self.token@)),
            text::trim(self.token@).len() == 0 && self.token_command@.len() > 0 ==> r is Ok
                && r->Ok_0 is Run,
            text::trim(self.token@).len() == 0 && self.token_command@.len() == 0
                ==> error::config_error(
                r,
                "github.token or github.tokenCommand is required when forge is github"@,
            ),
    {
        let literal = text::str_trim(self.token.as_str());
        if !literal.is_empty() {
            return Ok(TokenRequest::Literal(literal.to_owned()));
        }
        if self.token_command.len() == 0 {
            return Err(
                Error::Config {
                    message:
                        "github.token or github.tokenCommand is required when forge is github".to_owned(),
                },
            );
        }
        Ok(TokenRequest::Run)
    }

    /// The token: the literal, where it is not blank, else what the token command printed.
    /// `outcome` says what became of the command; it is not looked at where there is a
    /// literal or no command.
    pub fn resolved_token(&self, outcome: Spawned) -> (r: Result<String, Error>)
        ensures
            self.token_outcome(r, outcome, TOKEN_COMMAND_TIMEOUT_SECS),
    {
        self.resolved_token_with_timeout(outcome, TOKEN_COMMAND_TIMEOUT_SECS)
    }

    /// `r` is what the configuration and the outcome of the token command give.
    pub open spec fn token_outcome(
        self,
        r: Result<String, Error>,
        outcome: Spawned,
        timeout_secs: u64,
    ) -> bool {
        let literal = text::trim(self.token@);
        if literal.len() > 0 {
            r matches Ok(t) && t@ == literal
        } else if self.token_command@.len() == 0 {
            error::config_error(
                r,
                "github.token or github.tokenCommand is required when forge is github"@,
            )
        } else {
            match outcome {
                Spawned::NotFound { reason } => error::config_error(
                    r,
                    "github.tokenCommand binary `"@ + self.token_command@[0]@
                        + "` not found in PATH: "@ + reason@,
                ),
                Spawned::Failed { reason } => error::io_error(r, reason@),
                Spawned::TimedOut => error::config_error(
                    r,
                    "github.tokenCommand `"@ + command_text(self) + "` timed out after "@
                        + text::decimal(timeout_secs as nat) + "s"@,
                ),
                Spawned::Finished(output) => is_token(
                    r,
                    finished_token(output, command_text(self)),
                ),
            }
        }
    }

    /// [`GitHubConfig::resolved_token`] with a deadline of the caller's choice.
    pub fn resolved_token_with_timeout(
        &self,
        outcome: Spawned,
        timeout_secs: u64,
    ) -> (r: Result<String, Error>)
        ensures
            self.token_outcome(r, outcome, timeout_secs),
    {
        match self.token_request() {
            Ok(TokenRequest::Literal(token)) => return Ok(token),
            Ok(TokenRequest::Run) => {},
            Err(e) => return Err(e),
        }
        let command = text::join(&self.token_command, " ");
        match outcome {
            Spawned::NotFound { reason } => Err(
                Error::Config {
                    message: "github.tokenCommand binary `".to_owned().concat(
                        self.token_command[0].as_str(),
                    ).concat("` not found in PATH: ").concat(reason.as_str()),
                },
            ),
            Spawned::Failed { reason } => Err(Error::Io { message: reason }),
            Spawned::TimedOut => Err(
                Error::Config {
                    message: "github.tokenCommand `".to_owned().concat(command.as_str()).concat(
                        "` timed out after ",
                    ).concat(text::u64_text(timeout_secs).as_str()).concat("s"),
                },
            ),
            Spawned::Finished(output) => {
                if !output.success() {
                    return Err(
                        Error::Config {
                            message: "github.tokenCommand `".to_owned().concat(
                                command.as_str(),
                            ).concat("` failed with ").concat(output.status.as_str()),
                        },
                    );
                }
                match bytes::from_utf8(output.stdout) {
                    Some(raw) => {
                        let token = text::str_trim(raw.as_str());
                        if token.is_empty() {
                            Err(
                                Error::Config {
                                    message: "github.tokenCommand `".to_owned().concat(
                                        command.as_str(),
                                    ).concat("` produced empty output"),
                                },
                            )
                        } else {
                            Ok(token.to_owned())
                        }
                    },
                    None => Err(
                        Error::Config {
                            message: "github.tokenCommand `".to_owned().concat(
                                command.as_str(),
                            ).concat("` produced non-UTF-8 output"),
                        },
                    ),
                }
            },
        }
    }
}

/// A token that resolves is never blank and carries no white space at its ends.
pub proof fn resolved_token_is_trimmed(
    c: GitHubConfig,
    r: Result<String, Error>,
    outcome: Spawned,
    timeout_secs: u64,
)
    requires
        c.token_outcome(r, outcome, timeout_secs),
        r is Ok,
    ensures
        r->Ok_0@.len() > 0,
        text::trim(r->Ok_0@) == r->Ok_0@,
{
    text::lemma_trim_idempotent(c.token@);
    if let Spawned::Finished(output) = outcome {
        text::lemma_trim_idempotent(decode_utf8(output.stdout@));
    }
}

/// What a token command wrote to its error stream never shows, nor what it wrote to its output
/// where it failed: a run that differs in these alone gives the same token, or the same error.
pub proof fn token_error_shows_no_output(
    c: GitHubConfig,
    r1: Result<String, Error>,
    r2: Result<String, Error>,
    o1: RawOutput,
    o2: RawOutput,
    timeout_secs: u64,
)
    requires
        o1.code == o2.code,
        o1.status@ == o2.status@,
        o1.ok() ==> o1.stdout@ == o2.stdout@,
        c.token_outcome(r1, Spawned::Finished(o1), timeout_secs),
        c.token_outcome(r2, Spawned::Finished(o2), timeout_secs),
    ensures
        r1 is Ok <==> r2 is Ok,
        r1 is Ok ==> r1->Ok_0@ == r2->Ok_0@,
        r1 is Err ==> r1->Err_0.text() == r2->Err_0.text(),
{
}

/// Forgejo/Gitea/Codeberg configuration.
#[derive(Debug, Clone)]
pub struct ForgejoConfig {
    /// Forgejo/Gitea instance URL (e.g., `https://codeberg.org`).
    pub host: String,
    /// Repository in `owner/repo` format.
    pub project: String,
    /// Target repository for PRs (if different from project, enables fork workflow).
    pub target_project: String,
    /// API access token.
    pub token: String,
    /// Prefix for WIP pull/merge requests.
    pub wip_prefix: String,
}

impl Default for ForgejoConfig {
    fn default() -> (r: Self)
        ensures
            r.host@.len() == 0,
            r.project@.len() == 0,
            r.target_project@.len() == 0,
            r.token@.len() == 0,
            r.wip_prefix@.len() == 0,
    {
        ForgejoConfig {
            host: String::new(),
            project: String::new(),
            target_project: String::new(),
            token: String::new(),
            wip_prefix: String::new(),
        }
    }
}

impl ForgejoConfig {
    /// The repository where PRs target.
    pub fn target_project(&self) -> (r: &str)
        ensures
            r@ == target_of(self.target_project@, self.project@),
    {
        if self.target_project.as_str().is_empty() {
            self.project.as_str()
        } else {
            self.target_project.as_str()
        }
    }

    /// The repository where branches are pushed.
    pub fn source_project(&self) -> (r: &str)
        ensures
            r@ == self.project@,
    {
        self.project.as_str()
    }
}

/// Azure DevOps configuration.
#[derive(Debug, Clone)]
pub struct AzureDevOpsConfig {
    /// Azure DevOps instance URL (e.g., `https://dev.azure.com`).
    pub host: String,
    pub project: String,
    pub target_project: String,
    pub token: String,
    pub source_repository_name: Option<String>,
    pub target_repository_name: Option<String>,
    pub source_repository_id: Option<String>,
    pub target_repository_id: Option<String>,
    pub vssps_host: String,
}

impl Default for AzureDevOpsConfig {
    fn default() -> (r: Self)
        ensures
            r.host@.len() == 0,
            r.project@.len() == 0,
            r.target_project@.len() == 0,
            r.token@.len() == 0,
            r.source_repository_name is None,
            r.target_repository_name is None,
            r.source_repository_id is None,
            r.target_repository_id is None,
            r.vssps_host@.len() == 0,
    {
        AzureDevOpsConfig {
            host: String::new(),
            project: String::new(),
            target_project: String::new(),
            token: String::new(),
            source_repository_name: None,
            target_repository_name: None,
            source_repository_id: None,
            target_repository_id: None,
            vssps_host: String::new(),
        }
    }
}

/// The first of two optional texts that is there.
pub open spec fn first_text(a: Option<String>, b: Option<String>) -> Option<Seq<char>> {
    if a is Some {
        text::opt_text(a)
    } else {
        text::opt_text(b)
    }
}

/// The first of two optional texts that is there.
fn first_set<'a>(a: &'a Option<String>, b: &'a Option<String>) -> (r: Option<&'a str>)
    ensures
        text::opt_slice(r) == first_text(*a, *b),
{
    match a {
        Some(s) => Some(s.as_str()),
        None => match b {
            Some(s) => Some(s.as_str()),
            None => None,
        },
    }
}

impl AzureDevOpsConfig {
    pub fn source_project_id(&self) -> (r: &str)
        ensures
            r@ == self.project@,
    {
        self.project.as_str()
    }

    pub fn target_project_id(&self) -> (r: &str)
        ensures
            r@ == target_of(self.target_project@, self.project@),
    {
        if self.target_project.as_str().is_empty() {
            self.project.as_str()
        } else {
            self.target_project.as_str()
        }
    }

    /// The name of the target repository, which is the source repository where none is set.
    pub fn target_repository_name(&self) -> (r: Option<&str>)
        ensures
            text::opt_slice(r) == first_text(
                self.target_repository_name,
                self.source_repository_name,
            ),
    {
        first_set(&self.target_repository_name, &self.source_repository_name)
    }

    /// The ID of the target repository, which is the source repository where none is set.
    pub fn target_repository_id(&self) -> (r: Option<&str>)
        ensures
            text::opt_slice(r) == first_text(self.target_repository_id, self.source_repository_id),
    {
        first_set(&self.target_repository_id, &self.source_repository_id)
    }
}

// ---------------------------------------------------------------------------
// The whole configuration
// ---------------------------------------------------------------------------
/// Configuration of the tool in a repository.
#[derive(Debug, Clone)]
pub struct Config {
    /// Which forge to use.
    pub forge: ForgeType,
    /// The branch name to use for MRs into `trunk()`.
    pub default_base_branch: Option<String>,
    /// Git remote name.
    pub remote_name: String,
    /// Path to a CA bundle for TLS verification.
    pub ca_bundle: Option<String>,
    /// Accept non-compliant TLS certificates.
    pub tls_accept_non_compliant_certs: bool,
    /// Configuration for MR description generation.
    pub description: DescriptionConfig,
    /// Delete the source branch when the MR is merged.
    pub delete_source_branch: bool,
    /// Squash commits when the MR is merged.
    pub squash_commits: bool,
    /// Assign created MRs to yourself.
    pub assign_to_self: bool,
    /// Usernames that created MRs are assigned to for approval.
    pub default_reviewers: Vec<String>,
    /// Open newly created MRs as drafts.
    pub open_as_draft: bool,
    /// What to fetch before planning a submission.
    pub fetch: RepoFetchConfig,
    /// What pushes bookmarks.
    pub push: RepoPushConfig,
    /// Configuration for MR title generation.
    pub title: TitleConfig,
    /// GitLab configuration.
    pub gitlab: GitLabConfig,
    /// GitHub configuration.
    pub github: GitHubConfig,
    /// Forgejo/Gitea/Codeberg configuration.
    pub forgejo: ForgejoConfig,
    /// Azure DevOps configuration.
    pub azure: AzureDevOpsConfig,
}

/// Makes a [`Config`] from the settings that differ from the defaults.
#[derive(Debug)]
pub struct ConfigBuilder {
    config: Config,
    forge_set: bool,
}

impl ConfigBuilder {
    /// The configuration as set so far.
    pub closed spec fn made(self) -> Config {
        self.config
    }

    /// The forge has been set.
    pub closed spec fn has_forge(self) -> bool {
        self.forge_set
    }

    /// The configuration. The forge has no default and must have been set.
    pub fn build(self) -> (r: Config)
        requires
            self.has_forge(),
        ensures
            r == self.made(),
    {
        self.config
    }

    /// Sets the forge.
    pub fn forge(self, forge: ForgeType) -> (r: ConfigBuilder)
        ensures
            r.has_forge(),
            r.made() == (Config { forge, ..self.made() }),
    {
        ConfigBuilder { config: Config { forge, ..self.config }, forge_set: true }
    }

    /// Sets `default_base_branch`.
    pub fn default_base_branch(self, value: String) -> (r: ConfigBuilder)
        ensures
            r.has_forge() == self.has_forge(),
            r.made() == (Config { default_base_branch: Some(value), ..self.made() }),
    {
        ConfigBuilder {
            config: Config { default_base_branch: Some(value), ..self.config },
            forge_set: self.forge_set,
        }
    }

    /// Sets `remote_name`.
    pub fn remote_name(self, remote_name: String) -> (r: ConfigBuilder)
        ensures
            r.has_forge() == self.has_forge(),
            r.made() == (Config { remote_name, ..self.made() }),
    {
        ConfigBuilder {
            config: Config { remote_name, ..self.config },
            forge_set: self.forge_set,
        }
    }

    /// Sets `ca_bundle`.
    pub fn ca_bundle(self, value: String) -> (r: ConfigBuilder)
        ensures
            r.has_forge() == self.has_forge(),
            r.made() == (Config { ca_bundle: Some(value), ..self.made() }),
    {
        ConfigBuilder {
            config: Config { ca_bundle: Some(value), ..self.config },
            forge_set: self.forge_set,
        }
    }

    /// Sets `tls_accept_non_compliant_certs`.
    pub fn tls_accept_non_compliant_certs(self, tls_accept_non_compliant_certs: bool) -> (r: ConfigBuilder)
        ensures
            r.has_forge() == self.has_forge(),
            r.made() == (Config { tls_accept_non_compliant_certs, ..self.made() }),
    {
        ConfigBuilder {
            config: Config { tls_accept_non_compliant_certs, ..self.config },
            forge_set: self.forge_set,
        }
    }

    /// Sets `description`.
    pub fn description(self, description: DescriptionConfig) -> (r: ConfigBuilder)
        ensures
            r.has_forge() == self.has_forge(),
            r.made() == (Config { description, ..self.made() }),
    {
        ConfigBuilder {
            config: Config { description, ..self.config },
            forge_set: self.forge_set,
        }
    }

    /// Sets `delete_source_branch`.
    pub fn delete_source_branch(self, delete_source_branch: bool) -> (r: ConfigBuilder)
        ensures
            r.has_forge() == self.has_forge(),
            r.made() == (Config { delete_source_branch, ..self.made() }),
    {
        ConfigBuilder {
            config: Config { delete_source_branch, ..self.config },
            forge_set: self.forge_set,
        }
    }

    /// Sets `squash_commits`.
    pub fn squash_commits(self, squash_commits: bool) -> (r: ConfigBuilder)
        ensures
            r.has_forge() == self.has_forge(),
            r.made() == (Config { squash_commits, ..self.made() }),
    {
        ConfigBuilder {
            config: Config { squash_commits, ..self.config },
            forge_set: self.forge_set,
        }
    }

    /// Sets `assign_to_self`.
    pub fn assign_to_self(self, assign_to_self: bool) -> (r: ConfigBuilder)
        ensures
            r.has_forge() == self.has_forge(),
            r.made() == (Config { assign_to_self, ..self.made() }),
    {
        ConfigBuilder {
            config: Config { assign_to_self, ..self.config },
            forge_set: self.forge_set,
        }
    }

    /// Sets `default_reviewers`.
    pub fn default_reviewers(self, default_reviewers: Vec<String>) -> (r: ConfigBuilder)
        ensures
            r.has_forge() == self.has_forge(),
            r.made() == (Config { default_reviewers, ..self.made() }),
    {
        ConfigBuilder {
            config: Config { default_reviewers, ..self.config },
            forge_set: self.forge_set,
        }
    }

    /// Sets `open_as_draft`.
    pub fn open_as_draft(self, open_as_draft: bool) -> (r: ConfigBuilder)
        ensures
            r.has_forge() == self.has_forge(),
            r.made() == (Config { open_as_draft, ..self.made() }),
    {
        ConfigBuilder {
            config: Config { open_as_draft, ..self.config },
            forge_set: self.forge_set,
        }
    }

    /// Sets `fetch`.
    pub fn fetch(self, fetch: RepoFetchConfig) -> (r: ConfigBuilder)
        ensures
            r.has_forge() == self.has_forge(),
            r.made() == (Config { fetch, ..self.made() }),
    {
        ConfigBuilder {
            config: Config { fetch, ..self.config },
            forge_set: self.forge_set,
        }
    }

    /// Sets `push`.
    pub fn push(self, push: RepoPushConfig) -> (r: ConfigBuilder)
        ensures
            r.has_forge() == self.has_forge(),
            r.made() == (Config { push, ..self.made() }),
    {
        ConfigBuilder {
            config: Config { push, ..self.config },
            forge_set: self.forge_set,
        }
    }

    /// Sets `title`.
    pub fn title(self, title: TitleConfig) -> (r: ConfigBuilder)
        ensures
            r.has_forge() == self.has_forge(),
            r.made() == (Config { title, ..self.made() }),
    {
        ConfigBuilder {
            config: Config { title, ..self.config },
            forge_set: self.forge_set,
        }
    }

    /// Sets `gitlab`.
    pub fn gitlab(self, gitlab: GitLabConfig) -> (r: ConfigBuilder)
        ensures
            r.has_forge() == self.has_forge(),
            r.made() == (Config { gitlab, ..self.made() }),
    {
        ConfigBuilder {
            config: Config { gitlab, ..self.config },
            forge_set: self.forge_set,
        }
    }

    /// Sets `github`.
    pub fn github(self, github: GitHubConfig) -> (r: ConfigBuilder)
        ensures
            r.has_forge() == self.has_forge(),
            r.made() == (Config { github, ..self.made() }),
    {
        ConfigBuilder {
            config: Config { github, ..self.config },
            forge_set: self.forge_set,
        }
    }

    /// Sets `forgejo`.
    pub fn forgejo(self, forgejo: ForgejoConfig) -> (r: ConfigBuilder)
        ensures
            r.has_forge() == self.has_forge(),
            r.made() == (Config { forgejo, ..self.made() }),
    {
        ConfigBuilder {
            config: Config { forgejo, ..self.config },
            forge_set: self.forge_set,
        }
    }

    /// Sets `azure`.
    pub fn azure(self, azure: AzureDevOpsConfig) -> (r: ConfigBuilder)
        ensures
            r.has_forge() == self.has_forge(),
            r.made() == (Config { azure, ..self.made() }),
    {
        ConfigBuilder {
            config: Config { azure, ..self.config },
            forge_set: self.forge_set,
        }
    }
}

/// A configuration in which only the forge may have been set.
pub open spec fn all_default(c: Config) -> bool {
    &&& c.default_base_branch is None
    &&& c.remote_name@ == "origin"@
    &&& c.ca_bundle is None
    &&& !c.tls_accept_non_compliant_certs
    &&& c.description == DescriptionConfig::standard()
    &&& !c.delete_source_branch
    &&& !c.squash_commits
    &&& !c.assign_to_self
    &&& c.default_reviewers@.len() == 0
    &&& !c.open_as_draft
    &&& c.fetch == RepoFetchConfig::Enabled(true)
    &&& c.push == RepoPushConfig::Enabled(true)
    &&& c.title == TitleConfig::standard()
    &&& c.gitlab.host@.len() == 0 && c.gitlab.project@.len() == 0
        && c.gitlab.target_project@.len() == 0 && c.gitlab.token@.len() == 0
        && !c.gitlab.create_merge_request_dependencies
    &&& c.github.host@.len() == 0 && c.github.project@.len() == 0
        && c.github.target_project@.len() == 0 && c.github.token@.len() == 0
        && c.github.token_command@.len() == 0 && !c.github.link_stack
    &&& c.forgejo.host@.len() == 0 && c.forgejo.project@.len() == 0
        && c.forgejo.target_project@.len() == 0 && c.forgejo.token@.len() == 0
        && c.forgejo.wip_prefix@.len() == 0
    &&& c.azure.host@.len() == 0 && c.azure.project@.len() == 0
        && c.azure.target_project@.len() == 0 && c.azure.token@.len() == 0
        && c.azure.vssps_host@.len() == 0 && c.azure.source_repository_name is None
        && c.azure.target_repository_name is None && c.azure.source_repository_id is None
        && c.azure.target_repository_id is None
}

/// What is wrong with a configuration.
pub open spec fn config_fault(c: Config) -> Option<Seq<char>> {
    if c.push is Command && c.push->Command_0@.len() == 0 {
        Some("jj-vine.push must not be an empty command; use `false` to disable pushing"@)
    } else {
        match c.forge {
            ForgeType::GitLab => forge::gitlab_fault(c.gitlab),
            ForgeType::GitHub => forge::github_fault(c.github, c.remote_name@),
            ForgeType::Forgejo => forge::forgejo_fault(c.forgejo),
            ForgeType::AzureDevOps => forge::azure_fault(c.azure),
        }
    }
}

/// A value counts as set where it is a string that is not empty.
pub open spec fn counts_as_set(value: Option<Seq<char>>) -> bool {
    value matches Some(s) && s.len() > 0
}

/// The repository's own configuration sets this key of the GitHub section. No listing
/// stands for a command that failed; a malformed one sets nothing.
pub open spec fn layer_sets(layer: Option<Seq<char>>, key: Seq<char>) -> bool {
    match layer {
        Some(listing) => match toml_text::toml_contents(listing) {
            Ok(held) => counts_as_set(
                toml_text::text_at(held, seq!["jj-vine"@, "github"@, key]),
            ),
            Err(_) => false,
        },
        None => false,
    }
}

/// `after` is `before` with the project and host of the GitHub section filled in from a
/// detected forge, as far as they are not set in the repository's own configuration.
pub open spec fn filled_in(
    before: Config,
    after: Config,
    project_set: bool,
    host_set: bool,
    detected: Option<remote::DetectedView>,
) -> bool {
    &&& after == Config {
        github: GitHubConfig {
            project: after.github.project,
            host: after.github.host,
            ..before.github
        },
        ..before
    }
    &&& after.github.project@ == if before.forge == ForgeType::GitHub && !project_set
        && detected is Some {
        detected->0.project
    } else {
        before.github.project@
    }
    &&& after.github.host@ == if before.forge == ForgeType::GitHub && !host_set && detected is Some {
        detected->0.host
    } else {
        before.github.host@
    }
}

/// Whether a value of the repository's own configuration is a string that is not empty. An
/// empty one counts as absent.
pub fn repo_layer_nonempty(value: Option<&str>) -> (r: bool)
    ensures
        r == counts_as_set(text::opt_slice(value)),
{
    match value {
        Some(value) => !value.is_empty(),
        None => false,
    }
}

/// Whether the repository's own configuration sets this key of the GitHub section.
fn layer_has(layer: Option<&str>, key: &str) -> (r: bool)
    ensures
        r == layer_sets(text::opt_slice(layer), key@),
{
    match layer {
        Some(listing) => match toml_text::parse(listing) {
            Ok(value) => repo_layer_nonempty(
                toml_text::find_text(&value, "jj-vine", "github", key),
            ),
            Err(_) => false,
        },
        None => false,
    }
}

impl Config {
    /// A builder with all defaults.
    pub fn builder() -> (r: ConfigBuilder)
        ensures
            !r.has_forge(),
            all_default(r.made()),
    {
        ConfigBuilder {
            config: Config {
                forge: ForgeType::GitLab,
                default_base_branch: None,
                remote_name: "origin".to_owned(),
                ca_bundle: None,
                tls_accept_non_compliant_certs: false,
                description: DescriptionConfig::default(),
                delete_source_branch: false,
                squash_commits: false,
                assign_to_self: false,
                default_reviewers: Vec::new(),
                open_as_draft: false,
                fetch: RepoFetchConfig::default(),
                push: RepoPushConfig::default(),
                title: TitleConfig::default(),
                gitlab: GitLabConfig::default(),
                github: GitHubConfig::default(),
                forgejo: ForgejoConfig::default(),
                azure: AzureDevOpsConfig::default(),
            },
            forge_set: false,
        }
    }

    /// Checks that the configuration can be worked with.
    pub fn validate(&self) -> (r: Result<(), Error>)
        ensures
            match config_fault(*self) {
                Some(message) => error::config_error(r, message),
                None => r is Ok,
            },
    {
        if let RepoPushConfig::Command(command) = &self.push {
            if command.len() == 0 {
                return Err(
                    Error::Config {
                        message:
                            "jj-vine.push must not be an empty command; use `false` to disable pushing".to_owned(),
                    },
                );
            }
        }
        let fault = match self.forge {
            ForgeType::GitLab => forge::check_gitlab(&self.gitlab),
            ForgeType::GitHub => forge::check_github(&self.github, self.remote_name.as_str()),
            ForgeType::Forgejo => forge::check_forgejo(&self.forgejo),
            ForgeType::AzureDevOps => forge::check_azure(&self.azure),
        };
        match fault {
            Some(message) => Err(Error::Config { message }),
            None => Ok(()),
        }
    }

    /// Fills in the project and host of the GitHub section from a detected forge, as far as
    /// they are not set in the repository's own configuration.
    pub fn fill_in(
        self,
        project_set: bool,
        host_set: bool,
        detected: Option<remote::DetectedForge>,
    ) -> (r: Config)
        ensures
            filled_in(self, r, project_set, host_set, remote::opt_detected(detected)),
    {
        let mut config = self;
        if config.forge == ForgeType::GitHub {
            if let Some(detected) = detected {
                if !project_set {
                    config.github.project = detected.project;
                }
                if !host_set {
                    config.github.host = detected.host;
                }
            }
        }
        config
    }

    /// Checks a listing of the whole configuration: it has to be TOML with a section for this
    /// tool. `found` says whether it has the section, or why it is not TOML.
    pub fn check_section(found: Result<bool, String>) -> (r: Result<(), Error>)
        ensures
            match found {
                Err(reason) => error::config_error(
                    r,
                    "Failed to parse config as TOML: "@ + reason@,
                ),
                Ok(false) => error::config_error(r, "Missing required config section: jj-vine"@),
                Ok(true) => r is Ok,
            },
    {
        match found {
            Err(reason) => Err(
                Error::Config {
                    message: "Failed to parse config as TOML: ".to_owned().concat(reason.as_str()),
                },
            ),
            Ok(false) => Err(
                Error::Config { message: "Missing required config section: jj-vine".to_owned() },
            ),
            Ok(true) => Ok(()),
        }
    }

    /// Whether a listing of the remotes is needed, given the listing of the repository's own
    /// configuration: for GitHub, where that leaves the project or the host open.
    pub fn needs_remotes(&self, layer: Option<&str>) -> (r: bool)
        ensures
            r == (self.forge == ForgeType::GitHub && !(layer_sets(
                text::opt_slice(layer),
                "project"@,
            ) && layer_sets(text::opt_slice(layer), "host"@))),
    {
        self.forge == ForgeType::GitHub && !(layer_has(layer, "project") && layer_has(
            layer,
            "host",
        ))
    }

    /// Loads the configuration. `listing` is the listing of the whole configuration and
    /// `parsed` what its section for this tool holds; `layer` is the listing of the
    /// repository's own configuration and `remotes` that of its remotes, where the commands
    /// that give them did not fail.
    ///
    /// What the repository's own configuration sets goes before what the clone's remote
    /// gives, and that goes before what the rest of the configuration sets.
    pub fn load(
        listing: &str,
        parsed: Result<Config, String>,
        layer: Option<&str>,
        remotes: Option<&str>,
    ) -> (r: Result<Config, Error>)
        ensures
            match toml_text::toml_contents(listing@) {
                Err(reason) => error::config_error(
                    r,
                    "Failed to parse config as TOML: "@ + reason,
                ),
                Ok(held) => if !held.dom().contains(seq!["jj-vine"@]) {
                    error::config_error(r, "Missing required config section: jj-vine"@)
                } else {
                    match parsed {
                        Err(reason) => error::config_error(
                            r,
                            "Failed to parse jj-vine config: "@ + reason@,
                        ),
                        Ok(config) => loaded(
                            config,
                            text::opt_slice(layer),
                            text::opt_slice(remotes),
                            r,
                        ),
                    }
                },
            },
    {
        let found = match toml_text::parse(listing) {
            Ok(value) => Ok(toml_text::has_key(&value, "jj-vine")),
            Err(reason) => Err(reason),
        };
        match Config::check_section(found) {
            Ok(()) => {},
            Err(e) => return Err(e),
        }
        let config = match parsed {
            Ok(config) => config,
            Err(reason) => {
                return Err(
                    Error::Config {
                        message: "Failed to parse jj-vine config: ".to_owned().concat(
                            reason.as_str(),
                        ),
                    },
                );
            },
        };
        let project_set = layer_has(layer, "project");
        let host_set = layer_has(layer, "host");
        let detected = remote::detect_project(
            remotes,
            config.remote_name.as_str(),
            ForgeType::GitHub,
        );
        let filled = config.fill_in(project_set, host_set, detected);
        match filled.validate() {
            Ok(()) => Ok(filled),
            Err(e) => Err(e),
        }
    }
}

/// `r` is what loading gives, once the configuration has been read.
pub open spec fn loaded(
    config: Config,
    layer: Option<Seq<char>>,
    remotes: Option<Seq<char>>,
    r: Result<Config, Error>,
) -> bool {
    exists|after: Config|
        {
            &&& #[trigger] filled_in(
                config,
                after,
                layer_sets(layer, "project"@),
                layer_sets(layer, "host"@),
                remote::derived_forge(remotes, config.remote_name@, ForgeType::GitHub),
            )
            &&& match config_fault(after) {
                Some(message) => error::config_error(r, message),
                None => r == Ok::<Config, Error>(after),
            }
        }
}

/// What the repository's own configuration sets is kept; what it leaves open is taken from
/// the clone's remote, even where the rest of the configuration sets it.
pub proof fn repository_layer_goes_first(
    before: Config,
    after: Config,
    layer: Option<Seq<char>>,
    detected: Option<remote::DetectedView>,
)
    requires
        filled_in(
            before,
            after,
            layer_sets(layer, "project"@),
            layer_sets(layer, "host"@),
            detected,
        ),
    ensures
        layer_sets(layer, "project"@) ==> after.github.project@ == before.github.project@,
        layer_sets(layer, "host"@) ==> after.github.host@ == before.github.host@,
        before.forge == ForgeType::GitHub && detected is Some && !layer_sets(layer, "project"@)
            ==> after.github.project@ == detected->0.project,
        before.forge == ForgeType::GitHub && detected is Some && !layer_sets(layer, "host"@)
            ==> after.github.host@ == detected->0.host,
{
}

/// Filling in touches nothing but the project and host of the GitHub section, and not even
/// these where the forge is not GitHub or nothing was detected. The target project in
/// particular is never derived.
pub proof fn filling_in_touches_nothing_else(
    before: Config,
    after: Config,
    project_set: bool,
    host_set: bool,
    detected: Option<remote::DetectedView>,
)
    requires
        filled_in(before, after, project_set, host_set, detected),
    ensures
        after.github.target_project == before.github.target_project,
        after.github.token == before.github.token,
        after.gitlab == before.gitlab,
        after.forge == before.forge,
        after.push == before.push,
        before.forge != ForgeType::GitHub || detected is None ==> after.github.project@
            == before.github.project@ && after.github.host@ == before.github.host@,
{
}

/// What pushes in one run. A disabled push stays disabled. Without hooks, and where the
/// configuration only enables pushing, `jj git push` pushes; else the configured command does,
/// word for word.
pub proof fn push_command_of_a_run(push: RepoPushConfig, no_hooks: bool, r: Option<Vec<String>>)
    requires
        call_ensures(RepoPushConfig::resolve_argv, (&push, no_hooks), r),
    ensures
        r is None <==> push == RepoPushConfig::Enabled(false),
        r is Some && (no_hooks || push == RepoPushConfig::Enabled(true)) ==> r->0@.len() == 3
            && r->0@[0]@ == "jj"@ && r->0@[1]@ == "git"@ && r->0@[2]@ == "push"@,
        !no_hooks ==> (push matches RepoPushConfig::Command(command) ==> r is Some && r->0@.len()
            == command@.len() && forall|i: int|
            0 <= i < command@.len() ==> (#[trigger] r->0@[i])@ == command@[i]@),
{
    if let Some(argv) = r {
        assert(text::texts(argv@).len() == argv@.len());
        assert forall|i: int| 0 <= i < argv@.len() implies text::texts(argv@)[i]
            == (#[trigger] argv@[i])@ by {}
        if let RepoPushConfig::Command(command) = push {
            assert(text::texts(command@).len() == command@.len());
            assert forall|i: int| 0 <= i < command@.len() implies text::texts(command@)[i]
                == (#[trigger] command@[i])@ by {}
        }
    }
}

/// The names of the forges, for people and in the configuration. Each reads back from the name
/// in the configuration, and no other text is the name of one.
pub proof fn forges_have_their_names(
    forge: ForgeType,
    shown: &str,
    written: String,
    all: Vec<ForgeType>,
    name: &str,
    read: Option<ForgeType>,
)
    requires
        call_ensures(ForgeType::display_name, (&forge,), shown),
        call_ensures(ForgeType::to_string, (&forge,), written),
        call_ensures(ForgeType::variants, (), all),
        call_ensures(ForgeType::named, (name,), read),
    ensures
        forge == ForgeType::GitLab ==> shown@ == "GitLab"@ && written@ == "gitlab"@,
        forge == ForgeType::GitHub ==> shown@ == "GitHub"@ && written@ == "github"@,
        forge == ForgeType::Forgejo ==> shown@ == "Forgejo"@ && written@ == "forgejo"@,
        forge == ForgeType::AzureDevOps ==> shown@ == "Azure DevOps"@ && written@ == "azure"@,
        all@.contains(forge),
        all@.len() == 4,
        read == Some(forge) <==> name@ == written@,
{
    forge_name_reads_back(forge);
    forge_name_reads_back(ForgeType::GitLab);
    forge_name_reads_back(ForgeType::GitHub);
    forge_name_reads_back(ForgeType::Forgejo);
    forge_name_reads_back(ForgeType::AzureDevOps);
    assert(all@[0] == ForgeType::GitLab && all@[1] == ForgeType::GitHub && all@[2]
        == ForgeType::Forgejo && all@[3] == ForgeType::AzureDevOps);
}

/// A host is taken for a forge by the name that stands in it, and for none where no name does.
/// Of several names the first in the order GitLab, GitHub, Forgejo, Azure DevOps decides.
pub proof fn host_names_its_forge(host: &str, r: Option<ForgeType>)
    requires
        call_ensures(ForgeType::detect_from_host, (host,), r),
    ensures
        ({
            let lab = text::contains_text(host@, "gitlab"@);
            let hub = text::contains_text(host@, "github"@);
            let forgejo = text::contains_text(host@, "forgejo"@) || text::contains_text(
                host@,
                "gitea"@,
            ) || text::contains_text(host@, "codeberg"@);
            let azure = text::contains_text(host@, "azure"@);
            &&& r == Some(ForgeType::GitLab) <==> lab
            &&& r == Some(ForgeType::GitHub) <==> hub && !lab
            &&& r == Some(ForgeType::Forgejo) <==> forgejo && !lab && !hub
            &&& r == Some(ForgeType::AzureDevOps) <==> azure && !lab && !hub && !forgejo
            &&& r is None <==> !lab && !hub && !forgejo && !azure
        }),
{
}

// ---------------------------------------------------------------------------
// Laws
// ---------------------------------------------------------------------------
/// Setting something in a builder changes that in what is built, and nothing else.
pub proof fn setting_changes_one_field(
    b: ConfigBuilder,
    before: Config,
    after: Config,
    next: ConfigBuilder,
    default_base_branch: String,
    remote_name: String,
    ca_bundle: String,
    tls_accept_non_compliant_certs: bool,
    description: DescriptionConfig,
    delete_source_branch: bool,
    squash_commits: bool,
    assign_to_self: bool,
    default_reviewers: Vec<String>,
    open_as_draft: bool,
    fetch: RepoFetchConfig,
    push: RepoPushConfig,
    title: TitleConfig,
    gitlab: GitLabConfig,
    github: GitHubConfig,
    forgejo: ForgejoConfig,
    azure: AzureDevOpsConfig,
    forge: ForgeType,
)
    requires
        call_ensures(ConfigBuilder::build, (b,), before),
        call_ensures(ConfigBuilder::build, (next,), after),
    ensures
        call_ensures(ConfigBuilder::default_base_branch, (b, default_base_branch), next) ==> after == (Config {
            default_base_branch: Some(default_base_branch),
            ..before
        }),
        call_ensures(ConfigBuilder::remote_name, (b, remote_name), next) ==> after == (Config {
            remote_name,
            ..before
        }),
        call_ensures(ConfigBuilder::ca_bundle, (b, ca_bundle), next) ==> after == (Config {
            ca_bundle: Some(ca_bundle),
            ..before
        }),
        call_ensures(ConfigBuilder::tls_accept_non_compliant_certs, (b, tls_accept_non_compliant_certs), next) ==> after == (Config {
            tls_accept_non_compliant_certs,
            ..before
        }),
        call_ensures(ConfigBuilder::description, (b, description), next) ==> after == (Config {
            description,
            ..before
        }),
        call_ensures(ConfigBuilder::delete_source_branch, (b, delete_source_branch), next) ==> after == (Config {
            delete_source_branch,
            ..before
        }),
        call_ensures(ConfigBuilder::squash_commits, (b, squash_commits), next) ==> after == (Config {
            squash_commits,
            ..before
        }),
        call_ensures(ConfigBuilder::assign_to_self, (b, assign_to_self), next) ==> after == (Config {
            assign_to_self,
            ..before
        }),
        call_ensures(ConfigBuilder::default_reviewers, (b, default_reviewers), next) ==> after == (Config {
            default_reviewers,
            ..before
        }),
        call_ensures(ConfigBuilder::open_as_draft, (b, open_as_draft), next) ==> after == (Config {
            open_as_draft,
            ..before
        }),
        call_ensures(ConfigBuilder::fetch, (b, fetch), next) ==> after == (Config {
            fetch,
            ..before
        }),
        call_ensures(ConfigBuilder::push, (b, push), next) ==> after == (Config {
            push,
            ..before
        }),
        call_ensures(ConfigBuilder::title, (b, title), next) ==> after == (Config {
            title,
            ..before
        }),
        call_ensures(ConfigBuilder::gitlab, (b, gitlab), next) ==> after == (Config {
            gitlab,
            ..before
        }),
        call_ensures(ConfigBuilder::github, (b, github), next) ==> after == (Config {
            github,
            ..before
        }),
        call_ensures(ConfigBuilder::forgejo, (b, forgejo), next) ==> after == (Config {
            forgejo,
            ..before
        }),
        call_ensures(ConfigBuilder::azure, (b, azure), next) ==> after == (Config {
            azure,
            ..before
        }),
        call_ensures(ConfigBuilder::forge, (b, forge), next) ==> after == (Config {
            forge,
            ..before
        }),
{
}

/// What is not set has its default.
pub proof fn what_is_not_set_has_its_default(
    empty: ConfigBuilder,
    forge: ForgeType,
    b: ConfigBuilder,
    c: Config,
)
    requires
        call_ensures(Config::builder, (), empty),
        call_ensures(ConfigBuilder::forge, (empty, forge), b),
        call_ensures(ConfigBuilder::build, (b,), c),
    ensures
        c.forge == forge,
        c.default_base_branch is None,
        c.remote_name@ == "origin"@,
        c.ca_bundle is None,
        !c.tls_accept_non_compliant_certs,
        c.description.enabled,
        !c.description.sync,
        c.description.single_revision is FullMessage,
        c.description.multiple_revisions is CommitListFull,
        c.description.diagram.single is Omitted,
        c.description.diagram.linear is Linear,
        c.description.diagram.tree is Linear,
        c.description.diagram.complex is Linear,
        c.description.placement is Bottom,
        !c.delete_source_branch,
        !c.squash_commits,
        !c.assign_to_self,
        c.default_reviewers@.len() == 0,
        !c.open_as_draft,
        c.fetch == RepoFetchConfig::Enabled(true),
        c.push == RepoPushConfig::Enabled(true),
        c.title.sync_single_revision,
        c.title.single_revision is FirstRevisionFirstLine,
        c.title.sync_multiple_revisions,
        c.title.multiple_revisions is BookmarkName,
        c.gitlab.host@.len() == 0,
        c.gitlab.token@.len() == 0,
        !c.gitlab.create_merge_request_dependencies,
        c.github.project@.len() == 0,
        c.github.token@.len() == 0,
        c.github.token_command@.len() == 0,
        !c.github.link_stack,
        c.forgejo.token@.len() == 0,
        c.forgejo.wip_prefix@.len() == 0,
        c.azure.token@.len() == 0,
{
}

/// Where there is a token that is not blank, it is the token, trimmed, and no command is run; else
/// the command has to be run, and where there is none that is an error.
pub proof fn token_goes_before_its_command(
    c: GitHubConfig,
    outcome: Spawned,
    timeout_secs: u64,
    token: &str,
    trimmed: &str,
    request: Result<TokenRequest, Error>,
    r: Result<String, Error>,
)
    requires
        token@ == c.token@,
        call_ensures(text::str_trim, (token,), trimmed),
        call_ensures(GitHubConfig::token_request, (&c,), request),
        call_ensures(GitHubConfig::resolved_token_with_timeout, (&c, outcome, timeout_secs), r),
    ensures
        trimmed@.len() > 0 ==> {
            &&& request matches Ok(TokenRequest::Literal(t)) && t@ == trimmed@
            &&& r matches Ok(t) && t@ == trimmed@
        },
        trimmed@.len() == 0 && c.token_command@.len() > 0 ==> request matches Ok(TokenRequest::Run),
        trimmed@.len() == 0 && c.token_command@.len() == 0 ==> request is Err && r is Err,
{
}

/// What a token command gives: what it printed, trimmed, where it exited with zero and printed a text
/// that is not blank, and an error in every other case. An error about the command tells the command.
pub proof fn token_command_gives_what_it_printed(
    c: GitHubConfig,
    outcome: Spawned,
    timeout_secs: u64,
    r: Result<String, Error>,
    printed: &str,
    trimmed: &str,
    i: int,
)
    requires
        forall|k: int| 0 <= k < c.token@.len() ==> text::is_white(#[trigger] c.token@[k]),
        c.token_command@.len() > 0,
        call_ensures(GitHubConfig::resolved_token_with_timeout, (&c, outcome, timeout_secs), r),
        outcome matches Spawned::Finished(output) ==> (valid_utf8(output.stdout@) ==> printed@
            == decode_utf8(output.stdout@)),
        call_ensures(text::str_trim, (printed,), trimmed),
    ensures
        r is Ok <==> (outcome matches Spawned::Finished(output) && output.code == Some(0i32)
            && valid_utf8(output.stdout@) && trimmed@.len() > 0),
        r matches Ok(token) ==> token@ == trimmed@,
        outcome matches Spawned::Failed { reason } ==> (r matches Err(Error::Io { message })
            && message@ == reason@),
        outcome matches Spawned::NotFound { reason } ==> r is Err && text::contains_text(
            r->Err_0.text(),
            c.token_command@[0]@,
        ) && text::contains_text(r->Err_0.text(), reason@),
        (outcome is Finished || outcome is TimedOut) && r is Err ==> (0 <= i
            < c.token_command@.len() ==> text::contains_text(
            r->Err_0.text(),
            c.token_command@[i]@,
        )),
        outcome matches Spawned::Finished(output) ==> (output.code != Some(0i32)
            ==> text::contains_text(r->Err_0.text(), output.status@)),
{
    text::lemma_blank(c.token@);
    let words = text::texts(c.token_command@);
    let command = command_text(c);
    assert(words.len() == c.token_command@.len());
    let head = "github.tokenCommand `"@;
    if 0 <= i < words.len() {
        assert(words[i] == c.token_command@[i]@);
        text::lemma_contains_middle(Seq::empty(), words[i], Seq::empty());
        assert(Seq::<char>::empty() + words[i] + Seq::<char>::empty() =~= words[i]);
        text::lemma_contains_joined(words, " "@, i, words[i]);
    }
    match outcome {
        Spawned::NotFound { reason } => {
            let first = c.token_command@[0]@;
            let start = "github.tokenCommand binary `"@;
            let mid = "` not found in PATH: "@;
            let e = r->Err_0.text();
            text::lemma_contains_middle(start, first, mid + reason@);
            assert(e =~= start + first + (mid + reason@));
            text::lemma_contains_middle(start + first + mid, reason@, Seq::empty());
            assert(e =~= start + first + mid + reason@ + Seq::<char>::empty());
        },
        Spawned::Failed { reason } => {},
        Spawned::TimedOut => {
            let tail = "` timed out after "@ + text::decimal(timeout_secs as nat) + "s"@;
            if 0 <= i < words.len() {
                text::lemma_contains_inside(head, command, tail, words[i]);
            }
            assert(r->Err_0.text() =~= head + command + tail);
        },
        Spawned::Finished(output) => {
            if output.code != Some(0i32) {
                let tail = "` failed with "@ + output.status@;
                if 0 <= i < words.len() {
                    text::lemma_contains_inside(head, command, tail, words[i]);
                }
                assert(r->Err_0.text() =~= head + command + tail);
                text::lemma_contains_middle(
                    head + command + "` failed with "@,
                    output.status@,
                    Seq::empty(),
                );
                assert(r->Err_0.text() =~= head + command + "` failed with "@ + output.status@
                    + Seq::<char>::empty());
            } else if r is Err && 0 <= i < words.len() {
                let tail = if !valid_utf8(output.stdout@) {
                    "` produced non-UTF-8 output"@
                } else {
                    "` produced empty output"@
                };
                text::lemma_contains_inside(head, command, tail, words[i]);
            }
        },
    }
}

/// PRs go to the target project where one is set, else to the project itself; branches always go to
/// the project. A fork is where the two differ.
pub proof fn target_is_the_project_by_default(
    lab: GitLabConfig,
    lab_target: &str,
    lab_source: &str,
    lab_fork: bool,
    hub: GitHubConfig,
    hub_target: &str,
    hub_source: &str,
    hub_fork: bool,
    forgejo: ForgejoConfig,
    forgejo_target: &str,
    forgejo_source: &str,
)
    requires
        call_ensures(GitLabConfig::target_project, (&lab,), lab_target),
        call_ensures(GitLabConfig::source_project, (&lab,), lab_source),
        call_ensures(GitLabConfig::is_fork_workflow, (&lab,), lab_fork),
        call_ensures(GitHubConfig::target_project, (&hub,), hub_target),
        call_ensures(GitHubConfig::source_project, (&hub,), hub_source),
        call_ensures(GitHubConfig::is_fork_workflow, (&hub,), hub_fork),
        call_ensures(ForgejoConfig::target_project, (&forgejo,), forgejo_target),
        call_ensures(ForgejoConfig::source_project, (&forgejo,), forgejo_source),
    ensures
        lab.target_project@.len() > 0 ==> lab_target@ == lab.target_project@,
        lab.target_project@.len() == 0 ==> lab_target@ == lab.project@,
        lab_source@ == lab.project@,
        lab_fork <==> lab_target@ != lab_source@,
        hub.target_project@.len() > 0 ==> hub_target@ == hub.target_project@,
        hub.target_project@.len() == 0 ==> hub_target@ == hub.project@,
        hub_source@ == hub.project@,
        hub_fork <==> hub_target@ != hub_source@,
        forgejo.target_project@.len() > 0 ==> forgejo_target@ == forgejo.target_project@,
        forgejo.target_project@.len() == 0 ==> forgejo_target@ == forgejo.project@,
        forgejo_source@ == forgejo.project@,
{
}

/// In Azure DevOps, too, what is not set for the target is that of the source.
pub proof fn azure_target_is_the_source_by_default(
    c: AzureDevOpsConfig,
    source: &str,
    target: &str,
    name: Option<&str>,
    id: Option<&str>,
)
    requires
        call_ensures(AzureDevOpsConfig::source_project_id, (&c,), source),
        call_ensures(AzureDevOpsConfig::target_project_id, (&c,), target),
        call_ensures(AzureDevOpsConfig::target_repository_name, (&c,), name),
        call_ensures(AzureDevOpsConfig::target_repository_id, (&c,), id),
    ensures
        source@ == c.project@,
        c.target_project@.len() > 0 ==> target@ == c.target_project@,
        c.target_project@.len() == 0 ==> target@ == c.project@,
        c.target_repository_name matches Some(n) ==> (name matches Some(m) && m@ == n@),
        c.target_repository_name is None ==> (c.source_repository_name matches Some(n) ==> (
        name matches Some(m) && m@ == n@)),
        c.target_repository_name is None && c.source_repository_name is None ==> name is None,
        c.target_repository_id matches Some(n) ==> (id matches Some(m) && m@ == n@),
        c.target_repository_id is None ==> (c.source_repository_id matches Some(n) ==> (
        id matches Some(m) && m@ == n@)),
        c.target_repository_id is None && c.source_repository_id is None ==> id is None,
{
}

/// What is fetched: nothing where that is disabled, the tracked bookmarks where it is enabled, and
/// what a configured command says, word for word.
pub proof fn fetch_says_what_to_run(fetch: RepoFetchConfig, r: Option<Vec<&str>>, i: int)
    requires
        call_ensures(RepoFetchConfig::to_args, (&fetch,), r),
    ensures
        r is None <==> fetch == RepoFetchConfig::Enabled(false),
        fetch == RepoFetchConfig::Enabled(true) ==> r->0@.len() == 3 && r->0@[0]@ == "git"@
            && r->0@[1]@ == "fetch"@ && r->0@[2]@ == "--tracked"@,
        fetch matches RepoFetchConfig::Command(words) ==> r->0@.len() == words@.len() && (0 <= i
            < words@.len() ==> r->0@[i]@ == words@[i]@),
{
    if let Some(args) = r {
        assert(text::slices(args@).len() == args@.len());
        if fetch == RepoFetchConfig::Enabled(true) {
            assert(text::slices(args@)[0] == args@[0]@);
            assert(text::slices(args@)[1] == args@[1]@);
            assert(text::slices(args@)[2] == args@[2]@);
        }
        if let RepoFetchConfig::Command(words) = fetch {
            assert(text::texts(words@).len() == words@.len());
            if 0 <= i < words@.len() {
                assert(text::slices(args@)[i] == args@[i]@);
                assert(text::texts(words@)[i] == words@[i]@);
            }
        }
    }
}

/// A configuration is in order exactly where it does not push by an empty command and the section
/// of its own forge is in order; the sections of the other forges do not count.
pub proof fn own_section_decides(
    c: Config,
    remote: &str,
    lab: Option<String>,
    hub: Option<String>,
    forgejo: Option<String>,
    azure: Option<String>,
    r: Result<(), Error>,
)
    requires
        remote@ == c.remote_name@,
        call_ensures(forge::check_gitlab, (&c.gitlab,), lab),
        call_ensures(forge::check_github, (&c.github, remote), hub),
        call_ensures(forge::check_forgejo, (&c.forgejo,), forgejo),
        call_ensures(forge::check_azure, (&c.azure,), azure),
        call_ensures(Config::validate, (&c,), r),
    ensures
        ({
            let fault = match c.forge {
                ForgeType::GitLab => lab,
                ForgeType::GitHub => hub,
                ForgeType::Forgejo => forgejo,
                ForgeType::AzureDevOps => azure,
            };
            let empty = c.push matches RepoPushConfig::Command(words) && words@.len() == 0;
            &&& r is Ok <==> !empty && fault is None
            &&& !empty && fault is Some ==> (r matches Err(Error::Config { message }) && message@
                == fault->0@)
        }),
{
}

/// Of what was detected, the project and the host fill in what the repository's own configuration
/// leaves open, for GitHub; nothing else changes.
pub proof fn detected_values_fill_the_gaps(
    c: Config,
    project_set: bool,
    host_set: bool,
    detected: Option<remote::DetectedForge>,
    r: Config,
)
    requires
        call_ensures(Config::fill_in, (c, project_set, host_set, detected), r),
    ensures
        r.forge == c.forge,
        r.remote_name == c.remote_name,
        r.default_base_branch == c.default_base_branch,
        r.ca_bundle == c.ca_bundle,
        r.tls_accept_non_compliant_certs == c.tls_accept_non_compliant_certs,
        r.description == c.description,
        r.delete_source_branch == c.delete_source_branch,
        r.squash_commits == c.squash_commits,
        r.assign_to_self == c.assign_to_self,
        r.default_reviewers == c.default_reviewers,
        r.open_as_draft == c.open_as_draft,
        r.fetch == c.fetch,
        r.push == c.push,
        r.title == c.title,
        r.gitlab == c.gitlab,
        r.forgejo == c.forgejo,
        r.azure == c.azure,
        r.github.target_project == c.github.target_project,
        r.github.token == c.github.token,
        r.github.token_command == c.github.token_command,
        r.github.link_stack == c.github.link_stack,
        c.forge == ForgeType::GitHub && !project_set ==> (detected matches Some(d)
            ==> r.github.project@ == d.project@),
        c.forge == ForgeType::GitHub && !host_set ==> (detected matches Some(d) ==> r.github.host@
            == d.host@),
        c.forge != ForgeType::GitHub || project_set || detected is None ==> r.github.project@
            == c.github.project@,
        c.forge != ForgeType::GitHub || host_set || detected is None ==> r.github.host@
            == c.github.host@,
{
}

/// What loads is the configuration that was read, with the gaps of its GitHub section filled in from
/// the remote, and it is in order. Where no remotes are needed, or the forge is not GitHub, it is
/// what was read.
pub proof fn loaded_configuration_is_what_was_read(
    listing: &str,
    c: Config,
    layer: Option<&str>,
    remotes: Option<&str>,
    name: &str,
    needs: bool,
    detected: Option<remote::DetectedForge>,
    r: Result<Config, Error>,
)
    requires
        call_ensures(Config::load, (listing, Ok(c), layer, remotes), r),
        call_ensures(Config::needs_remotes, (&c, layer), needs),
        name@ == c.remote_name@,
        call_ensures(remote::detect_project, (remotes, name, ForgeType::GitHub), detected),
        r is Ok,
    ensures
        ({
            let d = r->Ok_0;
            &&& d == (Config {
                github: GitHubConfig {
                    project: d.github.project,
                    host: d.github.host,
                    ..c.github
                },
                ..c
            })
            &&& c.forge != ForgeType::GitHub ==> !needs
            &&& !needs || detected is None ==> d.github.project@ == c.github.project@
                && d.github.host@ == c.github.host@
            &&& detected matches Some(f) ==> {
                &&& d.github.project@ == c.github.project@ || d.github.project@ == f.project@
                &&& d.github.host@ == c.github.host@ || d.github.host@ == f.host@
                &&& c.forge == ForgeType::GitHub && layer is None ==> d.github.project@
                    == f.project@ && d.github.host@ == f.host@
            }
        }),
        forall|v: Result<(), Error>| #[trigger]
            call_ensures(Config::validate, (&r->Ok_0,), v) ==> v is Ok,
{
}

/// A configuration that could not be read does not load, and the error tells why.
pub proof fn unreadable_configuration_does_not_load(
    listing: &str,
    reason: String,
    layer: Option<&str>,
    remotes: Option<&str>,
    found: Result<bool, String>,
    section: Result<(), Error>,
    r: Result<Config, Error>,
)
    requires
        call_ensures(Config::load, (listing, Err(reason), layer, remotes), r),
        call_ensures(Config::check_section, (found,), section),
    ensures
        r is Err,
        section is Ok <==> found == Ok::<bool, String>(true),
        found matches Err(why) ==> text::contains_text(section->Err_0.text(), why@),
        found == Ok::<bool, String>(false) ==> text::contains_text(
            section->Err_0.text(),
            "jj-vine"@,
        ),
{
    if let Err(why) = found {
        let head = "Failed to parse config as TOML: "@;
        text::lemma_contains_middle(head, why@, Seq::empty());
        assert(head + why@ + Seq::<char>::empty() =~= head + why@);
    }
    reveal_strlit("Missing required config section: jj-vine");
    reveal_strlit("jj-vine");
    assert(text::has_at("Missing required config section: jj-vine"@, 33, "jj-vine"@)) by {
        assert("Missing required config section: jj-vine"@.subrange(33, 40) =~= "jj-vine"@);
    }
}

/// The named title formats; everything else is a template, as it stands.
pub proof fn titles_have_their_formats(v: &str, r: TitleFormat)
    requires
        call_ensures(TitleFormat::parse, (v,), r),
    ensures
        v@ == "firstRevisionFirstLine"@ ==> r is FirstRevisionFirstLine,
        v@ == "firstRevisionFullMessage"@ ==> r is FirstRevisionFullMessage,
        v@ == "headRevisionFirstLine"@ ==> r is HeadRevisionFirstLine,
        v@ == "headRevisionFullMessage"@ ==> r is HeadRevisionFullMessage,
        v@ == "bookmarkName"@ ==> r is BookmarkName,
        v@ != "firstRevisionFirstLine"@ && v@ != "firstRevisionFullMessage"@ && v@
            != "headRevisionFirstLine"@ && v@ != "headRevisionFullMessage"@ && v@ != "bookmarkName"@
            ==> (r matches TitleFormat::Other(template) && template@ == v@),
{
}

/// The named description modes; `file(..)` names the file between the brackets; everything else is
/// an error that tells the text.
pub proof fn descriptions_have_their_modes(v: &str, path: Seq<char>, r: Result<DescriptionMode, Error>)
    requires
        call_ensures(DescriptionMode::parse, (v,), r),
    ensures
        v@ == "none"@ ==> r matches Ok(DescriptionMode::Omitted),
        v@ == "notFirstLine"@ ==> r matches Ok(DescriptionMode::NotFirstLine),
        v@ == "fullMessage"@ ==> r matches Ok(DescriptionMode::FullMessage),
        v@ == "commitListFirstLine"@ ==> r matches Ok(DescriptionMode::CommitListFirstLine),
        v@ == "commitListFull"@ ==> r matches Ok(DescriptionMode::CommitListFull),
        v@ == "file("@ + path + ")"@ && !text::starts_with(path + ")"@, "file("@)
            && !text::ends_with(path, ")"@) ==> (r matches Ok(DescriptionMode::File(p)) && p@
            == path),
        r is Err ==> text::contains_text(r->Err_0.text(), v@) && !(text::starts_with(v@, "file("@)
            && text::ends_with(v@, ")"@)),
{
    reveal_strlit("none");
    reveal_strlit("notFirstLine");
    reveal_strlit("fullMessage");
    reveal_strlit("commitListFirstLine");
    reveal_strlit("commitListFull");
    reveal_strlit("file(");
    reveal_strlit(")");
    let open = "file("@;
    let shut = ")"@;
    if r is Err {
        let head = "invalid description mode: "@;
        text::lemma_contains_middle(head, v@, Seq::empty());
        assert(head + v@ + Seq::<char>::empty() =~= head + v@);
    }
    if v@ == "notFirstLine"@ {
        assert(v@.len() == 12);
    }
    assert("none"@.len() == 4 && "notFirstLine"@.len() == 12 && "fullMessage"@.len() == 11
        && "commitListFirstLine"@.len() == 19 && "commitListFull"@.len() == 14);
    if v@ == open + path + shut && !text::starts_with(path + shut, open) && !text::ends_with(
        path,
        shut,
    ) {
        assert(v@[0] == 'f' && v@[1] == 'i');
        let n = v@.len() as int;
        assert(v@.subrange(0, 5) =~= open);
        assert(v@.subrange(n - 1, n) =~= shut);
        assert(v@.skip(5) =~= path + shut);
        reveal_with_fuel(text::without_prefixes, 2);
        reveal_with_fuel(text::without_suffixes, 2);
        assert(text::without_prefixes(v@, open) == path + shut);
        let m = (path + shut).len() as int;
        assert((path + shut).subrange(m - 1, m) =~= shut);
        assert((path + shut).take(m - 1) =~= path);
        assert(text::without_suffixes(path + shut, shut) == path);
    }
}

/// Leaving open is the same as being empty: only a text that is not empty counts as set.
pub proof fn empty_values_are_left_open(value: Option<&str>, r: bool)
    requires
        call_ensures(repo_layer_nonempty, (value,), r),
    ensures
        r <==> (value matches Some(s) && s@.len() > 0),
{
}

/// Names of forges are read in upper and lower case alike, and a text that names none is told.
pub proof fn case_of_a_forge_does_not_count(s: &str, forge: ForgeType, r: Result<ForgeType, Error>)
    requires
        call_ensures(ForgeType::parse, (s,), r),
        is_ascii_chars(s@),
    ensures
        s@.len() == forge.text().len() && (forall|i: int|
            0 <= i < s@.len() ==> #[trigger] s@[i] == forge.text()[i] || (s@[i] as u32) + 32
                == forge.text()[i] as u32 && 'A' <= s@[i] <= 'Z') ==> r == Ok::<ForgeType, Error>(
            forge,
        ),
        r is Err ==> text::contains_text(r->Err_0.text(), s@),
{
    forge_name_reads_back(forge);
    if s@.len() == forge.text().len() && (forall|i: int|
        0 <= i < s@.len() ==> #[trigger] s@[i] == forge.text()[i] || (s@[i] as u32) + 32
            == forge.text()[i] as u32 && 'A' <= s@[i] <= 'Z') {
        assert forall|i: int| 0 <= i < s@.len() implies text::ascii_lower(#[trigger] s@[i])
            == forge.text()[i] by {
            assert(ascii_lowercase(forge.text())[i] == text::ascii_lower(forge.text()[i]));
        }
        assert(ascii_lowercase(s@) =~= forge.text());
    }
    if r is Err {
        let head = "Invalid forge type: "@;
        text::lemma_contains_middle(head, s@, Seq::empty());
        assert(head + s@ + Seq::<char>::empty() =~= head + s@);
    }
}

/// A listing that is no TOML, or has no section for this tool, does not load, whatever was read.
pub proof fn listing_needs_its_section(
    listing: &str,
    parsed: Result<Config, String>,
    layer: Option<&str>,
    remotes: Option<&str>,
    r: Result<Config, Error>,
)
    requires
        call_ensures(Config::load, (listing, parsed, layer, remotes), r),
    ensures
        toml_text::toml_contents(listing@) matches Err(reason) ==> r is Err && text::contains_text(
            r->Err_0.text(),
            reason,
        ),
        toml_text::toml_contents(listing@) matches Ok(held) ==> {
            &&& !held.dom().contains(seq!["jj-vine"@]) ==> r is Err && text::contains_text(
                r->Err_0.text(),
                "jj-vine"@,
            )
            &&& held.dom().contains(seq!["jj-vine"@]) ==> (parsed matches Err(reason) ==> r is Err
                && text::contains_text(r->Err_0.text(), reason@))
        },
{
    if let Err(reason) = toml_text::toml_contents(listing@) {
        let head = "Failed to parse config as TOML: "@;
        text::lemma_contains_middle(head, reason, Seq::empty());
        assert(head + reason + Seq::<char>::empty() =~= head + reason);
    }
    if let Err(reason) = parsed {
        let head = "Failed to parse jj-vine config: "@;
        text::lemma_contains_middle(head, reason@, Seq::empty());
        assert(head + reason@ + Seq::<char>::empty() =~= head + reason@);
    }
    reveal_strlit("Missing required config section: jj-vine");
    reveal_strlit("jj-vine");
    assert(text::has_at("Missing required config section: jj-vine"@, 33, "jj-vine"@)) by {
        assert("Missing required config section: jj-vine"@.subrange(33, 40) =~= "jj-vine"@);
    }
}

/// A configuration that is in order loads, where nothing has to be filled in: where the forge is not
/// GitHub, or nothing is detected, or the repository's own configuration leaves nothing open. One
/// that is not in order does not, and the error is the one that the check gives.
pub proof fn configuration_in_order_loads(
    listing: &str,
    c: Config,
    layer: Option<&str>,
    remotes: Option<&str>,
    name: &str,
    needs: bool,
    detected: Option<remote::DetectedForge>,
    checked: Result<(), Error>,
    r: Result<Config, Error>,
)
    requires
        toml_text::toml_contents(listing@) matches Ok(held) && held.dom().contains(
            seq!["jj-vine"@],
        ),
        call_ensures(Config::load, (listing, Ok(c), layer, remotes), r),
        call_ensures(Config::needs_remotes, (&c, layer), needs),
        name@ == c.remote_name@,
        call_ensures(remote::detect_project, (remotes, name, ForgeType::GitHub), detected),
        c.forge != ForgeType::GitHub || detected is None || !needs,
        call_ensures(Config::validate, (&c,), checked),
    ensures
        r is Ok <==> checked is Ok,
        checked is Err ==> r->Err_0.text() == checked->Err_0.text(),
{
}

/// The remotes have to be listed for GitHub, where the repository's own configuration is not there.
pub proof fn github_needs_the_remotes(c: Config, needs: bool)
    requires
        call_ensures(Config::needs_remotes, (&c, None), needs),
    ensures
        needs <==> c.forge == ForgeType::GitHub,
{
}

proof fn lemma_no_use_told(head: Seq<char>)
    ensures
        text::contains_text(
            head + "` produced non-UTF-8 output"@,
            "produced non-UTF-8 output"@,
        ),
        text::contains_text(head + "` produced empty output"@, "produced empty output"@),
{
    reveal_strlit("` produced non-UTF-8 output");
    reveal_strlit("produced non-UTF-8 output");
    reveal_strlit("` produced empty output");
    reveal_strlit("produced empty output");
    reveal_strlit("` ");
    assert("` produced non-UTF-8 output"@ =~= "` "@ + "produced non-UTF-8 output"@);
    assert("` produced empty output"@ =~= "` "@ + "produced empty output"@);
    lemma_last_part(head, "` "@, "produced non-UTF-8 output"@);
    lemma_last_part(head, "` "@, "produced empty output"@);
}

proof fn lemma_last_part(head: Seq<char>, glue: Seq<char>, told: Seq<char>)
    ensures
        text::contains_text(head + (glue + told), told),
{
    text::lemma_contains_middle(head + glue, told, Seq::empty());
    assert(head + glue + told + Seq::<char>::empty() =~= head + (glue + told));
}

/// Without a deadline of the caller's choice a token command has ten seconds.
pub proof fn token_command_has_ten_seconds(
    c: GitHubConfig,
    outcome: Spawned,
    s: Result<String, Error>,
    t: Result<String, Error>,
)
    requires
        call_ensures(GitHubConfig::resolved_token_with_timeout, (&c, outcome, 10u64), s),
        call_ensures(GitHubConfig::resolved_token, (&c, outcome), t),
    ensures
        t is Ok <==> s is Ok,
        t is Ok ==> t->Ok_0@ == s->Ok_0@,
        t is Err ==> t->Err_0.text() == s->Err_0.text(),
{
}

/// Where a token command overran its deadline the error says how long that was.
pub proof fn token_deadline_is_told(
    c: GitHubConfig,
    timeout_secs: u64,
    token: &str,
    trimmed: &str,
    r: Result<String, Error>,
)
    requires
        token@ == c.token@,
        call_ensures(text::str_trim, (token,), trimmed),
        trimmed@.len() == 0,
        c.token_command@.len() > 0,
        call_ensures(
            GitHubConfig::resolved_token_with_timeout,
            (&c, Spawned::TimedOut, timeout_secs),
            r,
        ),
    ensures
        r is Err,
        text::contains_text(r->Err_0.text(), text::decimal(timeout_secs as nat) + "s"@),
{
    text::lemma_contains_last_two(
        "github.tokenCommand `"@ + command_text(c),
        "` timed out after "@,
        text::decimal(timeout_secs as nat),
        "s"@,
    );
}

/// Where a token command succeeded and printed nothing of use, the error says so.
pub proof fn useless_output_is_told(
    c: GitHubConfig,
    output: RawOutput,
    timeout_secs: u64,
    token: &str,
    trimmed: &str,
    printed: &str,
    value: &str,
    r: Result<String, Error>,
)
    requires
        token@ == c.token@,
        call_ensures(text::str_trim, (token,), trimmed),
        trimmed@.len() == 0,
        c.token_command@.len() > 0,
        output.code == Some(0i32),
        valid_utf8(output.stdout@) ==> printed@ == decode_utf8(output.stdout@),
        call_ensures(text::str_trim, (printed,), value),
        call_ensures(
            GitHubConfig::resolved_token_with_timeout,
            (&c, Spawned::Finished(output), timeout_secs),
            r,
        ),
    ensures
        !valid_utf8(output.stdout@) ==> r is Err && text::contains_text(
            r->Err_0.text(),
            "produced non-UTF-8 output"@,
        ),
        valid_utf8(output.stdout@) && value@.len() == 0 ==> r is Err && text::contains_text(
            r->Err_0.text(),
            "produced empty output"@,
        ),
{
    lemma_no_use_told("github.tokenCommand `"@ + command_text(c));
}

/// The push command of the configuration is that of a run with hooks.
pub proof fn configured_push_is_that_of_a_run(
    push: RepoPushConfig,
    argv: Option<Vec<String>>,
    run: Option<Vec<String>>,
)
    requires
        call_ensures(RepoPushConfig::to_argv, (&push,), argv),
        call_ensures(RepoPushConfig::resolve_argv, (&push, false), run),
    ensures
        text::opt_texts(argv) == text::opt_texts(run),
{
}

} // verus!
