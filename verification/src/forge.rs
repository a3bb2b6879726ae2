//! What each forge asks of the configuration.
use crate::config::{AzureDevOpsConfig, ForgejoConfig, GitHubConfig, GitLabConfig};
use crate::text;
use vstd::prelude::*;

verus! {

/// A text that is an address to clone from, not the path of a project.
pub open spec fn is_clone_url(s: Seq<char>) -> bool {
    ||| text::starts_with(s, "git@"@)
    ||| text::starts_with(s, "ssh://git@"@)
    ||| text::starts_with(s, "https://"@)
    ||| text::starts_with(s, "http://"@)
}

/// What is wrong with a GitLab configuration.
pub open spec fn gitlab_fault(c: GitLabConfig) -> Option<Seq<char>> {
    if c.host@.len() == 0 {
        Some("gitlab.host is required when forge is gitlab"@)
    } else if c.project@.len() == 0 {
        Some("gitlab.project is required when forge is gitlab"@)
    } else if c.token@.len() == 0 {
        Some("gitlab.token is required when forge is gitlab"@)
    } else if is_clone_url(c.project@) {
        Some("gitlab.project must be a GitLab project path or numeric ID"@)
    } else if is_clone_url(c.target_project@) {
        Some("gitlab.targetProject must be a GitLab project path or numeric ID"@)
    } else {
        None
    }
}

/// What is wrong with a GitHub configuration. `remote` is the remote from which the project
/// was to be derived.
pub open spec fn github_fault(c: GitHubConfig, remote: Seq<char>) -> Option<Seq<char>> {
    if c.project@.len() == 0 {
        Some(
            "github.project is required when forge is github (auto-detection from the '"@ + remote
                + "' remote found no GitHub owner/repo)"@,
        )
    } else if text::trim(c.token@).len() == 0 && c.token_command@.len() == 0 {
        Some("github.token or github.tokenCommand is required when forge is github"@)
    } else {
        None
    }
}

/// What is wrong with a Forgejo configuration.
pub open spec fn forgejo_fault(c: ForgejoConfig) -> Option<Seq<char>> {
    if c.host@.len() == 0 {
        Some("forgejo.host is required when forge is forgejo"@)
    } else if c.project@.len() == 0 {
        Some("forgejo.project is required when forge is forgejo"@)
    } else if c.token@.len() == 0 {
        Some("forgejo.token is required when forge is forgejo"@)
    } else {
        None
    }
}

/// What is wrong with an Azure DevOps configuration.
pub open spec fn azure_fault(c: AzureDevOpsConfig) -> Option<Seq<char>> {
    if c.host@.len() == 0 {
        Some("azure.host is required when forge is azure"@)
    } else if c.project@.len() == 0 {
        Some("azure.project is required when forge is azure"@)
    } else if c.token@.len() == 0 {
        Some("azure.token is required when forge is azure"@)
    } else {
        None
    }
}

/// Whether a text is an address to clone from.
pub fn looks_like_clone_url(s: &str) -> (r: bool)
    ensures
        r == is_clone_url(s@),
{
    text::str_starts_with(s, "git@") || text::str_starts_with(s, "ssh://git@")
        || text::str_starts_with(s, "https://") || text::str_starts_with(s, "http://")
}

/// What is wrong with a GitLab configuration.
pub fn check_gitlab(c: &GitLabConfig) -> (r: Option<String>)
    ensures
        text::opt_text(r) == gitlab_fault(*c),
{
    if c.host.as_str().is_empty() {
        Some("gitlab.host is required when forge is gitlab".to_owned())
    } else if c.project.as_str().is_empty() {
        Some("gitlab.project is required when forge is gitlab".to_owned())
    } else if c.token.as_str().is_empty() {
        Some("gitlab.token is required when forge is gitlab".to_owned())
    } else if looks_like_clone_url(c.project.as_str()) {
        Some("gitlab.project must be a GitLab project path or numeric ID".to_owned())
    } else if looks_like_clone_url(c.target_project.as_str()) {
        Some("gitlab.targetProject must be a GitLab project path or numeric ID".to_owned())
    } else {
        None
    }
}

/// What is wrong with a GitHub configuration.
pub fn check_github(c: &GitHubConfig, remote: &str) -> (r: Option<String>)
    ensures
        text::opt_text(r) == github_fault(*c, remote@),
{
    if c.project.as_str().is_empty() {
        Some(
            "github.project is required when forge is github (auto-detection from the '".to_owned().concat(
                remote,
            ).concat("' remote found no GitHub owner/repo)"),
        )
    } else if text::str_trim(c.token.as_str()).is_empty() && c.token_command.len() == 0 {
        Some("github.token or github.tokenCommand is required when forge is github".to_owned())
    } else {
        None
    }
}

/// What is wrong with a Forgejo configuration.
pub fn check_forgejo(c: &ForgejoConfig) -> (r: Option<String>)
    ensures
        text::opt_text(r) == forgejo_fault(*c),
{
    if c.host.as_str().is_empty() {
        Some("forgejo.host is required when forge is forgejo".to_owned())
    } else if c.project.as_str().is_empty() {
        Some("forgejo.project is required when forge is forgejo".to_owned())
    } else if c.token.as_str().is_empty() {
        Some("forgejo.token is required when forge is forgejo".to_owned())
    } else {
        None
    }
}

/// What is wrong with an Azure DevOps configuration.
pub fn check_azure(c: &AzureDevOpsConfig) -> (r: Option<String>)
    ensures
        text::opt_text(r) == azure_fault(*c),
{
    if c.host.as_str().is_empty() {
        Some("azure.host is required when forge is azure".to_owned())
    } else if c.project.as_str().is_empty() {
        Some("azure.project is required when forge is azure".to_owned())
    } else if c.token.as_str().is_empty() {
        Some("azure.token is required when forge is azure".to_owned())
    } else {
        None
    }
}

/// A GitLab section is in order exactly where host, project and token are set and neither project is
/// an address to clone from.
pub proof fn gitlab_needs_host_project_and_token(c: GitLabConfig, r: Option<String>)
    requires
        call_ensures(check_gitlab, (&c,), r),
    ensures
        r is None <==> c.host@.len() > 0 && c.project@.len() > 0 && c.token@.len() > 0
            && !is_clone_url(c.project@) && !is_clone_url(c.target_project@),
        r is Some && c.host@.len() == 0 ==> text::contains_text(r->0@, "gitlab.host"@),
        r is Some && c.host@.len() > 0 && c.project@.len() == 0 ==> text::contains_text(
            r->0@,
            "gitlab.project"@,
        ),
        r is Some && c.host@.len() > 0 && c.project@.len() > 0 && c.token@.len() == 0
            ==> text::contains_text(r->0@, "gitlab.token"@),
{
    reveal_strlit("gitlab.host");
    reveal_strlit("gitlab.project");
    reveal_strlit("gitlab.token");
    reveal_strlit("gitlab.host is required when forge is gitlab");
    reveal_strlit("gitlab.project is required when forge is gitlab");
    reveal_strlit("gitlab.token is required when forge is gitlab");
    assert(text::has_at("gitlab.host is required when forge is gitlab"@, 0, "gitlab.host"@)) by {
        assert("gitlab.host is required when forge is gitlab"@.subrange(0, 11) =~= "gitlab.host"@);
    }
    assert(text::has_at("gitlab.project is required when forge is gitlab"@, 0, "gitlab.project"@))
        by {
        assert("gitlab.project is required when forge is gitlab"@.subrange(0, 14)
            =~= "gitlab.project"@);
    }
    assert(text::has_at("gitlab.token is required when forge is gitlab"@, 0, "gitlab.token"@)) by {
        assert("gitlab.token is required when forge is gitlab"@.subrange(0, 12)
            =~= "gitlab.token"@);
    }
}

/// What starts as an address to clone from is taken for one, and nothing else.
pub proof fn clone_addresses_are_known(s: &str, r: bool)
    requires
        call_ensures(looks_like_clone_url, (s,), r),
    ensures
        r <==> text::starts_with(s@, "git@"@) || text::starts_with(s@, "ssh://git@"@)
            || text::starts_with(s@, "https://"@) || text::starts_with(s@, "http://"@),
{
}

/// A GitHub section is in order exactly where the project is set and there is a token that is not
/// blank or a command for one; the remote is told where the project is missing.
pub proof fn github_needs_project_and_token(
    c: GitHubConfig,
    remote: &str,
    token: &str,
    r: Option<String>,
)
    requires
        token@ == c.token@,
        call_ensures(check_github, (&c, remote), r),
    ensures
        r is None <==> c.project@.len() > 0 && (c.token_command@.len() > 0 || exists|i: int|
            0 <= i < c.token@.len() && !text::is_white(#[trigger] c.token@[i])),
        c.project@.len() == 0 ==> r is Some && text::contains_text(r->0@, remote@),
{
    text::lemma_blank(c.token@);
    text::lemma_contains_middle(
        "github.project is required when forge is github (auto-detection from the '"@,
        remote@,
        "' remote found no GitHub owner/repo)"@,
    );
}

/// A Forgejo section and an Azure DevOps section are in order exactly where host, project and token
/// are set.
pub proof fn others_need_host_project_and_token(
    f: ForgejoConfig,
    a: AzureDevOpsConfig,
    r: Option<String>,
    s: Option<String>,
)
    requires
        call_ensures(check_forgejo, (&f,), r),
        call_ensures(check_azure, (&a,), s),
    ensures
        r is None <==> f.host@.len() > 0 && f.project@.len() > 0 && f.token@.len() > 0,
        s is None <==> a.host@.len() > 0 && a.project@.len() > 0 && a.token@.len() > 0,
{
}

} // verus!
