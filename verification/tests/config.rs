use jj_vine::config::{
    repo_layer_nonempty, AzureDevOpsConfig, Config, DescriptionConfig, DescriptionDiagramConfig,
    DescriptionDiagramFormat, DescriptionMode, ForgeType, ForgejoConfig, GitHubConfig,
    GitLabConfig, RepoFetchConfig, RepoPushConfig, StackPlacement, TitleConfig, TitleFormat,
    TokenRequest,
};
use jj_vine::error::Error;
use jj_vine::process::{RawOutput, Spawned};

fn strings(parts: &[&str]) -> Vec<String> {
    parts.iter().map(|s| (*s).to_owned()).collect()
}

/// A command that ran to its end.
fn finished(code: i32, stdout: &[u8], stderr: &[u8]) -> Spawned {
    Spawned::Finished(RawOutput {
        code: Some(code),
        status: format!("exit status: {code}"),
        stdout: stdout.to_vec(),
        stderr: stderr.to_vec(),
    })
}

/// A command that must not matter.
fn not_run() -> Spawned {
    Spawned::Failed { reason: "must not be looked at".to_owned() }
}

// ---------------------------------------------------------------------------
// Forge sections
// ---------------------------------------------------------------------------
#[test]
fn gitlab_direct_mode_without_target() {
    let config = GitLabConfig {
        host: "https://gitlab.com".to_owned(),
        project: "myuser/myrepo".to_owned(),
        target_project: String::new(),
        token: "token".to_owned(),
        create_merge_request_dependencies: true,
    };

    assert_eq!(config.target_project(), "myuser/myrepo");
    assert_eq!(config.source_project(), "myuser/myrepo");
    assert!(!config.is_fork_workflow());
}

#[test]
fn gitlab_fork_mode_with_different_target() {
    let config = GitLabConfig {
        host: "https://gitlab.com".to_owned(),
        project: "myuser/fork".to_owned(),
        target_project: "upstream/repo".to_owned(),
        token: "token".to_owned(),
        create_merge_request_dependencies: true,
    };

    assert_eq!(config.target_project(), "upstream/repo");
    assert_eq!(config.source_project(), "myuser/fork");
    assert!(config.is_fork_workflow());
}

#[test]
fn gitlab_fork_mode_with_same_target() {
    let config = GitLabConfig {
        host: "https://gitlab.com".to_owned(),
        project: "myuser/repo".to_owned(),
        target_project: "myuser/repo".to_owned(),
        token: "token".to_owned(),
        create_merge_request_dependencies: true,
    };

    assert_eq!(config.target_project(), "myuser/repo");
    assert_eq!(config.source_project(), "myuser/repo");
    assert!(!config.is_fork_workflow());
}

#[test]
fn gitlab_project_rejects_clone_url() {
    let config = Config::builder()
        .forge(ForgeType::GitLab)
        .gitlab(GitLabConfig {
            host: "https://gitlab.com".to_owned(),
            project: "git@gitlab.com:myuser/repo.git".to_owned(),
            target_project: String::new(),
            token: "token".to_owned(),
            create_merge_request_dependencies: true,
        })
        .build();

    let err = config.validate().unwrap_err().to_string();

    assert!(err.contains("gitlab.project must be a GitLab project path or numeric ID"));
}

#[test]
fn gitlab_target_project_rejects_clone_url() {
    let config = Config::builder()
        .forge(ForgeType::GitLab)
        .gitlab(GitLabConfig {
            host: "https://gitlab.com".to_owned(),
            project: "myuser/fork".to_owned(),
            target_project: "https://gitlab.com/upstream/repo.git".to_owned(),
            token: "token".to_owned(),
            create_merge_request_dependencies: true,
        })
        .build();

    let err = config.validate().unwrap_err().to_string();

    assert!(err.contains("gitlab.targetProject must be a GitLab project path or numeric ID"));
}

#[test]
fn push_rejects_empty_command() {
    let config = Config::builder()
        .forge(ForgeType::GitLab)
        .gitlab(GitLabConfig {
            host: "https://gitlab.com".to_owned(),
            project: "myuser/repo".to_owned(),
            target_project: String::new(),
            token: "token".to_owned(),
            create_merge_request_dependencies: true,
        })
        .push(RepoPushConfig::Command(vec![]))
        .build();

    let err = config.validate().unwrap_err().to_string();

    assert!(err.contains("jj-vine.push must not be an empty command"));
}

#[test]
fn github_direct_mode_without_target() {
    let config = GitHubConfig {
        host: "https://api.github.com".to_owned(),
        project: "myuser/myrepo".to_owned(),
        target_project: String::new(),
        token: "token".to_owned(),
        token_command: Vec::new(),
        link_stack: true,
    };

    assert_eq!(config.target_project(), "myuser/myrepo");
    assert_eq!(config.source_project(), "myuser/myrepo");
    assert!(!config.is_fork_workflow());
}

#[test]
fn github_fork_mode_with_different_target() {
    let config = GitHubConfig {
        project: "me/fork".to_owned(),
        target_project: "canon/repo".to_owned(),
        ..GitHubConfig::default()
    };
    assert_eq!(config.target_project(), "canon/repo");
    assert_eq!(config.source_project(), "me/fork");
    assert!(config.is_fork_workflow());
}

#[test]
fn forgejo_target_falls_back_to_project() {
    let direct = ForgejoConfig { project: "a/b".to_owned(), ..ForgejoConfig::default() };
    assert_eq!(direct.target_project(), "a/b");
    assert_eq!(direct.source_project(), "a/b");
    let fork = ForgejoConfig {
        project: "a/b".to_owned(),
        target_project: "c/d".to_owned(),
        ..ForgejoConfig::default()
    };
    assert_eq!(fork.target_project(), "c/d");
    assert_eq!(fork.source_project(), "a/b");
}

#[test]
fn azure_target_falls_back_to_source() {
    let direct = AzureDevOpsConfig {
        project: "org/p".to_owned(),
        source_repository_name: Some("src".to_owned()),
        source_repository_id: Some("1".to_owned()),
        ..AzureDevOpsConfig::default()
    };
    assert_eq!(direct.source_project_id(), "org/p");
    assert_eq!(direct.target_project_id(), "org/p");
    assert_eq!(direct.target_repository_name(), Some("src"));
    assert_eq!(direct.target_repository_id(), Some("1"));
    let fork = AzureDevOpsConfig {
        target_project: "org/t".to_owned(),
        target_repository_name: Some("dst".to_owned()),
        target_repository_id: Some("2".to_owned()),
        ..direct
    };
    assert_eq!(fork.target_project_id(), "org/t");
    assert_eq!(fork.target_repository_name(), Some("dst"));
    assert_eq!(fork.target_repository_id(), Some("2"));
    assert_eq!(AzureDevOpsConfig::default().target_repository_name(), None);
}

#[test]
fn missing_settings_are_named() {
    let cases = [
        (ForgeType::GitLab, "gitlab.host is required when forge is gitlab"),
        (ForgeType::Forgejo, "forgejo.host is required when forge is forgejo"),
        (ForgeType::AzureDevOps, "azure.host is required when forge is azure"),
    ];
    for (forge, message) in cases {
        let config = Config::builder().forge(forge).build();
        assert_eq!(config.validate().unwrap_err().to_string(), message);
    }
    let config = Config::builder()
        .forge(ForgeType::GitHub)
        .github(GitHubConfig { project: "a/b".to_owned(), ..GitHubConfig::default() })
        .build();
    assert_eq!(
        config.validate().unwrap_err().to_string(),
        "github.token or github.tokenCommand is required when forge is github"
    );
    let config = Config::builder()
        .forge(ForgeType::GitHub)
        .github(GitHubConfig {
            project: "a/b".to_owned(),
            token_command: strings(&["gh", "auth", "token"]),
            ..GitHubConfig::default()
        })
        .build();
    assert!(config.validate().is_ok());
}

// ---------------------------------------------------------------------------
// Fetching and pushing
// ---------------------------------------------------------------------------
#[test]
fn repo_push_config_to_argv_enabled_is_jj_git_push() {
    assert_eq!(
        RepoPushConfig::Enabled(true).to_argv(),
        Some(vec!["jj".to_owned(), "git".to_owned(), "push".to_owned()]),
        "Enabled(true) must resolve to `jj git push`"
    );
}

#[test]
fn repo_push_config_to_argv_command_is_verbatim() {
    assert_eq!(
        RepoPushConfig::Command(vec!["jj-hp".to_owned(), "push".to_owned()]).to_argv(),
        Some(vec!["jj-hp".to_owned(), "push".to_owned()]),
        "Command variant must return its argv verbatim"
    );
}

#[test]
fn repo_push_config_to_argv_disabled_is_none() {
    assert_eq!(
        RepoPushConfig::Enabled(false).to_argv(),
        None,
        "Enabled(false) must disable pushing"
    );
}

#[test]
fn resolve_argv_no_hooks_preserves_disabled_push() {
    assert_eq!(RepoPushConfig::Enabled(false).resolve_argv(true), None);
}

#[test]
fn resolve_argv_no_hooks_forces_builtin_over_gate() {
    assert_eq!(
        RepoPushConfig::Command(vec!["jj-hp".to_owned(), "push".to_owned()]).resolve_argv(true),
        Some(vec!["jj".to_owned(), "git".to_owned(), "push".to_owned()]),
    );
}

#[test]
fn resolve_argv_hooks_honors_configured_command() {
    assert_eq!(
        RepoPushConfig::Command(vec!["jj-hp".to_owned(), "push".to_owned()]).resolve_argv(false),
        Some(vec!["jj-hp".to_owned(), "push".to_owned()]),
    );
    assert_eq!(RepoPushConfig::Enabled(false).resolve_argv(false), None);
}

#[test]
fn fetch_arguments() {
    assert_eq!(
        RepoFetchConfig::Enabled(true).to_args(),
        Some(vec!["git", "fetch", "--tracked"])
    );
    assert_eq!(RepoFetchConfig::Enabled(false).to_args(), None);
    assert_eq!(
        RepoFetchConfig::Command(strings(&["git", "fetch"])).to_args(),
        Some(vec!["git", "fetch"])
    );
}

// ---------------------------------------------------------------------------
// Tokens
// ---------------------------------------------------------------------------
#[test]
fn resolved_token_prefers_literal_over_command() {
    let cfg = GitHubConfig {
        token: "literal-tok".to_owned(),
        token_command: vec!["false".to_owned()],
        ..GitHubConfig::default()
    };
    assert_eq!(
        cfg.resolved_token(finished(1, b"", b"")).expect("literal token must resolve"),
        "literal-tok",
        "a non-empty literal token must win over tokenCommand"
    );
    assert!(matches!(cfg.token_request(), Ok(TokenRequest::Literal(t)) if t == "literal-tok"));
}

#[test]
fn resolved_token_runs_command_and_trims() {
    let cfg = GitHubConfig {
        token_command: vec!["printf".to_owned(), "  cmd-tok\n".to_owned()],
        ..GitHubConfig::default()
    };
    assert!(matches!(cfg.token_request(), Ok(TokenRequest::Run)));
    assert_eq!(
        cfg.resolved_token(finished(0, b"  cmd-tok\n", b"")).expect("command token must resolve"),
        "cmd-tok",
        "tokenCommand stdout must be trimmed and used as the token"
    );
}

#[test]
fn resolved_token_errors_when_neither_set() {
    let err = GitHubConfig::default()
        .resolved_token(not_run())
        .expect_err("no token or tokenCommand must error");
    assert!(
        err.to_string().contains("github.token or github.tokenCommand"),
        "error must name both config keys, got: {err:?}"
    );
    assert!(GitHubConfig::default().token_request().is_err());
}

#[test]
fn resolved_token_errors_on_nonzero_exit() {
    let cfg = GitHubConfig {
        token_command: vec![
            "sh".to_owned(),
            "-c".to_owned(),
            "printf '%s%s' \"$1\" \"$2\" >&2; exit 1".to_owned(),
            "sh".to_owned(),
            "SECRET".to_owned(),
            "-LEAK".to_owned(),
        ],
        ..GitHubConfig::default()
    };
    let err = cfg
        .resolved_token(finished(1, b"", b"SECRET-LEAK"))
        .expect_err("a non-zero tokenCommand must error");
    let msg = err.to_string();
    assert!(msg.contains("failed"), "error must report the command failure, got: {msg}");
    assert!(
        !msg.contains("SECRET-LEAK"),
        "error must NOT leak the helper's stderr, got: {msg}"
    );
}

#[test]
fn resolved_token_errors_on_non_utf8_output() {
    let cfg = GitHubConfig {
        token_command: vec![
            "sh".to_owned(),
            "-c".to_owned(),
            "printf '\\xff\\xfe'".to_owned(),
        ],
        ..GitHubConfig::default()
    };
    let err = cfg
        .resolved_token(finished(0, &[0xff, 0xfe], b""))
        .expect_err("a non-UTF-8 tokenCommand output must error");
    assert!(
        err.to_string().contains("non-UTF-8"),
        "error must report non-UTF-8 output, got: {err:?}"
    );
}

#[test]
fn resolved_token_errors_on_empty_output() {
    let cfg = GitHubConfig {
        token_command: vec!["true".to_owned()],
        ..GitHubConfig::default()
    };
    let err = cfg
        .resolved_token(finished(0, b"", b""))
        .expect_err("an empty tokenCommand output must error");
    assert!(
        err.to_string().contains("empty output"),
        "error must report empty output, got: {err:?}"
    );
}

#[test]
fn resolved_token_errors_on_missing_binary() {
    let cfg = GitHubConfig {
        token_command: vec!["jj-vine-no-such-token-bin".to_owned()],
        ..GitHubConfig::default()
    };
    let err = cfg
        .resolved_token(Spawned::NotFound { reason: "cannot find binary path".to_owned() })
        .expect_err("a missing tokenCommand binary must error");
    assert!(
        err.to_string().contains("not found in PATH"),
        "error must name the missing binary, got: {err:?}"
    );
}

#[test]
fn resolved_token_errors_on_timeout() {
    let cfg = GitHubConfig {
        token_command: vec!["sh".to_owned(), "-c".to_owned(), "sleep 30".to_owned()],
        ..GitHubConfig::default()
    };
    let err = cfg
        .resolved_token_with_timeout(Spawned::TimedOut, 0)
        .expect_err("an overrunning tokenCommand must error");
    assert!(
        err.to_string().contains("timed out"),
        "error must report the timeout, got: {err:?}"
    );
    assert_eq!(
        cfg.resolved_token(Spawned::TimedOut).unwrap_err().to_string(),
        "github.tokenCommand `sh -c sleep 30` timed out after 10s"
    );
}

#[test]
fn resolved_token_trims_literal_token() {
    let cfg = GitHubConfig {
        token: "ghp_literal\n".to_owned(),
        ..GitHubConfig::default()
    };
    assert_eq!(
        cfg.resolved_token(not_run()).expect("literal token must resolve"),
        "ghp_literal",
        "a literal token must be trimmed"
    );
}

#[test]
fn resolved_token_whitespace_literal_falls_through_to_command() {
    let cfg = GitHubConfig {
        token: "   \n".to_owned(),
        token_command: vec!["printf".to_owned(), "cmd-tok".to_owned()],
        ..GitHubConfig::default()
    };
    assert_eq!(
        cfg.resolved_token(finished(0, b"cmd-tok", b"")).expect("must fall through to the command"),
        "cmd-tok",
        "an all-whitespace literal must fall through to tokenCommand"
    );
}

#[test]
fn resolved_token_reports_io_errors() {
    let cfg = GitHubConfig { token_command: strings(&["x"]), ..GitHubConfig::default() };
    let err = cfg.resolved_token(Spawned::Failed { reason: "broken pipe".to_owned() });
    assert!(matches!(err, Err(Error::Io { message }) if message == "broken pipe"));
}

// ---------------------------------------------------------------------------
// Forges
// ---------------------------------------------------------------------------
#[test]
fn detect_forge_from_host_github() {
    assert_eq!(ForgeType::detect_from_host("github.com"), Some(ForgeType::GitHub));
    assert_eq!(ForgeType::detect_from_host("github.example.com"), Some(ForgeType::GitHub));
}

#[test]
fn detect_forge_from_host_gitlab() {
    assert_eq!(ForgeType::detect_from_host("gitlab.com"), Some(ForgeType::GitLab));
    assert_eq!(ForgeType::detect_from_host("gitlab.example.com"), Some(ForgeType::GitLab));
}

#[test]
fn detect_forge_from_host_unknown() {
    assert_eq!(ForgeType::detect_from_host("git.example.com"), None);
    assert_eq!(ForgeType::detect_from_host("code.example.com"), None);
}

#[test]
fn detect_forge_from_host_others() {
    assert_eq!(ForgeType::detect_from_host("codeberg.org"), Some(ForgeType::Forgejo));
    assert_eq!(ForgeType::detect_from_host("gitea.example.com"), Some(ForgeType::Forgejo));
    assert_eq!(ForgeType::detect_from_host("forgejo.example.com"), Some(ForgeType::Forgejo));
    assert_eq!(ForgeType::detect_from_host("dev.azure.com"), Some(ForgeType::AzureDevOps));
    assert_eq!(ForgeType::detect_from_host("gitlab.github.com"), Some(ForgeType::GitLab));
}

#[test]
fn forge_names_read_back() {
    for forge in ForgeType::variants() {
        assert_eq!(forge.to_string().parse::<ForgeType>(), Ok(forge));
    }
    assert_eq!("GitHub".parse::<ForgeType>(), Ok(ForgeType::GitHub));
    assert_eq!("AZURE".parse::<ForgeType>(), Ok(ForgeType::AzureDevOps));
    assert_eq!(ForgeType::AzureDevOps.display_name(), "Azure DevOps");
    let err = "SourceHut".parse::<ForgeType>().unwrap_err();
    assert!(matches!(&err, Error::Config { .. }));
    assert_eq!(err.to_string(), "Invalid forge type: SourceHut");
}

// ---------------------------------------------------------------------------
// Titles and descriptions
// ---------------------------------------------------------------------------
#[test]
fn title_formats() {
    assert!(matches!(
        TitleFormat::parse("firstRevisionFirstLine"),
        TitleFormat::FirstRevisionFirstLine
    ));
    assert!(matches!(
        TitleFormat::parse("headRevisionFullMessage"),
        TitleFormat::HeadRevisionFullMessage
    ));
    assert!(matches!(TitleFormat::parse("bookmarkName"), TitleFormat::BookmarkName));
    assert!(matches!(TitleFormat::parse("{x}"), TitleFormat::Other(t) if t == "{x}"));
}

#[test]
fn description_modes() {
    assert!(matches!(DescriptionMode::parse("none"), Ok(DescriptionMode::Omitted)));
    assert!(matches!(DescriptionMode::parse("commitListFull"), Ok(DescriptionMode::CommitListFull)));
    assert!(
        matches!(DescriptionMode::parse("file(a/b.md)"), Ok(DescriptionMode::File(p)) if p == "a/b.md")
    );
    assert!(
        matches!(DescriptionMode::parse("file(file(x))"), Ok(DescriptionMode::File(p)) if p == "x")
    );
    assert!(
        matches!(DescriptionMode::parse("file(notes(1))"), Ok(DescriptionMode::File(p)) if p == "notes(1")
    );
    let err = DescriptionMode::parse("file(x").unwrap_err();
    assert!(matches!(&err, Error::Parse { .. }));
    assert_eq!(err.to_string(), "invalid description mode: file(x");
}

#[test]
fn standard_settings() {
    let d = DescriptionConfig::default();
    assert!(d.enabled && !d.sync);
    assert!(matches!(d.single_revision, DescriptionMode::FullMessage));
    assert!(matches!(d.multiple_revisions, DescriptionMode::CommitListFull));
    assert_eq!(d.placement, StackPlacement::Bottom);
    let g = DescriptionDiagramConfig::default();
    assert_eq!(g.single, DescriptionDiagramFormat::Omitted);
    assert_eq!(g.linear, DescriptionDiagramFormat::Linear);
    assert_eq!(g.tree, DescriptionDiagramFormat::Linear);
    assert_eq!(g.complex, DescriptionDiagramFormat::Linear);
    assert_eq!(DescriptionDiagramFormat::default(), DescriptionDiagramFormat::Linear);
    let t = TitleConfig::default();
    assert!(t.sync_single_revision && t.sync_multiple_revisions);
    assert!(matches!(t.multiple_revisions, TitleFormat::BookmarkName));
    assert_eq!(RepoPushConfig::default(), RepoPushConfig::Enabled(true));
    assert_eq!(RepoFetchConfig::default(), RepoFetchConfig::Enabled(true));
    let c = Config::builder().forge(ForgeType::Forgejo).squash_commits(true).build();
    assert_eq!(c.remote_name, "origin");
    assert_eq!(c.push, RepoPushConfig::Enabled(true));
    assert!(c.squash_commits && !c.delete_source_branch && !c.github.link_stack);
}

// ---------------------------------------------------------------------------
// Loading
// ---------------------------------------------------------------------------
/// A listing that holds a section for the tool.
const LISTING: &str = "jj-vine.forge = \"github\"\n";

/// The minimum for a loadable GitHub configuration.
fn seed_github() -> Config {
    Config::builder()
        .forge(ForgeType::GitHub)
        .github(GitHubConfig { token: "gh-test-token".to_owned(), ..GitHubConfig::default() })
        .build()
}

/// The repository's own configuration of [`seed_github`], with more lines.
fn layer(more: &str) -> String {
    format!("jj-vine.forge = \"github\"\njj-vine.github.token = \"gh-test-token\"\n{more}")
}

#[test]
fn config_load_missing_required() {
    let result = Config::load("user.name = \"x\"\n", Ok(seed_github()), None, None);
    let Err(Error::Config { message, .. }) = result else {
        panic!("Expected Config error for missing required field, got: {result:?}");
    };
    assert_eq!(message, "Missing required config section: jj-vine");
}

#[test]
fn config_load_malformed() {
    let result = Config::load("jj-vine = = 1", Ok(seed_github()), None, None);
    let message = result.unwrap_err().to_string();
    assert!(message.starts_with("Failed to parse config as TOML: "), "got: {message}");
    let result = Config::load(LISTING, Err("missing field `forge`".to_owned()), None, None);
    assert_eq!(
        result.unwrap_err().to_string(),
        "Failed to parse jj-vine config: missing field `forge`"
    );
}

#[test]
fn derive_explicit_project_wins() {
    let mut parsed = seed_github();
    parsed.github.project = "a/b".to_owned();
    let config = Config::load(
        LISTING,
        Ok(parsed),
        Some(&layer("jj-vine.github.project = \"a/b\"\n")),
        Some("origin git@github.com:c/d.git\n"),
    )
    .expect("load");
    assert_eq!(config.github.project, "a/b", "repo-explicit project wins");
}

#[test]
fn derive_project_and_host_when_unset() {
    let config = Config::load(
        LISTING,
        Ok(seed_github()),
        Some(&layer("")),
        Some("origin git@github.com:c/d.git\n"),
    )
    .expect("load");
    assert_eq!(config.github.project, "c/d");
    assert_eq!(config.github.host, "https://api.github.com");
}

#[test]
fn derive_host_when_unset() {
    let mut parsed = seed_github();
    parsed.github.project = "a/b".to_owned();
    let config = Config::load(
        LISTING,
        Ok(parsed),
        Some(&layer("jj-vine.github.project = \"a/b\"\n")),
        Some("origin git@github.com:c/d.git\n"),
    )
    .expect("load");
    assert_eq!(
        config.github.host, "https://api.github.com",
        "host derives from the remote when the repo layer left it unset"
    );
}

#[test]
fn derive_explicit_host_wins() {
    let mut parsed = seed_github();
    parsed.github.host = "https://ghe.example/api/v3".to_owned();
    let config = Config::load(
        LISTING,
        Ok(parsed),
        Some(&layer("jj-vine.github.host = \"https://ghe.example/api/v3\"\n")),
        Some("origin git@github.com:c/d.git\n"),
    )
    .expect("load");
    assert_eq!(
        config.github.host, "https://ghe.example/api/v3",
        "repo-explicit host wins"
    );
    assert_eq!(config.github.project, "c/d", "project still derives");
}

#[test]
fn derive_supersedes_global_project_and_host_literal() {
    let mut parsed = seed_github();
    parsed.github.project = "stale/global".to_owned();
    parsed.github.host = "https://ghe-stale.example/api/v3".to_owned();
    let config = Config::load(
        LISTING,
        Ok(parsed),
        Some(&layer("")),
        Some("origin git@github.com:c/d.git\n"),
    )
    .expect("load");
    assert_eq!(config.github.project, "c/d");
    assert_eq!(config.github.host, "https://api.github.com");
}

#[test]
fn derive_detection_failure_falls_back_to_validate_error() {
    let result = Config::load(LISTING, Ok(seed_github()), Some(&layer("")), Some(""));
    let Err(Error::Config { message, .. }) = result else {
        panic!("Expected Config error, got: {result:?}");
    };
    assert!(
        message.contains("auto-detection from the 'origin' remote found no GitHub owner/repo"),
        "extended validate message must mention attempted detection, got: {message}"
    );
}

#[test]
fn derive_forge_gating_gitlab_unchanged() {
    let parsed = Config::builder()
        .forge(ForgeType::GitLab)
        .gitlab(GitLabConfig {
            host: "https://gitlab.example.com".to_owned(),
            project: "g/p".to_owned(),
            token: "glpat-x".to_owned(),
            ..GitLabConfig::default()
        })
        .build();
    let config = Config::load(
        LISTING,
        Ok(parsed),
        Some("jj-vine.forge = \"gitlab\"\n"),
        Some("origin git@github.com:c/d.git\n"),
    )
    .expect("load");
    assert_eq!(
        config.github.project, "",
        "a GitHub origin must not fill github.project when forge is gitlab"
    );
}

#[test]
fn derive_respects_remote_name() {
    let parsed = Config { remote_name: "upstream".to_owned(), ..seed_github() };
    let config = Config::load(
        LISTING,
        Ok(parsed),
        Some(&layer("jj-vine.remoteName = \"upstream\"\n")),
        Some("upstream git@github.com:canon/repo.git\n"),
    )
    .expect("load");
    assert_eq!(
        config.github.project, "canon/repo",
        "derivation reads the configured remote name, not origin"
    );
}

#[test]
fn derive_explicit_empty_project_derives() {
    let config = Config::load(
        LISTING,
        Ok(seed_github()),
        Some(&layer("jj-vine.github.project = \"\"\n")),
        Some("origin git@github.com:c/d.git\n"),
    )
    .expect("load");
    assert_eq!(
        config.github.project, "c/d",
        "a repo-local empty project is treated as absent and derives"
    );
}

#[test]
fn derive_never_touches_target_project() {
    let config = Config::load(
        LISTING,
        Ok(seed_github()),
        Some(&layer("")),
        Some("origin git@github.com:c/d.git\n"),
    )
    .expect("load");
    assert_eq!(
        config.github.target_project, "",
        "target_project is never derived; it stays as static config resolved it"
    );
}

#[test]
fn derive_fork_workflow_fence_errors() {
    let result = Config::load(
        LISTING,
        Ok(seed_github()),
        Some(&layer("")),
        Some("origin git@github.com:me/fork.git\nupstream git@github.com:canon/repo.git\n"),
    );
    let Err(Error::Config { message, .. }) = result else {
        panic!("Expected Config error from fork-workflow fence, got: {result:?}");
    };
    assert!(
        message.contains("auto-detection from the 'origin' remote found no GitHub owner/repo"),
        "fork-workflow fence must skip derivation and hit the validate error, got: {message}"
    );
}

#[test]
fn remotes_are_needed_where_something_is_open() {
    let config = seed_github();
    assert!(config.needs_remotes(None));
    assert!(config.needs_remotes(Some(&layer("jj-vine.github.project = \"a/b\"\n"))));
    assert!(config.needs_remotes(Some("not = = toml")));
    assert!(!config.needs_remotes(Some(&layer(
        "jj-vine.github.project = \"a/b\"\njj-vine.github.host = \"https://x\"\n"
    ))));
    let gitlab = Config::builder().forge(ForgeType::GitLab).build();
    assert!(!gitlab.needs_remotes(None));
}

#[test]
fn only_filled_strings_of_the_layer_count() {
    assert!(repo_layer_nonempty(Some("a/b")));
    assert!(!repo_layer_nonempty(Some("")));
    assert!(!repo_layer_nonempty(None));
    let config = seed_github();
    let both = "jj-vine.github.project = \"a/b\"\njj-vine.github.host = \"h\"\n";
    assert!(!config.needs_remotes(Some(both)));
    for open in [
        "jj-vine.github.project = \"a/b\"\njj-vine.github.host = 1\n",
        "jj-vine.github.project = \"a/b\"\njj-vine.github.host = \"\"\n",
        "jj-vine.github = \"a/b\"\n",
        "jj-vine = [\"github\"]\n",
        "github.project = \"a/b\"\ngithub.host = \"h\"\n",
        "not TOML",
    ] {
        assert!(config.needs_remotes(Some(open)), "{open}");
    }
    assert!(config.needs_remotes(None));
}

#[test]
fn section_is_required() {
    assert_eq!(Config::check_section(Ok(true)), Ok(()));
    assert_eq!(
        Config::check_section(Ok(false)).unwrap_err().to_string(),
        "Missing required config section: jj-vine"
    );
    assert_eq!(
        Config::check_section(Err("bad".to_owned())).unwrap_err().to_string(),
        "Failed to parse config as TOML: bad"
    );
}
