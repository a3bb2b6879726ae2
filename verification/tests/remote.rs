use jj_vine::config::ForgeType;
use jj_vine::remote::{detect_project, parse_forge_url};

#[test]
fn parse_gitlab_url_ssh() {
    let url = "git@gitlab.example.com:group/project.git";
    let result = parse_forge_url(url);
    assert!(result.is_some());
    let detected = result.unwrap();
    assert_eq!(detected.forge_type, ForgeType::GitLab);
    assert_eq!(detected.host, "https://gitlab.example.com");
    assert_eq!(detected.project, "group/project");
}

#[test]
fn parse_gitlab_url_https() {
    let url = "https://gitlab.example.com/group/project.git";
    let result = parse_forge_url(url);
    assert!(result.is_some());
    let detected = result.unwrap();
    assert_eq!(detected.forge_type, ForgeType::GitLab);
    assert_eq!(detected.host, "https://gitlab.example.com");
    assert_eq!(detected.project, "group/project");
}

#[test]
fn parse_gitlab_url_nested_groups() {
    let url = "git@gitlab.example.com:group/subgroup/project.git";
    let result = parse_forge_url(url);
    assert!(result.is_some());
    let detected = result.unwrap();
    assert_eq!(detected.forge_type, ForgeType::GitLab);
    assert_eq!(detected.project, "group/subgroup/project");
}

#[test]
fn parse_github_url_ssh() {
    let url = "git@github.com:owner/repo.git";
    let result = parse_forge_url(url);
    assert!(result.is_some());
    let detected = result.unwrap();
    assert_eq!(detected.forge_type, ForgeType::GitHub);
    assert_eq!(detected.host, "https://api.github.com");
    assert_eq!(detected.project, "owner/repo");
}

#[test]
fn parse_github_url_https() {
    let url = "https://github.com/owner/repo.git";
    let result = parse_forge_url(url);
    assert!(result.is_some());
    let detected = result.unwrap();
    assert_eq!(detected.forge_type, ForgeType::GitHub);
    assert_eq!(detected.host, "https://api.github.com");
    assert_eq!(detected.project, "owner/repo");
}

#[test]
fn parse_github_enterprise_ssh() {
    let url = "git@github.example.com:owner/repo.git";
    let result = parse_forge_url(url);
    assert!(result.is_some());
    let detected = result.unwrap();
    assert_eq!(detected.forge_type, ForgeType::GitHub);
    assert_eq!(detected.host, "https://github.example.com/api/v3");
    assert_eq!(detected.project, "owner/repo");
}

#[test]
fn parse_github_enterprise_https() {
    let url = "https://github.example.com/owner/repo.git";
    let result = parse_forge_url(url);
    assert!(result.is_some());
    let detected = result.unwrap();
    assert_eq!(detected.forge_type, ForgeType::GitHub);
    assert_eq!(detected.host, "https://github.example.com/api/v3");
    assert_eq!(detected.project, "owner/repo");
}

#[test]
fn parse_other_urls() {
    let azure = parse_forge_url("git@ssh.dev.azure.com:v3/org/project/repo").unwrap();
    assert_eq!(azure.forge_type, ForgeType::AzureDevOps);
    assert_eq!(azure.project, "org/project");
    assert_eq!(azure.repository_name.as_deref(), Some("repo"));
    let short = parse_forge_url("https://dev.azure.com/org/project").unwrap();
    assert_eq!(short.project, "org/project");
    assert_eq!(short.repository_name, None);
    let plain = parse_forge_url("http://codeberg.org/a/b.git.git").unwrap();
    assert_eq!(plain.host, "http://codeberg.org");
    assert_eq!(plain.project, "a/b");
    let slash = parse_forge_url("ssh://git@gitlab.com/g/p.git").unwrap();
    assert_eq!(slash.project, "g/p");
    assert!(parse_forge_url("git@github.com").is_none());
    assert!(parse_forge_url("https://github.com").is_none());
    assert!(parse_forge_url("/local/github/path").is_none());
}

#[test]
fn detect_project_named_remote_github_ssh() {
    let detected = detect_project(
        Some("origin git@github.com:owner/repo.git\n"),
        "origin",
        ForgeType::GitHub,
    )
    .expect("detects GitHub origin");
    assert_eq!(detected.project, "owner/repo");
    assert_eq!(detected.host, "https://api.github.com");
}

#[test]
fn detect_project_github_https() {
    let detected = detect_project(
        Some("origin https://github.com/owner/repo.git\n"),
        "origin",
        ForgeType::GitHub,
    )
    .expect("detects HTTPS");
    assert_eq!(detected.project, "owner/repo");
    assert_eq!(detected.host, "https://api.github.com");
}

#[test]
fn detect_project_strips_trailing_git() {
    let detected = detect_project(
        Some("origin git@github.com:owner/repo.git\n"),
        "origin",
        ForgeType::GitHub,
    )
    .expect("detects");
    assert_eq!(detected.project, "owner/repo", "trailing .git must be stripped");
}

#[test]
fn detect_project_missing_remote_is_none() {
    let listing = Some("origin git@github.com:owner/repo.git\n");
    assert!(detect_project(listing, "nonexistent", ForgeType::GitHub).is_none());
}

#[test]
fn detect_project_non_forge_host_is_none() {
    let listing = Some("origin git@git.example.com:owner/repo.git\n");
    assert!(detect_project(listing, "origin", ForgeType::GitHub).is_none());
}

#[test]
fn detect_project_gitlab_url_requested_as_github_is_none() {
    let listing = Some("origin git@gitlab.com:group/project.git\n");
    assert!(
        detect_project(listing, "origin", ForgeType::GitHub).is_none(),
        "cross-forge fence: a GitLab URL must not fill a GitHub config"
    );
}

#[test]
fn detect_project_respects_remote_name_other_than_origin() {
    let detected = detect_project(
        Some("upstream git@github.com:canon/repo.git\n"),
        "upstream",
        ForgeType::GitHub,
    )
    .expect("derives from upstream");
    assert_eq!(detected.project, "canon/repo");
}

#[test]
fn detect_project_fork_shape_origin_and_upstream_is_none() {
    let listing =
        Some("origin git@github.com:me/fork.git\nupstream git@github.com:canon/repo.git\n");
    assert!(
        detect_project(listing, "origin", ForgeType::GitHub).is_none(),
        "fork-workflow fence: a distinct upstream alongside origin skips derivation"
    );
}

#[test]
fn detect_project_explicit_port_ssh_known_limit() {
    let detected = detect_project(
        Some("origin ssh://git@github.com:22/owner/repo.git\n"),
        "origin",
        ForgeType::GitHub,
    )
    .expect("wrong-but-some");
    assert_eq!(detected.project, "22/owner/repo");
}

#[test]
fn detect_project_subprocess_error_is_none() {
    assert!(
        detect_project(None, "origin", ForgeType::GitHub).is_none(),
        "a failed `jj git remote list` subprocess falls through to None"
    );
}

#[test]
fn detect_project_skips_odd_lines_and_takes_the_last() {
    let listing = "odd\norigin git@github.com:a/b.git extra\norigin\tgit@github.com:c/d.git\r\norigin git@github.com:e/f.git";
    let detected = detect_project(Some(listing), "origin", ForgeType::GitHub).unwrap();
    assert_eq!(detected.project, "e/f");
}

#[test]
fn address_forms_mean_the_same() {
    let https = parse_forge_url("https://codeberg.org/owner/repo").unwrap();
    for url in [
        "git@codeberg.org:owner/repo",
        "ssh://git@codeberg.org:owner/repo",
        "ssh://git@codeberg.org/owner/repo",
        "https://codeberg.org/owner/repo.git",
        "https://codeberg.org/owner/repo.git.git",
    ] {
        let detected = parse_forge_url(url).unwrap();
        assert_eq!(detected.forge_type, https.forge_type, "{url}");
        assert_eq!(detected.host, "https://codeberg.org", "{url}");
        assert_eq!(detected.project, "owner/repo", "{url}");
    }
}

#[test]
fn git_suffix_makes_no_difference() {
    for url in [
        "git@gitlab.example.com:group/project",
        "ssh://git@github.com/owner/repo",
        "https://codeberg.org/a/b",
        "http://codeberg.org/a/b",
        "https://github.com",
        "git@github.com",
        "",
    ] {
        let longer = format!("{url}.git");
        let told = format!("{:?}", parse_forge_url(&longer));
        assert_eq!(told, format!("{:?}", parse_forge_url(url)), "{url}");
    }
}
