use jj_vine::config::ForgeType;
use jj_vine::error::Error;
use jj_vine::init::{
    detect_remotes, find_tool_alias, get_config, get_config_args, init, intro, outro, set_config,
    InitAction, InitEvent, InitState,
};

#[test]
fn remotes_are_triaged() {
    let up = detect_remotes("origin git@github.com:me/r.git\nupstream https://gitlab.com/c/r\n")
        .unwrap()
        .unwrap();
    assert_eq!(up.origin, "git@github.com:me/r.git");
    assert_eq!(up.upstream.as_deref(), Some("https://gitlab.com/c/r"));
    assert_eq!(up.target_forge.unwrap().forge_type, ForgeType::GitLab);
    let fork = detect_remotes("fork git@github.com:me/r.git\norigin git@github.com:c/r.git")
        .unwrap()
        .unwrap();
    assert_eq!(fork.origin, "git@github.com:me/r.git");
    assert_eq!(fork.upstream.as_deref(), Some("git@github.com:c/r.git"));
    let plain = detect_remotes("origin /srv/repo").unwrap().unwrap();
    assert_eq!(plain.upstream, None);
    assert!(plain.target_forge.is_none());
    assert!(detect_remotes("upstream x").unwrap().is_none());
    let err = detect_remotes("origin x\nodd line here\n").unwrap_err();
    assert_eq!(err, Error::Other { message: "Failed to parse remote line: odd line here".to_owned() });
}

#[test]
fn configuration_values() {
    assert_eq!(get_config(Some(" x\n")), Some("x".to_owned()));
    assert_eq!(get_config(Some(" \n")), None);
    assert_eq!(get_config(None), None);
    assert_eq!(get_config_args("k").join(" "), "config get k");
    assert_eq!(set_config("k", "v").join(" "), "config set --repo k v");
}

fn start(forge: Option<&str>, remotes: &str) -> InitEvent {
    InitEvent::Start {
        forge: forge.map(str::to_owned),
        remotes: Ok(remotes.to_owned()),
    }
}

#[test]
fn configured_forge_is_not_asked_for() {
    let step = init(InitState::Ready, start(Some("GitLab\n"), "origin git@github.com:a/b.git\n"));
    match step.action {
        InitAction::Ask { settings, prompt, key, fallback } => {
            assert_eq!(settings, vec![("jj-vine.forge".to_owned(), "gitlab".to_owned())]);
            assert_eq!(
                prompt,
                "\u{1b}[1mRemote name\u{1b}[0m \u{1b}[2mjj-vine.remoteName\u{1b}[0m"
            );
            assert_eq!((key.as_str(), fallback.as_str()), ("jj-vine.remoteName", "origin"));
        }
        other => panic!("must ask, got {other:?}"),
    }
}

#[test]
fn detected_forge_is_not_asked_for() {
    let step = init(InitState::Ready, start(Some("odd"), "origin git@github.com:a/b.git\n"));
    assert!(matches!(step.state, InitState::NamingRemote { forge: ForgeType::GitHub, .. }));
}

#[test]
fn set_up_runs_to_its_end() {
    let step = init(InitState::Ready, start(None, ""));
    match &step.action {
        InitAction::SelectForge { items, .. } => {
            assert_eq!(items.join("/"), "GitLab/GitHub/Forgejo/Azure DevOps")
        }
        other => panic!("must select, got {other:?}"),
    }
    let step = init(step.state, InitEvent::ForgeChosen(2));
    assert!(matches!(step.state, InitState::NamingRemote { forge: ForgeType::Forgejo, .. }));
    let step = init(step.state, InitEvent::RemoteNamed("up".to_owned()));
    assert!(matches!(&step.action, InitAction::Ask { key, fallback, .. }
        if key == "jj-vine.defaultBranch" && fallback == "main"));
    let step = init(step.state, InitEvent::BranchNamed("dev".to_owned()));
    match &step.action {
        InitAction::SetUpForge { settings, forge, .. } => {
            assert_eq!(*forge, ForgeType::Forgejo);
            assert_eq!(settings[0], ("jj-vine.remoteName".to_owned(), "up".to_owned()));
            assert_eq!(settings[1], ("jj-vine.defaultBranch".to_owned(), "dev".to_owned()));
        }
        other => panic!("must set up, got {other:?}"),
    }
    let step = init(step.state, InitEvent::SetUp);
    assert!(matches!(step.action, InitAction::ListAliases));
    let step = init(step.state, InitEvent::AliasesListed(None));
    assert!(matches!(&step.action, InitAction::Finish { printed }
        if *printed == outro(ForgeType::Forgejo, None)));
}

#[test]
fn set_up_fails_without_remotes() {
    let failed = InitEvent::Start {
        forge: None,
        remotes: Err(Error::Io { message: "gone".to_owned() }),
    };
    let step = init(InitState::Ready, failed);
    assert!(matches!(step.action, InitAction::Fail(Error::Io { .. })));
    let step = init(InitState::Ready, start(None, "one\n"));
    assert!(matches!(step.action, InitAction::Fail(Error::Other { .. })));
}

#[test]
fn closing_words_name_the_alias() {
    let aliases = vec![
        ("l".to_owned(), vec!["log".to_owned()]),
        ("v".to_owned(), vec!["util".to_owned(), "/bin/jj-vine".to_owned()]),
    ];
    assert_eq!(find_tool_alias(&aliases), Some("v".to_owned()));
    assert_eq!(find_tool_alias(&vec![]), None);
    assert_eq!(
        outro(ForgeType::GitHub, Some("v")),
        "\n\u{1b}[1m\u{1b}[32m✓\u{1b}[39m\u{1b}[0m \u{1b}[32mConfiguration complete! You can now use: \u{1b}[1mjj v\u{1b}[0m.\u{1b}[39m\n\nThere are more configuration options available. See all configuration options at https://codeberg.org/abrenneke/jj-vine#configuration.\n"
    );
    let advice = outro(ForgeType::GitHub, None);
    assert!(advice.contains("such as \u{1b}[35m\u{1b}[1mjj mr\u{1b}[0m\u{1b}[39m! Run "));
    assert!(advice.contains(
        "\u{1b}[36mjj config set --user aliases.mr '[\"util\", \"exec\", \"--\", \"jj-vine\"]'\u{1b}[39m"
    ));
    assert!(outro(ForgeType::GitLab, None).contains("jj pr"));
    assert!(intro().contains("\u{1b}[2mConfiguration will be stored in .jj/repo/config.toml\u{1b}[0m"));
}
