//! Configuration: validation, names, resolution and discovery.

use std::path::PathBuf;

use actstat::config::{
    discover_path_in, example_config, load_file, resolve_repos, validate, Candidate, Config,
    ConfigError, Contents, DiscoveryEnv, ProjectSource, RawConfig, RawProject, RepoName, HOME_ROOT,
    REL_PATH,
};

fn repo(owner: &str, name: &str) -> RepoName {
    RepoName {
        owner: owner.to_string(),
        name: name.to_string(),
    }
}

fn text_field(value: &serde_norway::Value, key: &str) -> Option<String> {
    value.get(key).and_then(|v| v.as_str()).map(str::to_string)
}

fn bool_field(value: &serde_norway::Value, key: &str) -> Option<bool> {
    value.get(key).and_then(|v| v.as_bool())
}

fn raw_project(value: &serde_norway::Value) -> RawProject {
    RawProject {
        org: text_field(value, "org"),
        repo: text_field(value, "repo"),
        include_archived: bool_field(value, "include_archived"),
        include_forks: bool_field(value, "include_forks"),
        exclude: value
            .get("exclude")
            .and_then(|v| v.as_sequence())
            .map(|list| list.iter().map(|v| v.as_str().unwrap().to_string()).collect()),
    }
}

fn read_yaml(text: &str) -> Result<RawConfig, String> {
    let value: serde_norway::Value = serde_norway::from_str(text).map_err(|e| e.to_string())?;
    let projects = value
        .get("projects")
        .and_then(|v| v.as_sequence())
        .map(|list| list.iter().map(raw_project).collect());
    Ok(RawConfig { projects })
}

fn parse_str(text: &str, source_path: &str) -> Result<Config, ConfigError> {
    actstat::config::parse_str(read_yaml(text), source_path)
}

fn empty_project() -> RawProject {
    RawProject {
        org: None,
        repo: None,
        include_archived: None,
        include_forks: None,
        exclude: None,
    }
}

// --- Parsing and validation ---------------------------------------------

#[test]
fn parses_the_documented_four_source_config() {
    let text = "\
projects:
  - org: sase-org
  - org: bobs-org
  - repo: bbugyi200/dotfiles
  - repo: bbugyi200/actstat
";
    let cfg = parse_str(text, "<test>").expect("documented config parses");
    assert_eq!(cfg.projects.len(), 4);

    let orgs: Vec<&str> = cfg.orgs().iter().map(|o| o.org.as_str()).collect();
    assert_eq!(orgs, vec!["sase-org", "bobs-org"]);

    let repos: Vec<String> = cfg.explicit_repos().iter().map(|r| r.full_name()).collect();
    assert_eq!(
        repos,
        vec!["bbugyi200/dotfiles".to_string(), "bbugyi200/actstat".to_string()]
    );
}

#[test]
fn repo_entry_parses_into_owner_and_name() {
    let cfg = parse_str("projects:\n  - repo: octocat/Hello-World\n", "<t>").unwrap();
    assert_eq!(
        cfg.projects,
        vec![ProjectSource::Repo(repo("octocat", "Hello-World"))]
    );
}

#[test]
fn org_entry_defaults_filters() {
    let cfg = parse_str("projects:\n  - org: sase-org\n", "<t>").unwrap();
    let orgs = cfg.orgs();
    let org = orgs[0];
    assert_eq!(org.org, "sase-org");
    assert!(!org.include_archived);
    assert!(!org.include_forks);
    assert!(org.exclude.is_empty());
}

#[test]
fn org_entry_parses_org_filters() {
    let text = "\
projects:
  - org: sase-org
    include_archived: true
    include_forks: true
    exclude: [sase-org/scratch, sase-org/old]
";
    let cfg = parse_str(text, "<t>").expect("org filters parse");
    let orgs = cfg.orgs();
    let org = orgs[0];
    assert!(org.include_archived);
    assert!(org.include_forks);
    assert_eq!(
        org.exclude,
        vec![repo("sase-org", "scratch"), repo("sase-org", "old")]
    );
}

#[test]
fn unknown_future_fields_are_ignored_not_rejected() {
    let cfg = parse_str(
        "projects:\n  - org: sase-org\n    some_future_filter: 7\n",
        "<t>",
    )
    .expect("unknown fields tolerated");
    assert_eq!(cfg.orgs().len(), 1);
}

#[test]
fn missing_projects_key_is_an_error() {
    let err = parse_str("defaults: {}\n", "cfg.yml").unwrap_err();
    let msg = err.to_string();
    assert!(msg.contains("no `projects`"), "got: {msg}");
}

#[test]
fn empty_projects_list_is_an_error() {
    let err = parse_str("projects: []\n", "cfg.yml").unwrap_err();
    assert!(err.to_string().contains("no `projects`"));
}

#[test]
fn entry_with_neither_org_nor_repo_is_an_error() {
    let err = parse_str("projects:\n  - name: nope\n", "cfg.yml").unwrap_err();
    let msg = err.to_string();
    assert!(msg.contains("neither"), "got: {msg}");
}

#[test]
fn entry_with_both_org_and_repo_is_an_error() {
    let err = parse_str("projects:\n  - org: x\n    repo: a/b\n", "cfg.yml").unwrap_err();
    assert!(err.to_string().contains("both"));
}

#[test]
fn malformed_repo_without_slash_is_an_error() {
    let err = parse_str("projects:\n  - repo: justname\n", "cfg.yml").unwrap_err();
    assert!(err.to_string().contains("owner/name"));
}

#[test]
fn malformed_repo_with_extra_slash_is_an_error() {
    let err = parse_str("projects:\n  - repo: a/b/c\n", "cfg.yml").unwrap_err();
    assert!(err.to_string().contains("owner/name"));
}

#[test]
fn malformed_repo_with_empty_side_is_an_error() {
    let err = parse_str("projects:\n  - repo: owner/\n", "cfg.yml").unwrap_err();
    assert!(err.to_string().contains("owner/name"));
}

#[test]
fn repo_entry_rejects_org_only_fields() {
    for (field, line) in [
        ("exclude", "    exclude: [o/skip]\n"),
        ("include_archived", "    include_archived: true\n"),
        ("include_forks", "    include_forks: true\n"),
    ] {
        let text = format!("projects:\n  - repo: o/r\n{line}");
        let err = parse_str(&text, "cfg.yml").unwrap_err();
        let msg = err.to_string();
        assert!(msg.contains(field), "got: {msg}");
        assert!(msg.contains("org:"), "got: {msg}");
        assert!(msg.contains("repo:"), "got: {msg}");
    }
}

#[test]
fn org_containing_a_slash_is_an_error() {
    let err = parse_str("projects:\n  - org: a/b\n", "cfg.yml").unwrap_err();
    assert!(err.to_string().contains("bare organization name"));
}

#[test]
fn malformed_exclude_entry_is_an_error() {
    let err = parse_str(
        "projects:\n  - org: sase-org\n    exclude: [not-a-repo]\n",
        "cfg.yml",
    )
    .unwrap_err();
    let msg = err.to_string();
    assert!(msg.contains("exclude"), "got: {msg}");
}

#[test]
fn exclude_entry_with_foreign_owner_is_an_error() {
    let err = parse_str(
        "projects:\n  - org: sase-org\n    exclude: [other-org/scratch]\n",
        "cfg.yml",
    )
    .unwrap_err();
    let msg = err.to_string();
    assert!(msg.contains("exclude"), "got: {msg}");
    assert!(msg.contains("other-org/scratch"), "got: {msg}");
    assert!(msg.contains("sase-org"), "got: {msg}");
}

#[test]
fn exclude_owner_matching_org_with_different_case_is_allowed() {
    let cfg = parse_str(
        "projects:\n  - org: Sase-Org\n    exclude: [sase-org/scratch]\n",
        "cfg.yml",
    )
    .expect("GitHub org names are case-insensitive");
    let orgs = cfg.orgs();
    assert_eq!(orgs[0].exclude, vec![repo("sase-org", "scratch")]);
}

#[test]
fn yaml_syntax_error_is_reported() {
    let err = parse_str("projects:\n  - org: [unterminated\n", "cfg.yml").unwrap_err();
    assert!(err.to_string().contains("YAML parse error"));
}

#[test]
fn error_messages_carry_the_source_path() {
    let err = parse_str("projects: []\n", "/some/where/config.yml").unwrap_err();
    assert!(err.to_string().contains("/some/where/config.yml"));
}

#[test]
fn the_first_bad_entry_is_the_one_reported() {
    let mut first = empty_project();
    first.org = Some(" one ".to_string());
    let mut second = empty_project();
    second.repo = Some("a b/c".to_string());
    let third = empty_project();
    let raw = RawConfig {
        projects: Some(vec![first, second, third]),
    };
    let err = validate(raw, "c.yml").unwrap_err();
    assert_eq!(
        err.to_string(),
        "invalid config at c.yml: project #2: repo `a b/c` must not contain whitespace"
    );
}

#[test]
fn each_message_is_worded_exactly() {
    let message = |project: RawProject| {
        let raw = RawConfig {
            projects: Some(vec![project]),
        };
        match validate(raw, "p").unwrap_err() {
            ConfigError::Invalid { path, message } => {
                assert_eq!(path, "p");
                message
            }
            other => panic!("unexpected: {other:?}"),
        }
    };

    let mut both = empty_project();
    both.org = Some("x".to_string());
    both.repo = Some("a/b".to_string());
    assert_eq!(
        message(both),
        "project #1 sets both `org` and `repo`; each entry must set exactly one"
    );
    assert_eq!(
        message(empty_project()),
        "project #1 sets neither `org` nor `repo`; each entry must set exactly one"
    );

    let mut blank = empty_project();
    blank.org = Some("  ".to_string());
    assert_eq!(message(blank), "project #1: `org` must not be empty");

    let mut slashed = empty_project();
    slashed.org = Some(" a/b ".to_string());
    assert_eq!(
        message(slashed),
        "project #1: `org` must be a bare organization name, not `a/b`"
    );

    let mut misplaced = empty_project();
    misplaced.repo = Some("a/b".to_string());
    misplaced.include_forks = Some(false);
    assert_eq!(
        message(misplaced),
        "project #1: `include_forks` only applies to `org:` entries, not `repo:`"
    );

    let mut foreign = empty_project();
    foreign.org = Some("x".to_string());
    foreign.exclude = Some(vec!["X/ok".to_string(), "y/no".to_string()]);
    assert_eq!(
        message(foreign),
        "project #1 `exclude`: `y/no` is not in org `x`"
    );

    let mut one_sided = empty_project();
    one_sided.repo = Some("/b".to_string());
    assert_eq!(
        message(one_sided),
        "project #1: repo `/b` must be in `owner/name` form (both owner and name are required)"
    );
}

#[test]
fn load_file_reads_parses_and_validates() {
    let raw = read_yaml("projects:\n  - org: sase-org\n").unwrap();
    let cfg = load_file("/x/actstat/config.yml", Contents::Parsed(raw)).unwrap();
    assert_eq!(cfg.orgs()[0].org, "sase-org");
}

#[test]
fn load_file_missing_path_is_a_read_error() {
    let err = load_file(
        "/no/such/actstat/config.yml",
        Contents::Unreadable("No such file or directory".to_string()),
    )
    .unwrap_err();
    assert!(matches!(err, ConfigError::Read { .. }));
    assert_eq!(
        err.to_string(),
        "failed to read config at /no/such/actstat/config.yml: No such file or directory"
    );
}

#[test]
fn an_unparsable_file_is_invalid() {
    let err = load_file("c.yml", Contents::Unparsable("bad".to_string())).unwrap_err();
    assert_eq!(
        err.to_string(),
        "invalid config at c.yml: YAML parse error: bad"
    );
}

// --- Names ---------------------------------------------------------------

#[test]
fn repo_name_trims_surrounding_whitespace() {
    assert_eq!(RepoName::parse("  a/b  ").unwrap(), repo("a", "b"));
}

#[test]
fn repo_name_rejects_internal_whitespace() {
    assert!(RepoName::parse("a b/c").is_err());
}

#[test]
fn repo_name_display_is_owner_slash_name() {
    assert_eq!(repo("octo", "cat").to_string(), "octo/cat");
}

#[test]
fn repo_name_trims_each_side_and_unicode_space() {
    assert_eq!(
        RepoName::parse("\u{3000}a / b\u{a0}").unwrap(),
        repo("a", "b")
    );
    assert_eq!(
        RepoName::parse("a/\u{2003}").unwrap_err(),
        "repo `a/` must be in `owner/name` form (both owner and name are required)"
    );
    assert_eq!(
        RepoName::parse("a").unwrap_err(),
        "repo `a` must be in `owner/name` form"
    );
}

#[test]
fn a_rendered_name_is_parsed_back() {
    let name = repo("größe", "Hello-World.rs");
    assert_eq!(RepoName::parse(&name.full_name()).unwrap(), name);
}

// --- Resolution ----------------------------------------------------------

#[test]
fn resolve_dedups_and_sorts_alphabetically() {
    let explicit = vec![repo("bbugyi200", "actstat"), repo("a", "z")];
    let expanded = vec![repo("sase-org", "tools"), repo("a", "a"), repo("a", "z")];
    let merged = resolve_repos(explicit, expanded);
    let names: Vec<String> = merged.iter().map(RepoName::full_name).collect();
    assert_eq!(
        names,
        vec![
            "a/a".to_string(),
            "a/z".to_string(),
            "bbugyi200/actstat".to_string(),
            "sase-org/tools".to_string(),
        ]
    );
}

#[test]
fn resolve_collapses_repo_named_both_explicitly_and_via_org() {
    let explicit = vec![repo("sase-org", "tools")];
    let expanded = vec![repo("sase-org", "tools"), repo("sase-org", "other")];
    let merged = resolve_repos(explicit, expanded);
    assert_eq!(merged.len(), 2);
    assert_eq!(
        merged.iter().map(RepoName::full_name).collect::<Vec<_>>(),
        vec!["sase-org/other".to_string(), "sase-org/tools".to_string()]
    );
}

#[test]
fn ordering_uses_the_full_owner_slash_name_string() {
    let merged = resolve_repos(vec![repo("a", "b"), repo("a-x", "b")], vec![]);
    assert_eq!(
        merged.iter().map(RepoName::full_name).collect::<Vec<_>>(),
        vec!["a-x/b".to_string(), "a/b".to_string()]
    );
}

#[test]
fn ordering_is_that_of_the_bytes() {
    let names = ["a/Z", "a/a", "a/é", "a/ab", "A/x", "a/\u{10000}", "a/\u{ffee}"];
    let given: Vec<RepoName> = names.iter().map(|n| RepoName::parse(n).unwrap()).collect();
    let merged = resolve_repos(given, vec![]);
    let mut expected: Vec<String> = names.iter().map(|n| n.to_string()).collect();
    expected.sort();
    assert_eq!(
        merged.iter().map(RepoName::full_name).collect::<Vec<_>>(),
        expected
    );
}

// --- The example ---------------------------------------------------------

#[test]
fn example_config_parses_into_two_sources() {
    let cfg = parse_str(example_config(), "<example>").expect("example config must stay valid");
    assert_eq!(cfg.orgs().len(), 1);
    assert_eq!(cfg.explicit_repos().len(), 1);
}

// --- Discovery -----------------------------------------------------------

fn candidate(root: &str, is_file: bool) -> Candidate {
    let path = PathBuf::from(root).join(REL_PATH);
    let shown = path.display().to_string();
    Candidate {
        path,
        shown,
        is_file,
    }
}

#[test]
fn discovery_explicit_config_wins_outright() {
    let env = DiscoveryEnv {
        actstat_config: Some(PathBuf::from("/env/config.yml")),
        xdg_config_home: Some(candidate("/xdg", true)),
        home: Some(candidate("/home/u/.config", true)),
    };
    let explicit = PathBuf::from("/explicit/config.yml");
    let found = discover_path_in(Some(explicit.clone()), env).unwrap();
    assert_eq!(found, explicit);
}

#[test]
fn discovery_actstat_config_env_overrides_well_known_paths() {
    let env = DiscoveryEnv {
        actstat_config: Some(PathBuf::from("/env/config.yml")),
        xdg_config_home: Some(candidate("/xdg", true)),
        home: Some(candidate("/home/u/.config", true)),
    };
    let found = discover_path_in(None, env).unwrap();
    assert_eq!(found, PathBuf::from("/env/config.yml"));
}

#[test]
fn discovery_uses_xdg_when_the_file_exists() {
    let env = DiscoveryEnv {
        actstat_config: None,
        xdg_config_home: Some(candidate("/xdg", true)),
        home: Some(candidate("/home/u/.config", true)),
    };
    let found = discover_path_in(None, env).unwrap();
    assert_eq!(found, PathBuf::from("/xdg/actstat/config.yml"));
}

#[test]
fn discovery_falls_back_to_home_when_xdg_has_no_file() {
    let env = DiscoveryEnv {
        actstat_config: None,
        xdg_config_home: Some(candidate("/xdg", false)),
        home: Some(candidate("/home/u/.config", true)),
    };
    let found = discover_path_in(None, env).unwrap();
    assert_eq!(found, PathBuf::from("/home/u/.config/actstat/config.yml"));
}

#[test]
fn discovery_reports_not_found_listing_searched_paths() {
    let env = DiscoveryEnv {
        actstat_config: None,
        xdg_config_home: Some(candidate("/xdg", false)),
        home: Some(candidate("/home/u/.config", false)),
    };
    let err = discover_path_in(None, env).unwrap_err();
    let msg = err.to_string();
    assert!(msg.contains("no actstat config found"), "got: {msg}");
    assert!(msg.contains(REL_PATH), "searched paths listed: {msg}");
    assert_eq!(
        msg,
        "no actstat config found (looked in: /xdg/actstat/config.yml, \
         /home/u/.config/actstat/config.yml); create one or pass --config PATH / \
         set ACTSTAT_CONFIG"
    );
}

#[test]
fn the_well_known_places_are_as_documented() {
    assert_eq!(REL_PATH, "actstat/config.yml");
    assert_eq!(HOME_ROOT, ".config");
}

#[test]
fn discovery_without_any_place_lists_none() {
    let env = DiscoveryEnv {
        actstat_config: None,
        xdg_config_home: None,
        home: None,
    };
    let err = discover_path_in(None, env).unwrap_err();
    assert_eq!(
        err.to_string(),
        "no actstat config found (looked in: ); create one or pass --config PATH / \
         set ACTSTAT_CONFIG"
    );
}
