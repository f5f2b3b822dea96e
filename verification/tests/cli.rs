//! Command-line decisions.

use actstat::cli::{
    all_repos_errored, assemble_report, config_error_message, effective_concurrency, filter_repos,
    inspection_diagnostic, list_exit_code, org_error_reports, parse_limit,
    suppress_empty_success_reports, token_diagnostics, use_color, Cli, ColorChoice, Commands,
    Format, ListArgs,
};
use actstat::config::{ConfigError, RepoName};
use actstat::github::{DiscoveredToken, TokenSource};
use actstat::model::{RepoReport, Report};

fn repo(owner: &str, name: &str) -> RepoName {
    RepoName::parse(&format!("{owner}/{name}")).unwrap()
}

fn list_args(limit: u32) -> ListArgs {
    ListArgs {
        limit,
        format: Format::Human,
        config: None,
        color: ColorChoice::Auto,
        only_failures: false,
        no_active: false,
        repos: vec![],
        concurrency: 8,
        fail_on_failure: false,
        verbose: 0,
        quiet: false,
    }
}

fn row(name: &str, error: Option<&str>) -> RepoReport {
    RepoReport {
        repo: name.to_string(),
        active: vec![],
        commits: vec![],
        error: error.map(str::to_string),
    }
}

#[test]
fn the_subcommand_decides_the_arguments() {
    let bare = Cli {
        list: list_args(3),
        command: None,
    };
    assert_eq!(bare.list_args().limit, 3);
    let sub = Cli {
        list: list_args(1),
        command: Some(Commands::List(list_args(7))),
    };
    assert_eq!(sub.list_args().limit, 7);
}

#[test]
fn limits_are_whole_numbers_of_at_least_one() {
    assert_eq!(parse_limit("1"), Ok(1));
    assert_eq!(parse_limit("+42"), Ok(42));
    assert_eq!(parse_limit("4294967295"), Ok(u32::MAX));
    assert_eq!(parse_limit("0"), Err("must be at least 1".to_string()));
    for bad in ["", "+", "-1", "abc", "1.5", " 1", "4294967296", "99999999999999999999999"] {
        assert_eq!(
            parse_limit(bad),
            Err(format!("`{bad}` is not a valid whole number"))
        );
    }
}

#[test]
fn use_color_honors_choice() {
    for no_color in [false, true] {
        for terminal in [false, true] {
            assert!(!use_color(ColorChoice::Never, no_color, terminal));
            assert!(use_color(ColorChoice::Always, no_color, terminal));
            assert_eq!(
                use_color(ColorChoice::Auto, no_color, terminal),
                !no_color && terminal
            );
        }
    }
}

#[test]
fn exit_two_when_fail_on_failure_and_a_commit_failed() {
    let report = Report::stub(1);
    assert!(report.has_failures());
    assert!(!all_repos_errored(&report), "the stub is not all-errored");
    assert_eq!(list_exit_code(&report, true), 2);
}

#[test]
fn exit_zero_without_fail_on_failure_even_with_red_commits() {
    let report = Report::stub(1);
    assert_eq!(list_exit_code(&report, false), 0);
}

#[test]
fn exit_one_when_every_repository_errored() {
    let mut report = Report::stub(1);
    report.repos.retain(|r| r.error.is_some());
    assert!(all_repos_errored(&report));
    assert_eq!(list_exit_code(&report, true), 1);
}

#[test]
fn exit_zero_for_an_empty_report() {
    let report = Report {
        generated_at: "2026-06-29T12:00:00Z".to_string(),
        limit: 1,
        repos: vec![],
    };
    assert!(!all_repos_errored(&report), "no repos is not 'all errored'");
    assert_eq!(list_exit_code(&report, true), 0);
}

#[test]
fn active_only_report_does_not_trip_fail_on_failure() {
    let active = Report::stub(1).repos[0].active.clone();
    let report = Report {
        generated_at: "2026-06-29T12:00:00Z".to_string(),
        limit: 1,
        repos: vec![RepoReport {
            repo: "o/r".to_string(),
            active,
            commits: vec![],
            error: None,
        }],
    };

    assert!(!report.has_failures());
    assert!(!all_repos_errored(&report));
    assert_eq!(list_exit_code(&report, true), 0);
}

#[test]
fn filter_repos_without_selection_returns_everything() {
    let repos = vec![repo("o", "a"), repo("o", "b")];
    let out = filter_repos(repos.clone(), &[]).unwrap();
    assert_eq!(out, repos);
}

#[test]
fn filter_repos_keeps_only_the_selected_and_drops_unconfigured() {
    let repos = vec![repo("o", "a"), repo("o", "b"), repo("o", "c")];
    let out = filter_repos(
        repos,
        &[
            "o/b".to_string(),
            "o/c".to_string(),
            "o/not-configured".to_string(),
        ],
    )
    .unwrap();
    assert_eq!(out, vec![repo("o", "b"), repo("o", "c")]);
}

#[test]
fn filter_repos_rejects_a_malformed_selection() {
    let err = filter_repos(vec![repo("o", "a")], &["bogus".to_string()]).unwrap_err();
    assert!(err.contains("owner/name"), "got: {err}");
}

#[test]
fn filter_repos_matches_case_and_trims() {
    let repos = vec![repo("o", "a"), repo("O", "a")];
    let out = filter_repos(repos, &[" O/a ".to_string()]).unwrap();
    assert_eq!(out, vec![repo("O", "a")]);
}

#[test]
fn org_errors_become_inline_error_rows() {
    let rows = org_error_reports(vec![(
        "bad-org".to_string(),
        "not found (404): Not Found".to_string(),
    )]);
    assert_eq!(rows.len(), 1);
    assert_eq!(rows[0].repo, "bad-org");
    assert!(rows[0].commits.is_empty());
    assert!(rows[0].error.as_deref().unwrap().contains("failed to expand org"));
    assert_eq!(
        rows[0].error.as_deref(),
        Some("failed to expand org: not found (404): Not Found")
    );
}

#[test]
fn suppress_empty_reports_keeps_commits_and_errors() {
    let mut rows = Report::stub(1).repos;
    rows.push(row("o/empty", None));

    suppress_empty_success_reports(&mut rows);

    assert!(rows.iter().any(|r| r.repo == "bbugyi200/actstat"));
    assert!(rows.iter().any(|r| r.repo == "bobs-org/locked"));
    assert!(!rows.iter().any(|r| r.repo == "o/empty"));
}

#[test]
fn suppress_empty_reports_keeps_active_only_repos() {
    let active = Report::stub(1).repos[0].active.clone();
    let mut rows = vec![RepoReport {
        repo: "o/active".to_string(),
        active,
        commits: vec![],
        error: None,
    }];

    suppress_empty_success_reports(&mut rows);

    assert_eq!(rows.len(), 1);
    assert_eq!(rows[0].repo, "o/active");
}

#[test]
fn suppression_handles_runs_of_empty_rows() {
    let mut rows = vec![
        row("a", None),
        row("b", None),
        row("c", Some("x")),
        row("d", None),
        row("e", Some("y")),
        row("f", None),
    ];
    suppress_empty_success_reports(&mut rows);
    assert_eq!(rows, vec![row("c", Some("x")), row("e", Some("y"))]);
}

#[test]
fn a_report_is_assembled_sorted_and_without_silent_rows() {
    let mut collected = Report::stub(1).repos;
    collected.reverse();
    collected.push(row("aaa/empty", None));
    let report = assemble_report(
        "2026-06-29T12:00:00Z".to_string(),
        4,
        collected,
        vec![("bad-org".to_string(), "boom".to_string())],
    );
    assert_eq!(report.generated_at, "2026-06-29T12:00:00Z");
    assert_eq!(report.limit, 4);
    let names: Vec<&str> = report.repos.iter().map(|r| r.repo.as_str()).collect();
    assert_eq!(
        names,
        vec!["bad-org", "bbugyi200/actstat", "bbugyi200/dotfiles", "bobs-org/locked"]
    );
}

#[test]
fn an_org_error_with_only_empty_repositories_exits_one() {
    let report = assemble_report(
        "2026-06-29T12:00:00Z".to_string(),
        1,
        vec![row("o/empty", None)],
        vec![("bad-org".to_string(), "boom".to_string())],
    );
    assert_eq!(list_exit_code(&report, false), 1);
}

#[test]
fn a_missing_config_comes_with_an_example() {
    let message = config_error_message(&ConfigError::NotFound("/x".to_string()));
    assert_eq!(
        message,
        "actstat: no actstat config found (looked in: /x); create one or pass --config PATH / \
         set ACTSTAT_CONFIG\n\nexample config:\n\n# ~/.config/actstat/config.yml\nprojects:\n  \
         - org: sase-org\n  - repo: bbugyi200/actstat\n\n"
    );
    let message = config_error_message(&ConfigError::Invalid {
        path: "p".to_string(),
        message: "m".to_string(),
    });
    assert_eq!(message, "actstat: invalid config at p: m\n");
}

#[test]
fn token_diagnostics_follow_verbosity() {
    let none = DiscoveredToken {
        token: None,
        source: TokenSource::Unauthenticated,
    };
    let some = DiscoveredToken {
        token: Some("t".to_string()),
        source: TokenSource::Env("GH_TOKEN".to_string()),
    };
    assert_eq!(token_diagnostics(&some, 0, false), Vec::<String>::new());
    assert_eq!(
        token_diagnostics(&some, 1, false),
        vec!["actstat: token source: environment variable GH_TOKEN".to_string()]
    );
    let lines = token_diagnostics(&none, 2, false);
    assert_eq!(lines.len(), 2);
    assert!(lines[0].starts_with("actstat: warning: no GitHub token found"));
    assert_eq!(lines[1], "actstat: token source: none (unauthenticated)");
    assert_eq!(token_diagnostics(&none, 2, true), Vec::<String>::new());
    let cli = DiscoveredToken {
        token: Some("t".to_string()),
        source: TokenSource::GhCli,
    };
    assert_eq!(
        token_diagnostics(&cli, 1, false),
        vec!["actstat: token source: `gh auth token`".to_string()]
    );
}

#[test]
fn the_inspection_is_announced_when_verbose() {
    let mut args = list_args(2);
    assert_eq!(inspection_diagnostic(&args, 1), None);
    args.verbose = 1;
    assert_eq!(
        inspection_diagnostic(&args, 1).as_deref(),
        Some(
            "actstat: inspecting 1 repository (settled-commit limit=2, \
             running-run lookup=included, concurrency=8)"
        )
    );
    args.no_active = true;
    args.concurrency = 0;
    assert_eq!(
        inspection_diagnostic(&args, 12).as_deref(),
        Some(
            "actstat: inspecting 12 repositories (settled-commit limit=2, \
             running-run lookup=skipped, concurrency=0)"
        )
    );
    args.quiet = true;
    assert_eq!(inspection_diagnostic(&args, 12), None);
}

#[test]
fn concurrency_is_at_least_one() {
    assert_eq!(effective_concurrency(0), 1);
    assert_eq!(effective_concurrency(1), 1);
    assert_eq!(effective_concurrency(9), 9);
}
