//! What holds across several calls, on given values.

use actstat::cli::{assemble_report, filter_repos, list_exit_code};
use actstat::clock::Instant;
use actstat::collect::{
    newest, problem_job_reports, select_settled_commits, sort_reports, ApiJob, ApiRun, Contender,
};
use actstat::config::{resolve_repos, validate, RawConfig, RawProject, RepoName};
use actstat::github::{
    after_attempt, after_page, resolve_repositories, select_org_repos, ApiRepo, Attempt,
    GitHubError, Page, Paging, RetryConfig, Step, DEFAULT_BASE_URL, LONGEST_DELAY,
    UNAUTHENTICATED_WARNING,
};
use actstat::model::{Conclusion, RepoReport, Report};
use actstat::render::{human, json, jsonl, render, Format};
use actstat::text;

fn name(full: &str) -> RepoName {
    RepoName::parse(full).unwrap()
}

fn full_names(names: &[RepoName]) -> Vec<String> {
    names.iter().map(RepoName::full_name).collect()
}

fn run(id: u64, workflow_id: u64, sha: &str, status: &str) -> ApiRun {
    ApiRun {
        id,
        workflow_id,
        name: None,
        title: None,
        run_number: id,
        event: None,
        branch: None,
        sha: sha.to_string(),
        status: Some(status.to_string()),
        conclusion: None,
        url: None,
        created_at: None,
        updated_at: None,
        started_at: None,
    }
}

// --- Names ---------------------------------------------------------------

#[test]
fn parsing_undoes_rendering() {
    for full in ["a/b", "octocat/Hello-World", "ä/ö.ü"] {
        let parsed = name(full);
        assert_eq!(parsed.full_name(), full);
        assert_eq!(name(&parsed.full_name()), parsed);
        assert!(!parsed.owner.contains('/') && !parsed.name.contains('/'));
    }
}

#[test]
fn names_are_compared_as_they_are_written() {
    assert!(name("a-x/b") < name("a/b"));
    assert!(name("a/b") > name("a-x/b"));
    assert!(!(name("a/b") < name("a/b")));
    assert!(name("a/b").precedes(&name("a/c")));
}

#[test]
fn a_merge_does_not_depend_on_how_names_came() {
    let names = || vec![name("c/x"), name("a/y"), name("b/z"), name("a/y")];
    let alone = resolve_repos(names(), vec![]);
    let through = resolve_repos(vec![], names());
    let mut turned = names();
    turned.reverse();
    assert_eq!(full_names(&alone), vec!["a/y", "b/z", "c/x"]);
    assert_eq!(full_names(&through), full_names(&alone));
    assert_eq!(full_names(&resolve_repos(turned, names())), full_names(&alone));
}

#[test]
fn an_explicit_repository_overrides_an_exclusion() {
    let raw = RawConfig {
        projects: Some(vec![
            RawProject {
                org: Some("o".to_string()),
                repo: None,
                include_archived: None,
                include_forks: None,
                exclude: Some(vec!["O/Skip".to_string()]),
            },
            RawProject {
                org: None,
                repo: Some("o/skip".to_string()),
                include_archived: None,
                include_forks: None,
                exclude: None,
            },
        ]),
    };
    let config = validate(raw, "c").unwrap();
    assert_eq!(config.projects.len(), 2);
    let listed: Vec<ApiRepo> = ["skip", "keep"]
        .iter()
        .map(|n| ApiRepo {
            name: n.to_string(),
            owner: "o".to_string(),
            archived: false,
            fork: false,
        })
        .collect();
    let expanded = select_org_repos(config.orgs()[0], &listed);
    assert_eq!(full_names(&expanded), vec!["o/keep"]);
    let resolved = resolve_repositories(&config, vec![("o".to_string(), Ok(expanded))]);
    assert_eq!(full_names(&resolved.repos), vec!["o/keep", "o/skip"]);
}

#[test]
fn a_failed_org_changes_nothing_else() {
    let raw = RawConfig {
        projects: Some(vec![RawProject {
            org: Some("good".to_string()),
            repo: None,
            include_archived: None,
            include_forks: None,
            exclude: None,
        }]),
    };
    let config = validate(raw, "c").unwrap();
    let good = || ("good".to_string(), Ok(vec![name("good/a"), name("good/b")]));
    let bad = || {
        (
            "bad".to_string(),
            Err(GitHubError::Transport("down".to_string())),
        )
    };
    let without = resolve_repositories(&config, vec![good()]);
    let with = resolve_repositories(&config, vec![bad(), good(), bad()]);
    assert_eq!(with.repos, without.repos);
    assert_eq!(
        with.org_errors,
        vec![
            ("bad".to_string(), "request failed: down".to_string()),
            ("bad".to_string(), "request failed: down".to_string()),
        ]
    );
}

#[test]
fn filtering_only_removes_and_keeps_the_order() {
    let repos = vec![name("a/1"), name("a/2"), name("b/1")];
    let wanted = ["b/1".to_string(), "c/1".to_string(), "a/1".to_string()];
    assert_eq!(
        full_names(&filter_repos(repos, &wanted).unwrap()),
        vec!["a/1", "b/1"]
    );
}

// --- Selection -----------------------------------------------------------

#[test]
fn a_smaller_limit_selects_a_prefix() {
    let runs: Vec<ApiRun> = (0..6)
        .map(|i| {
            let status = if i % 3 == 0 { "queued" } else { "completed" };
            run(100 - i, 1, &format!("sha{i}"), status)
        })
        .collect();
    let shas = |limit: u32| -> Vec<String> {
        select_settled_commits(&runs, limit)
            .iter()
            .map(|c| c.sha.clone())
            .collect()
    };
    assert_eq!(shas(10), vec!["sha1", "sha2", "sha4", "sha5"]);
    for limit in 0..6u32 {
        let some = shas(limit);
        assert_eq!(some.len(), 4.min(limit as usize));
        assert_eq!(some[..], shas(10)[..some.len()]);
    }
}

#[test]
fn the_newest_running_one_is_unique() {
    let at = |ns: i128| {
        Some(Instant {
            second: 0,
            nanosecond: ns,
        })
    };
    let one = |start: Option<Instant>, id: u64| Contender {
        running: true,
        start,
        id,
    };
    let all = vec![one(at(5), 1), one(at(7), 2), one(at(7), 4), one(None, 9)];
    assert_eq!(newest(&all), Some(2));
    let mut turned = all.clone();
    turned.reverse();
    assert_eq!(newest(&turned), Some(1));
}

#[test]
fn every_problem_job_is_reported() {
    let job = |n: usize, conclusion: &str| ApiJob {
        name: Some(format!("job{n}")),
        conclusion: Some(conclusion.to_string()),
        url: None,
        steps: vec![],
    };
    let kinds = [
        "success",
        "failure",
        "cancelled",
        "timed_out",
        "action_required",
        "startup_failure",
        "skipped",
        "neutral",
        "stale",
    ];
    let jobs: Vec<ApiJob> = kinds.iter().enumerate().map(|(n, k)| job(n, k)).collect();
    let reports = problem_job_reports(&jobs);
    let labels: Vec<&str> = reports.iter().map(|j| j.conclusion.label()).collect();
    assert_eq!(
        labels,
        vec![
            "failure",
            "cancelled",
            "timed_out",
            "action_required",
            "startup_failure",
            "stale"
        ]
    );
}

// --- Reports -------------------------------------------------------------

#[test]
fn running_work_never_changes_the_exit_code() {
    let mut report = Report::stub(1);
    let with = (list_exit_code(&report, true), list_exit_code(&report, false));
    for repo in &mut report.repos {
        repo.active.clear();
    }
    let without = (list_exit_code(&report, true), list_exit_code(&report, false));
    assert_eq!(with, without);
    assert_eq!(with, (2, 0));
}

#[test]
fn a_green_report_passes_the_gate() {
    let mut report = Report::stub(1);
    report.repos.truncate(1);
    assert!(!report.has_failures());
    assert!(!report.repos[0].has_failures());
    assert_eq!(list_exit_code(&report, true), 0);
}

#[test]
fn a_skipped_aggregate_counts_as_red() {
    let mut report = Report::stub(1);
    report.repos.truncate(1);
    report.repos[0].commits[0].conclusion = Conclusion::Skipped;
    assert!(report.has_failures());
    assert!(!report.repos[0].commits[0].is_success());
}

#[test]
fn reports_hold_every_telling_row_in_order() {
    let row = |repo: &str, error: Option<&str>| RepoReport {
        repo: repo.to_string(),
        active: vec![],
        commits: vec![],
        error: error.map(str::to_string),
    };
    let collected = vec![row("z/a", Some("1")), row("m/a", None), row("a/a", Some("2"))];
    let failed = vec![
        ("z".to_string(), "x".to_string()),
        ("b".to_string(), "y".to_string()),
    ];
    let report = assemble_report("now".to_string(), 1, collected, failed);
    let names: Vec<&str> = report.repos.iter().map(|r| r.repo.as_str()).collect();
    assert_eq!(names, vec!["a/a", "b", "z", "z/a"]);
    assert_eq!(
        report.repos[1].error.as_deref(),
        Some("failed to expand org: y")
    );
    assert_eq!(list_exit_code(&report, true), 1);
    assert_eq!(sort_reports(report.repos.clone()), report.repos);
}

#[test]
fn tries_are_bounded_and_waits_never_shrink() {
    for max_retries in [0, 1, 5] {
        let retry = RetryConfig {
            max_retries,
            base_delay: 7,
        };
        let mut attempt = 0;
        let mut tries = 1;
        let mut last = 0;
        loop {
            let failed = Attempt::<u8>::Retry(GitHubError::Transport("x".to_string()));
            match after_attempt(&retry, attempt, failed) {
                Step::Finish(_) => break,
                Step::Again {
                    delay,
                    attempt: next,
                } => {
                    assert!(delay >= last && delay <= LONGEST_DELAY);
                    last = delay;
                    attempt = next;
                    tries += 1;
                }
            }
        }
        assert_eq!(tries, max_retries + 1);
    }
}

/// How often a request is sent, and how it ends.
fn sent(retry: &RetryConfig, outcome: impl Fn(u32) -> Attempt<u8>) -> (u32, Result<u8, String>) {
    let mut attempt: u32 = 0;
    let mut count: u32 = 0;
    loop {
        count += 1;
        match after_attempt(retry, attempt, outcome(attempt)) {
            Step::Finish(result) => {
                return (count, result.map(|p| p.items).map_err(|e| e.to_string()))
            }
            Step::Again { attempt: next, .. } => attempt = next,
        }
    }
}

#[test]
fn a_request_ends_with_its_first_answer_or_the_last_error() {
    let retry = RetryConfig::no_delay(3);
    let failing = |n: u32| Attempt::Retry(GitHubError::Transport(format!("try {n}")));
    for k in 0..4u32 {
        let good = sent(&retry, |n| {
            if n == k {
                Attempt::Done(Page {
                    items: 7,
                    next: None,
                })
            } else {
                failing(n)
            }
        });
        assert_eq!(good, (k + 1, Ok(7)));
        let bad = sent(&retry, |n| {
            if n == k {
                Attempt::Fail(GitHubError::Decode("no".to_string()))
            } else {
                failing(n)
            }
        });
        assert_eq!(bad, (k + 1, Err("failed to parse response: no".to_string())));
    }
    assert_eq!(
        sent(&retry, failing),
        (4, Err("request failed: try 3".to_string()))
    );
    assert_eq!(
        sent(&RetryConfig::no_delay(0), failing),
        (1, Err("request failed: try 0".to_string()))
    );
}

#[test]
fn pages_are_joined_in_order() {
    let page = |items: &[u8], next: Option<&str>| Page {
        items: items.to_vec(),
        next: next.map(str::to_string),
    };
    let pages = vec![
        page(&[1, 2], Some("b")),
        page(&[], Some("c")),
        page(&[3], Some("d")),
        page(&[4, 5], None),
    ];
    let mut items: Vec<u8> = Vec::new();
    let mut urls: Vec<String> = Vec::new();
    let mut all: Option<Vec<u8>> = None;
    for page in pages {
        match after_page(&mut items, page) {
            Paging::More(url) => urls.push(url),
            Paging::All(joined) => all = Some(joined),
        }
    }
    assert_eq!(urls, vec!["b", "c", "d"]);
    assert_eq!(all, Some(vec![1, 2, 3, 4, 5]));
    assert!(items.is_empty());
}

// --- Output --------------------------------------------------------------

#[test]
fn only_failures_shows_the_report_without_the_rest() {
    let report = Report::stub(1);
    let mut failures = report.clone();
    for repo in &mut failures.repos {
        repo.active.clear();
        repo.commits.retain(|c| !c.is_success());
    }
    for color in [false, true] {
        assert_eq!(human(&report, color, true), human(&failures, color, false));
    }
}

#[test]
fn machine_formats_ignore_the_human_options() {
    let report = Report::stub(1);
    for color in [false, true] {
        for only in [false, true] {
            assert_eq!(render(&report, Format::Json, color, only), json(&report));
            assert_eq!(render(&report, Format::Jsonl, color, only), jsonl(&report));
        }
    }
}

#[test]
fn documents_read_back() {
    let report = Report::stub(1);
    let document: serde_json::Value = serde_json::from_str(&json(&report)).unwrap();
    let keys: Vec<&String> = document.as_object().unwrap().keys().collect();
    assert_eq!(keys, vec!["generated_at", "limit", "repositories"]);
    let locked = document["repositories"][2].as_object().unwrap();
    let keys: Vec<&String> = locked.keys().collect();
    assert_eq!(keys, vec!["repo", "active", "commits", "error"]);
    for line in jsonl(&report).lines() {
        let record: serde_json::Value = serde_json::from_str(line).unwrap();
        let keys: Vec<&String> = record.as_object().unwrap().keys().collect();
        let mut sorted = keys.clone();
        sorted.sort();
        assert_eq!(keys, sorted);
        assert!(record["type"].is_string() && record["repo"].is_string());
    }
}

// --- Texts ---------------------------------------------------------------

#[test]
fn texts_are_handled_by_characters() {
    assert_eq!(text::trim("\u{2029}\t a b \u{85}"), "a b");
    assert_eq!(text::split("a,,b,", ','), vec!["a", "", "b", ""]);
    assert_eq!(text::split("", ','), vec![""]);
    assert_eq!(
        text::join(&vec!["a".to_string(), "b".to_string()], ", "),
        "a, b"
    );
    assert_eq!(text::lowercase("AbÇ[Z"), "abÇ[z");
    assert!(text::has_part("hello", "ell"));
    assert!(text::has_part("hello", ""));
    assert!(!text::has_part("he", "hello"));
    assert!(text::precedes("Z", "a"));
    assert!(text::precedes("a", "ab"));
    assert!(!text::precedes("a", "a"));
    assert_eq!(text::decimal_text(0), "0");
    assert_eq!(text::decimal_text(u64::MAX), u64::MAX.to_string());
    assert_eq!(text::parse_number("0012", 12), Some(12));
    assert_eq!(text::parse_number("13", 12), None);
    assert_eq!(text::first_chars("äöü", 2), "äö");
}

#[test]
fn fixed_texts_are_as_documented() {
    assert_eq!(DEFAULT_BASE_URL, "https://api.github.com");
    assert_eq!(
        UNAUTHENTICATED_WARNING,
        "no GitHub token found (set ACTSTAT_GITHUB_TOKEN, GH_TOKEN, or GITHUB_TOKEN, or run `gh auth login`); making unauthenticated requests — private repos and org expansion are limited and rate limits are low"
    );
}
