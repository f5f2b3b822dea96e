//! Tokens, replies of the API, retries, paging and org expansion.

use actstat::collect::{build_repo_report, sort_reports};
use actstat::config::{Config, OrgSource, ProjectSource, RepoName};
use actstat::github::{
    after_attempt, after_page, attempt_get, base_url, discover_token_with, error_message,
    failure_message, gh_token, is_rate_limited, is_success_status, org_repos_path,
    parse_link_next, parse_next_link, parse_retry_after, resolve_repositories, resolve_url,
    select_org_repos, ApiRepo, Attempt, GitHubError, Header, Headers, Page, Paging, Reply,
    RetryConfig, Step, TokenSource, DEFAULT_BASE_URL, LONGEST_DELAY,
};

fn repo(owner: &str, name: &str) -> RepoName {
    RepoName {
        owner: owner.to_string(),
        name: name.to_string(),
    }
}

fn org(name: &str) -> OrgSource {
    OrgSource {
        org: name.to_string(),
        include_archived: false,
        include_forks: false,
        exclude: vec![],
    }
}

fn api_repo(owner: &str, name: &str) -> ApiRepo {
    ApiRepo {
        name: name.to_string(),
        owner: owner.to_string(),
        archived: false,
        fork: false,
    }
}

fn text(value: &str) -> Header {
    Header::Text(value.to_string())
}

fn no_headers() -> Headers {
    Headers {
        link: Header::Absent,
        rate_remaining: Header::Absent,
        retry_after: Header::Absent,
    }
}

fn refused<T>(status: u16, headers: Headers, body: &str) -> Reply<T> {
    Reply::Refused {
        status,
        headers,
        body: body.to_string(),
    }
}

/// Run a request to its end against given replies; how many were used, and
/// what came of it.
fn drive<T>(
    retry: &RetryConfig,
    mut replies: impl FnMut(usize) -> Reply<T>,
) -> (usize, Result<Page<T>, GitHubError>) {
    let mut attempt: u32 = 0;
    let mut used: usize = 0;
    loop {
        let outcome = attempt_get(replies(used));
        used += 1;
        match after_attempt(retry, attempt, outcome) {
            Step::Finish(result) => return (used, result),
            Step::Again {
                delay,
                attempt: next,
            } => {
                assert_eq!(delay, 0);
                attempt = next;
            }
        }
    }
}

// --- Token discovery -----------------------------------------------------

#[test]
fn token_prefers_actstat_var_over_others() {
    let env = |k: &str| match k {
        "ACTSTAT_GITHUB_TOKEN" => Some("actstat-tok".to_string()),
        "GH_TOKEN" => Some("gh-tok".to_string()),
        _ => None,
    };
    let d = discover_token_with(env, || panic!("gh must not be called"));
    assert_eq!(d.token.as_deref(), Some("actstat-tok"));
    assert_eq!(d.source, TokenSource::Env("ACTSTAT_GITHUB_TOKEN".into()));
    assert!(d.is_authenticated());
    assert!(d.unauthenticated_warning().is_none());
}

#[test]
fn token_falls_back_gh_token_then_github_token() {
    let only_github = |k: &str| (k == "GITHUB_TOKEN").then(|| "github-tok".to_string());
    let d = discover_token_with(only_github, || None);
    assert_eq!(d.token.as_deref(), Some("github-tok"));
    assert_eq!(d.source, TokenSource::Env("GITHUB_TOKEN".into()));
}

#[test]
fn token_falls_back_to_gh_cli() {
    let d = discover_token_with(|_| None, || Some("  cli-tok\n".into()));
    assert_eq!(d.token.as_deref(), Some("cli-tok"));
    assert_eq!(d.source, TokenSource::GhCli);
}

#[test]
fn token_blank_env_value_is_ignored() {
    let env = |k: &str| match k {
        "ACTSTAT_GITHUB_TOKEN" => Some("   ".to_string()),
        "GH_TOKEN" => Some("real".to_string()),
        _ => None,
    };
    let d = discover_token_with(env, || None);
    assert_eq!(d.token.as_deref(), Some("real"));
}

#[test]
fn token_unauthenticated_when_nothing_found() {
    let d = discover_token_with(|_| None, || None);
    assert!(!d.is_authenticated());
    assert_eq!(d.source, TokenSource::Unauthenticated);
    assert!(d.unauthenticated_warning().is_some());
}

#[test]
fn gh_output_counts_only_on_success() {
    assert_eq!(gh_token(true, Some(" tok\n".to_string())), Some("tok".to_string()));
    assert_eq!(gh_token(false, Some("tok".to_string())), None);
    assert_eq!(gh_token(true, Some(" \n".to_string())), None);
    assert_eq!(gh_token(true, None), None);
}

// --- Replies -------------------------------------------------------------

#[test]
fn link_header_next_is_extracted() {
    let link = "<https://api.github.com/orgs/x/repos?page=2>; rel=\"next\", \
                <https://api.github.com/orgs/x/repos?page=5>; rel=\"last\"";
    assert_eq!(
        parse_link_next(link).as_deref(),
        Some("https://api.github.com/orgs/x/repos?page=2")
    );
}

#[test]
fn link_header_without_next_is_none() {
    let link = "<https://api.github.com/orgs/x/repos?page=1>; rel=\"prev\"";
    assert_eq!(parse_link_next(link), None);
}

#[test]
fn link_header_edge_cases() {
    assert_eq!(parse_link_next(""), None);
    assert_eq!(parse_link_next("rel=\"next\""), None);
    assert_eq!(parse_link_next("<>; rel=next, <u>; x ;  rel=next "), Some("u".to_string()));
    assert_eq!(parse_link_next("<<a>>;rel=next"), Some("a".to_string()));
    assert_eq!(parse_next_link(&Header::Opaque), None);
    assert_eq!(parse_next_link(&Header::Absent), None);
    assert_eq!(parse_next_link(&text("<b>; rel=next")), Some("b".to_string()));
}

#[test]
fn error_message_prefers_json_message_field() {
    assert_eq!(error_message(r#"{"message":"Not Found","x":1}"#), "Not Found");
}

#[test]
fn error_message_falls_back_to_trimmed_body() {
    assert_eq!(error_message("  oops  "), "oops");
    assert_eq!(error_message(""), "(no response body)");
}

#[test]
fn error_message_handles_other_bodies() {
    assert_eq!(error_message(r#"{"message":" padded "}"#), "padded");
    assert_eq!(error_message(r#"{"message":"  "}"#), r#"{"message":"  "}"#);
    assert_eq!(error_message(r#"{"message":7}"#), r#"{"message":7}"#);
    assert_eq!(error_message(r#"["message"]"#), r#"["message"]"#);
    let long = "é".repeat(201);
    assert_eq!(error_message(&long), "é".repeat(200));
    assert_eq!(failure_message("body", Some("given".to_string())), "given");
    assert_eq!(failure_message(" body ", Some(" ".to_string())), "body");
    assert_eq!(failure_message("", None), "(no response body)");
}

#[test]
fn rate_limit_detection_covers_429_and_exhausted_403() {
    assert!(is_rate_limited(429, &no_headers(), ""));

    let mut exhausted = no_headers();
    exhausted.rate_remaining = text("0");
    assert!(is_rate_limited(403, &exhausted, ""));

    // A plain 403 with no rate-limit signal is *not* a rate limit.
    assert!(!is_rate_limited(403, &no_headers(), "nope"));

    // Secondary ("abuse") limits are detected from the body.
    assert!(is_rate_limited(
        403,
        &no_headers(),
        "You have exceeded a secondary rate limit"
    ));
}

#[test]
fn rate_limit_detection_edge_cases() {
    let mut asked = no_headers();
    asked.retry_after = Header::Opaque;
    assert!(is_rate_limited(403, &asked, ""));
    assert!(!is_rate_limited(404, &asked, "rate limit"));
    let mut left = no_headers();
    left.rate_remaining = text("10");
    assert!(!is_rate_limited(403, &left, ""));
    assert!(is_rate_limited(403, &left, "ABUSE detected"));
}

#[test]
fn retry_after_is_read_in_seconds() {
    assert_eq!(parse_retry_after(&text(" 17 ")), Some(17));
    assert_eq!(parse_retry_after(&text("+3")), Some(3));
    assert_eq!(parse_retry_after(&text("18446744073709551615")), Some(u64::MAX));
    assert_eq!(parse_retry_after(&text("18446744073709551616")), None);
    assert_eq!(parse_retry_after(&text("Wed, 21 Oct 2015 07:28:00 GMT")), None);
    assert_eq!(parse_retry_after(&Header::Opaque), None);
    assert_eq!(parse_retry_after(&Header::Absent), None);
}

#[test]
fn statuses_of_success() {
    assert!(is_success_status(200));
    assert!(is_success_status(299));
    assert!(!is_success_status(199));
    assert!(!is_success_status(300));
}

#[test]
fn urls_are_resolved_against_the_base() {
    assert_eq!(base_url("http://x//"), "http://x");
    let base = base_url(DEFAULT_BASE_URL);
    assert_eq!(resolve_url(&base, "/a/b"), "https://api.github.com/a/b");
    assert_eq!(resolve_url(&base, "//a"), "https://api.github.com/a");
    assert_eq!(resolve_url(&base, "a"), "https://api.github.com/a");
    assert_eq!(resolve_url(&base, "https://y/z"), "https://y/z");
    assert_eq!(resolve_url(&base, "http://y/z"), "http://y/z");
}

#[test]
fn errors_are_worded_exactly() {
    let said = |e: GitHubError| e.to_string();
    assert_eq!(said(GitHubError::Unauthorized("m".into())), "unauthorized (401): m");
    assert_eq!(said(GitHubError::Forbidden("m".into())), "forbidden (403): m");
    assert_eq!(said(GitHubError::NotFound("m".into())), "not found (404): m");
    assert_eq!(said(GitHubError::Transport("m".into())), "request failed: m");
    assert_eq!(said(GitHubError::Decode("m".into())), "failed to parse response: m");
    assert_eq!(
        said(GitHubError::Status {
            status: 502,
            message: "m".into()
        }),
        "unexpected status 502: m"
    );
    let limited = GitHubError::RateLimited {
        message: "m".into(),
        retry_after: Some(4),
    };
    assert_eq!(limited.wait_hint(), Some(4));
    assert_eq!(said(limited), "rate limited: m");
}

// --- Retries -------------------------------------------------------------

#[test]
fn backoff_doubles_and_is_capped() {
    let retry = RetryConfig::default();
    assert_eq!(retry.max_retries, 3);
    assert_eq!(retry.base_delay, 500_000_000);
    assert_eq!(retry.backoff(0), 500_000_000);
    assert_eq!(retry.backoff(1), 1_000_000_000);
    assert_eq!(retry.backoff(16), 500_000_000 * 65536);
    assert_eq!(retry.backoff(u32::MAX), 500_000_000 * 65536);
    let long = RetryConfig {
        max_retries: 1,
        base_delay: LONGEST_DELAY / 2 + 1,
    };
    assert_eq!(long.backoff(1), LONGEST_DELAY);
    assert_eq!(RetryConfig::no_delay(2).backoff(9), 0);
}

#[test]
fn the_wait_honors_what_the_api_asks_for() {
    let retry = RetryConfig::default();
    assert_eq!(retry.retry_delay(0, None), 500_000_000);
    assert_eq!(retry.retry_delay(0, Some(2)), 2_000_000_000);
    assert_eq!(retry.retry_delay(0, Some(1000)), 60_000_000_000);
    assert_eq!(retry.retry_delay(8, Some(1)), 128_000_000_000);
    assert_eq!(RetryConfig::no_delay(3).retry_delay(5, Some(30)), 0);
}

#[test]
fn unauthorized_maps_to_unauthorized_error() {
    let (used, result) = drive::<Vec<ApiRepo>>(&RetryConfig::no_delay(3), |_| {
        refused(401, no_headers(), r#"{"message":"Bad credentials"}"#)
    });
    assert_eq!(used, 1);
    let err = result.err().unwrap();
    assert!(matches!(err, GitHubError::Unauthorized(_)));
    assert!(err.to_string().contains("Bad credentials"));
}

#[test]
fn not_found_maps_to_not_found_error() {
    let (_, result) = drive::<Vec<ApiRepo>>(&RetryConfig::no_delay(3), |_| {
        refused(404, no_headers(), r#"{"message":"Not Found"}"#)
    });
    assert!(matches!(result.err().unwrap(), GitHubError::NotFound(_)));
}

#[test]
fn plain_forbidden_maps_to_forbidden_not_rate_limit() {
    let (used, result) = drive::<Vec<ApiRepo>>(&RetryConfig::no_delay(3), |_| {
        refused(403, no_headers(), r#"{"message":"Resource not accessible"}"#)
    });
    assert_eq!(used, 1);
    assert!(matches!(result.err().unwrap(), GitHubError::Forbidden(_)));
}

#[test]
fn rate_limit_403_is_retried_then_surfaced() {
    let (used, result) = drive::<Vec<ApiRepo>>(&RetryConfig::no_delay(3), |_| {
        let headers = Headers {
            link: Header::Absent,
            rate_remaining: text("0"),
            retry_after: text("1"),
        };
        refused(403, headers, r#"{"message":"API rate limit exceeded"}"#)
    });
    match result.err().unwrap() {
        GitHubError::RateLimited {
            message,
            retry_after,
        } => {
            assert_eq!(message, "API rate limit exceeded");
            assert_eq!(retry_after, Some(1));
        }
        other => panic!("unexpected: {other:?}"),
    }
    assert_eq!(used, 4, "1 attempt + 3 retries");
}

#[test]
fn server_error_is_retried_then_recovers() {
    let (used, result) = drive(&RetryConfig::no_delay(3), |n| {
        if n < 2 {
            refused(500, no_headers(), "")
        } else {
            Reply::Success {
                link: Header::Absent,
                decoded: Ok(vec![api_repo("flaky", "ok")]),
            }
        }
    });
    let page = result.ok().unwrap();
    let repos = select_org_repos(&org("flaky"), &page.items);
    assert_eq!(repos, vec![repo("flaky", "ok")]);
    assert_eq!(used, 3);
}

#[test]
fn other_replies_are_classified() {
    assert!(matches!(
        attempt_get::<u8>(Reply::Unsent("reset".to_string())),
        Attempt::Retry(GitHubError::Transport(m)) if m == "reset"
    ));
    assert!(matches!(
        attempt_get::<u8>(Reply::Success {
            link: Header::Absent,
            decoded: Err("eof".to_string())
        }),
        Attempt::Fail(GitHubError::Decode(m)) if m == "eof"
    ));
    assert!(matches!(
        attempt_get::<u8>(refused(418, no_headers(), "teapot")),
        Attempt::Fail(GitHubError::Status { status: 418, message }) if message == "teapot"
    ));
    assert!(matches!(
        attempt_get::<u8>(refused(599, no_headers(), "")),
        Attempt::Retry(GitHubError::Status { status: 599, .. })
    ));
    assert!(matches!(
        attempt_get::<u8>(refused(600, no_headers(), "")),
        Attempt::Fail(GitHubError::Status { status: 600, .. })
    ));
    assert!(matches!(
        attempt_get::<u8>(refused(429, no_headers(), "")),
        Attempt::Retry(GitHubError::RateLimited { retry_after: None, .. })
    ));
}

#[test]
fn a_wait_is_asked_for_between_tries() {
    let retry = RetryConfig::default();
    let step = after_attempt::<u8>(
        &retry,
        1,
        Attempt::Retry(GitHubError::RateLimited {
            message: "slow".into(),
            retry_after: Some(5),
        }),
    );
    assert!(matches!(
        step,
        Step::Again {
            delay: 5_000_000_000,
            attempt: 2
        }
    ));
    let over = after_attempt::<u8>(
        &retry,
        3,
        Attempt::Retry(GitHubError::Transport("x".into())),
    );
    assert!(matches!(over, Step::Finish(Err(GitHubError::Transport(_)))));
}

// --- Org expansion -------------------------------------------------------

#[test]
fn list_org_repos_single_page() {
    assert_eq!(
        org_repos_path(&org("sase-org")),
        "/orgs/sase-org/repos?per_page=100"
    );
    let listed = vec![api_repo("sase-org", "tools"), api_repo("sase-org", "infra")];
    let repos = select_org_repos(&org("sase-org"), &listed);
    assert_eq!(repos, vec![repo("sase-org", "tools"), repo("sase-org", "infra")]);
}

#[test]
fn list_org_repos_follows_pagination() {
    let mut items: Vec<ApiRepo> = Vec::new();
    let first = attempt_get(Reply::Success {
        link: text("<http://h/orgs/big/repos?per_page=100&page=2>; rel=\"next\""),
        decoded: Ok(vec![api_repo("big", "a")]),
    });
    let page = match first {
        Attempt::Done(page) => page,
        _ => panic!("a success is done"),
    };
    let url = match after_page(&mut items, page) {
        Paging::More(url) => url,
        Paging::All(_) => panic!("there is a next page"),
    };
    assert_eq!(url, "http://h/orgs/big/repos?per_page=100&page=2");
    let second = Page {
        items: vec![api_repo("big", "b")],
        next: None,
    };
    let all = match after_page(&mut items, second) {
        Paging::All(all) => all,
        Paging::More(_) => panic!("there is no next page"),
    };
    assert!(items.is_empty());
    let repos = select_org_repos(&org("big"), &all);
    assert_eq!(repos, vec![repo("big", "a"), repo("big", "b")]);
}

#[test]
fn list_org_repos_applies_filters() {
    let mut old = api_repo("sase-org", "old");
    old.archived = true;
    let mut mirror = api_repo("sase-org", "mirror");
    mirror.fork = true;
    let listed = vec![
        api_repo("sase-org", "active"),
        old,
        mirror,
        api_repo("sase-org", "scratch"),
    ];
    let mut source = org("sase-org");
    source.exclude = vec![repo("sase-org", "scratch")];
    let repos = select_org_repos(&source, &listed);
    assert_eq!(repos, vec![repo("sase-org", "active")]);

    source.include_archived = true;
    source.include_forks = true;
    let repos = select_org_repos(&source, &listed);
    assert_eq!(
        repos,
        vec![
            repo("sase-org", "active"),
            repo("sase-org", "old"),
            repo("sase-org", "mirror"),
        ]
    );
}

#[test]
fn exclusion_ignores_case() {
    let mut source = org("sase-org");
    source.exclude = vec![repo("SASE-org", "Sase-Android")];
    let listed = vec![api_repo("sase-org", "sase-android"), api_repo("sase-org", "sase")];
    assert_eq!(select_org_repos(&source, &listed), vec![repo("sase-org", "sase")]);
}

#[test]
fn resolve_dedups_orgs_and_explicit_repos() {
    let config = Config {
        projects: vec![
            ProjectSource::Org(org("sase-org")),
            ProjectSource::Repo(repo("sase-org", "tools")),
            ProjectSource::Repo(repo("bbugyi200", "actstat")),
        ],
    };
    let expansions = vec![(
        "sase-org".to_string(),
        Ok(vec![repo("sase-org", "tools"), repo("sase-org", "infra")]),
    )];
    let resolved = resolve_repositories(&config, expansions);
    assert!(resolved.org_errors.is_empty());
    let names: Vec<String> = resolved.repos.iter().map(RepoName::full_name).collect();
    assert_eq!(
        names,
        vec![
            "bbugyi200/actstat".to_string(),
            "sase-org/infra".to_string(),
            "sase-org/tools".to_string(),
        ]
    );
}

#[test]
fn resolve_isolates_a_failing_org() {
    let config = Config {
        projects: vec![ProjectSource::Org(org("good")), ProjectSource::Org(org("bad"))],
    };
    let expansions = vec![
        ("bad".to_string(), Err(GitHubError::NotFound("Not Found".into()))),
        ("good".to_string(), Ok(vec![repo("good", "a")])),
    ];
    let resolved = resolve_repositories(&config, expansions);
    assert_eq!(resolved.repos, vec![repo("good", "a")]);
    assert_eq!(resolved.org_errors.len(), 1);
    assert_eq!(resolved.org_errors[0].0, "bad");
    assert!(resolved.org_errors[0].1.contains("404"));
}

// --- Repositories --------------------------------------------------------

#[test]
fn fan_out_isolates_failures_and_sorts() {
    let reports = [repo("o", "c"), repo("o", "a"), repo("o", "b")]
        .iter()
        .map(|r| {
            let settled = if r.name == "b" {
                Err(GitHubError::Forbidden("nope".into()))
            } else {
                Ok(vec![])
            };
            build_repo_report(&r.full_name(), Ok(vec![]), settled)
        })
        .collect();
    let reports = sort_reports(reports);

    let names: Vec<&str> = reports.iter().map(|r| r.repo.as_str()).collect();
    assert_eq!(names, vec!["o/a", "o/b", "o/c"], "stable sorted order");
    let b = reports.iter().find(|r| r.repo == "o/b").unwrap();
    assert!(b.error.as_deref().unwrap().contains("forbidden"));
    assert!(reports.iter().filter(|r| r.error.is_none()).count() == 2);
}

#[test]
fn fan_out_isolates_per_repo_http_failures() {
    let answer = |r: &RepoName| {
        let reply = match r.name.as_str() {
            "missing" => refused(404, no_headers(), r#"{"message":"Not Found"}"#),
            "locked" => refused(403, no_headers(), r#"{"message":"Forbidden"}"#),
            _ => Reply::Success {
                link: Header::Absent,
                decoded: Ok(true),
            },
        };
        let (_, result) = drive(&RetryConfig::no_delay(3), |_| match &reply {
            Reply::Success { .. } => Reply::Success {
                link: Header::Absent,
                decoded: Ok(true),
            },
            Reply::Refused { status, body, .. } => refused(*status, no_headers(), body),
            Reply::Unsent(said) => Reply::Unsent(said.clone()),
        });
        build_repo_report(&r.full_name(), Ok(vec![]), result.map(|_| vec![]))
    };
    let reports = sort_reports(vec![
        answer(&repo("o", "ok")),
        answer(&repo("o", "missing")),
        answer(&repo("o", "locked")),
    ]);

    let ok = reports.iter().find(|r| r.repo == "o/ok").unwrap();
    assert!(ok.error.is_none());
    let missing = reports.iter().find(|r| r.repo == "o/missing").unwrap();
    assert!(missing.error.as_deref().unwrap().contains("404"));
    let locked = reports.iter().find(|r| r.repo == "o/locked").unwrap();
    assert!(locked.error.as_deref().unwrap().contains("403"));
}
