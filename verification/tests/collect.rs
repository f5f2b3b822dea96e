//! Selection of runs, and the reports made of them.

use actstat::clock::Instant;
use actstat::collect::{
    active_commits, branch_runs_request, build_commit_report, build_commit_report_at,
    build_repo_report, duration_seconds, earliest, job_requests, jobs_request, latest, newest,
    normalize_run, normalize_run_at, problem_job_reports, repo_request, running_runs_request,
    select_most_recent_running, select_settled_commits, sort_reports, ApiJob, ApiRun, ApiStep,
    Contender,
};
use actstat::github::GitHubError;
use actstat::model::{Conclusion, RepoReport, RunStatus};

fn some(s: &str) -> Option<String> {
    Some(s.to_string())
}

fn run(id: u64, workflow_id: u64, sha: &str, status: &str) -> ApiRun {
    ApiRun {
        id,
        workflow_id,
        name: Some(format!("W{workflow_id}")),
        title: Some(format!("Title of {sha}")),
        run_number: id * 10,
        event: some("push"),
        branch: some("main"),
        sha: sha.to_string(),
        status: some(status),
        conclusion: if status == "completed" {
            some("success")
        } else {
            None
        },
        url: Some(format!("https://github.com/o/r/actions/runs/{id}")),
        created_at: some("2026-06-29T11:00:00Z"),
        updated_at: some("2026-06-29T11:10:00Z"),
        started_at: some("2026-06-29T11:00:05Z"),
    }
}

fn concluded(mut run: ApiRun, conclusion: &str) -> ApiRun {
    run.conclusion = some(conclusion);
    run
}

fn started(mut run: ApiRun, started_at: Option<&str>, created_at: Option<&str>) -> ApiRun {
    run.started_at = started_at.map(str::to_string);
    run.created_at = created_at.map(str::to_string);
    run
}

fn step(name: &str, number: u64, conclusion: &str) -> ApiStep {
    ApiStep {
        name: some(name),
        number,
        conclusion: some(conclusion),
    }
}

fn job(name: &str, conclusion: Option<&str>, steps: Vec<ApiStep>) -> ApiJob {
    ApiJob {
        name: some(name),
        conclusion: conclusion.map(str::to_string),
        url: Some(format!("https://job/{name}")),
        steps,
    }
}

fn at(second: i64) -> Option<Instant> {
    Some(Instant {
        second,
        nanosecond: i128::from(second) * 1_000_000_000,
    })
}

// --- Settled commits -----------------------------------------------------

#[test]
fn unsettled_commits_are_skipped() {
    let runs = vec![
        run(20, 1, "9b93600", "queued"),
        run(19, 2, "9b93600", "in_progress"),
        run(18, 3, "9b93600", "completed"),
        run(17, 1, "a3e494d", "queued"),
        run(16, 1, "b7e9829", "in_progress"),
        concluded(run(15, 1, "d44ab2e", "completed"), "failure"),
        run(14, 2, "d44ab2e", "completed"),
        run(13, 1, "e84474f", "completed"),
    ];
    let one = select_settled_commits(&runs, 1);
    assert_eq!(one.len(), 1);
    assert_eq!(one[0].sha, "d44ab2e");
    let ids: Vec<u64> = one[0].runs.iter().map(|r| r.id).collect();
    assert_eq!(ids, vec![15, 14]);

    let all = select_settled_commits(&runs, 9);
    let shas: Vec<&str> = all.iter().map(|c| c.sha.as_str()).collect();
    assert_eq!(shas, vec!["d44ab2e", "e84474f"]);
    assert!(select_settled_commits(&runs, 0).is_empty());
}

#[test]
fn a_rerun_supersedes_its_earlier_attempt() {
    let runs = vec![
        run(5, 1, "s", "completed"),
        run(9, 1, "s", "completed"),
        run(7, 1, "s", "in_progress"),
        run(6, 2, "s", "completed"),
    ];
    let commits = select_settled_commits(&runs, 3);
    assert_eq!(commits.len(), 1);
    let ids: Vec<u64> = commits[0].runs.iter().map(|r| r.id).collect();
    assert_eq!(ids, vec![9, 6]);
}

#[test]
fn a_running_rerun_unsettles_its_commit() {
    let runs = vec![
        run(9, 1, "s", "in_progress"),
        run(5, 1, "s", "completed"),
        run(3, 1, "t", "completed"),
    ];
    let commits = select_settled_commits(&runs, 3);
    let shas: Vec<&str> = commits.iter().map(|c| c.sha.as_str()).collect();
    assert_eq!(shas, vec!["t"]);
}

#[test]
fn commits_are_grouped_over_the_whole_list() {
    let runs = vec![
        run(4, 1, "a", "completed"),
        run(3, 1, "b", "completed"),
        run(2, 2, "a", "queued"),
    ];
    let commits = select_settled_commits(&runs, 3);
    let shas: Vec<&str> = commits.iter().map(|c| c.sha.as_str()).collect();
    assert_eq!(shas, vec!["b"]);
}

#[test]
fn an_absent_status_is_not_completed() {
    let mut one = run(1, 1, "a", "completed");
    one.status = None;
    assert!(select_settled_commits(&vec![one], 1).is_empty());
    assert!(select_settled_commits(&vec![], 5).is_empty());
}

// --- The running run -----------------------------------------------------

#[test]
fn only_in_progress_counts_as_running() {
    let runs: Vec<ApiRun> = ["queued", "waiting", "pending", "requested", "completed", "success"]
        .iter()
        .enumerate()
        .map(|(i, status)| run(i as u64, 1, "s", status))
        .collect();
    assert_eq!(select_most_recent_running(&runs), None);
    assert!(active_commits("o/r", &runs).is_empty());
}

#[test]
fn the_latest_start_wins_over_the_listed_order() {
    let runs = vec![
        started(
            run(9, 1, "a", "in_progress"),
            Some("2026-06-29T11:00:00Z"),
            None,
        ),
        started(
            run(3, 2, "b", "in_progress"),
            Some("2026-06-29T11:30:00.5Z"),
            None,
        ),
        started(
            run(7, 3, "c", "in_progress"),
            Some("2026-06-29T11:30:00Z"),
            None,
        ),
        run(99, 4, "d", "queued"),
    ];
    assert_eq!(select_most_recent_running(&runs), Some(1));
}

#[test]
fn the_start_falls_back_to_the_creation() {
    let runs = vec![
        started(
            run(1, 1, "a", "in_progress"),
            Some("2026-06-29T11:00:00Z"),
            None,
        ),
        started(
            run(2, 2, "b", "in_progress"),
            None,
            Some("2026-06-29T11:05:00Z"),
        ),
        started(
            run(3, 3, "c", "in_progress"),
            Some("soon"),
            Some("2026-06-29T11:06:00Z"),
        ),
        started(run(4, 4, "d", "in_progress"), None, None),
    ];
    assert_eq!(select_most_recent_running(&runs), Some(2));
}

#[test]
fn ties_go_to_the_highest_id_then_to_the_first() {
    let contender = |running: bool, start: Option<Instant>, id: u64| Contender {
        running,
        start,
        id,
    };
    assert_eq!(newest(&vec![]), None);
    assert_eq!(newest(&vec![contender(false, at(9), 1)]), None);
    assert_eq!(
        newest(&vec![
            contender(true, at(5), 1),
            contender(true, at(5), 3),
            contender(true, at(5), 3),
            contender(true, at(5), 2),
            contender(false, at(9), 9),
        ]),
        Some(1)
    );
    assert_eq!(
        newest(&vec![
            contender(true, None, 8),
            contender(true, None, 9),
            contender(true, at(-1), 1),
        ]),
        Some(2)
    );
    assert_eq!(
        newest(&vec![contender(true, None, 8), contender(true, None, 9)]),
        Some(1)
    );
}

#[test]
fn the_running_run_is_reported_alone() {
    let runs = vec![
        run(4, 1, "0123456789abcdef", "in_progress"),
        run(5, 2, "fedcba9876543210", "in_progress"),
    ];
    let active = active_commits("o/r", &runs);
    assert_eq!(active.len(), 1);
    let commit = &active[0];
    assert_eq!(commit.sha, "fedcba9");
    assert_eq!(commit.title, "Title of fedcba9876543210");
    assert_eq!(commit.branch, "main");
    assert_eq!(commit.event, "push");
    assert_eq!(commit.url, "https://github.com/o/r/commit/fedcba9876543210");
    assert_eq!(commit.started_at, "2026-06-29T11:00:05Z");
    assert_eq!(commit.runs.len(), 1);
    let only = &commit.runs[0];
    assert_eq!(only.workflow, "W2");
    assert_eq!(only.run_number, 50);
    assert_eq!(only.sha, "fedcba9");
    assert_eq!(only.status, RunStatus::InProgress);
    assert_eq!(only.url, "https://github.com/o/r/actions/runs/5");
    assert_eq!(only.created_at, "2026-06-29T11:00:00Z");
    assert_eq!(only.started_at.as_deref(), Some("2026-06-29T11:00:05Z"));
}

#[test]
fn absent_fields_of_a_running_run_are_empty() {
    let bare = ApiRun {
        id: 1,
        workflow_id: 0,
        name: None,
        title: None,
        run_number: 0,
        event: None,
        branch: None,
        sha: "abc".to_string(),
        status: some("in_progress"),
        conclusion: None,
        url: None,
        created_at: some("2026-06-29T11:00:00Z"),
        updated_at: None,
        started_at: None,
    };
    let active = active_commits("o/r", &vec![bare]);
    assert_eq!(active[0].sha, "abc");
    assert_eq!(active[0].title, "");
    assert_eq!(active[0].started_at, "2026-06-29T11:00:00Z");
    assert_eq!(active[0].runs[0].started_at, None);
}

// --- Runs and commits ----------------------------------------------------

#[test]
fn durations_need_two_times_in_order() {
    assert_eq!(duration_seconds(at(10), at(160)), Some(150));
    assert_eq!(duration_seconds(at(10), at(10)), Some(0));
    assert_eq!(duration_seconds(at(10), at(9)), None);
    assert_eq!(duration_seconds(None, at(9)), None);
    assert_eq!(duration_seconds(at(10), None), None);
}

#[test]
fn a_runs_duration_runs_from_its_start() {
    let normal = run(1, 1, "s", "completed");
    assert_eq!(normalize_run(&normal, &vec![]).duration_seconds, Some(595));
    let fallback = started(
        run(1, 1, "s", "completed"),
        None,
        Some("2026-06-29T11:00:00Z"),
    );
    assert_eq!(normalize_run(&fallback, &vec![]).duration_seconds, Some(600));
    let malformed = started(
        run(1, 1, "s", "completed"),
        Some("soon"),
        Some("2026-06-29T11:00:00Z"),
    );
    assert_eq!(normalize_run(&malformed, &vec![]).duration_seconds, None);
    let missing = started(run(1, 1, "s", "completed"), None, None);
    assert_eq!(normalize_run(&missing, &vec![]).duration_seconds, None);
    let negative = started(
        run(1, 1, "s", "completed"),
        Some("2026-06-29T12:00:00Z"),
        None,
    );
    assert_eq!(normalize_run(&negative, &vec![]).duration_seconds, None);
}

#[test]
fn the_latest_and_the_earliest_time_are_found() {
    assert_eq!(latest(&vec![]), None);
    assert_eq!(latest(&vec![None, at(3), at(9), at(9), None, at(4)]), Some(2));
    assert_eq!(earliest(&vec![None, at(3), at(2), at(2), at(4)]), Some(2));
    assert_eq!(earliest(&vec![None, None]), None);
}

#[test]
fn only_problem_jobs_and_steps_are_reported() {
    let jobs = vec![
        job("ok", Some("success"), vec![step("x", 1, "failure")]),
        job(
            "bad",
            Some("failure"),
            vec![
                step("setup", 1, "success"),
                step("test", 2, "failure"),
                step("after", 3, "skipped"),
                step("clean", 4, "cancelled"),
            ],
        ),
        job("skipped", Some("skipped"), vec![]),
        job("odd", None, vec![]),
    ];
    let reports = problem_job_reports(&jobs);
    let names: Vec<&str> = reports.iter().map(|j| j.name.as_str()).collect();
    assert_eq!(names, vec!["bad", "odd"]);
    assert_eq!(reports[0].url, "https://job/bad");
    let steps: Vec<(u64, &str)> = reports[0]
        .steps
        .iter()
        .map(|s| (s.number, s.name.as_str()))
        .collect();
    assert_eq!(steps, vec![(2, "test"), (4, "clean")]);
    assert_eq!(reports[0].steps[1].conclusion, Conclusion::Cancelled);
    assert_eq!(reports[1].conclusion, Conclusion::Failure);
}

#[test]
fn a_red_commit_reports_every_problem_run() {
    let mut late = concluded(run(8, 2, "0123456789", "completed"), "cancelled");
    late.started_at = some("2026-06-29T10:59:00Z");
    late.updated_at = some("2026-06-29T11:30:00Z");
    let runs = vec![
        run(9, 1, "0123456789", "completed"),
        late,
        concluded(run(7, 3, "0123456789", "completed"), "skipped"),
    ];
    let commits = select_settled_commits(&runs, 1);
    assert_eq!(
        job_requests("o/r", &commits[0]),
        vec![
            None,
            some("/repos/o/r/actions/runs/8/jobs?per_page=100"),
            None
        ]
    );
    let jobs = vec![
        vec![job("never", Some("failure"), vec![])],
        vec![
            job("one", Some("failure"), vec![]),
            job("two", Some("timed_out"), vec![]),
        ],
    ];
    let report = build_commit_report("o/r", "trunk", &commits[0], &jobs);
    assert_eq!(report.sha, "0123456");
    assert_eq!(report.title, "Title of 0123456789");
    assert_eq!(report.branch, "trunk");
    assert_eq!(report.event, "push");
    assert_eq!(report.conclusion, Conclusion::Failure);
    assert_eq!(report.url, "https://github.com/o/r/commit/0123456789");
    assert_eq!(report.finished_at, "2026-06-29T11:30:00Z");
    assert_eq!(report.duration_seconds, Some(31 * 60));
    assert_eq!(report.runs.len(), 3);
    assert!(report.runs[0].jobs.is_empty(), "a green run has no jobs");
    assert_eq!(report.runs[1].conclusion, Conclusion::Cancelled);
    let names: Vec<&str> = report.runs[1].jobs.iter().map(|j| j.name.as_str()).collect();
    assert_eq!(names, vec!["one", "two"]);
    assert_eq!(report.runs[2].conclusion, Conclusion::Skipped);
}

#[test]
fn skipped_and_neutral_runs_keep_a_commit_green() {
    let runs = vec![
        run(9, 1, "s", "completed"),
        concluded(run(8, 2, "s", "completed"), "skipped"),
        concluded(run(7, 3, "s", "completed"), "neutral"),
    ];
    let commits = select_settled_commits(&runs, 1);
    assert_eq!(job_requests("o/r", &commits[0]), vec![None, None, None]);
    let report = build_commit_report("o/r", "main", &commits[0], &vec![]);
    assert_eq!(report.conclusion, Conclusion::Success);
    assert!(report.is_success());
}

#[test]
fn a_commit_without_readable_times_keeps_what_its_first_run_says() {
    let mut one = run(1, 1, "s", "completed");
    one.updated_at = some("late");
    let runs = vec![one];
    let commits = select_settled_commits(&runs, 1);
    let report = build_commit_report("o/r", "main", &commits[0], &vec![]);
    assert_eq!(report.finished_at, "late");
    assert_eq!(report.duration_seconds, None);
}

#[test]
fn a_commit_is_reported_with_given_times() {
    let mut second = run(8, 2, "s", "completed");
    second.updated_at = some("second");
    let runs = vec![run(9, 1, "s", "completed"), second];
    let commits = select_settled_commits(&runs, 1);
    let begun = vec![at(100), at(40)];
    let done = vec![at(150), at(151)];
    let report = build_commit_report_at("o/r", "main", &commits[0], &vec![], &begun, &done);
    assert_eq!(report.finished_at, "second");
    assert_eq!(report.duration_seconds, Some(111));
    assert_eq!(report.runs[0].duration_seconds, Some(50));
    assert_eq!(report.runs[1].duration_seconds, Some(111));
    let unknown = vec![None, at(40)];
    let report = build_commit_report_at("o/r", "main", &commits[0], &vec![], &unknown, &begun);
    assert_eq!(report.finished_at, "2026-06-29T11:10:00Z");
    assert_eq!(report.duration_seconds, Some(60));
    assert_eq!(report.runs[0].duration_seconds, None);
    assert_eq!(
        normalize_run_at(&runs[0], &vec![], at(-5), at(5)).duration_seconds,
        Some(10)
    );
}

// --- Requests ------------------------------------------------------------

#[test]
fn requests_ask_for_one_page_of_a_hundred() {
    assert_eq!(repo_request("o/r"), "/repos/o/r");
    assert_eq!(
        branch_runs_request("o/r", "main"),
        "/repos/o/r/actions/runs?branch=main&per_page=100"
    );
    assert_eq!(
        running_runs_request("o/r"),
        "/repos/o/r/actions/runs?status=in_progress&per_page=100"
    );
    assert_eq!(
        jobs_request("o/r", 42),
        "/repos/o/r/actions/runs/42/jobs?per_page=100"
    );
}

// --- Repositories --------------------------------------------------------

#[test]
fn an_error_replaces_the_rest_of_a_repository() {
    let runs = vec![run(4, 1, "s", "in_progress"), run(3, 1, "t", "completed")];
    let active = active_commits("o/r", &runs);
    let report = build_repo_report(
        "o/r",
        Ok(active.clone()),
        Err(GitHubError::NotFound("gone".into())),
    );
    assert_eq!(report.error.as_deref(), Some("not found (404): gone"));
    assert!(report.active.is_empty());
    assert!(report.commits.is_empty());

    let report = build_repo_report(
        "o/r",
        Err(GitHubError::Forbidden("no".into())),
        Err(GitHubError::NotFound("gone".into())),
    );
    assert_eq!(report.error.as_deref(), Some("forbidden (403): no"));

    let report = build_repo_report("o/r", Ok(active), Ok(vec![]));
    assert_eq!(report.error, None);
    assert_eq!(report.active.len(), 1);
}

#[test]
fn sorting_is_stable() {
    let row = |repo: &str, error: &str| RepoReport {
        repo: repo.to_string(),
        active: vec![],
        commits: vec![],
        error: some(error),
    };
    let sorted = sort_reports(vec![row("b", "1"), row("a", "2"), row("b", "3"), row("a", "4")]);
    let errors: Vec<&str> = sorted.iter().map(|r| r.error.as_deref().unwrap()).collect();
    assert_eq!(errors, vec!["2", "4", "1", "3"]);
}
