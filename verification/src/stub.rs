//! A deterministic report that takes every rendering path.

use vstd::prelude::*;

use crate::model::{
    ActiveCommitReport, ActiveCommitView, ActiveRunReport, ActiveRunView, CommitReport, CommitView,
    Conclusion, JobReport, JobView, RepoReport, RepoView, Report, ReportView, RunReport, RunStatus,
    RunView, StepReport, StepView,
};

verus! {

/// The view of the job below.
pub open spec fn stub_job_view() -> JobView {
    JobView {
        name: "test (3.14)"@,
        conclusion: Conclusion::Failure,
        url: "https://github.com/bbugyi200/dotfiles/actions/runs/2002/job/3003"@,
        steps: seq![
            StepView { name: "Run tests"@, number: 5, conclusion: Conclusion::Failure },
        ],
    }
}

/// A job that failed in one step.
fn stub_job() -> (r: JobReport)
    ensures
        r@ == stub_job_view(),
{
    let r = JobReport {
        name: "test (3.14)".to_owned(),
        conclusion: Conclusion::Failure,
        url: "https://github.com/bbugyi200/dotfiles/actions/runs/2002/job/3003".to_owned(),
        steps: vec![
            StepReport {
                name: "Run tests".to_owned(),
                number: 5,
                conclusion: Conclusion::Failure,
            },
        ],
    };
    assert(r@.steps =~= stub_job_view().steps);
    r
}

/// The view of the run below.
pub open spec fn passing_run_view() -> RunView {
    RunView {
        workflow: "CI"@,
        title: "Add list subcommand"@,
        run_number: 42,
        event: "push"@,
        branch: "master"@,
        sha: "a1b2c3d"@,
        conclusion: Conclusion::Success,
        url: "https://github.com/bbugyi200/actstat/actions/runs/1001"@,
        created_at: "2026-06-29T11:50:00Z"@,
        updated_at: "2026-06-29T11:52:30Z"@,
        duration_seconds: Some(150),
        jobs: Seq::empty(),
    }
}

/// A run that passed.
fn passing_run() -> (r: RunReport)
    ensures
        r@ == passing_run_view(),
{
    let r = RunReport {
        workflow: "CI".to_owned(),
        title: "Add list subcommand".to_owned(),
        run_number: 42,
        event: "push".to_owned(),
        branch: "master".to_owned(),
        sha: "a1b2c3d".to_owned(),
        conclusion: Conclusion::Success,
        url: "https://github.com/bbugyi200/actstat/actions/runs/1001".to_owned(),
        created_at: "2026-06-29T11:50:00Z".to_owned(),
        updated_at: "2026-06-29T11:52:30Z".to_owned(),
        duration_seconds: Some(150),
        jobs: Vec::new(),
    };
    assert(r@.jobs =~= passing_run_view().jobs);
    r
}

/// The view of the run below.
pub open spec fn failing_run_view() -> RunView {
    RunView {
        workflow: "CI"@,
        title: "Refactor shell init"@,
        run_number: 128,
        event: "push"@,
        branch: "master"@,
        sha: "9f8e7d6"@,
        conclusion: Conclusion::Failure,
        url: "https://github.com/bbugyi200/dotfiles/actions/runs/2002"@,
        created_at: "2026-06-29T11:40:00Z"@,
        updated_at: "2026-06-29T11:44:10Z"@,
        duration_seconds: Some(250),
        jobs: seq![stub_job_view()],
    }
}

/// A run that failed in one step.
fn failing_run() -> (r: RunReport)
    ensures
        r@ == failing_run_view(),
{
    let r = RunReport {
        workflow: "CI".to_owned(),
        title: "Refactor shell init".to_owned(),
        run_number: 128,
        event: "push".to_owned(),
        branch: "master".to_owned(),
        sha: "9f8e7d6".to_owned(),
        conclusion: Conclusion::Failure,
        url: "https://github.com/bbugyi200/dotfiles/actions/runs/2002".to_owned(),
        created_at: "2026-06-29T11:40:00Z".to_owned(),
        updated_at: "2026-06-29T11:44:10Z".to_owned(),
        duration_seconds: Some(250),
        jobs: vec![stub_job()],
    };
    assert(r@.jobs =~= failing_run_view().jobs);
    r
}

/// The view of the run below.
pub open spec fn sibling_run_view() -> RunView {
    RunView {
        workflow: "Deploy Docs"@,
        title: "Refactor shell init"@,
        run_number: 33,
        event: "push"@,
        branch: "master"@,
        sha: "9f8e7d6"@,
        conclusion: Conclusion::Success,
        url: "https://github.com/bbugyi200/dotfiles/actions/runs/2003"@,
        created_at: "2026-06-29T11:41:00Z"@,
        updated_at: "2026-06-29T11:43:00Z"@,
        duration_seconds: Some(120),
        jobs: Seq::empty(),
    }
}

/// A run that passed on the commit of the failing one.
fn sibling_run() -> (r: RunReport)
    ensures
        r@ == sibling_run_view(),
{
    let r = RunReport {
        workflow: "Deploy Docs".to_owned(),
        title: "Refactor shell init".to_owned(),
        run_number: 33,
        event: "push".to_owned(),
        branch: "master".to_owned(),
        sha: "9f8e7d6".to_owned(),
        conclusion: Conclusion::Success,
        url: "https://github.com/bbugyi200/dotfiles/actions/runs/2003".to_owned(),
        created_at: "2026-06-29T11:41:00Z".to_owned(),
        updated_at: "2026-06-29T11:43:00Z".to_owned(),
        duration_seconds: Some(120),
        jobs: Vec::new(),
    };
    assert(r@.jobs =~= sibling_run_view().jobs);
    r
}

/// The view of the commit below.
pub open spec fn running_commit_view() -> ActiveCommitView {
    ActiveCommitView {
        sha: "f00ba12"@,
        title: "Add progress spinner"@,
        branch: "master"@,
        event: "push"@,
        url: "https://github.com/bbugyi200/actstat/commit/f00ba1234567890"@,
        started_at: "2026-06-29T11:58:40Z"@,
        runs: seq![
            ActiveRunView {
                workflow: "CI"@,
                title: "Add progress spinner"@,
                run_number: 44,
                event: "push"@,
                branch: "master"@,
                sha: "f00ba12"@,
                status: RunStatus::InProgress,
                url: "https://github.com/bbugyi200/actstat/actions/runs/1044"@,
                created_at: "2026-06-29T11:58:35Z"@,
                started_at: Some("2026-06-29T11:58:40Z"@),
            },
        ],
    }
}

/// A commit whose run is executing.
fn running_commit() -> (r: ActiveCommitReport)
    ensures
        r@ == running_commit_view(),
{
    let r = ActiveCommitReport {
        sha: "f00ba12".to_owned(),
        title: "Add progress spinner".to_owned(),
        branch: "master".to_owned(),
        event: "push".to_owned(),
        url: "https://github.com/bbugyi200/actstat/commit/f00ba1234567890".to_owned(),
        started_at: "2026-06-29T11:58:40Z".to_owned(),
        runs: vec![
            ActiveRunReport {
                workflow: "CI".to_owned(),
                title: "Add progress spinner".to_owned(),
                run_number: 44,
                event: "push".to_owned(),
                branch: "master".to_owned(),
                sha: "f00ba12".to_owned(),
                status: RunStatus::InProgress,
                url: "https://github.com/bbugyi200/actstat/actions/runs/1044".to_owned(),
                created_at: "2026-06-29T11:58:35Z".to_owned(),
                started_at: Some("2026-06-29T11:58:40Z".to_owned()),
            },
        ],
    };
    assert(r@.runs =~= running_commit_view().runs);
    r
}

/// The view of the commit below.
pub open spec fn green_commit_view() -> CommitView {
    CommitView {
        sha: "a1b2c3d"@,
        title: "Add list subcommand"@,
        branch: "master"@,
        event: "push"@,
        conclusion: Conclusion::Success,
        url: "https://github.com/bbugyi200/actstat/commit/a1b2c3d4e5f67890"@,
        finished_at: "2026-06-29T11:52:30Z"@,
        duration_seconds: Some(150),
        runs: seq![passing_run_view()],
    }
}

/// A commit with one run, which passed.
fn green_commit() -> (r: CommitReport)
    ensures
        r@ == green_commit_view(),
{
    let r = CommitReport {
        sha: "a1b2c3d".to_owned(),
        title: "Add list subcommand".to_owned(),
        branch: "master".to_owned(),
        event: "push".to_owned(),
        conclusion: Conclusion::Success,
        url: "https://github.com/bbugyi200/actstat/commit/a1b2c3d4e5f67890".to_owned(),
        finished_at: "2026-06-29T11:52:30Z".to_owned(),
        duration_seconds: Some(150),
        runs: vec![passing_run()],
    };
    assert(r@.runs =~= green_commit_view().runs);
    r
}

/// The view of the commit below.
pub open spec fn red_commit_view() -> CommitView {
    CommitView {
        sha: "9f8e7d6"@,
        title: "Refactor shell init"@,
        branch: "master"@,
        event: "push"@,
        conclusion: Conclusion::Failure,
        url: "https://github.com/bbugyi200/dotfiles/commit/9f8e7d6c5b4a3210"@,
        finished_at: "2026-06-29T11:44:10Z"@,
        duration_seconds: Some(250),
        runs: seq![failing_run_view(), sibling_run_view()],
    }
}

/// A commit with a run that failed and one that passed.
fn red_commit() -> (r: CommitReport)
    ensures
        r@ == red_commit_view(),
{
    let r = CommitReport {
        sha: "9f8e7d6".to_owned(),
        title: "Refactor shell init".to_owned(),
        branch: "master".to_owned(),
        event: "push".to_owned(),
        conclusion: Conclusion::Failure,
        url: "https://github.com/bbugyi200/dotfiles/commit/9f8e7d6c5b4a3210".to_owned(),
        finished_at: "2026-06-29T11:44:10Z".to_owned(),
        duration_seconds: Some(250),
        runs: vec![failing_run(), sibling_run()],
    };
    assert(r@.runs =~= red_commit_view().runs);
    r
}

/// The view of the report below.
pub open spec fn stub_view(limit: u32) -> ReportView {
    ReportView {
        generated_at: "2026-06-29T12:00:00Z"@,
        limit,
        repos: seq![
            RepoView {
                repo: "bbugyi200/actstat"@,
                active: seq![running_commit_view()],
                commits: seq![green_commit_view()],
                error: None,
            },
            RepoView {
                repo: "bbugyi200/dotfiles"@,
                active: Seq::empty(),
                commits: seq![red_commit_view()],
                error: None,
            },
            RepoView {
                repo: "bobs-org/locked"@,
                active: Seq::empty(),
                commits: Seq::empty(),
                error: Some("403 Forbidden (token lacks access)"@),
            },
        ],
    }
}

impl Report {
    /// A deterministic report without any network access: a running commit,
    /// a green one, a red one with a passing sibling run, and a repository
    /// that could not be read.
    pub fn stub(limit: u32) -> (r: Self)
        ensures
            r@ == stub_view(limit),
    {
        let actstat = RepoReport {
            repo: "bbugyi200/actstat".to_owned(),
            active: vec![running_commit()],
            commits: vec![green_commit()],
            error: None,
        };
        assert(actstat@ =~~= stub_view(limit).repos[0]);
        let dotfiles = RepoReport {
            repo: "bbugyi200/dotfiles".to_owned(),
            active: Vec::new(),
            commits: vec![red_commit()],
            error: None,
        };
        assert(dotfiles@ =~~= stub_view(limit).repos[1]);
        let locked = RepoReport {
            repo: "bobs-org/locked".to_owned(),
            active: Vec::new(),
            commits: Vec::new(),
            error: Some("403 Forbidden (token lacks access)".to_owned()),
        };
        assert(locked@ =~~= stub_view(limit).repos[2]);
        let r = Report {
            generated_at: "2026-06-29T12:00:00Z".to_owned(),
            limit,
            repos: vec![actstat, dotfiles, locked],
        };
        assert(r@.repos =~= stub_view(limit).repos);
        r
    }
}

} // verus!
