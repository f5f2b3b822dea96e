//! Laws of the views: each shows every field as it is.

use vstd::prelude::*;

use crate::collect::{ApiJob, ApiRun, ApiStep, SelectedCommit};
use crate::config::{Config, OrgSource, ProjectSource, ProjectView, RawProject, RepoName};
use crate::github::{ApiRepo, DiscoveredToken, SourceView, TokenSource};
use crate::model::{
    ActiveCommitReport, ActiveRunReport, CommitReport, JobReport, RepoReport, Report, RunReport,
    StepReport,
};

verus! {

/// Whether `shown` is the optional text `text`.
pub open spec fn shows_option(shown: Option<Seq<char>>, text: Option<String>) -> bool {
    match text {
        Some(t) => shown == Some(t@),
        None => shown is None,
    }
}

/// The view of a listed run shows all of it.
pub proof fn listed_runs_are_seen_whole(run: ApiRun)
    ensures
        run@.id == run.id,
        run@.workflow_id == run.workflow_id,
        shows_option(run@.name, run.name),
        shows_option(run@.title, run.title),
        run@.run_number == run.run_number,
        shows_option(run@.event, run.event),
        shows_option(run@.branch, run.branch),
        run@.sha == run.sha@,
        shows_option(run@.status, run.status),
        shows_option(run@.conclusion, run.conclusion),
        shows_option(run@.url, run.url),
        shows_option(run@.created_at, run.created_at),
        shows_option(run@.updated_at, run.updated_at),
        shows_option(run@.started_at, run.started_at),
{
}

/// The view of a selected commit shows its SHA and its runs, in order.
pub proof fn selected_commits_are_seen_whole(commit: SelectedCommit, i: int)
    requires
        0 <= i < commit.runs@.len(),
    ensures
        commit@.sha == commit.sha@,
        commit@.runs.len() == commit.runs@.len(),
        commit@.runs[i] == commit.runs@[i]@,
{
}

/// The views of a listed job and of a listed step show all of them.
pub proof fn listed_jobs_are_seen_whole(job: ApiJob, i: int, step: ApiStep)
    requires
        0 <= i < job.steps@.len(),
    ensures
        shows_option(job@.name, job.name),
        shows_option(job@.conclusion, job.conclusion),
        shows_option(job@.url, job.url),
        job@.steps.len() == job.steps@.len(),
        job@.steps[i] == job.steps@[i]@,
        shows_option(step@.name, step.name),
        step@.number == step.number,
        shows_option(step@.conclusion, step.conclusion),
{
}

/// The view of a listed repository shows all of it.
pub proof fn listed_repositories_are_seen_whole(repo: ApiRepo)
    ensures
        repo@.name == repo.name@,
        repo@.owner == repo.owner@,
        repo@.archived == repo.archived,
        repo@.fork == repo.fork,
{
}

/// The view of a token shows it, and where it came from.
pub proof fn tokens_are_seen_whole(token: DiscoveredToken)
    ensures
        shows_option(token@.token, token.token),
        match token.source {
            TokenSource::Env(name) => token@.source == SourceView::Env(name@),
            TokenSource::GhCli => token@.source == SourceView::GhCli,
            TokenSource::Unauthenticated => token@.source == SourceView::Unauthenticated,
        },
{
}

/// The views of a configuration and of its sources show all of them, in order.
pub proof fn sources_are_seen_whole(config: Config, i: int, org: OrgSource, k: int, name: RepoName)
    requires
        0 <= i < config.projects@.len(),
        0 <= k < org.exclude@.len(),
    ensures
        config@.len() == config.projects@.len(),
        match config.projects@[i] {
            ProjectSource::Org(source) => config@[i] == ProjectView::Org(source@),
            ProjectSource::Repo(repo) => config@[i] == ProjectView::Repo(repo@),
        },
        org@.org == org.org@,
        org@.include_archived == org.include_archived,
        org@.include_forks == org.include_forks,
        org@.exclude.len() == org.exclude@.len(),
        org@.exclude[k] == org.exclude@[k]@,
        name@.owner == name.owner@,
        name@.name == name.name@,
{
}

/// The view of an entry as it is written shows all of it.
pub proof fn written_entries_are_seen_whole(raw: RawProject)
    ensures
        shows_option(raw@.org, raw.org),
        shows_option(raw@.repo, raw.repo),
        raw@.include_archived == raw.include_archived,
        raw@.include_forks == raw.include_forks,
        raw@.exclude is Some <==> raw.exclude is Some,
        raw.exclude matches Some(list) ==> raw@.exclude->0.len() == list@.len() && forall|i: int|
            0 <= i < list@.len() ==> #[trigger] raw@.exclude->0[i] == list@[i]@,
{
}

/// The views of a reported job and of a reported step show all of them.
pub proof fn reported_jobs_are_seen_whole(job: JobReport, i: int, step: StepReport)
    requires
        0 <= i < job.steps@.len(),
    ensures
        job@.name == job.name@,
        job@.conclusion == job.conclusion,
        job@.url == job.url@,
        job@.steps.len() == job.steps@.len(),
        job@.steps[i] == job.steps@[i]@,
        step@.name == step.name@,
        step@.number == step.number,
        step@.conclusion == step.conclusion,
{
}

/// The view of a reported run shows all of it.
pub proof fn reported_runs_are_seen_whole(run: RunReport, i: int)
    ensures
        run@.workflow == run.workflow@,
        run@.title == run.title@,
        run@.run_number == run.run_number,
        run@.event == run.event@,
        run@.branch == run.branch@,
        run@.sha == run.sha@,
        run@.conclusion == run.conclusion,
        run@.url == run.url@,
        run@.created_at == run.created_at@,
        run@.updated_at == run.updated_at@,
        run@.duration_seconds == run.duration_seconds,
        run@.jobs.len() == run.jobs@.len(),
        0 <= i < run.jobs@.len() ==> run@.jobs[i] == run.jobs@[i]@,
{
}

/// The view of a reported commit shows all of it.
pub proof fn reported_commits_are_seen_whole(commit: CommitReport, i: int)
    ensures
        commit@.sha == commit.sha@,
        commit@.title == commit.title@,
        commit@.branch == commit.branch@,
        commit@.event == commit.event@,
        commit@.conclusion == commit.conclusion,
        commit@.url == commit.url@,
        commit@.finished_at == commit.finished_at@,
        commit@.duration_seconds == commit.duration_seconds,
        commit@.runs.len() == commit.runs@.len(),
        0 <= i < commit.runs@.len() ==> commit@.runs[i] == commit.runs@[i]@,
{
}

/// The views of a reported active commit and of its runs show all of them.
pub proof fn active_commits_are_seen_whole(commit: ActiveCommitReport, i: int, run: ActiveRunReport)
    ensures
        commit@.sha == commit.sha@,
        commit@.title == commit.title@,
        commit@.branch == commit.branch@,
        commit@.event == commit.event@,
        commit@.url == commit.url@,
        commit@.started_at == commit.started_at@,
        commit@.runs.len() == commit.runs@.len(),
        0 <= i < commit.runs@.len() ==> commit@.runs[i] == commit.runs@[i]@,
        run@.workflow == run.workflow@,
        run@.title == run.title@,
        run@.run_number == run.run_number,
        run@.event == run.event@,
        run@.branch == run.branch@,
        run@.sha == run.sha@,
        run@.status == run.status,
        run@.url == run.url@,
        run@.created_at == run.created_at@,
        shows_option(run@.started_at, run.started_at),
{
}

/// The views of a report and of its rows show all of them, in order.
pub proof fn reports_are_seen_whole(report: Report, r: int, repo: RepoReport, i: int)
    ensures
        report@.generated_at == report.generated_at@,
        report@.limit == report.limit,
        report@.repos.len() == report.repos@.len(),
        0 <= r < report.repos@.len() ==> report@.repos[r] == report.repos@[r]@,
        repo@.repo == repo.repo@,
        shows_option(repo@.error, repo.error),
        repo@.active.len() == repo.active@.len(),
        0 <= i < repo.active@.len() ==> repo@.active[i] == repo.active@[i]@,
        repo@.commits.len() == repo.commits@.len(),
        0 <= i < repo.commits@.len() ==> repo@.commits[i] == repo.commits@[i]@,
{
}

} // verus!
