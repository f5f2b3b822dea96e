//! The one result tree that every output format is rendered from.
//!
//! `Report -> RepoReport -> ActiveCommitReport -> ActiveRunReport` holds what
//! is running now; `Report -> RepoReport -> CommitReport -> RunReport ->
//! JobReport -> StepReport` holds what has settled.

use vstd::prelude::*;

use crate::text;

verus! {

/// The terminal conclusion of a run, a job or a step.
#[derive(Debug, Clone, Copy, PartialEq, Eq, Structural)]
pub enum Conclusion {
    /// It passed.
    Success,
    /// It failed.
    Failure,
    /// It was cancelled.
    Cancelled,
    /// It timed out.
    TimedOut,
    /// It waits for a manual action.
    ActionRequired,
    /// It failed before any job ran.
    StartupFailure,
    /// It was skipped.
    Skipped,
    /// It neither passed nor failed.
    Neutral,
    /// It went stale.
    Stale,
}

/// The status of a run that has not completed.
#[derive(Debug, Clone, Copy, PartialEq, Eq, Structural)]
pub enum RunStatus {
    /// The run is executing.
    InProgress,
}

/// A problem step of a job.
#[derive(Debug, Clone, PartialEq, Eq)]
pub struct StepReport {
    /// Step name.
    pub name: String,
    /// Number of the step in its job, from 1.
    pub number: u64,
    /// The step's conclusion.
    pub conclusion: Conclusion,
}

/// A problem job of a run.
#[derive(Debug, Clone, PartialEq, Eq)]
pub struct JobReport {
    /// Job name.
    pub name: String,
    /// The job's conclusion.
    pub conclusion: Conclusion,
    /// Direct URL to the job log.
    pub url: String,
    /// The problem steps.
    pub steps: Vec<StepReport>,
}

/// A completed workflow run.
#[derive(Debug, Clone, PartialEq, Eq)]
pub struct RunReport {
    /// Workflow name.
    pub workflow: String,
    /// Display title: the commit message or the pull request's title.
    pub title: String,
    /// Number of the run in its workflow.
    pub run_number: u64,
    /// Triggering event.
    pub event: String,
    /// Head branch.
    pub branch: String,
    /// Head SHA, shortened to seven characters.
    pub sha: String,
    /// Terminal conclusion.
    pub conclusion: Conclusion,
    /// Direct URL to the run.
    pub url: String,
    /// When the run was created (RFC 3339).
    pub created_at: String,
    /// When the run finished (RFC 3339).
    pub updated_at: String,
    /// Wall-clock duration, where the timestamps give one.
    pub duration_seconds: Option<u64>,
    /// The problem jobs; empty for a run that is no problem.
    pub jobs: Vec<JobReport>,
}

/// A commit all of whose runs have completed.
#[derive(Debug, Clone, PartialEq, Eq)]
pub struct CommitReport {
    /// Commit SHA, shortened to seven characters.
    pub sha: String,
    /// Commit title.
    pub title: String,
    /// Branch of the runs.
    pub branch: String,
    /// Triggering event.
    pub event: String,
    /// `Success` for a green commit, `Failure` for a red one.
    pub conclusion: Conclusion,
    /// Direct URL to the commit.
    pub url: String,
    /// When the last of the runs finished (RFC 3339).
    pub finished_at: String,
    /// From the earliest start to the latest finish, where the timestamps
    /// give one.
    pub duration_seconds: Option<u64>,
    /// The commit's runs, one for each workflow.
    pub runs: Vec<RunReport>,
}

/// A workflow run that is executing.
#[derive(Debug, Clone, PartialEq, Eq)]
pub struct ActiveRunReport {
    /// Workflow name.
    pub workflow: String,
    /// Display title.
    pub title: String,
    /// Number of the run in its workflow.
    pub run_number: u64,
    /// Triggering event.
    pub event: String,
    /// Head branch.
    pub branch: String,
    /// Head SHA, shortened to seven characters.
    pub sha: String,
    /// Current status.
    pub status: RunStatus,
    /// Direct URL to the live run.
    pub url: String,
    /// When the run was created (RFC 3339).
    pub created_at: String,
    /// When the run started (RFC 3339), where it is known.
    pub started_at: Option<String>,
}

/// A commit with an executing run.
#[derive(Debug, Clone, PartialEq, Eq)]
pub struct ActiveCommitReport {
    /// Commit SHA, shortened to seven characters.
    pub sha: String,
    /// Commit title.
    pub title: String,
    /// Branch of the run.
    pub branch: String,
    /// Triggering event.
    pub event: String,
    /// Direct URL to the commit.
    pub url: String,
    /// When the run started (RFC 3339).
    pub started_at: String,
    /// The executing runs.
    pub runs: Vec<ActiveRunReport>,
}

/// What was found for one repository, or why nothing could be.
#[derive(Debug, Clone, PartialEq, Eq)]
pub struct RepoReport {
    /// `owner/name`.
    pub repo: String,
    /// The commit that is running, if any.
    pub active: Vec<ActiveCommitReport>,
    /// The settled commits, newest first.
    pub commits: Vec<CommitReport>,
    /// Why collection failed.
    pub error: Option<String>,
}

/// The whole report.
#[derive(Debug, Clone, PartialEq, Eq)]
pub struct Report {
    /// When the report was made (RFC 3339).
    pub generated_at: String,
    /// How many settled commits were asked for per repository.
    pub limit: u32,
    /// The repositories, in alphabetical order.
    pub repos: Vec<RepoReport>,
}

/// The view of a [`StepReport`].
#[verifier::ext_equal]
pub struct StepView {
    pub name: Seq<char>,
    pub number: u64,
    pub conclusion: Conclusion,
}

/// The view of a [`JobReport`].
#[verifier::ext_equal]
pub struct JobView {
    pub name: Seq<char>,
    pub conclusion: Conclusion,
    pub url: Seq<char>,
    pub steps: Seq<StepView>,
}

/// The view of a [`RunReport`].
#[verifier::ext_equal]
pub struct RunView {
    pub workflow: Seq<char>,
    pub title: Seq<char>,
    pub run_number: u64,
    pub event: Seq<char>,
    pub branch: Seq<char>,
    pub sha: Seq<char>,
    pub conclusion: Conclusion,
    pub url: Seq<char>,
    pub created_at: Seq<char>,
    pub updated_at: Seq<char>,
    pub duration_seconds: Option<u64>,
    pub jobs: Seq<JobView>,
}

/// The view of a [`CommitReport`].
#[verifier::ext_equal]
pub struct CommitView {
    pub sha: Seq<char>,
    pub title: Seq<char>,
    pub branch: Seq<char>,
    pub event: Seq<char>,
    pub conclusion: Conclusion,
    pub url: Seq<char>,
    pub finished_at: Seq<char>,
    pub duration_seconds: Option<u64>,
    pub runs: Seq<RunView>,
}

/// The view of an [`ActiveRunReport`].
#[verifier::ext_equal]
pub struct ActiveRunView {
    pub workflow: Seq<char>,
    pub title: Seq<char>,
    pub run_number: u64,
    pub event: Seq<char>,
    pub branch: Seq<char>,
    pub sha: Seq<char>,
    pub status: RunStatus,
    pub url: Seq<char>,
    pub created_at: Seq<char>,
    pub started_at: Option<Seq<char>>,
}

/// The view of an [`ActiveCommitReport`].
#[verifier::ext_equal]
pub struct ActiveCommitView {
    pub sha: Seq<char>,
    pub title: Seq<char>,
    pub branch: Seq<char>,
    pub event: Seq<char>,
    pub url: Seq<char>,
    pub started_at: Seq<char>,
    pub runs: Seq<ActiveRunView>,
}

/// The view of a [`RepoReport`].
#[verifier::ext_equal]
pub struct RepoView {
    pub repo: Seq<char>,
    pub active: Seq<ActiveCommitView>,
    pub commits: Seq<CommitView>,
    pub error: Option<Seq<char>>,
}

/// The view of a [`Report`].
#[verifier::ext_equal]
pub struct ReportView {
    pub generated_at: Seq<char>,
    pub limit: u32,
    pub repos: Seq<RepoView>,
}

impl View for StepReport {
    type V = StepView;

    open spec fn view(&self) -> StepView {
        StepView { name: self.name@, number: self.number, conclusion: self.conclusion }
    }
}

impl View for JobReport {
    type V = JobView;

    open spec fn view(&self) -> JobView {
        JobView {
            name: self.name@,
            conclusion: self.conclusion,
            url: self.url@,
            steps: self.steps@.map_values(|s: StepReport| s@),
        }
    }
}

impl View for RunReport {
    type V = RunView;

    open spec fn view(&self) -> RunView {
        RunView {
            workflow: self.workflow@,
            title: self.title@,
            run_number: self.run_number,
            event: self.event@,
            branch: self.branch@,
            sha: self.sha@,
            conclusion: self.conclusion,
            url: self.url@,
            created_at: self.created_at@,
            updated_at: self.updated_at@,
            duration_seconds: self.duration_seconds,
            jobs: self.jobs@.map_values(|j: JobReport| j@),
        }
    }
}

impl View for CommitReport {
    type V = CommitView;

    open spec fn view(&self) -> CommitView {
        CommitView {
            sha: self.sha@,
            title: self.title@,
            branch: self.branch@,
            event: self.event@,
            conclusion: self.conclusion,
            url: self.url@,
            finished_at: self.finished_at@,
            duration_seconds: self.duration_seconds,
            runs: self.runs@.map_values(|r: RunReport| r@),
        }
    }
}

impl View for ActiveRunReport {
    type V = ActiveRunView;

    open spec fn view(&self) -> ActiveRunView {
        ActiveRunView {
            workflow: self.workflow@,
            title: self.title@,
            run_number: self.run_number,
            event: self.event@,
            branch: self.branch@,
            sha: self.sha@,
            status: self.status,
            url: self.url@,
            created_at: self.created_at@,
            started_at: text::option_view(self.started_at),
        }
    }
}

impl View for ActiveCommitReport {
    type V = ActiveCommitView;

    open spec fn view(&self) -> ActiveCommitView {
        ActiveCommitView {
            sha: self.sha@,
            title: self.title@,
            branch: self.branch@,
            event: self.event@,
            url: self.url@,
            started_at: self.started_at@,
            runs: self.runs@.map_values(|r: ActiveRunReport| r@),
        }
    }
}

impl View for RepoReport {
    type V = RepoView;

    open spec fn view(&self) -> RepoView {
        RepoView {
            repo: self.repo@,
            active: self.active@.map_values(|c: ActiveCommitReport| c@),
            commits: self.commits@.map_values(|c: CommitReport| c@),
            error: text::option_view(self.error),
        }
    }
}

impl View for Report {
    type V = ReportView;

    open spec fn view(&self) -> ReportView {
        ReportView {
            generated_at: self.generated_at@,
            limit: self.limit,
            repos: repo_views(self.repos@),
        }
    }
}

/// The views of a sequence of repositories' reports.
pub open spec fn repo_views(repos: Seq<RepoReport>) -> Seq<RepoView> {
    repos.map_values(|r: RepoReport| r@)
}

impl Conclusion {
    /// Whether this is the conclusion of something that passed.
    pub open spec fn passes(self) -> bool {
        self == Conclusion::Success
    }

    /// Whether this conclusion needs attention: all but success, skipped and
    /// neutral.
    pub open spec fn needs_attention(self) -> bool {
        !(self == Conclusion::Success || self == Conclusion::Skipped || self
            == Conclusion::Neutral)
    }

    /// The stable lower-case label.
    pub open spec fn label_text(self) -> Seq<char> {
        match self {
            Conclusion::Success => "success"@,
            Conclusion::Failure => "failure"@,
            Conclusion::Cancelled => "cancelled"@,
            Conclusion::TimedOut => "timed_out"@,
            Conclusion::ActionRequired => "action_required"@,
            Conclusion::StartupFailure => "startup_failure"@,
            Conclusion::Skipped => "skipped"@,
            Conclusion::Neutral => "neutral"@,
            Conclusion::Stale => "stale"@,
        }
    }

    /// The status glyph.
    pub open spec fn icon_text(self) -> Seq<char> {
        match self {
            Conclusion::Success => "✔"@,
            Conclusion::Failure | Conclusion::StartupFailure => "✘"@,
            Conclusion::TimedOut => "⏱"@,
            Conclusion::Cancelled | Conclusion::Stale => "⊘"@,
            Conclusion::ActionRequired => "⚑"@,
            Conclusion::Skipped | Conclusion::Neutral => "•"@,
        }
    }

    /// Whether this is the conclusion of something that passed.
    pub fn is_success(&self) -> (r: bool)
        ensures
            r == self.passes(),
    {
        matches!(self, Conclusion::Success)
    }

    /// Whether this conclusion needs attention.
    pub fn is_problem(&self) -> (r: bool)
        ensures
            r == self.needs_attention(),
    {
        !matches!(self, Conclusion::Success | Conclusion::Skipped | Conclusion::Neutral)
    }

    /// A short, stable, lower-case label.
    pub fn label(&self) -> (r: &'static str)
        ensures
            r@ == self.label_text(),
    {
        match self {
            Conclusion::Success => "success",
            Conclusion::Failure => "failure",
            Conclusion::Cancelled => "cancelled",
            Conclusion::TimedOut => "timed_out",
            Conclusion::ActionRequired => "action_required",
            Conclusion::StartupFailure => "startup_failure",
            Conclusion::Skipped => "skipped",
            Conclusion::Neutral => "neutral",
            Conclusion::Stale => "stale",
        }
    }

    /// A single status glyph for human output.
    pub fn icon(&self) -> (r: &'static str)
        ensures
            r@ == self.icon_text(),
    {
        match self {
            Conclusion::Success => "✔",
            Conclusion::Failure | Conclusion::StartupFailure => "✘",
            Conclusion::TimedOut => "⏱",
            Conclusion::Cancelled | Conclusion::Stale => "⊘",
            Conclusion::ActionRequired => "⚑",
            Conclusion::Skipped | Conclusion::Neutral => "•",
        }
    }

    /// The conclusion that GitHub writes as `text`. An unknown or absent one
    /// is a failure, so that it never passes unseen.
    pub open spec fn named(text: Option<Seq<char>>) -> Conclusion {
        match text {
            None => Conclusion::Failure,
            Some(t) => if t == "success"@ {
                Conclusion::Success
            } else if t == "cancelled"@ {
                Conclusion::Cancelled
            } else if t == "timed_out"@ {
                Conclusion::TimedOut
            } else if t == "action_required"@ {
                Conclusion::ActionRequired
            } else if t == "startup_failure"@ {
                Conclusion::StartupFailure
            } else if t == "skipped"@ {
                Conclusion::Skipped
            } else if t == "neutral"@ {
                Conclusion::Neutral
            } else if t == "stale"@ {
                Conclusion::Stale
            } else {
                Conclusion::Failure
            },
        }
    }

    /// The conclusion that GitHub writes as `text`.
    pub fn from_github(text: &Option<String>) -> (r: Conclusion)
        ensures
            r == Conclusion::named(text::option_view(*text)),
    {
        match text {
            None => Conclusion::Failure,
            Some(t) => {
                let t: &str = t.as_str();
                if text::same(t, "success") {
                    Conclusion::Success
                } else if text::same(t, "cancelled") {
                    Conclusion::Cancelled
                } else if text::same(t, "timed_out") {
                    Conclusion::TimedOut
                } else if text::same(t, "action_required") {
                    Conclusion::ActionRequired
                } else if text::same(t, "startup_failure") {
                    Conclusion::StartupFailure
                } else if text::same(t, "skipped") {
                    Conclusion::Skipped
                } else if text::same(t, "neutral") {
                    Conclusion::Neutral
                } else if text::same(t, "stale") {
                    Conclusion::Stale
                } else {
                    Conclusion::Failure
                }
            },
        }
    }
}

impl RunStatus {
    /// The label that GitHub uses.
    pub open spec fn label_text(self) -> Seq<char> {
        "in_progress"@
    }

    /// The status glyph.
    pub open spec fn icon_text(self) -> Seq<char> {
        "↻"@
    }

    /// The label that GitHub uses.
    pub fn label(&self) -> (r: &'static str)
        ensures
            r@ == self.label_text(),
    {
        match self {
            RunStatus::InProgress => "in_progress",
        }
    }

    /// A single status glyph for human output.
    pub fn icon(&self) -> (r: &'static str)
        ensures
            r@ == self.icon_text(),
    {
        match self {
            RunStatus::InProgress => "↻",
        }
    }
}

impl ActiveCommitReport {
    /// The state of the commit as a whole: a reported run is always running.
    pub fn rollup_label(&self) -> (r: &'static str)
        ensures
            r@ == "running"@,
    {
        "running"
    }
}

impl RunReport {
    /// Whether this run passed.
    pub fn is_success(&self) -> (r: bool)
        ensures
            r == self.conclusion.passes(),
    {
        self.conclusion.is_success()
    }

    /// Whether this run needs attention.
    pub fn is_problem(&self) -> (r: bool)
        ensures
            r == self.conclusion.needs_attention(),
    {
        self.conclusion.is_problem()
    }
}

impl CommitReport {
    /// Whether this commit is green.
    pub fn is_success(&self) -> (r: bool)
        ensures
            r == self.conclusion.passes(),
    {
        self.conclusion.is_success()
    }
}

impl RepoView {
    /// Whether a settled commit is red.
    pub open spec fn fails(self) -> bool {
        exists|i: int|
            0 <= i < self.commits.len() && !(#[trigger] self.commits[i]).conclusion.passes()
    }
}

impl RepoReport {
    /// Whether this repository has a red settled commit.
    pub fn has_failures(&self) -> (r: bool)
        ensures
            r == self@.fails(),
    {
        for i in 0..self.commits.len()
            invariant
                forall|k: int| 0 <= k < i ==> (#[trigger] self@.commits[k]).conclusion.passes(),
        {
            if !self.commits[i].is_success() {
                assert(!self@.commits[i as int].conclusion.passes());
                return true;
            }
        }
        false
    }
}

impl ReportView {
    /// Whether a settled commit of some repository is red.
    pub open spec fn fails(self) -> bool {
        exists|i: int| 0 <= i < self.repos.len() && (#[trigger] self.repos[i]).fails()
    }
}

impl Report {
    /// Whether a settled commit of some repository is red. A running commit
    /// never counts.
    pub fn has_failures(&self) -> (r: bool)
        ensures
            r == self@.fails(),
    {
        for i in 0..self.repos.len()
            invariant
                forall|k: int| 0 <= k < i ==> !(#[trigger] self@.repos[k]).fails(),
        {
            if self.repos[i].has_failures() {
                assert(self@.repos[i as int].fails());
                return true;
            }
        }
        false
    }
}

} // verus!
