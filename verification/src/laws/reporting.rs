//! Laws of reports and of what follows from them.

use vstd::prelude::*;

use crate::cli;
use crate::collect;
use crate::collect::{ApiJobView, ApiRunView, ApiStepView, SelectedView};
use crate::github::GitHubErrorView;
use crate::model::{
    ActiveCommitView, CommitView, Conclusion, JobView, RepoView, ReportView, StepView,
};
use crate::order;

verus! {

/// A settled commit is green exactly when each of its runs concluded with
/// success, skipped or neutral; otherwise its conclusion is failure.
pub proof fn a_commit_is_green_when_all_its_runs_are(
    repo: Seq<char>,
    branch: Seq<char>,
    commit: SelectedView,
    jobs: Seq<Seq<ApiJobView>>,
)
    ensures
        ({
            let report = collect::commit_report(repo, branch, commit, jobs);
            &&& report.conclusion == Conclusion::Success || report.conclusion
                == Conclusion::Failure
            &&& report.conclusion.passes() <==> forall|i: int|
                0 <= i < report.runs.len() ==> ((#[trigger] report.runs[i]).conclusion
                    == Conclusion::Success || report.runs[i].conclusion == Conclusion::Skipped
                    || report.runs[i].conclusion == Conclusion::Neutral)
        }),
{
    let report = collect::commit_report(repo, branch, commit, jobs);
    assert forall|i: int| 0 <= i < commit.runs.len() implies (#[trigger] report.runs[i]).conclusion
        == Conclusion::named(commit.runs[i].conclusion) by {}
    if collect::any_problem(commit.runs) {
        let i = choose|i: int|
            0 <= i < commit.runs.len() && Conclusion::named(
                (#[trigger] commit.runs[i]).conclusion,
            ).needs_attention();
        assert(report.runs[i].conclusion.needs_attention());
    } else {
        assert forall|i: int| 0 <= i < report.runs.len() implies ((
        #[trigger] report.runs[i]).conclusion == Conclusion::Success || report.runs[i].conclusion
            == Conclusion::Skipped || report.runs[i].conclusion == Conclusion::Neutral) by {
            assert(!Conclusion::named(commit.runs[i].conclusion).needs_attention());
        }
    }
}

/// An unknown or absent conclusion never passes unseen.
pub proof fn unknown_conclusions_fail(text: Option<Seq<char>>)
    requires
        text matches Some(t) ==> t != "success"@ && t != "skipped"@ && t != "neutral"@,
    ensures
        Conclusion::named(text).needs_attention(),
{
}

/// Every conclusion is read back from its label.
pub proof fn conclusions_are_read_back(conclusion: Conclusion)
    ensures
        Conclusion::named(Some(conclusion.label_text())) == conclusion,
{
    reveal_strlit("success");
    reveal_strlit("failure");
    reveal_strlit("cancelled");
    reveal_strlit("timed_out");
    reveal_strlit("action_required");
    reveal_strlit("startup_failure");
    reveal_strlit("skipped");
    reveal_strlit("neutral");
    reveal_strlit("stale");
    assert("success"@.len() == 7 && "failure"@.len() == 7 && "skipped"@.len() == 7
        && "neutral"@.len() == 7);
    assert("cancelled"@.len() == 9 && "timed_out"@.len() == 9 && "stale"@.len() == 5);
    assert("action_required"@.len() == 15 && "startup_failure"@.len() == 15);
    assert("success"@[1] == 'u' && "skipped"@[1] == 'k');
    assert("success"@[0] == 's' && "skipped"@[0] == 's');
    assert("failure"@[0] == 'f' && "neutral"@[0] == 'n');
    assert("cancelled"@[0] == 'c' && "timed_out"@[0] == 't');
    assert("action_required"@[0] == 'a' && "startup_failure"@[0] == 's');
}

/// Of a problem run only problem jobs are reported, and of them only problem
/// steps.
pub proof fn only_problem_jobs_are_reported(jobs: Seq<ApiJobView>)
    ensures
        forall|i: int|
            #![trigger collect::problem_jobs(jobs)[i]]
            0 <= i < collect::problem_jobs(jobs).len() ==> collect::problem_jobs(
                jobs,
            )[i].conclusion.needs_attention() && forall|k: int|
                0 <= k < collect::problem_jobs(jobs)[i].steps.len() ==> (
                #[trigger] collect::problem_jobs(jobs)[i].steps[k]).conclusion.needs_attention(),
    decreases jobs.len(),
{
    if jobs.len() > 0 {
        only_problem_jobs_are_reported(jobs.drop_last());
        lemma_only_problem_steps(jobs.last().steps);
    }
}

proof fn lemma_only_problem_steps(steps: Seq<ApiStepView>)
    ensures
        forall|i: int|
            0 <= i < collect::problem_steps(steps).len() ==> (#[trigger] collect::problem_steps(
                steps,
            )[i]).conclusion.needs_attention(),
    decreases steps.len(),
{
    if steps.len() > 0 {
        lemma_only_problem_steps(steps.drop_last());
    }
}

/// Every problem job is reported.
pub proof fn every_problem_job_is_reported(jobs: Seq<ApiJobView>, k: int)
    requires
        0 <= k < jobs.len(),
        Conclusion::named(jobs[k].conclusion).needs_attention(),
    ensures
        collect::problem_jobs(jobs).contains(
            JobView {
                name: collect::or_empty(jobs[k].name),
                conclusion: Conclusion::named(jobs[k].conclusion),
                url: collect::or_empty(jobs[k].url),
                steps: collect::problem_steps(jobs[k].steps),
            },
        ),
    decreases jobs.len(),
{
    let job = JobView {
        name: collect::or_empty(jobs[k].name),
        conclusion: Conclusion::named(jobs[k].conclusion),
        url: collect::or_empty(jobs[k].url),
        steps: collect::problem_steps(jobs[k].steps),
    };
    let all = collect::problem_jobs(jobs);
    if k == jobs.len() - 1 {
        assert(all[all.len() - 1] == job);
    } else {
        let init = jobs.drop_last();
        assert(init[k] == jobs[k]);
        every_problem_job_is_reported(init, k);
        let before = collect::problem_jobs(init);
        let i = choose|i: int| 0 <= i < before.len() && before[i] == job;
        assert(all[i] == job);
    }
}

/// At most one commit is reported as running, with exactly one run.
pub proof fn at_most_one_run_is_running(
    repo: Seq<char>,
    runs: Seq<ApiRunView>,
    section: Seq<ActiveCommitView>,
)
    requires
        collect::is_active_section(repo, runs, section),
    ensures
        section.len() <= 1,
        section.len() == 1 ==> section[0].runs.len() == 1,
        section.len() == 0 <==> forall|j: int|
            0 <= j < runs.len() ==> (#[trigger] runs[j]).status != Some("in_progress"@),
{
    if section.len() != 0 {
        let i = choose|i: int|
            collect::is_newest(collect::contenders(runs), i) && section == seq![
                collect::active_report(repo, #[trigger] runs[i]),
            ];
        assert(collect::contenders(runs)[i].running);
        assert(runs[i].status == Some("in_progress"@));
    }
}

/// A repository that could not be collected is reported by its error alone.
pub proof fn errors_stand_alone(
    repo: Seq<char>,
    active: Result<Seq<ActiveCommitView>, GitHubErrorView>,
    commits: Result<Seq<CommitView>, GitHubErrorView>,
)
    ensures
        ({
            let report = collect::repo_report(repo, active, commits);
            &&& report.repo == repo
            &&& report.error is Some <==> active is Err || commits is Err
            &&& report.error is Some ==> report.active.len() == 0 && report.commits.len() == 0
            &&& !report.fails() || report.error is None
        }),
{
}

/// What is running has no say in the exit code.
pub proof fn running_work_never_changes_the_exit_code(
    a: ReportView,
    b: ReportView,
    fail_on_failure: bool,
)
    requires
        a.repos.len() == b.repos.len(),
        forall|i: int|
            0 <= i < a.repos.len() ==> (#[trigger] a.repos[i]).commits == (
            #[trigger] b.repos[i]).commits && a.repos[i].error == b.repos[i].error,
    ensures
        cli::exit_code(a, fail_on_failure) == cli::exit_code(b, fail_on_failure),
        a.fails() == b.fails(),
{
    lemma_fails_follows(a, b);
    lemma_fails_follows(b, a);
    assert(cli::all_errors(a) == cli::all_errors(b)) by {
        if cli::all_errors(a) {
            assert forall|i: int| 0 <= i < b.repos.len() implies (
            #[trigger] b.repos[i]).error is Some by {
                assert(a.repos[i].error is Some);
            }
        }
        if cli::all_errors(b) {
            assert forall|i: int| 0 <= i < a.repos.len() implies (
            #[trigger] a.repos[i]).error is Some by {
                assert(b.repos[i].error is Some);
            }
        }
    }
}

proof fn lemma_fails_follows(a: ReportView, b: ReportView)
    requires
        a.repos.len() == b.repos.len(),
        forall|i: int|
            0 <= i < a.repos.len() ==> (#[trigger] a.repos[i]).commits == (
            #[trigger] b.repos[i]).commits,
    ensures
        a.fails() ==> b.fails(),
{
    if a.fails() {
        let i = choose|i: int| 0 <= i < a.repos.len() && (#[trigger] a.repos[i]).fails();
        let k = choose|k: int|
            0 <= k < a.repos[i].commits.len() && !(
            #[trigger] a.repos[i].commits[k]).conclusion.passes();
        assert(!b.repos[i].commits[k].conclusion.passes());
        assert(b.repos[i].fails());
    }
}

/// Without being asked to, the exit code never tells of red commits.
pub proof fn red_commits_gate_only_when_asked(report: ReportView)
    ensures
        cli::exit_code(report, false) != 2,
        cli::exit_code(report, true) == 2 <==> report.fails() && !cli::all_errors(report),
        report.repos.len() == 0 ==> cli::exit_code(report, true) == 0,
{
}

/// What is dropped from a report says nothing, and all else stays.
pub proof fn suppression_drops_only_silent_rows(repos: Seq<RepoView>, row: RepoView)
    ensures
        cli::telling(repos).contains(row) <==> repos.contains(row) && cli::says_something(row),
    decreases repos.len(),
{
    let kept = cli::telling(repos);
    if repos.len() > 0 {
        let init = repos.drop_last();
        let before = cli::telling(init);
        suppression_drops_only_silent_rows(init, row);
        if kept.contains(row) {
            let i = choose|i: int| 0 <= i < kept.len() && kept[i] == row;
            if i < before.len() {
                assert(before[i] == row);
                let k = choose|k: int| 0 <= k < init.len() && init[k] == row;
                assert(repos[k] == row);
            } else {
                assert(repos[repos.len() - 1] == row);
            }
        }
        if repos.contains(row) && cli::says_something(row) {
            let k = choose|k: int| 0 <= k < repos.len() && repos[k] == row;
            if k < init.len() {
                assert(init[k] == row);
                let i = choose|i: int| 0 <= i < before.len() && before[i] == row;
                assert(kept[i] == row);
            } else {
                assert(kept[kept.len() - 1] == row);
            }
        }
    }
}

/// Suppression keeps the order.
proof fn lemma_telling_ordered(repos: Seq<RepoView>)
    requires
        order::ordered(repos, collect::repo_key()),
    ensures
        order::ordered(cli::telling(repos), collect::repo_key()),
    decreases repos.len(),
{
    if repos.len() > 0 {
        let init = repos.drop_last();
        let key = collect::repo_key();
        assert forall|i: int, j: int|
            #![trigger init[i], init[j]]
            0 <= i < j < init.len() implies !crate::text::before(key(init[j]), key(init[i])) by {
            assert(init[i] == repos[i] && init[j] == repos[j]);
        }
        lemma_telling_ordered(init);
        let before = cli::telling(init);
        let all = cli::telling(repos);
        assert forall|i: int, j: int|
            #![trigger all[i], all[j]]
            0 <= i < j < all.len() implies !crate::text::before(key(all[j]), key(all[i])) by {
            if j < before.len() {
                assert(all[i] == before[i] && all[j] == before[j]);
            } else {
                assert(all[i] == before[i]);
                assert(before.contains(before[i]));
                suppression_drops_only_silent_rows(init, before[i]);
                let k = choose|k: int| 0 <= k < init.len() && init[k] == before[i];
                assert(repos[k] == before[i]);
                assert(all[j] == repos[repos.len() - 1]);
            }
        }
    }
}

/// The rows of a report stand in the order of their repositories.
pub proof fn reports_are_in_order(
    collected: Seq<RepoView>,
    failed: Seq<(Seq<char>, Seq<char>)>,
)
    ensures
        order::ordered(cli::assembled(collected, failed), collect::repo_key()),
{
    let rows = collected + cli::org_error_rows(failed);
    order::arranging_orders_and_keeps(rows, collect::repo_key());
    lemma_telling_ordered(order::arranged(rows, collect::repo_key()));
}

/// A report has exactly the rows that say something: those collected, and one
/// for each organization that could not be expanded.
pub proof fn reports_hold_every_telling_row(
    collected: Seq<RepoView>,
    failed: Seq<(Seq<char>, Seq<char>)>,
    row: RepoView,
)
    ensures
        cli::assembled(collected, failed).contains(row) <==> cli::says_something(row) && (
        collected.contains(row) || cli::org_error_rows(failed).contains(row)),
{
    broadcast use vstd::seq_lib::group_to_multiset_ensures;

    let rows = collected + cli::org_error_rows(failed);
    let sorted = order::arranged(rows, collect::repo_key());
    order::arranging_orders_and_keeps(rows, collect::repo_key());
    suppression_drops_only_silent_rows(sorted, row);
    assert(sorted.contains(row) <==> rows.contains(row)) by {
        assert(sorted.to_multiset().count(row) == rows.to_multiset().count(row));
    }
    assert(rows.contains(row) <==> collected.contains(row) || cli::org_error_rows(
        failed,
    ).contains(row)) by {
        if collected.contains(row) {
            let i = choose|i: int| 0 <= i < collected.len() && collected[i] == row;
            assert(rows[i] == row);
        }
        if cli::org_error_rows(failed).contains(row) {
            let errors = cli::org_error_rows(failed);
            let i = choose|i: int| 0 <= i < errors.len() && errors[i] == row;
            assert(rows[collected.len() + i] == row);
        }
    }
}

/// An organization that could not be expanded is in the report.
pub proof fn failed_orgs_are_reported(
    collected: Seq<RepoView>,
    failed: Seq<(Seq<char>, Seq<char>)>,
    i: int,
)
    requires
        0 <= i < failed.len(),
    ensures
        cli::assembled(collected, failed).contains(cli::org_error_row(failed[i])),
{
    let rows = cli::org_error_rows(failed);
    assert(rows[i] == cli::org_error_row(failed[i]));
    reports_hold_every_telling_row(collected, failed, rows[i]);
}

/// Success alone passes, and all but success, skipped and neutral needs
/// attention.
pub proof fn conclusions_pass_or_need_attention(conclusion: Conclusion)
    ensures
        conclusion.passes() <==> conclusion == Conclusion::Success,
        conclusion.needs_attention() <==> conclusion != Conclusion::Success && conclusion
            != Conclusion::Skipped && conclusion != Conclusion::Neutral,
{
}

/// A text that is no label, and the absence of one, count as a failure.
pub proof fn unknown_conclusions_are_failures(text: Option<Seq<char>>)
    requires
        text matches Some(t) ==> forall|c: Conclusion| #[trigger] c.label_text() != t,
    ensures
        Conclusion::named(text) == Conclusion::Failure,
{
    if text is Some {
        assert(Conclusion::Success.label_text() != text->0);
        assert(Conclusion::Cancelled.label_text() != text->0);
        assert(Conclusion::TimedOut.label_text() != text->0);
        assert(Conclusion::ActionRequired.label_text() != text->0);
        assert(Conclusion::StartupFailure.label_text() != text->0);
        assert(Conclusion::Skipped.label_text() != text->0);
        assert(Conclusion::Neutral.label_text() != text->0);
        assert(Conclusion::Stale.label_text() != text->0);
    }
}

/// A repository that could be collected is reported with all that was
/// collected; otherwise its report says why, and what is running comes first.
pub proof fn collections_are_reported_as_they_are(
    repo: Seq<char>,
    active: Result<Seq<ActiveCommitView>, GitHubErrorView>,
    commits: Result<Seq<CommitView>, GitHubErrorView>,
)
    ensures
        ({
            let report = collect::repo_report(repo, active, commits);
            match (active, commits) {
                (Ok(running), Ok(settled)) => report.active == running && report.commits == settled
                    && report.error is None,
                (Err(e), _) => report.error == Some(e.message()),
                (_, Err(e)) => report.error == Some(e.message()),
            }
        }),
{
}

} // verus!
