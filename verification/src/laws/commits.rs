//! Laws of the reports of commits and runs, over what the API lists.

use vstd::prelude::*;

use crate::clock;
use crate::clock::Instant;
use crate::collect;
use crate::collect::{ApiJobView, ApiRunView, ApiStepView, SelectedView};
use crate::model::{ActiveCommitView, Conclusion, JobView, StepView};

verus! {

/// Whether `t` is what an optional timestamp denotes.
pub open spec fn reads(at: Option<Seq<char>>, t: Option<Instant>) -> bool {
    match at {
        Some(text) => t == clock::instant_of(text),
        None => t is None,
    }
}

/// Whether `t` is when a completed run started: what its start denotes, or,
/// where it has none, what its creation denotes.
pub open spec fn start_reads(run: ApiRunView, t: Option<Instant>) -> bool {
    if run.started_at is Some {
        reads(run.started_at, t)
    } else {
        reads(run.created_at, t)
    }
}

/// Whether `t` is the earliest of the known points in time.
pub open spec fn is_earliest(times: Seq<Option<Instant>>, t: Instant) -> bool {
    times.contains(Some(t)) && forall|j: int|
        0 <= j < times.len() && (#[trigger] times[j]) is Some ==> t.nanosecond
            <= times[j]->0.nanosecond
}

/// Whether `t` is the latest of the known points in time.
pub open spec fn is_latest(times: Seq<Option<Instant>>, t: Instant) -> bool {
    times.contains(Some(t)) && forall|j: int|
        0 <= j < times.len() && (#[trigger] times[j]) is Some ==> times[j]->0.nanosecond
            <= t.nanosecond
}

/// Whether none of the points in time is known.
pub open spec fn none_known(times: Seq<Option<Instant>>) -> bool {
    forall|j: int| 0 <= j < times.len() ==> (#[trigger] times[j]) is None
}

/// Whether `starts` and `finishes` are when the runs started and finished.
pub open spec fn times_of(
    runs: Seq<ApiRunView>,
    starts: Seq<Option<Instant>>,
    finishes: Seq<Option<Instant>>,
) -> bool {
    &&& starts.len() == runs.len()
    &&& finishes.len() == runs.len()
    &&& forall|i: int| 0 <= i < runs.len() ==> start_reads(#[trigger] runs[i], starts[i])
    &&& forall|i: int| 0 <= i < runs.len() ==> reads((#[trigger] runs[i]).updated_at, finishes[i])
}

/// The times by which a commit is reported are those of its runs.
proof fn lemma_times(
    runs: Seq<ApiRunView>,
    starts: Seq<Option<Instant>>,
    finishes: Seq<Option<Instant>>,
)
    requires
        times_of(runs, starts, finishes),
    ensures
        collect::starts(runs) == starts,
        collect::finishes(runs) == finishes,
{
    assert forall|i: int| 0 <= i < runs.len() implies collect::starts(runs)[i] == starts[i]
        && collect::finishes(runs)[i] == finishes[i] by {
        assert(start_reads(runs[i], starts[i]));
        assert(reads(runs[i].updated_at, finishes[i]));
    }
    assert(collect::starts(runs) =~= starts);
    assert(collect::finishes(runs) =~= finishes);
}

/// A commit's duration runs from the earliest known start among all its runs
/// to the latest known finish among all of them. It has none where no start or
/// no finish is known, or where the finish comes first.
pub proof fn a_commit_lasts_from_first_start_to_last_finish(
    repo: Seq<char>,
    branch: Seq<char>,
    commit: SelectedView,
    jobs: Seq<Seq<ApiJobView>>,
    starts: Seq<Option<Instant>>,
    finishes: Seq<Option<Instant>>,
)
    requires
        times_of(commit.runs, starts, finishes),
    ensures
        match collect::commit_report(repo, branch, commit, jobs).duration_seconds {
            Some(secs) => exists|s: Instant, f: Instant| #[trigger]
                is_earliest(starts, s) && #[trigger] is_latest(finishes, f) && secs == f.second
                    - s.second,
            None => none_known(starts) || none_known(finishes) || exists|s: Instant, f: Instant|
             #[trigger]
                is_earliest(starts, s) && #[trigger] is_latest(finishes, f) && f.second < s.second,
        },
{
    lemma_times(commit.runs, starts, finishes);
    durations_span_all_runs(repo, branch, commit, jobs, starts, finishes);
}

/// The same, given when each run started and finished.
pub proof fn durations_span_all_runs(
    repo: Seq<char>,
    branch: Seq<char>,
    commit: SelectedView,
    jobs: Seq<Seq<ApiJobView>>,
    starts: Seq<Option<Instant>>,
    finishes: Seq<Option<Instant>>,
)
    ensures
        match collect::commit_report_at(
            repo,
            branch,
            commit,
            jobs,
            starts,
            finishes,
        ).duration_seconds {
            Some(secs) => exists|s: Instant, f: Instant| #[trigger]
                is_earliest(starts, s) && #[trigger] is_latest(finishes, f) && secs == f.second
                    - s.second,
            None => none_known(starts) || none_known(finishes) || exists|s: Instant, f: Instant|
             #[trigger]
                is_earliest(starts, s) && #[trigger] is_latest(finishes, f) && f.second < s.second,
        },
{
    collect::earliest_is_earliest(starts);
    collect::latest_is_latest(finishes);
    let first = collect::earliest_of(starts);
    let last = collect::latest_of(finishes);
    if first is Some && last is Some {
        let s = starts[first->0 as int]->0;
        let f = finishes[last->0 as int]->0;
        assert(starts[first->0 as int] == Some(s));
        assert(finishes[last->0 as int] == Some(f));
        assert(is_earliest(starts, s));
        assert(is_latest(finishes, f));
    }
}

/// Where each run's start and finish are known, a commit takes at least as long
/// as from any of the starts to any later finish of its runs, and exactly as
/// long for some start and some finish.
pub proof fn a_commit_takes_as_long_as_any_of_its_runs(
    repo: Seq<char>,
    branch: Seq<char>,
    commit: SelectedView,
    jobs: Seq<Seq<ApiJobView>>,
    starts: Seq<Option<Instant>>,
    finishes: Seq<Option<Instant>>,
    i: int,
    j: int,
)
    requires
        times_of(commit.runs, starts, finishes),
        forall|k: int| 0 <= k < starts.len() ==> (#[trigger] starts[k]) is Some,
        forall|k: int| 0 <= k < finishes.len() ==> (#[trigger] finishes[k]) is Some,
        forall|k: int, l: int|
            0 <= k < starts.len() && 0 <= l < starts.len() && (
            #[trigger] starts[k])->0.nanosecond <= (#[trigger] starts[l])->0.nanosecond
                ==> starts[k]->0.second <= starts[l]->0.second,
        forall|k: int, l: int|
            0 <= k < finishes.len() && 0 <= l < finishes.len() && (
            #[trigger] finishes[k])->0.nanosecond <= (#[trigger] finishes[l])->0.nanosecond
                ==> finishes[k]->0.second <= finishes[l]->0.second,
        0 <= i < starts.len(),
        0 <= j < finishes.len(),
        starts[i]->0.second <= finishes[j]->0.second,
    ensures
        ({
            let duration = collect::commit_report(repo, branch, commit, jobs).duration_seconds;
            &&& duration is Some
            &&& duration->0 >= finishes[j]->0.second - starts[i]->0.second
            &&& exists|a: int, b: int|
                0 <= a < starts.len() && 0 <= b < finishes.len() && duration->0 == (
                #[trigger] finishes[b])->0.second - (#[trigger] starts[a])->0.second
        }),
{
    lemma_times(commit.runs, starts, finishes);
    collect::earliest_is_earliest(starts);
    collect::latest_is_latest(finishes);
    assert(starts[i] is Some && finishes[j] is Some);
    let a = collect::earliest_of(starts)->0 as int;
    let b = collect::latest_of(finishes)->0 as int;
    assert(starts[a]->0.nanosecond <= starts[i]->0.nanosecond);
    assert(finishes[j]->0.nanosecond <= finishes[b]->0.nanosecond);
    assert(starts[a]->0.second <= starts[i]->0.second);
    assert(finishes[j]->0.second <= finishes[b]->0.second);
}

/// A commit finished when the last of its runs did: the report shows the finish
/// of a run that no other outlasts, or, where no finish is known, what the
/// first run says.
pub proof fn a_commit_finishes_with_its_last_run(
    repo: Seq<char>,
    branch: Seq<char>,
    commit: SelectedView,
    jobs: Seq<Seq<ApiJobView>>,
)
    ensures
        ({
            let shown = collect::commit_report(repo, branch, commit, jobs).finished_at;
            ||| exists|b: int|
                0 <= b < commit.runs.len() && (#[trigger] commit.runs[b]).updated_at == Some(shown)
                    && clock::instant_of(shown) is Some && forall|j: int|
                    0 <= j < commit.runs.len() && (#[trigger] commit.runs[j]).updated_at is Some
                        && clock::instant_of(commit.runs[j].updated_at->0) is Some
                        ==> clock::instant_of(commit.runs[j].updated_at->0)->0.nanosecond
                        <= clock::instant_of(shown)->0.nanosecond
            ||| (forall|j: int|
                0 <= j < commit.runs.len() && (#[trigger] commit.runs[j]).updated_at is Some
                    ==> clock::instant_of(commit.runs[j].updated_at->0) is None)
                && commit.runs.len() > 0 && match commit.runs[0].updated_at {
                Some(text) => shown == text,
                None => shown.len() == 0,
            }
            ||| commit.runs.len() == 0 && shown.len() == 0
        }),
{
    let runs = commit.runs;
    let finishes = collect::finishes(runs);
    let shown = collect::commit_report(repo, branch, commit, jobs).finished_at;
    collect::latest_is_latest(finishes);
    match collect::latest_of(finishes) {
        Some(b) => {
            assert(finishes[b as int] == collect::time_of(runs[b as int].updated_at));
            assert(runs[b as int].updated_at == Some(shown));
            assert forall|j: int|
                0 <= j < runs.len() && (#[trigger] runs[j]).updated_at is Some
                    && clock::instant_of(runs[j].updated_at->0) is Some implies clock::instant_of(
                runs[j].updated_at->0,
            )->0.nanosecond <= clock::instant_of(shown)->0.nanosecond by {
                assert(finishes[j] is Some);
            }
        },
        None => {
            assert forall|j: int|
                0 <= j < runs.len() && (
                #[trigger] runs[j]).updated_at is Some implies clock::instant_of(
                runs[j].updated_at->0,
            ) is None by {
                assert(finishes[j] is None);
            }
        },
    }
}

/// Whether `shown` is the text, or empty in place of none.
pub open spec fn shows(shown: Seq<char>, text: Option<Seq<char>>) -> bool {
    match text {
        Some(t) => shown == t,
        None => shown.len() == 0,
    }
}

/// Whether `shown` is the SHA, shortened to seven characters.
pub open spec fn shortens(shown: Seq<char>, sha: Seq<char>) -> bool {
    shown.is_prefix_of(sha) && (shown.len() == 7 || shown == sha && sha.len() < 7)
}

/// A SHA is shortened to its first seven characters.
proof fn lemma_short(sha: Seq<char>)
    ensures
        shortens(collect::short(sha), sha),
{
    assert(sha.take(sha.len() as int) =~= sha);
}

/// A commit is reported under its short SHA, with the title and the event of
/// its first run, on the branch asked for, and with a link to the whole SHA.
pub proof fn commits_are_reported_under_their_sha(
    repo: Seq<char>,
    branch: Seq<char>,
    commit: SelectedView,
    jobs: Seq<Seq<ApiJobView>>,
)
    ensures
        ({
            let report = collect::commit_report(repo, branch, commit, jobs);
            &&& shortens(report.sha, commit.sha)
            &&& report.branch == branch
            &&& report.url == "https://github.com/"@ + repo + "/commit/"@ + commit.sha
            &&& commit.runs.len() > 0 ==> shows(report.title, commit.runs[0].title) && shows(
                report.event,
                commit.runs[0].event,
            )
            &&& report.runs.len() == commit.runs.len()
        }),
{
    lemma_short(commit.sha);
}

/// Whether a conclusion, as GitHub writes it, is healthy.
pub open spec fn healthy(text: Option<Seq<char>>) -> bool {
    text == Some("success"@) || text == Some("skipped"@) || text == Some("neutral"@)
}

/// The healthy conclusions are those that need no attention.
proof fn lemma_healthy(text: Option<Seq<char>>)
    ensures
        Conclusion::named(text).needs_attention() <==> !healthy(text),
{
    reveal_strlit("success");
    reveal_strlit("skipped");
    reveal_strlit("neutral");
    reveal_strlit("cancelled");
    reveal_strlit("timed_out");
    reveal_strlit("action_required");
    reveal_strlit("startup_failure");
    reveal_strlit("stale");
    assert("success"@.len() == 7 && "skipped"@.len() == 7 && "neutral"@.len() == 7);
    assert("cancelled"@.len() == 9 && "timed_out"@.len() == 9 && "stale"@.len() == 5);
    assert("action_required"@.len() == 15 && "startup_failure"@.len() == 15);
    assert("success"@[1] == 'u' && "skipped"@[1] == 'k' && "neutral"@[1] == 'e');
}

/// A commit is green where GitHub says `success`, `skipped` or `neutral` of
/// each of its runs, and otherwise red.
pub proof fn a_commit_is_red_when_any_run_is(
    repo: Seq<char>,
    branch: Seq<char>,
    commit: SelectedView,
    jobs: Seq<Seq<ApiJobView>>,
)
    ensures
        (forall|i: int|
            0 <= i < commit.runs.len() ==> healthy((#[trigger] commit.runs[i]).conclusion))
            ==> collect::commit_report(repo, branch, commit, jobs).conclusion
            == Conclusion::Success,
        (exists|i: int|
            0 <= i < commit.runs.len() && !healthy((#[trigger] commit.runs[i]).conclusion))
            ==> collect::commit_report(repo, branch, commit, jobs).conclusion
            == Conclusion::Failure,
{
    assert forall|i: int| 0 <= i < commit.runs.len() implies (Conclusion::named(
        (#[trigger] commit.runs[i]).conclusion,
    ).needs_attention() <==> !healthy(commit.runs[i].conclusion)) by {
        lemma_healthy(commit.runs[i].conclusion);
    }
    if exists|i: int|
        0 <= i < commit.runs.len() && !healthy((#[trigger] commit.runs[i]).conclusion) {
        let i = choose|i: int|
            0 <= i < commit.runs.len() && !healthy((#[trigger] commit.runs[i]).conclusion);
        assert(Conclusion::named(commit.runs[i].conclusion).needs_attention());
    }
}

/// Every run of a commit is reported, in order, with what the API says of it,
/// and with a link to it.
pub proof fn every_run_is_reported(
    repo: Seq<char>,
    branch: Seq<char>,
    commit: SelectedView,
    jobs: Seq<Seq<ApiJobView>>,
    i: int,
)
    requires
        0 <= i < commit.runs.len(),
    ensures
        ({
            let run = commit.runs[i];
            let report = collect::commit_report(repo, branch, commit, jobs).runs[i];
            &&& shows(report.workflow, run.name)
            &&& shows(report.title, run.title)
            &&& report.run_number == run.run_number
            &&& shows(report.event, run.event)
            &&& shows(report.branch, run.branch)
            &&& shortens(report.sha, run.sha)
            &&& shows(report.url, run.url)
            &&& shows(report.created_at, run.created_at)
            &&& shows(report.updated_at, run.updated_at)
            &&& report.conclusion == Conclusion::named(run.conclusion)
        }),
{
    lemma_short(commit.runs[i].sha);
}

/// A run takes the seconds from its own start to its own finish, where both are
/// known and the finish does not come first.
pub proof fn a_run_lasts_from_its_start_to_its_finish(
    run: ApiRunView,
    jobs: Seq<ApiJobView>,
    start: Option<Instant>,
    finish: Option<Instant>,
)
    ensures
        match collect::run_report_at(run, jobs, start, finish).duration_seconds {
            Some(secs) => start is Some && finish is Some && start->0.second + secs
                == finish->0.second,
            None => start is None || finish is None || finish->0.second < start->0.second,
        },
{
}

/// The times of each run of a commit are its own.
pub proof fn runs_are_timed_one_by_one(
    repo: Seq<char>,
    branch: Seq<char>,
    commit: SelectedView,
    jobs: Seq<Seq<ApiJobView>>,
    i: int,
    start: Option<Instant>,
    finish: Option<Instant>,
)
    requires
        0 <= i < commit.runs.len(),
        start_reads(commit.runs[i], start),
        reads(commit.runs[i].updated_at, finish),
    ensures
        match collect::commit_report(repo, branch, commit, jobs).runs[i].duration_seconds {
            Some(secs) => start is Some && finish is Some && start->0.second + secs
                == finish->0.second,
            None => start is None || finish is None || finish->0.second < start->0.second,
        },
{
    assert(collect::starts(commit.runs)[i] == start);
    assert(collect::finishes(commit.runs)[i] == finish);
}

/// A healthy run is reported without jobs, and any other run with the problem
/// jobs that were listed for it.
pub proof fn problem_runs_carry_their_own_jobs(
    repo: Seq<char>,
    branch: Seq<char>,
    commit: SelectedView,
    jobs: Seq<Seq<ApiJobView>>,
    i: int,
)
    requires
        0 <= i < commit.runs.len(),
    ensures
        ({
            let shown = collect::commit_report(repo, branch, commit, jobs).runs[i].jobs;
            &&& healthy(commit.runs[i].conclusion) ==> shown.len() == 0
            &&& !healthy(commit.runs[i].conclusion) && i < jobs.len() ==> shown
                == collect::problem_jobs(jobs[i])
            &&& i >= jobs.len() ==> shown.len() == 0
        }),
{
    lemma_healthy(commit.runs[i].conclusion);
}

/// The jobs of one list after those of another are reported after those of the
/// other.
pub proof fn jobs_are_reported_in_order(a: Seq<ApiJobView>, b: Seq<ApiJobView>)
    ensures
        collect::problem_jobs(a + b) == collect::problem_jobs(a) + collect::problem_jobs(b),
    decreases b.len(),
{
    if b.len() == 0 {
        assert(a + b =~= a);
        assert(collect::problem_jobs(a) + collect::problem_jobs(b) =~= collect::problem_jobs(a));
    } else {
        jobs_are_reported_in_order(a, b.drop_last());
        assert((a + b).drop_last() =~= a + b.drop_last());
        assert((a + b).last() == b.last());
        assert(collect::problem_jobs(a + b) =~= collect::problem_jobs(a) + collect::problem_jobs(
            b,
        ));
    }
}

/// A healthy job is not reported, and any other is, with its name, its
/// conclusion, its link and those of its steps that are reported.
pub proof fn a_job_is_reported_unless_healthy(job: ApiJobView)
    ensures
        healthy(job.conclusion) ==> collect::problem_jobs(seq![job]).len() == 0,
        !healthy(job.conclusion) ==> collect::problem_jobs(seq![job]).len() == 1 && ({
            let shown = collect::problem_jobs(seq![job])[0];
            &&& shows(shown.name, job.name)
            &&& shows(shown.url, job.url)
            &&& shown.conclusion == Conclusion::named(job.conclusion)
            &&& shown.steps == collect::problem_steps(job.steps)
        }),
{
    lemma_healthy(job.conclusion);
    let one = seq![job];
    assert(one.drop_last() =~= Seq::empty());
    assert(one.last() == job);
    assert(collect::problem_jobs(one.drop_last()) =~= Seq::<JobView>::empty());
}

/// The steps of one list after those of another are reported after those of
/// the other.
pub proof fn steps_are_reported_in_order(a: Seq<ApiStepView>, b: Seq<ApiStepView>)
    ensures
        collect::problem_steps(a + b) == collect::problem_steps(a) + collect::problem_steps(b),
    decreases b.len(),
{
    if b.len() == 0 {
        assert(a + b =~= a);
        assert(collect::problem_steps(a) + collect::problem_steps(b) =~= collect::problem_steps(
            a,
        ));
    } else {
        steps_are_reported_in_order(a, b.drop_last());
        assert((a + b).drop_last() =~= a + b.drop_last());
        assert((a + b).last() == b.last());
        assert(collect::problem_steps(a + b) =~= collect::problem_steps(a)
            + collect::problem_steps(b));
    }
}

/// A healthy step is not reported, and any other is, with its name, its number
/// and its conclusion.
pub proof fn a_step_is_reported_unless_healthy(step: ApiStepView)
    ensures
        healthy(step.conclusion) ==> collect::problem_steps(seq![step]).len() == 0,
        !healthy(step.conclusion) ==> collect::problem_steps(seq![step]).len() == 1 && ({
            let shown = collect::problem_steps(seq![step])[0];
            &&& shows(shown.name, step.name)
            &&& shown.number == step.number
            &&& shown.conclusion == Conclusion::named(step.conclusion)
        }),
{
    lemma_healthy(step.conclusion);
    let one = seq![step];
    assert(one.drop_last() =~= Seq::empty());
    assert(one.last() == step);
    assert(collect::problem_steps(one.drop_last()) =~= Seq::<StepView>::empty());
}

/// The jobs of a run are asked for exactly where it is not healthy, by its id.
pub proof fn jobs_are_asked_for_problem_runs(repo: Seq<char>, runs: Seq<ApiRunView>, i: int)
    requires
        0 <= i < runs.len(),
    ensures
        collect::job_paths(repo, runs).len() == runs.len(),
        collect::job_paths(repo, runs)[i] is Some <==> !healthy(runs[i].conclusion),
        collect::job_paths(repo, runs)[i] matches Some(path) ==> path == "/repos/"@ + repo
            + "/actions/runs/"@ + crate::text::decimal(runs[i].id as nat)
            + "/jobs?per_page=100"@,
{
    lemma_healthy(runs[i].conclusion);
}

/// What is reported as running is one of the running runs, with what the API
/// says of it, under its short SHA and with a link to the run and to the whole
/// SHA; it started when the API says, or else when it was created.
pub proof fn the_running_run_is_reported(
    repo: Seq<char>,
    runs: Seq<ApiRunView>,
    section: Seq<ActiveCommitView>,
)
    requires
        collect::is_active_section(repo, runs, section),
        section.len() > 0,
    ensures
        section.len() == 1,
        section[0].runs.len() == 1,
        exists|i: int|
            0 <= i < runs.len() && collect::is_newest(collect::contenders(runs), i) && ({
                let run = #[trigger] runs[i];
                let shown = section[0].runs[0];
                &&& run.status == Some("in_progress"@)
                &&& shortens(section[0].sha, run.sha)
                &&& shows(section[0].title, run.title)
                &&& shows(section[0].branch, run.branch)
                &&& shows(section[0].event, run.event)
                &&& section[0].url == "https://github.com/"@ + repo + "/commit/"@ + run.sha
                &&& run.started_at is Some ==> section[0].started_at == run.started_at->0
                &&& run.started_at is None ==> shows(section[0].started_at, run.created_at)
                &&& shows(shown.workflow, run.name)
                &&& shows(shown.title, run.title)
                &&& shown.run_number == run.run_number
                &&& shows(shown.event, run.event)
                &&& shows(shown.branch, run.branch)
                &&& shortens(shown.sha, run.sha)
                &&& shows(shown.url, run.url)
                &&& shows(shown.created_at, run.created_at)
                &&& shown.started_at == run.started_at
            }),
{
    let i = choose|i: int|
        collect::is_newest(collect::contenders(runs), i) && section == seq![
            collect::active_report(repo, #[trigger] runs[i]),
        ];
    assert(collect::contenders(runs)[i] == collect::contender(runs[i]));
    lemma_short(runs[i].sha);
    assert(section[0] == collect::active_report(repo, runs[i]));
    assert(section[0].runs[0] == collect::active_run_report(runs[i]));
}

} // verus!
