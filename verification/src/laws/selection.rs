//! Laws of what is selected from the runs that the API lists.

use vstd::prelude::*;

use crate::clock;
use crate::clock::Instant;
use crate::collect;
use crate::collect::{ApiRunView, Contender, SelectedView};

verus! {

/// Where a selected commit comes from: its first run, which opens it.
proof fn lemma_origin(runs: Seq<ApiRunView>, n: nat, k: int) -> (i: int)
    requires
        n <= runs.len(),
        0 <= k < collect::settled_commits(runs, n).len(),
    ensures
        0 <= i < n,
        collect::opens_commit(runs, i),
        collect::settled_commits(runs, n)[k] == (SelectedView {
            sha: runs[i].sha,
            runs: collect::retained(runs, runs[i].sha, runs.len()),
        }),
        collect::settled(runs, runs[i].sha),
    decreases n,
{
    let before = collect::settled_commits(runs, (n - 1) as nat);
    if k < before.len() {
        lemma_origin(runs, (n - 1) as nat, k)
    } else {
        n - 1
    }
}

/// A selected commit is one of all the settled ones.
proof fn lemma_selection_prefix(runs: Seq<ApiRunView>, limit: nat, k: int)
    requires
        0 <= k < collect::selection(runs, limit).len(),
    ensures
        k < collect::settled_commits(runs, runs.len()).len(),
        collect::selection(runs, limit)[k] == collect::settled_commits(runs, runs.len())[k],
{
}

/// Where a retained run comes from.
proof fn lemma_retained_origin(runs: Seq<ApiRunView>, sha: Seq<char>, n: nat, a: int) -> (i: int)
    requires
        0 <= a < collect::retained(runs, sha, n).len(),
    ensures
        0 <= i < n,
        collect::retained(runs, sha, n)[a] == runs[i],
        runs[i].sha == sha,
        collect::counts(runs, i),
    decreases n,
{
    let before = collect::retained(runs, sha, (n - 1) as nat);
    if a < before.len() {
        lemma_retained_origin(runs, sha, (n - 1) as nat, a)
    } else {
        n - 1
    }
}

/// A run that counts is retained.
proof fn lemma_counting_is_retained(runs: Seq<ApiRunView>, n: nat, i: int)
    requires
        0 <= i < n,
        collect::counts(runs, i),
    ensures
        collect::retained(runs, runs[i].sha, n).contains(runs[i]),
    decreases n,
{
    let all = collect::retained(runs, runs[i].sha, n);
    if i == n - 1 {
        assert(all[all.len() - 1] == runs[i]);
    } else {
        lemma_counting_is_retained(runs, (n - 1) as nat, i);
        let before = collect::retained(runs, runs[i].sha, (n - 1) as nat);
        let a = choose|a: int| 0 <= a < before.len() && before[a] == runs[i];
        assert(all[a] == runs[i]);
    }
}

/// Two retained runs are not of the same workflow.
proof fn lemma_retained_distinct(runs: Seq<ApiRunView>, sha: Seq<char>, n: nat, a: int, b: int)
    requires
        n <= runs.len(),
        0 <= a < b < collect::retained(runs, sha, n).len(),
    ensures
        collect::retained(runs, sha, n)[a].workflow_id != collect::retained(
            runs,
            sha,
            n,
        )[b].workflow_id,
    decreases n,
{
    let before = collect::retained(runs, sha, (n - 1) as nat);
    if b < before.len() {
        lemma_retained_distinct(runs, sha, (n - 1) as nat, a, b);
    } else {
        let i = lemma_retained_origin(runs, sha, (n - 1) as nat, a);
        if runs[i].workflow_id == runs[n - 1].workflow_id {
            assert(!collect::supersedes(runs, n - 1, i));
            assert(!collect::supersedes(runs, i, n - 1));
        }
    }
}

/// Of the runs that take the place of a run, one is replaced by none.
proof fn lemma_best(runs: Seq<ApiRunView>, i: int, n: nat) -> (b: int)
    requires
        0 <= i < runs.len(),
        n <= runs.len(),
    ensures
        0 <= b < runs.len(),
        b == i || collect::supersedes(runs, b, i),
        forall|j: int| 0 <= j < n ==> !#[trigger] collect::supersedes(runs, j, b),
    decreases n,
{
    if n == 0 {
        i
    } else {
        let b = lemma_best(runs, i, (n - 1) as nat);
        if collect::supersedes(runs, n - 1, b) {
            assert forall|j: int| 0 <= j < n implies !#[trigger] collect::supersedes(
                runs,
                j,
                n - 1,
            ) by {
                if collect::supersedes(runs, j, n - 1) && j < n - 1 {
                    assert(collect::supersedes(runs, j, b));
                }
            }
            n - 1
        } else {
            b
        }
    }
}

/// A selected commit has settled: it has runs, all of them are its own and
/// completed, and no workflow has two.
pub proof fn selected_commits_are_settled(runs: Seq<ApiRunView>, limit: nat, k: int)
    requires
        0 <= k < collect::selection(runs, limit).len(),
    ensures
        ({
            let commit = collect::selection(runs, limit)[k];
            &&& commit.runs.len() > 0
            &&& forall|a: int|
                0 <= a < commit.runs.len() ==> (#[trigger] commit.runs[a]).sha == commit.sha
                    && collect::completed(commit.runs[a]) && runs.contains(commit.runs[a])
            &&& forall|a: int, b: int|
                0 <= a < b < commit.runs.len() ==> (#[trigger] commit.runs[a]).workflow_id != (
                #[trigger] commit.runs[b]).workflow_id
        }),
{
    let commit = collect::selection(runs, limit)[k];
    lemma_selection_prefix(runs, limit, k);
    let i = lemma_origin(runs, runs.len(), k);
    let b = lemma_best(runs, i, runs.len());
    lemma_counting_is_retained(runs, runs.len(), b);
    assert forall|a: int| 0 <= a < commit.runs.len() implies (#[trigger] commit.runs[a]).sha
        == commit.sha && collect::completed(commit.runs[a]) && runs.contains(commit.runs[a]) by {
        let o = lemma_retained_origin(runs, commit.sha, runs.len(), a);
        assert(runs[o].sha == commit.sha);
    }
    assert forall|a: int, b: int| 0 <= a < b < commit.runs.len() implies (
    #[trigger] commit.runs[a]).workflow_id != (#[trigger] commit.runs[b]).workflow_id by {
        lemma_retained_distinct(runs, commit.sha, runs.len(), a, b);
    }
}

/// For each run of a selected commit, the commit has a run of the same
/// workflow whose id is at least as high.
pub proof fn selected_commits_keep_the_highest_ids(
    runs: Seq<ApiRunView>,
    limit: nat,
    k: int,
    i: int,
)
    requires
        0 <= k < collect::selection(runs, limit).len(),
        0 <= i < runs.len(),
        runs[i].sha == collect::selection(runs, limit)[k].sha,
    ensures
        exists|a: int|
            0 <= a < collect::selection(runs, limit)[k].runs.len() && (
            #[trigger] collect::selection(runs, limit)[k].runs[a]).workflow_id
                == runs[i].workflow_id && collect::selection(runs, limit)[k].runs[a].id
                >= runs[i].id,
{
    lemma_selection_prefix(runs, limit, k);
    let o = lemma_origin(runs, runs.len(), k);
    let b = lemma_best(runs, i, runs.len());
    lemma_counting_is_retained(runs, runs.len(), b);
    let kept = collect::retained(runs, runs[b].sha, runs.len());
    let a = choose|a: int| 0 <= a < kept.len() && kept[a] == runs[b];
    assert(collect::selection(runs, limit)[k].runs[a] == runs[b]);
}

/// No more commits are selected than asked for, and asking for more only adds
/// older ones.
pub proof fn the_limit_cuts_the_selection(runs: Seq<ApiRunView>, limit: nat, more: nat)
    requires
        limit <= more,
    ensures
        collect::selection(runs, limit).len() <= limit,
        collect::selection(runs, limit).is_prefix_of(collect::selection(runs, more)),
{
    let all = collect::settled_commits(runs, runs.len());
    let short = collect::selection(runs, limit);
    let long = collect::selection(runs, more);
    assert(short =~= long.take(short.len() as int));
}

/// Where fewer commits are selected than asked for, every settled commit is:
/// one that has not settled hides no older one.
pub proof fn unsettled_commits_hide_no_others(runs: Seq<ApiRunView>, limit: nat, i: int)
    requires
        0 <= i < runs.len(),
        collect::settled(runs, runs[i].sha),
        collect::selection(runs, limit).len() < limit,
    ensures
        exists|k: int|
            0 <= k < collect::selection(runs, limit).len() && (
            #[trigger] collect::selection(runs, limit)[k]).sha == runs[i].sha,
{
    lemma_settled_is_listed(runs, runs.len(), i);
}

proof fn lemma_settled_is_listed(runs: Seq<ApiRunView>, n: nat, i: int)
    requires
        0 <= i < n <= runs.len(),
        collect::settled(runs, runs[i].sha),
    ensures
        exists|k: int|
            0 <= k < collect::settled_commits(runs, n).len() && (
            #[trigger] collect::settled_commits(runs, n)[k]).sha == runs[i].sha,
    decreases n,
{
    let all = collect::settled_commits(runs, n);
    if i < n - 1 {
        lemma_settled_is_listed(runs, (n - 1) as nat, i);
        let before = collect::settled_commits(runs, (n - 1) as nat);
        let k = choose|k: int| 0 <= k < before.len() && (#[trigger] before[k]).sha == runs[i].sha;
        assert(all[k].sha == runs[i].sha);
    } else if collect::opens_commit(runs, i) {
        assert(all[all.len() - 1].sha == runs[i].sha);
    } else {
        let j = choose|j: int| 0 <= j < i && (#[trigger] runs[j]).sha == runs[i].sha;
        lemma_settled_is_listed(runs, (n - 1) as nat, j);
        let before = collect::settled_commits(runs, (n - 1) as nat);
        let k = choose|k: int| 0 <= k < before.len() && (#[trigger] before[k]).sha == runs[j].sha;
        assert(all[k].sha == runs[i].sha);
    }
}

/// Commits are selected in the order in which the API lists their first runs,
/// each once.
pub proof fn selection_keeps_the_listed_order(runs: Seq<ApiRunView>, limit: nat, k: int, l: int)
    requires
        0 <= k < l < collect::selection(runs, limit).len(),
    ensures
        collect::selection(runs, limit)[k].sha != collect::selection(runs, limit)[l].sha,
        exists|i: int, j: int|
            0 <= i < j < runs.len() && (#[trigger] runs[i]).sha == collect::selection(
                runs,
                limit,
            )[k].sha && (#[trigger] runs[j]).sha == collect::selection(runs, limit)[l].sha
                && collect::opens_commit(runs, i) && collect::opens_commit(runs, j),
{
    lemma_selection_prefix(runs, limit, k);
    lemma_selection_prefix(runs, limit, l);
    lemma_order(runs, runs.len(), k, l);
}

proof fn lemma_order(runs: Seq<ApiRunView>, n: nat, k: int, l: int)
    requires
        n <= runs.len(),
        0 <= k < l < collect::settled_commits(runs, n).len(),
    ensures
        collect::settled_commits(runs, n)[k].sha != collect::settled_commits(runs, n)[l].sha,
        exists|i: int, j: int|
            0 <= i < j < n && (#[trigger] runs[i]).sha == collect::settled_commits(runs, n)[k].sha
                && (#[trigger] runs[j]).sha == collect::settled_commits(runs, n)[l].sha
                && collect::opens_commit(runs, i) && collect::opens_commit(runs, j),
    decreases n,
{
    let before = collect::settled_commits(runs, (n - 1) as nat);
    if l < before.len() {
        lemma_order(runs, (n - 1) as nat, k, l);
    } else {
        let i = lemma_origin(runs, (n - 1) as nat, k);
        assert(runs[i].sha != runs[n - 1].sha);
        assert(collect::opens_commit(runs, n - 1));
    }
}

/// Only one of the running runs can be the one that is reported.
pub proof fn the_newest_is_unique(all: Seq<Contender>, i: int, j: int)
    requires
        collect::is_newest(all, i),
        collect::is_newest(all, j),
    ensures
        i == j,
{
    if i < j {
        assert(collect::beats(all[j], all[i]));
    } else if j < i {
        assert(collect::beats(all[i], all[j]));
    }
}

/// No running run started later than the one that is reported.
pub proof fn the_newest_started_last(runs: Seq<ApiRunView>, i: int, j: int)
    requires
        collect::is_newest(collect::contenders(runs), i),
        0 <= j < runs.len(),
        runs[j].status == Some("in_progress"@),
    ensures
        runs[i].status == Some("in_progress"@),
        !collect::later(collect::contender(runs[j]).start, collect::contender(runs[i]).start),
{
    let all = collect::contenders(runs);
    assert(all[j].running);
    assert(!collect::beats(all[j], all[i]));
}

/// Whether no run of the same commit and workflow has a higher id than run `i`.
pub open spec fn leads(runs: Seq<ApiRunView>, i: int) -> bool {
    forall|j: int|
        0 <= j < runs.len() && (#[trigger] runs[j]).sha == runs[i].sha && runs[j].workflow_id
            == runs[i].workflow_id ==> runs[j].id <= runs[i].id
}

/// A run that counts has the highest id of its workflow in its commit.
proof fn lemma_counting_leads(runs: Seq<ApiRunView>, i: int)
    requires
        0 <= i < runs.len(),
        collect::counts(runs, i),
    ensures
        leads(runs, i),
{
    assert forall|j: int|
        0 <= j < runs.len() && (#[trigger] runs[j]).sha == runs[i].sha && runs[j].workflow_id
            == runs[i].workflow_id implies runs[j].id <= runs[i].id by {
        assert(!collect::supersedes(runs, j, i));
    }
}

/// A commit whose leading runs are all completed has settled.
proof fn lemma_completed_settles(runs: Seq<ApiRunView>, sha: Seq<char>)
    requires
        forall|a: int|
            0 <= a < runs.len() && (#[trigger] runs[a]).sha == sha && leads(runs, a)
                ==> runs[a].status == Some("completed"@),
    ensures
        collect::settled(runs, sha),
{
    assert forall|a: int|
        0 <= a < runs.len() && (#[trigger] runs[a]).sha == sha && collect::counts(
            runs,
            a,
        ) implies collect::completed(runs[a]) by {
        lemma_counting_leads(runs, a);
    }
}

/// A commit is selected where, for each of its workflows, the run with the
/// highest id is completed, and there is room for it. Nothing but the statuses
/// of these runs has a say.
pub proof fn completed_commits_are_selected(runs: Seq<ApiRunView>, limit: nat, i: int)
    requires
        0 <= i < runs.len(),
        forall|a: int|
            0 <= a < runs.len() && (#[trigger] runs[a]).sha == runs[i].sha && leads(runs, a)
                ==> runs[a].status == Some("completed"@),
        collect::selection(runs, limit).len() < limit,
    ensures
        exists|k: int|
            0 <= k < collect::selection(runs, limit).len() && (
            #[trigger] collect::selection(runs, limit)[k]).sha == runs[i].sha,
{
    lemma_completed_settles(runs, runs[i].sha);
    unsettled_commits_hide_no_others(runs, limit, i);
}

/// A commit that is skipped although there is room for it has a run with the
/// highest id of its workflow that is not completed.
pub proof fn skipped_commits_have_not_settled(runs: Seq<ApiRunView>, limit: nat, i: int)
    requires
        0 <= i < runs.len(),
        collect::selection(runs, limit).len() < limit,
        forall|k: int|
            0 <= k < collect::selection(runs, limit).len() ==> (
            #[trigger] collect::selection(runs, limit)[k]).sha != runs[i].sha,
    ensures
        exists|a: int|
            0 <= a < runs.len() && (#[trigger] runs[a]).sha == runs[i].sha && leads(runs, a)
                && runs[a].status != Some("completed"@),
{
    if forall|a: int|
        0 <= a < runs.len() && (#[trigger] runs[a]).sha == runs[i].sha && leads(runs, a)
            ==> runs[a].status == Some("completed"@) {
        completed_commits_are_selected(runs, limit, i);
    }
}

/// Where a commit is selected, so is every completed one that the API lists
/// before it, and it stands before it in the selection.
pub proof fn no_newer_commit_is_passed_over(runs: Seq<ApiRunView>, limit: nat, i: int, k: int)
    requires
        0 <= i < runs.len(),
        forall|a: int|
            0 <= a < runs.len() && (#[trigger] runs[a]).sha == runs[i].sha && leads(runs, a)
                ==> runs[a].status == Some("completed"@),
        0 <= k < collect::selection(runs, limit).len(),
        forall|j: int|
            0 <= j <= i ==> (#[trigger] runs[j]).sha != collect::selection(runs, limit)[k].sha,
    ensures
        exists|m: int|
            0 <= m < k && (#[trigger] collect::selection(runs, limit)[m]).sha == runs[i].sha,
{
    lemma_completed_settles(runs, runs[i].sha);
    lemma_listed_before(runs, limit, i, k);
}

proof fn lemma_listed_before(runs: Seq<ApiRunView>, limit: nat, i: int, k: int)
    requires
        0 <= i < runs.len(),
        collect::settled(runs, runs[i].sha),
        0 <= k < collect::selection(runs, limit).len(),
        forall|j: int|
            0 <= j <= i ==> (#[trigger] runs[j]).sha != collect::selection(runs, limit)[k].sha,
    ensures
        exists|m: int|
            0 <= m < k && (#[trigger] collect::selection(runs, limit)[m]).sha == runs[i].sha,
{
    let all = collect::settled_commits(runs, runs.len());
    let some = collect::selection(runs, limit);
    lemma_settled_is_listed(runs, runs.len(), i);
    lemma_selection_prefix(runs, limit, k);
    let m = choose|m: int| 0 <= m < all.len() && (#[trigger] all[m]).sha == runs[i].sha;
    assert(runs[i].sha != some[k].sha);
    if k < m {
        lemma_order(runs, runs.len(), k, m);
        let (x, y) = choose|x: int, y: int|
            0 <= x < y < runs.len() && (#[trigger] runs[x]).sha == all[k].sha && (
            #[trigger] runs[y]).sha == all[m].sha && collect::opens_commit(runs, x)
                && collect::opens_commit(runs, y);
        assert(runs[x].sha == some[k].sha);
        assert(x > i);
        assert(runs[i].sha != runs[y].sha);
        assert(false);
    }
    assert(some[m] == all[m]);
}

/// A retained run stands behind those that the API lists before it.
proof fn lemma_retained_in_order(runs: Seq<ApiRunView>, sha: Seq<char>, n: nat, a: int, b: int)
    requires
        n <= runs.len(),
        0 <= a < b < collect::retained(runs, sha, n).len(),
    ensures
        exists|i: int, j: int|
            0 <= i < j < n && #[trigger] runs[i] == collect::retained(runs, sha, n)[a]
                && #[trigger] runs[j] == collect::retained(runs, sha, n)[b],
    decreases n,
{
    let before = collect::retained(runs, sha, (n - 1) as nat);
    if b < before.len() {
        lemma_retained_in_order(runs, sha, (n - 1) as nat, a, b);
        let (i, j) = choose|i: int, j: int|
            0 <= i < j < n - 1 && #[trigger] runs[i] == before[a] && #[trigger] runs[j]
                == before[b];
        assert(runs[i] == collect::retained(runs, sha, n)[a] && runs[j] == collect::retained(
            runs,
            sha,
            n,
        )[b]);
    } else {
        let i = lemma_retained_origin(runs, sha, (n - 1) as nat, a);
        assert(runs[i] == collect::retained(runs, sha, n)[a] && runs[n - 1] == collect::retained(
            runs,
            sha,
            n,
        )[b]);
    }
}

/// The runs of a selected commit are listed runs of the commit that are
/// completed and have the highest id of their workflow, and stand in the order
/// in which the API lists them.
pub proof fn selected_runs_lead_and_are_completed(
    runs: Seq<ApiRunView>,
    limit: nat,
    k: int,
    a: int,
    b: int,
)
    requires
        0 <= k < collect::selection(runs, limit).len(),
        0 <= a < b < collect::selection(runs, limit)[k].runs.len() || 0 <= a == b
            < collect::selection(runs, limit)[k].runs.len(),
    ensures
        ({
            let commit = collect::selection(runs, limit)[k];
            exists|i: int, j: int|
                0 <= i <= j < runs.len() && (a < b ==> i < j) && #[trigger] runs[i]
                    == commit.runs[a] && #[trigger] runs[j] == commit.runs[b] && runs[i].sha
                    == commit.sha && runs[i].status == Some("completed"@) && leads(runs, i)
        }),
{
    let commit = collect::selection(runs, limit)[k];
    lemma_selection_prefix(runs, limit, k);
    let o = lemma_origin(runs, runs.len(), k);
    let i0 = lemma_retained_origin(runs, commit.sha, runs.len(), a);
    lemma_counting_leads(runs, i0);
    assert(collect::completed(runs[i0]));
    if a < b {
        lemma_retained_in_order(runs, commit.sha, runs.len(), a, b);
        let (i, j) = choose|i: int, j: int|
            0 <= i < j < runs.len() && #[trigger] runs[i] == commit.runs[a] && #[trigger] runs[j]
                == commit.runs[b];
        assert(runs[i] == runs[i0]);
        assert(leads(runs, i));
        assert(runs[i] == commit.runs[a] && runs[j] == commit.runs[b]);
    } else {
        assert(runs[i0] == commit.runs[a] && runs[i0] == commit.runs[b]);
    }
}

/// A run of a selected commit that has a higher id than every other run of its
/// workflow in the commit is among the commit's runs.
pub proof fn leading_runs_are_kept(runs: Seq<ApiRunView>, limit: nat, k: int, i: int)
    requires
        0 <= k < collect::selection(runs, limit).len(),
        0 <= i < runs.len(),
        runs[i].sha == collect::selection(runs, limit)[k].sha,
        forall|j: int|
            0 <= j < runs.len() && j != i && (#[trigger] runs[j]).sha == runs[i].sha
                && runs[j].workflow_id == runs[i].workflow_id ==> runs[j].id < runs[i].id,
    ensures
        collect::selection(runs, limit)[k].runs.contains(runs[i]),
{
    lemma_selection_prefix(runs, limit, k);
    let o = lemma_origin(runs, runs.len(), k);
    assert forall|j: int| 0 <= j < runs.len() implies !#[trigger] collect::supersedes(
        runs,
        j,
        i,
    ) by {
        if j != i && runs[j].sha == runs[i].sha && runs[j].workflow_id == runs[i].workflow_id {
            assert(runs[j].id < runs[i].id);
        }
    }
    lemma_counting_is_retained(runs, runs.len(), i);
}

/// Whether an optional timestamp denotes the point in time `t`.
pub open spec fn denotes(at: Option<Seq<char>>, t: Instant) -> bool {
    at matches Some(text) && clock::instant_of(text) == Some(t)
}

/// Whether an optional timestamp denotes no point in time.
pub open spec fn denotes_none(at: Option<Seq<char>>) -> bool {
    at matches Some(text) ==> clock::instant_of(text) is None
}

/// Whether a running run is known to have started at `t`: its start says so,
/// or, where its start denotes no point in time, its creation does.
pub open spec fn starts_at(run: ApiRunView, t: Instant) -> bool {
    denotes(run.started_at, t) || denotes_none(run.started_at) && denotes(run.created_at, t)
}

/// Of two running runs whose starts are known, the reported one is not the
/// earlier one; of two that started together it has the higher id, and of two
/// with the same id it is listed first. When they were created has no say.
pub proof fn the_reported_run_started_last(
    runs: Seq<ApiRunView>,
    i: int,
    j: int,
    s: Instant,
    t: Instant,
)
    requires
        collect::is_newest(collect::contenders(runs), i),
        0 <= j < runs.len(),
        runs[j].status == Some("in_progress"@),
        denotes(runs[i].started_at, s),
        denotes(runs[j].started_at, t),
    ensures
        runs[i].status == Some("in_progress"@),
        t.nanosecond <= s.nanosecond,
        t.nanosecond == s.nanosecond ==> runs[j].id <= runs[i].id,
        t.nanosecond == s.nanosecond && runs[j].id == runs[i].id ==> i <= j,
{
    let all = collect::contenders(runs);
    assert(all[i] == collect::contender(runs[i]));
    assert(all[j] == collect::contender(runs[j]));
    assert(!collect::beats(all[j], all[i]));
    if j < i {
        assert(collect::beats(all[i], all[j]));
    }
}

/// The same where a start denotes no point in time, and when the run was
/// created stands in for it.
pub proof fn creation_stands_in_for_a_start(
    runs: Seq<ApiRunView>,
    i: int,
    j: int,
    s: Instant,
    t: Instant,
)
    requires
        collect::is_newest(collect::contenders(runs), i),
        0 <= j < runs.len(),
        runs[j].status == Some("in_progress"@),
        starts_at(runs[i], s),
        starts_at(runs[j], t),
    ensures
        runs[i].status == Some("in_progress"@),
        t.nanosecond <= s.nanosecond,
        t.nanosecond == s.nanosecond ==> runs[j].id <= runs[i].id,
        t.nanosecond == s.nanosecond && runs[j].id == runs[i].id ==> i <= j,
{
    let all = collect::contenders(runs);
    assert(all[i] == collect::contender(runs[i]));
    assert(all[j] == collect::contender(runs[j]));
    assert(!collect::beats(all[j], all[i]));
    if j < i {
        assert(collect::beats(all[i], all[j]));
    }
}

/// A running run whose start is unknown is reported only where that of every
/// running run is, and then it is the one with the highest id, of those with
/// the same id the first.
pub proof fn unknown_starts_come_last(runs: Seq<ApiRunView>, i: int, j: int)
    requires
        collect::is_newest(collect::contenders(runs), i),
        0 <= j < runs.len(),
        runs[j].status == Some("in_progress"@),
        denotes_none(runs[i].started_at),
        denotes_none(runs[i].created_at),
    ensures
        denotes_none(runs[j].started_at),
        denotes_none(runs[j].created_at),
        runs[j].id <= runs[i].id,
        runs[j].id == runs[i].id ==> i <= j,
{
    let all = collect::contenders(runs);
    assert(all[i] == collect::contender(runs[i]));
    assert(all[j] == collect::contender(runs[j]));
    assert(!collect::beats(all[j], all[i]));
    if j < i {
        assert(collect::beats(all[i], all[j]));
    }
}

/// Where a run is running, one of the running runs is the one that is reported.
pub proof fn some_running_run_is_reported(runs: Seq<ApiRunView>, j: int)
    requires
        0 <= j < runs.len(),
        runs[j].status == Some("in_progress"@),
    ensures
        exists|i: int| #[trigger] collect::is_newest(collect::contenders(runs), i),
{
    let all = collect::contenders(runs);
    assert(all[j].running);
    lemma_some_newest(all, all.len(), j);
    assert(all.take(all.len() as int) =~= all);
}

proof fn lemma_some_newest(all: Seq<Contender>, n: nat, j: int)
    requires
        n <= all.len(),
        0 <= j < n,
        all[j].running,
    ensures
        exists|i: int| #[trigger] collect::is_newest(all.take(n as int), i),
    decreases n,
{
    let upto = all.take(n as int);
    let init = all.take(n - 1);
    let last = n - 1;
    if exists|k: int| 0 <= k < n - 1 && (#[trigger] all[k]).running {
        let k = choose|k: int| 0 <= k < n - 1 && (#[trigger] all[k]).running;
        lemma_some_newest(all, (n - 1) as nat, k);
        let b = choose|b: int| #[trigger] collect::is_newest(init, b);
        assert forall|m: int| 0 <= m < n - 1 implies #[trigger] upto[m] == init[m] by {}
        if upto[last].running && collect::beats(upto[last], upto[b]) {
            assert forall|m: int| 0 <= m < last && (#[trigger] upto[m]).running implies
                collect::beats(upto[last], upto[m]) by {
                assert(init[m].running);
                assert(!collect::beats(init[m], init[b]));
            }
            assert(collect::is_newest(upto, last));
        } else {
            assert(collect::is_newest(upto, b));
        }
    } else {
        assert forall|m: int| 0 <= m < last implies !(#[trigger] upto[m]).running by {
            assert(!all[m].running);
        }
        assert(upto[last].running);
        assert(collect::is_newest(upto, last));
    }
}

} // verus!
