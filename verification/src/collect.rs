//! From workflow runs to reports: what has settled, what is running, and how
//! both are reported.

use vstd::prelude::*;
use vstd::string::*;

use crate::clock;
use crate::clock::Instant;
use crate::github::{GitHubError, GitHubErrorView};
use crate::model;
use crate::model::{
    ActiveCommitReport, ActiveCommitView, ActiveRunReport, ActiveRunView, CommitReport, CommitView,
    Conclusion, JobReport, JobView, RepoReport, RepoView, RunReport, RunStatus, RunView,
    StepReport, StepView,
};
use crate::order;
use crate::text;

verus! {

/// A workflow run as the API lists it.
#[derive(Debug)]
pub struct ApiRun {
    /// Its id, which grows from run to run.
    pub id: u64,
    /// The id of its workflow.
    pub workflow_id: u64,
    /// The name of its workflow.
    pub name: Option<String>,
    /// Its display title.
    pub title: Option<String>,
    /// Its number in the workflow.
    pub run_number: u64,
    /// The event that triggered it.
    pub event: Option<String>,
    /// The branch it runs on.
    pub branch: Option<String>,
    /// The full SHA of its commit.
    pub sha: String,
    /// Its status.
    pub status: Option<String>,
    /// Its conclusion, once it is completed.
    pub conclusion: Option<String>,
    /// Its URL.
    pub url: Option<String>,
    /// When it was created.
    pub created_at: Option<String>,
    /// When it last changed.
    pub updated_at: Option<String>,
    /// When it started.
    pub started_at: Option<String>,
}

/// The view of an [`ApiRun`].
#[verifier::ext_equal]
pub struct ApiRunView {
    pub id: u64,
    pub workflow_id: u64,
    pub name: Option<Seq<char>>,
    pub title: Option<Seq<char>>,
    pub run_number: u64,
    pub event: Option<Seq<char>>,
    pub branch: Option<Seq<char>>,
    pub sha: Seq<char>,
    pub status: Option<Seq<char>>,
    pub conclusion: Option<Seq<char>>,
    pub url: Option<Seq<char>>,
    pub created_at: Option<Seq<char>>,
    pub updated_at: Option<Seq<char>>,
    pub started_at: Option<Seq<char>>,
}

impl View for ApiRun {
    type V = ApiRunView;

    open spec fn view(&self) -> ApiRunView {
        ApiRunView {
            id: self.id,
            workflow_id: self.workflow_id,
            name: text::option_view(self.name),
            title: text::option_view(self.title),
            run_number: self.run_number,
            event: text::option_view(self.event),
            branch: text::option_view(self.branch),
            sha: self.sha@,
            status: text::option_view(self.status),
            conclusion: text::option_view(self.conclusion),
            url: text::option_view(self.url),
            created_at: text::option_view(self.created_at),
            updated_at: text::option_view(self.updated_at),
            started_at: text::option_view(self.started_at),
        }
    }
}

/// The views of a sequence of runs.
pub open spec fn run_views(runs: Seq<ApiRun>) -> Seq<ApiRunView> {
    runs.map_values(|r: ApiRun| r@)
}

/// A commit with those of its runs that count.
pub struct SelectedCommit<'a> {
    /// Its full SHA.
    pub sha: String,
    /// Its runs.
    pub runs: Vec<&'a ApiRun>,
}

/// The view of a [`SelectedCommit`].
#[verifier::ext_equal]
pub struct SelectedView {
    pub sha: Seq<char>,
    pub runs: Seq<ApiRunView>,
}

/// The views of a sequence of borrowed runs.
pub open spec fn ref_views(runs: Seq<&ApiRun>) -> Seq<ApiRunView> {
    runs.map_values(|r: &ApiRun| r@)
}

impl<'a> View for SelectedCommit<'a> {
    type V = SelectedView;

    open spec fn view(&self) -> SelectedView {
        SelectedView { sha: self.sha@, runs: ref_views(self.runs@) }
    }
}

/// The views of a sequence of selected commits.
pub open spec fn selected_views(commits: Seq<SelectedCommit>) -> Seq<SelectedView> {
    commits.map_values(|c: SelectedCommit| c@)
}

/// Whether run `j` takes the place of run `i`: one of the same workflow and
/// commit with a higher id. Of two runs with the same id the first counts.
pub open spec fn supersedes(runs: Seq<ApiRunView>, j: int, i: int) -> bool {
    &&& runs[j].sha == runs[i].sha
    &&& runs[j].workflow_id == runs[i].workflow_id
    &&& runs[j].id > runs[i].id || (runs[j].id == runs[i].id && j < i)
}

/// Whether no run takes the place of run `i`.
pub open spec fn counts(runs: Seq<ApiRunView>, i: int) -> bool {
    forall|j: int| 0 <= j < runs.len() ==> !#[trigger] supersedes(runs, j, i)
}

/// The runs of a commit that count, among the first `n`, in order.
pub open spec fn retained(runs: Seq<ApiRunView>, sha: Seq<char>, n: nat) -> Seq<ApiRunView>
    decreases n,
{
    if n == 0 {
        Seq::empty()
    } else {
        let before = retained(runs, sha, (n - 1) as nat);
        if runs[n - 1].sha == sha && counts(runs, n - 1) {
            before.push(runs[n - 1])
        } else {
            before
        }
    }
}

/// Whether a run is completed.
pub open spec fn completed(run: ApiRunView) -> bool {
    run.status == Some("completed"@)
}

/// Whether every run of a commit that counts is completed.
pub open spec fn settled(runs: Seq<ApiRunView>, sha: Seq<char>) -> bool {
    forall|i: int|
        0 <= i < runs.len() && (#[trigger] runs[i]).sha == sha && counts(runs, i) ==> completed(
            runs[i],
        )
}

/// Whether run `i` is the first of its commit.
pub open spec fn opens_commit(runs: Seq<ApiRunView>, i: int) -> bool {
    forall|j: int| 0 <= j < i ==> (#[trigger] runs[j]).sha != runs[i].sha
}

/// The settled commits whose first run is among the first `n`, in the order of
/// their first runs.
pub open spec fn settled_commits(runs: Seq<ApiRunView>, n: nat) -> Seq<SelectedView>
    decreases n,
{
    if n == 0 {
        Seq::empty()
    } else {
        let before = settled_commits(runs, (n - 1) as nat);
        let sha = runs[n - 1].sha;
        if opens_commit(runs, n - 1) && settled(runs, sha) {
            before.push(SelectedView { sha, runs: retained(runs, sha, runs.len()) })
        } else {
            before
        }
    }
}

/// The first `limit` settled commits.
pub open spec fn selection(runs: Seq<ApiRunView>, limit: nat) -> Seq<SelectedView> {
    let all = settled_commits(runs, runs.len());
    if all.len() > limit {
        all.take(limit as int)
    } else {
        all
    }
}

/// Whether a text is there and is `wanted`.
fn is_text(s: &Option<String>, wanted: &str) -> (r: bool)
    ensures
        r == (text::option_view(*s) == Some(wanted@)),
{
    match s {
        Some(t) => text::same(t.as_str(), wanted),
        None => false,
    }
}

/// Whether no run takes the place of run `i`.
fn run_counts(runs: &Vec<ApiRun>, i: usize) -> (r: bool)
    requires
        i < runs@.len(),
    ensures
        r == counts(run_views(runs@), i as int),
{
    let ghost all = run_views(runs@);
    for j in 0..runs.len()
        invariant
            i < runs@.len(),
            all == run_views(runs@),
            forall|k: int| 0 <= k < j ==> !#[trigger] supersedes(all, k, i as int),
    {
        let a = &runs[j];
        let b = &runs[i];
        if a.workflow_id == b.workflow_id && (a.id > b.id || (a.id == b.id && j < i))
            && text::same(a.sha.as_str(), b.sha.as_str()) {
            assert(supersedes(all, j as int, i as int));
            return false;
        }
        assert(!supersedes(all, j as int, i as int));
    }
    true
}

/// Whether run `i` is the first of its commit.
fn run_opens_commit(runs: &Vec<ApiRun>, i: usize) -> (r: bool)
    requires
        i < runs@.len(),
    ensures
        r == opens_commit(run_views(runs@), i as int),
{
    let ghost all = run_views(runs@);
    for j in 0..i
        invariant
            i < runs@.len(),
            all == run_views(runs@),
            forall|k: int| 0 <= k < j ==> (#[trigger] all[k]).sha != all[i as int].sha,
    {
        if text::same(runs[j].sha.as_str(), runs[i].sha.as_str()) {
            assert(all[j as int].sha == all[i as int].sha);
            return false;
        }
    }
    true
}

/// The runs of a commit that count, where all of them are completed.
fn settled_runs<'a>(runs: &'a Vec<ApiRun>, kept: &Vec<bool>, sha: &str) -> (r: Option<
    Vec<&'a ApiRun>,
>)
    requires
        kept@.len() == runs@.len(),
        forall|i: int|
            0 <= i < runs@.len() ==> #[trigger] kept@[i] == counts(run_views(runs@), i),
    ensures
        match r {
            Some(list) => settled(run_views(runs@), sha@) && ref_views(list@) == retained(
                run_views(runs@),
                sha@,
                runs@.len(),
            ),
            None => !settled(run_views(runs@), sha@),
        },
{
    let ghost all = run_views(runs@);
    let mut list: Vec<&'a ApiRun> = Vec::new();
    assert(ref_views(list@) =~= Seq::empty());
    for i in 0..runs.len()
        invariant
            all == run_views(runs@),
            kept@.len() == runs@.len(),
            forall|i: int| 0 <= i < runs@.len() ==> #[trigger] kept@[i] == counts(all, i),
            ref_views(list@) == retained(all, sha@, i as nat),
            forall|k: int|
                0 <= k < i && (#[trigger] all[k]).sha == sha@ && counts(all, k) ==> completed(
                    all[k],
                ),
    {
        let run = &runs[i];
        assert(all[i as int] == run@);
        assert(kept@[i as int] == counts(all, i as int));
        if kept[i] && text::same(run.sha.as_str(), sha) {
            if !is_text(&run.status, "completed") {
                return None;
            }
            let ghost before = list@;
            list.push(run);
            assert(ref_views(list@) =~= ref_views(before).push(run@));
        }
    }
    Some(list)
}

/// Earlier commits stay at the front.
proof fn lemma_settled_commits_grow(runs: Seq<ApiRunView>, n: nat, m: nat)
    requires
        n <= m,
    ensures
        settled_commits(runs, n).len() <= settled_commits(runs, m).len(),
        settled_commits(runs, m).take(settled_commits(runs, n).len() as int) == settled_commits(
            runs,
            n,
        ),
    decreases m - n,
{
    if n < m {
        lemma_settled_commits_grow(runs, n, (m - 1) as nat);
        let short = settled_commits(runs, (m - 1) as nat);
        let long = settled_commits(runs, m);
        let k = settled_commits(runs, n).len() as int;
        assert(long.take(k) =~= short.take(k));
    } else {
        let all = settled_commits(runs, n);
        assert(all.take(all.len() as int) =~= all);
    }
}

/// Select the first `limit` commits all of whose runs are completed, in the
/// order in which the API lists them. Of several runs of a workflow for a
/// commit the one with the highest id counts.
pub fn select_settled_commits<'a>(runs: &'a Vec<ApiRun>, limit: u32) -> (r: Vec<SelectedCommit<'a>>)
    ensures
        selected_views(r@) == selection(run_views(runs@), limit as nat),
{
    let ghost all = run_views(runs@);
    let mut kept: Vec<bool> = Vec::new();
    for i in 0..runs.len()
        invariant
            all == run_views(runs@),
            kept@.len() == i,
            forall|k: int| 0 <= k < i ==> #[trigger] kept@[k] == counts(all, k),
    {
        let counted = run_counts(runs, i);
        kept.push(counted);
    }
    let mut commits: Vec<SelectedCommit<'a>> = Vec::new();
    assert(selected_views(commits@) =~= Seq::empty());
    for i in 0..runs.len()
        invariant
            all == run_views(runs@),
            kept@.len() == runs@.len(),
            forall|k: int| 0 <= k < runs@.len() ==> #[trigger] kept@[k] == counts(all, k),
            commits@.len() <= limit,
            selected_views(commits@) == settled_commits(all, i as nat),
    {
        assert(selected_views(commits@).len() == commits@.len());
        if commits.len() == limit as usize {
            proof {
                lemma_settled_commits_grow(all, i as nat, all.len());
                assert(all.len() == runs@.len());
                let full = settled_commits(all, all.len());
                assert(full.take(full.len() as int) =~= full);
            }
            return commits;
        }
        assert(all[i as int] == runs@[i as int]@);
        if run_opens_commit(runs, i) {
            let sha = runs[i].sha.as_str();
            if let Some(list) = settled_runs(runs, &kept, sha) {
                let ghost before = commits@;
                let commit = SelectedCommit { sha: sha.to_owned(), runs: list };
                commits.push(commit);
                assert(selected_views(commits@) =~= selected_views(before).push(commit@));
            }
        }
    }
    assert(selected_views(commits@).len() == commits@.len());
    assert(all.len() == runs@.len());
    commits
}

/// What decides which of several running runs is reported.
#[derive(Debug, Clone, Copy, PartialEq, Eq, Structural)]
pub struct Contender {
    /// Whether the run is running at all.
    pub running: bool,
    /// When it started, where that is known.
    pub start: Option<Instant>,
    /// Its id.
    pub id: u64,
}

/// Whether `a` started later than `b`; a known start counts as later than an
/// unknown one.
pub open spec fn later(a: Option<Instant>, b: Option<Instant>) -> bool {
    match (a, b) {
        (Some(x), Some(y)) => x.nanosecond > y.nanosecond,
        (Some(_), None) => true,
        _ => false,
    }
}

/// Whether `a` is reported rather than `b`: it started later, or neither did
/// and it has the higher id.
pub open spec fn beats(a: Contender, b: Contender) -> bool {
    later(a.start, b.start) || (!later(b.start, a.start) && a.id > b.id)
}

/// Whether `i` is the running one that is reported: no other beats it, and it
/// beats those before it.
pub open spec fn is_newest(all: Seq<Contender>, i: int) -> bool {
    &&& 0 <= i < all.len()
    &&& all[i].running
    &&& forall|j: int| 0 <= j < all.len() && (#[trigger] all[j]).running ==> !beats(all[j], all[i])
    &&& forall|j: int| 0 <= j < i && (#[trigger] all[j]).running ==> beats(all[i], all[j])
}

/// Whether `a` started later than `b`.
fn started_later(a: Option<Instant>, b: Option<Instant>) -> (r: bool)
    ensures
        r == later(a, b),
{
    match (a, b) {
        (Some(x), Some(y)) => x.nanosecond > y.nanosecond,
        (Some(_), None) => true,
        _ => false,
    }
}

/// Of the running contenders, the one that started last; of those that did so
/// together, the one with the highest id; of those, the first.
pub fn newest(all: &Vec<Contender>) -> (r: Option<usize>)
    ensures
        match r {
            Some(i) => is_newest(all@, i as int),
            None => forall|j: int| 0 <= j < all@.len() ==> !(#[trigger] all@[j]).running,
        },
{
    let mut best: Option<usize> = None;
    for i in 0..all.len()
        invariant
            match best {
                Some(b) => is_newest(all@.take(i as int), b as int),
                None => forall|j: int| 0 <= j < i ==> !(#[trigger] all@[j]).running,
            },
    {
        let ghost upto = all@.take(i as int);
        let ghost more = all@.take(i + 1);
        assert forall|j: int| 0 <= j < i implies #[trigger] more[j] == upto[j] by {}
        let x = all[i];
        if x.running {
            match best {
                None => {
                    best = Some(i);
                    assert forall|j: int|
                        0 <= j < more.len() && (#[trigger] more[j]).running implies j == i by {
                        if j < i {
                            assert(!all@[j].running);
                        }
                    }
                    assert(is_newest(more, i as int));
                },
                Some(b) => {
                    let y = all[b];
                    assert(upto[b as int] == y);
                    let wins = started_later(x.start, y.start) || (!started_later(y.start, x.start)
                        && x.id > y.id);
                    if wins {
                        best = Some(i);
                        assert forall|j: int|
                            0 <= j < i && (#[trigger] more[j]).running implies beats(x, more[j]) by {
                            assert(upto[j].running);
                            assert(!beats(upto[j], y));
                        }
                        assert(is_newest(more, i as int));
                    } else {
                        assert(is_newest(more, b as int));
                    }
                },
            }
        } else {
            match best {
                None => {},
                Some(b) => {
                    assert(is_newest(more, b as int));
                },
            }
        }
    }
    assert(all@.take(all@.len() as int) =~= all@);
    best
}

/// The point in time that an optional timestamp denotes.
pub open spec fn time_of(at: Option<Seq<char>>) -> Option<Instant> {
    match at {
        Some(t) => clock::instant_of(t),
        None => None,
    }
}

/// The point in time that an optional timestamp denotes.
fn optional_instant(at: &Option<String>) -> (r: Option<Instant>)
    ensures
        r == time_of(text::option_view(*at)),
        r matches Some(t) ==> t.in_range(),
{
    match at {
        Some(t) => clock::instant(t.as_str()),
        None => None,
    }
}

/// What decides whether a run is the running one that is reported. Its start
/// is when it started, or, where that cannot be read, when it was created.
pub open spec fn contender(run: ApiRunView) -> Contender {
    Contender {
        running: run.status == Some("in_progress"@),
        start: match time_of(run.started_at) {
            Some(t) => Some(t),
            None => time_of(run.created_at),
        },
        id: run.id,
    }
}

/// What decides among runs.
pub open spec fn contenders(runs: Seq<ApiRunView>) -> Seq<Contender> {
    runs.map_values(|r: ApiRunView| contender(r))
}

/// Select the running run that started last.
pub fn select_most_recent_running(runs: &Vec<ApiRun>) -> (r: Option<usize>)
    ensures
        match r {
            Some(i) => is_newest(contenders(run_views(runs@)), i as int),
            None => forall|j: int|
                0 <= j < runs@.len() ==> (#[trigger] run_views(runs@)[j]).status != Some(
                    "in_progress"@,
                ),
        },
{
    let ghost all = contenders(run_views(runs@));
    let mut list: Vec<Contender> = Vec::new();
    for i in 0..runs.len()
        invariant
            all == contenders(run_views(runs@)),
            list@ == all.take(i as int),
    {
        let run = &runs[i];
        let start = match optional_instant(&run.started_at) {
            Some(t) => Some(t),
            None => optional_instant(&run.created_at),
        };
        let running = is_text(&run.status, "in_progress");
        list.push(Contender { running, start, id: run.id });
        assert(run_views(runs@)[i as int] == run@);
        assert(all.take(i + 1) =~= all.take(i as int).push(all[i as int]));
    }
    assert(all.take(all.len() as int) =~= all);
    let best = newest(&list);
    proof {
        if best is None {
            assert forall|j: int| 0 <= j < runs@.len() implies (#[trigger] run_views(runs@)[j]).status
                != Some("in_progress"@) by {
                assert(!list@[j].running);
            }
        }
    }
    best
}

/// The text, or the empty one in place of none.
pub open spec fn or_empty(s: Option<Seq<char>>) -> Seq<char> {
    match s {
        Some(t) => t,
        None => Seq::empty(),
    }
}

/// The text, or the empty one in place of none.
fn text_of(s: &Option<String>) -> (r: String)
    ensures
        r@ == or_empty(text::option_view(*s)),
{
    match s {
        Some(t) => t.clone(),
        None => {
            let none = String::new();
            assert(none@ =~= Seq::empty());
            none
        },
    }
}

/// A copy of an optional text.
fn copy_of(s: &Option<String>) -> (r: Option<String>)
    ensures
        text::option_view(r) == text::option_view(*s),
{
    match s {
        Some(t) => Some(t.clone()),
        None => None,
    }
}

/// The first seven characters of a SHA.
pub open spec fn short(sha: Seq<char>) -> Seq<char> {
    if sha.len() > 7 {
        sha.take(7)
    } else {
        sha
    }
}

/// The URL of a commit of a repository.
pub open spec fn commit_url(repo: Seq<char>, sha: Seq<char>) -> Seq<char> {
    "https://github.com/"@ + repo + "/commit/"@ + sha
}

/// The URL of a commit of a repository.
fn commit_url_text(repo: &str, sha: &str) -> (r: String)
    ensures
        r@ == commit_url(repo@, sha@),
{
    "https://github.com/".to_owned().concat(repo).concat("/commit/").concat(sha)
}

/// The report of a running run.
pub open spec fn active_run_report(run: ApiRunView) -> ActiveRunView {
    ActiveRunView {
        workflow: or_empty(run.name),
        title: or_empty(run.title),
        run_number: run.run_number,
        event: or_empty(run.event),
        branch: or_empty(run.branch),
        sha: short(run.sha),
        status: RunStatus::InProgress,
        url: or_empty(run.url),
        created_at: or_empty(run.created_at),
        started_at: run.started_at,
    }
}

/// The report of the commit of a running run.
pub open spec fn active_report(repo: Seq<char>, run: ApiRunView) -> ActiveCommitView {
    ActiveCommitView {
        sha: short(run.sha),
        title: or_empty(run.title),
        branch: or_empty(run.branch),
        event: or_empty(run.event),
        url: commit_url(repo, run.sha),
        started_at: match run.started_at {
            Some(at) => at,
            None => or_empty(run.created_at),
        },
        runs: seq![active_run_report(run)],
    }
}

/// Report a running run.
pub fn normalize_active_run(run: &ApiRun) -> (r: ActiveRunReport)
    ensures
        r@ == active_run_report(run@),
{
    ActiveRunReport {
        workflow: text_of(&run.name),
        title: text_of(&run.title),
        run_number: run.run_number,
        event: text_of(&run.event),
        branch: text_of(&run.branch),
        sha: text::first_chars(run.sha.as_str(), 7),
        status: RunStatus::InProgress,
        url: text_of(&run.url),
        created_at: text_of(&run.created_at),
        started_at: copy_of(&run.started_at),
    }
}

/// Report the commit of a running run of a repository.
pub fn build_active_commit_report(repo: &str, run: &ApiRun) -> (r: ActiveCommitReport)
    ensures
        r@ == active_report(repo@, run@),
{
    let r = ActiveCommitReport {
        sha: text::first_chars(run.sha.as_str(), 7),
        title: text_of(&run.title),
        branch: text_of(&run.branch),
        event: text_of(&run.event),
        url: commit_url_text(repo, run.sha.as_str()),
        started_at: match &run.started_at {
            Some(at) => at.clone(),
            None => text_of(&run.created_at),
        },
        runs: vec![normalize_active_run(run)],
    };
    assert(r@.runs =~= active_report(repo@, run@).runs);
    r
}

/// What is reported as running, of the runs that the API lists: the running
/// run that started last, or nothing.
pub open spec fn is_active_section(
    repo: Seq<char>,
    runs: Seq<ApiRunView>,
    section: Seq<ActiveCommitView>,
) -> bool {
    ||| section.len() == 0 && forall|j: int|
        0 <= j < runs.len() ==> (#[trigger] runs[j]).status != Some("in_progress"@)
    ||| exists|i: int|
        is_newest(contenders(runs), i) && section == seq![active_report(repo, #[trigger] runs[i])]
}

/// Report what is running in a repository.
pub fn active_commits(repo: &str, runs: &Vec<ApiRun>) -> (r: Vec<ActiveCommitReport>)
    ensures
        is_active_section(
            repo@,
            run_views(runs@),
            r@.map_values(|c: ActiveCommitReport| c@),
        ),
{
    match select_most_recent_running(runs) {
        None => {
            let none: Vec<ActiveCommitReport> = Vec::new();
            none
        },
        Some(i) => {
            assert(contenders(run_views(runs@)).len() == runs@.len());
            assert(run_views(runs@)[i as int] == runs@[i as int]@);
            let r: Vec<ActiveCommitReport> = vec![build_active_commit_report(repo, &runs[i])];
            assert(r@.map_values(|c: ActiveCommitReport| c@) =~= seq![
                active_report(repo@, run_views(runs@)[i as int]),
            ]);
            r
        },
    }
}

/// A step as the API lists it.
#[derive(Debug)]
pub struct ApiStep {
    /// Its name.
    pub name: Option<String>,
    /// Its number in the job.
    pub number: u64,
    /// Its conclusion.
    pub conclusion: Option<String>,
}

/// A job as the API lists it.
#[derive(Debug)]
pub struct ApiJob {
    /// Its name.
    pub name: Option<String>,
    /// Its conclusion.
    pub conclusion: Option<String>,
    /// Its URL.
    pub url: Option<String>,
    /// Its steps.
    pub steps: Vec<ApiStep>,
}

/// The view of an [`ApiStep`].
pub struct ApiStepView {
    pub name: Option<Seq<char>>,
    pub number: u64,
    pub conclusion: Option<Seq<char>>,
}

/// The view of an [`ApiJob`].
pub struct ApiJobView {
    pub name: Option<Seq<char>>,
    pub conclusion: Option<Seq<char>>,
    pub url: Option<Seq<char>>,
    pub steps: Seq<ApiStepView>,
}

impl View for ApiStep {
    type V = ApiStepView;

    open spec fn view(&self) -> ApiStepView {
        ApiStepView {
            name: text::option_view(self.name),
            number: self.number,
            conclusion: text::option_view(self.conclusion),
        }
    }
}

impl View for ApiJob {
    type V = ApiJobView;

    open spec fn view(&self) -> ApiJobView {
        ApiJobView {
            name: text::option_view(self.name),
            conclusion: text::option_view(self.conclusion),
            url: text::option_view(self.url),
            steps: self.steps@.map_values(|s: ApiStep| s@),
        }
    }
}

/// The reports of those steps that are problems.
pub open spec fn problem_steps(steps: Seq<ApiStepView>) -> Seq<StepView>
    decreases steps.len(),
{
    if steps.len() == 0 {
        Seq::empty()
    } else {
        let before = problem_steps(steps.drop_last());
        let conclusion = Conclusion::named(steps.last().conclusion);
        if conclusion.needs_attention() {
            before.push(
                StepView {
                    name: or_empty(steps.last().name),
                    number: steps.last().number,
                    conclusion,
                },
            )
        } else {
            before
        }
    }
}

/// The reports of those jobs that are problems, with those of their steps.
pub open spec fn problem_jobs(jobs: Seq<ApiJobView>) -> Seq<JobView>
    decreases jobs.len(),
{
    if jobs.len() == 0 {
        Seq::empty()
    } else {
        let before = problem_jobs(jobs.drop_last());
        let conclusion = Conclusion::named(jobs.last().conclusion);
        if conclusion.needs_attention() {
            before.push(
                JobView {
                    name: or_empty(jobs.last().name),
                    conclusion,
                    url: or_empty(jobs.last().url),
                    steps: problem_steps(jobs.last().steps),
                },
            )
        } else {
            before
        }
    }
}

/// Report those steps that are problems.
pub fn problem_step_reports(steps: &Vec<ApiStep>) -> (r: Vec<StepReport>)
    ensures
        r@.map_values(|s: StepReport| s@) == problem_steps(steps@.map_values(|s: ApiStep| s@)),
{
    let ghost all = steps@.map_values(|s: ApiStep| s@);
    let mut list: Vec<StepReport> = Vec::new();
    let ghost mut seen: Seq<StepView> = Seq::empty();
    assert(all.take(0) =~= Seq::empty());
    for i in 0..steps.len()
        invariant
            all == steps@.map_values(|s: ApiStep| s@),
            seen == list@.map_values(|s: StepReport| s@),
            seen == problem_steps(all.take(i as int)),
    {
        let step = &steps[i];
        assert(all.take(i + 1).drop_last() =~= all.take(i as int));
        assert(all.take(i + 1).last() == step@);
        let conclusion = Conclusion::from_github(&step.conclusion);
        if conclusion.is_problem() {
            let report = StepReport {
                name: text_of(&step.name),
                number: step.number,
                conclusion,
            };
            list.push(report);
            proof {
                seen = seen.push(report@);
                assert(list@.map_values(|s: StepReport| s@) =~= seen);
            }
        }
    }
    assert(all.take(all.len() as int) =~= all);
    list
}

/// Report those jobs that are problems.
pub fn problem_job_reports(jobs: &Vec<ApiJob>) -> (r: Vec<JobReport>)
    ensures
        r@.map_values(|j: JobReport| j@) == problem_jobs(jobs@.map_values(|j: ApiJob| j@)),
{
    let ghost all = jobs@.map_values(|j: ApiJob| j@);
    let mut list: Vec<JobReport> = Vec::new();
    let ghost mut seen: Seq<JobView> = Seq::empty();
    assert(all.take(0) =~= Seq::empty());
    for i in 0..jobs.len()
        invariant
            all == jobs@.map_values(|j: ApiJob| j@),
            seen == list@.map_values(|j: JobReport| j@),
            seen == problem_jobs(all.take(i as int)),
    {
        let job = &jobs[i];
        assert(all.take(i + 1).drop_last() =~= all.take(i as int));
        assert(all.take(i + 1).last() == job@);
        let conclusion = Conclusion::from_github(&job.conclusion);
        if conclusion.is_problem() {
            let report = JobReport {
                name: text_of(&job.name),
                conclusion,
                url: text_of(&job.url),
                steps: problem_step_reports(&job.steps),
            };
            list.push(report);
            proof {
                seen = seen.push(report@);
                assert(list@.map_values(|j: JobReport| j@) =~= seen);
            }
        }
    }
    assert(all.take(all.len() as int) =~= all);
    list
}

/// The whole seconds from one point in time to a later one.
pub open spec fn seconds_between(start: Option<Instant>, end: Option<Instant>) -> Option<nat> {
    match (start, end) {
        (Some(a), Some(b)) => if a.second <= b.second {
            Some((b.second - a.second) as nat)
        } else {
            None
        },
        _ => None,
    }
}

/// A number of seconds as a `u64`.
pub open spec fn seconds_u64(secs: Option<nat>) -> Option<u64> {
    match secs {
        Some(n) => Some(n as u64),
        None => None,
    }
}

/// The whole seconds from one point in time to a later one; nothing where
/// either is unknown, or the second is not the later one.
pub fn duration_seconds(start: Option<Instant>, end: Option<Instant>) -> (r: Option<u64>)
    requires
        start matches Some(a) ==> a.in_range(),
        end matches Some(b) ==> b.in_range(),
    ensures
        match r {
            Some(n) => seconds_between(start, end) == Some(n as nat),
            None => seconds_between(start, end) is None,
        },
        r == seconds_u64(seconds_between(start, end)),
{
    match (start, end) {
        (Some(a), Some(b)) => if a.second <= b.second {
            Some((b.second - a.second) as u64)
        } else {
            None
        },
        _ => None,
    }
}

/// When a run started: its own start, or, where that is absent, when it was
/// created.
pub open spec fn run_start(run: ApiRunView) -> Option<Instant> {
    match run.started_at {
        Some(at) => clock::instant_of(at),
        None => time_of(run.created_at),
    }
}

/// When a run started.
fn start_of(run: &ApiRun) -> (r: Option<Instant>)
    ensures
        r == run_start(run@),
        r matches Some(t) ==> t.in_range(),
{
    match &run.started_at {
        Some(at) => clock::instant(at.as_str()),
        None => optional_instant(&run.created_at),
    }
}

/// The report of a completed run with the jobs that the API lists for it,
/// given when it started and when it finished.
pub open spec fn run_report_at(
    run: ApiRunView,
    jobs: Seq<ApiJobView>,
    start: Option<Instant>,
    finish: Option<Instant>,
) -> RunView {
    let conclusion = Conclusion::named(run.conclusion);
    RunView {
        workflow: or_empty(run.name),
        title: or_empty(run.title),
        run_number: run.run_number,
        event: or_empty(run.event),
        branch: or_empty(run.branch),
        sha: short(run.sha),
        conclusion,
        url: or_empty(run.url),
        created_at: or_empty(run.created_at),
        updated_at: or_empty(run.updated_at),
        duration_seconds: seconds_u64(seconds_between(start, finish)),
        jobs: if conclusion.needs_attention() {
            problem_jobs(jobs)
        } else {
            Seq::empty()
        },
    }
}

/// Report a completed run with the jobs that the API lists for it, given when
/// it started and when it finished.
pub fn normalize_run_at(
    run: &ApiRun,
    jobs: &Vec<ApiJob>,
    start: Option<Instant>,
    finish: Option<Instant>,
) -> (r: RunReport)
    requires
        start matches Some(t) ==> t.in_range(),
        finish matches Some(t) ==> t.in_range(),
    ensures
        r@ == run_report_at(run@, jobs@.map_values(|j: ApiJob| j@), start, finish),
{
    let conclusion = Conclusion::from_github(&run.conclusion);
    let jobs: Vec<JobReport> = if conclusion.is_problem() {
        problem_job_reports(jobs)
    } else {
        Vec::new()
    };
    let r = RunReport {
        workflow: text_of(&run.name),
        title: text_of(&run.title),
        run_number: run.run_number,
        event: text_of(&run.event),
        branch: text_of(&run.branch),
        sha: text::first_chars(run.sha.as_str(), 7),
        conclusion,
        url: text_of(&run.url),
        created_at: text_of(&run.created_at),
        updated_at: text_of(&run.updated_at),
        duration_seconds: duration_seconds(start, finish),
        jobs,
    };
    assert(!conclusion.needs_attention() ==> r@.jobs =~= Seq::empty());
    r
}

/// Report a completed run with the jobs that the API lists for it.
pub fn normalize_run(run: &ApiRun, jobs: &Vec<ApiJob>) -> (r: RunReport)
    ensures
        r@ == run_report_at(
            run@,
            jobs@.map_values(|j: ApiJob| j@),
            run_start(run@),
            time_of(run@.updated_at),
        ),
{
    normalize_run_at(run, jobs, start_of(run), optional_instant(&run.updated_at))
}

/// Where the latest of the known points in time stands; of equal ones the
/// first.
pub open spec fn latest_of(times: Seq<Option<Instant>>) -> Option<nat>
    decreases times.len(),
{
    if times.len() == 0 {
        None
    } else {
        let n = (times.len() - 1) as nat;
        match (latest_of(times.drop_last()), times.last()) {
            (None, None) => None,
            (None, Some(_)) => Some(n),
            (Some(b), None) => Some(b),
            (Some(b), Some(t)) => if times[b as int] matches Some(x) && t.nanosecond
                <= x.nanosecond {
                Some(b)
            } else {
                Some(n)
            },
        }
    }
}

/// Where the earliest of the known points in time stands; of equal ones the
/// first.
pub open spec fn earliest_of(times: Seq<Option<Instant>>) -> Option<nat>
    decreases times.len(),
{
    if times.len() == 0 {
        None
    } else {
        let n = (times.len() - 1) as nat;
        match (earliest_of(times.drop_last()), times.last()) {
            (None, None) => None,
            (None, Some(_)) => Some(n),
            (Some(b), None) => Some(b),
            (Some(b), Some(t)) => if times[b as int] matches Some(x) && x.nanosecond
                <= t.nanosecond {
                Some(b)
            } else {
                Some(n)
            },
        }
    }
}

/// What the latest one is: known, no earlier than any other, and later than
/// those before it.
pub proof fn latest_is_latest(times: Seq<Option<Instant>>)
    ensures
        match latest_of(times) {
            None => forall|j: int| 0 <= j < times.len() ==> (#[trigger] times[j]) is None,
            Some(b) => {
                &&& b < times.len()
                &&& times[b as int] is Some
                &&& forall|j: int|
                    0 <= j < times.len() && (#[trigger] times[j]) is Some ==> times[j]->0.nanosecond
                        <= times[b as int]->0.nanosecond
                &&& forall|j: int|
                    0 <= j < b && (#[trigger] times[j]) is Some ==> times[j]->0.nanosecond
                        < times[b as int]->0.nanosecond
            },
        },
    decreases times.len(),
{
    if times.len() > 0 {
        let init = times.drop_last();
        latest_is_latest(init);
        assert forall|j: int| 0 <= j < init.len() implies #[trigger] times[j] == init[j] by {}
    }
}

/// What the earliest one is: known, no later than any other, and earlier than
/// those before it.
pub proof fn earliest_is_earliest(times: Seq<Option<Instant>>)
    ensures
        match earliest_of(times) {
            None => forall|j: int| 0 <= j < times.len() ==> (#[trigger] times[j]) is None,
            Some(b) => {
                &&& b < times.len()
                &&& times[b as int] is Some
                &&& forall|j: int|
                    0 <= j < times.len() && (#[trigger] times[j]) is Some
                        ==> times[b as int]->0.nanosecond <= times[j]->0.nanosecond
                &&& forall|j: int|
                    0 <= j < b && (#[trigger] times[j]) is Some ==> times[b as int]->0.nanosecond
                        < times[j]->0.nanosecond
            },
        },
    decreases times.len(),
{
    if times.len() > 0 {
        let init = times.drop_last();
        earliest_is_earliest(init);
        assert forall|j: int| 0 <= j < init.len() implies #[trigger] times[j] == init[j] by {}
    }
}

/// Find the latest of the known points in time.
pub fn latest(times: &Vec<Option<Instant>>) -> (r: Option<usize>)
    ensures
        match r {
            Some(b) => b < times@.len() && times@[b as int] is Some && latest_of(times@) == Some(
                b as nat,
            ),
            None => latest_of(times@) is None,
        },
{
    let mut best: Option<usize> = None;
    assert(times@.take(0) =~= Seq::empty());
    for i in 0..times.len()
        invariant
            match best {
                Some(b) => b < i && latest_of(times@.take(i as int)) == Some(b as nat)
                    && times@[b as int] is Some,
                None => latest_of(times@.take(i as int)) is None,
            },
    {
        assert(times@.take(i + 1).drop_last() =~= times@.take(i as int));
        if let Some(t) = times[i] {
            let replace = match best {
                Some(b) => match times[b] {
                    Some(x) => !(t.nanosecond <= x.nanosecond),
                    None => true,
                },
                None => true,
            };
            if replace {
                best = Some(i);
            }
        }
    }
    assert(times@.take(times@.len() as int) =~= times@);
    best
}

/// Find the earliest of the known points in time.
pub fn earliest(times: &Vec<Option<Instant>>) -> (r: Option<usize>)
    ensures
        match r {
            Some(b) => b < times@.len() && times@[b as int] is Some && earliest_of(times@) == Some(
                b as nat,
            ),
            None => earliest_of(times@) is None,
        },
{
    let mut best: Option<usize> = None;
    assert(times@.take(0) =~= Seq::empty());
    for i in 0..times.len()
        invariant
            match best {
                Some(b) => b < i && earliest_of(times@.take(i as int)) == Some(b as nat)
                    && times@[b as int] is Some,
                None => earliest_of(times@.take(i as int)) is None,
            },
    {
        assert(times@.take(i + 1).drop_last() =~= times@.take(i as int));
        if let Some(t) = times[i] {
            let replace = match best {
                Some(b) => match times[b] {
                    Some(x) => !(x.nanosecond <= t.nanosecond),
                    None => true,
                },
                None => true,
            };
            if replace {
                best = Some(i);
            }
        }
    }
    assert(times@.take(times@.len() as int) =~= times@);
    best
}

/// When the runs started.
pub open spec fn starts(runs: Seq<ApiRunView>) -> Seq<Option<Instant>> {
    runs.map_values(|r: ApiRunView| run_start(r))
}

/// When the runs finished.
pub open spec fn finishes(runs: Seq<ApiRunView>) -> Seq<Option<Instant>> {
    runs.map_values(|r: ApiRunView| time_of(r.updated_at))
}

/// When the last of the runs finished, given when each did; where that is
/// unknown of all of them, what the first of them says.
pub open spec fn finished_at(runs: Seq<ApiRunView>, finishes: Seq<Option<Instant>>) -> Seq<char> {
    match latest_of(finishes) {
        Some(b) => or_empty(runs[b as int].updated_at),
        None => if runs.len() == 0 {
            Seq::empty()
        } else {
            or_empty(runs[0].updated_at)
        },
    }
}

/// The seconds from the earliest start to the latest finish.
pub open spec fn whole_duration(
    starts: Seq<Option<Instant>>,
    finishes: Seq<Option<Instant>>,
) -> Option<nat> {
    match (earliest_of(starts), latest_of(finishes)) {
        (Some(a), Some(b)) => seconds_between(starts[a as int], finishes[b as int]),
        _ => None,
    }
}

/// Whether some run is a problem.
pub open spec fn any_problem(runs: Seq<ApiRunView>) -> bool {
    exists|i: int|
        0 <= i < runs.len() && Conclusion::named((#[trigger] runs[i]).conclusion).needs_attention()
}

/// The jobs listed for run `i`; none where none are given.
pub open spec fn jobs_for(jobs: Seq<Seq<ApiJobView>>, i: int) -> Seq<ApiJobView> {
    if i < jobs.len() {
        jobs[i]
    } else {
        Seq::empty()
    }
}

/// The reports of the runs with the jobs that the API lists for them, given
/// when each started and finished.
pub open spec fn run_reports(
    runs: Seq<ApiRunView>,
    jobs: Seq<Seq<ApiJobView>>,
    starts: Seq<Option<Instant>>,
    finishes: Seq<Option<Instant>>,
) -> Seq<RunView> {
    Seq::new(
        runs.len(),
        |i: int| run_report_at(runs[i], jobs_for(jobs, i), starts[i], finishes[i]),
    )
}

/// The report of a settled commit of a repository's default branch, given when
/// each of its runs started and finished.
pub open spec fn commit_report_at(
    repo: Seq<char>,
    branch: Seq<char>,
    commit: SelectedView,
    jobs: Seq<Seq<ApiJobView>>,
    starts: Seq<Option<Instant>>,
    finishes: Seq<Option<Instant>>,
) -> CommitView {
    CommitView {
        sha: short(commit.sha),
        title: if commit.runs.len() == 0 {
            Seq::empty()
        } else {
            or_empty(commit.runs[0].title)
        },
        branch,
        event: if commit.runs.len() == 0 {
            Seq::empty()
        } else {
            or_empty(commit.runs[0].event)
        },
        conclusion: if any_problem(commit.runs) {
            Conclusion::Failure
        } else {
            Conclusion::Success
        },
        url: commit_url(repo, commit.sha),
        finished_at: finished_at(commit.runs, finishes),
        duration_seconds: seconds_u64(whole_duration(starts, finishes)),
        runs: run_reports(commit.runs, jobs, starts, finishes),
    }
}

/// The report of a settled commit of a repository's default branch.
pub open spec fn commit_report(
    repo: Seq<char>,
    branch: Seq<char>,
    commit: SelectedView,
    jobs: Seq<Seq<ApiJobView>>,
) -> CommitView {
    commit_report_at(repo, branch, commit, jobs, starts(commit.runs), finishes(commit.runs))
}

/// The views of the jobs of several runs.
pub open spec fn jobs_views(jobs: Seq<Vec<ApiJob>>) -> Seq<Seq<ApiJobView>> {
    jobs.map_values(|list: Vec<ApiJob>| list@.map_values(|j: ApiJob| j@))
}

/// When the runs started, and when they finished.
fn run_times(runs: &Vec<&ApiRun>) -> (r: (Vec<Option<Instant>>, Vec<Option<Instant>>))
    ensures
        r.0@ == starts(ref_views(runs@)),
        r.1@ == finishes(ref_views(runs@)),
        all_in_range(r.0@),
        all_in_range(r.1@),
{
    let ghost all = ref_views(runs@);
    let mut begun: Vec<Option<Instant>> = Vec::new();
    let mut done: Vec<Option<Instant>> = Vec::new();
    for i in 0..runs.len()
        invariant
            all == ref_views(runs@),
            begun@ == starts(all).take(i as int),
            done@ == finishes(all).take(i as int),
            all_in_range(begun@),
            all_in_range(done@),
    {
        let run = runs[i];
        assert(all[i as int] == run@);
        begun.push(start_of(run));
        done.push(optional_instant(&run.updated_at));
        assert(starts(all).take(i + 1) =~= starts(all).take(i as int).push(starts(all)[i as int]));
        assert(finishes(all).take(i + 1) =~= finishes(all).take(i as int).push(
            finishes(all)[i as int],
        ));
    }
    assert(starts(all).take(all.len() as int) =~= starts(all));
    assert(finishes(all).take(all.len() as int) =~= finishes(all));
    (begun, done)
}

/// Whether every known point in time can be that of a timestamp.
pub open spec fn all_in_range(times: Seq<Option<Instant>>) -> bool {
    forall|i: int| 0 <= i < times.len() ==> ((#[trigger] times[i]) matches Some(t) ==> t.in_range())
}

/// The reports of the runs of a commit with the jobs listed for them, and
/// whether some run is a problem.
fn report_runs(
    runs: &Vec<&ApiRun>,
    jobs: &Vec<Vec<ApiJob>>,
    begun: &Vec<Option<Instant>>,
    done: &Vec<Option<Instant>>,
) -> (r: (Vec<RunReport>, bool))
    requires
        begun@.len() == runs@.len(),
        done@.len() == runs@.len(),
        all_in_range(begun@),
        all_in_range(done@),
    ensures
        r.0@.map_values(|x: RunReport| x@) == run_reports(
            ref_views(runs@),
            jobs_views(jobs@),
            begun@,
            done@,
        ),
        r.1 == any_problem(ref_views(runs@)),
{
    let ghost all = ref_views(runs@);
    let ghost reports = run_reports(all, jobs_views(jobs@), begun@, done@);
    let mut list: Vec<RunReport> = Vec::new();
    let ghost mut seen: Seq<RunView> = Seq::empty();
    let mut problem = false;
    let none: Vec<ApiJob> = Vec::new();
    assert(reports.take(0) =~= Seq::empty());
    for i in 0..runs.len()
        invariant
            all == ref_views(runs@),
            reports == run_reports(all, jobs_views(jobs@), begun@, done@),
            begun@.len() == runs@.len(),
            done@.len() == runs@.len(),
            all_in_range(begun@),
            all_in_range(done@),
            none@.len() == 0,
            seen == list@.map_values(|x: RunReport| x@),
            seen == reports.take(i as int),
            problem == exists|k: int|
                0 <= k < i && Conclusion::named(
                    (#[trigger] all[k]).conclusion,
                ).needs_attention(),
    {
        let run = runs[i];
        assert(all[i as int] == run@);
        let listed: &Vec<ApiJob> = if i < jobs.len() {
            &jobs[i]
        } else {
            &none
        };
        assert(listed@.map_values(|j: ApiJob| j@) =~= jobs_for(jobs_views(jobs@), i as int));
        let start = begun[i];
        let finish = done[i];
        let report = normalize_run_at(run, listed, start, finish);
        if report.is_problem() {
            problem = true;
        }
        list.push(report);
        proof {
            assert(report@ == reports[i as int]);
            assert(reports.take(i + 1) =~= reports.take(i as int).push(report@));
            seen = seen.push(report@);
            assert(list@.map_values(|x: RunReport| x@) =~= seen);
        }
    }
    assert(reports.take(reports.len() as int) =~= reports);
    (list, problem)
}

/// Report a settled commit of a repository's default branch, given when each
/// of its runs started and finished. `jobs` holds the jobs that the API lists
/// for each of its runs, as far as they were asked for.
pub fn build_commit_report_at(
    repo: &str,
    branch: &str,
    commit: &SelectedCommit,
    jobs: &Vec<Vec<ApiJob>>,
    begun: &Vec<Option<Instant>>,
    done: &Vec<Option<Instant>>,
) -> (r: CommitReport)
    requires
        begun@.len() == commit.runs@.len(),
        done@.len() == commit.runs@.len(),
        all_in_range(begun@),
        all_in_range(done@),
    ensures
        r@ == commit_report_at(repo@, branch@, commit@, jobs_views(jobs@), begun@, done@),
{
    let ghost all = commit@.runs;
    let (runs, problem) = report_runs(&commit.runs, jobs, begun, done);
    let last = latest(done);
    let first = earliest(begun);
    assert(all.len() == commit.runs@.len());
    let finished = match last {
        Some(b) => {
            assert(all[b as int] == commit.runs@[b as int]@);
            text_of(&commit.runs[b].updated_at)
        },
        None => if commit.runs.len() == 0 {
            text_of(&None)
        } else {
            assert(all[0] == commit.runs@[0]@);
            text_of(&commit.runs[0].updated_at)
        },
    };
    let duration = match (first, last) {
        (Some(a), Some(b)) => {
            let begin = begun[a];
            let end = done[b];
            duration_seconds(begin, end)
        },
        _ => None,
    };
    let (title, event) = if commit.runs.len() == 0 {
        (text_of(&None), text_of(&None))
    } else {
        assert(all[0] == commit.runs@[0]@);
        (text_of(&commit.runs[0].title), text_of(&commit.runs[0].event))
    };
    CommitReport {
        sha: text::first_chars(commit.sha.as_str(), 7),
        title,
        branch: branch.to_owned(),
        event,
        conclusion: if problem {
            Conclusion::Failure
        } else {
            Conclusion::Success
        },
        url: commit_url_text(repo, commit.sha.as_str()),
        finished_at: finished,
        duration_seconds: duration,
        runs,
    }
}

/// Report a settled commit of a repository's default branch. `jobs` holds the
/// jobs that the API lists for each of its runs, as far as they were asked
/// for.
pub fn build_commit_report(
    repo: &str,
    branch: &str,
    commit: &SelectedCommit,
    jobs: &Vec<Vec<ApiJob>>,
) -> (r: CommitReport)
    ensures
        r@ == commit_report(repo@, branch@, commit@, jobs_views(jobs@)),
{
    let (begun, done) = run_times(&commit.runs);
    build_commit_report_at(repo, branch, commit, jobs, &begun, &done)
}

/// The path of a repository.
pub open spec fn repo_path(repo: Seq<char>) -> Seq<char> {
    "/repos/"@ + repo
}

/// The path of a repository, which tells its default branch.
pub fn repo_request(repo: &str) -> (r: String)
    ensures
        r@ == repo_path(repo@),
{
    "/repos/".to_owned().concat(repo)
}

/// The path of the runs of a branch.
pub fn branch_runs_request(repo: &str, branch: &str) -> (r: String)
    ensures
        r@ == repo_path(repo@) + "/actions/runs?branch="@ + branch@ + "&per_page=100"@,
{
    repo_request(repo).concat("/actions/runs?branch=").concat(branch).concat("&per_page=100")
}

/// The path of the running runs of all branches.
pub fn running_runs_request(repo: &str) -> (r: String)
    ensures
        r@ == repo_path(repo@) + "/actions/runs?status=in_progress&per_page=100"@,
{
    repo_request(repo).concat("/actions/runs?status=in_progress&per_page=100")
}

/// The path of the jobs of a run.
pub open spec fn jobs_path(repo: Seq<char>, id: u64) -> Seq<char> {
    repo_path(repo) + "/actions/runs/"@ + text::decimal(id as nat) + "/jobs?per_page=100"@
}

/// The path of the jobs of a run.
pub fn jobs_request(repo: &str, id: u64) -> (r: String)
    ensures
        r@ == jobs_path(repo@, id),
{
    repo_request(repo).concat("/actions/runs/").concat(text::decimal_text(id).as_str()).concat(
        "/jobs?per_page=100",
    )
}

/// The jobs to ask for: those of each run that is a problem.
pub open spec fn job_paths(repo: Seq<char>, runs: Seq<ApiRunView>) -> Seq<Option<Seq<char>>> {
    runs.map_values(
        |r: ApiRunView|
            if Conclusion::named(r.conclusion).needs_attention() {
                Some(jobs_path(repo, r.id))
            } else {
                None
            },
    )
}

/// The paths of the jobs to ask for, one for each run of the commit; none for
/// a run that is no problem.
pub fn job_requests(repo: &str, commit: &SelectedCommit) -> (r: Vec<Option<String>>)
    ensures
        r@.map_values(|p: Option<String>| text::option_view(p)) == job_paths(repo@, commit@.runs),
{
    let ghost all = job_paths(repo@, commit@.runs);
    let mut list: Vec<Option<String>> = Vec::new();
    let ghost mut seen: Seq<Option<Seq<char>>> = Seq::empty();
    assert(all.take(0) =~= Seq::empty());
    for i in 0..commit.runs.len()
        invariant
            all == job_paths(repo@, commit@.runs),
            seen == list@.map_values(|p: Option<String>| text::option_view(p)),
            seen == all.take(i as int),
    {
        let run = commit.runs[i];
        assert(commit@.runs[i as int] == run@);
        let path = if Conclusion::from_github(&run.conclusion).is_problem() {
            Some(jobs_request(repo, run.id))
        } else {
            None
        };
        list.push(path);
        proof {
            assert(all.take(i + 1) =~= all.take(i as int).push(all[i as int]));
            seen = seen.push(text::option_view(path));
            assert(list@.map_values(|p: Option<String>| text::option_view(p)) =~= seen);
        }
    }
    assert(all.take(all.len() as int) =~= all);
    list
}

/// The report of a repository from what its collection came to: what is
/// running and what has settled, or the first of the errors.
pub open spec fn repo_report(
    repo: Seq<char>,
    active: Result<Seq<ActiveCommitView>, GitHubErrorView>,
    commits: Result<Seq<CommitView>, GitHubErrorView>,
) -> RepoView {
    match (active, commits) {
        (Ok(active), Ok(commits)) => RepoView { repo, active, commits, error: None },
        (Err(e), _) => RepoView {
            repo,
            active: Seq::empty(),
            commits: Seq::empty(),
            error: Some(e.message()),
        },
        (Ok(_), Err(e)) => RepoView {
            repo,
            active: Seq::empty(),
            commits: Seq::empty(),
            error: Some(e.message()),
        },
    }
}

/// The view of what a collection of active commits came to.
pub open spec fn actives_view(r: Result<Vec<ActiveCommitReport>, GitHubError>) -> Result<
    Seq<ActiveCommitView>,
    GitHubErrorView,
> {
    match r {
        Ok(list) => Ok(list@.map_values(|c: ActiveCommitReport| c@)),
        Err(e) => Err(e@),
    }
}

/// The view of what a collection of settled commits came to.
pub open spec fn commits_view(r: Result<Vec<CommitReport>, GitHubError>) -> Result<
    Seq<CommitView>,
    GitHubErrorView,
> {
    match r {
        Ok(list) => Ok(list@.map_values(|c: CommitReport| c@)),
        Err(e) => Err(e@),
    }
}

/// Report a repository. Where something could not be had, that is its report.
pub fn build_repo_report(
    repo: &str,
    active: Result<Vec<ActiveCommitReport>, GitHubError>,
    commits: Result<Vec<CommitReport>, GitHubError>,
) -> (r: RepoReport)
    ensures
        r@ == repo_report(repo@, actives_view(active), commits_view(commits)),
{
    let error = match (active, commits) {
        (Ok(active), Ok(commits)) => {
            return RepoReport { repo: repo.to_owned(), active, commits, error: None };
        },
        (Err(e), _) => e,
        (Ok(_), Err(e)) => e,
    };
    let r = RepoReport {
        repo: repo.to_owned(),
        active: Vec::new(),
        commits: Vec::new(),
        error: Some(error.to_string()),
    };
    assert(r@.active =~= Seq::empty());
    assert(r@.commits =~= Seq::empty());
    r
}

/// A report's repository.
pub open spec fn repo_key() -> spec_fn(RepoView) -> Seq<char> {
    |r: RepoView| r.repo
}

/// Put reports in the order of their repositories.
pub fn sort_reports(reports: Vec<RepoReport>) -> (r: Vec<RepoReport>)
    ensures
        model::repo_views(r@) == order::arranged(model::repo_views(reports@), repo_key()),
{
    let ghost all = model::repo_views(reports@);
    let mut sorted: Vec<RepoReport> = Vec::new();
    assert(all.take(0) =~= Seq::empty());
    assert(model::repo_views(sorted@) =~= Seq::empty());
    for report in it: reports
        invariant
            all == model::repo_views(it.seq()),
            model::repo_views(sorted@) == order::arranged(all.take(it.index() as int), repo_key()),
    {
        let ghost i = it.index() as int;
        assert(all.take(i + 1).drop_last() =~= all.take(i));
        assert(all.take(i + 1).last() == report@);
        place_report(&mut sorted, report);
    }
    assert(all.take(all.len() as int) =~= all);
    sorted
}

/// Put a report behind all that do not follow it.
fn place_report(sorted: &mut Vec<RepoReport>, report: RepoReport)
    ensures
        model::repo_views(final(sorted)@) == order::placed(
            model::repo_views(old(sorted)@),
            report@,
            repo_key(),
        ),
{
    let ghost before = model::repo_views(sorted@);
    let ghost result = order::placed(before, report@, repo_key());
    let mut at: usize = sorted.len();
    assert(before.take(at as int) =~= before);
    assert(order::placed(before.take(at as int), report@, repo_key()) + before.skip(at as int)
        =~= result);
    while at > 0 && text::precedes(report.repo.as_str(), sorted[at - 1].repo.as_str())
        invariant
            at <= sorted@.len(),
            before == model::repo_views(sorted@),
            result == order::placed(before.take(at as int), report@, repo_key()) + before.skip(
                at as int,
            ),
        decreases at,
    {
        let ghost upto = before.take(at as int);
        assert(upto.last() == before[at - 1]);
        assert(upto.drop_last() =~= before.take(at - 1));
        assert(order::placed(upto, report@, repo_key()) + before.skip(at as int)
            =~= order::placed(before.take(at - 1), report@, repo_key()) + before.skip(at - 1));
        at = at - 1;
    }
    assert(order::placed(before.take(at as int), report@, repo_key()) == before.take(
        at as int,
    ).push(report@));
    sorted.insert(at, report);
    assert(model::repo_views(sorted@) =~= before.take(at as int).push(report@) + before.skip(
        at as int,
    ));
}

} // verus!
