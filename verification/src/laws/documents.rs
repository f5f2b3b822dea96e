//! Laws of the JSON formats.

use vstd::prelude::*;

use crate::json::JsonView;
use crate::model::{
    ActiveCommitView, ActiveRunView, CommitView, JobView, RepoView, ReportView, RunView, StepView,
};
use crate::order;
use crate::records;
use crate::records::{FieldsView, Order};

verus! {

/// A repository's object always has its name, what is running and what has
/// settled, and an error only where there is one.
pub proof fn repositories_always_carry_their_arrays(repo: RepoView)
    ensures
        ({
            let active = JsonView::List(
                repo.active.map_values(
                    |c: ActiveCommitView| records::active_json(Order::AsPut, c),
                ),
            );
            let commits = JsonView::List(
                repo.commits.map_values(|c: CommitView| records::commit_json(Order::AsPut, c)),
            );
            let base = seq![
                ("repo"@, JsonView::Text(repo.repo)),
                ("active"@, active),
                ("commits"@, commits),
            ];
            records::repo_json(Order::AsPut, repo) == JsonView::Object(
                match repo.error {
                    Some(error) => base.push(("error"@, JsonView::Text(error))),
                    None => base,
                },
            )
        }),
{
    let active = JsonView::List(
        repo.active.map_values(|c: ActiveCommitView| records::active_json(Order::AsPut, c)),
    );
    let commits = JsonView::List(
        repo.commits.map_values(|c: CommitView| records::commit_json(Order::AsPut, c)),
    );
    let fields = FieldsView::new(Order::AsPut).with("repo"@, JsonView::Text(repo.repo)).with(
        "active"@,
        active,
    ).with("commits"@, commits);
    assert(fields.entries =~= seq![
        ("repo"@, JsonView::Text(repo.repo)),
        ("active"@, active),
        ("commits"@, commits),
    ]);
}

/// Whether entries are complete and in alphabetical order.
spec fn sorted(fields: FieldsView) -> bool {
    fields.order == Order::Alphabetical && order::ordered(fields.entries, records::entry_key())
}

/// One more entry keeps the others, and the order.
proof fn lemma_with(fields: FieldsView, key: Seq<char>, value: JsonView)
    requires
        sorted(fields),
    ensures
        sorted(fields.with(key, value)),
        fields.with(key, value).entries.contains((key, value)),
        forall|e: (Seq<char>, JsonView)|
            #![trigger fields.with(key, value).entries.contains(e)]
            fields.entries.contains(e) ==> fields.with(key, value).entries.contains(e),
{
    broadcast use vstd::seq_lib::group_to_multiset_ensures;

    let entry = (key, value);
    let before = fields.entries;
    let after = fields.with(key, value).entries;
    order::lemma_placed_ordered(before, entry, records::entry_key());
    order::lemma_placed_holds(before, entry, records::entry_key());
    assert(after.to_multiset() == before.to_multiset().insert(entry));
    assert(after.to_multiset().count(entry) > 0);
    assert forall|e: (Seq<char>, JsonView)|
        #![trigger after.contains(e)]
        before.contains(e) implies after.contains(e) by {
        assert(before.to_multiset().count(e) > 0);
        assert(after.to_multiset().count(e) > 0);
    }
}

/// Whether a record is an object in alphabetical order that is tagged with its
/// kind and its repository.
pub open spec fn tagged(record: JsonView, kind: Seq<char>, repo: Seq<char>) -> bool {
    record matches JsonView::Object(entries) && entries.contains(("type"@, JsonView::Text(kind)))
        && entries.contains(("repo"@, JsonView::Text(repo))) && order::ordered(
        entries,
        records::entry_key(),
    )
}

/// Tags make a tagged record.
proof fn lemma_tags(fields: FieldsView, kind: Seq<char>, repo: Seq<char>)
    requires
        sorted(fields),
    ensures
        tagged(
            fields.with("type"@, JsonView::Text(kind)).with(
                "repo"@,
                JsonView::Text(repo),
            ).object(),
            kind,
            repo,
        ),
{
    let one = fields.with("type"@, JsonView::Text(kind));
    lemma_with(fields, "type"@, JsonView::Text(kind));
    lemma_with(one, "repo"@, JsonView::Text(repo));
}

/// Every record of a repository is tagged: its error first, then what is
/// running, then what has settled.
pub proof fn records_are_tagged(repo: RepoView, i: int)
    requires
        0 <= i < records::repo_records(repo).len(),
    ensures
        ({
            let errors: int = if repo.error is Some {
                1
            } else {
                0
            };
            tagged(
                records::repo_records(repo)[i],
                if i < errors {
                    "repo_error"@
                } else if i < errors + repo.active.len() {
                    "active_commit"@
                } else {
                    "commit"@
                },
                repo.repo,
            )
        }),
        records::repo_records(repo).len() == (if repo.error is Some {
            1int
        } else {
            0
        }) + repo.active.len() + repo.commits.len(),
{
    let errors: int = if repo.error is Some {
        1
    } else {
        0
    };
    let record = records::repo_records(repo)[i];
    if i < errors {
        let empty = FieldsView::new(Order::Alphabetical);
        lemma_tags(empty, "repo_error"@, repo.repo);
        let one = empty.with("type"@, JsonView::Text("repo_error"@)).with(
            "repo"@,
            JsonView::Text(repo.repo),
        );
        lemma_with(one, "error"@, JsonView::Text(repo.error->0));
        assert(record == records::error_record(repo.repo, repo.error->0));
    } else if i < errors + repo.active.len() {
        let commit = repo.active[i - errors];
        assert(record == records::active_record(repo.repo, commit));
        lemma_active_sorted(commit);
        lemma_tags(
            records::active_fields(Order::Alphabetical, commit),
            "active_commit"@,
            repo.repo,
        );
    } else {
        let commit = repo.commits[i - errors - repo.active.len()];
        assert(record == records::commit_record(repo.repo, commit));
        lemma_commit_sorted(commit);
        lemma_tags(records::commit_fields(Order::Alphabetical, commit), "commit"@, repo.repo);
    }
}

/// The entries of an active commit are in alphabetical order.
proof fn lemma_active_sorted(commit: ActiveCommitView)
    ensures
        sorted(records::active_fields(Order::Alphabetical, commit)),
{
    let f0 = FieldsView::new(Order::Alphabetical);
    lemma_with(f0, "sha"@, JsonView::Text(commit.sha));
    let f1 = f0.with("sha"@, JsonView::Text(commit.sha));
    lemma_with(f1, "title"@, JsonView::Text(commit.title));
    let f2 = f1.with("title"@, JsonView::Text(commit.title));
    lemma_with(f2, "branch"@, JsonView::Text(commit.branch));
    let f3 = f2.with("branch"@, JsonView::Text(commit.branch));
    lemma_with(f3, "event"@, JsonView::Text(commit.event));
    let f4 = f3.with("event"@, JsonView::Text(commit.event));
    lemma_with(f4, "url"@, JsonView::Text(commit.url));
    let f5 = f4.with("url"@, JsonView::Text(commit.url));
    lemma_with(f5, "started_at"@, JsonView::Text(commit.started_at));
    let f6 = f5.with("started_at"@, JsonView::Text(commit.started_at));
    let runs = JsonView::List(
        commit.runs.map_values(
            |r: crate::model::ActiveRunView| records::active_run_json(Order::Alphabetical, r),
        ),
    );
    lemma_with(f6, "runs"@, runs);
    assert(records::active_fields(Order::Alphabetical, commit) == f6.with("runs"@, runs));
}

/// The entries of a settled commit are in alphabetical order.
proof fn lemma_commit_sorted(commit: CommitView)
    ensures
        sorted(records::commit_fields(Order::Alphabetical, commit)),
{
    let f0 = FieldsView::new(Order::Alphabetical);
    lemma_with(f0, "sha"@, JsonView::Text(commit.sha));
    let f1 = f0.with("sha"@, JsonView::Text(commit.sha));
    lemma_with(f1, "title"@, JsonView::Text(commit.title));
    let f2 = f1.with("title"@, JsonView::Text(commit.title));
    lemma_with(f2, "branch"@, JsonView::Text(commit.branch));
    let f3 = f2.with("branch"@, JsonView::Text(commit.branch));
    lemma_with(f3, "event"@, JsonView::Text(commit.event));
    let f4 = f3.with("event"@, JsonView::Text(commit.event));
    let label = JsonView::Text(commit.conclusion.label_text());
    lemma_with(f4, "conclusion"@, label);
    let f5 = f4.with("conclusion"@, label);
    lemma_with(f5, "url"@, JsonView::Text(commit.url));
    let f6 = f5.with("url"@, JsonView::Text(commit.url));
    lemma_with(f6, "finished_at"@, JsonView::Text(commit.finished_at));
    let f7 = f6.with("finished_at"@, JsonView::Text(commit.finished_at));
    if commit.duration_seconds is Some {
        lemma_with(f7, "duration_seconds"@, JsonView::Number(commit.duration_seconds->0));
    }
    let f8 = f7.with_number("duration_seconds"@, commit.duration_seconds);
    let runs = JsonView::List(
        commit.runs.map_values(|r: RunView| records::run_json(Order::Alphabetical, r)),
    );
    lemma_with(f8, "runs"@, runs);
    assert(records::commit_fields(Order::Alphabetical, commit) == f8.with("runs"@, runs));
}

/// One more entry, wherever it is put.
broadcast proof fn lemma_with_counts(fields: FieldsView, key: Seq<char>, value: JsonView)
    ensures
        #[trigger] fields.with(key, value).entries.to_multiset()
            == fields.entries.to_multiset().insert((key, value)),
        fields.with(key, value).order == fields.order,
{
    broadcast use vstd::seq_lib::group_to_multiset_ensures;

    order::lemma_placed_holds(fields.entries, (key, value), records::entry_key());
}

/// Whether an object has just these entries: in this order where they stand as
/// put, and in alphabetical order of their keys otherwise.
pub open spec fn has_entries(
    order: Order,
    value: JsonView,
    entries: Seq<(Seq<char>, JsonView)>,
) -> bool {
    value matches JsonView::Object(found) && match order {
        Order::AsPut => found == entries,
        Order::Alphabetical => found.to_multiset() == entries.to_multiset(),
    }
}

/// An entry with a number, where there is one.
pub open spec fn number_entry(key: Seq<char>, value: Option<u64>) -> Seq<(Seq<char>, JsonView)> {
    match value {
        Some(n) => Seq::empty().push((key, JsonView::Number(n))),
        None => Seq::empty(),
    }
}

/// An entry with a text, where there is one.
pub open spec fn text_entry(key: Seq<char>, value: Option<Seq<char>>) -> Seq<
    (Seq<char>, JsonView),
> {
    match value {
        Some(t) => Seq::empty().push((key, JsonView::Text(t))),
        None => Seq::empty(),
    }
}

/// A step's object has its name, its number and its conclusion.
pub proof fn steps_have_their_entries(order: Order, step: StepView)
    ensures
        has_entries(
            order,
            records::step_json(order, step),
            Seq::empty().push(("name"@, JsonView::Text(step.name))).push(
                ("number"@, JsonView::Number(step.number)),
            ).push(("conclusion"@, JsonView::Text(step.conclusion.label_text()))),
        ),
{
    broadcast use {lemma_with_counts, vstd::seq_lib::group_to_multiset_ensures};

}

/// A job's object has its name, its conclusion, its link and its steps, in
/// order.
pub proof fn jobs_have_their_entries(order: Order, job: JobView)
    ensures
        has_entries(
            order,
            records::job_json(order, job),
            Seq::empty().push(("name"@, JsonView::Text(job.name))).push(
                ("conclusion"@, JsonView::Text(job.conclusion.label_text())),
            ).push(("url"@, JsonView::Text(job.url))).push(
                (
                    "steps"@,
                    JsonView::List(
                        Seq::new(
                            job.steps.len(),
                            |i: int| records::step_json(order, job.steps[i]),
                        ),
                    ),
                ),
            ),
        ),
{
    broadcast use {lemma_with_counts, vstd::seq_lib::group_to_multiset_ensures};

    assert(job.steps.map_values(|s: StepView| records::step_json(order, s)) =~= Seq::new(
        job.steps.len(),
        |i: int| records::step_json(order, job.steps[i]),
    ));
}

/// A completed run's object has all that is known of the run, with its jobs in
/// order; a duration that is not known is left out.
pub proof fn runs_have_their_entries(order: Order, run: RunView)
    ensures
        has_entries(
            order,
            records::run_json(order, run),
            (Seq::empty().push(("workflow"@, JsonView::Text(run.workflow))).push(
                ("title"@, JsonView::Text(run.title)),
            ).push(("run_number"@, JsonView::Number(run.run_number))).push(
                ("event"@, JsonView::Text(run.event)),
            ).push(("branch"@, JsonView::Text(run.branch))).push(
                ("sha"@, JsonView::Text(run.sha)),
            ).push(("conclusion"@, JsonView::Text(run.conclusion.label_text()))).push(
                ("url"@, JsonView::Text(run.url)),
            ).push(("created_at"@, JsonView::Text(run.created_at))).push(
                ("updated_at"@, JsonView::Text(run.updated_at)),
            ) + number_entry("duration_seconds"@, run.duration_seconds)).push(
                (
                    "jobs"@,
                    JsonView::List(
                        Seq::new(run.jobs.len(), |i: int| records::job_json(order, run.jobs[i])),
                    ),
                ),
            ),
        ),
{
    broadcast use {lemma_with_counts, vstd::seq_lib::group_to_multiset_ensures};

    assert(run.jobs.map_values(|j: JobView| records::job_json(order, j)) =~= Seq::new(
        run.jobs.len(),
        |i: int| records::job_json(order, run.jobs[i]),
    ));
    let before = Seq::empty().push(("workflow"@, JsonView::Text(run.workflow))).push(
        ("title"@, JsonView::Text(run.title)),
    ).push(("run_number"@, JsonView::Number(run.run_number))).push(
        ("event"@, JsonView::Text(run.event)),
    ).push(("branch"@, JsonView::Text(run.branch))).push(("sha"@, JsonView::Text(run.sha))).push(
        ("conclusion"@, JsonView::Text(run.conclusion.label_text())),
    ).push(("url"@, JsonView::Text(run.url))).push(
        ("created_at"@, JsonView::Text(run.created_at)),
    ).push(("updated_at"@, JsonView::Text(run.updated_at)));
    lemma_number_entry(before, "duration_seconds"@, run.duration_seconds);
}

proof fn lemma_number_entry(
    before: Seq<(Seq<char>, JsonView)>,
    key: Seq<char>,
    value: Option<u64>,
)
    ensures
        before + number_entry(key, value) == (match value {
            Some(n) => before.push((key, JsonView::Number(n))),
            None => before,
        }),
{
    assert(before + number_entry(key, value) =~= (match value {
        Some(n) => before.push((key, JsonView::Number(n))),
        None => before,
    }));
}

proof fn lemma_text_entry(
    before: Seq<(Seq<char>, JsonView)>,
    key: Seq<char>,
    value: Option<Seq<char>>,
)
    ensures
        before + text_entry(key, value) == (match value {
            Some(t) => before.push((key, JsonView::Text(t))),
            None => before,
        }),
{
    assert(before + text_entry(key, value) =~= (match value {
        Some(t) => before.push((key, JsonView::Text(t))),
        None => before,
    }));
}

/// The entries of a settled commit: all that is known of it, with its runs in
/// order; a duration that is not known is left out.
pub open spec fn commit_entries(order: Order, commit: CommitView) -> Seq<(Seq<char>, JsonView)> {
    (Seq::empty().push(("sha"@, JsonView::Text(commit.sha))).push(
        ("title"@, JsonView::Text(commit.title)),
    ).push(("branch"@, JsonView::Text(commit.branch))).push(
        ("event"@, JsonView::Text(commit.event)),
    ).push(("conclusion"@, JsonView::Text(commit.conclusion.label_text()))).push(
        ("url"@, JsonView::Text(commit.url)),
    ).push(("finished_at"@, JsonView::Text(commit.finished_at))) + number_entry(
        "duration_seconds"@,
        commit.duration_seconds,
    )).push(
        (
            "runs"@,
            JsonView::List(
                Seq::new(commit.runs.len(), |i: int| records::run_json(order, commit.runs[i])),
            ),
        ),
    )
}

proof fn lemma_commit_entries(order: Order, commit: CommitView)
    ensures
        records::commit_fields(order, commit).order == order,
        has_entries(order, records::commit_json(order, commit), commit_entries(order, commit)),
{
    broadcast use {lemma_with_counts, vstd::seq_lib::group_to_multiset_ensures};

    assert(commit.runs.map_values(|r: RunView| records::run_json(order, r)) =~= Seq::new(
        commit.runs.len(),
        |i: int| records::run_json(order, commit.runs[i]),
    ));
    let before = Seq::empty().push(("sha"@, JsonView::Text(commit.sha))).push(
        ("title"@, JsonView::Text(commit.title)),
    ).push(("branch"@, JsonView::Text(commit.branch))).push(
        ("event"@, JsonView::Text(commit.event)),
    ).push(("conclusion"@, JsonView::Text(commit.conclusion.label_text()))).push(
        ("url"@, JsonView::Text(commit.url)),
    ).push(("finished_at"@, JsonView::Text(commit.finished_at)));
    lemma_number_entry(before, "duration_seconds"@, commit.duration_seconds);
}

/// A settled commit's object has its entries, and its record these, its kind and
/// its repository.
pub proof fn settled_commits_have_their_entries(order: Order, repo: Seq<char>, commit: CommitView)
    ensures
        has_entries(order, records::commit_json(order, commit), commit_entries(order, commit)),
        has_entries(
            Order::Alphabetical,
            records::commit_record(repo, commit),
            commit_entries(Order::Alphabetical, commit).push(
                ("type"@, JsonView::Text("commit"@)),
            ).push(("repo"@, JsonView::Text(repo))),
        ),
{
    broadcast use {lemma_with_counts, vstd::seq_lib::group_to_multiset_ensures};

    lemma_commit_entries(order, commit);
    lemma_commit_entries(Order::Alphabetical, commit);
}

/// A running run's object has all that is known of the run; a start that is not
/// known is left out.
pub proof fn running_runs_have_their_entries(order: Order, run: ActiveRunView)
    ensures
        has_entries(
            order,
            records::active_run_json(order, run),
            Seq::empty().push(("workflow"@, JsonView::Text(run.workflow))).push(
                ("title"@, JsonView::Text(run.title)),
            ).push(("run_number"@, JsonView::Number(run.run_number))).push(
                ("event"@, JsonView::Text(run.event)),
            ).push(("branch"@, JsonView::Text(run.branch))).push(
                ("sha"@, JsonView::Text(run.sha)),
            ).push(("status"@, JsonView::Text("in_progress"@))).push(
                ("url"@, JsonView::Text(run.url)),
            ).push(("created_at"@, JsonView::Text(run.created_at))) + text_entry(
                "started_at"@,
                run.started_at,
            ),
        ),
{
    broadcast use {lemma_with_counts, vstd::seq_lib::group_to_multiset_ensures};

    let before = Seq::empty().push(("workflow"@, JsonView::Text(run.workflow))).push(
        ("title"@, JsonView::Text(run.title)),
    ).push(("run_number"@, JsonView::Number(run.run_number))).push(
        ("event"@, JsonView::Text(run.event)),
    ).push(("branch"@, JsonView::Text(run.branch))).push(("sha"@, JsonView::Text(run.sha))).push(
        ("status"@, JsonView::Text("in_progress"@)),
    ).push(("url"@, JsonView::Text(run.url))).push(
        ("created_at"@, JsonView::Text(run.created_at)),
    );
    lemma_text_entry(before, "started_at"@, run.started_at);
}

/// The entries of an active commit: all that is known of it, with its runs in
/// order.
pub open spec fn active_entries(order: Order, commit: ActiveCommitView) -> Seq<
    (Seq<char>, JsonView),
> {
    Seq::empty().push(("sha"@, JsonView::Text(commit.sha))).push(
        ("title"@, JsonView::Text(commit.title)),
    ).push(("branch"@, JsonView::Text(commit.branch))).push(
        ("event"@, JsonView::Text(commit.event)),
    ).push(("url"@, JsonView::Text(commit.url))).push(
        ("started_at"@, JsonView::Text(commit.started_at)),
    ).push(
        (
            "runs"@,
            JsonView::List(
                Seq::new(
                    commit.runs.len(),
                    |i: int| records::active_run_json(order, commit.runs[i]),
                ),
            ),
        ),
    )
}

proof fn lemma_active_entries(order: Order, commit: ActiveCommitView)
    ensures
        records::active_fields(order, commit).order == order,
        has_entries(order, records::active_json(order, commit), active_entries(order, commit)),
{
    broadcast use {lemma_with_counts, vstd::seq_lib::group_to_multiset_ensures};

    assert(commit.runs.map_values(|r: ActiveRunView| records::active_run_json(order, r))
        =~= Seq::new(
        commit.runs.len(),
        |i: int| records::active_run_json(order, commit.runs[i]),
    ));
}

/// An active commit's object has its entries, and its record these, its kind and
/// its repository.
pub proof fn active_commits_have_their_entries(
    order: Order,
    repo: Seq<char>,
    commit: ActiveCommitView,
)
    ensures
        has_entries(order, records::active_json(order, commit), active_entries(order, commit)),
        has_entries(
            Order::Alphabetical,
            records::active_record(repo, commit),
            active_entries(Order::Alphabetical, commit).push(
                ("type"@, JsonView::Text("active_commit"@)),
            ).push(("repo"@, JsonView::Text(repo))),
        ),
{
    broadcast use {lemma_with_counts, vstd::seq_lib::group_to_multiset_ensures};

    lemma_active_entries(order, commit);
    lemma_active_entries(Order::Alphabetical, commit);
}

/// The record of a repository that could not be collected has its kind, its
/// repository and its error.
pub proof fn error_records_have_their_entries(repo: Seq<char>, error: Seq<char>)
    ensures
        has_entries(
            Order::Alphabetical,
            records::error_record(repo, error),
            Seq::empty().push(("type"@, JsonView::Text("repo_error"@))).push(
                ("repo"@, JsonView::Text(repo)),
            ).push(("error"@, JsonView::Text(error))),
        ),
{
    broadcast use {lemma_with_counts, vstd::seq_lib::group_to_multiset_ensures};

}

/// A report's document has when it was made, the limit, and each repository, in
/// order.
pub proof fn reports_hold_every_repository(report: ReportView)
    ensures
        records::report_json(report) == JsonView::Object(
            Seq::empty().push(("generated_at"@, JsonView::Text(report.generated_at))).push(
                ("limit"@, JsonView::Number(report.limit as u64)),
            ).push(
                (
                    "repositories"@,
                    JsonView::List(
                        Seq::new(
                            report.repos.len(),
                            |i: int| records::repo_json(Order::AsPut, report.repos[i]),
                        ),
                    ),
                ),
            ),
        ),
{
    assert(report.repos.map_values(|r: RepoView| records::repo_json(Order::AsPut, r))
        =~= Seq::new(
        report.repos.len(),
        |i: int| records::repo_json(Order::AsPut, report.repos[i]),
    ));
}

/// The records of two lists of repositories are those of the one and then those
/// of the other.
pub proof fn records_follow_the_repositories(a: Seq<RepoView>, b: Seq<RepoView>, repo: RepoView)
    ensures
        records::report_records(a + b) == records::report_records(a) + records::report_records(b),
        records::report_records(seq![repo]) == records::repo_records(repo),
    decreases b.len(),
{
    let one = seq![repo];
    assert(one.drop_last() =~= Seq::empty());
    assert(one.last() == repo);
    assert(records::report_records(one.drop_last()) =~= Seq::<JsonView>::empty());
    assert(records::report_records(one) =~= records::repo_records(repo));
    if b.len() == 0 {
        assert(a + b =~= a);
        assert(records::report_records(a) + records::report_records(b)
            =~= records::report_records(a));
    } else {
        records_follow_the_repositories(a, b.drop_last(), repo);
        assert((a + b).drop_last() =~= a + b.drop_last());
        assert((a + b).last() == b.last());
        assert(records::report_records(a + b) =~= records::report_records(a)
            + records::report_records(b));
    }
}

/// A repository's records are that of its error, where there is one, then one
/// for each active commit, then one for each settled commit, in order.
pub proof fn each_commit_has_its_record(repo: RepoView, i: int, k: int)
    requires
        0 <= i < repo.active.len() || 0 <= k < repo.commits.len(),
    ensures
        ({
            let all = records::repo_records(repo);
            let errors: int = if repo.error is Some {
                1
            } else {
                0
            };
            &&& all.len() == errors + repo.active.len() + repo.commits.len()
            &&& repo.error matches Some(error) ==> all[0] == records::error_record(
                repo.repo,
                error,
            )
            &&& 0 <= i < repo.active.len() ==> all[errors + i] == records::active_record(
                repo.repo,
                repo.active[i],
            )
            &&& 0 <= k < repo.commits.len() ==> all[errors + repo.active.len() + k]
                == records::commit_record(repo.repo, repo.commits[k])
        }),
{
}

} // verus!
