//! The JSON trees of a report.

use vstd::prelude::*;
use vstd::string::*;

use crate::json;
use crate::json::JsonView;
use crate::model::{
    ActiveCommitReport, ActiveCommitView, ActiveRunReport, ActiveRunView, CommitReport, CommitView,
    JobReport, JobView, RepoReport, RepoView, Report, ReportView, RunReport, RunView, StepReport,
    StepView,
};
use crate::order;
use crate::text;

verus! {

/// The order of an object's entries.
#[derive(Debug, Clone, Copy, PartialEq, Eq, Structural)]
pub enum Order {
    /// As they are put in.
    AsPut,
    /// By their keys.
    Alphabetical,
}

/// The entries of an object to be.
pub struct FieldsView {
    pub order: Order,
    pub entries: Seq<(Seq<char>, JsonView)>,
}

/// An entry's key.
pub open spec fn entry_key() -> spec_fn((Seq<char>, JsonView)) -> Seq<char> {
    |entry: (Seq<char>, JsonView)| entry.0
}

/// Entries in alphabetical order, with one more put in its place.
pub open spec fn inserted(
    entries: Seq<(Seq<char>, JsonView)>,
    entry: (Seq<char>, JsonView),
) -> Seq<(Seq<char>, JsonView)> {
    order::placed(entries, entry, entry_key())
}

/// Whether some entry has the key.
pub open spec fn has_key(entries: Seq<(Seq<char>, JsonView)>, key: Seq<char>) -> bool {
    exists|i: int| 0 <= i < entries.len() && (#[trigger] entries[i]).0 == key
}

impl FieldsView {
    /// No entries.
    pub open spec fn new(order: Order) -> FieldsView {
        FieldsView { order, entries: Seq::empty() }
    }

    /// With one more entry.
    pub open spec fn with(self, key: Seq<char>, value: JsonView) -> FieldsView {
        FieldsView {
            order: self.order,
            entries: match self.order {
                Order::AsPut => self.entries.push((key, value)),
                Order::Alphabetical => inserted(self.entries, (key, value)),
            },
        }
    }

    /// With one more entry, where there is a text for it.
    pub open spec fn with_text(self, key: Seq<char>, value: Option<Seq<char>>) -> FieldsView {
        match value {
            Some(s) => self.with(key, JsonView::Text(s)),
            None => self,
        }
    }

    /// With one more entry, where there is a number for it.
    pub open spec fn with_number(self, key: Seq<char>, value: Option<u64>) -> FieldsView {
        match value {
            Some(n) => self.with(key, JsonView::Number(n)),
            None => self,
        }
    }

    /// The object.
    pub open spec fn object(self) -> JsonView {
        JsonView::Object(self.entries)
    }
}

/// The entries of an object to be.
struct Fields {
    order: Order,
    entries: Vec<(String, serde_json::Value)>,
}

impl View for Fields {
    type V = FieldsView;

    closed spec fn view(&self) -> FieldsView {
        FieldsView { order: self.order, entries: json::entry_views(self.entries@) }
    }
}

/// What an insertion does to the keys.
proof fn lemma_inserted(entries: Seq<(Seq<char>, JsonView)>, entry: (Seq<char>, JsonView))
    requires
        json::distinct_keys(entries),
        !has_key(entries, entry.0),
    ensures
        json::distinct_keys(inserted(entries, entry)),
        forall|k: Seq<char>|
            has_key(inserted(entries, entry), k) <==> has_key(entries, k) || k == entry.0,
    decreases entries.len(),
{
    if entries.len() == 0 || !text::before(entry.0, entries.last().0) {
        lemma_pushed(entries, entry);
    } else {
        let init = entries.drop_last();
        assert(entries =~= init.push(entries.last()));
        assert forall|i: int, j: int| 0 <= i < j < init.len() implies (#[trigger] init[i]).0 != (
        #[trigger] init[j]).0 by {
            assert(entries[i].0 != entries[j].0);
        }
        assert forall|i: int| 0 <= i < init.len() implies (#[trigger] init[i]).0 != entry.0
            && init[i].0 != entries.last().0 by {
            assert(entries[i].0 != entry.0);
        }
        assert(entries[entries.len() - 1].0 != entry.0);
        assert(!has_key(init, entries.last().0));
        assert(!has_key(init, entry.0));
        lemma_inserted(init, entry);
        lemma_pushed(init, entries.last());
        assert(has_key(entries, entries.last().0));
        assert(!has_key(inserted(init, entry), entries.last().0));
        let placed = inserted(init, entry);
        lemma_pushed(placed, entries.last());
        assert forall|k: Seq<char>| has_key(placed.push(entries.last()), k) <==> has_key(entries, k)
            || k == entry.0 by {
            assert(has_key(placed, k) <==> has_key(init, k) || k == entry.0);
            assert(has_key(init.push(entries.last()), k) <==> has_key(init, k) || k
                == entries.last().0);
        }
    }
}

/// What an entry at the end does to the keys.
proof fn lemma_pushed(entries: Seq<(Seq<char>, JsonView)>, entry: (Seq<char>, JsonView))
    requires
        json::distinct_keys(entries),
        !has_key(entries, entry.0),
    ensures
        json::distinct_keys(entries.push(entry)),
        forall|k: Seq<char>|
            has_key(entries.push(entry), k) <==> has_key(entries, k) || k == entry.0,
{
    assert forall|k: Seq<char>| has_key(entries.push(entry), k) <==> has_key(entries, k) || k
        == entry.0 by {
        if has_key(entries, k) {
            let i = choose|i: int| 0 <= i < entries.len() && (#[trigger] entries[i]).0 == k;
            assert(entries.push(entry)[i].0 == k);
        }
        if k == entry.0 {
            assert(entries.push(entry)[entries.len() as int].0 == k);
        }
        if has_key(entries.push(entry), k) {
            let i = choose|i: int|
                0 <= i < entries.push(entry).len() && (#[trigger] entries.push(entry)[i]).0 == k;
            if i < entries.len() {
                assert(entries[i].0 == k);
            }
        }
    }
}

impl Fields {
    /// Whether no key stands twice.
    closed spec fn wf(self) -> bool {
        json::distinct_keys(self@.entries)
    }

    /// No entries.
    fn new(order: Order) -> (r: Fields)
        ensures
            r.wf(),
            r@ == FieldsView::new(order),
            forall|k: Seq<char>| !has_key(r@.entries, k),
    {
        let r = Fields { order, entries: Vec::new() };
        assert(r@.entries =~= Seq::empty());
        r
    }

    /// Put one more entry in.
    fn put(&mut self, key: &str, value: serde_json::Value)
        requires
            old(self).wf(),
            !has_key(old(self)@.entries, key@),
        ensures
            final(self).wf(),
            final(self)@ == old(self)@.with(key@, json::json_view(value)),
            forall|k: Seq<char>|
                has_key(final(self)@.entries, k) <==> has_key(old(self)@.entries, k) || k == key@,
    {
        let ghost before = self@.entries;
        let ghost entry = (key@, json::json_view(value));
        proof {
            lemma_pushed(before, entry);
            lemma_inserted(before, entry);
        }
        let mut at: usize = self.entries.len();
        match self.order {
            Order::AsPut => {},
            Order::Alphabetical => {
                assert(before.take(at as int) =~= before);
                assert(before.skip(at as int) =~= Seq::empty());
                assert(inserted(before, entry) =~= inserted(before.take(at as int), entry)
                    + before.skip(at as int));
                while at > 0 && text::precedes(key, self.entries[at - 1].0.as_str())
                    invariant
                        at <= self.entries@.len(),
                        before == json::entry_views(self.entries@),
                        entry.0 == key@,
                        inserted(before, entry) == inserted(before.take(at as int), entry)
                            + before.skip(at as int),
                    decreases at,
                {
                    let ghost upto = before.take(at as int);
                    assert(upto.last() == before[at - 1]);
                    assert(upto.drop_last() =~= before.take(at - 1));
                    assert(inserted(upto, entry) == inserted(before.take(at - 1), entry).push(
                        before[at - 1],
                    ));
                    assert(inserted(before, entry) =~= inserted(before.take(at - 1), entry)
                        + before.skip(at - 1));
                    at = at - 1;
                }
                assert(inserted(before.take(at as int), entry) == before.take(at as int).push(
                    entry,
                ));
            },
        }
        self.entries.insert(at, (key.to_owned(), value));
        assert(self@.entries =~= before.take(at as int).push(entry) + before.skip(at as int));
        assert(self@.entries =~= (match self.order {
            Order::AsPut => before.push(entry),
            Order::Alphabetical => inserted(before, entry),
        }));
    }

    /// Put one more entry in, where there is a text for it.
    fn put_text(&mut self, key: &str, value: &Option<String>)
        requires
            old(self).wf(),
            !has_key(old(self)@.entries, key@),
        ensures
            final(self).wf(),
            final(self)@ == old(self)@.with_text(key@, text::option_view(*value)),
            forall|k: Seq<char>|
                has_key(final(self)@.entries, k) ==> has_key(old(self)@.entries, k) || k == key@,
    {
        match value {
            Some(s) => self.put(key, json::string(s.as_str())),
            None => {},
        }
    }

    /// Put one more entry in, where there is a number for it.
    fn put_number(&mut self, key: &str, value: Option<u64>)
        requires
            old(self).wf(),
            !has_key(old(self)@.entries, key@),
        ensures
            final(self).wf(),
            final(self)@ == old(self)@.with_number(key@, value),
            forall|k: Seq<char>|
                has_key(final(self)@.entries, k) ==> has_key(old(self)@.entries, k) || k == key@,
    {
        match value {
            Some(n) => self.put(key, json::number(n)),
            None => {},
        }
    }

    /// The object.
    fn object(self) -> (r: serde_json::Value)
        requires
            self.wf(),
        ensures
            json::json_view(r) == self@.object(),
    {
        json::object(self.entries)
    }
}

/// The keys that a report's objects have.
proof fn lemma_keys()
    ensures
        "name"@.len() == 4,
        "number"@.len() == 6,
        "conclusion"@.len() == 10 && "conclusion"@[0] == 'c' && "conclusion"@[1] == 'o',
        "url"@.len() == 3 && "url"@[0] == 'u',
        "steps"@.len() == 5 && "steps"@[0] == 's',
        "workflow"@.len() == 8,
        "title"@.len() == 5 && "title"@[0] == 't',
        "run_number"@.len() == 10 && "run_number"@[0] == 'r',
        "event"@.len() == 5 && "event"@[0] == 'e',
        "branch"@.len() == 6,
        "sha"@.len() == 3 && "sha"@[0] == 's',
        "created_at"@.len() == 10 && "created_at"@[0] == 'c' && "created_at"@[1] == 'r',
        "updated_at"@.len() == 10 && "updated_at"@[0] == 'u',
        "duration_seconds"@.len() == 16,
        "jobs"@.len() == 4 && "jobs"@[0] == 'j',
        "status"@.len() == 6 && "status"@[0] == 's',
        "branch"@[0] == 'b',
        "started_at"@.len() == 10 && "started_at"@[0] == 's',
        "finished_at"@.len() == 11,
        "runs"@.len() == 4 && "runs"@[0] == 'r' && "runs"@[1] == 'u',
        "type"@.len() == 4 && "type"@[0] == 't',
        "repo"@.len() == 4 && "repo"@[0] == 'r' && "repo"@[1] == 'e',
        "error"@.len() == 5 && "error"@[0] == 'e',
        "active"@.len() == 6,
        "commits"@.len() == 7,
        "generated_at"@.len() == 12,
        "limit"@.len() == 5,
        "repositories"@.len() == 12,
        "generated_at"@[0] == 'g',
        "repositories"@[0] == 'r',
{
    reveal_strlit("name");
    reveal_strlit("number");
    reveal_strlit("conclusion");
    reveal_strlit("url");
    reveal_strlit("steps");
    reveal_strlit("workflow");
    reveal_strlit("title");
    reveal_strlit("run_number");
    reveal_strlit("event");
    reveal_strlit("branch");
    reveal_strlit("sha");
    reveal_strlit("created_at");
    reveal_strlit("updated_at");
    reveal_strlit("duration_seconds");
    reveal_strlit("jobs");
    reveal_strlit("status");
    reveal_strlit("started_at");
    reveal_strlit("finished_at");
    reveal_strlit("runs");
    reveal_strlit("type");
    reveal_strlit("repo");
    reveal_strlit("error");
    reveal_strlit("active");
    reveal_strlit("commits");
    reveal_strlit("generated_at");
    reveal_strlit("limit");
    reveal_strlit("repositories");
}

/// The object of a step.
pub open spec fn step_json(order: Order, step: StepView) -> JsonView {
    FieldsView::new(order).with("name"@, JsonView::Text(step.name)).with(
        "number"@,
        JsonView::Number(step.number),
    ).with("conclusion"@, JsonView::Text(step.conclusion.label_text())).object()
}

/// The object of a step.
fn step_value(order: Order, step: &StepReport) -> (r: serde_json::Value)
    ensures
        json::json_view(r) == step_json(order, step@),
{
    proof {
        lemma_keys();
    }
    let mut fields = Fields::new(order);
    fields.put("name", json::string(step.name.as_str()));
    fields.put("number", json::number(step.number));
    fields.put("conclusion", json::string(step.conclusion.label()));
    fields.object()
}

/// The array of steps.
fn steps_value(order: Order, items: &Vec<StepReport>) -> (r: serde_json::Value)
    ensures
        json::json_view(r) == JsonView::List(
            items@.map_values(|x: StepReport| x@).map_values(
                |v: StepView| step_json(order, v),
            ),
        ),
{
    let ghost trees = items@.map_values(|x: StepReport| x@).map_values(
        |v: StepView| step_json(order, v),
    );
    let mut values: Vec<serde_json::Value> = Vec::new();
    for i in 0..items.len()
        invariant
            trees == items@.map_values(|x: StepReport| x@).map_values(
                |v: StepView| step_json(order, v),
            ),
            json::json_views(values@) == trees.take(i as int),
    {
        let ghost before = values@;
        let value = step_value(order, &items[i]);
        values.push(value);
        assert(json::json_views(values@) =~= json::json_views(before).push(json::json_view(value)));
        assert(trees.take(i + 1) =~= trees.take(i as int).push(trees[i as int]));
    }
    assert(trees.take(trees.len() as int) =~= trees);
    json::list(values)
}

/// The object of a job.
pub open spec fn job_json(order: Order, job: JobView) -> JsonView {
    FieldsView::new(order).with("name"@, JsonView::Text(job.name)).with(
        "conclusion"@,
        JsonView::Text(job.conclusion.label_text()),
    ).with("url"@, JsonView::Text(job.url)).with(
        "steps"@,
        JsonView::List(job.steps.map_values(|s: StepView| step_json(order, s))),
    ).object()
}

/// The object of a job.
fn job_value(order: Order, job: &JobReport) -> (r: serde_json::Value)
    ensures
        json::json_view(r) == job_json(order, job@),
{
    proof {
        lemma_keys();
    }
    let mut fields = Fields::new(order);
    fields.put("name", json::string(job.name.as_str()));
    fields.put("conclusion", json::string(job.conclusion.label()));
    fields.put("url", json::string(job.url.as_str()));
    fields.put("steps", steps_value(order, &job.steps));
    fields.object()
}

/// The array of jobs.
fn jobs_value(order: Order, items: &Vec<JobReport>) -> (r: serde_json::Value)
    ensures
        json::json_view(r) == JsonView::List(
            items@.map_values(|x: JobReport| x@).map_values(
                |v: JobView| job_json(order, v),
            ),
        ),
{
    let ghost trees = items@.map_values(|x: JobReport| x@).map_values(
        |v: JobView| job_json(order, v),
    );
    let mut values: Vec<serde_json::Value> = Vec::new();
    for i in 0..items.len()
        invariant
            trees == items@.map_values(|x: JobReport| x@).map_values(
                |v: JobView| job_json(order, v),
            ),
            json::json_views(values@) == trees.take(i as int),
    {
        let ghost before = values@;
        let value = job_value(order, &items[i]);
        values.push(value);
        assert(json::json_views(values@) =~= json::json_views(before).push(json::json_view(value)));
        assert(trees.take(i + 1) =~= trees.take(i as int).push(trees[i as int]));
    }
    assert(trees.take(trees.len() as int) =~= trees);
    json::list(values)
}

/// The object of a completed run.
pub open spec fn run_json(order: Order, run: RunView) -> JsonView {
    FieldsView::new(order).with("workflow"@, JsonView::Text(run.workflow)).with(
        "title"@,
        JsonView::Text(run.title),
    ).with("run_number"@, JsonView::Number(run.run_number)).with(
        "event"@,
        JsonView::Text(run.event),
    ).with("branch"@, JsonView::Text(run.branch)).with("sha"@, JsonView::Text(run.sha)).with(
        "conclusion"@,
        JsonView::Text(run.conclusion.label_text()),
    ).with("url"@, JsonView::Text(run.url)).with(
        "created_at"@,
        JsonView::Text(run.created_at),
    ).with("updated_at"@, JsonView::Text(run.updated_at)).with_number(
        "duration_seconds"@,
        run.duration_seconds,
    ).with(
        "jobs"@,
        JsonView::List(run.jobs.map_values(|j: JobView| job_json(order, j))),
    ).object()
}

/// The object of a completed run.
fn run_value(order: Order, run: &RunReport) -> (r: serde_json::Value)
    ensures
        json::json_view(r) == run_json(order, run@),
{
    proof {
        lemma_keys();
    }
    let mut fields = Fields::new(order);
    fields.put("workflow", json::string(run.workflow.as_str()));
    fields.put("title", json::string(run.title.as_str()));
    fields.put("run_number", json::number(run.run_number));
    fields.put("event", json::string(run.event.as_str()));
    fields.put("branch", json::string(run.branch.as_str()));
    fields.put("sha", json::string(run.sha.as_str()));
    fields.put("conclusion", json::string(run.conclusion.label()));
    fields.put("url", json::string(run.url.as_str()));
    fields.put("created_at", json::string(run.created_at.as_str()));
    fields.put("updated_at", json::string(run.updated_at.as_str()));
    fields.put_number("duration_seconds", run.duration_seconds);
    fields.put("jobs", jobs_value(order, &run.jobs));
    fields.object()
}

/// The array of completed runs.
fn runs_value(order: Order, items: &Vec<RunReport>) -> (r: serde_json::Value)
    ensures
        json::json_view(r) == JsonView::List(
            items@.map_values(|x: RunReport| x@).map_values(
                |v: RunView| run_json(order, v),
            ),
        ),
{
    let ghost trees = items@.map_values(|x: RunReport| x@).map_values(
        |v: RunView| run_json(order, v),
    );
    let mut values: Vec<serde_json::Value> = Vec::new();
    for i in 0..items.len()
        invariant
            trees == items@.map_values(|x: RunReport| x@).map_values(
                |v: RunView| run_json(order, v),
            ),
            json::json_views(values@) == trees.take(i as int),
    {
        let ghost before = values@;
        let value = run_value(order, &items[i]);
        values.push(value);
        assert(json::json_views(values@) =~= json::json_views(before).push(json::json_view(value)));
        assert(trees.take(i + 1) =~= trees.take(i as int).push(trees[i as int]));
    }
    assert(trees.take(trees.len() as int) =~= trees);
    json::list(values)
}

/// The entries of a settled commit.
pub open spec fn commit_fields(order: Order, commit: CommitView) -> FieldsView {
    FieldsView::new(order).with("sha"@, JsonView::Text(commit.sha)).with(
        "title"@,
        JsonView::Text(commit.title),
    ).with("branch"@, JsonView::Text(commit.branch)).with(
        "event"@,
        JsonView::Text(commit.event),
    ).with("conclusion"@, JsonView::Text(commit.conclusion.label_text())).with(
        "url"@,
        JsonView::Text(commit.url),
    ).with("finished_at"@, JsonView::Text(commit.finished_at)).with_number(
        "duration_seconds"@,
        commit.duration_seconds,
    ).with("runs"@, JsonView::List(commit.runs.map_values(|r: RunView| run_json(order, r))))
}

/// The object of a settled commit.
pub open spec fn commit_json(order: Order, commit: CommitView) -> JsonView {
    commit_fields(order, commit).object()
}

/// The entries of a settled commit.
fn commit_entries(order: Order, commit: &CommitReport) -> (r: Fields)
    ensures
        r.wf(),
        r@ == commit_fields(order, commit@),
        !has_key(r@.entries, "type"@),
        !has_key(r@.entries, "repo"@),
{
    proof {
        lemma_keys();
    }
    let mut fields = Fields::new(order);
    fields.put("sha", json::string(commit.sha.as_str()));
    fields.put("title", json::string(commit.title.as_str()));
    fields.put("branch", json::string(commit.branch.as_str()));
    fields.put("event", json::string(commit.event.as_str()));
    fields.put("conclusion", json::string(commit.conclusion.label()));
    fields.put("url", json::string(commit.url.as_str()));
    fields.put("finished_at", json::string(commit.finished_at.as_str()));
    fields.put_number("duration_seconds", commit.duration_seconds);
    fields.put("runs", runs_value(order, &commit.runs));
    fields
}

/// The object of a settled commit.
fn commit_value(order: Order, commit: &CommitReport) -> (r: serde_json::Value)
    ensures
        json::json_view(r) == commit_json(order, commit@),
{
    commit_entries(order, commit).object()
}

/// The array of settled commits.
fn commits_value(order: Order, items: &Vec<CommitReport>) -> (r: serde_json::Value)
    ensures
        json::json_view(r) == JsonView::List(
            items@.map_values(|x: CommitReport| x@).map_values(
                |v: CommitView| commit_json(order, v),
            ),
        ),
{
    let ghost trees = items@.map_values(|x: CommitReport| x@).map_values(
        |v: CommitView| commit_json(order, v),
    );
    let mut values: Vec<serde_json::Value> = Vec::new();
    for i in 0..items.len()
        invariant
            trees == items@.map_values(|x: CommitReport| x@).map_values(
                |v: CommitView| commit_json(order, v),
            ),
            json::json_views(values@) == trees.take(i as int),
    {
        let ghost before = values@;
        let value = commit_value(order, &items[i]);
        values.push(value);
        assert(json::json_views(values@) =~= json::json_views(before).push(json::json_view(value)));
        assert(trees.take(i + 1) =~= trees.take(i as int).push(trees[i as int]));
    }
    assert(trees.take(trees.len() as int) =~= trees);
    json::list(values)
}

/// The object of a running run.
pub open spec fn active_run_json(order: Order, run: ActiveRunView) -> JsonView {
    FieldsView::new(order).with("workflow"@, JsonView::Text(run.workflow)).with(
        "title"@,
        JsonView::Text(run.title),
    ).with("run_number"@, JsonView::Number(run.run_number)).with(
        "event"@,
        JsonView::Text(run.event),
    ).with("branch"@, JsonView::Text(run.branch)).with("sha"@, JsonView::Text(run.sha)).with(
        "status"@,
        JsonView::Text(run.status.label_text()),
    ).with("url"@, JsonView::Text(run.url)).with(
        "created_at"@,
        JsonView::Text(run.created_at),
    ).with_text("started_at"@, run.started_at).object()
}

/// The object of a running run.
fn active_run_value(order: Order, run: &ActiveRunReport) -> (r: serde_json::Value)
    ensures
        json::json_view(r) == active_run_json(order, run@),
{
    proof {
        lemma_keys();
    }
    let mut fields = Fields::new(order);
    fields.put("workflow", json::string(run.workflow.as_str()));
    fields.put("title", json::string(run.title.as_str()));
    fields.put("run_number", json::number(run.run_number));
    fields.put("event", json::string(run.event.as_str()));
    fields.put("branch", json::string(run.branch.as_str()));
    fields.put("sha", json::string(run.sha.as_str()));
    fields.put("status", json::string(run.status.label()));
    fields.put("url", json::string(run.url.as_str()));
    fields.put("created_at", json::string(run.created_at.as_str()));
    fields.put_text("started_at", &run.started_at);
    fields.object()
}

/// The array of running runs.
fn active_runs_value(order: Order, items: &Vec<ActiveRunReport>) -> (r: serde_json::Value)
    ensures
        json::json_view(r) == JsonView::List(
            items@.map_values(|x: ActiveRunReport| x@).map_values(
                |v: ActiveRunView| active_run_json(order, v),
            ),
        ),
{
    let ghost trees = items@.map_values(|x: ActiveRunReport| x@).map_values(
        |v: ActiveRunView| active_run_json(order, v),
    );
    let mut values: Vec<serde_json::Value> = Vec::new();
    for i in 0..items.len()
        invariant
            trees == items@.map_values(|x: ActiveRunReport| x@).map_values(
                |v: ActiveRunView| active_run_json(order, v),
            ),
            json::json_views(values@) == trees.take(i as int),
    {
        let ghost before = values@;
        let value = active_run_value(order, &items[i]);
        values.push(value);
        assert(json::json_views(values@) =~= json::json_views(before).push(json::json_view(value)));
        assert(trees.take(i + 1) =~= trees.take(i as int).push(trees[i as int]));
    }
    assert(trees.take(trees.len() as int) =~= trees);
    json::list(values)
}

/// The entries of an active commit.
pub open spec fn active_fields(order: Order, commit: ActiveCommitView) -> FieldsView {
    FieldsView::new(order).with("sha"@, JsonView::Text(commit.sha)).with(
        "title"@,
        JsonView::Text(commit.title),
    ).with("branch"@, JsonView::Text(commit.branch)).with(
        "event"@,
        JsonView::Text(commit.event),
    ).with("url"@, JsonView::Text(commit.url)).with(
        "started_at"@,
        JsonView::Text(commit.started_at),
    ).with(
        "runs"@,
        JsonView::List(commit.runs.map_values(|r: ActiveRunView| active_run_json(order, r))),
    )
}

/// The object of an active commit.
pub open spec fn active_json(order: Order, commit: ActiveCommitView) -> JsonView {
    active_fields(order, commit).object()
}

/// The entries of an active commit.
fn active_entries(order: Order, commit: &ActiveCommitReport) -> (r: Fields)
    ensures
        r.wf(),
        r@ == active_fields(order, commit@),
        !has_key(r@.entries, "type"@),
        !has_key(r@.entries, "repo"@),
{
    proof {
        lemma_keys();
    }
    let mut fields = Fields::new(order);
    fields.put("sha", json::string(commit.sha.as_str()));
    fields.put("title", json::string(commit.title.as_str()));
    fields.put("branch", json::string(commit.branch.as_str()));
    fields.put("event", json::string(commit.event.as_str()));
    fields.put("url", json::string(commit.url.as_str()));
    fields.put("started_at", json::string(commit.started_at.as_str()));
    fields.put("runs", active_runs_value(order, &commit.runs));
    fields
}

/// The object of an active commit.
fn active_value(order: Order, commit: &ActiveCommitReport) -> (r: serde_json::Value)
    ensures
        json::json_view(r) == active_json(order, commit@),
{
    active_entries(order, commit).object()
}

/// The array of active commits.
fn actives_value(order: Order, items: &Vec<ActiveCommitReport>) -> (r: serde_json::Value)
    ensures
        json::json_view(r) == JsonView::List(
            items@.map_values(|x: ActiveCommitReport| x@).map_values(
                |v: ActiveCommitView| active_json(order, v),
            ),
        ),
{
    let ghost trees = items@.map_values(|x: ActiveCommitReport| x@).map_values(
        |v: ActiveCommitView| active_json(order, v),
    );
    let mut values: Vec<serde_json::Value> = Vec::new();
    for i in 0..items.len()
        invariant
            trees == items@.map_values(|x: ActiveCommitReport| x@).map_values(
                |v: ActiveCommitView| active_json(order, v),
            ),
            json::json_views(values@) == trees.take(i as int),
    {
        let ghost before = values@;
        let value = active_value(order, &items[i]);
        values.push(value);
        assert(json::json_views(values@) =~= json::json_views(before).push(json::json_view(value)));
        assert(trees.take(i + 1) =~= trees.take(i as int).push(trees[i as int]));
    }
    assert(trees.take(trees.len() as int) =~= trees);
    json::list(values)
}

/// The object of a repository: `active` and `commits` always, `error` only
/// where collection failed.
pub open spec fn repo_json(order: Order, repo: RepoView) -> JsonView {
    FieldsView::new(order).with("repo"@, JsonView::Text(repo.repo)).with(
        "active"@,
        JsonView::List(repo.active.map_values(|c: ActiveCommitView| active_json(order, c))),
    ).with(
        "commits"@,
        JsonView::List(repo.commits.map_values(|c: CommitView| commit_json(order, c))),
    ).with_text("error"@, repo.error).object()
}

/// The object of a repository.
fn repo_value(order: Order, repo: &RepoReport) -> (r: serde_json::Value)
    ensures
        json::json_view(r) == repo_json(order, repo@),
{
    proof {
        lemma_keys();
    }
    let mut fields = Fields::new(order);
    fields.put("repo", json::string(repo.repo.as_str()));
    fields.put("active", actives_value(order, &repo.active));
    fields.put("commits", commits_value(order, &repo.commits));
    fields.put_text("error", &repo.error);
    fields.object()
}

/// The array of repositories.
fn repos_value(order: Order, items: &Vec<RepoReport>) -> (r: serde_json::Value)
    ensures
        json::json_view(r) == JsonView::List(
            items@.map_values(|x: RepoReport| x@).map_values(
                |v: RepoView| repo_json(order, v),
            ),
        ),
{
    let ghost trees = items@.map_values(|x: RepoReport| x@).map_values(
        |v: RepoView| repo_json(order, v),
    );
    let mut values: Vec<serde_json::Value> = Vec::new();
    for i in 0..items.len()
        invariant
            trees == items@.map_values(|x: RepoReport| x@).map_values(
                |v: RepoView| repo_json(order, v),
            ),
            json::json_views(values@) == trees.take(i as int),
    {
        let ghost before = values@;
        let value = repo_value(order, &items[i]);
        values.push(value);
        assert(json::json_views(values@) =~= json::json_views(before).push(json::json_view(value)));
        assert(trees.take(i + 1) =~= trees.take(i as int).push(trees[i as int]));
    }
    assert(trees.take(trees.len() as int) =~= trees);
    json::list(values)
}

/// The document of a report.
pub open spec fn report_json(report: ReportView) -> JsonView {
    FieldsView::new(Order::AsPut).with("generated_at"@, JsonView::Text(report.generated_at)).with(
        "limit"@,
        JsonView::Number(report.limit as u64),
    ).with(
        "repositories"@,
        JsonView::List(report.repos.map_values(|r: RepoView| repo_json(Order::AsPut, r))),
    ).object()
}

/// The document of a report.
pub(crate) fn report_value(report: &Report) -> (r: serde_json::Value)
    ensures
        json::json_view(r) == report_json(report@),
{
    proof {
        lemma_keys();
    }
    let mut fields = Fields::new(Order::AsPut);
    fields.put("generated_at", json::string(report.generated_at.as_str()));
    fields.put("limit", json::number(report.limit as u64));
    fields.put("repositories", repos_value(Order::AsPut, &report.repos));
    fields.object()
}

/// The record of a repository whose collection failed.
pub open spec fn error_record(repo: Seq<char>, error: Seq<char>) -> JsonView {
    FieldsView::new(Order::Alphabetical).with("type"@, JsonView::Text("repo_error"@)).with(
        "repo"@,
        JsonView::Text(repo),
    ).with("error"@, JsonView::Text(error)).object()
}

/// The record of an active commit of a repository.
pub open spec fn active_record(repo: Seq<char>, commit: ActiveCommitView) -> JsonView {
    active_fields(Order::Alphabetical, commit).with("type"@, JsonView::Text("active_commit"@)).with(
        "repo"@,
        JsonView::Text(repo),
    ).object()
}

/// The record of a settled commit of a repository.
pub open spec fn commit_record(repo: Seq<char>, commit: CommitView) -> JsonView {
    commit_fields(Order::Alphabetical, commit).with("type"@, JsonView::Text("commit"@)).with(
        "repo"@,
        JsonView::Text(repo),
    ).object()
}

/// The records of a repository: its error, then what is running, then what
/// has settled.
pub open spec fn repo_records(repo: RepoView) -> Seq<JsonView> {
    let errors = match repo.error {
        Some(error) => seq![error_record(repo.repo, error)],
        None => Seq::empty(),
    };
    errors + repo.active.map_values(|c: ActiveCommitView| active_record(repo.repo, c))
        + repo.commits.map_values(|c: CommitView| commit_record(repo.repo, c))
}

/// The records of the repositories, in order.
pub open spec fn report_records(repos: Seq<RepoView>) -> Seq<JsonView>
    decreases repos.len(),
{
    if repos.len() == 0 {
        Seq::empty()
    } else {
        report_records(repos.drop_last()) + repo_records(repos.last())
    }
}

/// The record of a repository whose collection failed.
fn error_record_value(repo: &str, error: &str) -> (r: serde_json::Value)
    ensures
        json::json_view(r) == error_record(repo@, error@),
{
    proof {
        lemma_keys();
    }
    let mut fields = Fields::new(Order::Alphabetical);
    fields.put("type", json::string("repo_error"));
    fields.put("repo", json::string(repo));
    fields.put("error", json::string(error));
    fields.object()
}

/// The record of an active commit of a repository.
fn active_record_value(repo: &str, commit: &ActiveCommitReport) -> (r: serde_json::Value)
    ensures
        json::json_view(r) == active_record(repo@, commit@),
{
    proof {
        lemma_keys();
    }
    let mut fields = active_entries(Order::Alphabetical, commit);
    fields.put("type", json::string("active_commit"));
    fields.put("repo", json::string(repo));
    fields.object()
}

/// The record of a settled commit of a repository.
fn commit_record_value(repo: &str, commit: &CommitReport) -> (r: serde_json::Value)
    ensures
        json::json_view(r) == commit_record(repo@, commit@),
{
    proof {
        lemma_keys();
    }
    let mut fields = commit_entries(Order::Alphabetical, commit);
    fields.put("type", json::string("commit"));
    fields.put("repo", json::string(repo));
    fields.object()
}

/// The records of a repository.
fn repo_record_values(repo: &RepoReport) -> (r: Vec<serde_json::Value>)
    ensures
        json::json_views(r@) == repo_records(repo@),
{
    let ghost all = repo_records(repo@);
    let name = repo.repo.as_str();
    let mut values: Vec<serde_json::Value> = Vec::new();
    if let Some(error) = &repo.error {
        values.push(error_record_value(name, error.as_str()));
    }
    let n: usize = values.len();
    assert(json::json_views(values@) =~= all.take(n as int));
    for i in 0..repo.active.len()
        invariant
            name@ == repo@.repo,
            all == repo_records(repo@),
            n == (if repo.error is Some {
                1int
            } else {
                0
            }),
            json::json_views(values@) == all.take(n + i),
    {
        let ghost before = values@;
        let value = active_record_value(name, &repo.active[i]);
        values.push(value);
        assert(json::json_views(values@) =~= json::json_views(before).push(json::json_view(value)));
        assert(all[n + i] == active_record(repo@.repo, repo@.active[i as int]));
        assert(all.take(n + i + 1) =~= all.take(n + i).push(all[n + i]));
    }
    let ghost m = n + repo.active@.len();
    for i in 0..repo.commits.len()
        invariant
            name@ == repo@.repo,
            all == repo_records(repo@),
            m == (if repo.error is Some {
                1int
            } else {
                0
            }) + repo.active@.len(),
            json::json_views(values@) == all.take(m + i),
    {
        let ghost before = values@;
        let value = commit_record_value(name, &repo.commits[i]);
        values.push(value);
        assert(json::json_views(values@) =~= json::json_views(before).push(json::json_view(value)));
        assert(all[m + i] == commit_record(repo@.repo, repo@.commits[i as int]));
        assert(all.take(m + i + 1) =~= all.take(m + i).push(all[m + i]));
    }
    assert(all.take(all.len() as int) =~= all);
    values
}

/// The records of a report.
pub(crate) fn record_values(report: &Report) -> (r: Vec<serde_json::Value>)
    ensures
        json::json_views(r@) == report_records(report@.repos),
{
    let ghost all = report@.repos;
    let mut values: Vec<serde_json::Value> = Vec::new();
    assert(all.take(0) =~= Seq::empty());
    assert(json::json_views(values@) =~= Seq::empty());
    for i in 0..report.repos.len()
        invariant
            all == report@.repos,
            json::json_views(values@) == report_records(all.take(i as int)),
    {
        let ghost before = values@;
        let mut more = repo_record_values(&report.repos[i]);
        let ghost added = more@;
        values.append(&mut more);
        assert(json::json_views(values@) =~= json::json_views(before) + json::json_views(added));
        assert(all.take(i + 1).drop_last() =~= all.take(i as int));
    }
    assert(all.take(all.len() as int) =~= all);
    values
}

/// Whether what stands under the keys is plain.
pub open spec fn fields_plain(fields: FieldsView, depth: nat) -> bool {
    forall|i: int|
        0 <= i < fields.entries.len() ==> json::plain((#[trigger] fields.entries[i]).1, depth)
}

/// One more plain entry keeps the others plain.
proof fn lemma_with_plain(fields: FieldsView, key: Seq<char>, value: JsonView, depth: nat)
    requires
        fields_plain(fields, depth),
        json::plain(value, depth),
    ensures
        fields_plain(fields.with(key, value), depth),
{
    let entry = (key, value);
    let before = fields.entries;
    let after = fields.with(key, value).entries;
    order::lemma_placed_holds(before, entry, entry_key());
    assert forall|i: int| 0 <= i < after.len() implies json::plain(
        (#[trigger] after[i]).1,
        depth,
    ) by {
        match fields.order {
            Order::AsPut => {
                if i < before.len() {
                    assert(after[i] == before[i]);
                }
            },
            Order::Alphabetical => {
                if after[i] != entry {
                    assert(before.contains(after[i]));
                    let k = choose|k: int| 0 <= k < before.len() && before[k] == after[i];
                    assert(before[k].1 == after[i].1);
                }
            },
        }
    }
}

/// A list of plain values.
proof fn lemma_list_plain(items: Seq<JsonView>, depth: nat)
    requires
        forall|i: int| 0 <= i < items.len() ==> json::plain(#[trigger] items[i], depth),
    ensures
        json::plain(JsonView::List(items), depth + 1),
{
}

/// A step's object is plain.
proof fn lemma_step_plain(order: Order, step: StepView)
    ensures
        json::plain(step_json(order, step), 1),
{
    let f0 = FieldsView::new(order);
    lemma_with_plain(f0, "name"@, JsonView::Text(step.name), 0);
    let f1 = f0.with("name"@, JsonView::Text(step.name));
    lemma_with_plain(f1, "number"@, JsonView::Number(step.number), 0);
    let f2 = f1.with("number"@, JsonView::Number(step.number));
    lemma_with_plain(f2, "conclusion"@, JsonView::Text(step.conclusion.label_text()), 0);
}

/// A job's object is plain.
proof fn lemma_job_plain(order: Order, job: JobView)
    ensures
        json::plain(job_json(order, job), 3),
{
    let items = job.steps.map_values(|s: StepView| step_json(order, s));
    assert forall|i: int| 0 <= i < items.len() implies json::plain(#[trigger] items[i], 1) by {
        lemma_step_plain(order, job.steps[i]);
    }
    lemma_list_plain(items, 1);
    let label = JsonView::Text(job.conclusion.label_text());
    let f0 = FieldsView::new(order);
    lemma_with_plain(f0, "name"@, JsonView::Text(job.name), 2);
    let f1 = f0.with("name"@, JsonView::Text(job.name));
    lemma_with_plain(f1, "conclusion"@, label, 2);
    let f2 = f1.with("conclusion"@, label);
    lemma_with_plain(f2, "url"@, JsonView::Text(job.url), 2);
    let f3 = f2.with("url"@, JsonView::Text(job.url));
    lemma_with_plain(f3, "steps"@, JsonView::List(items), 2);
}

/// Texts under keys are plain.
proof fn lemma_texts_plain(
    fields: FieldsView,
    depth: nat,
    a: (Seq<char>, Seq<char>),
    b: (Seq<char>, Seq<char>),
    c: (Seq<char>, Seq<char>),
)
    requires
        fields_plain(fields, depth),
    ensures
        fields_plain(
            fields.with(a.0, JsonView::Text(a.1)).with(b.0, JsonView::Text(b.1)).with(
                c.0,
                JsonView::Text(c.1),
            ),
            depth,
        ),
{
    lemma_with_plain(fields, a.0, JsonView::Text(a.1), depth);
    let f1 = fields.with(a.0, JsonView::Text(a.1));
    lemma_with_plain(f1, b.0, JsonView::Text(b.1), depth);
    let f2 = f1.with(b.0, JsonView::Text(b.1));
    lemma_with_plain(f2, c.0, JsonView::Text(c.1), depth);
}

/// A completed run's object is plain.
proof fn lemma_run_plain(order: Order, run: RunView)
    ensures
        json::plain(run_json(order, run), 5),
{
    let items = run.jobs.map_values(|j: JobView| job_json(order, j));
    assert forall|i: int| 0 <= i < items.len() implies json::plain(#[trigger] items[i], 3) by {
        lemma_job_plain(order, run.jobs[i]);
    }
    lemma_list_plain(items, 3);
    let f0 = FieldsView::new(order);
    lemma_with_plain(f0, "workflow"@, JsonView::Text(run.workflow), 4);
    let f1 = f0.with("workflow"@, JsonView::Text(run.workflow));
    lemma_with_plain(f1, "title"@, JsonView::Text(run.title), 4);
    let f2 = f1.with("title"@, JsonView::Text(run.title));
    lemma_with_plain(f2, "run_number"@, JsonView::Number(run.run_number), 4);
    let f3 = f2.with("run_number"@, JsonView::Number(run.run_number));
    lemma_texts_plain(
        f3,
        4,
        ("event"@, run.event),
        ("branch"@, run.branch),
        ("sha"@, run.sha),
    );
    let f6 = f3.with("event"@, JsonView::Text(run.event)).with(
        "branch"@,
        JsonView::Text(run.branch),
    ).with("sha"@, JsonView::Text(run.sha));
    lemma_texts_plain(
        f6,
        4,
        ("conclusion"@, run.conclusion.label_text()),
        ("url"@, run.url),
        ("created_at"@, run.created_at),
    );
    let f9 = f6.with("conclusion"@, JsonView::Text(run.conclusion.label_text())).with(
        "url"@,
        JsonView::Text(run.url),
    ).with("created_at"@, JsonView::Text(run.created_at));
    lemma_with_plain(f9, "updated_at"@, JsonView::Text(run.updated_at), 4);
    let f10 = f9.with("updated_at"@, JsonView::Text(run.updated_at));
    if run.duration_seconds is Some {
        lemma_with_plain(
            f10,
            "duration_seconds"@,
            JsonView::Number(run.duration_seconds->0),
            4,
        );
    }
    let f11 = f10.with_number("duration_seconds"@, run.duration_seconds);
    lemma_with_plain(f11, "jobs"@, JsonView::List(items), 4);
}

/// A settled commit's entries are plain.
proof fn lemma_commit_plain(order: Order, commit: CommitView)
    ensures
        fields_plain(commit_fields(order, commit), 6),
{
    let items = commit.runs.map_values(|r: RunView| run_json(order, r));
    assert forall|i: int| 0 <= i < items.len() implies json::plain(#[trigger] items[i], 5) by {
        lemma_run_plain(order, commit.runs[i]);
    }
    lemma_list_plain(items, 5);
    let f0 = FieldsView::new(order);
    lemma_texts_plain(
        f0,
        6,
        ("sha"@, commit.sha),
        ("title"@, commit.title),
        ("branch"@, commit.branch),
    );
    let f3 = f0.with("sha"@, JsonView::Text(commit.sha)).with(
        "title"@,
        JsonView::Text(commit.title),
    ).with("branch"@, JsonView::Text(commit.branch));
    lemma_texts_plain(
        f3,
        6,
        ("event"@, commit.event),
        ("conclusion"@, commit.conclusion.label_text()),
        ("url"@, commit.url),
    );
    let f6 = f3.with("event"@, JsonView::Text(commit.event)).with(
        "conclusion"@,
        JsonView::Text(commit.conclusion.label_text()),
    ).with("url"@, JsonView::Text(commit.url));
    lemma_with_plain(f6, "finished_at"@, JsonView::Text(commit.finished_at), 6);
    let f7 = f6.with("finished_at"@, JsonView::Text(commit.finished_at));
    if commit.duration_seconds is Some {
        lemma_with_plain(
            f7,
            "duration_seconds"@,
            JsonView::Number(commit.duration_seconds->0),
            6,
        );
    }
    let f8 = f7.with_number("duration_seconds"@, commit.duration_seconds);
    lemma_with_plain(f8, "runs"@, JsonView::List(items), 6);
}

/// A running run's object is plain.
proof fn lemma_active_run_plain(order: Order, run: ActiveRunView)
    ensures
        json::plain(active_run_json(order, run), 5),
{
    let f0 = FieldsView::new(order);
    lemma_with_plain(f0, "workflow"@, JsonView::Text(run.workflow), 4);
    let f1 = f0.with("workflow"@, JsonView::Text(run.workflow));
    lemma_with_plain(f1, "title"@, JsonView::Text(run.title), 4);
    let f2 = f1.with("title"@, JsonView::Text(run.title));
    lemma_with_plain(f2, "run_number"@, JsonView::Number(run.run_number), 4);
    let f3 = f2.with("run_number"@, JsonView::Number(run.run_number));
    lemma_texts_plain(
        f3,
        4,
        ("event"@, run.event),
        ("branch"@, run.branch),
        ("sha"@, run.sha),
    );
    let f6 = f3.with("event"@, JsonView::Text(run.event)).with(
        "branch"@,
        JsonView::Text(run.branch),
    ).with("sha"@, JsonView::Text(run.sha));
    lemma_texts_plain(
        f6,
        4,
        ("status"@, run.status.label_text()),
        ("url"@, run.url),
        ("created_at"@, run.created_at),
    );
    let f9 = f6.with("status"@, JsonView::Text(run.status.label_text())).with(
        "url"@,
        JsonView::Text(run.url),
    ).with("created_at"@, JsonView::Text(run.created_at));
    if run.started_at is Some {
        lemma_with_plain(f9, "started_at"@, JsonView::Text(run.started_at->0), 4);
    }
}

/// An active commit's entries are plain.
proof fn lemma_active_plain(order: Order, commit: ActiveCommitView)
    ensures
        fields_plain(active_fields(order, commit), 6),
{
    let items = commit.runs.map_values(|r: ActiveRunView| active_run_json(order, r));
    assert forall|i: int| 0 <= i < items.len() implies json::plain(#[trigger] items[i], 5) by {
        lemma_active_run_plain(order, commit.runs[i]);
    }
    lemma_list_plain(items, 5);
    let f0 = FieldsView::new(order);
    lemma_texts_plain(
        f0,
        6,
        ("sha"@, commit.sha),
        ("title"@, commit.title),
        ("branch"@, commit.branch),
    );
    let f3 = f0.with("sha"@, JsonView::Text(commit.sha)).with(
        "title"@,
        JsonView::Text(commit.title),
    ).with("branch"@, JsonView::Text(commit.branch));
    lemma_texts_plain(
        f3,
        6,
        ("event"@, commit.event),
        ("url"@, commit.url),
        ("started_at"@, commit.started_at),
    );
    let f6 = f3.with("event"@, JsonView::Text(commit.event)).with(
        "url"@,
        JsonView::Text(commit.url),
    ).with("started_at"@, JsonView::Text(commit.started_at));
    lemma_with_plain(f6, "runs"@, JsonView::List(items), 6);
}

/// A repository's object is plain.
proof fn lemma_repo_plain(order: Order, repo: RepoView)
    ensures
        json::plain(repo_json(order, repo), 9),
{
    let active = repo.active.map_values(|c: ActiveCommitView| active_json(order, c));
    assert forall|i: int| 0 <= i < active.len() implies json::plain(
        #[trigger] active[i],
        7,
    ) by {
        lemma_active_plain(order, repo.active[i]);
    }
    lemma_list_plain(active, 7);
    let commits = repo.commits.map_values(|c: CommitView| commit_json(order, c));
    assert forall|i: int| 0 <= i < commits.len() implies json::plain(
        #[trigger] commits[i],
        7,
    ) by {
        lemma_commit_plain(order, repo.commits[i]);
    }
    lemma_list_plain(commits, 7);
    let f0 = FieldsView::new(order);
    lemma_with_plain(f0, "repo"@, JsonView::Text(repo.repo), 8);
    let f1 = f0.with("repo"@, JsonView::Text(repo.repo));
    lemma_with_plain(f1, "active"@, JsonView::List(active), 8);
    let f2 = f1.with("active"@, JsonView::List(active));
    lemma_with_plain(f2, "commits"@, JsonView::List(commits), 8);
    let f3 = f2.with("commits"@, JsonView::List(commits));
    if repo.error is Some {
        lemma_with_plain(f3, "error"@, JsonView::Text(repo.error->0), 8);
    }
}

/// A report's document is plain, and not too deep to be read.
pub proof fn lemma_report_plain(report: ReportView)
    ensures
        json::plain(report_json(report), json::depth_limit()),
{
    let order = Order::AsPut;
    let items = report.repos.map_values(|r: RepoView| repo_json(order, r));
    assert forall|i: int| 0 <= i < items.len() implies json::plain(#[trigger] items[i], 9) by {
        lemma_repo_plain(order, report.repos[i]);
    }
    lemma_list_plain(items, 9);
    let f0 = FieldsView::new(order);
    lemma_with_plain(f0, "generated_at"@, JsonView::Text(report.generated_at), 10);
    let f1 = f0.with("generated_at"@, JsonView::Text(report.generated_at));
    lemma_with_plain(f1, "limit"@, JsonView::Number(report.limit as u64), 10);
    let f2 = f1.with("limit"@, JsonView::Number(report.limit as u64));
    lemma_with_plain(f2, "repositories"@, JsonView::List(items), 10);
    assert(json::plain(report_json(report), 11));
    json::lemma_plain_grows(report_json(report), 11, json::depth_limit());
}

/// Two tags keep entries plain.
proof fn lemma_tags_plain(fields: FieldsView, kind: Seq<char>, repo: Seq<char>)
    requires
        fields_plain(fields, 6),
    ensures
        json::plain(
            fields.with("type"@, JsonView::Text(kind)).with(
                "repo"@,
                JsonView::Text(repo),
            ).object(),
            7,
        ),
{
    lemma_with_plain(fields, "type"@, JsonView::Text(kind), 6);
    let f1 = fields.with("type"@, JsonView::Text(kind));
    lemma_with_plain(f1, "repo"@, JsonView::Text(repo), 6);
}

/// A repository's records are plain, and not too deep to be read.
proof fn lemma_repo_records_plain(repo: RepoView)
    ensures
        forall|i: int|
            0 <= i < repo_records(repo).len() ==> json::plain(
                #[trigger] repo_records(repo)[i],
                json::depth_limit(),
            ),
{
    let all = repo_records(repo);
    let errors: int = if repo.error is Some {
        1
    } else {
        0
    };
    assert forall|i: int| 0 <= i < all.len() implies json::plain(
        #[trigger] all[i],
        json::depth_limit(),
    ) by {
        if i < errors {
            let f0 = FieldsView::new(Order::Alphabetical);
            lemma_texts_plain(
                f0,
                6,
                ("type"@, "repo_error"@),
                ("repo"@, repo.repo),
                ("error"@, repo.error->0),
            );
            assert(all[i] == error_record(repo.repo, repo.error->0));
        } else if i < errors + repo.active.len() {
            let commit = repo.active[i - errors];
            lemma_active_plain(Order::Alphabetical, commit);
            lemma_tags_plain(
                active_fields(Order::Alphabetical, commit),
                "active_commit"@,
                repo.repo,
            );
            assert(all[i] == active_record(repo.repo, commit));
        } else {
            let commit = repo.commits[i - errors - repo.active.len()];
            lemma_commit_plain(Order::Alphabetical, commit);
            lemma_tags_plain(
                commit_fields(Order::Alphabetical, commit),
                "commit"@,
                repo.repo,
            );
            assert(all[i] == commit_record(repo.repo, commit));
        }
        json::lemma_plain_grows(all[i], 7, json::depth_limit());
    }
}

/// A report's records are plain, and not too deep to be read.
pub proof fn lemma_records_plain(repos: Seq<RepoView>)
    ensures
        forall|i: int|
            0 <= i < report_records(repos).len() ==> json::plain(
                #[trigger] report_records(repos)[i],
                json::depth_limit(),
            ),
    decreases repos.len(),
{
    if repos.len() > 0 {
        lemma_records_plain(repos.drop_last());
        lemma_repo_records_plain(repos.last());
        let before = report_records(repos.drop_last());
        let all = report_records(repos);
        assert forall|i: int| 0 <= i < all.len() implies json::plain(
            #[trigger] all[i],
            json::depth_limit(),
        ) by {
            if i < before.len() {
                assert(all[i] == before[i]);
            } else {
                assert(all[i] == repo_records(repos.last())[i - before.len()]);
            }
        }
    }
}

} // verus!
