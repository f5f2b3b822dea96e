//! Laws of the output formats.

use vstd::prelude::*;

use crate::clock;
use crate::layout;
use crate::model::{
    ActiveCommitView, ActiveRunView, CommitView, JobView, RepoView, ReportView, RunView, StepView,
};
use crate::paint;
use crate::paint::{Paint, PieceView};
use crate::render;
use crate::text;

verus! {

/// Whether a text holds no escape character.
pub open spec fn clean(s: Seq<char>) -> bool {
    !s.contains('\u{1b}')
}

/// A text without its escape codes: each runs from an escape character to the
/// next `m`.
pub open spec fn uncolored(s: Seq<char>) -> Seq<char>
    decreases s.len(),
{
    if s.len() == 0 {
        Seq::empty()
    } else if s[0] == '\u{1b}' {
        proof {
            lemma_after_m_is_shorter(s.drop_first());
        }
        uncolored(after_m(s.drop_first()))
    } else {
        seq![s[0]] + uncolored(s.drop_first())
    }
}

/// What follows the first `m`.
pub open spec fn after_m(s: Seq<char>) -> Seq<char>
    decreases s.len(),
{
    if s.len() == 0 {
        Seq::empty()
    } else if s[0] == 'm' {
        s.drop_first()
    } else {
        after_m(s.drop_first())
    }
}

/// There is no more behind the first `m` than there was.
pub proof fn lemma_after_m_is_shorter(s: Seq<char>)
    ensures
        after_m(s).len() <= s.len(),
    decreases s.len(),
{
    if s.len() > 0 {
        lemma_after_m_is_shorter(s.drop_first());
    }
}

/// Two clean texts make a clean one.
broadcast proof fn lemma_clean_joins(a: Seq<char>, b: Seq<char>)
    requires
        clean(a),
        clean(b),
    ensures
        #[trigger] clean(a + b),
{
    assert forall|i: int| 0 <= i < (a + b).len() implies (a + b)[i] != '\u{1b}' by {
        if i < a.len() {
            assert(a.contains(a[i]));
            assert((a + b)[i] == a[i]);
        } else {
            assert(b.contains(b[i - a.len()]));
            assert((a + b)[i] == b[i - a.len()]);
        }
    }
}

/// A clean text stays as it is.
proof fn lemma_uncolored_clean(t: Seq<char>, rest: Seq<char>)
    requires
        clean(t),
    ensures
        uncolored(t + rest) == t + uncolored(rest),
    decreases t.len(),
{
    if t.len() == 0 {
        assert(t + rest =~= rest);
        assert(t + uncolored(rest) =~= uncolored(rest));
    } else {
        let s = t + rest;
        assert(t.contains(t[0]));
        assert(s[0] == t[0]);
        assert forall|i: int| 0 <= i < t.drop_first().len() implies t.drop_first()[i]
            != '\u{1b}' by {
            assert(t.contains(t[i + 1]));
        }
        lemma_uncolored_clean(t.drop_first(), rest);
        assert(s.drop_first() =~= t.drop_first() + rest);
        assert(seq![t[0]] + (t.drop_first() + uncolored(rest)) =~= t + uncolored(rest));
    }
}

/// An escape code goes up to its `m`.
proof fn lemma_after_code(code: Seq<char>, rest: Seq<char>)
    requires
        !code.contains('m'),
    ensures
        after_m(code.push('m') + rest) == rest,
    decreases code.len(),
{
    let s = code.push('m') + rest;
    if code.len() == 0 {
        assert(s[0] == 'm');
        assert(s.drop_first() =~= rest);
    } else {
        assert(code.contains(code[0]));
        assert(s[0] == code[0]);
        assert forall|i: int| 0 <= i < code.drop_first().len() implies code.drop_first()[i]
            != 'm' by {
            assert(code.contains(code[i + 1]));
        }
        lemma_after_code(code.drop_first(), rest);
        assert(s.drop_first() =~= code.drop_first().push('m') + rest);
    }
}

/// A painted clean text comes back without its escape codes.
proof fn lemma_uncolored_painted(style: Paint, t: Seq<char>, rest: Seq<char>)
    requires
        clean(t),
    ensures
        uncolored(paint::painted(style, t) + rest) == t + uncolored(rest),
{
    reveal_strlit("\u{1b}[");
    reveal_strlit("m");
    reveal_strlit("\u{1b}[0m");
    reveal_strlit("32");
    reveal_strlit("31");
    reveal_strlit("33");
    reveal_strlit("36");
    reveal_strlit("1");
    reveal_strlit("2");
    let code = style.code();
    let open = seq!['['] + code;
    let close = seq!['[', '0'];
    assert(!open.contains('m'));
    assert(!close.contains('m'));
    let tail = "\u{1b}[0m"@ + rest;
    assert(tail =~= seq!['\u{1b}'] + (close.push('m') + rest));
    assert(tail.drop_first() =~= close.push('m') + rest);
    lemma_after_code(close, rest);
    assert(uncolored(tail) == uncolored(rest));
    let whole = paint::painted(style, t) + rest;
    assert(whole =~= seq!['\u{1b}'] + (open.push('m') + (t + tail)));
    assert(whole.drop_first() =~= open.push('m') + (t + tail));
    lemma_after_code(open, t + tail);
    lemma_uncolored_clean(t, tail);
}

/// Whether every piece's text is clean.
pub open spec fn all_clean(pieces: Seq<PieceView>) -> bool {
    forall|i: int| 0 <= i < pieces.len() ==> clean((#[trigger] pieces[i]).text)
}

/// Taking the escape codes out of colored pieces leaves what is written
/// without color.
proof fn lemma_uncolored_pieces(pieces: Seq<PieceView>, rest: Seq<char>)
    requires
        all_clean(pieces),
    ensures
        uncolored(paint::pieces_text(true, pieces) + rest) == paint::pieces_text(false, pieces)
            + uncolored(rest),
    decreases pieces.len(),
{
    if pieces.len() == 0 {
        assert(paint::pieces_text(true, pieces) + rest =~= rest);
        assert(paint::pieces_text(false, pieces) + uncolored(rest) =~= uncolored(rest));
    } else {
        let init = pieces.drop_last();
        let last = pieces[pieces.len() - 1];
        assert forall|i: int| 0 <= i < init.len() implies clean((#[trigger] init[i]).text) by {
            assert(init[i] == pieces[i]);
        }
        let tail = paint::piece_text(true, last) + rest;
        lemma_uncolored_pieces(init, tail);
        assert(paint::pieces_text(true, pieces) + rest =~= paint::pieces_text(true, init) + tail);
        match last.style {
            Some(style) => lemma_uncolored_painted(style, last.text, rest),
            None => lemma_uncolored_clean(last.text, rest),
        }
        assert(paint::pieces_text(false, init) + (last.text + uncolored(rest))
            =~= paint::pieces_text(false, pieces) + uncolored(rest));
    }
}

/// What is written without color is clean.
proof fn lemma_plain_pieces_clean(pieces: Seq<PieceView>)
    requires
        all_clean(pieces),
    ensures
        clean(paint::pieces_text(false, pieces)),
    decreases pieces.len(),
{
    if pieces.len() > 0 {
        let init = pieces.drop_last();
        assert forall|i: int| 0 <= i < init.len() implies clean((#[trigger] init[i]).text) by {
            assert(init[i] == pieces[i]);
        }
        lemma_plain_pieces_clean(init);
        lemma_clean_joins(paint::pieces_text(false, init), pieces[pieces.len() - 1].text);
    }
}

/// The fixed texts of the layout are clean.
proof fn lemma_fixed_texts_clean()
    ensures
        clean("  "@),
        clean("↻"@),
        clean(" "@),
        clean("·"@),
        clean("· "@),
        clean(" ·"@),
        clean("running"@),
        clean("\n"@),
        clean("      "@),
        clean("          "@),
        clean("              "@),
        clean(" · "@),
        clean("(untitled commit)"@),
        clean(" workflows"@),
        clean("#"@),
        clean("(unknown workflow)"@),
        clean("step "@),
        clean(": "@),
        clean("✘"@),
        clean("no commits to report"@),
        clean("success"@),
        clean("failure"@),
        clean("cancelled"@),
        clean("timed_out"@),
        clean("action_required"@),
        clean("startup_failure"@),
        clean("skipped"@),
        clean("neutral"@),
        clean("stale"@),
        clean("in_progress"@),
        clean("✔"@),
        clean("⏱"@),
        clean("⊘"@),
        clean("⚑"@),
        clean("•"@),
        clean("s"@),
        clean("m"@),
        clean("h"@),
        clean("d"@),
        clean("w"@),
        clean("mo"@),
        clean("y"@),
        clean(" ago"@),
        clean("just now"@),
{
    reveal_strlit("  ");
    reveal_strlit("↻");
    reveal_strlit(" ");
    reveal_strlit("·");
    reveal_strlit("· ");
    reveal_strlit(" ·");
    reveal_strlit("running");
    reveal_strlit("\n");
    reveal_strlit("      ");
    reveal_strlit("          ");
    reveal_strlit("              ");
    reveal_strlit(" · ");
    reveal_strlit("(untitled commit)");
    reveal_strlit(" workflows");
    reveal_strlit("#");
    reveal_strlit("(unknown workflow)");
    reveal_strlit("step ");
    reveal_strlit(": ");
    reveal_strlit("✘");
    reveal_strlit("no commits to report");
    reveal_strlit("success");
    reveal_strlit("failure");
    reveal_strlit("cancelled");
    reveal_strlit("timed_out");
    reveal_strlit("action_required");
    reveal_strlit("startup_failure");
    reveal_strlit("skipped");
    reveal_strlit("neutral");
    reveal_strlit("stale");
    reveal_strlit("in_progress");
    reveal_strlit("✔");
    reveal_strlit("⏱");
    reveal_strlit("⊘");
    reveal_strlit("⚑");
    reveal_strlit("•");
    reveal_strlit("s");
    reveal_strlit("m");
    reveal_strlit("h");
    reveal_strlit("d");
    reveal_strlit("w");
    reveal_strlit("mo");
    reveal_strlit("y");
    reveal_strlit(" ago");
    reveal_strlit("just now");
}

/// A number's decimal notation is clean.
proof fn lemma_decimal_clean(n: nat)
    ensures
        clean(text::decimal(n)),
    decreases n,
{
    let d = text::digit(n % 10);
    assert('0' <= d <= '9');
    if n >= 10 {
        lemma_decimal_clean(n / 10);
        let init = text::decimal(n / 10);
        assert(text::decimal(n) =~= init + seq![d]);
        assert(clean(seq![d]));
        lemma_clean_joins(init, seq![d]);
    } else {
        assert(text::decimal(n) =~= seq![d]);
    }
}

/// Clean texts are clean together.
proof fn lemma_joined_clean(list: Seq<Seq<char>>, sep: Seq<char>)
    requires
        clean(sep),
        forall|i: int| 0 <= i < list.len() ==> clean(#[trigger] list[i]),
    ensures
        clean(text::joined(list, sep)),
    decreases list.len(),
{
    broadcast use lemma_clean_joins;

    if list.len() > 1 {
        let init = list.drop_last();
        assert forall|i: int| 0 <= i < init.len() implies clean(#[trigger] init[i]) by {
            assert(init[i] == list[i]);
        }
        lemma_joined_clean(init, sep);
        assert(clean(list[list.len() - 1]));
    }
}

/// A duration is clean.
proof fn lemma_duration_clean(secs: nat)
    ensures
        clean(clock::duration_text(secs)),
{
    broadcast use lemma_clean_joins;

    lemma_fixed_texts_clean();
    lemma_decimal_clean(secs);
    lemma_decimal_clean(secs / 60);
    lemma_decimal_clean(secs % 60);
    lemma_decimal_clean(secs / 3600);
    lemma_decimal_clean((secs % 3600) / 60);
}

/// A relative time is clean.
proof fn lemma_ago_clean(secs: int)
    ensures
        clean(clock::ago_text(secs)),
{
    broadcast use lemma_clean_joins;

    lemma_fixed_texts_clean();
    if secs > 0 {
        lemma_decimal_clean(secs as nat);
        lemma_decimal_clean((secs / 60) as nat);
        lemma_decimal_clean((secs / 3600) as nat);
        lemma_decimal_clean((secs / 86400) as nat);
        lemma_decimal_clean((secs / 604800) as nat);
        lemma_decimal_clean((secs / 2592000) as nat);
        lemma_decimal_clean((secs / 31536000) as nat);
    }
}

/// Whether what is shown of a job is clean.
pub open spec fn job_clean(job: JobView) -> bool {
    &&& clean(job.name)
    &&& clean(job.url)
    &&& forall|i: int| 0 <= i < job.steps.len() ==> clean((#[trigger] job.steps[i]).name)
}

/// Whether what is shown of a completed run is clean.
pub open spec fn run_clean(run: RunView) -> bool {
    &&& clean(run.workflow)
    &&& clean(run.url)
    &&& forall|i: int| 0 <= i < run.jobs.len() ==> job_clean(#[trigger] run.jobs[i])
}

/// Whether what is shown of a settled commit is clean.
pub open spec fn commit_clean(commit: CommitView) -> bool {
    &&& clean(commit.sha)
    &&& clean(commit.title)
    &&& clean(commit.branch)
    &&& forall|i: int| 0 <= i < commit.runs.len() ==> run_clean(#[trigger] commit.runs[i])
}

/// Whether what is shown of an active commit is clean.
pub open spec fn active_clean(commit: ActiveCommitView) -> bool {
    &&& clean(commit.sha)
    &&& clean(commit.title)
    &&& clean(commit.branch)
    &&& forall|i: int|
        0 <= i < commit.runs.len() ==> clean((#[trigger] commit.runs[i]).workflow) && clean(
            commit.runs[i].url,
        )
}

/// Whether what is shown of a repository is clean.
pub open spec fn repo_clean(repo: RepoView) -> bool {
    &&& clean(repo.repo)
    &&& repo.error matches Some(e) ==> clean(e)
    &&& forall|i: int| 0 <= i < repo.active.len() ==> active_clean(#[trigger] repo.active[i])
    &&& forall|i: int| 0 <= i < repo.commits.len() ==> commit_clean(#[trigger] repo.commits[i])
}

/// Whether what is shown of a report is clean.
pub open spec fn report_clean(report: ReportView) -> bool {
    forall|i: int| 0 <= i < report.repos.len() ==> repo_clean(#[trigger] report.repos[i])
}

/// Clean pieces are clean together.
broadcast proof fn lemma_pieces_join(a: Seq<PieceView>, b: Seq<PieceView>)
    requires
        all_clean(a),
        all_clean(b),
    ensures
        #[trigger] all_clean(a + b),
{
    assert forall|i: int| 0 <= i < (a + b).len() implies clean((#[trigger] (a + b)[i]).text) by {
        if i < a.len() {
            assert((a + b)[i] == a[i]);
        } else {
            assert((a + b)[i] == b[i - a.len()]);
        }
    }
}

/// A link's row is clean.
proof fn lemma_link_clean(indent: Seq<char>, url: Seq<char>)
    requires
        clean(indent),
        clean(url),
    ensures
        all_clean(layout::link_row(indent, url)),
{
    lemma_fixed_texts_clean();
}

/// What follows a title is clean.
proof fn lemma_meta_clean(
    branch: Seq<char>,
    runs: nat,
    a: Option<Seq<char>>,
    b: Option<Seq<char>>,
)
    requires
        clean(branch),
        a matches Some(s) ==> clean(s),
        b matches Some(s) ==> clean(s),
    ensures
        clean(
            layout::dotted(
                layout::with_option(layout::with_option(layout::base_meta(branch, runs), a), b),
            ),
        ),
        clean(layout::dotted(layout::with_option(layout::base_meta(branch, runs), a))),
{
    broadcast use lemma_clean_joins;

    lemma_fixed_texts_clean();
    lemma_decimal_clean(runs);
    let base = layout::base_meta(branch, runs);
    assert forall|i: int| 0 <= i < base.len() implies clean(#[trigger] base[i]) by {}
    let one = layout::with_option(base, a);
    assert forall|i: int| 0 <= i < one.len() implies clean(#[trigger] one[i]) by {
        if i < base.len() {
            assert(one[i] == base[i]);
        }
    }
    let two = layout::with_option(one, b);
    assert forall|i: int| 0 <= i < two.len() implies clean(#[trigger] two[i]) by {
        if i < one.len() {
            assert(two[i] == one[i]);
        }
    }
    lemma_joined_clean(one, " · "@);
    lemma_joined_clean(two, " · "@);
}

/// What follows a workflow's name is clean.
proof fn lemma_run_meta_clean(number: u64, a: Option<Seq<char>>, label: Seq<char>)
    requires
        a matches Some(s) ==> clean(s),
        clean(label),
    ensures
        clean(
            layout::dotted(
                layout::with_option(
                    seq!["#"@ + text::decimal(number as nat)],
                    a,
                ).push(label),
            ),
        ),
{
    broadcast use lemma_clean_joins;

    lemma_fixed_texts_clean();
    lemma_decimal_clean(number as nat);
    let first = seq!["#"@ + text::decimal(number as nat)];
    let one = layout::with_option(first, a);
    assert forall|i: int| 0 <= i < one.len() implies clean(#[trigger] one[i]) by {
        if i < first.len() {
            assert(one[i] == first[i]);
        }
    }
    let two = one.push(label);
    assert forall|i: int| 0 <= i < two.len() implies clean(#[trigger] two[i]) by {
        if i < one.len() {
            assert(two[i] == one[i]);
        }
    }
    lemma_joined_clean(two, " · "@);
}

/// The rows of an active run are clean.
proof fn lemma_active_run_clean(run: ActiveRunView, now: Seq<char>)
    requires
        clean(run.workflow),
        clean(run.url),
    ensures
        all_clean(layout::active_run_rows(run, layout::run_elapsed(run, now))),
{
    broadcast use {lemma_clean_joins, lemma_pieces_join};

    lemma_fixed_texts_clean();
    let elapsed = layout::run_elapsed(run, now);
    if elapsed is Some {
        lemma_elapsed_clean(
            clock::instant_of(run.started_at->0),
            clock::instant_of(now),
        );
    }
    lemma_run_meta_clean(run.run_number, elapsed, run.status.label_text());
    lemma_link_clean("          "@, run.url);
}

/// An elapsed time is clean.
proof fn lemma_elapsed_clean(then: Option<clock::Instant>, now: Option<clock::Instant>)
    ensures
        clock::elapsed_between(then, now) matches Some(s) ==> clean(s),
{
    if then is Some && now is Some {
        let secs = now->0.second - then->0.second;
        lemma_duration_clean(
            if secs < 0 {
                0
            } else {
                secs as nat
            },
        );
    }
}

/// The rows of active runs are clean.
proof fn lemma_active_runs_clean(runs: Seq<ActiveRunView>, now: Seq<char>)
    requires
        forall|i: int|
            0 <= i < runs.len() ==> clean((#[trigger] runs[i]).workflow) && clean(runs[i].url),
    ensures
        all_clean(layout::active_runs_rows(runs, now)),
    decreases runs.len(),
{
    broadcast use lemma_pieces_join;

    if runs.len() > 0 {
        let init = runs.drop_last();
        assert forall|i: int| 0 <= i < init.len() implies clean((#[trigger] init[i]).workflow)
            && clean(init[i].url) by {
            assert(init[i] == runs[i]);
        }
        lemma_active_runs_clean(init, now);
        assert(runs.last() == runs[runs.len() - 1]);
        lemma_active_run_clean(runs.last(), now);
    }
}

/// The rows of an active commit are clean.
proof fn lemma_active_clean(commit: ActiveCommitView, now: Seq<char>)
    requires
        active_clean(commit),
    ensures
        all_clean(layout::active_rows(commit, now)),
{
    broadcast use {lemma_clean_joins, lemma_pieces_join};

    lemma_fixed_texts_clean();
    let elapsed = clock::elapsed_between(
        clock::instant_of(commit.started_at),
        clock::instant_of(now),
    );
    lemma_elapsed_clean(clock::instant_of(commit.started_at), clock::instant_of(now));
    lemma_meta_clean(commit.branch, commit.runs.len(), elapsed, None);
    lemma_active_runs_clean(commit.runs, now);
    assert(all_clean(layout::active_line(commit, elapsed)));
}

/// The rows of a job are clean.
proof fn lemma_job_clean(job: JobView)
    requires
        job_clean(job),
    ensures
        all_clean(layout::job_rows(job)),
{
    broadcast use {lemma_clean_joins, lemma_pieces_join};

    lemma_fixed_texts_clean();
    lemma_steps_clean(job.steps);
    lemma_link_clean("              "@, job.url);
}

/// The rows of steps are clean.
proof fn lemma_steps_clean(steps: Seq<StepView>)
    requires
        forall|i: int| 0 <= i < steps.len() ==> clean((#[trigger] steps[i]).name),
    ensures
        all_clean(layout::step_rows(steps)),
    decreases steps.len(),
{
    broadcast use {lemma_clean_joins, lemma_pieces_join};

    if steps.len() > 0 {
        let init = steps.drop_last();
        assert forall|i: int| 0 <= i < init.len() implies clean((#[trigger] init[i]).name) by {
            assert(init[i] == steps[i]);
        }
        lemma_steps_clean(init);
        let step = steps[steps.len() - 1];
        lemma_fixed_texts_clean();
        lemma_decimal_clean(step.number as nat);
        assert(all_clean(layout::step_row(step)));
    }
}

/// The rows of jobs are clean.
proof fn lemma_jobs_clean(jobs: Seq<JobView>)
    requires
        forall|i: int| 0 <= i < jobs.len() ==> job_clean(#[trigger] jobs[i]),
    ensures
        all_clean(layout::jobs_rows(jobs)),
    decreases jobs.len(),
{
    broadcast use lemma_pieces_join;

    if jobs.len() > 0 {
        let init = jobs.drop_last();
        assert forall|i: int| 0 <= i < init.len() implies job_clean(#[trigger] init[i]) by {
            assert(init[i] == jobs[i]);
        }
        lemma_jobs_clean(init);
        assert(jobs.last() == jobs[jobs.len() - 1]);
        lemma_job_clean(jobs.last());
    }
}

/// The rows of a problem run are clean.
proof fn lemma_failed_run_clean(run: RunView)
    requires
        run_clean(run),
    ensures
        all_clean(layout::failed_run_rows(run)),
{
    broadcast use {lemma_clean_joins, lemma_pieces_join};

    lemma_fixed_texts_clean();
    let duration = match run.duration_seconds {
        Some(secs) => Some(clock::duration_text(secs as nat)),
        None => None,
    };
    if run.duration_seconds is Some {
        lemma_duration_clean(run.duration_seconds->0 as nat);
    }
    lemma_run_meta_clean(run.run_number, duration, run.conclusion.label_text());
    lemma_jobs_clean(run.jobs);
    lemma_link_clean("          "@, run.url);
    assert(all_clean(layout::failed_run_line(run)));
}

/// The rows of problem runs are clean.
proof fn lemma_problem_runs_clean(runs: Seq<RunView>)
    requires
        forall|i: int| 0 <= i < runs.len() ==> run_clean(#[trigger] runs[i]),
    ensures
        all_clean(layout::problem_runs_rows(runs)),
    decreases runs.len(),
{
    broadcast use lemma_pieces_join;

    if runs.len() > 0 {
        let init = runs.drop_last();
        assert forall|i: int| 0 <= i < init.len() implies run_clean(#[trigger] init[i]) by {
            assert(init[i] == runs[i]);
        }
        lemma_problem_runs_clean(init);
        assert(runs.last() == runs[runs.len() - 1]);
        lemma_failed_run_clean(runs.last());
    }
}

/// The rows of a settled commit are clean.
proof fn lemma_commit_clean(commit: CommitView, now: Seq<char>)
    requires
        commit_clean(commit),
    ensures
        all_clean(layout::commit_rows(commit, layout::finished_ago(commit, now))),
{
    broadcast use {lemma_clean_joins, lemma_pieces_join};

    lemma_fixed_texts_clean();
    let ago = layout::finished_ago(commit, now);
    let then = clock::instant_of(commit.finished_at);
    let at = clock::instant_of(now);
    if then is Some && at is Some {
        lemma_ago_clean(at->0.second - then->0.second);
    }
    let duration = match commit.duration_seconds {
        Some(secs) => Some(clock::duration_text(secs as nat)),
        None => None,
    };
    if commit.duration_seconds is Some {
        lemma_duration_clean(commit.duration_seconds->0 as nat);
    }
    lemma_meta_clean(commit.branch, commit.runs.len(), duration, ago);
    lemma_problem_runs_clean(commit.runs);
    assert(all_clean(layout::commit_line(commit, ago)));
}

/// The rows of active commits are clean.
proof fn lemma_actives_clean(commits: Seq<ActiveCommitView>, now: Seq<char>)
    requires
        forall|i: int| 0 <= i < commits.len() ==> active_clean(#[trigger] commits[i]),
    ensures
        all_clean(layout::actives_rows(commits, now)),
    decreases commits.len(),
{
    broadcast use lemma_pieces_join;

    if commits.len() > 0 {
        let init = commits.drop_last();
        assert forall|i: int| 0 <= i < init.len() implies active_clean(#[trigger] init[i]) by {
            assert(init[i] == commits[i]);
        }
        lemma_actives_clean(init, now);
        assert(commits.last() == commits[commits.len() - 1]);
        lemma_active_clean(commits.last(), now);
    }
}

/// The rows of settled commits are clean.
proof fn lemma_commits_clean(commits: Seq<CommitView>, now: Seq<char>, only_failures: bool)
    requires
        forall|i: int| 0 <= i < commits.len() ==> commit_clean(#[trigger] commits[i]),
    ensures
        all_clean(layout::commits_rows(commits, now, only_failures)),
    decreases commits.len(),
{
    broadcast use lemma_pieces_join;

    if commits.len() > 0 {
        let init = commits.drop_last();
        assert forall|i: int| 0 <= i < init.len() implies commit_clean(#[trigger] init[i]) by {
            assert(init[i] == commits[i]);
        }
        lemma_commits_clean(init, now, only_failures);
        assert(commits.last() == commits[commits.len() - 1]);
        lemma_commit_clean(commits.last(), now);
    }
}

/// The blocks of a report are clean.
proof fn lemma_blocks_clean(repos: Seq<RepoView>, now: Seq<char>, only_failures: bool)
    requires
        forall|i: int| 0 <= i < repos.len() ==> repo_clean(#[trigger] repos[i]),
    ensures
        all_clean(layout::blocks(repos, now, only_failures)),
    decreases repos.len(),
{
    broadcast use lemma_pieces_join;

    if repos.len() > 0 {
        let init = repos.drop_last();
        assert forall|i: int| 0 <= i < init.len() implies repo_clean(#[trigger] init[i]) by {
            assert(init[i] == repos[i]);
        }
        lemma_blocks_clean(init, now, only_failures);
        let repo = repos[repos.len() - 1];
        lemma_fixed_texts_clean();
        lemma_actives_clean(repo.active, now);
        lemma_commits_clean(repo.commits, now, only_failures);
        let block = layout::repo_block(repo, now, only_failures);
        assert(all_clean(block));
        let before = layout::blocks(init, now, only_failures);
        assert(all_clean(before.push(paint::bare_piece("\n"@))));
    }
}

proof fn lemma_report_clean(report: ReportView, only_failures: bool)
    requires
        report_clean(report),
    ensures
        all_clean(layout::human_pieces(report, only_failures)),
{
    lemma_fixed_texts_clean();
    lemma_blocks_clean(report.repos, report.generated_at, only_failures);
}

/// Without color, the human-readable text holds no escape character, where
/// the report holds none.
pub proof fn plain_text_has_no_escapes(report: ReportView, only_failures: bool)
    requires
        report_clean(report),
    ensures
        clean(render::human_text(report, false, only_failures)),
{
    lemma_report_clean(report, only_failures);
    lemma_plain_pieces_clean(layout::human_pieces(report, only_failures));
}

/// With its escape codes taken out, the colored text is the text without
/// color.
pub proof fn color_changes_nothing_else(report: ReportView, only_failures: bool)
    requires
        report_clean(report),
    ensures
        uncolored(render::human_text(report, true, only_failures)) == render::human_text(
            report,
            false,
            only_failures,
        ),
{
    let pieces = layout::human_pieces(report, only_failures);
    lemma_report_clean(report, only_failures);
    lemma_uncolored_pieces(pieces, Seq::empty());
    assert(paint::pieces_text(true, pieces) + Seq::empty() =~= paint::pieces_text(true, pieces));
    assert(paint::pieces_text(false, pieces) + uncolored(Seq::empty()) =~= paint::pieces_text(
        false,
        pieces,
    ));
}

/// The red ones of settled commits, in order.
pub open spec fn red(commits: Seq<CommitView>) -> Seq<CommitView>
    decreases commits.len(),
{
    if commits.len() == 0 {
        Seq::empty()
    } else if commits.last().conclusion.passes() {
        red(commits.drop_last())
    } else {
        red(commits.drop_last()).push(commits.last())
    }
}

/// A report without what is running and without green commits.
pub open spec fn failures_of(report: ReportView) -> ReportView {
    ReportView {
        generated_at: report.generated_at,
        limit: report.limit,
        repos: report.repos.map_values(
            |r: RepoView|
                RepoView {
                    repo: r.repo,
                    active: Seq::empty(),
                    commits: red(r.commits),
                    error: r.error,
                },
        ),
    }
}

proof fn lemma_red_rows(commits: Seq<CommitView>, now: Seq<char>)
    ensures
        layout::commits_rows(commits, now, true) == layout::commits_rows(red(commits), now, false),
    decreases commits.len(),
{
    if commits.len() > 0 {
        lemma_red_rows(commits.drop_last(), now);
        if !commits.last().conclusion.passes() {
            assert(red(commits).drop_last() =~= red(commits.drop_last()));
        }
    }
}

proof fn lemma_failure_blocks(report: ReportView, n: nat)
    requires
        n <= report.repos.len(),
    ensures
        layout::blocks(report.repos.take(n as int), report.generated_at, true) == layout::blocks(
            failures_of(report).repos.take(n as int),
            report.generated_at,
            false,
        ),
    decreases n,
{
    if n > 0 {
        let all = report.repos.take(n as int);
        let some = failures_of(report).repos.take(n as int);
        lemma_failure_blocks(report, (n - 1) as nat);
        assert(all.drop_last() =~= report.repos.take(n - 1));
        assert(some.drop_last() =~= failures_of(report).repos.take(n - 1));
        lemma_red_rows(all.last().commits, report.generated_at);
        assert(layout::actives_rows(some.last().active, report.generated_at) =~= Seq::empty());
    }
}

/// Showing only failures shows what would be shown of the report without what
/// is running and without green commits; errors stay.
pub proof fn only_failures_hides_the_rest(report: ReportView, use_color: bool)
    ensures
        render::human_text(report, use_color, true) == render::human_text(
            failures_of(report),
            use_color,
            false,
        ),
{
    let n = report.repos.len();
    lemma_failure_blocks(report, n);
    assert(report.repos.take(n as int) =~= report.repos);
    assert(failures_of(report).repos.take(n as int) =~= failures_of(report).repos);
}

} // verus!
