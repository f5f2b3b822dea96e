//! Laws of the rows of the human-readable report, as the text that they make.

use vstd::prelude::*;

use crate::clock;
use crate::layout;
use crate::model::{
    ActiveCommitView, ActiveRunView, CommitView, Conclusion, JobView, RepoView, ReportView,
    RunStatus, RunView, StepView,
};
use crate::paint;
use crate::paint::{Paint, PieceView};
use crate::render;
use crate::text;

verus! {

/// What is written for pieces.
pub open spec fn written(color: bool, pieces: Seq<PieceView>) -> Seq<char> {
    paint::pieces_text(color, pieces)
}

/// `text` in a style, where color is in use.
pub open spec fn in_style(color: bool, style: Paint, text: Seq<char>) -> Seq<char> {
    if color {
        "\u{1b}["@ + style.code() + "m"@ + text + "\u{1b}[0m"@
    } else {
        text
    }
}

/// A list with one text where `there` holds, and an empty list otherwise.
pub open spec fn only_if(there: bool, text: Seq<char>) -> Seq<Seq<char>> {
    if there {
        seq![text]
    } else {
        Seq::empty()
    }
}

/// `text`, or `fallback` in place of an empty one.
pub open spec fn else_text(text: Seq<char>, fallback: Seq<char>) -> Seq<char> {
    if text.len() == 0 {
        fallback
    } else {
        text
    }
}

/// Pieces are written one after the other, and each of them as its text in its
/// style.
pub proof fn pieces_are_written_in_order(
    color: bool,
    a: Seq<PieceView>,
    b: Seq<PieceView>,
    piece: PieceView,
)
    ensures
        written(color, a + b) == written(color, a) + written(color, b),
        written(color, seq![piece]) == (match piece.style {
            Some(style) => in_style(color, style, piece.text),
            None => piece.text,
        }),
    decreases b.len(),
{
    let one = seq![piece];
    assert(one.drop_last() =~= Seq::empty());
    assert(written(color, one.drop_last()) =~= Seq::<char>::empty());
    assert(written(color, one) =~= paint::piece_text(color, piece));
    if b.len() == 0 {
        assert(a + b =~= a);
        assert(written(color, a) + written(color, b) =~= written(color, a));
    } else {
        pieces_are_written_in_order(color, a, b.drop_last(), piece);
        assert((a + b).drop_last() =~= a + b.drop_last());
        assert((a + b).last() == b.last());
        assert(written(color, a + b) =~= written(color, a) + written(color, b));
    }
}

/// A few pieces are written one after the other.
proof fn lemma_few(color: bool, s: Seq<PieceView>)
    requires
        s.len() <= 7,
    ensures
        ({
            let t = |i: int| paint::piece_text(color, s[i]);
            &&& s.len() == 1 ==> written(color, s) == t(0)
            &&& s.len() == 2 ==> written(color, s) == t(0) + t(1)
            &&& s.len() == 3 ==> written(color, s) == t(0) + t(1) + t(2)
            &&& s.len() == 4 ==> written(color, s) == t(0) + t(1) + t(2) + t(3)
            &&& s.len() == 5 ==> written(color, s) == t(0) + t(1) + t(2) + t(3) + t(4)
            &&& s.len() == 6 ==> written(color, s) == t(0) + t(1) + t(2) + t(3) + t(4) + t(5)
            &&& s.len() == 7 ==> written(color, s) == t(0) + t(1) + t(2) + t(3) + t(4) + t(5) + t(
                6,
            )
        }),
    decreases s.len(),
{
    if s.len() > 0 {
        let init = s.drop_last();
        lemma_few(color, init);
        assert forall|i: int| 0 <= i < init.len() implies #[trigger] init[i] == s[i] by {}
        assert(init.len() == 0 ==> written(color, init) =~= Seq::<char>::empty());
        assert(s.len() == 1 ==> written(color, s) =~= paint::piece_text(color, s[0]));
    }
}

/// More pieces are written behind the others.
broadcast proof fn lemma_more(color: bool, a: Seq<PieceView>, b: Seq<PieceView>)
    ensures
        #[trigger] paint::pieces_text(color, a + b) == paint::pieces_text(color, a)
            + paint::pieces_text(color, b),
{
    pieces_are_written_in_order(color, a, b, paint::bare_piece(Seq::empty()));
}

/// What is written for no pieces.
proof fn lemma_none(color: bool)
    ensures
        paint::pieces_text(color, Seq::empty()) == Seq::<char>::empty(),
{
}

/// The row of a link, where there is one.
pub open spec fn link_line(color: bool, indent: Seq<char>, url: Seq<char>) -> Seq<char> {
    if url.len() == 0 {
        Seq::empty()
    } else {
        indent + in_style(color, Paint::Dim, url) + "\n"@
    }
}

proof fn lemma_link(color: bool, indent: Seq<char>, url: Seq<char>)
    ensures
        written(color, layout::link_row(indent, url)) == link_line(color, indent, url),
{
    lemma_none(color);
    if url.len() > 0 {
        lemma_few(color, layout::link_row(indent, url));
    }
    assert(written(color, layout::link_row(indent, url)) =~= link_line(color, indent, url));
}

/// The steps of a job are shown one after the other, each with its number and
/// its name.
pub proof fn steps_are_shown_in_order(
    color: bool,
    a: Seq<StepView>,
    b: Seq<StepView>,
    step: StepView,
)
    ensures
        layout::step_rows(a + b) == layout::step_rows(a) + layout::step_rows(b),
        written(color, layout::step_rows(seq![step])) == "              "@ + in_style(
            color,
            Paint::Dim,
            "step "@ + text::decimal(step.number as nat) + ": "@ + step.name,
        ) + "\n"@,
    decreases b.len(),
{
    lemma_none(color);
    let one = seq![step];
    assert(one.drop_last() =~= Seq::empty());
    assert(one.last() == step);
    assert(layout::step_rows(one.drop_last()) =~= Seq::<PieceView>::empty());
    assert(layout::step_rows(one) =~= layout::step_row(step));
    lemma_few(color, layout::step_row(step));
    assert(written(color, layout::step_rows(one)) =~= "              "@ + in_style(
        color,
        Paint::Dim,
        "step "@ + text::decimal(step.number as nat) + ": "@ + step.name,
    ) + "\n"@);
    if b.len() == 0 {
        assert(a + b =~= a);
        assert(layout::step_rows(a) + layout::step_rows(b) =~= layout::step_rows(a));
    } else {
        steps_are_shown_in_order(color, a, b.drop_last(), step);
        assert((a + b).drop_last() =~= a + b.drop_last());
        assert((a + b).last() == b.last());
        assert(layout::step_rows(a + b) =~= layout::step_rows(a) + layout::step_rows(b));
    }
}

/// The line of a job: its glyph and its name.
pub open spec fn job_line(color: bool, job: JobView) -> Seq<char> {
    "          "@ + in_style(color, layout::style_of(job.conclusion), job.conclusion.icon_text())
        + " "@ + job.name + "\n"@
}

/// The jobs of a run are shown one after the other, each with its glyph and its
/// name, and below it its steps and its link.
pub proof fn jobs_are_shown_in_order(color: bool, a: Seq<JobView>, b: Seq<JobView>, job: JobView)
    ensures
        layout::jobs_rows(a + b) == layout::jobs_rows(a) + layout::jobs_rows(b),
        written(color, layout::jobs_rows(seq![job])) == job_line(color, job) + written(
            color,
            layout::step_rows(job.steps),
        ) + link_line(color, "              "@, job.url),
    decreases b.len(),
{
    broadcast use lemma_more;

    lemma_none(color);
    let one = seq![job];
    assert(one.drop_last() =~= Seq::empty());
    assert(one.last() == job);
    assert(layout::jobs_rows(one.drop_last()) =~= Seq::<PieceView>::empty());
    assert(layout::jobs_rows(one) =~= layout::job_rows(job));
    lemma_link(color, "              "@, job.url);
    let head = seq![
        paint::bare_piece("          "@),
        paint::styled_piece(layout::style_of(job.conclusion), job.conclusion.icon_text()),
        paint::bare_piece(" "@ + job.name + "\n"@),
    ];
    lemma_few(color, head);
    assert(written(color, head) =~= job_line(color, job));
    assert(layout::job_rows(job) == head + layout::step_rows(job.steps) + layout::link_row(
        "              "@,
        job.url,
    ));
    if b.len() == 0 {
        assert(a + b =~= a);
        assert(layout::jobs_rows(a) + layout::jobs_rows(b) =~= layout::jobs_rows(a));
    } else {
        jobs_are_shown_in_order(color, a, b.drop_last(), job);
        assert((a + b).drop_last() =~= a + b.drop_last());
        assert((a + b).last() == b.last());
        assert(layout::jobs_rows(a + b) =~= layout::jobs_rows(a) + layout::jobs_rows(b));
    }
}

/// Texts with dots between them.
pub open spec fn with_dots(list: Seq<Seq<char>>) -> Seq<char> {
    text::joined(list, " · "@)
}

/// The line of a problem run: its glyph, its workflow, its number, its duration
/// where it is known, and its conclusion.
pub open spec fn run_line(color: bool, run: RunView) -> Seq<char> {
    "      "@ + in_style(color, layout::style_of(run.conclusion), run.conclusion.icon_text())
        + " "@ + else_text(run.workflow, "(unknown workflow)"@) + " "@ + in_style(
        color,
        Paint::Dim,
        "· "@ + with_dots(
            seq!["#"@ + text::decimal(run.run_number as nat)] + only_if(
                run.duration_seconds is Some,
                clock::duration_text(run.duration_seconds->0 as nat),
            ) + seq![run.conclusion.label_text()],
        ),
    ) + "\n"@
}

/// What is shown of a problem run: its line, its jobs, and its link.
pub open spec fn run_shown(color: bool, run: RunView) -> Seq<char> {
    run_line(color, run) + written(color, layout::jobs_rows(run.jobs)) + link_line(
        color,
        "          "@,
        run.url,
    )
}

proof fn lemma_run(color: bool, run: RunView)
    ensures
        written(color, layout::failed_run_rows(run)) == run_shown(color, run),
{
    broadcast use lemma_more;

    lemma_none(color);
    let number = seq!["#"@ + text::decimal(run.run_number as nat)];
    let duration = match run.duration_seconds {
        Some(secs) => Some(clock::duration_text(secs as nat)),
        None => None,
    };
    assert(layout::with_option(number, duration).push(run.conclusion.label_text()) =~= number
        + only_if(
        run.duration_seconds is Some,
        clock::duration_text(run.duration_seconds->0 as nat),
    ) + seq![run.conclusion.label_text()]);
    lemma_few(color, layout::failed_run_line(run));
    assert(written(color, layout::failed_run_line(run)) =~= run_line(color, run));
    lemma_link(color, "          "@, run.url);
}

/// Whether a run needs attention: it neither passed, nor was it skipped, nor is
/// it neutral.
pub open spec fn is_a_problem(conclusion: Conclusion) -> bool {
    conclusion != Conclusion::Success && conclusion != Conclusion::Skipped && conclusion
        != Conclusion::Neutral
}

/// Runs are shown one after the other: a problem run with its line, its jobs
/// and its link, and any other not at all.
pub proof fn problem_runs_are_shown_in_order(
    color: bool,
    a: Seq<RunView>,
    b: Seq<RunView>,
    run: RunView,
)
    ensures
        layout::problem_runs_rows(a + b) == layout::problem_runs_rows(a)
            + layout::problem_runs_rows(b),
        written(color, layout::problem_runs_rows(seq![run])) == (if is_a_problem(run.conclusion) {
            run_shown(color, run)
        } else {
            Seq::empty()
        }),
    decreases b.len(),
{
    lemma_none(color);
    lemma_run(color, run);
    let one = seq![run];
    assert(one.drop_last() =~= Seq::empty());
    assert(one.last() == run);
    assert(layout::problem_runs_rows(one.drop_last()) =~= Seq::<PieceView>::empty());
    assert(is_a_problem(run.conclusion) ==> layout::problem_runs_rows(one)
        =~= layout::failed_run_rows(run));
    if b.len() == 0 {
        assert(a + b =~= a);
        assert(layout::problem_runs_rows(a) + layout::problem_runs_rows(b)
            =~= layout::problem_runs_rows(a));
    } else {
        problem_runs_are_shown_in_order(color, a, b.drop_last(), run);
        assert((a + b).drop_last() =~= a + b.drop_last());
        assert((a + b).last() == b.last());
        assert(layout::problem_runs_rows(a + b) =~= layout::problem_runs_rows(a)
            + layout::problem_runs_rows(b));
    }
}

/// What stands behind a commit's title: its branch, how many workflows ran
/// where there is more than one, and two more texts where there are any.
pub open spec fn details(
    branch: Seq<char>,
    runs: nat,
    a: Option<Seq<char>>,
    b: Option<Seq<char>>,
) -> Seq<char> {
    with_dots(
        only_if(branch.len() > 0, branch) + only_if(
            runs > 1,
            text::decimal(runs) + " workflows"@,
        ) + only_if(a is Some, a->0) + only_if(b is Some, b->0),
    )
}

proof fn lemma_details(branch: Seq<char>, runs: nat, a: Option<Seq<char>>, b: Option<Seq<char>>)
    ensures
        layout::dotted(
            layout::with_option(layout::with_option(layout::base_meta(branch, runs), a), b),
        ) == details(branch, runs, a, b),
{
    assert(layout::with_option(layout::with_option(layout::base_meta(branch, runs), a), b)
        =~= only_if(branch.len() > 0, branch) + only_if(
        runs > 1,
        text::decimal(runs) + " workflows"@,
    ) + only_if(a is Some, a->0) + only_if(b is Some, b->0));
}

/// The line of a settled commit: its glyph, its SHA, its title and its details;
/// that of a red one ends with its conclusion.
pub open spec fn commit_line(color: bool, commit: CommitView, ago: Option<Seq<char>>) -> Seq<
    char,
> {
    let style = layout::style_of(commit.conclusion);
    let duration = match commit.duration_seconds {
        Some(secs) => Some(clock::duration_text(secs as nat)),
        None => None,
    };
    let meta = "· "@ + details(commit.branch, commit.runs.len(), duration, ago);
    let start = "  "@ + in_style(color, style, commit.conclusion.icon_text()) + (" "@ + (commit.sha
        + " "@ + else_text(commit.title, "(untitled commit)"@)) + " "@);
    if commit.conclusion == Conclusion::Success {
        start + in_style(color, Paint::Dim, meta) + "\n"@
    } else {
        start + in_style(color, Paint::Dim, meta + " ·"@) + " "@ + in_style(
            color,
            style,
            commit.conclusion.label_text(),
        ) + "\n"@
    }
}

proof fn lemma_commit_line(color: bool, commit: CommitView, ago: Option<Seq<char>>)
    ensures
        written(color, layout::commit_line(commit, ago)) == commit_line(color, commit, ago),
{
    let duration = match commit.duration_seconds {
        Some(secs) => Some(clock::duration_text(secs as nat)),
        None => None,
    };
    lemma_details(commit.branch, commit.runs.len(), duration, ago);
    let line = layout::commit_line(commit, ago);
    lemma_few(color, line);
    if commit.conclusion == Conclusion::Success {
        assert(line.len() == 5);
    } else {
        assert(line.len() == 7);
    }
}

/// A green commit is one line.
pub proof fn green_commits_are_one_line(color: bool, commit: CommitView, ago: Option<Seq<char>>)
    requires
        commit.conclusion == Conclusion::Success,
    ensures
        written(color, layout::commit_rows(commit, ago)) == commit_line(color, commit, ago),
{
    lemma_commit_line(color, commit, ago);
}

/// A red commit is its line, and below it what is shown of its runs.
pub proof fn red_commits_expand_below_their_line(
    color: bool,
    commit: CommitView,
    ago: Option<Seq<char>>,
)
    requires
        commit.conclusion != Conclusion::Success,
    ensures
        written(color, layout::commit_rows(commit, ago)) == commit_line(color, commit, ago)
            + written(color, layout::problem_runs_rows(commit.runs)),
{
    broadcast use lemma_more;

    lemma_commit_line(color, commit, ago);
}

/// The runs before one, the run, and those behind it.
proof fn lemma_split_runs(runs: Seq<RunView>, i: int)
    requires
        0 <= i < runs.len(),
    ensures
        layout::problem_runs_rows(runs) == layout::problem_runs_rows(runs.take(i))
            + layout::problem_runs_rows(seq![runs[i]]) + layout::problem_runs_rows(
            runs.skip(i + 1),
        ),
{
    let head = runs.take(i) + seq![runs[i]];
    assert(head + runs.skip(i + 1) =~= runs);
    problem_runs_are_shown_in_order(false, runs.take(i), seq![runs[i]], runs[i]);
    problem_runs_are_shown_in_order(false, head, runs.skip(i + 1), runs[i]);
}

/// Below the line of a red commit, each of its runs that needs attention is
/// shown, with its line, its jobs and its link.
pub proof fn red_commits_show_each_problem_run(
    color: bool,
    commit: CommitView,
    ago: Option<Seq<char>>,
    i: int,
)
    requires
        commit.conclusion != Conclusion::Success,
        0 <= i < commit.runs.len(),
        is_a_problem(commit.runs[i].conclusion),
    ensures
        exists|a: Seq<char>, b: Seq<char>|
            written(color, layout::commit_rows(commit, ago)) == commit_line(color, commit, ago)
                + #[trigger] (a + run_line(color, commit.runs[i]) + written(
                color,
                layout::jobs_rows(commit.runs[i].jobs),
            ) + link_line(color, "          "@, commit.runs[i].url) + b),
{
    broadcast use lemma_more;

    let run = commit.runs[i];
    red_commits_expand_below_their_line(color, commit, ago);
    lemma_split_runs(commit.runs, i);
    problem_runs_are_shown_in_order(color, Seq::empty(), Seq::empty(), run);
    let a = written(color, layout::problem_runs_rows(commit.runs.take(i)));
    let b = written(color, layout::problem_runs_rows(commit.runs.skip(i + 1)));
    let jobs = written(color, layout::jobs_rows(run.jobs));
    let link = link_line(color, "          "@, run.url);
    assert(a + run_shown(color, run) + b =~= a + run_line(color, run) + jobs + link + b);
    assert(written(color, layout::commit_rows(commit, ago)) == commit_line(color, commit, ago) + (a
        + run_line(color, run) + jobs + link + b));
}

/// Of two runs that need attention, the first one is shown first.
pub proof fn problem_runs_stand_in_the_order_of_the_runs(
    color: bool,
    commit: CommitView,
    ago: Option<Seq<char>>,
    i: int,
    j: int,
)
    requires
        commit.conclusion != Conclusion::Success,
        0 <= i < j < commit.runs.len(),
        is_a_problem(commit.runs[i].conclusion),
        is_a_problem(commit.runs[j].conclusion),
    ensures
        exists|a: Seq<char>, b: Seq<char>, c: Seq<char>|
            written(color, layout::commit_rows(commit, ago)) == commit_line(color, commit, ago)
                + #[trigger] (a + run_shown(color, commit.runs[i]) + b + run_shown(
                color,
                commit.runs[j],
            ) + c),
{
    broadcast use lemma_more;

    let runs = commit.runs;
    red_commits_expand_below_their_line(color, commit, ago);
    lemma_split_runs(runs, j);
    lemma_split_runs(runs.take(j), i);
    problem_runs_are_shown_in_order(color, Seq::empty(), Seq::empty(), runs[i]);
    problem_runs_are_shown_in_order(color, Seq::empty(), Seq::empty(), runs[j]);
    let a = written(color, layout::problem_runs_rows(runs.take(j).take(i)));
    let b = written(color, layout::problem_runs_rows(runs.take(j).skip(i + 1)));
    let c = written(color, layout::problem_runs_rows(runs.skip(j + 1)));
    assert(runs.take(j)[i] == runs[i]);
    assert(written(color, layout::problem_runs_rows(runs)) =~= a + run_shown(color, runs[i]) + b
        + run_shown(color, runs[j]) + c);
}

/// The line of a running run: its glyph, its workflow, its number, how long it
/// has run where that is known, and its status.
pub open spec fn active_run_line(color: bool, run: ActiveRunView, now: Seq<char>) -> Seq<char> {
    let elapsed = match run.started_at {
        Some(at) => clock::elapsed_between(clock::instant_of(at), clock::instant_of(now)),
        None => None,
    };
    "      "@ + in_style(color, Paint::Cyan, "↻"@) + " "@ + else_text(
        run.workflow,
        "(unknown workflow)"@,
    ) + " "@ + in_style(
        color,
        Paint::Dim,
        "· "@ + with_dots(
            seq!["#"@ + text::decimal(run.run_number as nat)] + only_if(
                elapsed is Some,
                elapsed->0,
            ) + seq!["in_progress"@],
        ),
    ) + "\n"@
}

/// Running runs are shown one after the other, each with its line and its link.
pub proof fn running_runs_are_shown_in_order(
    color: bool,
    a: Seq<ActiveRunView>,
    b: Seq<ActiveRunView>,
    run: ActiveRunView,
    now: Seq<char>,
)
    ensures
        layout::active_runs_rows(a + b, now) == layout::active_runs_rows(a, now)
            + layout::active_runs_rows(b, now),
        written(color, layout::active_runs_rows(seq![run], now)) == active_run_line(
            color,
            run,
            now,
        ) + link_line(color, "          "@, run.url),
    decreases b.len(),
{
    broadcast use lemma_more;

    lemma_none(color);
    let one = seq![run];
    assert(one.drop_last() =~= Seq::empty());
    assert(one.last() == run);
    assert(layout::active_runs_rows(one.drop_last(), now) =~= Seq::<PieceView>::empty());
    let elapsed = layout::run_elapsed(run, now);
    assert(layout::active_runs_rows(one, now) =~= layout::active_run_rows(run, elapsed));
    let number = seq!["#"@ + text::decimal(run.run_number as nat)];
    assert(layout::with_option(number, elapsed).push("in_progress"@) =~= number + only_if(
        elapsed is Some,
        elapsed->0,
    ) + seq!["in_progress"@]);
    lemma_link(color, "          "@, run.url);
    let line = layout::active_run_rows(run, elapsed).take(5);
    let link = layout::link_row("          "@, run.url);
    lemma_few(color, line);
    assert(layout::active_run_rows(run, elapsed) =~= line + link);
    assert(written(color, line) =~= active_run_line(color, run, now));
    assert(written(color, layout::active_run_rows(run, elapsed)) =~= active_run_line(
        color,
        run,
        now,
    ) + link_line(color, "          "@, run.url));
    if b.len() == 0 {
        assert(a + b =~= a);
        assert(layout::active_runs_rows(a, now) + layout::active_runs_rows(b, now)
            =~= layout::active_runs_rows(a, now));
    } else {
        running_runs_are_shown_in_order(color, a, b.drop_last(), run, now);
        assert((a + b).drop_last() =~= a + b.drop_last());
        assert((a + b).last() == b.last());
        assert(layout::active_runs_rows(a + b, now) =~= layout::active_runs_rows(a, now)
            + layout::active_runs_rows(b, now));
    }
}

/// The line of an active commit: its SHA, its title, its branch, and how long
/// it has run where that is known.
pub open spec fn active_line(color: bool, commit: ActiveCommitView, now: Seq<char>) -> Seq<char> {
    let elapsed = clock::elapsed_between(
        clock::instant_of(commit.started_at),
        clock::instant_of(now),
    );
    let meta = details(commit.branch, commit.runs.len(), elapsed, None);
    "  "@ + in_style(color, Paint::Cyan, "↻"@) + " "@ + commit.sha + " "@ + else_text(
        commit.title,
        "(untitled commit)"@,
    ) + " "@ + in_style(
        color,
        Paint::Dim,
        if meta.len() == 0 {
            "·"@
        } else {
            "· "@ + meta + " ·"@
        },
    ) + " "@ + in_style(color, Paint::Cyan, "running"@) + "\n"@
}

/// An active commit is its line, and below it its runs.
pub proof fn active_commits_are_always_expanded(
    color: bool,
    commit: ActiveCommitView,
    now: Seq<char>,
)
    ensures
        written(color, layout::active_rows(commit, now)) == active_line(color, commit, now)
            + written(color, layout::active_runs_rows(commit.runs, now)),
{
    broadcast use lemma_more;

    lemma_none(color);
    let elapsed = clock::elapsed_between(
        clock::instant_of(commit.started_at),
        clock::instant_of(now),
    );
    lemma_details(commit.branch, commit.runs.len(), elapsed, None);
    lemma_few(color, layout::active_line(commit, elapsed));
    assert(written(color, layout::active_line(commit, elapsed)) =~= active_line(
        color,
        commit,
        now,
    ));
}

/// Active commits are shown one after the other.
pub proof fn active_commits_are_shown_in_order(
    a: Seq<ActiveCommitView>,
    b: Seq<ActiveCommitView>,
    commit: ActiveCommitView,
    now: Seq<char>,
)
    ensures
        layout::actives_rows(a + b, now) == layout::actives_rows(a, now) + layout::actives_rows(
            b,
            now,
        ),
        layout::actives_rows(seq![commit], now) == layout::active_rows(commit, now),
    decreases b.len(),
{
    let one = seq![commit];
    assert(one.drop_last() =~= Seq::empty());
    assert(one.last() == commit);
    assert(layout::actives_rows(one.drop_last(), now) =~= Seq::<PieceView>::empty());
    assert(layout::actives_rows(one, now) =~= layout::active_rows(commit, now));
    if b.len() == 0 {
        assert(a + b =~= a);
        assert(layout::actives_rows(a, now) + layout::actives_rows(b, now)
            =~= layout::actives_rows(a, now));
    } else {
        active_commits_are_shown_in_order(a, b.drop_last(), commit, now);
        assert((a + b).drop_last() =~= a + b.drop_last());
        assert((a + b).last() == b.last());
        assert(layout::actives_rows(a + b, now) =~= layout::actives_rows(a, now)
            + layout::actives_rows(b, now));
    }
}

/// Settled commits are shown one after the other, each with how long ago it
/// finished; with `only_failures` a green one is not shown at all.
pub proof fn settled_commits_are_shown_in_order(
    a: Seq<CommitView>,
    b: Seq<CommitView>,
    commit: CommitView,
    now: Seq<char>,
    only_failures: bool,
)
    ensures
        layout::commits_rows(a + b, now, only_failures) == layout::commits_rows(
            a,
            now,
            only_failures,
        ) + layout::commits_rows(b, now, only_failures),
        layout::commits_rows(seq![commit], now, only_failures) == (if only_failures
            && commit.conclusion == Conclusion::Success {
            Seq::empty()
        } else {
            layout::commit_rows(
                commit,
                clock::ago_between(clock::instant_of(commit.finished_at), clock::instant_of(now)),
            )
        }),
    decreases b.len(),
{
    let one = seq![commit];
    assert(one.drop_last() =~= Seq::empty());
    assert(one.last() == commit);
    assert(layout::commits_rows(one.drop_last(), now, only_failures) =~= Seq::<
        PieceView,
    >::empty());
    let rows = layout::commit_rows(commit, layout::finished_ago(commit, now));
    assert(Seq::<PieceView>::empty() + rows =~= rows);
    if b.len() == 0 {
        assert(a + b =~= a);
        assert(layout::commits_rows(a, now, only_failures) + layout::commits_rows(
            b,
            now,
            only_failures,
        ) =~= layout::commits_rows(a, now, only_failures));
    } else {
        settled_commits_are_shown_in_order(a, b.drop_last(), commit, now, only_failures);
        assert((a + b).drop_last() =~= a + b.drop_last());
        assert((a + b).last() == b.last());
        assert(layout::commits_rows(a + b, now, only_failures) =~= layout::commits_rows(
            a,
            now,
            only_failures,
        ) + layout::commits_rows(b, now, only_failures));
    }
}

/// A repository whose collection failed is one row with its name and its error,
/// whatever else is to be shown.
pub proof fn failed_repositories_are_one_row(
    color: bool,
    repo: RepoView,
    now: Seq<char>,
    only_failures: bool,
)
    requires
        repo.error is Some,
    ensures
        written(color, layout::repo_block(repo, now, only_failures)) == in_style(
            color,
            Paint::Red,
            "✘"@,
        ) + " "@ + in_style(color, Paint::Bold, repo.repo) + "  "@ + in_style(
            color,
            Paint::Red,
            repo.error->0,
        ) + "\n"@,
{
    lemma_none(color);
    lemma_few(color, layout::repo_block(repo, now, only_failures));
    assert(written(color, layout::repo_block(repo, now, only_failures)) =~= in_style(
        color,
        Paint::Red,
        "✘"@,
    ) + " "@ + in_style(color, Paint::Bold, repo.repo) + "  "@ + in_style(
        color,
        Paint::Red,
        repo.error->0,
    ) + "\n"@);
}

/// Any other repository is its name, above what is running and then what has
/// settled; what is running is hidden where only failures are to be shown. One
/// with nothing to show is not shown.
pub proof fn repositories_show_what_runs_above_what_has_settled(
    color: bool,
    repo: RepoView,
    now: Seq<char>,
    only_failures: bool,
)
    requires
        repo.error is None,
    ensures
        ({
            let running = if only_failures {
                Seq::empty()
            } else {
                layout::actives_rows(repo.active, now)
            };
            let settled = layout::commits_rows(repo.commits, now, only_failures);
            if running.len() == 0 && settled.len() == 0 {
                layout::repo_block(repo, now, only_failures).len() == 0
            } else {
                written(color, layout::repo_block(repo, now, only_failures)) == in_style(
                    color,
                    Paint::Bold,
                    repo.repo,
                ) + "\n"@ + written(color, running) + written(color, settled)
            }
        }),
{
    broadcast use lemma_more;

    lemma_none(color);
    let running = if only_failures {
        Seq::empty()
    } else {
        layout::actives_rows(repo.active, now)
    };
    let settled = layout::commits_rows(repo.commits, now, only_failures);
    if running.len() != 0 || settled.len() != 0 {
        let head = seq![paint::styled_piece(Paint::Bold, repo.repo), paint::bare_piece("\n"@)];
        lemma_few(color, head);
        assert(written(color, head) =~= in_style(color, Paint::Bold, repo.repo) + "\n"@);
        assert(layout::repo_block(repo, now, only_failures) == head + (running + settled));
        assert(written(color, layout::repo_block(repo, now, only_failures)) =~= in_style(
            color,
            Paint::Bold,
            repo.repo,
        ) + "\n"@ + written(color, running) + written(color, settled));
    }
}

/// The blocks of two lists of repositories are those of the one and those of
/// the other, with a blank line between them where both have any.
pub proof fn blocks_are_parted_by_a_blank_line(
    a: Seq<RepoView>,
    b: Seq<RepoView>,
    repo: RepoView,
    now: Seq<char>,
    only_failures: bool,
)
    ensures
        ({
            let x = layout::blocks(a, now, only_failures);
            let y = layout::blocks(b, now, only_failures);
            layout::blocks(a + b, now, only_failures) == (if x.len() == 0 {
                y
            } else if y.len() == 0 {
                x
            } else {
                x + seq![PieceView { style: None, text: "\n"@ }] + y
            })
        }),
        layout::blocks(seq![repo], now, only_failures) == layout::repo_block(
            repo,
            now,
            only_failures,
        ),
    decreases b.len(),
{
    let one = seq![repo];
    assert(one.drop_last() =~= Seq::empty());
    assert(one.last() == repo);
    assert(layout::blocks(one.drop_last(), now, only_failures) =~= Seq::<PieceView>::empty());
    assert(layout::blocks(one, now, only_failures) =~= layout::repo_block(
        repo,
        now,
        only_failures,
    ));
    let x = layout::blocks(a, now, only_failures);
    let y = layout::blocks(b, now, only_failures);
    if b.len() == 0 {
        assert(a + b =~= a);
        assert(x.len() == 0 ==> x =~= y);
    } else {
        blocks_are_parted_by_a_blank_line(a, b.drop_last(), repo, now, only_failures);
        assert((a + b).drop_last() =~= a + b.drop_last());
        assert((a + b).last() == b.last());
        let all = layout::blocks(a + b, now, only_failures);
        let init = layout::blocks(b.drop_last(), now, only_failures);
        assert(x.len() == 0 ==> all =~= y);
        assert(x.len() != 0 && y.len() == 0 ==> all =~= x);
        assert(x.len() != 0 && y.len() != 0 ==> all =~= x + seq![
            PieceView { style: None, text: "\n"@ },
        ] + y);
    }
}

/// A report with nothing to show says so.
pub proof fn empty_reports_say_so(color: bool, report: ReportView, only_failures: bool)
    ensures
        layout::blocks(report.repos, report.generated_at, only_failures).len() == 0
            ==> render::human_text(report, color, only_failures) == in_style(
            color,
            Paint::Dim,
            "no commits to report"@,
        ) + "\n"@,
        layout::blocks(report.repos, report.generated_at, only_failures).len() > 0
            ==> render::human_text(report, color, only_failures) == written(
            color,
            layout::blocks(report.repos, report.generated_at, only_failures),
        ),
{
    lemma_none(color);
    if layout::blocks(report.repos, report.generated_at, only_failures).len() == 0 {
        lemma_few(color, layout::human_pieces(report, only_failures));
        assert(render::human_text(report, color, only_failures) =~= in_style(
            color,
            Paint::Dim,
            "no commits to report"@,
        ) + "\n"@);
    }
}

/// Whether pieces stand together among others.
spec fn among(part: Seq<PieceView>, all: Seq<PieceView>) -> bool {
    exists|a: Seq<PieceView>, b: Seq<PieceView>| all == #[trigger] (a + part + b)
}

proof fn lemma_among(a: Seq<PieceView>, part: Seq<PieceView>, b: Seq<PieceView>)
    ensures
        among(part, a + part + b),
{
}

proof fn lemma_among_within(part: Seq<PieceView>, some: Seq<PieceView>, all: Seq<PieceView>)
    requires
        among(part, some),
        among(some, all),
    ensures
        among(part, all),
{
    let (a, b) = choose|a: Seq<PieceView>, b: Seq<PieceView>| some == #[trigger] (a + part + b);
    let (c, d) = choose|c: Seq<PieceView>, d: Seq<PieceView>| all == #[trigger] (c + some + d);
    assert(all =~= (c + a) + part + (b + d));
}

proof fn lemma_among_written(color: bool, part: Seq<PieceView>, all: Seq<PieceView>)
    requires
        among(part, all),
    ensures
        text::holds(written(color, all), written(color, part)),
{
    broadcast use lemma_more;

    let (a, b) = choose|a: Seq<PieceView>, b: Seq<PieceView>| all == #[trigger] (a + part + b);
    let x = written(color, a);
    let p = written(color, part);
    let whole = written(color, all);
    assert(whole == x + p + written(color, b));
    assert(whole.subrange(x.len() as int, (x.len() + p.len()) as int) =~= p);
    assert(text::stands_at(whole, p, x.len() as int));
}

proof fn lemma_commit_among(commits: Seq<CommitView>, k: int, now: Seq<char>, only_failures: bool)
    requires
        0 <= k < commits.len(),
        only_failures ==> commits[k].conclusion != Conclusion::Success,
    ensures
        among(
            layout::commit_rows(
                commits[k],
                clock::ago_between(
                    clock::instant_of(commits[k].finished_at),
                    clock::instant_of(now),
                ),
            ),
            layout::commits_rows(commits, now, only_failures),
        ),
{
    let one = seq![commits[k]];
    let head = commits.take(k) + one;
    let tail = commits.skip(k + 1);
    assert(head + tail =~= commits);
    settled_commits_are_shown_in_order(commits.take(k), one, commits[k], now, only_failures);
    settled_commits_are_shown_in_order(head, tail, commits[k], now, only_failures);
    lemma_among(
        layout::commits_rows(commits.take(k), now, only_failures),
        layout::commits_rows(one, now, only_failures),
        layout::commits_rows(tail, now, only_failures),
    );
}

proof fn lemma_block_among(report: ReportView, r: int, only_failures: bool)
    requires
        0 <= r < report.repos.len(),
        layout::repo_block(report.repos[r], report.generated_at, only_failures).len() > 0,
    ensures
        among(
            layout::repo_block(report.repos[r], report.generated_at, only_failures),
            layout::human_pieces(report, only_failures),
        ),
{
    let now = report.generated_at;
    let repos = report.repos;
    let one = seq![repos[r]];
    let head = repos.take(r) + one;
    let tail = repos.skip(r + 1);
    assert(head + tail =~= repos);
    blocks_are_parted_by_a_blank_line(repos.take(r), one, repos[r], now, only_failures);
    blocks_are_parted_by_a_blank_line(head, tail, repos[r], now, only_failures);
    let none = Seq::<PieceView>::empty();
    let gap = seq![PieceView { style: None, text: "\n"@ }];
    let block = layout::blocks(one, now, only_failures);
    let x = layout::blocks(repos.take(r), now, only_failures);
    let y = layout::blocks(tail, now, only_failures);
    let a = if x.len() == 0 {
        none
    } else {
        x + gap
    };
    let b = if y.len() == 0 {
        none
    } else {
        gap + y
    };
    assert(layout::blocks(head, now, only_failures) =~= a + block);
    assert(layout::blocks(repos, now, only_failures) =~= a + block + b);
    lemma_among(a, block, b);
}

proof fn lemma_settled_in_block(repo: RepoView, k: int, now: Seq<char>, only_failures: bool)
    requires
        repo.error is None,
        0 <= k < repo.commits.len(),
        only_failures ==> repo.commits[k].conclusion != Conclusion::Success,
    ensures
        layout::repo_block(repo, now, only_failures).len() > 0,
        among(
            layout::commit_rows(
                repo.commits[k],
                clock::ago_between(
                    clock::instant_of(repo.commits[k].finished_at),
                    clock::instant_of(now),
                ),
            ),
            layout::repo_block(repo, now, only_failures),
        ),
{
    let settled = layout::commits_rows(repo.commits, now, only_failures);
    let rows = layout::commit_rows(
        repo.commits[k],
        clock::ago_between(clock::instant_of(repo.commits[k].finished_at), clock::instant_of(now)),
    );
    lemma_commit_among(repo.commits, k, now, only_failures);
    assert(rows.len() > 0);
    let (a, b) = choose|a: Seq<PieceView>, b: Seq<PieceView>| settled == #[trigger] (a + rows + b);
    assert(settled.len() > 0);
    let running = if only_failures {
        Seq::empty()
    } else {
        layout::actives_rows(repo.active, now)
    };
    let head = seq![paint::styled_piece(Paint::Bold, repo.repo), paint::bare_piece("\n"@)];
    assert(layout::repo_block(repo, now, only_failures) == head + (running + settled));
    assert(layout::repo_block(repo, now, only_failures) =~= (head + running) + settled + Seq::<
        PieceView,
    >::empty());
    lemma_among(head + running, settled, Seq::empty());
    lemma_among_within(rows, settled, layout::repo_block(repo, now, only_failures));
}

/// Every settled commit of a repository that could be collected is in the
/// report, with how long ago it finished; where only failures are to be shown,
/// every red one.
pub proof fn every_settled_commit_is_shown(
    color: bool,
    report: ReportView,
    only_failures: bool,
    r: int,
    k: int,
)
    requires
        0 <= r < report.repos.len(),
        report.repos[r].error is None,
        0 <= k < report.repos[r].commits.len(),
        only_failures ==> report.repos[r].commits[k].conclusion != Conclusion::Success,
    ensures
        text::holds(
            render::human_text(report, color, only_failures),
            commit_line(
                color,
                report.repos[r].commits[k],
                clock::ago_between(
                    clock::instant_of(report.repos[r].commits[k].finished_at),
                    clock::instant_of(report.generated_at),
                ),
            ),
        ),
{
    let now = report.generated_at;
    let repo = report.repos[r];
    let commit = repo.commits[k];
    let ago = clock::ago_between(
        clock::instant_of(commit.finished_at),
        clock::instant_of(now),
    );
    let line = layout::commit_line(commit, ago);
    let rows = layout::commit_rows(commit, ago);
    let below = if commit.conclusion == Conclusion::Success {
        Seq::empty()
    } else {
        layout::problem_runs_rows(commit.runs)
    };
    let all = layout::human_pieces(report, only_failures);
    lemma_commit_line(color, commit, ago);
    lemma_among(Seq::empty(), line, below);
    assert(rows =~= Seq::<PieceView>::empty() + line + below);
    lemma_settled_in_block(repo, k, now, only_failures);
    lemma_block_among(report, r, only_failures);
    lemma_among_within(rows, layout::repo_block(repo, now, only_failures), all);
    lemma_among_within(line, rows, all);
    lemma_among_written(color, line, all);
}

/// Every run that needs attention, of a red commit of a repository that could be
/// collected, is in the report: its line, its jobs and its link.
pub proof fn every_problem_run_is_shown(
    color: bool,
    report: ReportView,
    only_failures: bool,
    r: int,
    k: int,
    i: int,
)
    requires
        0 <= r < report.repos.len(),
        report.repos[r].error is None,
        0 <= k < report.repos[r].commits.len(),
        report.repos[r].commits[k].conclusion != Conclusion::Success,
        0 <= i < report.repos[r].commits[k].runs.len(),
        is_a_problem(report.repos[r].commits[k].runs[i].conclusion),
    ensures
        text::holds(
            render::human_text(report, color, only_failures),
            run_shown(color, report.repos[r].commits[k].runs[i]),
        ),
{
    let now = report.generated_at;
    let repo = report.repos[r];
    let commit = repo.commits[k];
    let run = commit.runs[i];
    let ago = clock::ago_between(
        clock::instant_of(commit.finished_at),
        clock::instant_of(now),
    );
    let rows = layout::commit_rows(commit, ago);
    let all = layout::human_pieces(report, only_failures);
    let shown = layout::problem_runs_rows(seq![run]);
    lemma_split_runs(commit.runs, i);
    let a = layout::commit_line(commit, ago) + layout::problem_runs_rows(commit.runs.take(i));
    let b = layout::problem_runs_rows(commit.runs.skip(i + 1));
    assert(rows =~= a + shown + b);
    lemma_among(a, shown, b);
    lemma_settled_in_block(repo, k, now, only_failures);
    lemma_block_among(report, r, only_failures);
    lemma_among_within(rows, layout::repo_block(repo, now, only_failures), all);
    lemma_among_within(shown, rows, all);
    lemma_among_written(color, shown, all);
    problem_runs_are_shown_in_order(color, Seq::empty(), Seq::empty(), run);
}

/// Every active commit of a repository that could be collected is in the report,
/// with its runs, unless only failures are to be shown.
pub proof fn every_active_commit_is_shown(color: bool, report: ReportView, r: int, k: int)
    requires
        0 <= r < report.repos.len(),
        report.repos[r].error is None,
        0 <= k < report.repos[r].active.len(),
    ensures
        text::holds(
            render::human_text(report, color, false),
            active_line(color, report.repos[r].active[k], report.generated_at) + written(
                color,
                layout::active_runs_rows(report.repos[r].active[k].runs, report.generated_at),
            ),
        ),
{
    let now = report.generated_at;
    let repo = report.repos[r];
    let commit = repo.active[k];
    let one = seq![commit];
    let before = repo.active.take(k) + one;
    let tail = repo.active.skip(k + 1);
    assert(before + tail =~= repo.active);
    active_commits_are_shown_in_order(repo.active.take(k), one, commit, now);
    active_commits_are_shown_in_order(before, tail, commit, now);
    let rows = layout::active_rows(commit, now);
    let running = layout::actives_rows(repo.active, now);
    let settled = layout::commits_rows(repo.commits, now, false);
    let head = seq![paint::styled_piece(Paint::Bold, repo.repo), paint::bare_piece("\n"@)];
    let block = layout::repo_block(repo, now, false);
    assert(rows.len() > 0);
    assert(block == head + (running + settled));
    let a = head + layout::actives_rows(repo.active.take(k), now);
    let b = layout::actives_rows(tail, now) + settled;
    assert(block =~= a + rows + b);
    lemma_among(a, rows, b);
    lemma_block_among(report, r, false);
    lemma_among_within(rows, block, layout::human_pieces(report, false));
    lemma_among_written(color, rows, layout::human_pieces(report, false));
    active_commits_are_always_expanded(color, commit, now);
}

/// Every repository whose collection failed is in the report, with its error.
pub proof fn every_error_is_shown(color: bool, report: ReportView, only_failures: bool, r: int)
    requires
        0 <= r < report.repos.len(),
        report.repos[r].error is Some,
    ensures
        text::holds(
            render::human_text(report, color, only_failures),
            in_style(color, Paint::Red, "✘"@) + " "@ + in_style(
                color,
                Paint::Bold,
                report.repos[r].repo,
            ) + "  "@ + in_style(color, Paint::Red, report.repos[r].error->0) + "\n"@,
        ),
{
    let now = report.generated_at;
    failed_repositories_are_one_row(color, report.repos[r], now, only_failures);
    lemma_block_among(report, r, only_failures);
    lemma_among_written(
        color,
        layout::repo_block(report.repos[r], now, only_failures),
        layout::human_pieces(report, only_failures),
    );
}

/// The colors: green for success, red for what failed, yellow for what stopped
/// short, and dim for what did nothing.
pub proof fn conclusions_have_their_colors()
    ensures
        layout::style_of(Conclusion::Success) == Paint::Green,
        layout::style_of(Conclusion::Failure) == Paint::Red,
        layout::style_of(Conclusion::StartupFailure) == Paint::Red,
        layout::style_of(Conclusion::TimedOut) == Paint::Red,
        layout::style_of(Conclusion::Cancelled) == Paint::Yellow,
        layout::style_of(Conclusion::Stale) == Paint::Yellow,
        layout::style_of(Conclusion::ActionRequired) == Paint::Yellow,
        layout::style_of(Conclusion::Skipped) == Paint::Dim,
        layout::style_of(Conclusion::Neutral) == Paint::Dim,
{
}

/// The glyphs and labels by which conclusions are told.
pub proof fn conclusions_have_their_glyphs_and_labels(conclusion: Conclusion, status: RunStatus)
    ensures
        conclusion == Conclusion::Success <==> conclusion.icon_text() == "✔"@,
        conclusion == Conclusion::TimedOut <==> conclusion.icon_text() == "⏱"@,
        conclusion == Conclusion::ActionRequired <==> conclusion.icon_text() == "⚑"@,
        conclusion == Conclusion::Failure || conclusion == Conclusion::StartupFailure
            <==> conclusion.icon_text() == "✘"@,
        conclusion == Conclusion::Cancelled || conclusion == Conclusion::Stale
            <==> conclusion.icon_text() == "⊘"@,
        conclusion == Conclusion::Skipped || conclusion == Conclusion::Neutral
            <==> conclusion.icon_text() == "•"@,
        Conclusion::Success.label_text() == "success"@,
        Conclusion::Failure.label_text() == "failure"@,
        Conclusion::Cancelled.label_text() == "cancelled"@,
        Conclusion::TimedOut.label_text() == "timed_out"@,
        Conclusion::ActionRequired.label_text() == "action_required"@,
        Conclusion::StartupFailure.label_text() == "startup_failure"@,
        Conclusion::Skipped.label_text() == "skipped"@,
        Conclusion::Neutral.label_text() == "neutral"@,
        Conclusion::Stale.label_text() == "stale"@,
        status.icon_text() == "↻"@,
        status.label_text() == "in_progress"@,
{
    reveal_strlit("✔");
    reveal_strlit("⏱");
    reveal_strlit("⚑");
    reveal_strlit("✘");
    reveal_strlit("⊘");
    reveal_strlit("•");
    assert("✔"@[0] == '✔' && "⏱"@[0] == '⏱' && "⚑"@[0] == '⚑');
    assert("✘"@[0] == '✘' && "⊘"@[0] == '⊘' && "•"@[0] == '•');
}

} // verus!
