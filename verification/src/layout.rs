//! The layout of the human-readable report, as pieces of styled text.
//!
//! What stands where does not depend on whether color is in use.

use vstd::prelude::*;
use vstd::string::*;

use crate::clock;
use crate::model::{
    ActiveCommitReport, ActiveCommitView, ActiveRunReport, ActiveRunView, CommitReport, CommitView,
    Conclusion, JobReport, JobView, RepoReport, RepoView, Report, ReportView, RunReport, RunStatus,
    RunView, StepReport, StepView,
};
use crate::paint;
use crate::paint::{Paint, Piece, PieceView};
use crate::text;

verus! {

/// The style of a conclusion's glyph and label.
pub open spec fn style_of(conclusion: Conclusion) -> Paint {
    match conclusion {
        Conclusion::Success => Paint::Green,
        Conclusion::Failure | Conclusion::StartupFailure | Conclusion::TimedOut => Paint::Red,
        Conclusion::Cancelled | Conclusion::Stale | Conclusion::ActionRequired => Paint::Yellow,
        Conclusion::Skipped | Conclusion::Neutral => Paint::Dim,
    }
}

/// The style of a conclusion's glyph and label.
pub fn conclusion_style(conclusion: Conclusion) -> (r: Paint)
    ensures
        r == style_of(conclusion),
{
    match conclusion {
        Conclusion::Success => Paint::Green,
        Conclusion::Failure | Conclusion::StartupFailure | Conclusion::TimedOut => Paint::Red,
        Conclusion::Cancelled | Conclusion::Stale | Conclusion::ActionRequired => Paint::Yellow,
        Conclusion::Skipped | Conclusion::Neutral => Paint::Dim,
    }
}

/// The style of a running workflow's glyph and label.
pub fn status_style(status: RunStatus) -> (r: Paint)
    ensures
        r == Paint::Cyan,
{
    match status {
        RunStatus::InProgress => Paint::Cyan,
    }
}

/// Append pieces.
fn extend(out: &mut Vec<Piece>, more: Vec<Piece>)
    ensures
        paint::piece_views(final(out)@) == paint::piece_views(old(out)@) + paint::piece_views(more@),
{
    let ghost before = out@;
    let mut more = more;
    let ghost added = more@;
    out.append(&mut more);
    assert(paint::piece_views(out@) =~= paint::piece_views(before) + paint::piece_views(added));
}

/// `s`, or `fallback` in place of an empty text.
pub open spec fn or_fallback(s: Seq<char>, fallback: Seq<char>) -> Seq<char> {
    if s.len() == 0 {
        fallback
    } else {
        s
    }
}

/// `s`, or `fallback` in place of an empty text.
fn text_or(s: &str, fallback: &str) -> (r: String)
    ensures
        r@ == or_fallback(s@, fallback@),
{
    if s.is_empty() {
        fallback.to_owned()
    } else {
        s.to_owned()
    }
}

/// A list with one more text, where there is one.
pub open spec fn with_option(list: Seq<Seq<char>>, item: Option<Seq<char>>) -> Seq<Seq<char>> {
    match item {
        Some(s) => list.push(s),
        None => list,
    }
}

/// Append a text.
fn push_text(list: &mut Vec<String>, s: String)
    ensures
        text::views(final(list)@) == text::views(old(list)@).push(s@),
{
    let ghost before = list@;
    list.push(s);
    assert(text::views(list@) =~= text::views(before).push(s@));
}

/// Append a text, where there is one.
fn push_option(list: &mut Vec<String>, item: &Option<String>)
    ensures
        text::views(final(list)@) == with_option(
            text::views(old(list)@),
            text::option_view(*item),
        ),
{
    match item {
        Some(s) => push_text(list, s.clone()),
        None => {},
    }
}

/// Texts with dots between them.
pub open spec fn dotted(list: Seq<Seq<char>>) -> Seq<char> {
    text::joined(list, " · "@)
}

/// A commit's SHA and title.
pub open spec fn summary(sha: Seq<char>, title: Seq<char>) -> Seq<char> {
    sha + " "@ + or_fallback(title, "(untitled commit)"@)
}

/// A commit's SHA and title.
fn summary_text(sha: &String, title: &String) -> (r: String)
    ensures
        r@ == summary(sha@, title@),
{
    sha.clone().concat(" ").concat(text_or(title.as_str(), "(untitled commit)").as_str())
}

/// What a commit's line says first: its branch, and how many workflows ran
/// where there is more than one.
pub open spec fn base_meta(branch: Seq<char>, runs: nat) -> Seq<Seq<char>> {
    let named = if branch.len() == 0 {
        Seq::empty()
    } else {
        seq![branch]
    };
    if runs > 1 {
        named.push(text::decimal(runs) + " workflows"@)
    } else {
        named
    }
}

/// What a commit's line says first.
fn base_meta_texts(branch: &String, runs: usize) -> (r: Vec<String>)
    ensures
        text::views(r@) == base_meta(branch@, runs as nat),
{
    let mut meta: Vec<String> = Vec::new();
    assert(text::views(meta@) =~= Seq::empty());
    if !branch.as_str().is_empty() {
        push_text(&mut meta, branch.clone());
        assert(text::views(meta@) =~= seq![branch@]);
    }
    if runs > 1 {
        push_text(&mut meta, text::decimal_text(runs as u64).concat(" workflows"));
    }
    meta
}

/// A dim row with a link, where there is one.
pub open spec fn link_row(indent: Seq<char>, url: Seq<char>) -> Seq<PieceView> {
    if url.len() == 0 {
        Seq::empty()
    } else {
        seq![
            paint::bare_piece(indent),
            paint::styled_piece(Paint::Dim, url),
            paint::bare_piece("\n"@),
        ]
    }
}

/// A dim row with a link, where there is one.
fn link_pieces(indent: &str, url: &String) -> (r: Vec<Piece>)
    ensures
        paint::piece_views(r@) == link_row(indent@, url@),
{
    let r: Vec<Piece> = if url.as_str().is_empty() {
        Vec::new()
    } else {
        vec![
            paint::bare(indent),
            paint::with_style(Paint::Dim, url.as_str()),
            paint::bare("\n"),
        ]
    };
    assert(paint::piece_views(r@) =~= link_row(indent@, url@));
    r
}

/// The line of an active commit.
pub open spec fn active_line(commit: ActiveCommitView, elapsed: Option<Seq<char>>) -> Seq<
    PieceView,
> {
    let meta = dotted(with_option(base_meta(commit.branch, commit.runs.len()), elapsed));
    let between = if meta.len() == 0 {
        "·"@
    } else {
        "· "@ + meta + " ·"@
    };
    seq![
        paint::bare_piece("  "@),
        paint::styled_piece(Paint::Cyan, "↻"@),
        paint::bare_piece(" "@ + summary(commit.sha, commit.title) + " "@),
        paint::styled_piece(Paint::Dim, between),
        paint::bare_piece(" "@),
        paint::styled_piece(Paint::Cyan, "running"@),
        paint::bare_piece("\n"@),
    ]
}

/// The line of an active commit that has run for `elapsed`.
pub fn active_line_pieces(commit: &ActiveCommitReport, elapsed: &Option<String>) -> (r: Vec<Piece>)
    ensures
        paint::piece_views(r@) == active_line(commit@, text::option_view(*elapsed)),
{
    let mut list = base_meta_texts(&commit.branch, commit.runs.len());
    push_option(&mut list, elapsed);
    let meta = text::join(&list, " · ");
    let between = if meta.as_str().is_empty() {
        "·".to_owned()
    } else {
        "· ".to_owned().concat(meta.as_str()).concat(" ·")
    };
    let line = " ".to_owned().concat(summary_text(&commit.sha, &commit.title).as_str()).concat(" ");
    let style = status_style(RunStatus::InProgress);
    let r: Vec<Piece> = vec![
        paint::bare("  "),
        paint::with_style(style, RunStatus::InProgress.icon()),
        paint::bare(line.as_str()),
        paint::with_style(Paint::Dim, between.as_str()),
        paint::bare(" "),
        paint::with_style(style, commit.rollup_label()),
        paint::bare("\n"),
    ];
    assert(paint::piece_views(r@) =~= active_line(commit@, text::option_view(*elapsed)));
    r
}

/// The rows of an active run.
pub open spec fn active_run_rows(run: ActiveRunView, elapsed: Option<Seq<char>>) -> Seq<
    PieceView,
> {
    let number = seq!["#"@ + text::decimal(run.run_number as nat)];
    let meta = dotted(with_option(number, elapsed).push(run.status.label_text()));
    seq![
        paint::bare_piece("      "@),
        paint::styled_piece(Paint::Cyan, run.status.icon_text()),
        paint::bare_piece(" "@ + or_fallback(run.workflow, "(unknown workflow)"@) + " "@),
        paint::styled_piece(Paint::Dim, "· "@ + meta),
        paint::bare_piece("\n"@),
    ] + link_row("          "@, run.url)
}

/// The rows of an active run that has run for `elapsed`.
pub fn active_run_pieces(run: &ActiveRunReport, elapsed: &Option<String>) -> (r: Vec<Piece>)
    ensures
        paint::piece_views(r@) == active_run_rows(run@, text::option_view(*elapsed)),
{
    let mut list: Vec<String> = Vec::new();
    push_text(&mut list, "#".to_owned().concat(text::decimal_text(run.run_number).as_str()));
    assert(text::views(list@) =~= seq!["#"@ + text::decimal(run.run_number as nat)]);
    push_option(&mut list, elapsed);
    push_text(&mut list, run.status.label().to_owned());
    let meta = text::join(&list, " · ");
    let workflow = " ".to_owned().concat(
        text_or(run.workflow.as_str(), "(unknown workflow)").as_str(),
    ).concat(" ");
    let mut r: Vec<Piece> = vec![
        paint::bare("      "),
        paint::with_style(status_style(run.status), run.status.icon()),
        paint::bare(workflow.as_str()),
        paint::with_style(Paint::Dim, "· ".to_owned().concat(meta.as_str()).as_str()),
        paint::bare("\n"),
    ];
    extend(&mut r, link_pieces("          ", &run.url));
    assert(paint::piece_views(r@) =~= active_run_rows(run@, text::option_view(*elapsed)));
    r
}

/// How long an active run has run, as of `now`.
pub open spec fn run_elapsed(run: ActiveRunView, now: Seq<char>) -> Option<Seq<char>> {
    match run.started_at {
        Some(at) => clock::elapsed_between(clock::instant_of(at), clock::instant_of(now)),
        None => None,
    }
}

/// The rows of active runs, as of `now`.
pub open spec fn active_runs_rows(runs: Seq<ActiveRunView>, now: Seq<char>) -> Seq<PieceView>
    decreases runs.len(),
{
    if runs.len() == 0 {
        Seq::empty()
    } else {
        active_runs_rows(runs.drop_last(), now) + active_run_rows(
            runs.last(),
            run_elapsed(runs.last(), now),
        )
    }
}

/// The rows of an active commit, as of `now`: its line and each of its runs.
pub open spec fn active_rows(commit: ActiveCommitView, now: Seq<char>) -> Seq<PieceView> {
    active_line(
        commit,
        clock::elapsed_between(clock::instant_of(commit.started_at), clock::instant_of(now)),
    ) + active_runs_rows(commit.runs, now)
}

/// The rows of an active commit, as of `generated_at`.
pub fn render_active_commit(commit: &ActiveCommitReport, generated_at: &str) -> (r: Vec<Piece>)
    ensures
        paint::piece_views(r@) == active_rows(commit@, generated_at@),
{
    let elapsed = clock::elapsed_duration(commit.started_at.as_str(), generated_at);
    let mut r = active_line_pieces(commit, &elapsed);
    let ghost line = paint::piece_views(r@);
    let ghost runs = commit@.runs;
    assert(runs.take(0) =~= Seq::empty());
    assert(line + active_runs_rows(runs.take(0), generated_at@) =~= line);
    for i in 0..commit.runs.len()
        invariant
            runs == commit@.runs,
            paint::piece_views(r@) == line + active_runs_rows(runs.take(i as int), generated_at@),
    {
        let run = &commit.runs[i];
        let elapsed = match &run.started_at {
            Some(at) => clock::elapsed_duration(at.as_str(), generated_at),
            None => None,
        };
        assert(runs.take(i + 1).drop_last() =~= runs.take(i as int));
        assert(runs.take(i + 1).last() == run@);
        extend(&mut r, active_run_pieces(run, &elapsed));
        assert(paint::piece_views(r@) =~= line + active_runs_rows(
            runs.take(i + 1),
            generated_at@,
        ));
    }
    assert(runs.take(runs.len() as int) =~= runs);
    r
}

/// The row of a problem step.
pub open spec fn step_row(step: StepView) -> Seq<PieceView> {
    seq![
        paint::bare_piece("              "@),
        paint::styled_piece(
            Paint::Dim,
            "step "@ + text::decimal(step.number as nat) + ": "@ + step.name,
        ),
        paint::bare_piece("\n"@),
    ]
}

/// The rows of problem steps.
pub open spec fn step_rows(steps: Seq<StepView>) -> Seq<PieceView>
    decreases steps.len(),
{
    if steps.len() == 0 {
        Seq::empty()
    } else {
        step_rows(steps.drop_last()) + step_row(steps.last())
    }
}

/// The rows of problem steps.
fn steps_pieces(steps: &Vec<StepReport>) -> (r: Vec<Piece>)
    ensures
        paint::piece_views(r@) == step_rows(steps@.map_values(|s: StepReport| s@)),
{
    let ghost all = steps@.map_values(|s: StepReport| s@);
    let mut r: Vec<Piece> = Vec::new();
    assert(all.take(0) =~= Seq::empty());
    assert(paint::piece_views(r@) =~= Seq::empty());
    for i in 0..steps.len()
        invariant
            all == steps@.map_values(|s: StepReport| s@),
            paint::piece_views(r@) == step_rows(all.take(i as int)),
    {
        let step = &steps[i];
        let line = "step ".to_owned().concat(text::decimal_text(step.number).as_str()).concat(
            ": ",
        ).concat(step.name.as_str());
        let row: Vec<Piece> = vec![
            paint::bare("              "),
            paint::with_style(Paint::Dim, line.as_str()),
            paint::bare("\n"),
        ];
        assert(paint::piece_views(row@) =~= step_row(step@));
        assert(all.take(i + 1).drop_last() =~= all.take(i as int));
        extend(&mut r, row);
    }
    assert(all.take(all.len() as int) =~= all);
    r
}

/// The rows of a problem job: its line, its problem steps and its link.
pub open spec fn job_rows(job: JobView) -> Seq<PieceView> {
    seq![
        paint::bare_piece("          "@),
        paint::styled_piece(style_of(job.conclusion), job.conclusion.icon_text()),
        paint::bare_piece(" "@ + job.name + "\n"@),
    ] + step_rows(job.steps) + link_row("              "@, job.url)
}

/// The rows of problem jobs.
pub open spec fn jobs_rows(jobs: Seq<JobView>) -> Seq<PieceView>
    decreases jobs.len(),
{
    if jobs.len() == 0 {
        Seq::empty()
    } else {
        jobs_rows(jobs.drop_last()) + job_rows(jobs.last())
    }
}

/// The rows of a problem job.
fn job_pieces(job: &JobReport) -> (r: Vec<Piece>)
    ensures
        paint::piece_views(r@) == job_rows(job@),
{
    let name = " ".to_owned().concat(job.name.as_str()).concat("\n");
    let mut r: Vec<Piece> = vec![
        paint::bare("          "),
        paint::with_style(conclusion_style(job.conclusion), job.conclusion.icon()),
        paint::bare(name.as_str()),
    ];
    assert(paint::piece_views(r@) =~= seq![
        paint::bare_piece("          "@),
        paint::styled_piece(style_of(job.conclusion), job.conclusion.icon_text()),
        paint::bare_piece(" "@ + job.name@ + "\n"@),
    ]);
    extend(&mut r, steps_pieces(&job.steps));
    extend(&mut r, link_pieces("              ", &job.url));
    r
}

/// The line of a problem run.
pub open spec fn failed_run_line(run: RunView) -> Seq<PieceView> {
    let number = seq!["#"@ + text::decimal(run.run_number as nat)];
    let duration = match run.duration_seconds {
        Some(secs) => Some(clock::duration_text(secs as nat)),
        None => None,
    };
    let meta = dotted(with_option(number, duration).push(run.conclusion.label_text()));
    seq![
        paint::bare_piece("      "@),
        paint::styled_piece(style_of(run.conclusion), run.conclusion.icon_text()),
        paint::bare_piece(" "@ + or_fallback(run.workflow, "(unknown workflow)"@) + " "@),
        paint::styled_piece(Paint::Dim, "· "@ + meta),
        paint::bare_piece("\n"@),
    ]
}

/// The rows of a problem run: its line, its problem jobs and its link.
pub open spec fn failed_run_rows(run: RunView) -> Seq<PieceView> {
    failed_run_line(run) + jobs_rows(run.jobs) + link_row("          "@, run.url)
}

/// How a known duration reads.
fn duration_option(secs: Option<u64>) -> (r: Option<String>)
    ensures
        text::option_view(r) == (match secs {
            Some(n) => Some(clock::duration_text(n as nat)),
            None => None,
        }),
{
    match secs {
        Some(n) => Some(clock::humanize_duration(n)),
        None => None,
    }
}

/// The rows of a problem run.
pub fn render_failed_run(run: &RunReport) -> (r: Vec<Piece>)
    ensures
        paint::piece_views(r@) == failed_run_rows(run@),
{
    let mut list: Vec<String> = Vec::new();
    push_text(&mut list, "#".to_owned().concat(text::decimal_text(run.run_number).as_str()));
    assert(text::views(list@) =~= seq!["#"@ + text::decimal(run.run_number as nat)]);
    push_option(&mut list, &duration_option(run.duration_seconds));
    push_text(&mut list, run.conclusion.label().to_owned());
    let meta = text::join(&list, " · ");
    let workflow = " ".to_owned().concat(
        text_or(run.workflow.as_str(), "(unknown workflow)").as_str(),
    ).concat(" ");
    let mut r: Vec<Piece> = vec![
        paint::bare("      "),
        paint::with_style(conclusion_style(run.conclusion), run.conclusion.icon()),
        paint::bare(workflow.as_str()),
        paint::with_style(Paint::Dim, "· ".to_owned().concat(meta.as_str()).as_str()),
        paint::bare("\n"),
    ];
    let ghost line = failed_run_line(run@);
    assert(paint::piece_views(r@) =~= line);
    let ghost jobs = run@.jobs;
    assert(jobs.take(0) =~= Seq::empty());
    assert(line + jobs_rows(jobs.take(0)) =~= line);
    for i in 0..run.jobs.len()
        invariant
            jobs == run@.jobs,
            paint::piece_views(r@) == line + jobs_rows(jobs.take(i as int)),
    {
        assert(jobs.take(i + 1).drop_last() =~= jobs.take(i as int));
        assert(jobs.take(i + 1).last() == run.jobs@[i as int]@);
        extend(&mut r, job_pieces(&run.jobs[i]));
        assert(paint::piece_views(r@) =~= line + jobs_rows(jobs.take(i + 1)));
    }
    assert(jobs.take(jobs.len() as int) =~= jobs);
    extend(&mut r, link_pieces("          ", &run.url));
    r
}

/// The rows of those runs that are problems.
pub open spec fn problem_runs_rows(runs: Seq<RunView>) -> Seq<PieceView>
    decreases runs.len(),
{
    if runs.len() == 0 {
        Seq::empty()
    } else if runs.last().conclusion.needs_attention() {
        problem_runs_rows(runs.drop_last()) + failed_run_rows(runs.last())
    } else {
        problem_runs_rows(runs.drop_last())
    }
}

/// What follows a settled commit's title.
pub open spec fn commit_meta(commit: CommitView, ago: Option<Seq<char>>) -> Seq<char> {
    let duration = match commit.duration_seconds {
        Some(secs) => Some(clock::duration_text(secs as nat)),
        None => None,
    };
    dotted(with_option(with_option(base_meta(commit.branch, commit.runs.len()), duration), ago))
}

/// The line of a settled commit that finished `ago`.
pub open spec fn commit_line(commit: CommitView, ago: Option<Seq<char>>) -> Seq<PieceView> {
    let style = style_of(commit.conclusion);
    let meta = commit_meta(commit, ago);
    let start = seq![
        paint::bare_piece("  "@),
        paint::styled_piece(style, commit.conclusion.icon_text()),
        paint::bare_piece(" "@ + summary(commit.sha, commit.title) + " "@),
    ];
    if commit.conclusion.passes() {
        start + seq![paint::styled_piece(Paint::Dim, "· "@ + meta), paint::bare_piece("\n"@)]
    } else {
        start + seq![
            paint::styled_piece(Paint::Dim, "· "@ + meta + " ·"@),
            paint::bare_piece(" "@),
            paint::styled_piece(style, commit.conclusion.label_text()),
            paint::bare_piece("\n"@),
        ]
    }
}

/// The rows of a settled commit that finished `ago`: one line for a green
/// commit, and for a red one its problem runs below.
pub open spec fn commit_rows(commit: CommitView, ago: Option<Seq<char>>) -> Seq<PieceView> {
    if commit.conclusion.passes() {
        commit_line(commit, ago)
    } else {
        commit_line(commit, ago) + problem_runs_rows(commit.runs)
    }
}

/// The line of a settled commit that finished `ago`.
fn commit_line_pieces(commit: &CommitReport, ago: &Option<String>) -> (r: Vec<Piece>)
    ensures
        paint::piece_views(r@) == commit_line(commit@, text::option_view(*ago)),
{
    let mut list = base_meta_texts(&commit.branch, commit.runs.len());
    push_option(&mut list, &duration_option(commit.duration_seconds));
    push_option(&mut list, ago);
    let meta = "· ".to_owned().concat(text::join(&list, " · ").as_str());
    let line = " ".to_owned().concat(summary_text(&commit.sha, &commit.title).as_str()).concat(" ");
    let style = conclusion_style(commit.conclusion);
    let r: Vec<Piece> = if commit.is_success() {
        vec![
            paint::bare("  "),
            paint::with_style(style, commit.conclusion.icon()),
            paint::bare(line.as_str()),
            paint::with_style(Paint::Dim, meta.as_str()),
            paint::bare("\n"),
        ]
    } else {
        vec![
            paint::bare("  "),
            paint::with_style(style, commit.conclusion.icon()),
            paint::bare(line.as_str()),
            paint::with_style(Paint::Dim, meta.concat(" ·").as_str()),
            paint::bare(" "),
            paint::with_style(style, commit.conclusion.label()),
            paint::bare("\n"),
        ]
    };
    assert(paint::piece_views(r@) =~= commit_line(commit@, text::option_view(*ago)));
    r
}

/// The rows of a settled commit that finished `ago`.
pub fn commit_pieces(commit: &CommitReport, ago: &Option<String>) -> (r: Vec<Piece>)
    ensures
        paint::piece_views(r@) == commit_rows(commit@, text::option_view(*ago)),
{
    let mut r = commit_line_pieces(commit, ago);
    if commit.is_success() {
        return r;
    }
    let ghost line = commit_line(commit@, text::option_view(*ago));
    let ghost runs = commit@.runs;
    assert(runs.take(0) =~= Seq::empty());
    assert(line + problem_runs_rows(runs.take(0)) =~= line);
    for i in 0..commit.runs.len()
        invariant
            runs == commit@.runs,
            paint::piece_views(r@) == line + problem_runs_rows(runs.take(i as int)),
    {
        assert(runs.take(i + 1).drop_last() =~= runs.take(i as int));
        assert(runs.take(i + 1).last() == commit.runs@[i as int]@);
        if commit.runs[i].is_problem() {
            extend(&mut r, render_failed_run(&commit.runs[i]));
            assert(paint::piece_views(r@) =~= line + problem_runs_rows(runs.take(i + 1)));
        }
    }
    assert(runs.take(runs.len() as int) =~= runs);
    r
}

/// The rows of a settled commit, as of `generated_at`.
pub fn render_commit(commit: &CommitReport, generated_at: &str) -> (r: Vec<Piece>)
    ensures
        paint::piece_views(r@) == commit_rows(commit@, finished_ago(commit@, generated_at@)),
{
    let ago = clock::relative_time(commit.finished_at.as_str(), generated_at);
    commit_pieces(commit, &ago)
}

/// How long before `now` a settled commit finished.
pub open spec fn finished_ago(commit: CommitView, now: Seq<char>) -> Option<Seq<char>> {
    clock::ago_between(clock::instant_of(commit.finished_at), clock::instant_of(now))
}

/// The rows of active commits, as of `now`.
pub open spec fn actives_rows(commits: Seq<ActiveCommitView>, now: Seq<char>) -> Seq<PieceView>
    decreases commits.len(),
{
    if commits.len() == 0 {
        Seq::empty()
    } else {
        actives_rows(commits.drop_last(), now) + active_rows(commits.last(), now)
    }
}

/// The rows of settled commits, as of `now`; with `only_failures` those of the
/// red ones.
pub open spec fn commits_rows(
    commits: Seq<CommitView>,
    now: Seq<char>,
    only_failures: bool,
) -> Seq<PieceView>
    decreases commits.len(),
{
    if commits.len() == 0 {
        Seq::empty()
    } else if only_failures && commits.last().conclusion.passes() {
        commits_rows(commits.drop_last(), now, only_failures)
    } else {
        commits_rows(commits.drop_last(), now, only_failures) + commit_rows(
            commits.last(),
            finished_ago(commits.last(), now),
        )
    }
}

/// The row of a repository whose collection failed.
pub open spec fn error_row(repo: Seq<char>, error: Seq<char>) -> Seq<PieceView> {
    seq![
        paint::styled_piece(Paint::Red, "✘"@),
        paint::bare_piece(" "@),
        paint::styled_piece(Paint::Bold, repo),
        paint::bare_piece("  "@),
        paint::styled_piece(Paint::Red, error),
        paint::bare_piece("\n"@),
    ]
}

/// A repository's block, as of `now`: its error, or else its name above what
/// is running and what has settled. With `only_failures` only red settled
/// commits are shown. A repository with nothing to show has no block.
pub open spec fn repo_block(repo: RepoView, now: Seq<char>, only_failures: bool) -> Seq<PieceView> {
    match repo.error {
        Some(error) => error_row(repo.repo, error),
        None => {
            let active = if only_failures {
                Seq::empty()
            } else {
                actives_rows(repo.active, now)
            };
            let rows = active + commits_rows(repo.commits, now, only_failures);
            if rows.len() == 0 {
                Seq::empty()
            } else {
                seq![
                    paint::styled_piece(Paint::Bold, repo.repo),
                    paint::bare_piece("\n"@),
                ] + rows
            }
        },
    }
}

/// The repositories' blocks with a blank line between them.
pub open spec fn blocks(repos: Seq<RepoView>, now: Seq<char>, only_failures: bool) -> Seq<PieceView>
    decreases repos.len(),
{
    if repos.len() == 0 {
        Seq::empty()
    } else {
        let before = blocks(repos.drop_last(), now, only_failures);
        let block = repo_block(repos.last(), now, only_failures);
        if block.len() == 0 {
            before
        } else if before.len() == 0 {
            block
        } else {
            before.push(paint::bare_piece("\n"@)) + block
        }
    }
}

/// The whole human-readable report.
pub open spec fn human_pieces(report: ReportView, only_failures: bool) -> Seq<PieceView> {
    let shown = blocks(report.repos, report.generated_at, only_failures);
    if shown.len() == 0 {
        seq![
            paint::styled_piece(Paint::Dim, "no commits to report"@),
            paint::bare_piece("\n"@),
        ]
    } else {
        shown
    }
}

/// The rows of active commits.
fn actives_pieces(commits: &Vec<ActiveCommitReport>, generated_at: &str) -> (r: Vec<Piece>)
    ensures
        paint::piece_views(r@) == actives_rows(
            commits@.map_values(|c: ActiveCommitReport| c@),
            generated_at@,
        ),
{
    let ghost all = commits@.map_values(|c: ActiveCommitReport| c@);
    let mut r: Vec<Piece> = Vec::new();
    assert(all.take(0) =~= Seq::empty());
    assert(paint::piece_views(r@) =~= Seq::empty());
    for i in 0..commits.len()
        invariant
            all == commits@.map_values(|c: ActiveCommitReport| c@),
            paint::piece_views(r@) == actives_rows(all.take(i as int), generated_at@),
    {
        assert(all.take(i + 1).drop_last() =~= all.take(i as int));
        extend(&mut r, render_active_commit(&commits[i], generated_at));
    }
    assert(all.take(all.len() as int) =~= all);
    r
}

/// The rows of settled commits.
fn commits_pieces(
    commits: &Vec<CommitReport>,
    generated_at: &str,
    only_failures: bool,
) -> (r: Vec<Piece>)
    ensures
        paint::piece_views(r@) == commits_rows(
            commits@.map_values(|c: CommitReport| c@),
            generated_at@,
            only_failures,
        ),
{
    let ghost all = commits@.map_values(|c: CommitReport| c@);
    let mut r: Vec<Piece> = Vec::new();
    assert(all.take(0) =~= Seq::empty());
    assert(paint::piece_views(r@) =~= Seq::empty());
    for i in 0..commits.len()
        invariant
            all == commits@.map_values(|c: CommitReport| c@),
            paint::piece_views(r@) == commits_rows(
                all.take(i as int),
                generated_at@,
                only_failures,
            ),
    {
        assert(all.take(i + 1).drop_last() =~= all.take(i as int));
        assert(all.take(i + 1).last() == commits@[i as int]@);
        if !(only_failures && commits[i].is_success()) {
            extend(&mut r, render_commit(&commits[i], generated_at));
        }
    }
    assert(all.take(all.len() as int) =~= all);
    r
}

/// A repository's block.
fn repo_pieces(repo: &RepoReport, generated_at: &str, only_failures: bool) -> (r: Vec<Piece>)
    ensures
        paint::piece_views(r@) == repo_block(repo@, generated_at@, only_failures),
{
    if let Some(error) = &repo.error {
        let r: Vec<Piece> = vec![
            paint::with_style(Paint::Red, "✘"),
            paint::bare(" "),
            paint::with_style(Paint::Bold, repo.repo.as_str()),
            paint::bare("  "),
            paint::with_style(Paint::Red, error.as_str()),
            paint::bare("\n"),
        ];
        assert(paint::piece_views(r@) =~= error_row(repo.repo@, error@));
        return r;
    }
    let mut rows: Vec<Piece> = if only_failures {
        Vec::new()
    } else {
        actives_pieces(&repo.active, generated_at)
    };
    assert(only_failures ==> paint::piece_views(rows@) =~= Seq::empty());
    extend(&mut rows, commits_pieces(&repo.commits, generated_at, only_failures));
    assert(paint::piece_views(rows@).len() == rows@.len());
    if rows.len() == 0 {
        assert(paint::piece_views(rows@) =~= Seq::empty());
        return rows;
    }
    let mut r: Vec<Piece> = vec![
        paint::with_style(Paint::Bold, repo.repo.as_str()),
        paint::bare("\n"),
    ];
    assert(paint::piece_views(r@) =~= seq![
        paint::styled_piece(Paint::Bold, repo.repo@),
        paint::bare_piece("\n"@),
    ]);
    extend(&mut r, rows);
    r
}

/// Lay the whole report out.
pub fn lay_out(report: &Report, only_failures: bool) -> (r: Vec<Piece>)
    ensures
        paint::piece_views(r@) == human_pieces(report@, only_failures),
{
    let now = report.generated_at.as_str();
    let ghost all = report@.repos;
    let mut r: Vec<Piece> = Vec::new();
    assert(all.take(0) =~= Seq::empty());
    assert(paint::piece_views(r@) =~= Seq::empty());
    for i in 0..report.repos.len()
        invariant
            all == report@.repos,
            now@ == report@.generated_at,
            paint::piece_views(r@) == blocks(all.take(i as int), now@, only_failures),
    {
        assert(all.take(i + 1).drop_last() =~= all.take(i as int));
        assert(all.take(i + 1).last() == report.repos@[i as int]@);
        let block = repo_pieces(&report.repos[i], now, only_failures);
        assert(paint::piece_views(block@).len() == block@.len());
        assert(paint::piece_views(r@).len() == r@.len());
        if block.len() > 0 {
            if r.len() > 0 {
                let ghost before = paint::piece_views(r@);
                r.push(paint::bare("\n"));
                assert(paint::piece_views(r@) =~= before.push(paint::bare_piece("\n"@)));
                extend(&mut r, block);
            } else {
                r = block;
            }
        }
    }
    assert(all.take(all.len() as int) =~= all);
    assert(paint::piece_views(r@).len() == r@.len());
    if r.len() == 0 {
        let none: Vec<Piece> = vec![
            paint::with_style(Paint::Dim, "no commits to report"),
            paint::bare("\n"),
        ];
        assert(paint::piece_views(none@) =~= human_pieces(report@, only_failures));
        return none;
    }
    r
}

} // verus!
