//! The command line: its options, and what they decide.

use vstd::prelude::*;
use vstd::string::*;

use std::path::PathBuf;

use crate::collect;
use crate::config;
use crate::config::{ConfigError, ConfigErrorView, NameView, RepoName};
use crate::github;
use crate::github::{DiscoveredToken, SourceView, TokenSource, TokenView};
use crate::model;
use crate::model::{RepoReport, RepoView, Report, ReportView};
use crate::order;
use crate::text;

verus! {

/// The exit code of a normal completion.
pub const EXIT_OK: u8 = 0;

/// The exit code of an operational error: no usable config, no client, or a
/// report of nothing but errors.
pub const EXIT_OPERATIONAL: u8 = 1;

/// The exit code of a red settled commit, where that is to count.
pub const EXIT_RED: u8 = 2;

/// The exit code of a usage error.
pub const EXIT_USAGE: u8 = 2;

/// The command line.
#[derive(Debug)]
pub struct Cli {
    /// The options of `list`, given without the subcommand.
    pub list: ListArgs,
    /// The subcommand, if one is given.
    pub command: Option<Commands>,
}

/// The subcommands.
#[derive(Debug)]
pub enum Commands {
    /// Report the status of each repository.
    List(ListArgs),
}

/// The options of `list`.
#[derive(Debug, Clone)]
pub struct ListArgs {
    /// How many settled commits to report for each repository.
    pub limit: u32,
    /// The output format.
    pub format: Format,
    /// The config file, where one is named.
    pub config: Option<PathBuf>,
    /// When to use color.
    pub color: ColorChoice,
    /// Whether to show only failing commits.
    pub only_failures: bool,
    /// Whether to leave out what is running.
    pub no_active: bool,
    /// The repositories to restrict the report to.
    pub repos: Vec<String>,
    /// How many repositories to collect at a time.
    pub concurrency: usize,
    /// Whether a failing commit makes the exit code nonzero.
    pub fail_on_failure: bool,
    /// How much to say about what is done.
    pub verbose: u8,
    /// Whether to say only what is wrong.
    pub quiet: bool,
}

/// An output format.
#[derive(Debug, Clone, Copy, PartialEq, Eq, Structural)]
pub enum Format {
    /// Text for people.
    Human,
    /// One JSON document.
    Json,
    /// One JSON record a line.
    Jsonl,
}

/// When to use color.
#[derive(Debug, Clone, Copy, PartialEq, Eq, Structural)]
pub enum ColorChoice {
    /// Where the output is a terminal and `NO_COLOR` is not set.
    Auto,
    /// Always.
    Always,
    /// Never.
    Never,
}

/// The limit that `s` denotes, or what is wrong with it.
pub open spec fn limit_of(s: Seq<char>) -> Result<nat, Seq<char>> {
    match text::whole_number(s, u32::MAX as nat) {
        None => Err("`"@ + s + "` is not a valid whole number"@),
        Some(n) => if n == 0 {
            Err("must be at least 1"@)
        } else {
            Ok(n)
        },
    }
}

/// Parse a limit: a whole number, at least one.
pub fn parse_limit(s: &str) -> (r: Result<u32, String>)
    ensures
        match r {
            Ok(n) => limit_of(s@) == Ok::<nat, Seq<char>>(n as nat),
            Err(message) => limit_of(s@) == Err::<nat, Seq<char>>(message@),
        },
{
    match text::parse_number(s, u32::MAX as u64) {
        None => Err("`".to_owned().concat(s).concat("` is not a valid whole number")),
        Some(n) => if n == 0 {
            Err("must be at least 1".to_owned())
        } else {
            Ok(n as u32)
        },
    }
}

impl Cli {
    /// The options in effect: those of the subcommand where it is given,
    /// otherwise those given without it.
    pub fn list_args(self) -> (r: ListArgs)
        ensures
            r == (match self.command {
                Some(Commands::List(args)) => args,
                None => self.list,
            }),
    {
        match self.command {
            Some(Commands::List(args)) => args,
            None => self.list,
        }
    }
}

/// Whether to use color, given whether `NO_COLOR` is set and whether the
/// output is a terminal.
pub fn use_color(choice: ColorChoice, no_color_set: bool, is_terminal: bool) -> (r: bool)
    ensures
        r == (match choice {
            ColorChoice::Never => false,
            ColorChoice::Always => true,
            ColorChoice::Auto => !no_color_set && is_terminal,
        }),
{
    match choice {
        ColorChoice::Never => false,
        ColorChoice::Always => true,
        ColorChoice::Auto => !no_color_set && is_terminal,
    }
}

/// The names that are asked for, or what is wrong with the first bad one.
pub open spec fn wanted_names(requested: Seq<Seq<char>>) -> Result<Seq<Seq<char>>, Seq<char>>
    decreases requested.len(),
{
    if requested.len() == 0 {
        Ok(Seq::empty())
    } else {
        match wanted_names(requested.drop_last()) {
            Err(message) => Err(message),
            Ok(names) => match config::parsed_name(requested.last()) {
                Err(message) => Err(message),
                Ok(name) => Ok(names.push(name.full())),
            },
        }
    }
}

/// Those of the repositories whose `owner/name` is asked for, in order.
pub open spec fn wanted_repos(repos: Seq<NameView>, wanted: Seq<Seq<char>>) -> Seq<NameView>
    decreases repos.len(),
{
    if repos.len() == 0 {
        Seq::empty()
    } else if wanted.contains(repos.last().full()) {
        wanted_repos(repos.drop_last(), wanted).push(repos.last())
    } else {
        wanted_repos(repos.drop_last(), wanted)
    }
}

/// What is wrong with a first bad name is what is wrong with the list.
proof fn lemma_first_bad_name(all: Seq<Seq<char>>, i: int)
    requires
        0 <= i < all.len(),
        wanted_names(all.take(i + 1)) is Err,
    ensures
        wanted_names(all) == wanted_names(all.take(i + 1)),
    decreases all.len(),
{
    if i + 1 == all.len() {
        assert(all.take(i + 1) =~= all);
    } else {
        assert(all.drop_last().take(i + 1) =~= all.take(i + 1));
        lemma_first_bad_name(all.drop_last(), i);
    }
}

/// The names that are asked for.
fn parse_wanted(requested: &[String]) -> (r: Result<Vec<String>, String>)
    ensures
        match r {
            Ok(names) => wanted_names(text::views(requested@)) == Ok::<Seq<Seq<char>>, Seq<char>>(
                text::views(names@),
            ),
            Err(message) => wanted_names(text::views(requested@)) == Err::<
                Seq<Seq<char>>,
                Seq<char>,
            >(message@),
        },
{
    let ghost all = text::views(requested@);
    let mut names: Vec<String> = Vec::new();
    assert(all.take(0) =~= Seq::empty());
    assert(text::views(names@) =~= Seq::empty());
    for i in 0..requested.len()
        invariant
            all == text::views(requested@),
            wanted_names(all.take(i as int)) == Ok::<Seq<Seq<char>>, Seq<char>>(
                text::views(names@),
            ),
    {
        assert(all.take(i + 1).drop_last() =~= all.take(i as int));
        assert(all.take(i + 1).last() == requested@[i as int]@);
        match RepoName::parse(requested[i].as_str()) {
            Err(message) => {
                proof {
                    lemma_first_bad_name(all, i as int);
                }
                return Err(message);
            },
            Ok(name) => {
                let ghost before = names@;
                let full = name.full_name();
                names.push(full);
                assert(text::views(names@) =~= text::views(before).push(full@));
            },
        }
    }
    assert(all.take(all.len() as int) =~= all);
    Ok(names)
}

/// Whether a text is on a list.
fn is_listed(list: &Vec<String>, s: &str) -> (r: bool)
    ensures
        r == text::views(list@).contains(s@),
{
    for i in 0..list.len()
        invariant
            forall|k: int| 0 <= k < i ==> text::views(list@)[k] != s@,
    {
        if text::same(list[i].as_str(), s) {
            assert(text::views(list@)[i as int] == s@);
            return true;
        }
    }
    false
}

/// Restrict the repositories to those that are asked for by their exact
/// `owner/name`; where none is asked for, keep all. A name that is not among
/// the repositories adds nothing.
pub fn filter_repos(repos: Vec<RepoName>, requested: &[String]) -> (r: Result<
    Vec<RepoName>,
    String,
>)
    ensures
        requested@.len() == 0 ==> r == Ok::<Vec<RepoName>, String>(repos),
        requested@.len() > 0 ==> match wanted_names(text::views(requested@)) {
            Err(message) => r matches Err(m) && m@ == message,
            Ok(wanted) => r matches Ok(kept) && config::name_views(kept@) == wanted_repos(
                config::name_views(repos@),
                wanted,
            ),
        },
{
    if requested.len() == 0 {
        return Ok(repos);
    }
    let wanted = match parse_wanted(requested) {
        Err(message) => {
            return Err(message);
        },
        Ok(wanted) => wanted,
    };
    let ghost all = config::name_views(repos@);
    let mut kept: Vec<RepoName> = Vec::new();
    assert(all.take(0) =~= Seq::empty());
    assert(config::name_views(kept@) =~= Seq::empty());
    for i in 0..repos.len()
        invariant
            all == config::name_views(repos@),
            config::name_views(kept@) == wanted_repos(all.take(i as int), text::views(wanted@)),
    {
        assert(all.take(i + 1).drop_last() =~= all.take(i as int));
        assert(all.take(i + 1).last() == repos@[i as int]@);
        if is_listed(&wanted, repos[i].full_name().as_str()) {
            let ghost before = kept@;
            let name = repos[i].clone();
            kept.push(name);
            assert(config::name_views(kept@) =~= config::name_views(before).push(name@));
        }
    }
    assert(all.take(all.len() as int) =~= all);
    Ok(kept)
}

/// The row of an organization that could not be expanded.
pub open spec fn org_error_row(failed: (Seq<char>, Seq<char>)) -> RepoView {
    RepoView {
        repo: failed.0,
        active: Seq::empty(),
        commits: Seq::empty(),
        error: Some("failed to expand org: "@ + failed.1),
    }
}

/// The rows of the organizations that could not be expanded.
pub open spec fn org_error_rows(failed: Seq<(Seq<char>, Seq<char>)>) -> Seq<RepoView> {
    failed.map_values(|f: (Seq<char>, Seq<char>)| org_error_row(f))
}

/// Report the organizations that could not be expanded, each as a row with its
/// error.
pub fn org_error_reports(org_errors: Vec<(String, String)>) -> (r: Vec<RepoReport>)
    ensures
        model::repo_views(r@) == org_error_rows(github::pair_views(org_errors@)),
{
    let ghost all = org_error_rows(github::pair_views(org_errors@));
    let mut rows: Vec<RepoReport> = Vec::new();
    for i in 0..org_errors.len()
        invariant
            all == org_error_rows(github::pair_views(org_errors@)),
            model::repo_views(rows@) == all.take(i as int),
    {
        let ghost before = rows@;
        let row = RepoReport {
            repo: org_errors[i].0.clone(),
            active: Vec::new(),
            commits: Vec::new(),
            error: Some("failed to expand org: ".to_owned().concat(org_errors[i].1.as_str())),
        };
        assert(row@.active =~= Seq::empty());
        assert(row@.commits =~= Seq::empty());
        assert(row@ == all[i as int]);
        rows.push(row);
        assert(model::repo_views(rows@) =~= model::repo_views(before).push(row@));
        assert(all.take(i + 1) =~= all.take(i as int).push(all[i as int]));
    }
    assert(all.take(all.len() as int) =~= all);
    rows
}

/// Whether there is something to report of a repository.
pub open spec fn says_something(repo: RepoView) -> bool {
    repo.active.len() > 0 || repo.commits.len() > 0 || repo.error is Some
}

/// Those repositories of which there is something to report, in order.
pub open spec fn telling(repos: Seq<RepoView>) -> Seq<RepoView>
    decreases repos.len(),
{
    if repos.len() == 0 {
        Seq::empty()
    } else if says_something(repos.last()) {
        telling(repos.drop_last()).push(repos.last())
    } else {
        telling(repos.drop_last())
    }
}

/// Drop the repositories that have nothing running, nothing settled and no
/// error.
pub fn suppress_empty_success_reports(reports: &mut Vec<RepoReport>)
    ensures
        model::repo_views(final(reports)@) == telling(model::repo_views(old(reports)@)),
{
    let ghost all = model::repo_views(reports@);
    let ghost mut seen: int = 0;
    let mut at: usize = 0;
    assert(all.take(0) =~= Seq::empty());
    assert(all.skip(0) =~= all);
    assert(model::repo_views(reports@).take(0) =~= Seq::empty());
    assert(model::repo_views(reports@).skip(0) =~= all);
    while at < reports.len()
        invariant
            0 <= seen <= all.len(),
            at <= reports@.len(),
            model::repo_views(reports@).take(at as int) == telling(all.take(seen)),
            model::repo_views(reports@).skip(at as int) == all.skip(seen),
        decreases reports@.len() - at,
    {
        let ghost now = model::repo_views(reports@);
        let ghost row = reports@[at as int]@;
        assert(now.skip(at as int)[0] == row);
        assert(now.skip(at as int).len() == all.skip(seen).len());
        assert(all.skip(seen)[0] == all[seen]);
        assert(all.take(seen + 1).drop_last() =~= all.take(seen));
        assert(all.take(seen + 1).last() == row);
        let keep = reports[at].active.len() > 0 || reports[at].commits.len() > 0
            || reports[at].error.is_some();
        assert(keep == says_something(row));
        if keep {
            assert(now.take(at + 1) =~= now.take(at as int).push(row));
            assert(now.skip(at + 1) =~= now.skip(at as int).drop_first());
            assert(all.skip(seen + 1) =~= all.skip(seen).drop_first());
            at = at + 1;
        } else {
            reports.remove(at);
            let ghost next = model::repo_views(reports@);
            assert(next =~= now.remove(at as int));
            assert(next.take(at as int) =~= now.take(at as int));
            assert(next.skip(at as int) =~= now.skip(at as int).drop_first());
            assert(all.skip(seen + 1) =~= all.skip(seen).drop_first());
        }
        proof {
            seen = seen + 1;
        }
    }
    assert(model::repo_views(reports@).skip(at as int).len() == 0);
    assert(all.skip(seen).len() == 0);
    assert(all.take(seen) =~= all);
    assert(model::repo_views(reports@).take(at as int) =~= model::repo_views(reports@));
}

/// The report of a run: the repositories that say something, in order, with
/// the organizations that could not be expanded among them.
pub open spec fn assembled(
    collected: Seq<RepoView>,
    failed: Seq<(Seq<char>, Seq<char>)>,
) -> Seq<RepoView> {
    telling(order::arranged(collected + org_error_rows(failed), collect::repo_key()))
}

/// Assemble the report from what was collected and from the organizations that
/// could not be expanded.
pub fn assemble_report(
    generated_at: String,
    limit: u32,
    collected: Vec<RepoReport>,
    org_errors: Vec<(String, String)>,
) -> (r: Report)
    ensures
        r@.generated_at == generated_at@,
        r@.limit == limit,
        r@.repos == assembled(
            model::repo_views(collected@),
            github::pair_views(org_errors@),
        ),
{
    let mut reports = collected;
    let ghost before = reports@;
    let mut rows = org_error_reports(org_errors);
    let ghost added = rows@;
    reports.append(&mut rows);
    assert(model::repo_views(reports@) =~= model::repo_views(before) + model::repo_views(added));
    let mut sorted = collect::sort_reports(reports);
    suppress_empty_success_reports(&mut sorted);
    Report { generated_at, limit, repos: sorted }
}

/// Whether the report has rows and every row is an error.
pub open spec fn all_errors(report: ReportView) -> bool {
    report.repos.len() > 0 && forall|i: int|
        0 <= i < report.repos.len() ==> (#[trigger] report.repos[i]).error is Some
}

/// Whether the report has rows and every row is an error.
pub fn all_repos_errored(report: &Report) -> (r: bool)
    ensures
        r == all_errors(report@),
{
    if report.repos.len() == 0 {
        return false;
    }
    for i in 0..report.repos.len()
        invariant
            forall|k: int| 0 <= k < i ==> (#[trigger] report@.repos[k]).error is Some,
    {
        if report.repos[i].error.is_none() {
            assert(report@.repos[i as int].error is None);
            return false;
        }
    }
    true
}

/// The exit code of a report.
pub open spec fn exit_code(report: ReportView, fail_on_failure: bool) -> u8 {
    if all_errors(report) {
        EXIT_OPERATIONAL
    } else if fail_on_failure && report.fails() {
        EXIT_RED
    } else {
        EXIT_OK
    }
}

/// The exit code of a report: 1 where every row is an error, 2 where a red
/// settled commit is to count and there is one, otherwise 0.
pub fn list_exit_code(report: &Report, fail_on_failure: bool) -> (r: u8)
    ensures
        r == exit_code(report@, fail_on_failure),
{
    if all_repos_errored(report) {
        EXIT_OPERATIONAL
    } else if fail_on_failure && report.has_failures() {
        EXIT_RED
    } else {
        EXIT_OK
    }
}

/// What is said of a config error.
pub open spec fn config_error_text(error: ConfigErrorView) -> Seq<char> {
    let line = "actstat: "@ + error.message() + "\n"@;
    match error {
        ConfigErrorView::NotFound(_) => line + "\nexample config:\n\n"@ + config::example_text()
            + "\n"@,
        _ => line,
    }
}

/// What to say of a config error; where no file was found, with an example.
pub fn config_error_message(error: &ConfigError) -> (r: String)
    ensures
        r@ == config_error_text(error@),
{
    let line = "actstat: ".to_owned().concat(error.to_string().as_str()).concat("\n");
    match error {
        ConfigError::NotFound(_) => line.concat("\nexample config:\n\n").concat(
            config::example_config(),
        ).concat("\n"),
        _ => line,
    }
}

/// Where a token came from, in words.
pub open spec fn source_text(source: SourceView) -> Seq<char> {
    match source {
        SourceView::Env(name) => "environment variable "@ + name,
        SourceView::GhCli => "`gh auth token`"@,
        SourceView::Unauthenticated => "none (unauthenticated)"@,
    }
}

/// What is said of the token: a warning where there is none, and, when asked
/// to say more, where it came from. Nothing when asked to be quiet.
pub open spec fn token_lines(token: TokenView, verbose: u8, quiet: bool) -> Seq<Seq<char>> {
    let warning = if !quiet && token.token is None {
        seq!["actstat: warning: "@ + github::UNAUTHENTICATED_WARNING@]
    } else {
        Seq::empty()
    };
    if verbose > 0 && !quiet {
        warning.push("actstat: token source: "@ + source_text(token.source))
    } else {
        warning
    }
}

/// What to say of the token.
pub fn token_diagnostics(token: &DiscoveredToken, verbose: u8, quiet: bool) -> (r: Vec<String>)
    ensures
        text::views(r@) == token_lines(token@, verbose, quiet),
{
    let mut lines: Vec<String> = Vec::new();
    if !quiet {
        if let Some(warning) = token.unauthenticated_warning() {
            lines.push("actstat: warning: ".to_owned().concat(warning));
        }
    }
    if verbose > 0 && !quiet {
        let source = match &token.source {
            TokenSource::Env(name) => "environment variable ".to_owned().concat(name.as_str()),
            TokenSource::GhCli => "`gh auth token`".to_owned(),
            TokenSource::Unauthenticated => "none (unauthenticated)".to_owned(),
        };
        lines.push("actstat: token source: ".to_owned().concat(source.as_str()));
    }
    assert(text::views(lines@) =~= token_lines(token@, verbose, quiet));
    lines
}

/// What is said of the inspection, when asked to say more.
pub open spec fn inspection_line(
    count: nat,
    limit: nat,
    no_active: bool,
    concurrency: nat,
) -> Seq<char> {
    "actstat: inspecting "@ + text::decimal(count) + " repositor"@ + (if count == 1 {
        "y"@
    } else {
        "ies"@
    }) + " (settled-commit limit="@ + text::decimal(limit) + ", running-run lookup="@ + (
    if no_active {
        "skipped"@
    } else {
        "included"@
    }) + ", concurrency="@ + text::decimal(concurrency) + ")"@
}

/// What to say of the inspection of `count` repositories.
pub fn inspection_diagnostic(args: &ListArgs, count: usize) -> (r: Option<String>)
    ensures
        text::option_view(r) == (if args.verbose > 0 && !args.quiet {
            Some(
                inspection_line(
                    count as nat,
                    args.limit as nat,
                    args.no_active,
                    args.concurrency as nat,
                ),
            )
        } else {
            None
        }),
{
    if args.verbose > 0 && !args.quiet {
        let line = "actstat: inspecting ".to_owned().concat(
            text::decimal_text(count as u64).as_str(),
        ).concat(" repositor").concat(
            if count == 1 {
                "y"
            } else {
                "ies"
            },
        ).concat(" (settled-commit limit=").concat(
            text::decimal_text(args.limit as u64).as_str(),
        ).concat(", running-run lookup=").concat(
            if args.no_active {
                "skipped"
            } else {
                "included"
            },
        ).concat(", concurrency=").concat(
            text::decimal_text(args.concurrency as u64).as_str(),
        ).concat(")");
        Some(line)
    } else {
        None
    }
}

/// How many requests may be under way at a time: at least one.
pub fn effective_concurrency(concurrency: usize) -> (r: usize)
    ensures
        r == (if concurrency < 1 {
            1
        } else {
            concurrency
        }),
{
    if concurrency < 1 {
        1
    } else {
        concurrency
    }
}

} // verus!
