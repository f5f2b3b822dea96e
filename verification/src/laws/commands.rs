//! Laws of what the command line decides.

use vstd::prelude::*;

use crate::cli;
use crate::collect;
use crate::config::ConfigErrorView;
use crate::github::{SourceView, TokenView};
use crate::laws::texts;
use crate::model::{Conclusion, RepoView, ReportView};
use crate::order;
use crate::text;

verus! {

/// Whether a settled commit of the report is red.
pub open spec fn something_is_red(report: ReportView) -> bool {
    exists|i: int, k: int|
        0 <= i < report.repos.len() && 0 <= k < report.repos[i].commits.len() && (
        #[trigger] report.repos[i].commits[k]).conclusion != Conclusion::Success
}

/// Whether the report has rows, and each of them is an error.
pub open spec fn nothing_but_errors(report: ReportView) -> bool {
    report.repos.len() > 0 && forall|i: int|
        0 <= i < report.repos.len() ==> (#[trigger] report.repos[i]).error is Some
}

/// A report fails exactly where a settled commit is red.
pub proof fn a_report_fails_where_a_commit_is_red(report: ReportView)
    ensures
        report.fails() <==> something_is_red(report),
{
    if report.fails() {
        let i = choose|i: int| 0 <= i < report.repos.len() && (#[trigger] report.repos[i]).fails();
        let k = choose|k: int|
            0 <= k < report.repos[i].commits.len() && !(
            #[trigger] report.repos[i].commits[k]).conclusion.passes();
        assert(report.repos[i].commits[k].conclusion != Conclusion::Success);
    }
    if something_is_red(report) {
        let (i, k) = choose|i: int, k: int|
            0 <= i < report.repos.len() && 0 <= k < report.repos[i].commits.len() && (
            #[trigger] report.repos[i].commits[k]).conclusion != Conclusion::Success;
        assert(!report.repos[i].commits[k].conclusion.passes());
        assert(report.repos[i].fails());
    }
}

/// The exit code is 1 where the report is nothing but errors, else 2 where a red
/// commit is to count and there is one, else 0.
pub proof fn exit_codes_tell_errors_and_failures(report: ReportView, fail_on_failure: bool)
    ensures
        nothing_but_errors(report) ==> cli::exit_code(report, fail_on_failure) == 1,
        !nothing_but_errors(report) && fail_on_failure && something_is_red(report)
            ==> cli::exit_code(report, fail_on_failure) == 2,
        !nothing_but_errors(report) && !(fail_on_failure && something_is_red(report))
            ==> cli::exit_code(report, fail_on_failure) == 0,
{
    a_report_fails_where_a_commit_is_red(report);
}

/// Suppression goes row by row: what it keeps of two lists is what it keeps of
/// the one and then of the other, and a row is kept where something is running,
/// something has settled, or there is an error.
pub proof fn suppression_goes_row_by_row(a: Seq<RepoView>, b: Seq<RepoView>, row: RepoView)
    ensures
        cli::telling(a + b) == cli::telling(a) + cli::telling(b),
        cli::telling(seq![row]) == (if row.active.len() == 0 && row.commits.len() == 0
            && row.error is None {
            Seq::empty()
        } else {
            seq![row]
        }),
    decreases b.len(),
{
    let one = seq![row];
    assert(one.drop_last() =~= Seq::empty());
    assert(one.last() == row);
    assert(cli::telling(one.drop_last()) =~= Seq::<RepoView>::empty());
    assert(cli::says_something(row) ==> cli::telling(one) =~= seq![row]);
    if b.len() == 0 {
        assert(a + b =~= a);
        assert(cli::telling(a) + cli::telling(b) =~= cli::telling(a));
    } else {
        suppression_goes_row_by_row(a, b.drop_last(), row);
        assert((a + b).drop_last() =~= a + b.drop_last());
        assert((a + b).last() == b.last());
        assert(cli::telling(a + b) =~= cli::telling(a) + cli::telling(b));
    }
}

/// The rows of the report stand in the order of their names.
pub proof fn rows_stand_in_the_order_of_their_names(
    collected: Seq<RepoView>,
    failed: Seq<(Seq<char>, Seq<char>)>,
    i: int,
    j: int,
)
    requires
        0 <= i < j < cli::assembled(collected, failed).len(),
    ensures
        !text::before(
            cli::assembled(collected, failed)[j].repo,
            cli::assembled(collected, failed)[i].repo,
        ),
{
    crate::laws::reporting::reports_are_in_order(collected, failed);
    let all = cli::assembled(collected, failed);
    let key = collect::repo_key();
    assert(!text::before(key(all[j]), key(all[i])));
}

/// A report has the rows that say something, as often as they were collected.
pub proof fn no_row_is_lost_or_repeated(
    collected: Seq<RepoView>,
    failed: Seq<(Seq<char>, Seq<char>)>,
    row: RepoView,
)
    ensures
        cli::assembled(collected, failed).to_multiset().count(row) == (if row.active.len() == 0
            && row.commits.len() == 0 && row.error is None {
            0
        } else {
            (collected + cli::org_error_rows(failed)).to_multiset().count(row)
        }),
{
    let rows = collected + cli::org_error_rows(failed);
    let sorted = order::arranged(rows, collect::repo_key());
    order::arranging_orders_and_keeps(rows, collect::repo_key());
    lemma_telling_counts(sorted, row);
}

proof fn lemma_telling_counts(rows: Seq<RepoView>, row: RepoView)
    ensures
        cli::telling(rows).to_multiset().count(row) == (if cli::says_something(row) {
            rows.to_multiset().count(row)
        } else {
            0
        }),
    decreases rows.len(),
{
    broadcast use vstd::seq_lib::group_to_multiset_ensures;

    if rows.len() > 0 {
        let init = rows.drop_last();
        lemma_telling_counts(init, row);
        assert(rows =~= init.push(rows.last()));
    } else {
        assert(rows =~= Seq::empty());
    }
}

/// An organization that could not be expanded is a row under its login, with
/// nothing but an error that ends with the reason.
pub proof fn failed_organizations_are_rows(failed: Seq<(Seq<char>, Seq<char>)>, i: int)
    requires
        0 <= i < failed.len(),
    ensures
        cli::org_error_rows(failed).len() == failed.len(),
        ({
            let row = cli::org_error_rows(failed)[i];
            &&& row.repo == failed[i].0
            &&& row.active.len() == 0
            &&& row.commits.len() == 0
            &&& row.error == Some("failed to expand org: "@ + failed[i].1)
        }),
{
}

/// A limit is a whole number of at least one that fits, in decimal notation.
pub proof fn limits_are_at_least_one(n: nat, s: Seq<char>)
    ensures
        0 < n <= u32::MAX ==> cli::limit_of(text::decimal(n)) == Ok::<nat, Seq<char>>(n),
        n == 0 ==> cli::limit_of(text::decimal(n)) is Err,
        n > u32::MAX ==> cli::limit_of(text::decimal(n)) is Err,
        text::whole_number(s, u32::MAX as nat) is None ==> cli::limit_of(s) is Err,
        cli::limit_of(s) matches Ok(m) ==> 1 <= m <= u32::MAX && text::whole_number(
            s,
            u32::MAX as nat,
        ) == Some(m),
{
    texts::numbers_are_read_back(n, u32::MAX as nat);
}

/// Nothing is said of the token when asked to be quiet. Otherwise there is a
/// warning exactly where there is no token, and behind it, when asked to say
/// more, where the token came from.
pub proof fn diagnostics_can_be_silenced(token: TokenView, verbose: u8, quiet: bool)
    ensures
        quiet ==> cli::token_lines(token, verbose, quiet).len() == 0,
        !quiet ==> cli::token_lines(token, verbose, quiet).len() == (if token.token is None {
            1int
        } else {
            0
        }) + (if verbose > 0 {
            1int
        } else {
            0
        }),
        !quiet && token.token is None ==> cli::token_lines(token, verbose, quiet)[0]
            == "actstat: warning: "@ + crate::github::UNAUTHENTICATED_WARNING@,
        !quiet && verbose > 0 ==> cli::token_lines(token, verbose, quiet).last()
            == "actstat: token source: "@ + (match token.source {
            SourceView::Env(name) => "environment variable "@ + name,
            SourceView::GhCli => "`gh auth token`"@,
            SourceView::Unauthenticated => "none (unauthenticated)"@,
        }),
{
}

/// A config error is told after the program's name, and, exactly where no file
/// was found, with the example.
pub proof fn config_errors_are_told(error: ConfigErrorView)
    ensures
        ({
            let line = "actstat: "@ + error.message() + "\n"@;
            &&& error is NotFound ==> cli::config_error_text(error) == line
                + "\nexample config:\n\n"@ + crate::config::example_text() + "\n"@
            &&& !(error is NotFound) ==> cli::config_error_text(error) == line
        }),
{
}

/// What is said of an inspection counts its repositories, and tells the limit,
/// whether what is running is looked up, and how many requests go at a time.
pub proof fn inspections_are_told(count: nat, limit: nat, no_active: bool, concurrency: nat)
    ensures
        cli::inspection_line(count, limit, no_active, concurrency) == "actstat: inspecting "@
            + text::decimal(count) + (if count == 1 {
            " repository"@
        } else {
            " repositories"@
        }) + " (settled-commit limit="@ + text::decimal(limit) + (if no_active {
            ", running-run lookup=skipped"@
        } else {
            ", running-run lookup=included"@
        }) + ", concurrency="@ + text::decimal(concurrency) + ")"@,
{
    reveal_strlit(" repositor");
    reveal_strlit("y");
    reveal_strlit("ies");
    reveal_strlit(" repository");
    reveal_strlit(" repositories");
    reveal_strlit(", running-run lookup=");
    reveal_strlit("skipped");
    reveal_strlit("included");
    reveal_strlit(", running-run lookup=skipped");
    reveal_strlit(", running-run lookup=included");
    assert(" repositor"@ + "y"@ =~= " repository"@);
    assert(" repositor"@ + "ies"@ =~= " repositories"@);
    assert(", running-run lookup="@ + "skipped"@ =~= ", running-run lookup=skipped"@);
    assert(", running-run lookup="@ + "included"@ =~= ", running-run lookup=included"@);
    assert(cli::inspection_line(count, limit, no_active, concurrency) =~= "actstat: inspecting "@
        + text::decimal(count) + (if count == 1 {
        " repository"@
    } else {
        " repositories"@
    }) + " (settled-commit limit="@ + text::decimal(limit) + (if no_active {
        ", running-run lookup=skipped"@
    } else {
        ", running-run lookup=included"@
    }) + ", concurrency="@ + text::decimal(concurrency) + ")"@);
}

} // verus!
