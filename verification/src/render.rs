//! The output formats. Each of them reads the same [`Report`].

use vstd::prelude::*;
use vstd::string::*;

pub use crate::cli::Format;
use crate::json;
use crate::layout;
use crate::model::{Report, ReportView};
use crate::paint;
use crate::records;
use crate::text;

verus! {

/// The human-readable text of a report.
pub open spec fn human_text(report: ReportView, use_color: bool, only_failures: bool) -> Seq<char> {
    paint::pieces_text(use_color, layout::human_pieces(report, only_failures))
}

/// The JSON text of a report.
pub open spec fn json_text(report: ReportView) -> Seq<char> {
    json::pretty_text(records::report_json(report)) + "\n"@
}

/// The lines of a report's JSONL text.
pub open spec fn record_lines(report: ReportView) -> Seq<Seq<char>> {
    records::report_records(report.repos).map_values(|v: json::JsonView| json::compact_text(v))
}

/// The JSONL text of a report.
pub open spec fn jsonl_text(report: ReportView) -> Seq<char> {
    text::ended(record_lines(report))
}

/// Render a report for people: one block for each repository, with what is
/// running above what has settled, and a row for each error. `use_color` adds
/// escape codes; `only_failures` hides green commits and what is running.
pub fn human(report: &Report, use_color: bool, only_failures: bool) -> (r: String)
    ensures
        r@ == human_text(report@, use_color, only_failures),
{
    paint::write_pieces(use_color, &layout::lay_out(report, only_failures))
}

/// Render a report as one indented JSON document, which reads back as the
/// report's tree.
pub fn json(report: &Report) -> (r: String)
    ensures
        r@ == json_text(report@),
        json::parsed(r@) == Some(records::report_json(report@)),
{
    proof {
        records::lemma_report_plain(report@);
    }
    json::pretty(&records::report_value(report)).concat("\n")
}

/// Render a report as JSONL: one record a line for each error, each active
/// commit and each settled commit. Each line reads back as its record.
pub fn jsonl(report: &Report) -> (r: String)
    ensures
        r@ == jsonl_text(report@),
        text::parts(r@, '\n') == record_lines(report@).push(Seq::empty()),
        forall|i: int|
            0 <= i < record_lines(report@).len() ==> json::parsed(
                #[trigger] record_lines(report@)[i],
            ) == Some(records::report_records(report@.repos)[i]),
{
    proof {
        records::lemma_records_plain(report@.repos);
    }
    let values = records::record_values(report);
    let ghost all = record_lines(report@);
    let mut list: Vec<String> = Vec::new();
    for i in 0..values.len()
        invariant
            json::json_views(values@) == records::report_records(report@.repos),
            all == record_lines(report@),
            text::views(list@) == all.take(i as int),
            forall|k: int| 0 <= k < list@.len() ==> !(#[trigger] list@[k])@.contains('\n'),
            forall|k: int|
                0 <= k < records::report_records(report@.repos).len() ==> json::plain(
                    #[trigger] records::report_records(report@.repos)[k],
                    json::depth_limit(),
                ),
            forall|k: int|
                0 <= k < i ==> json::parsed(#[trigger] all[k]) == Some(
                    records::report_records(report@.repos)[k],
                ),
    {
        let ghost before = text::views(list@);
        assert(json::json_views(values@)[i as int] == json::json_view(values@[i as int]));
        let line = json::compact(&values[i]);
        list.push(line);
        assert(text::views(list@) =~= before.push(line@));
        assert(all.take(i + 1) =~= all.take(i as int).push(all[i as int]));
    }
    assert(json::json_views(values@).len() == values@.len());
    assert(all.take(all.len() as int) =~= all);
    text::lines(&list)
}

/// Render a report in the given format.
pub fn render(report: &Report, format: Format, use_color: bool, only_failures: bool) -> (r: String)
    ensures
        r@ == (match format {
            Format::Human => human_text(report@, use_color, only_failures),
            Format::Json => json_text(report@),
            Format::Jsonl => jsonl_text(report@),
        }),
{
    match format {
        Format::Human => human(report, use_color, only_failures),
        Format::Json => json(report),
        Format::Jsonl => jsonl(report),
    }
}

} // verus!
