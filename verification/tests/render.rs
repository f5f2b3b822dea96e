//! The output formats.

use actstat::cli::Format;
use actstat::clock::{
    ago, elapsed, elapsed_duration, humanize_ago, humanize_duration, instant, relative_time,
    Instant,
};
use actstat::layout::{commit_pieces, lay_out};
use actstat::model::{Conclusion, RepoReport, Report};
use actstat::paint::{paint, write_pieces, Paint};
use actstat::render::{human, json, jsonl, render};

#[test]
fn json_is_a_single_valid_document() {
    let report = Report::stub(1);
    let out = json(&report);
    let value: serde_json::Value =
        serde_json::from_str(&out).expect("json renders valid JSON");
    assert!(value.get("repositories").is_some());
    assert_eq!(value["limit"], 1);
    assert!(out.ends_with('\n'));
}

#[test]
fn jsonl_has_one_record_per_commit_plus_per_error() {
    let report = Report::stub(1);
    let expected_commits: usize = report.repos.iter().map(|r| r.commits.len()).sum();
    let expected_active: usize = report.repos.iter().map(|r| r.active.len()).sum();
    let expected_errors = report.repos.iter().filter(|r| r.error.is_some()).count();
    let out = jsonl(&report);

    let lines: Vec<&str> = out.lines().collect();
    assert_eq!(
        lines.len(),
        expected_active + expected_commits + expected_errors
    );

    for line in &lines {
        let value: serde_json::Value =
            serde_json::from_str(line).expect("each jsonl line is valid JSON");
        let kind = value["type"].as_str().expect("each record is tagged");
        assert!(kind == "commit" || kind == "active_commit" || kind == "repo_error");
        assert!(value.get("repo").is_some(), "each record carries its repo");
    }
}

#[test]
fn human_no_color_has_no_escape_codes() {
    let report = Report::stub(1);
    let out = human(&report, false, false);
    assert!(!out.contains('\u{1b}'), "no ANSI escape codes without color");
    assert!(out.contains("bbugyi200/actstat"));
    assert!(out.contains("403 Forbidden"), "repo error is shown");
}

#[test]
fn human_suppresses_empty_repo_blocks_but_keeps_errors() {
    let report = Report {
        generated_at: "2026-06-29T12:00:00Z".to_string(),
        limit: 1,
        repos: vec![
            RepoReport {
                repo: "o/empty".to_string(),
                active: vec![],
                commits: vec![],
                error: None,
            },
            RepoReport {
                repo: "o/locked".to_string(),
                active: vec![],
                commits: vec![],
                error: Some("403 Forbidden".to_string()),
            },
        ],
    };

    let out = human(&report, false, false);

    assert!(!out.contains("o/empty"));
    assert!(out.contains("o/locked"));
    assert!(out.contains("403 Forbidden"));
}

#[test]
fn human_expands_failed_runs_with_jobs_and_steps() {
    let report = Report::stub(1);
    let out = human(&report, false, false);
    assert!(out.contains("test (3.14)"), "failed job is shown");
    assert!(out.contains("Run tests"), "failed step is shown");
}

#[test]
fn human_with_color_emits_escape_codes() {
    let report = Report::stub(1);
    let out = human(&report, true, false);
    assert!(out.contains('\u{1b}'), "color output contains ANSI codes");
}

#[test]
fn only_failures_hides_green_commits_in_human() {
    let report = Report::stub(1);
    let out = human(&report, false, true);
    assert!(
        !out.contains("bbugyi200/actstat"),
        "a repo with only green commits is hidden"
    );
    assert!(out.contains("bbugyi200/dotfiles"), "failing repo stays");
    assert!(out.contains("#128"), "the failing run stays");
    assert!(out.contains("bobs-org/locked"), "errors are still shown");
}

#[test]
fn human_commit_line_shows_relative_time() {
    let report = Report::stub(1);
    let out = human(&report, false, false);
    assert!(out.contains("7m ago"), "green commit shows relative time");
    assert!(out.contains("15m ago"), "red commit shows relative time");
}

#[test]
fn human_failure_line_carries_conclusion_label() {
    let report = Report::stub(1);
    let out = human(&report, false, false);
    assert!(
        out.contains("· failure"),
        "red commits label the aggregate conclusion explicitly"
    );
}

#[test]
fn human_separates_repositories_with_a_blank_line() {
    let report = Report::stub(1);
    let out = human(&report, false, false);
    assert!(out.contains("\n\n"), "repository blocks are visually separated");
    assert!(!out.ends_with("\n\n"), "but no trailing blank line");
}

#[test]
fn human_no_color_snapshot_is_stable() {
    let report = Report::stub(1);
    let expected = "\
bbugyi200/actstat
  ↻ f00ba12 Add progress spinner · master · 1m20s · running
      ↻ CI · #44 · 1m20s · in_progress
          https://github.com/bbugyi200/actstat/actions/runs/1044
  ✔ a1b2c3d Add list subcommand · master · 2m30s · 7m ago

bbugyi200/dotfiles
  ✘ 9f8e7d6 Refactor shell init · master · 2 workflows · 4m10s · 15m ago · failure
      ✘ CI · #128 · 4m10s · failure
          ✘ test (3.14)
              step 5: Run tests
              https://github.com/bbugyi200/dotfiles/actions/runs/2002/job/3003
          https://github.com/bbugyi200/dotfiles/actions/runs/2002

✘ bobs-org/locked  403 Forbidden (token lacks access)
";
    assert_eq!(human(&report, false, false), expected);
}

#[test]
fn humanize_ago_picks_the_largest_sensible_unit() {
    assert_eq!(humanize_ago(0), "just now");
    assert_eq!(humanize_ago(-5), "just now");
    assert_eq!(humanize_ago(30), "30s ago");
    assert_eq!(humanize_ago(90), "1m ago");
    assert_eq!(humanize_ago(3 * 3600), "3h ago");
    assert_eq!(humanize_ago(2 * 86400), "2d ago");
    assert_eq!(humanize_ago(10 * 86400), "1w ago");
    assert_eq!(humanize_ago(45 * 86400), "1mo ago");
    assert_eq!(humanize_ago(400 * 86400), "1y ago");
}

#[test]
fn humanize_duration_uses_two_compact_units() {
    assert_eq!(humanize_duration(0), "0s");
    assert_eq!(humanize_duration(45), "45s");
    assert_eq!(humanize_duration(150), "2m30s");
    assert_eq!(humanize_duration(250), "4m10s");
    assert_eq!(humanize_duration(120), "2m0s");
    assert_eq!(humanize_duration(3905), "1h5m");
}

#[test]
fn human_commit_line_shows_duration() {
    let report = Report::stub(1);
    let out = human(&report, false, false);
    assert!(out.contains("2m30s"), "green commit shows its duration");
    assert!(out.contains("4m10s"), "red commit shows its duration");
}

#[test]
fn relative_time_is_none_for_unparseable_input() {
    assert_eq!(relative_time("", "2026-06-29T12:00:00Z"), None);
    assert_eq!(relative_time("2026-06-29T12:00:00Z", "nonsense"), None);
    assert_eq!(
        relative_time("2026-06-29T11:00:00Z", "2026-06-29T12:00:00Z").as_deref(),
        Some("1h ago")
    );
}

#[test]
fn elapsed_duration_is_none_for_unparseable_input() {
    assert_eq!(elapsed_duration("", "2026-06-29T12:00:00Z"), None);
    assert_eq!(
        elapsed_duration("2026-06-29T11:58:40Z", "2026-06-29T12:00:00Z").as_deref(),
        Some("1m20s")
    );
}

#[test]
fn times_are_compared_in_whole_seconds() {
    let at = |second: i64| {
        Some(Instant {
            second,
            nanosecond: i128::from(second) * 1_000_000_000,
        })
    };
    assert_eq!(ago(at(100), at(160)).as_deref(), Some("1m ago"));
    assert_eq!(ago(at(100), at(90)).as_deref(), Some("just now"));
    assert_eq!(ago(None, at(90)), None);
    assert_eq!(elapsed(at(100), at(90)).as_deref(), Some("0s"));
    assert_eq!(elapsed(at(100), at(175)).as_deref(), Some("1m15s"));
    assert_eq!(elapsed(at(100), None), None);
    assert_eq!(
        instant("1970-01-01T00:00:01.5Z"),
        Some(Instant {
            second: 1,
            nanosecond: 1_500_000_000
        })
    );
    assert_eq!(
        instant("1969-12-31T23:59:58.5Z"),
        Some(Instant {
            second: -1,
            nanosecond: -1_500_000_000
        })
    );
    assert_eq!(instant("1970-01-01T02:00:00+02:00").map(|i| i.second), Some(0));
    assert_eq!(instant("1970-01-01T00:00:00"), None);
}

#[test]
fn json_always_carries_active_array() {
    let report = Report::stub(1);
    let value: serde_json::Value = serde_json::from_str(&json(&report)).unwrap();
    for repo in value["repositories"].as_array().unwrap() {
        assert!(repo["active"].is_array());
    }
}

#[test]
fn jsonl_emits_active_commit_before_settled_commits() {
    let report = Report::stub(1);
    let out = jsonl(&report);
    let records: Vec<serde_json::Value> = out
        .lines()
        .map(|line| serde_json::from_str(line).unwrap())
        .collect();

    let actstat_records: Vec<&serde_json::Value> = records
        .iter()
        .filter(|record| record["repo"] == "bbugyi200/actstat")
        .collect();
    assert_eq!(actstat_records[0]["type"], "active_commit");
    assert_eq!(actstat_records[1]["type"], "commit");
}

#[test]
fn json_is_deterministic_for_the_same_report() {
    let report = Report::stub(3);
    assert_eq!(json(&report), json(&report), "JSON output is stable");
}

#[test]
fn render_dispatches_to_each_format() {
    let report = Report::stub(2);
    let human_out = render(&report, Format::Human, false, false);
    let json_out = render(&report, Format::Json, false, false);
    let jsonl_out = render(&report, Format::Jsonl, false, false);

    assert_eq!(human_out, human(&report, false, false));
    assert_eq!(json_out, json(&report));
    assert_eq!(jsonl_out, jsonl(&report));
    assert!(serde_json::from_str::<serde_json::Value>(&json_out).is_ok());
    assert!(jsonl_out.lines().count() > 1);
}

// --- Exact documents -----------------------------------------------------

#[test]
fn jsonl_is_written_exactly() {
    let expected = concat_lines(&[
        r#"{"branch":"master","event":"push","repo":"bbugyi200/actstat","runs":[{"branch":"master","created_at":"2026-06-29T11:58:35Z","event":"push","run_number":44,"sha":"f00ba12","started_at":"2026-06-29T11:58:40Z","status":"in_progress","title":"Add progress spinner","url":"https://github.com/bbugyi200/actstat/actions/runs/1044","workflow":"CI"}],"sha":"f00ba12","started_at":"2026-06-29T11:58:40Z","title":"Add progress spinner","type":"active_commit","url":"https://github.com/bbugyi200/actstat/commit/f00ba1234567890"}"#,
        r#"{"branch":"master","conclusion":"success","duration_seconds":150,"event":"push","finished_at":"2026-06-29T11:52:30Z","repo":"bbugyi200/actstat","runs":[{"branch":"master","conclusion":"success","created_at":"2026-06-29T11:50:00Z","duration_seconds":150,"event":"push","jobs":[],"run_number":42,"sha":"a1b2c3d","title":"Add list subcommand","updated_at":"2026-06-29T11:52:30Z","url":"https://github.com/bbugyi200/actstat/actions/runs/1001","workflow":"CI"}],"sha":"a1b2c3d","title":"Add list subcommand","type":"commit","url":"https://github.com/bbugyi200/actstat/commit/a1b2c3d4e5f67890"}"#,
        r#"{"branch":"master","conclusion":"failure","duration_seconds":250,"event":"push","finished_at":"2026-06-29T11:44:10Z","repo":"bbugyi200/dotfiles","runs":[{"branch":"master","conclusion":"failure","created_at":"2026-06-29T11:40:00Z","duration_seconds":250,"event":"push","jobs":[{"conclusion":"failure","name":"test (3.14)","steps":[{"conclusion":"failure","name":"Run tests","number":5}],"url":"https://github.com/bbugyi200/dotfiles/actions/runs/2002/job/3003"}],"run_number":128,"sha":"9f8e7d6","title":"Refactor shell init","updated_at":"2026-06-29T11:44:10Z","url":"https://github.com/bbugyi200/dotfiles/actions/runs/2002","workflow":"CI"},{"branch":"master","conclusion":"success","created_at":"2026-06-29T11:41:00Z","duration_seconds":120,"event":"push","jobs":[],"run_number":33,"sha":"9f8e7d6","title":"Refactor shell init","updated_at":"2026-06-29T11:43:00Z","url":"https://github.com/bbugyi200/dotfiles/actions/runs/2003","workflow":"Deploy Docs"}],"sha":"9f8e7d6","title":"Refactor shell init","type":"commit","url":"https://github.com/bbugyi200/dotfiles/commit/9f8e7d6c5b4a3210"}"#,
        r#"{"error":"403 Forbidden (token lacks access)","repo":"bobs-org/locked","type":"repo_error"}"#,
    ]);
    assert_eq!(jsonl(&Report::stub(1)), expected);
}

fn concat_lines(lines: &[&str]) -> String {
    lines.iter().map(|line| format!("{line}\n")).collect()
}

#[test]
fn json_is_written_exactly() {
    let expected = r#"{
  "generated_at": "2026-06-29T12:00:00Z",
  "limit": 1,
  "repositories": [
    {
      "repo": "bbugyi200/actstat",
      "active": [
        {
          "sha": "f00ba12",
          "title": "Add progress spinner",
          "branch": "master",
          "event": "push",
          "url": "https://github.com/bbugyi200/actstat/commit/f00ba1234567890",
          "started_at": "2026-06-29T11:58:40Z",
          "runs": [
            {
              "workflow": "CI",
              "title": "Add progress spinner",
              "run_number": 44,
              "event": "push",
              "branch": "master",
              "sha": "f00ba12",
              "status": "in_progress",
              "url": "https://github.com/bbugyi200/actstat/actions/runs/1044",
              "created_at": "2026-06-29T11:58:35Z",
              "started_at": "2026-06-29T11:58:40Z"
            }
          ]
        }
      ],
      "commits": [
        {
          "sha": "a1b2c3d",
          "title": "Add list subcommand",
          "branch": "master",
          "event": "push",
          "conclusion": "success",
          "url": "https://github.com/bbugyi200/actstat/commit/a1b2c3d4e5f67890",
          "finished_at": "2026-06-29T11:52:30Z",
          "duration_seconds": 150,
          "runs": [
            {
              "workflow": "CI",
              "title": "Add list subcommand",
              "run_number": 42,
              "event": "push",
              "branch": "master",
              "sha": "a1b2c3d",
              "conclusion": "success",
              "url": "https://github.com/bbugyi200/actstat/actions/runs/1001",
              "created_at": "2026-06-29T11:50:00Z",
              "updated_at": "2026-06-29T11:52:30Z",
              "duration_seconds": 150,
              "jobs": []
            }
          ]
        }
      ]
    },
    {
      "repo": "bbugyi200/dotfiles",
      "active": [],
      "commits": [
        {
          "sha": "9f8e7d6",
          "title": "Refactor shell init",
          "branch": "master",
          "event": "push",
          "conclusion": "failure",
          "url": "https://github.com/bbugyi200/dotfiles/commit/9f8e7d6c5b4a3210",
          "finished_at": "2026-06-29T11:44:10Z",
          "duration_seconds": 250,
          "runs": [
            {
              "workflow": "CI",
              "title": "Refactor shell init",
              "run_number": 128,
              "event": "push",
              "branch": "master",
              "sha": "9f8e7d6",
              "conclusion": "failure",
              "url": "https://github.com/bbugyi200/dotfiles/actions/runs/2002",
              "created_at": "2026-06-29T11:40:00Z",
              "updated_at": "2026-06-29T11:44:10Z",
              "duration_seconds": 250,
              "jobs": [
                {
                  "name": "test (3.14)",
                  "conclusion": "failure",
                  "url": "https://github.com/bbugyi200/dotfiles/actions/runs/2002/job/3003",
                  "steps": [
                    {
                      "name": "Run tests",
                      "number": 5,
                      "conclusion": "failure"
                    }
                  ]
                }
              ]
            },
            {
              "workflow": "Deploy Docs",
              "title": "Refactor shell init",
              "run_number": 33,
              "event": "push",
              "branch": "master",
              "sha": "9f8e7d6",
              "conclusion": "success",
              "url": "https://github.com/bbugyi200/dotfiles/actions/runs/2003",
              "created_at": "2026-06-29T11:41:00Z",
              "updated_at": "2026-06-29T11:43:00Z",
              "duration_seconds": 120,
              "jobs": []
            }
          ]
        }
      ]
    },
    {
      "repo": "bobs-org/locked",
      "active": [],
      "commits": [],
      "error": "403 Forbidden (token lacks access)"
    }
  ]
}
"#;
    assert_eq!(json(&Report::stub(1)), expected);
}

#[test]
fn optional_fields_are_left_out() {
    let mut report = Report::stub(1);
    report.repos[0].active[0].runs[0].started_at = None;
    report.repos[0].commits[0].duration_seconds = None;
    report.repos[0].commits[0].runs[0].duration_seconds = None;
    let value: serde_json::Value = serde_json::from_str(&json(&report)).unwrap();
    let repo = &value["repositories"][0];
    assert!(repo["active"][0]["runs"][0].get("started_at").is_none());
    assert!(repo["commits"][0].get("duration_seconds").is_none());
    assert!(repo["commits"][0]["runs"][0].get("duration_seconds").is_none());
    assert!(repo.get("error").is_none());
    assert!(value["repositories"][2].get("error").is_some());
}

#[test]
fn texts_are_escaped_in_one_line_records() {
    let mut report = Report::stub(1);
    report.repos[2].error = Some("a\nb\"c\\d\u{1}".to_string());
    let out = jsonl(&report);
    assert_eq!(out.lines().count(), 4);
    let last: serde_json::Value = serde_json::from_str(out.lines().last().unwrap()).unwrap();
    assert_eq!(last["error"], "a\nb\"c\\d\u{1}");
}

// --- Human details -------------------------------------------------------

#[test]
fn nothing_to_show_is_said() {
    let report = Report {
        generated_at: "2026-06-29T12:00:00Z".to_string(),
        limit: 1,
        repos: vec![],
    };
    assert_eq!(human(&report, false, false), "no commits to report\n");
    assert_eq!(
        human(&report, true, true),
        "\u{1b}[2mno commits to report\u{1b}[0m\n"
    );
    assert_eq!(json(&report).lines().count(), 5);
    assert_eq!(jsonl(&report), "");
}

#[test]
fn styles_have_their_codes() {
    for (style, code) in [
        (Paint::Green, "32"),
        (Paint::Red, "31"),
        (Paint::Yellow, "33"),
        (Paint::Cyan, "36"),
        (Paint::Bold, "1"),
        (Paint::Dim, "2"),
    ] {
        assert_eq!(paint(false, style, "x y"), "x y");
        assert_eq!(
            paint(true, style, "x y"),
            format!("\u{1b}[{code}mx y\u{1b}[0m")
        );
        assert_eq!(paint(true, style, ""), format!("\u{1b}[{code}m\u{1b}[0m"));
    }
}

#[test]
fn the_colored_error_row_is_exact() {
    let report = Report {
        generated_at: "2026-06-29T12:00:00Z".to_string(),
        limit: 1,
        repos: vec![Report::stub(1).repos[2].clone()],
    };
    assert_eq!(
        human(&report, true, false),
        "\u{1b}[31m✘\u{1b}[0m \u{1b}[1mbobs-org/locked\u{1b}[0m  \u{1b}[31m403 Forbidden (token \
         lacks access)\u{1b}[0m\n"
    );
}

#[test]
fn color_stripped_is_the_plain_text() {
    let report = Report::stub(1);
    let pieces = lay_out(&report, false);
    let plain: String = pieces.iter().map(|p| p.text.as_str()).collect();
    assert_eq!(plain, human(&report, false, false));
    assert_eq!(write_pieces(false, &pieces), plain);
    let colored = human(&report, true, false);
    let mut stripped = String::new();
    let mut chars = colored.chars();
    while let Some(c) = chars.next() {
        if c == '\u{1b}' {
            for d in chars.by_ref() {
                if d == 'm' {
                    break;
                }
            }
        } else {
            stripped.push(c);
        }
    }
    assert_eq!(stripped, plain);
}

#[test]
fn missing_texts_have_placeholders() {
    let mut report = Report::stub(1);
    report.repos.truncate(2);
    let active = &mut report.repos[0].active[0];
    active.title = String::new();
    active.branch = String::new();
    active.started_at = String::new();
    active.runs[0].workflow = String::new();
    active.runs[0].started_at = None;
    active.runs[0].url = String::new();
    report.repos[0].commits.clear();
    let red = &mut report.repos[1].commits[0];
    red.title = String::new();
    red.branch = String::new();
    red.duration_seconds = None;
    red.finished_at = "never".to_string();
    red.runs.truncate(1);
    red.runs[0].workflow = String::new();
    red.runs[0].duration_seconds = None;
    red.runs[0].conclusion = Conclusion::TimedOut;
    red.runs[0].url = String::new();
    red.runs[0].jobs[0].url = String::new();
    let expected = "\
bbugyi200/actstat
  ↻ f00ba12 (untitled commit) · running
      ↻ (unknown workflow) · #44 · in_progress

bbugyi200/dotfiles
  ✘ 9f8e7d6 (untitled commit) ·  · failure
      ⏱ (unknown workflow) · #128 · timed_out
          ✘ test (3.14)
              step 5: Run tests
";
    assert_eq!(human(&report, false, false), expected);
}

#[test]
fn a_commit_is_laid_out_with_a_given_age() {
    let report = Report::stub(1);
    let green = &report.repos[0].commits[0];
    let pieces = commit_pieces(green, &Some("3d ago".to_string()));
    assert_eq!(
        write_pieces(false, &pieces),
        "  ✔ a1b2c3d Add list subcommand · master · 2m30s · 3d ago\n"
    );
    let pieces = commit_pieces(green, &None);
    assert_eq!(
        write_pieces(false, &pieces),
        "  ✔ a1b2c3d Add list subcommand · master · 2m30s\n"
    );
}

#[test]
fn only_failures_with_nothing_red_shows_nothing() {
    let mut report = Report::stub(1);
    report.repos.truncate(1);
    assert_eq!(human(&report, false, true), "no commits to report\n");
}

#[test]
fn conclusions_have_labels_and_icons() {
    let all = [
        (Conclusion::Success, "success", "✔", true, false),
        (Conclusion::Failure, "failure", "✘", false, true),
        (Conclusion::Cancelled, "cancelled", "⊘", false, true),
        (Conclusion::TimedOut, "timed_out", "⏱", false, true),
        (Conclusion::ActionRequired, "action_required", "⚑", false, true),
        (Conclusion::StartupFailure, "startup_failure", "✘", false, true),
        (Conclusion::Skipped, "skipped", "•", false, false),
        (Conclusion::Neutral, "neutral", "•", false, false),
        (Conclusion::Stale, "stale", "⊘", false, true),
    ];
    for (conclusion, label, icon, success, problem) in all {
        assert_eq!(conclusion.label(), label);
        assert_eq!(conclusion.icon(), icon);
        assert_eq!(conclusion.is_success(), success);
        assert_eq!(conclusion.is_problem(), problem);
        assert_eq!(Conclusion::from_github(&Some(label.to_string())), conclusion);
    }
    assert_eq!(Conclusion::from_github(&None), Conclusion::Failure);
    assert_eq!(
        Conclusion::from_github(&Some("brand_new".to_string())),
        Conclusion::Failure
    );
}
