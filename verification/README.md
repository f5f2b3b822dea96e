# actstat

Status of recent GitHub Actions runs across a configured set of repositories:
what is running, which projects are healthy, and what needs attention. The
logic is a library verified with [Verus](https://github.com/verus-lang/verus);
the command line, the files and the network are a thin program around it.

## Layout

| Path | What it holds |
| --- | --- |
| `src/config.rs` | Config validation, discovery, repository names and their merge |
| `src/github.rs` | Tokens, API replies, retries, paging, organization expansion |
| `src/collect.rs` | Selection of settled commits and of the running run; reports |
| `src/model.rs`, `src/stub.rs` | The report that every format is rendered from |
| `src/layout.rs`, `src/paint.rs` | The human-readable layout, as styled pieces |
| `src/records.rs`, `src/json.rs` | The JSON trees, held and printed by `serde_json` |
| `src/render.rs` | The output formats |
| `src/cli.rs` | Options, row suppression, exit codes, diagnostics |
| `src/clock.rs`, `src/order.rs`, `src/text.rs` | Time, order and text |
| `src/laws/` | What holds across functions |
| `app/` | `clap`, `serde`, `reqwest`, `tokio`: parsing, I/O and fan-out |
| `tests/` | Tests of the compiled library |

## What is trusted

Proofs rest on the contracts of a few calls into other crates: `serde_json`
(building, printing and reading values), `jiff` (reading timestamps),
`owo_colors` (escape codes), and two functions of the standard library
(`char::is_whitespace`, `String::push`). Each of them stands behind an item
whose doc comment says what is claimed. What a timestamp denotes and how a JSON
value is printed are named rather than spelled out; that printed JSON reads back
as what was written is part of the claim.
