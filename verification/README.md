# awsdiag

AWS diagnostic data acquisition and report rendering. `awsdiag` acquires and
shapes data: it clusters log lines into templates, puts metrics on one shared
timeline, lists instances and their health, and renders a findings document
into a single self-contained HTML page. Every command emits the same envelope.

The library under `src/` is written in Verus: what each function computes is
stated in its contract and proved. The program under `app/` is ordinary Rust
around it: the command line, files, the terminal and the AWS SDK.

## Layout

- `src/text.rs`, `src/json.rs`, `src/order.rs`, `src/hash.rs`, `src/path.rs`,
  `src/glob.rs`: text, JSON values, stable sorting, hashes, paths, patterns.
- `src/reading.rs`, `src/reading/`: what JSON text reads as.
- `src/common/`: instants and windows, flags, errors, envelopes, profiles, the
  credential cache, failures of the service.
- `src/cluster/`: masking the variable parts of a log line, and grouping lines
  that say the same thing.
- `src/metrics/`: choosing a period, aligning and ranking series.
- `src/cmd/`: what each command decides and reports, and the rows it writes.
- `src/output.rs`: JSON, NDJSON and tables.
- `src/report/`: the findings document and its page.
- `tests/`: the library from outside.
- `app/`: the program.

Values of metrics are floating-point numbers, which the library does not
compute with: it ranks them by integers that are ordered as they are, and
writes them by the text that JSON has for them.

The page of a report is read from `assets/` when a report is written:
`report.html`, `vendor/uPlot.iife.min.js` and `vendor/uPlot.min.css`.
