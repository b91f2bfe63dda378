# sbt_filter

Compact summaries of sbt (Scala build tool) console output, with the
summarising logic verified by Verus.

- `src/text.rs` – character-level text: trimming, line splitting, prefixes,
  decimal numerals, `u32` parsing, line truncation.
- `src/pattern.rs` – regular-expression search through the `regex` crate.
- `src/sbt_patterns.rs` – the patterns that recognise sbt's lines.
- `src/layout.rs` – the rule line and the listing of lines in reports.
- `src/test_report.rs`, `src/compile_report.rs`, `src/run_report.rs` – the
  summaries of `sbt test`, `sbt compile` and `sbt run` output.
- `app/lib.rs` – runs sbt and prints the summaries.
