# criterion-markdown

Renders Criterion benchmark results as a markdown report: a table per benchmark
group, change indicators against a baseline, and a summary of the largest
improvements and regressions.

- `src/` is the library, verified with Verus. It holds the report's logic: the
  classification of changes against thresholds (`change.rs`), the ranked summary
  (`summary.rs`), the grouped tables (`table.rs`), the renderer settings and the
  whole report (`render.rs`), the unit a time is written in (`time.rs`), with the text helpers they share (`text.rs`).
  Measured floating-point quantities enter it as `Level`s (`level.rs`): their
  places in the order of binary64 values, so that every comparison the report
  makes is an integer comparison. `ChangeInfo::new` checks that a change's
  quantities agree with one another (`is_consistent`); its fields stay public, and
  the laws on how a change is worded hold of consistent changes.
- `app/` reads Criterion's output directories and JSON files, does the
  floating-point arithmetic and formatting on the measured times, and calls the
  library.
- `tests/` exercises the library on entries like those Criterion writes.
