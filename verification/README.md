# req_engine

Requirement traceability: requirements kept as Markdown files with YAML
frontmatter, `REQ:` / `VERIFIES:` / `CRITERION:` tags found in source code,
a traceability graph (coverage, gaps, validation, impact analysis, trace
trees), AI-suggestion import with safety rules, and audit heuristics
(triviality findings, mutation and line-coverage scores, criterion
linkage, audit bundles).

The library under `src/` is written in Verus: every function carries a
`requires`/`ensures` contract over mathematical models (`Seq`, `Map`,
spec functions), and `src/laws.rs` states and proves properties that span
several operations (name round trips, generated ids never reused, sorted
and duplicate-free outputs, impact closure, the import partition, the
Markdown read-back of a rendered file, and others).  Calls into outside
crates (`blake3` for the scan's file hashes, `sha2` for the SHA-256 digest
of import sources, `serde_json`, `chrono`) and into `std` where Verus has no
specification sit behind small trusted wrappers in `src/outside.rs` and,
for the JSON reports of `cargo llvm-cov` and `cargo mutants`, in
`src/report_json.rs`, which reads those reports from their text.

`app/` is the `req` command-line program: argument parsing (`clap`), the
SQLite cache (`rusqlite`), directory walks (`walkdir`), decoding of requirement
files and configuration (`serde`), and terminal output (`colored`).  It hands the library
plain values and prints what comes back.

`tests/` exercises the library from outside.
