# eda_cli_core

The decision logic of an EDA project command line, written in Verus and
verified: Gerber, Excellon and CSV readers and writers, forward-annotation
proposals and reviews, pool library edits and the pool-model query,
manufacturing-set planning, output-job runs, component graphics and the
project inspection report.

Layout:

- `src/` — the verified library. Each module states its behaviour in
  `requires`/`ensures` over spec functions, and states the laws that span
  several functions as public proof functions (for example, that a drill or
  bill-of-materials CSV file reads back as the rows it was written from, that
  clearing a just-recorded review restores the review store, and that a
  Gerber tally does not depend on the order of the file's geometries).
- `tests/` — tests on concrete values, run against the compiled library.
- `app/` — file, JSON and floating-point adapters around the library.

Calls into `uuid` and `sha2`, `Path::extension` from `std::path`, and the
collection of characters into a `String` go through a few trusted wrappers
in `src/ids.rs`, `src/models.rs` and `src/text.rs`; their doc comments say
what is assumed of each. The other path rules (which project-relative paths
are accepted, how a path is walked to its canonical form) are the library's
own verified code in `src/library.rs`, written over `/`-separated paths as
on Unix, where a leading `.` component and any `..` component are refused.
