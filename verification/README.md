# floyd

Masking MC/DC (Modified Condition/Decision Coverage) analysis of compiled
boolean decisions, verified with Verus.

The library reads the MIR that rustc prints, recovers the logical decision of
each function as an If-Then-Else tree, and computes:

- the truth table of the decision,
- for each condition, all independence pairs under masking or unique-cause
  MC/DC,
- a minimum set of tests that demonstrates every condition, with a claim of
  minimality only where it was proven,
- from per-test coverage, which conditions a test suite demonstrates.

## Layout

- `src/mir*`: MIR dumps, line by line, and the names of closure captures.
- `src/decision*`: the walk from basic blocks to decision trees, and runs of
  the blocks that the trees foretell.
- `src/masking*`: truth tables, independence pairs, runtime evidence and the
  search for a minimum test set.
- `src/profile.rs`, `src/correlate.rs`: coverage data and its join with MIR.
- `src/instrument.rs`, `src/runner.rs`, `src/session.rs`,
  `src/inspection.rs`: what is compiled and run, and what comes of it.
- `src/command.rs`: what the tools are run with.
- `src/cli.rs`, `src/report.rs`: the command line and the reports.
- `src/text.rs`, `src/paths.rs`, `src/ordered.rs`: text, paths as text, and
  ordered maps of names.
- `src/corpus*`: decision patterns.
- `app/`: the `cargo floyd` program, which starts processes, reads files and
  prints.

Contracts speak of models (`deep_view`): strings are sequences of characters,
maps are mathematical maps. What holds of the library as a whole is stated as
public proof functions, in the module they are about or in a `laws` module
beside it.

## What is trusted

- `String::push` appends its character.
- `rustc_demangle::demangle` and the lookups in `serde_json::Value` give
  results that depend on their arguments alone; a symbol that does not look
  mangled is handed back unchanged.
