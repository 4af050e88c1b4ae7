# rust_mutation

Mutation testing for Rust crates built with rustc directly. Two programs work
together:

* the params writer turns the flags of a rustc compile action into a params
  file: it expands `@file` arguments, appends build-script flag files, strips
  execroot prefixes, replaces the crate root with a placeholder and drops
  output flags;
* the runner lists mutants with `cargo mutants --list --json --diff`, applies
  each mutant's unified diff to its source, builds and tests the unchanged
  crate and then every mutant in a temporary directory, and reports which
  mutants the tests caught and which survived (failing when any survived,
  unless survivors are allowed).

## Layout

* `src/` is the library, verified with Verus. It holds the programs' logic,
  each function with its contract: command lines (`args`, `params_writer`),
  input lists and the rustc environment (`config`), path equality and order
  (`paths`, `path_order`), unified diffs (`diff`), the cargo-mutants listing
  (`cargo_mutants`), the campaign and its report (`campaign`), and text
  handling (`text`). `fixtures` holds small example crates of the kinds the
  runner is used on (a failing baseline, untested code, compile-time data
  and environment, several source files).
* `tests/` runs the library on concrete inputs.
* `app/` is the executable: it reads the command line, files and the
  environment, builds the environment for child processes, creates temporary
  directories, runs cargo-mutants (one source file after another), rustc and
  the test binaries, and prints what the library computes, with the summary's
  percentages.
