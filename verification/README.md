# pinvio

Pinvio is a static analysis for Rust crates that looks for violations of what `Pin` promises.
The library holds the tool's decisions, as functions with contracts that
[Verus](https://github.com/verus-lang/verus) proves. The programs in `app/` read from the
compiler and from cargo, and carry out what the library decides.

## Layout

- `src/model.rs`: a compiled crate as plain values (items, types, expressions, compiled bodies).
- `src/analysis/`: the five analyses.
  - `missing_unpin_bound`: methods that expose a pinned field, or project through one, without
    demanding `Unpin`.
  - `wrong_unpin_impl`: `Unpin` impls that do not bound the type parameters of pinned fields.
  - `pin_leak_detector`: safe constructors of types whose destructor must not be skipped
    (`origin` follows where values come from).
  - `deref_pin_stability`: `Deref` impls of pinned pointers that may hand out another address.
  - `safe_pin_unchecked`: safe functions that pin memory from their parameters (`provenance`
    follows where memory comes from).
  - `util`, `paths`: what they share.
- `src/lib.rs`: `analyze`, which runs all five.
- `src/driver.rs`: the arguments and announcements of the compiler driver.
- `src/cargo_pinvio/`: the cargo subcommand, which checks the targets of a package and stands in
  for the compiler.
- `src/text.rs`, `src/names.rs`, `src/search.rs`, `src/flow.rs`, `src/diagnostic.rs`: texts,
  ordered sets of names, searches, data-flow states and warnings.
- `app/main.rs`: the program `cargo-pinvio`.
- `app/pinvio.rs`: the program `pinvio`, a compiler driver. It writes a crate out as the model
  (`lowering.rs`), lets the compiler's engine run the two data-flow analyses (`flows.rs`), and
  emits the warnings. It needs `nightly-2025-08-01` with `rustc-dev` and `llvm-tools`, and
  `RUST_SYSROOT` at build time.

## What is trusted

Contracts are believed without proof for `String::push`, for the printed form of
`cargo_metadata::TargetKind`, and for `serde_json::to_string` and `serde_json::from_str` on lists
of strings. Of `Path::is_relative` nothing is claimed. That `app/` writes out a crate faithfully is not proved.

## Usage

Build both programs, put them into `PATH`, and run `cargo pinvio` in the folder of a package.
Arguments before `--` go to `cargo check`, those after it to the analysis.
