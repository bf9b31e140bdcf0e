# rlc

The core of RLC, the Rust leakage checker, as a verified library.

- `analysis::type_analysis` computes, for every ADT definition met in the
  crate's function bodies, whether each variant directly owns heap data and
  which generic parameters it holds raw; `init` reads the call graph that the
  LLVM phase writes; `closure` and `monotone` hold the laws of the analysis.
- `type_discernment` keeps the ADT types of the bodies under rustc's debug
  text of each.
- `cargo_rlc` decides what the `cargo-rlc` driver runs: its command-line
  parsing, the order of targets, the cargo and rustc commands and their
  environment.
- `driver` reads the command line of the `rlc` compiler driver.
- `display` renders MIR bodies as the checker shows them.
- `ty`, `text`, `grain`, `log`: the type model, string operations, and the
  configuration values.

`app/` holds the programs around the library: file and process I/O, logging,
and the calls into rustc.
