# cargo-schnee

Builds Rust projects with one content-addressed Nix derivation per compilation unit.
The library decides everything that can be decided without touching the machine: which
units there are, how they depend on each other, what each of them reads, what its
script says, and at which path its derivation stands. All of it is verified with Verus.

## Layout

`src/` holds the verified library.

- Texts and data: `text`, `lists`, `strmap`, `json`, `json_text`, `json_record`,
  `toml_doc`, `paths`, `hash`.
- The unit graph: `cargo_unit`, `unit_key`, `units`, `toposort`, `extract`, `unify`,
  `closure`, `graph`, `resolution`.
- Sources: `nar`, `nar_reading`, `skeleton`, `nix_encoding`, `slices`, `sources`,
  `path_deps`, `manifest`, `bootstrap`.
- Derivations: `placeholder`, `scripts`, `run_script`, `setup`, `derivation`,
  `derivation_format`, `aterm`, `aterm_reading`, `aggregator`, `toolchain`, `util`.
- Planning and registering: `planner`, `registration`, `daemon`, `decoupling`.
- Building: `pipeline`, `build_output`, `diagnostics`, `shell`, `runner`, `plan`,
  `profile_report`.
- Benchmarks: `bench_report`, `bench_profile`.

`app/` is the program around it: the command line, files, processes and the socket of
the Nix daemon. It hands the library what it read and does what the library decided.

`tests/` runs the library on concrete values.

## What is proved

Every function states what it returns for every input. Laws that relate several
functions are proof functions whose names begin with `law_`. The one that the rest is
for is `decoupling::law_unaffected_units_stay`: the derivation of a unit changes only
with what the unit reads. `decoupling::law_changes_are_seen` is its converse.

What the library takes from other crates without proof is marked where it is called:
the SHA-256 digest in `hash`, the parsers for TOML and JSON in `toml_doc` and
`json_text`, and some functions of std in `text` and `daemon`.
