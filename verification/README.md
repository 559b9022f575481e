# mercurio_sysml

A verified library for the front end of a SysML v2 / KerML toolchain, written
in Verus. Every function in `src/` carries a `requires`/`ensures` contract that
Verus proves; `app/` holds the parts that read files and produce JSON.

## Layout

- `src/kerml/` — the KerML token model, the grammar as specification functions
  (`grammar.rs`), and the parser that reads a token sequence into a module
  (`parser.rs`).
- `src/lowering/` — collecting declarations into usages and definitions,
  building the local and library indexes, resolving imports, types, feature
  references (`feature_refs.rs` specifies the resolution, `feature_search.rs`
  carries it out), and resolving whole usages and definitions
  (`usage_resolution.rs`); the mapping bundle and its seeds, rules and emission
  templates.
- `src/activity.rs`, `src/requirements.rs`, `src/simulation*.rs` — activity
  execution, requirement checks and the discrete simulation core.
- `src/strmap.rs`, `src/text.rs`, `src/text_order.rs`, `src/json.rs` — an
  ordered string map, string operations and their specifications.
- `tests/` — tests of the library from outside.
- `app/` — loading seed files and writing reports as JSON with serde.

## Termination

Several resolutions follow chains of owners, aliases and specializations that
may be cyclic. Their specifications count the steps a resolution takes; a
function that performs such a resolution requires that it ends, and returns
what the specification gives at the step count where it does.
