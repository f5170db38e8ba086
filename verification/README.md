# akari_integrator

Three integrators of a stylizing renderer, with the rules that they follow proved by Verus:

- `branching_pt`: a path tracer that branches at rough surfaces, and takes the bias of averaging
  before stylizing out again;
- `lm_path_filtering`: path filtering with a hash grid, clusters and reservoirs;
- `nrc_pt`: a path tracer with a neural radiance cache; `nrc` is how a network is spoken to.

## Layout

- `src/` is the verified library. Single-precision numbers are carried by their bit patterns
  (`value`), and arithmetic on them is written down as expressions (`expr`). What a scene says is
  handed in as plain values (`lighting`). A rendering is a loop that gives out commands and takes
  reports (the `render` modules). `hash_grid`, `decimal` and `json` stand on their own. `exact` and
  `neighborhood` hold the laws of exact arithmetic: what weights add up to, and which points a
  search of the grid meets.
- `tests/` runs the library on concrete values.
- `app/` carries the commands out: it evaluates the expressions, asks the scene, the film and the
  network through traits, and reads and writes what goes to other processes and files.

The functions whose contracts are believed rather than proved are all in `src/json.rs`; they call
`serde_json`.
