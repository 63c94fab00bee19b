# downwards-research

A verified library for the corpus layer of a procedural room generator:
deterministic quality-diversity archiving and representative selection,
promotion gates for ability-gated room variants, and the checks that a
stored deep-analysis artifact (rooms, routes, controller witnesses, metric
aggregates) is consistent with itself and with the evidence it retains.

## Layout

- `src/` is the library, written in Verus. Every function there carries a
  contract that Verus proves; the `*_spec.rs` modules hold the mathematical
  definitions the contracts are stated over, and `*_laws.rs`,
  `archive_order.rs`, `projection_order.rs` and `selection_order.rs` hold
  public proof functions for properties that relate several operations
  (order independence of building and selection, bounded fronts per cell,
  diversity coordinates never influencing archiving, the cached selector
  agreeing with the reference one).
- `tests/` exercises the library on concrete inputs.
- `app/` is ordinary Rust around the library: serde records, JSON-lines
  framing, file I/O, error messages and the replay driver for gate derivation.

Generation, simulation and solving belong to other crates of the workspace;
where a check needs their results (a replay outcome, a regenerated room, a
parsed generation key), the library takes those results as arguments and
states what it decides for every value of them.
