# ph_curves

Curve lookup tables, integer transfer arithmetic, temporal filters and
tickless scheduling for embedded targets, with their behaviour stated as
Verus contracts and proved.

## Layout

- `src/` — the verified library.
  - `round.rs`, `affine.rs`, `math.rs`, `fixed_point.rs` — rounding division,
    affine calibration, quantization, interpolation and the `UnitValue`
    abstraction (fixed-point arithmetic goes through the `fixed` crate).
  - `curve.rs` — `CurveLut` / `MonotonicCurveLut` lookup tables.
  - `stabilize.rs` — moving average, median, exponential smoothing,
    stability detection, hysteresis and debounce.
  - `tickless.rs` — deadline computation for quantized ramps on a wrapping
    millisecond clock, and the deadline iterator.
  - `gen/` — host-side generation support: control-point interpolation,
    curve validation and inversion, builtin curve names, the formula lexer
    and parser (`formula.rs`, `grammar.rs`), option checks, the rendering
    of built curves as Rust source with `generate` and `generate_report`
    (`api.rs`, `emit.rs`), source citations, the structural rules of the TOML
    document (`document.rs`) and of its table names (`definitions.rs`),
    and, under `transfer/`, the declaration rules of standalone transfers,
    prefitted knots, family members and whole families, family expansion,
    selector universes, family-scoped gaps, generation reports with their
    family budgets, and the round-trip audit of sparse knot tables. Floating-point evaluation of
    sources is left to the host tool; its outcomes enter as arguments.
- `tests/` — tests run against the compiled library.
- `app/` — the `ph-curves-gen` command-line tool: argument parsing, file
  I/O, TOML decoding, and floating-point sampling of builtin curves and
  evaluation of parsed formula trees, whose tables it hands to the library. Transfer, family and gap tables are
  checked against the document rules and refused.
