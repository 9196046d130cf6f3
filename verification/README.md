# agent_motif

Motivic development for multi-agent systems: short patterns of integer values
(motifs) that are measured, transformed, chained, grouped into families and
detected in longer behaviour traces. The library is written in Verus; every
function in `src/` carries a contract that Verus proves.

## Layout

- `src/motif.rs` — `Motif`, `Direction`; intervals, span, total motion,
  symmetry, contour, distinct values and Levenshtein edit distance.
- `src/transform.rs` — `MotifTransform` and `apply`, with `can_apply` stating
  exactly the inputs on which every computed value is an `i32`.
- `src/chain.rs` — `MotifChain`, whose well-formedness ties every
  intermediate to the transformations applied so far.
- `src/family.rs` — `MotifFamily`: the standard family of a seed, membership,
  contour queries, nearest member, length statistics.
- `src/detector.rs` — `MotifDetector`: recurring windows, their positions, and
  a stable sort by occurrence count; contour detection works on the step codes.
- `src/development.rs` — the stages of the standard development and the
  trend test over stage complexities.
- `src/text.rs` — the text forms (`to_string`) of motifs, directions,
  transformations, chains, families and detected patterns.
- `src/laws.rs` — properties of the library as a whole: inversion and
  retrograde undo themselves, how transformations act on intervals and
  contours, total motion bounds the span, edit distance is a metric bounded
  below by the length difference, the standard family keeps the seed's
  length, detection is sound, complete, duplicate-free and sorted, and the
  standard development ascends.
- `app/lib.rs` — the floating-point side: developmental arcs with their
  complexity scores, compactness, growth ratios and average length.
- `tests/` — scenario tests.
