# autofocus

Content-aware focal-point detection for photographs: given an image, where
should a crop keep its focus so that the subject survives?

- `src/` is the library. It holds what the detector decides from measurements,
  with contracts that Verus proves: which blocks are background, what a frame
  shows, which blocks form a face, how the rules move the point and how far,
  which crops are looked at again, which photos an evaluation covers, and what
  is printed.
- `app/` is the program around it: it decodes images, computes measurements,
  scores and blends in floating point, and asks the library what follows.
- `tests/` runs the library on concrete values.

Measurements cross the boundary as ranks: a rank is an integer that orders
exactly as the measured single-precision number does. Thresholds are marks, the
ranks of decimal fractions (`src/marks.rs`).

What is trusted rather than proved is what `serde_json` reads in a manifest
(`src/golden.rs`), writes for a string (`src/text.rs`), and makes of a record's
members (`src/record.rs`).
