# voxelkloud-wasm-codecs

LAZ decoding and LAS framing, verified with Verus.

- `src/` is the library. `las.rs` reads the public header block and the directories of
  variable length records. `chunk.rs` decodes laszip chunks that stand on their own,
  `file.rs` whole files. `laszip.rs` holds every call into the `laz` crate, with what is
  believed of it. `budget.rs` caps what one call may allocate, `error.rs` holds the errors
  and their words, `field.rs` the selection bits. `soundness.rs` says which
  streams `laz` can be run on, and tests for that.
- `app/` is the JavaScript surface.
- `tests/` runs the library on files and chunks that `laz` compressed.
