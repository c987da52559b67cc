# wgpu-native

The decisions behind the C interface to `wgpu`, verified with Verus.

- `src/buffers.rs`: the state of a buffer's mapping, and which ranges of a mapped buffer may be
  handed out or copied while others are held.
- `src/report.rs`: the slots in which handles are counted without being kept alive.
- `src/capabilities.rs`, `src/conv.rs`: features, adapter information, lookup of procedures.
- `src/proc_table.rs`: the names that the C headers declare, and the table over them.
- `src/sdk.rs`: what the C headers are read with.
- `src/native.rs`: the values of the C interface.
- `app/`: the C interface itself. It turns pointers into values, holds the locks and asks the
  devices.

Two calls into other crates are believed without proof: which extensions of WGSL the shader
frontend of `naga` implements (`implemented_language_extension` in `src/capabilities.rs`), and what
holds of a mapped range that a buffer of `wgpu-core` finds (`get_mapped_range` in
`src/buffers.rs`).
