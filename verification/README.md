# cutile_ir

A verified library around the Tile IR bytecode format and the host side of tile
kernels.

- `src/bytecode` reads bytecode buffers: as text (`decode_bytecode`) and as a module
  (`decode_module`). Every read is described by a function on bytes and a position.
  `*_forms.rs` hold the byte forms of values, types, attributes, operations, sections
  and modules, and prove that what is read back of a form is what was written.
  `module_laws.rs` states what holds of every decoded module, `container_laws.rs` what
  the order and the end of the sections have to do with it, `version_laws.rs` and
  `version_bodies.rs` what becomes of operations, bodies and modules in a later version,
  `moves.rs` that what is read does not depend on where the bytes stand, and `op_bytes.rs`
  and `module_bytes.rs` that a decoded module tells the bytes that it came from.
- `src/ir.rs` and `src/builder.rs` hold modules and build them.
- `src/kernels` decides which tiles, rows, keys and heads a program of a kernel reads
  and writes. Of the persistent and grouped schedules, the block copies, the query heads
  of attention, the rotation and the fused prefill and decode steps it is proved that
  the programs cover their work and do not overlap.
- `src/benchmarks` decides what the benchmarks run: variants, specializations, launch
  grids, workloads, and in which order launches, waits and readings of the clock follow
  each other.
- `app` is the command line around the library: files, clocks, floating point, arguments.
- `tests` runs the library on concrete inputs.

Floats are held as bit patterns; `app/floats.rs` turns them into numbers, and
`app/numeric.rs` does on the host what the kernels do with them.

Two functions of the standard library are trusted: `std::str::from_utf8`, in
`src/bytecode/sections.rs`, and the `Debug` text of a string, in
`src/bytecode/decoder.rs`.
