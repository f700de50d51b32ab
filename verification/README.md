# diskann_store

A node store and an index pipeline for DiskANN graphs, written in Rust and
verified with Verus.

- `src/` is the library. Every function states what it does in `requires` and
  `ensures`, and Verus proves it. Laws that relate several functions are public
  proof functions named `law_...`.
- `tests/` runs the library on concrete values, with the outside crates linked.
- `app/` is ordinary Rust around the library: the memory-mapped file and its
  locks, the actor with its channels and threads, and the impls of the DiskANN
  traits.

Vectors are held as the bits of 32-bit floating point numbers. Computing
distances is left to the DiskANN crates, outside the library.

What the library takes on trust is marked `external_body` or
`assume_specification`: byte casts of `bytemuck`, the adjacency list, graph
configuration, quantization chunks, file names and error texts of the DiskANN crates,
and the making, joining and reading of paths.
