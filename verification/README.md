# grid

The data side of a shallow-water sandbox: two-dimensional grids, their
`.npy` images and the zip archives that hold stacks of them, a ring of
recent states for debugging, the markdown write-up cut into pages, and the
decisions behind the simulation's controls. The code under `src/` is
verified with Verus, except for six small wrappers marked
`#[verifier::external_body]` whose contracts are trusted: the two calls
into the `zip` crate (`src/archive.rs`), the `pulldown-cmark` parser
(`src/markdown.rs`), and `char::is_numeric`, `std::str::from_utf8` and
`String::push` (`src/text.rs`); `std::io::Error` and `std::str::Utf8Error` are
declared to Verus as opaque types. `app/` is a small command-line program
around the library that reads and writes files and runs the
floating-point solvers.

## Layout

- `src/grid.rs`, `src/vector2.rs`, `src/vector.rs`: the grid container and
  the values it stores, with their little-endian byte forms.
- `src/numpy.rs`, `src/header.rs`, `src/load.rs`: writing and reading `.npy`
  images, including the header dictionary and shape tuple.
- `src/archive.rs`: the zip archive saving writes, through the `zip` crate.
- `src/roundtrip.rs`: the proofs that a saved stack loads back as itself.
- `src/debug_buffer.rs`, `src/stack.rs`: the ring of recent grids and the
  stack of equally sized layers.
- `src/markdown.rs`: pages of the write-up, built from `pulldown-cmark`
  events.
- `src/controls.rs`, `src/aabb.rs`: the simulation controls and barriers.
- `tests/`: tests run against the compiled library.

Heights are `f32` in the solvers; the library stores their bit patterns as
`u32`, which is how the `.npy` files hold them too.
