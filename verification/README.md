# lisa

A verified Verus library for serving and running a language model on Metal.

- `src/` holds the library. Arrays are descriptors of buffers; every operation
  records exact commands on a tape (`tape`), and its contract says which. The
  serving side reads requests, plans generation, shapes replies and frames
  answers; buffers, barriers and command buffers are tracked by `pool`, `hazard`
  and `commands`.
- `app/` is the ordinary Rust around it: the HTTP server, the environment,
  floating-point work on the host, and the Metal device that carries out a tape.
  Kernel texts are read from a directory given to the device.
- `tests/` runs the library on concrete values.

Floating point never enters the library: numbers of that kind are bit patterns,
`serde_json` numbers, or left to the device.
