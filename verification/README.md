# jitdump

A verified reader for jitdump files, the files in which just-in-time compilers tell the `perf`
profiler about the code that they generate.

- `src/` is the library. It does no input or output: a call that cannot be decided by the bytes
  that have arrived asks for more, and whoever drives the reader hands them over.
  - `model.rs` defines the reader as a mathematical state machine, `jitdump_reader.rs` implements
    it, and `laws.rs` states what holds of it as a whole.
  - `bytes.rs` decodes integers and strings, `header.rs` and `record.rs` the parts of a file.
  - `buffered_reader.rs` holds the bytes that have arrived.
- `app/` reads from files and other streams.
- `tests/` runs the library.
