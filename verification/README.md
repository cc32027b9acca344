# abrasive

A remote cargo build system: a client (`abrasive`) syncs a workspace to a
build daemon (`abrasived`) and runs cargo there; a caching rustc wrapper
(`drop-point`) keeps the outputs of third-party crates keyed by a digest of
their command line.

The library under `src/` holds the logic, verified with Verus:

- `rustc_args` — reading rustc command lines: the argument table, the
  argument iterator, and the parse that decides whether a compilation can be
  cached (`spec_parse` is its mathematical meaning).
- `digest` — the bytes a cache key digests and the key itself, with the laws
  that make equivalent command lines share a key.
- `cache_plan`, `disk_cache` — the wrapper chain shape, the output files of
  a compilation, and where cache entries live.
- `cache_io` — cache entries: zip archives of zstd frames, written and read
  back through the zip and zstd crates.
- `protocol` — message types and length-prefixed framing.
- `slots`, `auth`, `daemon` — the daemon's build slots, token checks, sync
  and build planning.
- `cli` — the client's decisions.
- `text`, `sorting`, `paths` — strings, stable sorting and Unix paths.

`app/` holds the programs around the library (network, files, processes),
and `tests/` the tests.
