# apitoolchain (verified core)

The engine behind `api rest` — the upstream OpenAPI CLI compiled to a WASI
command module and run under wasmtime — together with the JavaScript-runtime
helpers the API converters share, written in Verus with their contracts
proved.

## Layout

| Path | What |
|------|------|
| `src/lib.rs` | The host-side `Error` and the module's version string |
| `src/run.rs` | Decompressing, compiling and loading the module, running it as a WASI command, and reading the guest's exit status |
| `src/wasi.rs` | The guest's argv, environment and preopen, built from the host's state |
| `src/cache.rs` | The cache directory and the compiled artifact's file name |
| `src/custom.rs` | How a failure of `api rest` becomes the CLI's exit status |
| `src/jsrt.rs` | `path.join`, `Object.keys()` ordering, array-index keys and the `\s` class, as JavaScript has them |
| `src/text.rs` | Strings as characters: equality, trimming, decimal numerals |
| `src/engine.rs`, `src/json.rs` | The trusted boundary: the calls into wasmtime, wasmtime-wasi, zstd and serde_json, with the contracts Verus takes on trust |
| `app/` | The `api rest` command itself: clap, the environment, the cache files, the engine thread, the exit status |
| `tests/` | Tests of the library, run against the real crates |

Verify with Verus on `src/lib.rs`. The `app/` binary embeds the vendored
module (`openapi.wasm.zst`) and its version file, which are produced by the
module's build and are not part of these sources.
