use apitoolchain::run::{
    compile, decompress, load, module_source, new_engine, run_module, Host, ModuleSource,
};
use apitoolchain::Error;

const EXIT_WITH: &str = r#"
(module
  (import "wasi_snapshot_preview1" "proc_exit" (func $exit (param i32)))
  (memory (export "memory") 1)
  (func (export "_start") (call $exit (i32.const 5))))
"#;

fn small_engine() -> wasmtime::Engine {
    let mut config = wasmtime::Config::new();
    config.memory_reservation(1 << 20);
    config.memory_guard_size(1 << 16);
    config.memory_reservation_for_growth(1 << 16);
    wasmtime::Engine::new(&config).expect("engine")
}

#[test]
fn decompression_restores_the_module_bytes() {
    let raw = b"the vendored module, or any bytes at all".to_vec();
    let compressed = zstd::encode_all(&raw[..], 3).expect("compress");
    assert_ne!(compressed, raw);
    assert_eq!(decompress(&compressed).expect("decompress"), raw);
}

#[test]
fn bytes_that_are_not_zstd_fail_as_a_host_error() {
    match decompress(b"not zstd") {
        Err(Error::Host(message)) => {
            assert!(message.starts_with("cannot decompress the rest engine: "), "{message}")
        }
        other => panic!("expected a host error, got {other:?}"),
    }
}

#[test]
fn a_cache_miss_compiles_the_vendored_module() {
    let engine = small_engine();
    let wasm = wat::parse_str(EXIT_WITH).expect("valid wat");
    let compressed = zstd::encode_all(&wasm[..], 3).expect("compress");
    let loaded = load(&engine, &compressed, None).expect("loaded");
    assert!(loaded.compiled);
    let host = Host { cwd: "/".to_string(), vars: Vec::new() };
    assert_eq!(run_module(&loaded.module, &[], &host).unwrap(), 5);
}

#[test]
fn a_cached_artifact_is_used_without_decompressing() {
    let engine = small_engine();
    let wasm = wat::parse_str(EXIT_WITH).expect("valid wat");
    let module = compile(&engine, &wasm).expect("compiled");
    // The compressed bytes are not even zstd: they are never looked at.
    let loaded = load(&engine, b"garbage", Some(module)).expect("loaded");
    assert!(!loaded.compiled);
    let host = Host { cwd: "/".to_string(), vars: Vec::new() };
    assert_eq!(run_module(&loaded.module, &[], &host).unwrap(), 5);
}

#[test]
fn a_cache_miss_with_a_broken_blob_fails_as_a_host_error() {
    let engine = small_engine();
    match load(&engine, b"garbage", None) {
        Err(Error::Host(message)) => {
            assert!(message.starts_with("cannot decompress the rest engine: "), "{message}")
        }
        Err(other) => panic!("expected a host error, got {other:?}"),
        Ok(_) => panic!("expected a host error"),
    }
}

#[test]
fn the_default_engine_starts() {
    assert!(new_engine().is_ok());
}

#[test]
fn a_cache_miss_compiles_exactly_the_decompressed_bytes() {
    let raw = b"wasm bytes".to_vec();
    let compressed = zstd::encode_all(&raw[..], 3).expect("compress");
    match module_source(&compressed, None) {
        Ok(ModuleSource::Compile(w)) => assert_eq!(w, raw),
        _ => panic!("expected bytes to compile"),
    }
}
