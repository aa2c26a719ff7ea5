//! The host wiring, tested against hand-written WAT: WASI links, argv[0] is
//! injected, and a guest exit is read as a status rather than a crash.

use apitoolchain::run::{compile, enter, guest_outcome, run_module, run_wasm, start, Host};
use apitoolchain::Error;

/// Exits with its own argc, so the returned status is the argument count the
/// guest saw.
const ECHO_ARGC: &str = r#"
(module
  (import "wasi_snapshot_preview1" "proc_exit" (func $exit (param i32)))
  (import "wasi_snapshot_preview1" "args_sizes_get"
    (func $args_sizes_get (param i32 i32) (result i32)))
  (memory (export "memory") 1)
  (func (export "_start")
    (drop (call $args_sizes_get (i32.const 0) (i32.const 8)))
    (call $exit (i32.load (i32.const 0)))))
"#;

/// Exits with the number of environment variables it was given.
const ECHO_ENVC: &str = r#"
(module
  (import "wasi_snapshot_preview1" "proc_exit" (func $exit (param i32)))
  (import "wasi_snapshot_preview1" "environ_sizes_get"
    (func $environ_sizes_get (param i32 i32) (result i32)))
  (memory (export "memory") 1)
  (func (export "_start")
    (drop (call $environ_sizes_get (i32.const 0) (i32.const 8)))
    (call $exit (i32.load (i32.const 0)))))
"#;

const EXIT_WITH: &str = r#"
(module
  (import "wasi_snapshot_preview1" "proc_exit" (func $exit (param i32)))
  (memory (export "memory") 1)
  (func (export "_start") (call $exit (i32.const 7))))
"#;

const TRAPS: &str = r#"
(module
  (memory (export "memory") 1)
  (func (export "_start") unreachable))
"#;

const RETURNS: &str = r#"
(module
  (memory (export "memory") 1)
  (func (export "_start")))
"#;

const NO_START: &str = r#"
(module
  (memory (export "memory") 1)
  (func (export "main")))
"#;

fn args(list: &[&str]) -> Vec<String> {
    list.iter().map(|s| s.to_string()).collect()
}

fn host() -> Host {
    Host { cwd: "/".to_string(), vars: Vec::new() }
}

/// Runs `wasm` through the same host wiring as `run_wasm`, on an engine whose
/// linear memories reserve little address space: the default reserves
/// several GiB per memory, more than this test environment lets a process
/// map.
fn run_small(wasm: &[u8], args: &[String]) -> Result<i32, Error> {
    run_small_in(wasm, args, &host())
}

fn small_engine() -> wasmtime::Engine {
    let mut config = wasmtime::Config::new();
    config.wasm_backtrace_details(wasmtime::WasmBacktraceDetails::Disable);
    config.memory_reservation(1 << 20);
    config.memory_guard_size(1 << 16);
    config.memory_reservation_for_growth(1 << 16);
    wasmtime::Engine::new(&config).expect("engine")
}

fn run_small_in(wasm: &[u8], args: &[String], host: &Host) -> Result<i32, Error> {
    let module = compile(&small_engine(), wasm)?;
    run_module(&module, args, host)
}

#[test]
fn argv0_is_injected_so_the_guest_sees_one_more_argument() {
    let wasm = wat::parse_str(ECHO_ARGC).expect("valid wat");
    assert_eq!(run_small(&wasm, &args(&["spec", "validate"])).unwrap(), 3);
    assert_eq!(run_small(&wasm, &args(&[])).unwrap(), 1, "argv0 alone");
}

#[test]
fn a_guest_exit_is_a_status_not_an_error() {
    let wasm = wat::parse_str(EXIT_WITH).expect("valid wat");
    assert_eq!(run_small(&wasm, &args(&[])).unwrap(), 7);
}

#[test]
fn a_real_trap_is_not_mistaken_for_an_exit() {
    let wasm = wat::parse_str(TRAPS).expect("valid wat");
    match run_small(&wasm, &args(&[])) {
        Err(Error::Trap(_)) => {}
        other => panic!("expected a trap, got {other:?}"),
    }
}

#[test]
fn a_module_that_is_not_wasm_fails_as_a_host_error() {
    match run_wasm(b"not a wasm module at all", &args(&[]), &host()) {
        Err(Error::Host(_)) => {}
        other => panic!("expected a host error, got {other:?}"),
    }
}

#[test]
fn a_clean_return_from_start_is_success() {
    let wasm = wat::parse_str(RETURNS).expect("valid wat");
    assert_eq!(run_small(&wasm, &args(&[])).unwrap(), 0);
}

#[test]
fn a_module_without_start_fails_as_a_host_error() {
    let wasm = wat::parse_str(NO_START).expect("valid wat");
    match run_small(&wasm, &args(&[])) {
        Err(Error::Host(message)) => {
            assert!(message.starts_with("the rest engine has no _start: "), "{message}")
        }
        other => panic!("expected a host error, got {other:?}"),
    }
}

#[test]
fn a_compile_failure_names_the_load_step() {
    match run_wasm(b"\0asm broken", &args(&[]), &host()) {
        Err(Error::Host(message)) => {
            assert!(message.starts_with("cannot load the rest engine: "), "{message}")
        }
        other => panic!("expected a host error, got {other:?}"),
    }
}

#[test]
fn a_trap_is_reported_as_a_crash() {
    let e = Error::Trap("boom".to_string());
    assert_eq!(e.message(), "the rest engine crashed: boom");
    let h = Error::Host("cannot x".to_string());
    assert_eq!(h.message(), "cannot x");
}

#[test]
fn the_guest_gets_the_planned_environment() {
    let wasm = wat::parse_str(ECHO_ENVC).expect("valid wat");
    let host = Host {
        cwd: "/work".to_string(),
        vars: vec![
            (Some("HOME".to_string()), Some("/home/x".to_string())),
            (Some("PWD".to_string()), Some("/elsewhere".to_string())),
            (None, Some("odd".to_string())),
        ],
    };
    // HOME, then PWD set to the working directory.
    assert_eq!(run_small_in(&wasm, &args(&[]), &host).unwrap(), 2);
    assert_eq!(run_small(&wasm, &args(&[])).unwrap(), 1, "PWD alone");
}

#[test]
fn a_guest_end_means_what_it_says() {
    assert_eq!(guest_outcome(true, None, String::new()), Ok(0));
    assert_eq!(guest_outcome(true, Some(3), "x".into()), Ok(0));
    assert_eq!(guest_outcome(false, Some(3), "x".into()), Ok(3));
    assert_eq!(guest_outcome(false, None, "trap".into()), Err(Error::Trap("trap".into())));
}

#[test]
fn a_started_guest_runs_when_entered() {
    let wasm = wat::parse_str(ECHO_ARGC).expect("valid wat");
    let module = compile(&small_engine(), &wasm).expect("compiled");
    let mut started = start(&module, &args(&["a", "b", "c"]), &host()).expect("started");
    assert_eq!(enter(&mut started).unwrap(), 4);
}

#[test]
fn a_guest_without_start_is_not_started() {
    let wasm = wat::parse_str(NO_START).expect("valid wat");
    let module = compile(&small_engine(), &wasm).expect("compiled");
    match start(&module, &args(&[]), &host()) {
        Err(Error::Host(message)) => {
            assert!(message.starts_with("the rest engine has no _start: "), "{message}")
        }
        Err(other) => panic!("expected a host error, got {other:?}"),
        Ok(_) => panic!("expected a host error"),
    }
}
