//! The calls into `wasmtime`, `wasmtime-wasi` and `zstd` that running the
//! embedded CLI makes. Each item here is trusted: Verus believes its contract
//! without reading its body, and the contracts say only what the crates'
//! documentation promises.

use vstd::prelude::*;

use std::io::Error as IoError;
use wasmtime::Error as WasmError;
use wasmtime::{Config, Engine, Linker, Module, Store, TypedFunc};
use wasmtime_wasi::p1::WasiP1Ctx;
use wasmtime_wasi::WasiCtxBuilder;

verus! {

/// `wasmtime::Config`, carried through opaquely.
#[verifier::external_type_specification]
#[verifier::external_body]
pub struct ExConfig(wasmtime::Config);

/// `wasmtime::Engine`, carried through opaquely.
#[verifier::external_type_specification]
#[verifier::external_body]
pub struct ExEngine(wasmtime::Engine);

/// `wasmtime::Module`, a compiled module, carried through opaquely.
#[verifier::external_type_specification]
#[verifier::external_body]
pub struct ExModule(wasmtime::Module);

/// `wasmtime::Error`, carried through opaquely.
#[verifier::external_type_specification]
#[verifier::external_body]
pub struct ExWasmtimeError(WasmError);

/// `wasmtime::Store`, carried through opaquely.
#[verifier::external_type_specification]
#[verifier::external_body]
#[verifier::reject_recursive_types(T)]
pub struct ExStore<T: 'static>(wasmtime::Store<T>);

/// `wasmtime::TypedFunc`, carried through opaquely.
#[verifier::external_type_specification]
#[verifier::external_body]
#[verifier::reject_recursive_types(P)]
#[verifier::reject_recursive_types(R)]
pub struct ExTypedFunc<P, R>(wasmtime::TypedFunc<P, R>);

/// `wasmtime_wasi::WasiCtxBuilder`, carried through opaquely.
#[verifier::external_type_specification]
#[verifier::external_body]
pub struct ExWasiCtxBuilder(wasmtime_wasi::WasiCtxBuilder);

/// `wasmtime_wasi::p1::WasiP1Ctx`, carried through opaquely.
#[verifier::external_type_specification]
#[verifier::external_body]
pub struct ExWasiP1Ctx(wasmtime_wasi::p1::WasiP1Ctx);

/// `std::io::Error`, carried through opaquely.
#[verifier::external_type_specification]
#[verifier::external_body]
pub struct ExIoError(IoError);

/// What zstd decompression of `compressed` gives: the decompressed bytes, or
/// `None` when `compressed` is not a valid zstd stream.
pub uninterp spec fn zstd_decoded(compressed: Seq<u8>) -> Option<Seq<u8>>;

/// Calls `zstd::decode_all` on the bytes. Trusted: the result is
/// [`zstd_decoded`] of the input, which depends on the input alone.
#[verifier::external_body]
pub(crate) fn zstd_decode_all(compressed: &[u8]) -> (r: Result<Vec<u8>, IoError>)
    ensures
        r is Ok <==> zstd_decoded(compressed@) is Some,
        r matches Ok(v) ==> Some(v@) == zstd_decoded(compressed@),
{
    zstd::decode_all(compressed)
}

/// The text of an I/O error (its `Display`). Nothing is stated of the text.
#[verifier::external_body]
pub(crate) fn io_error_text(e: &IoError) -> String {
    format!("{e}")
}

/// Calls `wasmtime::Config::new`: a default configuration.
#[verifier::external_body]
pub(crate) fn config_new() -> Config {
    Config::new()
}

/// Whether a configuration has wasm backtrace details switched off, so that
/// traps carry no file and line information from the module's debug info.
pub uninterp spec fn config_backtrace_details_disabled(config: Config) -> bool;

/// Whether an engine was built from a configuration with wasm backtrace
/// details switched off.
pub uninterp spec fn engine_backtrace_details_disabled(engine: Engine) -> bool;

/// Calls `wasmtime::Config::wasm_backtrace_details` with `Disable`: traps
/// carry no wasm backtrace details.
#[verifier::external_body]
pub(crate) fn config_disable_backtrace_details(config: &mut Config)
    ensures
        config_backtrace_details_disabled(*final(config)),
{
    config.wasm_backtrace_details(wasmtime::WasmBacktraceDetails::Disable);
}

/// Calls `wasmtime::Engine::new`, which keeps a copy of `config`. Whether it
/// succeeds depends on the host (it can fail for an unsupported
/// configuration), so that is not stated; an engine it makes has the
/// configuration's backtrace setting.
#[verifier::external_body]
pub(crate) fn engine_new(config: &Config) -> (r: Result<Engine, WasmError>)
    ensures
        r matches Ok(e) ==> engine_backtrace_details_disabled(e)
            == config_backtrace_details_disabled(*config),
{
    Engine::new(config)
}

/// The source a compiled module was made from: the wasm binary (or text)
/// handed to the compiler. Unknown for a module taken from elsewhere, such as
/// a cached artifact.
pub uninterp spec fn module_wasm(module: Module) -> Seq<u8>;

/// Calls `wasmtime::Module::new`, which validates and compiles `wasm`.
/// Whether it succeeds depends on the engine's settings and the host as well
/// as on the bytes, so that is not stated; a module it makes was compiled
/// from `wasm`.
#[verifier::external_body]
pub(crate) fn module_new(engine: &Engine, wasm: &[u8]) -> (r: Result<Module, WasmError>)
    ensures
        r matches Ok(m) ==> module_wasm(m) == wasm@,
{
    Module::new(engine, wasm)
}

/// The arguments a WASI context builder holds, in order: the guest's argv.
pub uninterp spec fn wasi_builder_arguments(builder: WasiCtxBuilder) -> Seq<Seq<char>>;

/// The environment variables a WASI context builder holds, in order.
pub uninterp spec fn wasi_builder_environment(builder: WasiCtxBuilder) -> Seq<(Seq<char>, Seq<char>)>;

/// The directories a WASI context builder preopens, in order: the host path
/// opened, the path the guest sees it under, and whether the guest was given
/// every directory and file permission (read and write).
pub uninterp spec fn wasi_builder_preopens(builder: WasiCtxBuilder) -> Seq<(Seq<char>, Seq<char>, bool)>;

/// Whether a context has already been built from the builder; building twice
/// panics.
pub uninterp spec fn wasi_builder_built(builder: WasiCtxBuilder) -> bool;

/// Arguments, environment and preopens of `b` are those of `a`, and it has
/// been built no more than `a`.
pub open spec fn same_builder_contents(b: WasiCtxBuilder, a: WasiCtxBuilder) -> bool {
    &&& wasi_builder_arguments(b) == wasi_builder_arguments(a)
    &&& wasi_builder_environment(b) == wasi_builder_environment(a)
    &&& wasi_builder_preopens(b) == wasi_builder_preopens(a)
    &&& wasi_builder_built(b) == wasi_builder_built(a)
}

/// Calls `wasmtime_wasi::WasiCtxBuilder::new`: a builder with no arguments,
/// no environment variables and no preopens, not yet built.
#[verifier::external_body]
pub(crate) fn wasi_builder_new() -> (r: WasiCtxBuilder)
    ensures
        wasi_builder_arguments(r) == Seq::<Seq<char>>::empty(),
        wasi_builder_environment(r) == Seq::<(Seq<char>, Seq<char>)>::empty(),
        wasi_builder_preopens(r) == Seq::<(Seq<char>, Seq<char>, bool)>::empty(),
        !wasi_builder_built(r),
{
    WasiCtxBuilder::new()
}

/// Calls `WasiCtxBuilder::args`, which appends `args` to the guest's argv and
/// changes nothing else that is named here.
#[verifier::external_body]
pub(crate) fn wasi_builder_args(builder: &mut WasiCtxBuilder, args: &[String])
    ensures
        wasi_builder_arguments(*final(builder)) == wasi_builder_arguments(*old(builder))
            + args@.map_values(|a: String| a@),
        wasi_builder_environment(*final(builder)) == wasi_builder_environment(*old(builder)),
        wasi_builder_preopens(*final(builder)) == wasi_builder_preopens(*old(builder)),
        wasi_builder_built(*final(builder)) == wasi_builder_built(*old(builder)),
{
    builder.args(args);
}

/// Calls `WasiCtxBuilder::env`, which appends `key=value` to the guest's
/// environment (keys are not deduplicated) and changes nothing else that is
/// named here.
#[verifier::external_body]
pub(crate) fn wasi_builder_env(builder: &mut WasiCtxBuilder, key: &str, value: &str)
    ensures
        wasi_builder_arguments(*final(builder)) == wasi_builder_arguments(*old(builder)),
        wasi_builder_environment(*final(builder)) == wasi_builder_environment(*old(builder)).push(
            (key@, value@),
        ),
        wasi_builder_preopens(*final(builder)) == wasi_builder_preopens(*old(builder)),
        wasi_builder_built(*final(builder)) == wasi_builder_built(*old(builder)),
{
    builder.env(key, value);
}

/// Calls `WasiCtxBuilder::inherit_stdio`: the guest reads and writes the
/// host's standard streams. Nothing that is named here changes.
#[verifier::external_body]
pub(crate) fn wasi_builder_inherit_stdio(builder: &mut WasiCtxBuilder)
    ensures
        same_builder_contents(*final(builder), *old(builder)),
{
    builder.inherit_stdio();
}

/// Calls `WasiCtxBuilder::preopened_dir` with every directory and file
/// permission (`DirPerms::all()`, `FilePerms::all()`: read and write). It
/// opens the host directory `host_path` first, so whether it succeeds depends
/// on the file system; on success the directory is appended to the preopens
/// as `guest_path`, on failure the builder is left as it was. Arguments,
/// environment and whether it was built stay as they were.
#[verifier::external_body]
pub(crate) fn wasi_builder_preopened_dir(
    builder: &mut WasiCtxBuilder,
    host_path: &str,
    guest_path: &str,
) -> (r: Result<(), WasmError>)
    ensures
        wasi_builder_arguments(*final(builder)) == wasi_builder_arguments(*old(builder)),
        wasi_builder_environment(*final(builder)) == wasi_builder_environment(*old(builder)),
        wasi_builder_preopens(*final(builder)) == (if r is Ok {
            wasi_builder_preopens(*old(builder)).push((host_path@, guest_path@, true))
        } else {
            wasi_builder_preopens(*old(builder))
        }),
        wasi_builder_built(*final(builder)) == wasi_builder_built(*old(builder)),
{
    builder.preopened_dir(
        host_path,
        guest_path,
        wasmtime_wasi::DirPerms::all(),
        wasmtime_wasi::FilePerms::all(),
    ).map(|_| ())
}

/// The argv a WASI preview 1 context gives the guest.
pub uninterp spec fn wasi_ctx_arguments(ctx: WasiP1Ctx) -> Seq<Seq<char>>;

/// The environment a WASI preview 1 context gives the guest.
pub uninterp spec fn wasi_ctx_environment(ctx: WasiP1Ctx) -> Seq<(Seq<char>, Seq<char>)>;

/// The preopened directories of a WASI preview 1 context, as in
/// [`wasi_builder_preopens`].
pub uninterp spec fn wasi_ctx_preopens(ctx: WasiP1Ctx) -> Seq<(Seq<char>, Seq<char>, bool)>;

/// Calls `WasiCtxBuilder::build_p1`, which moves the builder's arguments,
/// environment and preopens into a new context. It panics on a builder that
/// was built before, which `requires` rules out; the builder is consumed.
#[verifier::external_body]
pub(crate) fn wasi_builder_build_p1(builder: WasiCtxBuilder) -> (r: WasiP1Ctx)
    requires
        !wasi_builder_built(builder),
    ensures
        wasi_ctx_arguments(r) == wasi_builder_arguments(builder),
        wasi_ctx_environment(r) == wasi_builder_environment(builder),
        wasi_ctx_preopens(r) == wasi_builder_preopens(builder),
{
    let mut builder = builder;
    builder.build_p1()
}

/// An instantiated guest, ready to run: the store that owns it and the
/// exported function to enter it by. Only [`start_guest`] makes one, so the
/// function always belongs to the store beside it.
pub struct Started {
    store: Store<WasiP1Ctx>,
    start: TypedFunc<(), ()>,
}

/// The source of the module a started guest was instantiated from.
pub uninterp spec fn started_wasm(s: Started) -> Seq<u8>;

/// The argv of a started guest's WASI context.
pub uninterp spec fn started_arguments(s: Started) -> Seq<Seq<char>>;

/// The environment of a started guest's WASI context.
pub uninterp spec fn started_environment(s: Started) -> Seq<(Seq<char>, Seq<char>)>;

/// The preopened directories of a started guest's WASI context.
pub uninterp spec fn started_preopens(s: Started) -> Seq<(Seq<char>, Seq<char>, bool)>;

/// The name of the exported function a started guest is entered by.
pub uninterp spec fn started_entry(s: Started) -> Seq<char>;

/// How the started guest's function ended the last time it was called: whether
/// it returned normally, the status it passed to `proc_exit` otherwise (when
/// it did), and the error's text. `None` while it has not been called.
pub uninterp spec fn guest_end(s: Started) -> Option<(bool, Option<i32>, Seq<char>)>;

/// Why a guest could not be started, with the text of wasmtime's error.
pub enum StartFailure {
    /// Defining the `wasi_snapshot_preview1` imports failed.
    Wiring(String),
    /// Instantiating the module failed.
    Instantiation(String),
    /// The module exports no function of that name taking and returning
    /// nothing.
    NoEntry(String),
}

/// Instantiates `module` in a new store that owns `ctx` and looks up its
/// exported function `entry` (taking and returning nothing). Calls, on the
/// module's own engine: `wasmtime::Linker::new`,
/// `wasmtime_wasi::p1::add_to_linker_sync`, `wasmtime::Store::new`,
/// `wasmtime::Linker::instantiate` and `wasmtime::Instance::get_typed_func`.
/// Linker, store and module share one engine and the instance is looked up in
/// its own store, so none of the methods' panics can be reached. Each failure
/// comes back with its error's text. Whether each step succeeds is
/// wasmtime's to decide and is not stated; a guest it starts runs `module`
/// with `ctx`, is entered by `entry`, and has not run yet.
#[verifier::external_body]
pub(crate) fn start_guest(module: &Module, ctx: WasiP1Ctx, entry: &str) -> (r: Result<
    Started,
    StartFailure,
>)
    ensures
        r matches Ok(s) ==> {
            &&& started_wasm(s) == module_wasm(*module)
            &&& started_arguments(s) == wasi_ctx_arguments(ctx)
            &&& started_environment(s) == wasi_ctx_environment(ctx)
            &&& started_preopens(s) == wasi_ctx_preopens(ctx)
            &&& started_entry(s) == entry@
            &&& guest_end(s) is None
        },
{
    let engine = module.engine();
    let mut linker: Linker<WasiP1Ctx> = Linker::new(engine);
    if let Err(e) = wasmtime_wasi::p1::add_to_linker_sync(&mut linker, |c| c) {
        return Err(StartFailure::Wiring(format!("{e}")));
    }
    let mut store = Store::new(engine, ctx);
    let instance = match linker.instantiate(&mut store, module) {
        Ok(instance) => instance,
        Err(e) => return Err(StartFailure::Instantiation(format!("{e}"))),
    };
    match instance.get_typed_func::<(), ()>(&mut store, entry) {
        Ok(start) => Ok(Started { store, start }),
        Err(e) => Err(StartFailure::NoEntry(format!("{e}"))),
    }
}

/// `b` is the guest `a`, possibly further along: same module, context and
/// entry.
pub open spec fn same_guest(b: Started, a: Started) -> bool {
    &&& started_wasm(b) == started_wasm(a)
    &&& started_arguments(b) == started_arguments(a)
    &&& started_environment(b) == started_environment(a)
    &&& started_preopens(b) == started_preopens(a)
    &&& started_entry(b) == started_entry(a)
}

/// Runs the started guest's function: calls `wasmtime::TypedFunc::call` in
/// the store that owns the function. Gives back whether the call returned
/// normally, and otherwise the status the guest passed to `proc_exit` (its
/// error downcast to `wasmtime_wasi::I32Exit`, `None` when it is not one)
/// and the error's text with its causes (its `Debug`). What comes back is the
/// guest's to decide and depends on more than the arguments (the files it
/// reads, the time), so it is not stated; the guest stays the same one, and
/// its end is recorded as what came back.
#[verifier::external_body]
pub(crate) fn call_guest(started: &mut Started) -> (r: (bool, Option<i32>, String))
    ensures
        same_guest(*final(started), *old(started)),
        guest_end(*final(started)) == Some((r.0, r.1, r.2@)),
{
    match started.start.call(&mut started.store, ()) {
        Ok(()) => (true, None, String::new()),
        Err(e) => (false, e.downcast_ref::<wasmtime_wasi::I32Exit>().map(|x| x.0), format!("{e:?}")),
    }
}

/// The text of a `wasmtime::Error` (its `Display`). Nothing is stated of the
/// text.
#[verifier::external_body]
pub(crate) fn wasmtime_error_text(err: &WasmError) -> String {
    format!("{err}")
}

/// Calls `std::io::Write::flush` on the standard output, ignoring failure.
#[verifier::external_body]
pub(crate) fn flush_stdout() {
    let _ = std::io::Write::flush(&mut std::io::stdout());
}

/// Calls `std::io::Write::flush` on the standard error, ignoring failure.
#[verifier::external_body]
pub(crate) fn flush_stderr() {
    let _ = std::io::Write::flush(&mut std::io::stderr());
}

} // verus!
