//! Compiling the embedded module and running it as a WASI command: argv
//! injection, WASI linking, and reading the guest's exit status.

use vstd::prelude::*;

use wasmtime::{Engine, Module};

use crate::engine::{
    call_guest, config_disable_backtrace_details, config_new, engine_new, flush_stderr,
    flush_stdout, io_error_text, module_new, start_guest, wasi_builder_args, wasi_builder_build_p1,
    wasi_builder_env, wasi_builder_inherit_stdio, wasi_builder_new, wasi_builder_preopened_dir,
    wasmtime_error_text, zstd_decode_all, zstd_decoded, StartFailure, Started,
};
use wasmtime_wasi::WasiCtxBuilder;

use crate::engine::{
    engine_backtrace_details_disabled, guest_end, module_wasm, same_guest, started_arguments,
    started_entry, started_environment, started_preopens, started_wasm, wasi_builder_arguments,
    wasi_builder_built, wasi_builder_environment, wasi_builder_preopens,
};
use crate::text::string_views;
use crate::wasi::{pair_views, plan, spec_plan_env, HostVar, Plan, ARGV0};
use crate::Error;

verus! {

/// The host's state that the guest's environment is built from, read by the
/// caller: the working directory and the environment variables.
pub struct Host {
    /// The working directory, as text.
    pub cwd: String,
    /// The environment variables; see [`HostVar`].
    pub vars: Vec<HostVar>,
}

/// Whether `m` begins with `prefix`.
pub open spec fn starts_with(m: Seq<char>, prefix: Seq<char>) -> bool {
    prefix.len() <= m.len() && m.take(prefix.len() as int) == prefix
}

/// The message that opens a failure to create the engine.
pub const ENGINE_FAILED: &'static str = "cannot start the wasm engine: ";

/// The message that opens a failure to compile the module.
pub const LOAD_FAILED: &'static str = "cannot load the rest engine: ";

/// The message that opens a failure to decompress the vendored module.
pub const DECOMPRESS_FAILED: &'static str = "cannot decompress the rest engine: ";

/// The message that opens a failure to open the preopened directory.
pub const OPEN_FAILED: &'static str = "cannot open ";

/// The message that opens a failure to define the WASI imports.
pub const WIRE_FAILED: &'static str = "cannot wire WASI: ";

/// The message that opens a failure to instantiate the module.
pub const INSTANTIATE_FAILED: &'static str = "cannot instantiate the rest engine: ";

/// The message that opens a module without a `_start` export.
pub const NO_START: &'static str = "the rest engine has no _start: ";

/// A host-side failure whose message begins with `prefix`.
pub open spec fn is_host_failure(e: Error, prefix: &str) -> bool {
    e matches Error::Host(m) && starts_with(m@, prefix@)
}

/// A failure to start an already compiled module.
pub open spec fn is_start_failure(e: Error) -> bool {
    ||| is_host_failure(e, WIRE_FAILED)
    ||| is_host_failure(e, INSTANTIATE_FAILED)
    ||| is_host_failure(e, NO_START)
}

/// A host-side failure reading `prefix` and then `detail`.
fn host_error(prefix: &str, detail: String) -> (r: Error)
    ensures
        r matches Error::Host(m) && m@ == prefix@ + detail@,
        is_host_failure(r, prefix),
{
    let mut m = String::from_str(prefix);
    m.append(detail.as_str());
    assert(m@.take(prefix@.len() as int) =~= prefix@);
    Error::Host(m)
}

/// What the end of the guest's `_start` means: status 0 when it returned
/// normally; otherwise the status it passed to `proc_exit` (`exit`), or, when
/// it did neither, a crash described by `details`. Go's wasip1 runtime ends
/// every run through `proc_exit`, success included, so without this a
/// successful run would look like a crash; a clean return is not that
/// runtime's success path, but it is success all the same.
pub fn guest_outcome(returned: bool, exit: Option<i32>, details: String) -> (r: Result<i32, Error>)
    ensures
        r == (if returned {
            Ok::<i32, Error>(0)
        } else {
            match exit {
                Some(code) => Ok::<i32, Error>(code),
                None => Err(Error::Trap(details)),
            }
        }),
{
    if returned {
        return Ok(0);
    }
    match exit {
        Some(code) => Ok(code),
        None => Err(Error::Trap(details)),
    }
}

/// Decompresses the vendored module.
pub fn decompress(compressed: &[u8]) -> (r: Result<Vec<u8>, Error>)
    ensures
        r is Ok <==> zstd_decoded(compressed@) is Some,
        r matches Ok(v) ==> Some(v@) == zstd_decoded(compressed@),
        r matches Err(e) ==> is_host_failure(e, DECOMPRESS_FAILED),
{
    match zstd_decode_all(compressed) {
        Ok(v) => Ok(v),
        Err(e) => Err(host_error(DECOMPRESS_FAILED, io_error_text(&e))),
    }
}

/// The engine every module is compiled and run with: the default
/// configuration, without wasm backtrace details in traps.
pub fn new_engine() -> (r: Result<Engine, Error>)
    ensures
        r matches Ok(e) ==> engine_backtrace_details_disabled(e),
        r matches Err(e) ==> is_host_failure(e, ENGINE_FAILED),
{
    let mut config = config_new();
    config_disable_backtrace_details(&mut config);
    match engine_new(&config) {
        Ok(engine) => Ok(engine),
        Err(e) => Err(host_error(ENGINE_FAILED, wasmtime_error_text(&e))),
    }
}

/// Compiles raw wasm bytes.
pub fn compile(engine: &Engine, wasm: &[u8]) -> (r: Result<Module, Error>)
    ensures
        r matches Ok(m) ==> module_wasm(m) == wasm@,
        r matches Err(e) ==> is_host_failure(e, LOAD_FAILED),
{
    match module_new(engine, wasm) {
        Ok(module) => Ok(module),
        Err(e) => Err(host_error(LOAD_FAILED, wasmtime_error_text(&e))),
    }
}

/// A module ready to run, and whether it was compiled just now (and so is
/// worth caching).
pub struct Loaded {
    /// The compiled module.
    pub module: Module,
    /// Whether the module was compiled here rather than taken from the cache.
    pub compiled: bool,
}

/// Where a module to run comes from: an artifact the cache held, or wasm
/// bytes still to be compiled.
pub enum ModuleSource {
    /// A previously compiled artifact.
    Cached(Module),
    /// The decompressed wasm, to be compiled.
    Compile(Vec<u8>),
}

/// Decides where the vendored module comes from, preferring a previously
/// compiled artifact.
///
/// `artifact` is what the cache held, if it could be read at all: every
/// failure on the cache path falls back to compiling, so a cache that cannot
/// be read is never the reason the command fails. Only then is the module
/// decompressed, so a warm run never pays for bytes it does not look at.
pub fn module_source(compressed: &[u8], artifact: Option<Module>) -> (r: Result<ModuleSource, Error>)
    ensures
        artifact matches Some(m) ==> r == Ok::<ModuleSource, Error>(ModuleSource::Cached(m)),
        artifact is None ==> {
            &&& r is Ok <==> zstd_decoded(compressed@) is Some
            &&& r matches Ok(ModuleSource::Compile(w)) ==> Some(w@) == zstd_decoded(compressed@)
            &&& r matches Ok(source) ==> source is Compile
            &&& r matches Err(e) ==> is_host_failure(e, DECOMPRESS_FAILED)
        },
{
    match artifact {
        Some(module) => Ok(ModuleSource::Cached(module)),
        None => match decompress(compressed) {
            Ok(wasm) => Ok(ModuleSource::Compile(wasm)),
            Err(e) => Err(e),
        },
    }
}

/// Loads the vendored module as [`module_source`] decides: the cached
/// artifact as it is, or the decompressed bytes compiled now.
pub fn load(engine: &Engine, compressed: &[u8], artifact: Option<Module>) -> (r: Result<
    Loaded,
    Error,
>)
    ensures
        artifact matches Some(m) ==> (r matches Ok(l) && l.module == m && !l.compiled),
        artifact is None ==> {
            &&& zstd_decoded(compressed@) is None ==> (r matches Err(e) && is_host_failure(
                e,
                DECOMPRESS_FAILED,
            ))
            &&& zstd_decoded(compressed@) is Some ==> !(r matches Err(e) && is_host_failure(
                e,
                DECOMPRESS_FAILED,
            ))
            &&& r matches Ok(l) ==> l.compiled && Some(module_wasm(l.module)) == zstd_decoded(
                compressed@,
            )
            &&& r matches Err(e) ==> is_host_failure(e, DECOMPRESS_FAILED) || is_host_failure(
                e,
                LOAD_FAILED,
            )
        },
{
    match module_source(compressed, artifact) {
        Ok(ModuleSource::Cached(module)) => Ok(Loaded { module, compiled: false }),
        Ok(ModuleSource::Compile(wasm)) => match compile(engine, wasm.as_slice()) {
            Ok(module) => Ok(Loaded { module, compiled: true }),
            Err(e) => {
                proof {
                    reveal_strlit("cannot decompress the rest engine: ");
                    reveal_strlit("cannot load the rest engine: ");
                    let m = e->Host_0;
                    assert(m@[7] == m@.take(LOAD_FAILED@.len() as int)[7]);
                    if starts_with(m@, DECOMPRESS_FAILED@) {
                        assert(m@[7] == m@.take(DECOMPRESS_FAILED@.len() as int)[7]);
                    }
                }
                Err(e)
            },
        },
        Err(e) => Err(e),
    }
}

/// A WASI context configured from `plan`: argv and environment exactly as
/// planned, the host's standard streams, and the one preopen, read-write.
/// Fails only when the preopened host directory cannot be opened.
fn configure(plan: &Plan) -> (r: Result<WasiCtxBuilder, Error>)
    ensures
        r matches Ok(b) ==> {
            &&& wasi_builder_arguments(b) == string_views(plan.argv@)
            &&& wasi_builder_environment(b) == pair_views(plan.env@)
            &&& wasi_builder_preopens(b) == seq![(plan.preopen.0@, plan.preopen.1@, true)]
            &&& !wasi_builder_built(b)
        },
        r matches Err(e) ==> is_host_failure(e, OPEN_FAILED),
{
    let mut builder = wasi_builder_new();
    wasi_builder_args(&mut builder, plan.argv.as_slice());
    assert(Seq::<Seq<char>>::empty() + plan.argv@.map_values(|a: String| a@) =~= string_views(
        plan.argv@,
    ));
    let mut i: usize = 0;
    while i < plan.env.len()
        invariant
            i <= plan.env@.len(),
            wasi_builder_arguments(builder) == string_views(plan.argv@),
            wasi_builder_environment(builder) == pair_views(plan.env@.take(i as int)),
            wasi_builder_preopens(builder) == Seq::<(Seq<char>, Seq<char>, bool)>::empty(),
            !wasi_builder_built(builder),
        decreases plan.env@.len() - i,
    {
        let (key, value) = &plan.env[i];
        wasi_builder_env(&mut builder, key.as_str(), value.as_str());
        assert(pair_views(plan.env@.take(i + 1)) =~= pair_views(plan.env@.take(i as int)).push(
            (key@, value@),
        ));
        i = i + 1;
    }
    assert(plan.env@.take(plan.env@.len() as int) =~= plan.env@);
    wasi_builder_inherit_stdio(&mut builder);
    // Read-write: `-w` rewrites in place and `spec bundle <in> <out>` writes
    // a new file.
    match wasi_builder_preopened_dir(&mut builder, plan.preopen.0.as_str(), plan.preopen.1.as_str()) {
        Ok(()) => {
            assert(Seq::<(Seq<char>, Seq<char>, bool)>::empty().push(
                (plan.preopen.0@, plan.preopen.1@, true),
            ) =~= seq![(plan.preopen.0@, plan.preopen.1@, true)]);
            Ok(builder)
        },
        Err(e) => {
            let mut detail = plan.preopen.0.clone();
            detail.append(": ");
            detail.append(wasmtime_error_text(&e).as_str());
            Err(host_error(OPEN_FAILED, detail))
        },
    }
}

/// The WASI context the guest runs in, for the user's arguments `args` and
/// the host's state `host`, as [`plan`] lays it out: argv is `openapi`
/// followed by `args`, the environment is the host's UTF-8 variables other
/// than `PWD` followed by `PWD` set to the host's working directory, and the
/// host's `/` is preopened as the guest's `/`, read-write (so `-w` can rewrite
/// in place and `spec bundle` can write a new file). Fails only when that
/// directory cannot be opened.
pub fn guest_context(args: &[String], host: &Host) -> (r: Result<WasiCtxBuilder, Error>)
    ensures
        r matches Ok(b) ==> {
            &&& wasi_builder_arguments(b) == seq![ARGV0@] + string_views(args@)
            &&& wasi_builder_environment(b) == spec_plan_env(host.vars@, host.cwd@)
            &&& wasi_builder_preopens(b) == seq![("/"@, "/"@, true)]
            &&& !wasi_builder_built(b)
        },
        r matches Err(e) ==> is_host_failure(e, OPEN_FAILED),
{
    let plan = plan(args, host.cwd.as_str(), host.vars.as_slice());
    configure(&plan)
}

/// The error a failure to start the guest is reported as.
fn start_error(failure: StartFailure) -> (r: Error)
    ensures
        match failure {
            StartFailure::Wiring(t) => r matches Error::Host(m) && m@ == WIRE_FAILED@ + t@,
            StartFailure::Instantiation(t) => r matches Error::Host(m) && m@ == INSTANTIATE_FAILED@
                + t@,
            StartFailure::NoEntry(t) => r matches Error::Host(m) && m@ == NO_START@ + t@,
        },
        is_start_failure(r),
{
    match failure {
        StartFailure::Wiring(t) => host_error(WIRE_FAILED, t),
        StartFailure::Instantiation(t) => host_error(INSTANTIATE_FAILED, t),
        StartFailure::NoEntry(t) => host_error(NO_START, t),
    }
}

/// The guest as [`start`] sets it up: instantiated from the module compiled
/// from `wasm`, with argv `openapi` followed by `args`, the environment
/// [`spec_plan_env`] lays out for `host`, the host's `/` preopened read-write
/// as the guest's `/`, and entered by `_start`.
pub open spec fn started_as_planned(s: Started, wasm: Seq<u8>, args: Seq<String>, host: Host) -> bool {
    &&& started_wasm(s) == wasm
    &&& started_arguments(s) == seq![ARGV0@] + string_views(args)
    &&& started_environment(s) == spec_plan_env(host.vars@, host.cwd@)
    &&& started_preopens(s) == seq![("/"@, "/"@, true)]
    &&& started_entry(s) == "_start"@
}

/// `r` is what the end `end` of the guest's entry function means, as
/// [`guest_outcome`] reads it.
pub open spec fn reads_as(r: Result<i32, Error>, end: (bool, Option<i32>, Seq<char>)) -> bool {
    if end.0 {
        r == Ok::<i32, Error>(0)
    } else {
        match end.1 {
            Some(code) => r == Ok::<i32, Error>(code),
            None => r matches Err(Error::Trap(d)) && d@ == end.2,
        }
    }
}

/// `r` is the outcome of a run of the module compiled from `wasm`: a guest
/// started as planned for `args` and `host` was entered, and `r` is what its
/// end means.
pub open spec fn ran(r: Result<i32, Error>, wasm: Seq<u8>, args: Seq<String>, host: Host) -> bool {
    exists|s: Started|
        #![trigger guest_end(s)]
        {
            &&& started_as_planned(s, wasm, args, host)
            &&& guest_end(s) matches Some(end) && reads_as(r, end)
        }
}

/// A guest that ends through `proc_exit` with status `code` yields
/// `Ok(code)` for every status, 0 (Go's wasip1 success path) included; one
/// that returns normally yields `Ok(0)`; only an end that is neither is a
/// crash, carrying the error's text.
pub proof fn lemma_guest_end_meaning(r: Result<i32, Error>, end: (bool, Option<i32>, Seq<char>))
    requires
        reads_as(r, end),
    ensures
        end.0 ==> r == Ok::<i32, Error>(0),
        !end.0 && end.1 is Some ==> r == Ok::<i32, Error>(end.1->0),
        !end.0 && end.1 is None ==> (r matches Err(Error::Trap(d)) && d@ == end.2),
        r is Ok || r matches Err(Error::Trap(_)),
{
}

/// The outcome of a run is never a host-side error: it is an exit status, or
/// a crash.
pub proof fn lemma_run_outcome(r: Result<i32, Error>, wasm: Seq<u8>, args: Seq<String>, host: Host)
    requires
        ran(r, wasm, args, host),
    ensures
        r is Ok || r matches Err(Error::Trap(_)),
{
    let s = choose|s: Started|
        #![trigger guest_end(s)]
        {
            &&& started_as_planned(s, wasm, args, host)
            &&& guest_end(s) matches Some(end) && reads_as(r, end)
        };
    lemma_guest_end_meaning(r, guest_end(s)->0);
}

/// Sets up the guest for the user's arguments `args` and the host's state
/// `host`: the WASI context [`guest_context`] builds, the module
/// instantiated in a store that owns that context with the WASI imports
/// defined, and its `_start` looked up. Whether instantiation and the lookup
/// succeed is wasmtime's to decide; a failure names the step that failed.
pub fn start(module: &Module, args: &[String], host: &Host) -> (r: Result<Started, Error>)
    ensures
        r matches Ok(s) ==> {
            &&& started_as_planned(s, module_wasm(*module), args@, *host)
            &&& guest_end(s) is None
        },
        r matches Err(e) ==> is_host_failure(e, OPEN_FAILED) || is_start_failure(e),
{
    let context = match guest_context(args, host) {
        Ok(context) => context,
        Err(e) => {
            return Err(e);
        },
    };
    let ctx = wasi_builder_build_p1(context);
    match start_guest(module, ctx, "_start") {
        Ok(started) => Ok(started),
        Err(failure) => Err(start_error(failure)),
    }
}

/// Enters a started guest and returns its exit status: anything the host
/// buffered on its standard streams is flushed first, so that it lands before
/// the guest writes to the same descriptors; then the guest's function runs,
/// and its end means what [`guest_outcome`] says. A non-zero status is
/// `Ok(code)`, not an error: the guest has already printed its own
/// diagnostics.
pub fn enter(started: &mut Started) -> (r: Result<i32, Error>)
    ensures
        same_guest(*final(started), *old(started)),
        guest_end(*final(started)) matches Some(end) && reads_as(r, end),
        guest_end(*final(started)) matches Some((returned, exit, details)) ==> {
            &&& returned ==> r == Ok::<i32, Error>(0)
            &&& !returned ==> (exit matches Some(code) ==> r == Ok::<i32, Error>(code))
            &&& !returned ==> (exit is None ==> (r matches Err(Error::Trap(d)) && d@ == details))
        },
{
    flush_stdout();
    flush_stderr();
    let (returned, exit, details) = call_guest(started);
    guest_outcome(returned, exit, details)
}

/// Runs a compiled WASI command module for the user's arguments `args` and
/// the host's state `host`: [`start`], then [`enter`]. A host-side error
/// names the step that failed; otherwise the result is what the end of the
/// guest's `_start` means, in a guest started as planned.
pub fn run_module(module: &Module, args: &[String], host: &Host) -> (r: Result<i32, Error>)
    ensures
        ({
            ||| r matches Err(e) && (is_host_failure(e, OPEN_FAILED) || is_start_failure(e))
            ||| ran(r, module_wasm(*module), args@, *host)
        }),
{
    let mut started = match start(module, args, host) {
        Ok(started) => started,
        Err(e) => {
            return Err(e);
        },
    };
    let r = enter(&mut started);
    assert(guest_end(started) is Some);
    r
}

/// Runs an arbitrary wasip1 command module, given as raw wasm, under the same
/// host wiring as the embedded one, compiling it every time: a new engine,
/// `wasm` compiled on it, and [`run_module`]. The host wiring (argv injection,
/// WASI linking, exit-status extraction) can so be exercised with a ten-line
/// module.
pub fn run_wasm(wasm: &[u8], args: &[String], host: &Host) -> (r: Result<i32, Error>)
    ensures
        ({
            ||| r matches Err(e) && (is_host_failure(e, ENGINE_FAILED) || is_host_failure(
                e,
                LOAD_FAILED,
            ) || is_host_failure(e, OPEN_FAILED) || is_start_failure(e))
            ||| ran(r, wasm@, args@, *host)
        }),
{
    let engine = match new_engine() {
        Ok(engine) => engine,
        Err(e) => {
            return Err(e);
        },
    };
    let module = match compile(&engine, wasm) {
        Ok(module) => module,
        Err(e) => {
            return Err(e);
        },
    };
    run_module(&module, args, host)
}

} // verus!
