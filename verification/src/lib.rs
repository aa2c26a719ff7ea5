//! Verified core of the `api rest` engine, which runs the embedded OpenAPI CLI
//! (a WASI command module) with the caller's arguments, together with the
//! JavaScript-runtime helpers that the converters share.

pub mod cache;
pub mod custom;
pub mod engine;
pub mod json;
pub mod jsrt;
pub mod run;
pub mod text;
pub mod wasi;

use vstd::prelude::*;

verus! {

/// A host-side failure. Guest-side failures are not errors here: the guest
/// prints its own diagnostics and exits, and that status comes back as `Ok`.
#[derive(Debug, Clone, PartialEq, Eq)]
pub enum Error {
    /// The module could not be decompressed, compiled or instantiated.
    Host(String),
    /// The guest trapped: a genuine crash, not an exit.
    Trap(String),
}

/// What an error reads as when it is shown to the user.
pub open spec fn spec_error_message(e: Error) -> Seq<char> {
    match e {
        Error::Host(m) => m@,
        Error::Trap(m) => "the rest engine crashed: "@ + m@,
    }
}

impl Error {
    /// The error as it is shown to the user.
    pub fn message(&self) -> (r: String)
        ensures
            r@ == spec_error_message(*self),
    {
        match self {
            Error::Host(m) => m.clone(),
            Error::Trap(m) => {
                let mut out = String::from_str("the rest engine crashed: ");
                out.append(m.as_str());
                out
            },
        }
    }
}

/// The vendored module's version string, for diagnostics: the text of the
/// version file that travels with the module, without surrounding white space.
pub fn module_version(version_file: &str) -> (r: &str)
    ensures
        text::is_trim_of(r@, version_file@),
{
    text::trim(version_file)
}

} // verus!
