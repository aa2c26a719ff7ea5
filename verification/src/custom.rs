//! The hand-owned seam of the `api` CLI: how a failure of `api rest` becomes
//! the process's exit status.
//!
//! The embedded CLI has already printed its own diagnostics by the time it
//! exits, so a non-zero status must become the command's exit status and
//! nothing else. The dispatcher only carries `Ok`/`Err`, so the status travels
//! on [`Error::Invalid`] behind a marker no ordinary message can produce.

use vstd::prelude::*;

use crate::text::{
    chars_eq, chars_of, lemma_parse_format_i32, parse_i32, push_i32, spec_format_i32, spec_parse_i32,
    str_eq, string_views,
};

verus! {

/// A failure of a command, as the command dispatcher reports it.
#[derive(Debug, Clone)]
pub enum Error {
    /// The command was invalid, with its message.
    Invalid(String),
    /// Any other failure, with the text it is shown with.
    Other(String),
}

/// The marker that opens a message carrying a `rest` exit status. It starts
/// with U+0001, which no real message begins with.
pub const REST_EXIT: &'static str = "\u{1}rest-exit:";

/// The characters of [`REST_EXIT`].
pub open spec fn rest_exit_marker() -> Seq<char> {
    seq!['\u{1}', 'r', 'e', 's', 't', '-', 'e', 'x', 'i', 't', ':']
}

/// The status a process reports for `code`: the low eight bits, except that a
/// non-zero code whose low eight bits are zero is reported as a failure (1),
/// never as success.
pub open spec fn spec_exit_byte(code: i32) -> u8 {
    if code as u8 == 0 && code != 0 {
        1
    } else {
        code as u8
    }
}

/// Whether `m` opens with the marker.
pub open spec fn starts_with_marker(m: Seq<char>) -> bool {
    m.len() >= rest_exit_marker().len() && m.take(rest_exit_marker().len() as int)
        == rest_exit_marker()
}

/// The message of an `Invalid` error; `None` for any other error.
pub open spec fn invalid_message(err: Error) -> Option<Seq<char>> {
    match err {
        Error::Invalid(message) => Some(message@),
        Error::Other(_) => None,
    }
}

/// The exit status that an error raised under the command path `cmd_path`
/// carries from `api rest`, given the error's `Invalid` message: present only
/// when the command is `rest` and the message is the marker followed by an
/// `i32`.
pub open spec fn spec_decode_exit(cmd_path: Seq<Seq<char>>, message: Option<Seq<char>>) -> Option<
    u8,
> {
    if cmd_path.len() > 0 && cmd_path[0] == "rest"@ {
        match message {
            Some(m) => {
                if starts_with_marker(m) {
                    match spec_parse_i32(m.skip(rest_exit_marker().len() as int)) {
                        Some(code) => Some(spec_exit_byte(code)),
                        None => None,
                    }
                } else {
                    None
                }
            },
            None => None,
        }
    } else {
        None
    }
}

/// The exit status that `err`, raised under the command path `cmd_path`,
/// carries from `api rest`.
pub open spec fn spec_rest_exit_status(cmd_path: Seq<Seq<char>>, err: Error) -> Option<u8> {
    spec_decode_exit(cmd_path, invalid_message(err))
}

fn exit_byte(code: i32) -> (r: u8)
    ensures
        r == spec_exit_byte(code),
{
    let byte = code as u8;
    if byte == 0 && code != 0 {
        1
    } else {
        byte
    }
}

/// Decodes a `rest` exit status, if that is what this error carries.
pub fn rest_exit_status(cmd_path: &[String], err: &Error) -> (r: Option<u8>)
    ensures
        r == spec_rest_exit_status(string_views(cmd_path@), *err),
{
    proof {
        reveal_strlit("rest");
        reveal_strlit("\u{1}rest-exit:");
    }
    if cmd_path.len() == 0 || !str_eq(cmd_path[0].as_str(), "rest") {
        return None;
    }
    let message = match err {
        Error::Invalid(message) => message,
        Error::Other(_) => {
            return None;
        },
    };
    let m = chars_of(message.as_str());
    let marker = chars_of(REST_EXIT);
    assert(marker@ =~= rest_exit_marker());
    let k = marker.len();
    if m.len() < k {
        return None;
    }
    let head = slice_prefix(m.as_slice(), k);
    if !chars_eq(head.as_slice(), marker.as_slice()) {
        return None;
    }
    let tail = slice_suffix(m.as_slice(), k);
    match parse_i32(tail.as_slice()) {
        Some(code) => Some(exit_byte(code)),
        None => None,
    }
}

fn slice_prefix(s: &[char], k: usize) -> (r: Vec<char>)
    requires
        k <= s@.len(),
    ensures
        r@ == s@.take(k as int),
{
    let mut out: Vec<char> = Vec::new();
    let mut i: usize = 0;
    while i < k
        invariant
            i <= k <= s@.len(),
            out@ == s@.take(i as int),
        decreases k - i,
    {
        out.push(s[i]);
        i = i + 1;
        assert(out@ =~= s@.take(i as int));
    }
    out
}

fn slice_suffix(s: &[char], k: usize) -> (r: Vec<char>)
    requires
        k <= s@.len(),
    ensures
        r@ == s@.skip(k as int),
{
    let mut out: Vec<char> = Vec::new();
    let mut i: usize = k;
    while i < s.len()
        invariant
            k <= i <= s@.len(),
            out@ == s@.subrange(k as int, i as int),
        decreases s@.len() - i,
    {
        out.push(s[i]);
        i = i + 1;
        assert(out@ =~= s@.subrange(k as int, i as int));
    }
    out
}

/// How the CLI ends after a command failed.
#[derive(Debug, Clone, Copy, PartialEq, Eq, Structural)]
pub struct Exit {
    /// Whether the failure is still to be reported (as `error: <message>`).
    pub report: bool,
    /// The process's exit status.
    pub code: u8,
}

/// The CLI's overrides of the generated commands' behaviour.
pub struct Custom;

impl Custom {
    /// How a failed command ends. `api rest` speaks for itself: its exit status
    /// becomes the command's, with no second report on top of the guest's own
    /// diagnostics. Every other failure is reported and ends with status 1.
    pub fn print_error(&self, cmd_path: &[String], err: &Error) -> (r: Exit)
        ensures
            r == (match spec_rest_exit_status(string_views(cmd_path@), *err) {
                Some(code) => Exit { report: false, code },
                None => Exit { report: true, code: 1 },
            }),
    {
        match rest_exit_status(cmd_path, err) {
            Some(code) => Exit { report: false, code },
            None => Exit { report: true, code: 1 },
        }
    }
}

/// The CLI's overrides.
pub fn overrides() -> Custom {
    Custom
}

/// What the dispatcher is told once `api rest` has run: success for exit
/// status 0; for any other status, an `Invalid` error whose message is the
/// marker followed by the status; for a host-side failure, an `Invalid` error
/// reading `rest: ` and the failure's message.
pub open spec fn spec_rest_result(outcome: Result<i32, crate::Error>) -> Result<(), Seq<char>> {
    match outcome {
        Ok(0) => Ok(()),
        Ok(code) => Err(rest_exit_marker() + spec_format_i32(code)),
        Err(e) => Err("rest: "@ + crate::spec_error_message(e)),
    }
}

/// Turns the outcome of `api rest` into what the dispatcher is told, so that
/// a non-zero status reaches [`Custom::print_error`] and becomes the exit
/// status.
pub fn rest_result(outcome: Result<i32, crate::Error>) -> (r: Result<(), Error>)
    ensures
        match (r, spec_rest_result(outcome)) {
            (Ok(()), Ok(())) => true,
            (Err(Error::Invalid(m)), Err(expected)) => m@ == expected,
            _ => false,
        },
{
    proof {
        reveal_strlit("\u{1}rest-exit:");
        reveal_strlit("rest: ");
    }
    match outcome {
        Ok(0) => Ok(()),
        Ok(code) => {
            let mut message = String::from_str(REST_EXIT);
            push_i32(&mut message, code);
            Err(Error::Invalid(message))
        },
        Err(e) => {
            let mut message = String::from_str("rest: ");
            let text = e.message();
            message.append(text.as_str());
            Err(Error::Invalid(message))
        },
    }
}

/// A non-zero exit status of `api rest` survives the trip through the
/// dispatcher's error seam: decoding the error it is turned into gives the
/// status the process reports for it.
pub proof fn lemma_exit_status_round_trip(cmd_path: Seq<Seq<char>>, code: i32)
    requires
        code != 0,
        cmd_path.len() > 0,
        cmd_path[0] == "rest"@,
    ensures
        spec_rest_result(Ok(code)) is Err,
        spec_decode_exit(cmd_path, Some(spec_rest_result(Ok(code))->Err_0)) == Some(
            spec_exit_byte(code),
        ),
{
    let encoded = rest_exit_marker() + spec_format_i32(code);
    assert(encoded.take(rest_exit_marker().len() as int) =~= rest_exit_marker());
    assert(encoded.skip(rest_exit_marker().len() as int) =~= spec_format_i32(code));
    lemma_parse_format_i32(code);
}

/// A host-side failure of `api rest` is never mistaken for an exit status: it
/// is reported like any other failure.
pub proof fn lemma_host_failure_is_reported(cmd_path: Seq<Seq<char>>, e: crate::Error)
    ensures
        spec_rest_result(Err(e)) is Err,
        spec_decode_exit(cmd_path, Some(spec_rest_result(Err(e))->Err_0)) is None,
{
    reveal_strlit("rest: ");
    let m = "rest: "@ + crate::spec_error_message(e);
    assert(m[0] == 'r');
    if m.len() >= rest_exit_marker().len() {
        assert(m.take(rest_exit_marker().len() as int)[0] != rest_exit_marker()[0]);
    }
}

/// A failure is never reported as success: a non-zero code becomes a
/// non-zero status, whatever its low eight bits.
pub proof fn lemma_failure_never_reads_as_success(code: i32)
    ensures
        code != 0 ==> spec_exit_byte(code) != 0,
        code == 0 ==> spec_exit_byte(code) == 0,
{
}

/// Only a `rest` failure whose `Invalid` message opens with the marker carries
/// a status: any other error, or the marker under another command, is left to
/// be reported as usual.
pub proof fn lemma_only_rest_markers_decode(cmd_path: Seq<Seq<char>>, message: Option<Seq<char>>)
    ensures
        spec_decode_exit(cmd_path, message) is Some ==> {
            &&& cmd_path.len() > 0
            &&& cmd_path[0] == "rest"@
            &&& message matches Some(m) && starts_with_marker(m)
        },
{
}


} // verus!
