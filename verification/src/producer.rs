//! The two producers: the periodic ticker's beat, and the on-demand
//! producer that publishes the captured output of an external command.
//!
//! Running the external process and sleeping between ticks are the driver's
//! work; the logic here — what is published, and when a failure is reported
//! instead — is verified.

use crate::hub::Hub;
use crate::hub::publish_one;
use vstd::prelude::*;
use vstd::string::StringExecFns;

verus! {

/// Why an on-demand command run published nothing.
#[derive(Clone, Copy, Debug, PartialEq, Eq)]
pub enum CmdError {
    /// The external process could not be started.
    LaunchFailed,
    /// The external process finished with a failure status.
    ExitFailure,
    /// The captured output was not valid text.
    InvalidOutput,
}

/// Whether a byte sequence is valid UTF-8; a function of the bytes alone.
pub uninterp spec fn is_utf8(bytes: Seq<u8>) -> bool;

/// The characters that decoding a valid UTF-8 byte sequence yields; a
/// function of the bytes alone.
pub uninterp spec fn utf8_chars(bytes: Seq<u8>) -> Seq<char>;

/// Relies on String::from_utf8: succeeds exactly on valid UTF-8 input, and
/// the decoded characters are a function of the bytes alone.
#[verifier::external_body]
fn decode_utf8(bytes: Vec<u8>) -> (r: Option<String>)
    ensures
        r is Some <==> is_utf8(bytes@),
        r matches Some(s) ==> s@ == utf8_chars(bytes@),
{
    String::from_utf8(bytes).ok()
}

/// The fixed, pre-declared external command the on-demand producer runs:
/// its program and its single argument. It is never parameterized by
/// request input.
pub fn on_demand_command() -> (r: (String, String))
    ensures
        r.0@ == "echo"@,
        r.1@ == "hello"@,
{
    (String::from_str("echo"), String::from_str("hello"))
}

/// The payload the periodic ticker publishes on every beat.
pub fn ticker_payload() -> (r: String)
    ensures
        r@ == "1"@,
{
    String::from_str("1")
}

/// One beat of the periodic ticker: publish the fixed payload to every
/// registered subscriber. Never fails — a hub with zero subscribers is a
/// defined no-op — so the ticker never stops on a beat.
pub fn tick(hub: &mut Hub)
    requires
        old(hub).wf(),
    ensures
        final(hub).wf(),
        final(hub)@ == publish_one(old(hub)@, old(hub).capacity as nat, "1"@),
        final(hub).capacity == old(hub).capacity,
        final(hub).next_id == old(hub).next_id,
{
    let payload = ticker_payload();
    hub.publish(&payload);
}

/// The on-demand producer's publishing step: given the outcome of running
/// the external command — its captured standard output, or how the run
/// failed — publish the decoded output as one event, or report the failure
/// to the caller and publish nothing. Success is owed exactly when the run
/// succeeded and its output is valid text; the hub is never harmed: on any
/// failure it is left exactly as it was.
pub fn publish_command_output(hub: &mut Hub, outcome: Result<Vec<u8>, CmdError>) -> (r: Result<
    (),
    CmdError,
>)
    requires
        old(hub).wf(),
    ensures
        final(hub).wf(),
        final(hub).capacity == old(hub).capacity,
        final(hub).next_id == old(hub).next_id,
        match outcome {
            Ok(bytes) => if is_utf8(bytes@) {
                r is Ok && final(hub)@ == publish_one(
                    old(hub)@,
                    old(hub).capacity as nat,
                    utf8_chars(bytes@),
                )
            } else {
                r == Err::<(), CmdError>(CmdError::InvalidOutput) && final(hub)@ == old(hub)@
            },
            Err(e0) => r == Err::<(), CmdError>(e0) && final(hub)@ == old(hub)@,
        },
{
    match outcome {
        Ok(bytes) => match decode_utf8(bytes) {
            Some(text) => {
                hub.publish(&text);
                Ok(())
            },
            None => Err(CmdError::InvalidOutput),
        },
        Err(e) => Err(e),
    }
}

} // verus!
