//! The framework's version, its authors, and the check that an async runtime
//! is there to drive it.

use vstd::prelude::*;
use crate::error::{Result, VibeError};

verus! {

/// The framework's version.
pub const VERSION: &'static str = "0.1.0";

/// The framework's authors (none are listed).
pub const AUTHORS: &'static str = "";

/// The text that [`build_info`] returns.
pub open spec fn build_info_text() -> Seq<char> {
    "Vibe Synapse "@ + VERSION@
}

/// The framework's name and version, for banners and logs.
pub fn build_info() -> (s: String)
    ensures
        s@ == build_info_text(),
{
    let mut s = String::from_str("Vibe Synapse ");
    s.append(VERSION);
    s
}

/// Whether the calling thread runs inside a Tokio runtime, from
/// `tokio::runtime::Handle::try_current`.
///
/// Nothing is stated of the answer: it depends on where the call is made.
#[verifier::external_body]
fn tokio_runtime_present() -> bool {
    tokio::runtime::Handle::try_current().is_ok()
}

/// The message of the error that [`runtime_check`] gives without a runtime.
pub open spec fn missing_runtime_message() -> Seq<char> {
    "No Tokio runtime found. Use #[tokio::main]"@
}

/// What [`runtime_check`] answers, given whether a runtime was found.
pub fn runtime_verdict(present: bool) -> (r: Result<()>)
    ensures
        present <==> r is Ok,
        !present ==> (r matches Err(VibeError::RuntimeError(m)) && m@ == missing_runtime_message()),
{
    if present {
        Ok(())
    } else {
        Err(VibeError::RuntimeError(String::from_str("No Tokio runtime found. Use #[tokio::main]")))
    }
}

/// Succeeds inside a Tokio runtime; outside one, fails with a runtime error
/// that says how to provide one.
pub fn runtime_check() -> (r: Result<()>)
    ensures
        r is Ok || (r matches Err(VibeError::RuntimeError(m)) && m@ == missing_runtime_message()),
{
    runtime_verdict(tokio_runtime_present())
}

} // verus!
