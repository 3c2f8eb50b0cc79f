//! UTF-8 decoding at the engine's text boundaries.
//!
//! Attribute values and merged message bodies arrive as raw bytes; they
//! become `String`s exactly when they are valid UTF-8.  The two wrappers
//! below are specified against vstd's UTF-8 model, `valid_utf8` and
//! `decode_utf8`.

use vstd::prelude::*;
use vstd::utf8::decode_utf8;
use vstd::utf8::valid_utf8;

verus! {

/// An optional string, read at the view level.
pub open spec fn opt_str_view(o: Option<String>) -> Option<Seq<char>> {
    match o {
        Some(s) => Some(s@),
        None => None,
    }
}

/// Relies on `core::str::from_utf8`: it succeeds exactly on valid UTF-8.
#[verifier::external_body]
pub(crate) fn utf8_is_valid(v: &[u8]) -> (r: bool)
    ensures
        r == valid_utf8(v@),
{
    core::str::from_utf8(v).is_ok()
}

/// Relies on `String::from_utf8`: on valid UTF-8 it returns the decoded
/// string.  The fallback arm is unreachable under the precondition.
#[verifier::external_body]
pub(crate) fn utf8_to_string(v: Vec<u8>) -> (r: String)
    requires
        valid_utf8(v@),
    ensures
        r@ == decode_utf8(v@),
{
    match String::from_utf8(v) {
        Ok(s) => s,
        Err(_) => String::new(),
    }
}

} // verus!
