//! What may stand in an HTTP request: the method, the names and values of
//! headers, and the target.
//!
//! These questions are put to `hyper`. The contracts below are believed, not
//! proved: each gives the answer a name, as a function of the texts asked
//! about.

use hyper::header::{HeaderName, HeaderValue};
use hyper::{Method, Uri};
use vstd::prelude::*;

verus! {

/// Whether `token` is accepted as an HTTP method.
pub uninterp spec fn method_accepted(token: Seq<char>) -> bool;

/// Whether `name` is accepted as the name of a header.
pub uninterp spec fn header_name_accepted(name: Seq<char>) -> bool;

/// Whether `c` may stand in the value of a header: a tab, or a character
/// that is no control character.
pub open spec fn value_char(c: char) -> bool {
    c == '\t' || (c as u32 >= 0x20 && c as u32 != 0x7F)
}

/// Whether `value` is accepted as the value of a header: every character
/// of it may stand there.
pub open spec fn header_value_accepted(value: Seq<char>) -> bool {
    forall|i: int| 0 <= i < value.len() ==> value_char(#[trigger] value[i])
}

/// Whether `scheme`, `authority` and `path` together are accepted as a
/// request target.
pub uninterp spec fn target_accepted(
    scheme: Seq<char>,
    authority: Seq<char>,
    path: Seq<char>,
) -> bool;

/// Calls `Method::from_bytes` and reports whether it accepted the token.
#[verifier::external_body]
pub(crate) fn method_ok(token: &str) -> (ok: bool)
    ensures
        ok == method_accepted(token@),
{
    Method::from_bytes(token.as_bytes()).is_ok()
}

/// Calls `HeaderName::from_bytes` and reports whether it accepted the name.
#[verifier::external_body]
pub(crate) fn header_name_ok(name: &str) -> (ok: bool)
    ensures
        ok == header_name_accepted(name@),
{
    HeaderName::from_bytes(name.as_bytes()).is_ok()
}

/// Calls `HeaderValue::from_bytes` and reports whether it accepted the
/// value. That function refuses a value if and only if it holds a byte below
/// 32 that is no tab, or the byte 127. In a text those are the control
/// characters of ASCII, each a byte of its own; every other character is
/// made of bytes from 32 on that are not 127.
#[verifier::external_body]
pub(crate) fn header_value_ok(value: &str) -> (ok: bool)
    ensures
        ok == header_value_accepted(value@),
{
    HeaderValue::from_bytes(value.as_bytes()).is_ok()
}

/// Builds a `Uri` of the three parts through `Uri::builder` and reports
/// whether the build succeeded.
#[verifier::external_body]
pub(crate) fn target_ok(scheme: &str, authority: &str, path: &str) -> (ok: bool)
    ensures
        ok == target_accepted(scheme@, authority@, path@),
{
    Uri::builder().scheme(scheme).authority(authority).path_and_query(path).build().is_ok()
}

/// A value that holds a line feed or a carriage return is not accepted, so
/// that no value can begin a further header line.
pub proof fn lemma_line_break_refused(value: Seq<char>, i: int)
    requires
        0 <= i < value.len(),
        value[i] == '\n' || value[i] == '\r',
    ensures
        !header_value_accepted(value),
{
    assert(!value_char(value[i]));
}

} // verus!
