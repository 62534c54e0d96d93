//! Session GUIDs: the unique identifier naming a bus session.
//!
//! A GUID is carried inside the bus address (`guid=` key) and shared with the
//! authentication step of every connection. Its textual form is exactly 32
//! hexadecimal digits.

use vstd::prelude::*;

verus! {

/// A character usable inside a session GUID: an ASCII hexadecimal digit.
pub open spec fn is_hex_digit(c: char) -> bool {
    ('0' <= c && c <= '9') || ('a' <= c && c <= 'f') || ('A' <= c && c <= 'F')
}

/// A well-formed session GUID: exactly 32 hexadecimal digits.
pub open spec fn valid_guid(s: Seq<char>) -> bool {
    s.len() == 32 && forall|i: int| 0 <= i < s.len() ==> is_hex_digit(#[trigger] s[i])
}

/// Decides whether a string is a well-formed session GUID.
pub fn check_guid(s: &str) -> (r: bool)
    ensures
        r == valid_guid(s@),
{
    let len = s.unicode_len();
    if len != 32 {
        return false;
    }
    let mut i: usize = 0;
    while i < 32
        invariant
            len == s@.len(),
            len == 32,
            0 <= i <= 32,
            forall|j: int| 0 <= j < i ==> is_hex_digit(#[trigger] s@[j]),
        decreases 32 - i,
    {
        let c = s.get_char(i);
        if !(('0' <= c && c <= '9') || ('a' <= c && c <= 'f') || ('A' <= c && c <= 'F')) {
            return false;
        }
        i += 1;
    }
    true
}

/// Relies on `zbus::Guid::generate`: a freshly generated GUID renders as the
/// simple textual form of a version-4 UUID, i.e. exactly 32 hexadecimal
/// digits. Which digits come out depends on the random generator, so nothing
/// more is claimed.
#[verifier::external_body]
pub(crate) fn fresh_guid() -> (r: String)
    ensures
        valid_guid(r@),
{
    zbus::Guid::generate().as_str().to_owned()
}

} // verus!
