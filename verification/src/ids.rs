//! Random identifiers.
use vstd::prelude::*;

verus! {

/// `c` is a digit or one of the small letters `a` to `f`.
pub open spec fn is_lower_hex(c: char) -> bool {
    ('0' <= c && c <= '9') || ('a' <= c && c <= 'f')
}

/// `s` has the hyphenated form of a random (version 4) UUID: 36 characters, dashes at
/// positions 8, 13, 18 and 23, small hexadecimal digits elsewhere, the version digit
/// `4` at position 14 and one of `8`, `9`, `a`, `b` at position 19.
pub open spec fn is_uuid_text(s: Seq<char>) -> bool {
    &&& s.len() == 36
    &&& forall|i: int|
        0 <= i < 36 ==> if i == 8 || i == 13 || i == 18 || i == 23 {
            #[trigger] s[i] == '-'
        } else {
            is_lower_hex(s[i])
        }
    &&& s[14] == '4'
    &&& (s[19] == '8' || s[19] == '9' || s[19] == 'a' || s[19] == 'b')
}

/// `uuid::Uuid::new_v4()` in its text form. The value is random; the contract states
/// its form, as the crate writes it: `Display` goes through `LowerHex` to the
/// hyphenated form, and `new_v4` sets the version and variant bits.
#[verifier::external_body]
pub(crate) fn new_uuid_text() -> (r: String)
    ensures
        is_uuid_text(r@),
{
    uuid::Uuid::new_v4().to_string()
}

} // verus!
