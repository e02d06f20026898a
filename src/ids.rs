//! Fresh identifiers for newly declared hierarchy nodes.
use vstd::prelude::*;

verus! {

pub open spec fn is_upper_hex(c: char) -> bool {
    ('0' <= c && c <= '9') || ('A' <= c && c <= 'F')
}

/// The hyphenated upper-case form of a UUID: 8-4-4-4-12 hex digits.
pub open spec fn is_identifier(s: Seq<char>) -> bool {
    &&& s.len() == 36
    &&& forall|i: int|
        0 <= i < 36 ==> if i == 8 || i == 13 || i == 18 || i == 23 {
            s[i] == '-'
        } else {
            is_upper_hex(s[i])
        }
}

/// Relies on `uuid::Uuid::new_v4` for a random UUID and on its `UpperHex`
/// formatting, which writes the hyphenated form with upper-case digits.
#[verifier::external_body]
pub(crate) fn new_identifier() -> (r: String)
    ensures
        is_identifier(r@),
{
    format!("{:X}", uuid::Uuid::new_v4())
}

} // verus!
