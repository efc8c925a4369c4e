//! Random identifiers.
use uuid::Uuid;
use vstd::prelude::*;

verus! {

/// Whether `c` is a digit in lower-case hexadecimal.
pub open spec fn is_lower_hex(c: char) -> bool {
    '0' <= c <= '9' || 'a' <= c <= 'f'
}

/// Whether a text has the form of a UUID: 36 characters, hyphens after the 8th,
/// 12th, 16th and 20th digit, and lower-case hexadecimal digits.
pub open spec fn is_uuid_text(s: Seq<char>) -> bool {
    &&& s.len() == 36
    &&& forall|i: int|
        0 <= i < 36 ==> if i == 8 || i == 13 || i == 18 || i == 23 {
            #[trigger] s[i] == '-'
        } else {
            is_lower_hex(s[i])
        }
}

/// Calls `Uuid::new_v4`, which makes a random UUID, and writes it out. Which one
/// it is rests on chance; its form does not.
#[verifier::external_body]
pub(crate) fn random_uuid() -> (r: String)
    ensures
        is_uuid_text(r@),
{
    Uuid::new_v4().to_string()
}

} // verus!
