//! Fresh identifiers.

use vstd::prelude::*;

verus! {

/// A lower-case hexadecimal digit.
pub open spec fn is_hex_lower(c: char) -> bool {
    (48 <= (c as u32) <= 57) || (97 <= (c as u32) <= 102)
}

/// The hyphenated form of a UUID: 36 characters, hyphens at 8, 13, 18 and 23,
/// lower-case hexadecimal digits elsewhere.
pub open spec fn uuid_text(s: Seq<char>) -> bool {
    s.len() == 36 && forall|i: int|
        0 <= i < 36 ==> if i == 8 || i == 13 || i == 18 || i == 23 {
            #[trigger] s[i] == '-'
        } else {
            is_hex_lower(s[i])
        }
}

/// A version-4, RFC 4122 variant UUID in its text: the hyphenated form, with the
/// version digit `4` at 14 and a variant digit `8`, `9`, `a` or `b` at 19.
pub open spec fn uuid_v4_text(s: Seq<char>) -> bool {
    &&& uuid_text(s)
    &&& s[14] == '4'
    &&& (s[19] == '8' || s[19] == '9' || s[19] == 'a' || s[19] == 'b')
}

/// A random version-4 UUID in its hyphenated text (`uuid::Uuid::new_v4`, shown
/// with `Display`). Claimed: the text has the hyphenated lower-case form, as the
/// crate documents for `Display`, and carries the version and variant digits that
/// `new_v4` sets by its mask. Not claimed: which UUID (it is random).
#[verifier::external_body]
pub(crate) fn new_uuid() -> (s: String)
    ensures
        uuid_v4_text(s@),
{
    uuid::Uuid::new_v4().to_string()
}

} // verus!
