//! Random identifiers.

use vstd::prelude::*;
use crate::digest::is_hex_digit;

verus! {

/// The hyphenated form of a UUID: groups of 8, 4, 4, 4 and 12 lowercase
/// hexadecimal digits.
pub open spec fn is_uuid(s: Seq<char>) -> bool {
    &&& s.len() == 36
    &&& forall|i: int|
        0 <= i < 36 ==> if i == 8 || i == 13 || i == 18 || i == 23 {
            #[trigger] s[i] == '-'
        } else {
            is_hex_digit(s[i])
        }
}

/// `uuid::Uuid::new_v4` in its hyphenated form. The digits are random: only
/// the form is claimed.
#[verifier::external_body]
pub(crate) fn random_uuid() -> (r: String)
    ensures
        is_uuid(r@),
{
    uuid::Uuid::new_v4().to_string()
}

/// A fresh identifier.
pub fn new_id() -> (r: String)
    ensures
        is_uuid(r@),
{
    random_uuid()
}

} // verus!
