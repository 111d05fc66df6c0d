//! Sources of fresh identifiers and randomness.

use vstd::prelude::*;

verus! {

/// Whether `s` is a uuid in hyphenated lower-case form:
/// `xxxxxxxx-xxxx-xxxx-xxxx-xxxxxxxxxxxx` with lower-case hex digits.
pub open spec fn is_hyphenated_uuid(s: Seq<char>) -> bool {
    &&& s.len() == 36
    &&& forall|i: int|
        0 <= i < 36 ==> if i == 8 || i == 13 || i == 18 || i == 23 {
            #[trigger] s[i] == '-'
        } else {
            ('0' <= s[i] && s[i] <= '9') || ('a' <= s[i] && s[i] <= 'f')
        }
}

/// A fresh random id: calls `uuid::Uuid::new_v4()` and formats it with
/// `Display`, which writes the hyphenated lower-case form. Which id comes
/// out is not stated; two calls may differ.
#[verifier::external_body]
pub(crate) fn new_id() -> (id: String)
    ensures
        is_hyphenated_uuid(id@),
{
    uuid::Uuid::new_v4().to_string()
}

/// Sixteen random bytes from `rand::thread_rng().fill_bytes`. Nothing is
/// claimed of their values.
#[verifier::external_body]
pub(crate) fn random_bytes() -> (b: [u8; 16]) {
    let mut bytes = [0u8; 16];
    rand::RngCore::fill_bytes(&mut rand::thread_rng(), &mut bytes);
    bytes
}

} // verus!
