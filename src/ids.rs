//! Fresh identifiers for messages and tool calls.
use vstd::prelude::*;
use uuid::Uuid;

verus! {

pub open spec fn is_lower_hex(c: char) -> bool {
    ('0' <= c && c <= '9') || ('a' <= c && c <= 'f')
}

pub open spec fn all_lower_hex(s: Seq<char>) -> bool {
    forall|i: int| 0 <= i < s.len() ==> #[trigger] is_lower_hex(s[i])
}

/// How many hex digits an identifier carries after its prefix.
pub const ID_HEX_LENGTH: usize = 24;

/// Relies on uuid::Uuid::new_v4 and the `Display` of its `simple` form: a random
/// UUID written as 32 lowercase hex digits.
#[verifier::external_body]
fn random_hex() -> (r: String)
    ensures
        r@.len() == 32,
        all_lower_hex(r@),
{
    Uuid::new_v4().simple().to_string()
}

/// `prefix` followed by the first 24 digits of `hex`.
pub open spec fn id_from(prefix: Seq<char>, hex: Seq<char>) -> Seq<char> {
    prefix + hex.subrange(0, ID_HEX_LENGTH as int)
}

/// An identifier made of `prefix` and the first 24 characters of `hex`.
pub fn id_with_prefix(prefix: &str, hex: &str) -> (r: String)
    requires
        hex@.len() >= ID_HEX_LENGTH,
    ensures
        r@ == id_from(prefix@, hex@),
{
    String::from_str(prefix).concat(hex.substring_char(0, ID_HEX_LENGTH))
}

/// A fresh identifier: `prefix` and 24 random lowercase hex digits.
pub fn fresh_id(prefix: &str) -> (r: String)
    ensures
        r@.len() == prefix@.len() + ID_HEX_LENGTH,
        r@.subrange(0, prefix@.len() as int) == prefix@,
        all_lower_hex(r@.subrange(prefix@.len() as int, r@.len() as int)),
{
    let hex = random_hex();
    let r = id_with_prefix(prefix, hex.as_str());
    assert(r@.subrange(0, prefix@.len() as int) =~= prefix@);
    assert(r@.subrange(prefix@.len() as int, r@.len() as int) =~= hex@.subrange(0, ID_HEX_LENGTH as int));
    r
}

} // verus!
