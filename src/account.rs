//! Account references and the rule that says which are well formed.
use vstd::prelude::*;
use vstd::utf8::encode_utf8;

verus! {

/// An account reference: a name compared by equality.
pub type AccountId = String;

/// `-`, `_` or `.`: the bytes that separate the parts of an account name.
pub open spec fn is_separator_byte(c: u8) -> bool {
    c == 45u8 || c == 95u8 || c == 46u8
}

/// A lower-case ASCII letter or a decimal digit.
pub open spec fn is_alnum_byte(c: u8) -> bool {
    (97u8 <= c && c <= 122u8) || (48u8 <= c && c <= 57u8)
}

/// A well-formed account name: 2 to 64 bytes of lower-case letters, digits and
/// separators, where no separator comes first, last, or right after another.
pub open spec fn valid_account_bytes(b: Seq<u8>) -> bool {
    &&& 2 <= b.len() <= 64
    &&& forall|i: int| 0 <= i < b.len() ==> is_alnum_byte(#[trigger] b[i]) || is_separator_byte(b[i])
    &&& !is_separator_byte(b[0])
    &&& !is_separator_byte(b[b.len() - 1])
    &&& forall|i: int| 0 < i < b.len() ==> !(is_separator_byte(#[trigger] b[i]) && is_separator_byte(b[i - 1]))
}

/// A well-formed account name, given by its characters.
pub open spec fn valid_account(a: Seq<char>) -> bool {
    valid_account_bytes(encode_utf8(a))
}

/// Relies on near_sdk::env::is_valid_account_id, a check on the bytes alone
/// that needs no runtime: it accepts exactly the names of `valid_account_bytes`.
#[verifier::external_body]
fn account_bytes_are_valid(b: &[u8]) -> (r: bool)
    ensures
        r == valid_account_bytes(b@),
{
    near_sdk::env::is_valid_account_id(b)
}

/// Whether `account_id` is a well-formed account name.
pub fn is_valid_account_id(account_id: &str) -> (r: bool)
    ensures
        r == valid_account(account_id@),
{
    account_bytes_are_valid(account_id.as_bytes())
}

} // verus!
