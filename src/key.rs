//! Identity keys: the stable name under which a session's metadata is kept.

use vstd::prelude::*;

verus! {

/// The key that BLAKE3 gives a session name: the digest of its UTF-8 bytes,
/// written as lowercase hexadecimal.
pub uninterp spec fn key_of(name: Seq<char>) -> Seq<char>;

/// Whether `c` is a lowercase hexadecimal digit.
pub open spec fn is_lower_hex(c: char) -> bool {
    ('0' <= c && c <= '9') || ('a' <= c && c <= 'f')
}

/// Relies on `blake3::hash` and `blake3::Hash::to_hex`: the digest of the
/// name's bytes, 32 bytes written as 64 lowercase hexadecimal digits.
#[verifier::external_body]
pub fn session_key(session_name: &str) -> (r: String)
    ensures
        r@ == key_of(session_name@),
        r@.len() == 64,
        forall|i: int| 0 <= i < r@.len() ==> is_lower_hex(#[trigger] r@[i]),
{
    blake3::hash(session_name.as_bytes()).to_hex().to_string()
}

/// Keying is a function of the name: equal names give equal keys.
pub proof fn lemma_key_deterministic(n1: Seq<char>, n2: Seq<char>)
    requires
        n1 == n2,
    ensures
        key_of(n1) == key_of(n2),
{
}

} // verus!
