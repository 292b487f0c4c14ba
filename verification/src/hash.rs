//! Content identifiers: the first eight bytes of a SHA-256 digest, written
//! as lowercase hexadecimal.
use vstd::prelude::*;

use sha2::{Digest, Sha256};

use crate::text::push_char;

verus! {

/// The SHA-256 digest of `data`.
pub uninterp spec fn sha256(data: Seq<u8>) -> Seq<u8>;

/// Digests `data` with the `sha2` crate's `Sha256::digest`. Claims that the
/// result is the SHA-256 digest of `data`, named `sha256`, and that it is 32
/// bytes long, as every SHA-256 digest is.
#[verifier::external_body]
fn sha256_digest(data: &[u8]) -> (r: Vec<u8>)
    ensures
        r@ == sha256(data@),
        r@.len() == 32,
{
    Sha256::digest(data).to_vec()
}

/// The lowercase hexadecimal digits, by value.
pub open spec fn hex_digits() -> Seq<char> {
    seq!['0', '1', '2', '3', '4', '5', '6', '7', '8', '9', 'a', 'b', 'c', 'd', 'e', 'f']
}

/// `bytes` written as lowercase hexadecimal, two digits per byte, high
/// nibble first.
pub open spec fn hex_lower(bytes: Seq<u8>) -> Seq<char>
    decreases bytes.len(),
{
    if bytes.len() == 0 {
        seq![]
    } else {
        hex_lower(bytes.drop_last()) + seq![
            hex_digits()[(bytes.last() / 16) as int],
            hex_digits()[(bytes.last() % 16) as int],
        ]
    }
}

/// The identifier of content `data`: the hex form of the first eight bytes of
/// its SHA-256 digest.
pub open spec fn content_id(data: Seq<u8>) -> Seq<char> {
    hex_lower(sha256(data).take(8))
}

pub proof fn lemma_hex_lower_len(bytes: Seq<u8>)
    ensures
        hex_lower(bytes).len() == 2 * bytes.len(),
    decreases bytes.len(),
{
    if bytes.len() > 0 {
        lemma_hex_lower_len(bytes.drop_last());
    }
}

/// The identifier of `bytes`: 16 lowercase hex digits taken from its SHA-256
/// digest, so equal content always gets the same identifier.
pub fn hash_bytes(bytes: &[u8]) -> (r: String)
    ensures
        r@ == content_id(bytes@),
        r@.len() == 16,
{
    let digest = sha256_digest(bytes);
    let digits: [char; 16] = [
        '0', '1', '2', '3', '4', '5', '6', '7', '8', '9', 'a', 'b', 'c', 'd', 'e', 'f',
    ];
    assert(digits@ =~= hex_digits());
    let mut r = String::new();
    let mut i: usize = 0;
    while i < 8
        invariant
            i <= 8,
            digest@.len() == 32,
            digest@ == sha256(bytes@),
            digits@ == hex_digits(),
            r@ == hex_lower(digest@.take(i as int)),
        decreases 8 - i,
    {
        let b = digest[i];
        push_char(&mut r, digits[(b / 16) as usize]);
        push_char(&mut r, digits[(b % 16) as usize]);
        assert(digest@.take(i + 1).drop_last() =~= digest@.take(i as int));
        assert(r@ =~= hex_lower(digest@.take(i + 1)));
        i = i + 1;
    }
    proof {
        lemma_hex_lower_len(digest@.take(8));
    }
    r
}

} // verus!
