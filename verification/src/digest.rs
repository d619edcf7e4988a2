//! The identifier of a record: the SHA-256 digest of its title, written in
//! hexadecimal.
use sha2::Digest;
use vstd::prelude::*;
use vstd::utf8::encode_utf8;

verus! {

/// The SHA-256 digest of `data`, as `sha2` computes it.
pub uninterp spec fn sha256(data: Seq<u8>) -> Seq<u8>;

/// `sha2::Sha256::new`, `Digest::update` with `data` and `Digest::finalize`.
/// The contract gives the digest its name, and says that it is 32 bytes
/// long, as every SHA-256 digest is.
#[verifier::external_body]
pub(crate) fn sha256_digest(data: &[u8]) -> (digest: Vec<u8>)
    ensures
        digest@ == sha256(data@),
        digest@.len() == 32,
{
    let mut hasher = sha2::Sha256::new();
    hasher.update(data);
    hasher.finalize().to_vec()
}

/// The digit that writes `n`, a number from 0 to 15, in base sixteen, with
/// small letters for ten and more.
pub open spec fn hex_digit(n: int) -> char {
    if n < 10 {
        ('0' as int + n) as char
    } else {
        ('a' as int + n - 10) as char
    }
}

/// `bytes` in hexadecimal: two digits for each byte, the higher one first.
pub open spec fn hex_of(bytes: Seq<u8>) -> Seq<char>
    decreases bytes.len(),
{
    if bytes.len() == 0 {
        Seq::<char>::empty()
    } else {
        hex_of(bytes.drop_last()).push(hex_digit(bytes.last() as int / 16)).push(
            hex_digit(bytes.last() as int % 16),
        )
    }
}

/// The identifier that belongs to a title: the SHA-256 digest of the title
/// in UTF-8, in hexadecimal. It depends on nothing but the title.
pub open spec fn fingerprint(title: Seq<char>) -> Seq<char> {
    hex_of(sha256(encode_utf8(title)))
}

/// Writes a number from 0 to 15 as one hexadecimal digit.
fn hex_char(n: u8) -> (c: char)
    requires
        n < 16,
    ensures
        c == hex_digit(n as int),
{
    if n < 10 {
        (48u8 + n) as char
    } else {
        (87u8 + n) as char
    }
}

/// Hexadecimal takes two digits for each byte.
pub proof fn lemma_hex_len(bytes: Seq<u8>)
    ensures
        hex_of(bytes).len() == 2 * bytes.len(),
    decreases bytes.len(),
{
    if bytes.len() > 0 {
        lemma_hex_len(bytes.drop_last());
    }
}

/// Writes `bytes` in hexadecimal.
pub fn to_hex(bytes: &[u8]) -> (hex: String)
    ensures
        hex@ == hex_of(bytes@),
        hex@.len() == 2 * bytes@.len(),
{
    let mut hex = String::new();
    let mut i: usize = 0;
    while i < bytes.len()
        invariant
            i <= bytes.len(),
            hex@ == hex_of(bytes@.take(i as int)),
        decreases bytes.len() - i,
    {
        let b = bytes[i];
        proof {
            assert(bytes@.take(i + 1).drop_last() == bytes@.take(i as int));
            assert(bytes@.take(i + 1).last() == b);
        }
        hex.push(hex_char(b / 16));
        hex.push(hex_char(b % 16));
        i += 1;
    }
    proof {
        assert(bytes@.take(bytes@.len() as int) == bytes@);
        lemma_hex_len(bytes@);
    }
    hex
}

/// The identifier of the record with the given title: 64 hexadecimal digits.
pub fn title_id(title: &str) -> (id: String)
    ensures
        id@ == fingerprint(title@),
        id@.len() == 64,
{
    let digest = sha256_digest(title.as_bytes());
    to_hex(digest.as_slice())
}

} // verus!
