//! The content hash behind generated names.
use vstd::prelude::*;

verus! {

/// The BLAKE3 digest of a byte sequence.
pub uninterp spec fn blake3_of(bytes: Seq<u8>) -> Seq<u8>;

/// Relies on blake3::hash: the 32-byte (blake3::OUT_LEN) digest of the input,
/// which depends on the input alone.
#[verifier::external_body]
fn blake3_digest(bytes: &[u8]) -> (r: Vec<u8>)
    ensures
        r@ == blake3_of(bytes@),
        r@.len() == 32,
{
    blake3::hash(bytes).as_bytes().to_vec()
}

/// The lower-case hexadecimal digit of a value below 16.
pub open spec fn hex_digit(v: u8) -> char {
    if v < 10 {
        (('0' as u8) + v) as char
    } else {
        (('a' as u8) + (v - 10)) as char
    }
}

/// Two lower-case hexadecimal digits per byte, high half first.
pub open spec fn hex_of(bytes: Seq<u8>) -> Seq<char>
    decreases bytes.len(),
{
    if bytes.len() == 0 {
        seq![]
    } else {
        let b = bytes.last();
        hex_of(bytes.drop_last()) + seq![hex_digit(b / 16), hex_digit(b % 16)]
    }
}

/// Relies on hex::encode: two lower-case digits per byte, from the
/// "0123456789abcdef" table, high half first, in the order of the bytes.
#[verifier::external_body]
fn hex_encode(bytes: &[u8]) -> (r: String)
    ensures
        r@ == hex_of(bytes@),
{
    hex::encode(bytes)
}

/// The first eight bytes of the BLAKE3 digest of `source`, in hexadecimal: the
/// part of a generated name that tells one source from another.
pub open spec fn source_hash(source: Seq<u8>) -> Seq<char> {
    hex_of(blake3_of(source).take(8))
}

pub fn short_hash(source: &[u8]) -> (r: String)
    ensures
        r@ == source_hash(source@),
        r@.len() == 16,
{
    let digest = blake3_digest(source);
    let mut head: Vec<u8> = Vec::new();
    let mut i: usize = 0;
    while i < 8
        invariant
            i <= 8,
            digest@.len() == 32,
            head@ == digest@.take(i as int),
        decreases 8 - i,
    {
        head.push(digest[i]);
        assert(digest@.take(i + 1) == digest@.take(i as int).push(digest@[i as int]));
        i += 1;
    }
    let r = hex_encode(head.as_slice());
    proof { lemma_hex_len(head@); }
    r
}

proof fn lemma_hex_len(bytes: Seq<u8>)
    ensures
        hex_of(bytes).len() == 2 * bytes.len(),
    decreases bytes.len(),
{
    if bytes.len() > 0 {
        lemma_hex_len(bytes.drop_last());
    }
}

} // verus!
