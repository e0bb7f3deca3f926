//! Checksums of package files: the SHA-256 digest written as lowercase hex.
use vstd::prelude::*;
use sha2::Digest;

verus! {

/// The SHA-256 digest (FIPS 180-4) of a byte string.
pub uninterp spec fn sha256_of(data: Seq<u8>) -> Seq<u8>;

/// Calls `sha2::Sha256::digest` (through the `Digest` trait): the result is the
/// SHA-256 digest of `data`, 32 bytes long, as the crate's `Sha256` fixes its
/// output size at 32 bytes.
#[verifier::external_body]
fn sha256_digest(data: &[u8]) -> (d: Vec<u8>)
    ensures
        d@ == sha256_of(data@),
        d@.len() == 32,
{
    sha2::Sha256::digest(data).to_vec()
}

/// The lowercase hexadecimal digit of a value below 16.
pub open spec fn hex_digit(n: u8) -> char {
    if n < 10 {
        (48 + n) as char
    } else {
        (87 + n) as char
    }
}

/// Bytes written as lowercase hexadecimal, two digits per byte, high half first.
pub open spec fn hex_lower(bytes: Seq<u8>) -> Seq<char>
    decreases bytes.len(),
{
    if bytes.len() == 0 {
        Seq::empty()
    } else {
        seq![hex_digit(bytes[0] / 16), hex_digit(bytes[0] % 16)] + hex_lower(bytes.drop_first())
    }
}

/// Calls `hex::encode`: each byte becomes two lowercase hexadecimal digits, the
/// high half first (the crate's table `0123456789abcdef`).
#[verifier::external_body]
fn hex_encode(bytes: &[u8]) -> (s: String)
    ensures
        s@ == hex_lower(bytes@),
{
    hex::encode(bytes)
}

pub proof fn lemma_hex_lower_len(bytes: Seq<u8>)
    ensures
        hex_lower(bytes).len() == 2 * bytes.len(),
    decreases bytes.len(),
{
    if bytes.len() > 0 {
        lemma_hex_lower_len(bytes.drop_first());
    }
}

/// Every character of a hex rendering is a lowercase hexadecimal digit.
pub proof fn lemma_hex_lower_digits(bytes: Seq<u8>)
    ensures
        forall|i: int|
            0 <= i < hex_lower(bytes).len() ==> ('0' <= #[trigger] hex_lower(bytes)[i] <= '9')
                || ('a' <= hex_lower(bytes)[i] <= 'f'),
    decreases bytes.len(),
{
    if bytes.len() > 0 {
        lemma_hex_lower_digits(bytes.drop_first());
        let b = bytes[0];
        let head = seq![hex_digit(b / 16), hex_digit(b % 16)];
        assert(b / 16 < 16 && b % 16 < 16);
        assert forall|i: int|
            0 <= i < hex_lower(bytes).len() implies ('0' <= #[trigger] hex_lower(bytes)[i] <= '9')
                || ('a' <= hex_lower(bytes)[i] <= 'f') by {
            if i >= 2 {
                assert(hex_lower(bytes)[i] == hex_lower(bytes.drop_first())[i - 2]);
            } else {
                assert(hex_lower(bytes)[i] == head[i]);
            }
        }
    }
}

/// The checksum recorded for a package file: the SHA-256 digest of its bytes as 64
/// lowercase hexadecimal digits.
pub fn sha256_hex(data: &[u8]) -> (h: String)
    ensures
        h@ == hex_lower(sha256_of(data@)),
        h@.len() == 64,
{
    let d = sha256_digest(data);
    proof {
        lemma_hex_lower_len(d@);
    }
    hex_encode(d.as_slice())
}

} // verus!
