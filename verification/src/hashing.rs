//! Content hashes of photo files: the SHA-256 digest of the bytes, written
//! in standard base64, and the base64 data URIs of encoded thumbnails.
use vstd::prelude::*;
use base64::Engine;
use sha2::Digest;

verus! {

/// The SHA-256 digest of a byte string.
pub uninterp spec fn spec_sha256(data: Seq<u8>) -> Seq<u8>;

/// The digit of the standard base64 alphabet (RFC 4648) for a 6-bit value:
/// `A`-`Z`, `a`-`z`, `0`-`9`, `+`, `/`.
pub open spec fn base64_digit(v: int) -> char {
    if v < 26 {
        ('A' as int + v) as char
    } else if v < 52 {
        ('a' as int + (v - 26)) as char
    } else if v < 62 {
        ('0' as int + (v - 52)) as char
    } else if v == 62 {
        '+'
    } else {
        '/'
    }
}

/// The padded standard base64 text of a byte string (RFC 4648): each group
/// of three bytes as four digits of six bits each, most significant first;
/// a last group of one or two bytes filled with zero bits and padded with `=`.
pub open spec fn spec_base64(data: Seq<u8>) -> Seq<char>
    decreases data.len(),
{
    if data.len() == 0 {
        seq![]
    } else if data.len() == 1 {
        let a = data[0] as int;
        seq![base64_digit(a / 4), base64_digit((a % 4) * 16), '=', '=']
    } else if data.len() == 2 {
        let a = data[0] as int;
        let b = data[1] as int;
        seq![base64_digit(a / 4), base64_digit((a % 4) * 16 + b / 16), base64_digit((b % 16) * 4), '=']
    } else {
        let a = data[0] as int;
        let b = data[1] as int;
        let c = data[2] as int;
        seq![
            base64_digit(a / 4),
            base64_digit((a % 4) * 16 + b / 16),
            base64_digit((b % 16) * 4 + c / 64),
            base64_digit(c % 64),
        ] + spec_base64(data.subrange(3, data.len() as int))
    }
}

/// Length of the padded base64 text of `n` bytes: four characters for each
/// started group of three bytes.
pub open spec fn base64_len(n: nat) -> nat {
    if n % 3 == 0 {
        (n / 3) * 4
    } else {
        (n / 3) * 4 + 4
    }
}

/// The base64 text has `base64_len` characters.
pub proof fn lemma_base64_len(data: Seq<u8>)
    ensures
        spec_base64(data).len() == base64_len(data.len()),
    decreases data.len(),
{
    if data.len() >= 3 {
        lemma_base64_len(data.subrange(3, data.len() as int));
    }
}

/// `sha2::Sha256::digest`: the digest of `data`, 32 bytes long.
#[verifier::external_body]
fn sha256_digest(data: &[u8]) -> (r: Vec<u8>)
    ensures
        r@ == spec_sha256(data@),
        r@.len() == 32,
{
    sha2::Sha256::digest(data).to_vec()
}

/// `base64::engine::general_purpose::STANDARD.encode`: the padded standard
/// base64 text of `data`. The crate panics when that text cannot be
/// allocated (longer than `isize::MAX` bytes), which `requires` rules out.
#[verifier::external_body]
fn base64_standard(data: &[u8]) -> (r: String)
    requires
        base64_len(data@.len() as nat) <= isize::MAX,
    ensures
        r@ == spec_base64(data@),
{
    base64::engine::general_purpose::STANDARD.encode(data)
}

/// The catalog's content hash of a file's bytes: the SHA-256 digest in
/// standard base64 (always 44 characters).
pub fn content_hash(data: &[u8]) -> (r: String)
    ensures
        r@ == spec_base64(spec_sha256(data@)),
        r@.len() == 44,
{
    let digest = sha256_digest(data);
    proof {
        lemma_base64_len(digest@);
    }
    assert(base64_len(32) == 44);
    base64_standard(digest.as_slice())
}

/// The prefix of a JPEG data URI.
pub const JPEG_DATA_URI_PREFIX: &'static str = "data:image/jpeg;base64,";

/// A JPEG as a `data:` URI, for showing a thumbnail without a file.
pub fn jpeg_data_uri(jpeg: &[u8]) -> (r: String)
    requires
        base64_len(jpeg@.len() as nat) + JPEG_DATA_URI_PREFIX@.len() <= isize::MAX,
    ensures
        r@ == JPEG_DATA_URI_PREFIX@ + spec_base64(jpeg@),
{
    let mut r = JPEG_DATA_URI_PREFIX.to_owned();
    let b = base64_standard(jpeg);
    r.append(&b);
    r
}

} // verus!
