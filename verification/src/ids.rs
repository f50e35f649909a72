//! Stable identifiers: the SHA-256 digest of a text, written in lowercase
//! hexadecimal and cut to its first 24 characters.
use vstd::prelude::*;
use sha2::{Digest, Sha256};
use vstd::utf8::encode_utf8;
use crate::text::{chars_of, owned, push_str, string_of_range};

verus! {

/// The SHA-256 digest of `data`.
pub uninterp spec fn sha256(data: Seq<u8>) -> Seq<u8>;

/// `Sha256::digest`: the 32-byte SHA-256 digest of `data`. The digest is
/// named, not computed here; only its length is stated besides.
#[verifier::external_body]
fn sha256_digest(data: &[u8]) -> (r: Vec<u8>)
    ensures
        r@ == sha256(data@),
        r@.len() == 32,
{
    Sha256::digest(data).to_vec()
}

/// The lowercase hexadecimal digit of `n` (below 16).
pub open spec fn hex_digit(n: int) -> char {
    if n < 10 {
        (('0' as int) + n) as char
    } else {
        (('a' as int) + n - 10) as char
    }
}

/// Two lowercase hexadecimal digits per byte, high half first.
pub open spec fn hex_lower(b: Seq<u8>) -> Seq<char>
    decreases b.len(),
{
    if b.len() == 0 {
        Seq::empty()
    } else {
        hex_lower(b.drop_last()) + seq![hex_digit(b.last() as int / 16), hex_digit(b.last() as int % 16)]
    }
}

pub proof fn lemma_hex_lower_len(b: Seq<u8>)
    ensures
        hex_lower(b).len() == 2 * b.len(),
    decreases b.len(),
{
    if b.len() > 0 {
        lemma_hex_lower_len(b.drop_last());
    }
}

/// `hex::encode`: each byte as two lowercase hexadecimal digits, high half first.
#[verifier::external_body]
fn hex_encode(data: &[u8]) -> (r: String)
    ensures
        r@ == hex_lower(data@),
{
    hex::encode(data)
}

/// The identifier written for a digest: its first 24 hexadecimal digits.
pub fn finding_id_from_digest(digest: &[u8]) -> (r: String)
    requires
        digest@.len() >= 12,
    ensures
        r@ == hex_lower(digest@).take(24),
{
    let hex = hex_encode(digest);
    let v = chars_of(hex.as_str());
    proof {
        lemma_hex_lower_len(digest@);
    }
    let r = string_of_range(&v, 0, 24);
    assert(v@.subrange(0, 24) =~= hex_lower(digest@).take(24));
    r
}

/// The identifier of a text: the first 24 hexadecimal digits of the SHA-256
/// of its UTF-8 bytes.
pub open spec fn digest_id(text: Seq<char>) -> Seq<char> {
    hex_lower(sha256(encode_utf8(text))).take(24)
}

/// The identifier of a text (see `digest_id`).
pub fn stable_hash(input: &str) -> (r: String)
    ensures
        r@ == digest_id(input@),
        r@.len() == 24,
{
    let bytes = input.as_bytes();
    let digest = sha256_digest(bytes);
    let r = finding_id_from_digest(digest.as_slice());
    proof {
        lemma_hex_lower_len(digest@);
    }
    r
}

/// The text whose digest identifies a finding: `target|category|resource`.
pub open spec fn finding_key(target: Seq<char>, category: Seq<char>, resource: Seq<char>) -> Seq<char> {
    target + "|"@ + category + "|"@ + resource
}

/// The identifier of the finding of `category` on `resource` for `target`:
/// the first 24 hexadecimal digits of the SHA-256 of the UTF-8 of
/// `target|category|resource`.
pub open spec fn finding_id_text(target: Seq<char>, category: Seq<char>, resource: Seq<char>) -> Seq<char> {
    digest_id(finding_key(target, category, resource))
}

/// A stable identifier of a finding, the same for the same target, category
/// and resource.
pub fn normalized_finding_id(target: &str, category: &str, resource: &str) -> (r: String)
    ensures
        r@ == finding_id_text(target@, category@, resource@),
        r@.len() == 24,
{
    let mut raw = owned(target);
    push_str(&mut raw, "|");
    push_str(&mut raw, category);
    push_str(&mut raw, "|");
    push_str(&mut raw, resource);
    stable_hash(raw.as_str())
}

} // verus!

verus! {

/// The SHA-256 of a snapshot's bytes, in lowercase hexadecimal: what
/// identifies a stored snapshot file.
pub fn snapshot_content_hash(bytes: &[u8]) -> (r: String)
    ensures
        r@ == hex_lower(sha256(bytes@)),
        r@.len() == 64,
{
    let digest = sha256_digest(bytes);
    proof {
        lemma_hex_lower_len(digest@);
    }
    hex_encode(digest.as_slice())
}

} // verus!
