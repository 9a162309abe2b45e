//! Content hashing: SHA-256 digests and their lower-case hexadecimal text.

use vstd::prelude::*;
use sha2::Digest;
use crate::text::{hex_of_bytes, hex_text};

verus! {

/// The SHA-256 digest of `data`, as sha2 computes it.
pub uninterp spec fn sha256(data: Seq<u8>) -> Seq<u8>;

/// `sha2::Sha256::digest`: the digest is a function of the bytes alone, 32 bytes long.
#[verifier::external_body]
pub(crate) fn sha256_digest(data: &[u8]) -> (r: Vec<u8>)
    ensures
        r@ == sha256(data@),
        r@.len() == 32,
{
    sha2::Sha256::digest(data).to_vec()
}

/// Lower-case hexadecimal text of the SHA-256 digest of `data` (64 characters).
pub fn sha256_hex(data: &[u8]) -> (r: String)
    ensures
        r@ == hex_of_bytes(sha256(data@)),
{
    let d = sha256_digest(data);
    hex_text(d.as_slice())
}

/// Appends the bytes of `src` to `dst`.
pub fn append_bytes(dst: &mut Vec<u8>, src: &[u8])
    ensures
        final(dst)@ == old(dst)@ + src@,
{
    let ghost start = dst@;
    let mut i: usize = 0;
    while i < src.len()
        invariant
            i <= src@.len(),
            dst@ == start + src@.take(i as int),
        decreases src@.len() - i,
    {
        dst.push(src[i]);
        assert(src@.take(i + 1) =~= src@.take(i as int).push(src@[i as int]));
        i = i + 1;
    }
    assert(src@.take(src@.len() as int) =~= src@);
}

/// The fingerprint of some content: the hex SHA-256 digest of its bytes.
pub open spec fn fingerprint_of(data: Seq<u8>) -> Seq<char> {
    hex_of_bytes(sha256(data))
}

/// Fingerprint of a byte string (such as a file's content).
pub fn compute_bytes_fingerprint(data: &[u8]) -> (r: String)
    ensures
        r@ == fingerprint_of(data@),
{
    sha256_hex(data)
}

/// All chunks, in order, as one byte string.
pub open spec fn flatten_chunks(chunks: Seq<Vec<u8>>) -> Seq<u8>
    decreases chunks.len(),
{
    if chunks.len() == 0 {
        seq![]
    } else {
        flatten_chunks(chunks.drop_last()) + chunks.last()@
    }
}

/// Fingerprint of a sequence of byte chunks hashed one after the other (as a streaming
/// hasher fed chunk by chunk computes it).
pub fn compute_chunks_fingerprint(chunks: &Vec<Vec<u8>>) -> (r: String)
    ensures
        r@ == fingerprint_of(flatten_chunks(chunks@)),
{
    let mut all: Vec<u8> = Vec::new();
    let mut i: usize = 0;
    while i < chunks.len()
        invariant
            i <= chunks@.len(),
            all@ == flatten_chunks(chunks@.take(i as int)),
        decreases chunks@.len() - i,
    {
        assert(chunks@.take(i + 1).drop_last() =~= chunks@.take(i as int));
        append_bytes(&mut all, chunks[i].as_slice());
        i = i + 1;
    }
    assert(chunks@.take(chunks@.len() as int) =~= chunks@);
    sha256_hex(all.as_slice())
}

/// The version identity of a dataset: the hex SHA-256 digest of the source fingerprint's
/// UTF-8 bytes followed by the schema bytes.
pub open spec fn version_id_of(fingerprint: Seq<char>, schema_bytes: Seq<u8>) -> Seq<char> {
    fingerprint_of(vstd::utf8::encode_utf8(fingerprint) + schema_bytes)
}

/// Computes the deterministic version identity of a dataset from its source fingerprint
/// and its serialized schema.
pub fn compute_dataset_version_id(fingerprint: &str, schema_bytes: &[u8]) -> (r: String)
    ensures
        r@ == version_id_of(fingerprint@, schema_bytes@),
{
    let mut all: Vec<u8> = Vec::new();
    append_bytes(&mut all, fingerprint.as_bytes());
    append_bytes(&mut all, schema_bytes);
    assert(all@ =~= vstd::utf8::encode_utf8(fingerprint@) + schema_bytes@);
    sha256_hex(all.as_slice())
}

} // verus!
