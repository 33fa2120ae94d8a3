//! Digests of byte strings.

use vstd::prelude::*;

verus! {

/// The SHA-256 digest of some bytes.
pub uninterp spec fn sha256_of(bytes: Seq<u8>) -> Seq<u8>;

/// The BLAKE3 digest of some bytes.
pub uninterp spec fn blake3_of(bytes: Seq<u8>) -> Seq<u8>;

/// The bytes that a BLAKE3 hasher has been given so far, in order, if it is one
/// for plain digests: without a key, without a context, and at the start of its
/// input.
pub uninterp spec fn hasher_input(h: blake3::Hasher) -> Option<Seq<u8>>;

/// `blake3::Hasher`, an incremental hash state.
#[verifier::external_type_specification]
#[verifier::external_body]
pub struct ExHasher(blake3::Hasher);

/// `sha2::Sha256::digest`: the digest of the bytes, by its name.
#[verifier::external_body]
pub(crate) fn sha256(bytes: &[u8]) -> (r: [u8; 32])
    ensures
        r@ == sha256_of(bytes@),
{
    <sha2::Sha256 as sha2::Digest>::digest(bytes).into()
}

/// `blake3::Hasher::new`: a hasher for plain digests that has been given nothing.
#[verifier::external_body]
pub(crate) fn new_hasher() -> (r: blake3::Hasher)
    ensures
        hasher_input(r) == Some(Seq::<u8>::empty()),
{
    blake3::Hasher::new()
}

/// `blake3::Hasher::update`: a hasher for plain digests is given the bytes after
/// what it had.
#[verifier::external_body]
pub(crate) fn feed_hasher(h: &mut blake3::Hasher, bytes: &[u8])
    requires
        hasher_input(*old(h)) is Some,
    ensures
        hasher_input(*final(h)) == Some(hasher_input(*old(h))->0 + bytes@),
{
    h.update(bytes);
}

/// `blake3::Hasher::finalize`: the digest of all that a hasher for plain digests
/// was given, by its name.
#[verifier::external_body]
pub(crate) fn hasher_digest(h: &blake3::Hasher) -> (r: [u8; 32])
    requires
        hasher_input(*h) is Some,
    ensures
        r@ == blake3_of(hasher_input(*h)->0),
{
    *h.finalize().as_bytes()
}

/// The BLAKE3 digest of some bytes.
pub fn blake3_bytes(bytes: &[u8]) -> (r: [u8; 32])
    ensures
        r@ == blake3_of(bytes@),
{
    let mut h = new_hasher();
    feed_hasher(&mut h, bytes);
    assert(Seq::<u8>::empty() + bytes@ =~= bytes@);
    hasher_digest(&h)
}

} // verus!
