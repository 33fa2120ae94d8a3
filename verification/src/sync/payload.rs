//! What a device sends of an item: a sealed package, and large contents as
//! sealed chunks.

use vstd::prelude::*;

use crate::bytes::{contents, le_bytes, le_value, push_all, push_le, read_le};
use crate::digest::{
    blake3_bytes, blake3_of, feed_hasher, hasher_digest, hasher_input, new_hasher,
};
use crate::hexcodec;
use crate::sync::error::{failed, protocol, SyncError, SyncErrorView};
use crate::text::{copy_range, same_bytes};

verus! {

/// The most plain bytes in one chunk.
pub const CHUNK_SIZE: usize = 4194304;

/// The most plain bytes that travel in the package itself.
pub const INLINE_LIMIT: usize = 262144;

/// The bytes of an encoded chunk before its ciphertext.
pub const BLOB_CHUNK_HEADER: usize = 140;

/// An item as it is synchronised: its sealed metadata, and its sealed contents
/// if they are small. Larger contents travel as chunks.
#[derive(Debug)]
pub struct SyncPackage<P> {
    pub meta: P,
    pub body: Option<P>,
    pub chunk_count: u32,
}

/// Whether contents are sealed into the package itself.
pub open spec fn travels_inline(payload: Option<Seq<u8>>) -> bool {
    payload is Some && payload->0.len() <= INLINE_LIMIT
}

/// Whether contents are sealed into the package itself.
pub fn is_inline(payload: Option<&[u8]>) -> (r: bool)
    ensures
        r == travels_inline(
            match payload {
                Some(b) => Some(b@),
                None => None,
            },
        ),
{
    match payload {
        Some(b) => b.len() <= INLINE_LIMIT,
        None => false,
    }
}

/// What sealing gave, with a failure as its characters.
pub open spec fn sealed_result<P>(r: Result<P, String>) -> Result<P, Seq<char>> {
    match r {
        Ok(p) => Ok(p),
        Err(m) => Err(m@),
    }
}

/// The package that sealed metadata and sealed contents make, or the failure of
/// the first that could not be sealed.
pub open spec fn packed<P>(
    meta: Result<P, Seq<char>>,
    body: Option<Result<P, Seq<char>>>,
) -> Result<SyncPackage<P>, SyncErrorView> {
    match (meta, body) {
        (Err(m), _) => Err(SyncErrorView::Failed(m)),
        (Ok(_), Some(Err(m))) => Err(SyncErrorView::Failed(m)),
        (Ok(sealed), Some(Ok(inner))) => Ok(
            SyncPackage { meta: sealed, body: Some(inner), chunk_count: 0 },
        ),
        (Ok(sealed), None) => Ok(SyncPackage { meta: sealed, body: None, chunk_count: 0 }),
    }
}

/// The metadata that unsealing gave, or the failure.
pub open spec fn unpacked_meta(opened: Result<Seq<u8>, Seq<char>>) -> Result<
    Seq<u8>,
    SyncErrorView,
> {
    match opened {
        Ok(b) => Ok(b),
        Err(m) => Err(SyncErrorView::Failed(m)),
    }
}

/// The contents that unsealing gave if the package holds any, or the failure.
pub open spec fn unpacked_body(opened: Option<Result<Seq<u8>, Seq<char>>>) -> Result<
    Option<Seq<u8>>,
    SyncErrorView,
> {
    match opened {
        None => Ok(None),
        Some(Ok(b)) => Ok(Some(b)),
        Some(Err(m)) => Err(SyncErrorView::Failed(m)),
    }
}

/// Puts a package together from what sealing the metadata gave and, where the
/// contents travel inline, what sealing them gave.
pub fn pack<P>(meta: Result<P, String>, body: Option<Result<P, String>>) -> (r: Result<
    SyncPackage<P>,
    SyncError,
>)
    ensures
        ({
            let body_result = match body {
                Some(b) => Some(sealed_result(b)),
                None => None,
            };
            match r {
                Ok(p) => packed(sealed_result(meta), body_result) == Ok::<
                    SyncPackage<P>,
                    SyncErrorView,
                >(p),
                Err(e) => packed(sealed_result(meta), body_result) == Err::<
                    SyncPackage<P>,
                    SyncErrorView,
                >(e@),
            }
        }),
{
    let sealed = match meta {
        Ok(sealed) => sealed,
        Err(m) => return Err(SyncError::Failed(m)),
    };
    match body {
        None => Ok(SyncPackage { meta: sealed, body: None, chunk_count: 0 }),
        Some(Ok(inner)) => Ok(SyncPackage { meta: sealed, body: Some(inner), chunk_count: 0 }),
        Some(Err(m)) => Err(SyncError::Failed(m)),
    }
}

/// The metadata of a package, from what unsealing it gave.
pub fn unpack_meta(opened: Result<Vec<u8>, String>) -> (r: Result<Vec<u8>, SyncError>)
    ensures
        match r {
            Ok(b) => unpacked_meta(unsealed_view(opened)) == Ok::<Seq<u8>, SyncErrorView>(b@),
            Err(e) => unpacked_meta(unsealed_view(opened)) == Err::<Seq<u8>, SyncErrorView>(e@),
        },
{
    match opened {
        Ok(b) => Ok(b),
        Err(m) => Err(SyncError::Failed(m)),
    }
}

/// The contents of a package, if it holds any, from what unsealing them gave.
pub fn unpack_body(opened: Option<Result<Vec<u8>, String>>) -> (r: Result<
    Option<Vec<u8>>,
    SyncError,
>)
    ensures
        ({
            let unsealed = match opened {
                Some(b) => Some(unsealed_view(b)),
                None => None,
            };
            match r {
                Ok(Some(b)) => unpacked_body(unsealed) == Ok::<Option<Seq<u8>>, SyncErrorView>(
                    Some(b@),
                ),
                Ok(None) => unpacked_body(unsealed) == Ok::<Option<Seq<u8>>, SyncErrorView>(None),
                Err(e) => unpacked_body(unsealed) == Err::<Option<Seq<u8>>, SyncErrorView>(e@),
            }
        }),
{
    match opened {
        None => Ok(None),
        Some(Ok(b)) => Ok(Some(b)),
        Some(Err(m)) => Err(SyncError::Failed(m)),
    }
}

/// A package opens as it was packed: the metadata comes back, and so do contents
/// that are no longer than the inline limit, the empty ones too. Longer contents,
/// and an item without contents, leave the package without a body. `seal` and
/// `open` stand for the sealing and unsealing of bytes, and `write` and `read` for
/// the serialised form of a package, which is encoded as text in between; of each
/// pair one undoes the other.
pub proof fn package_opens_as_packed<P>(
    seal: spec_fn(Seq<u8>) -> P,
    open: spec_fn(P) -> Result<Seq<u8>, Seq<char>>,
    write: spec_fn(SyncPackage<P>) -> Seq<u8>,
    read: spec_fn(Seq<u8>) -> SyncPackage<P>,
    meta: Seq<u8>,
    payload: Option<Seq<u8>>,
)
    requires
        forall|b: Seq<u8>| open(#[trigger] seal(b)) == Ok::<Seq<u8>, Seq<char>>(b),
        forall|p: SyncPackage<P>| read(#[trigger] write(p)) == p,
    ensures
        ({
            let body = if travels_inline(payload) {
                Some(Ok::<P, Seq<char>>(seal(payload->0)))
            } else {
                None
            };
            let sent = packed(Ok::<P, Seq<char>>(seal(meta)), body);
            let text = hexcodec::hex_text(write(sent->Ok_0));
            let package = read(hexcodec::hex_bytes(text));
            let opened_body = match package.body {
                Some(b) => Some(open(b)),
                None => None,
            };
            &&& sent is Ok
            &&& hexcodec::is_hex(text)
            &&& package == sent->Ok_0
            &&& unpacked_meta(open(package.meta)) == Ok::<Seq<u8>, SyncErrorView>(meta)
            &&& unpacked_body(opened_body) == Ok::<Option<Seq<u8>>, SyncErrorView>(
                if payload is Some && payload->0.len() <= INLINE_LIMIT {
                    payload
                } else {
                    None
                },
            )
        }),
{
    let body = if travels_inline(payload) {
        Some(Ok::<P, Seq<char>>(seal(payload->0)))
    } else {
        None
    };
    hexcodec::decode_restores_encode(write(packed(Ok::<P, Seq<char>>(seal(meta)), body)->Ok_0));
}

/// A serialised package as text.
pub fn encode_package(serialised: &[u8]) -> (r: String)
    ensures
        r@ == hexcodec::hex_text(serialised@),
{
    hexcodec::encode(serialised)
}

/// The serialised package that a text holds. Encoding a package and decoding
/// the text gives it back.
pub fn decode_package(text: &str) -> (r: Result<Vec<u8>, SyncError>)
    ensures
        match r {
            Ok(b) => hexcodec::is_hex(text@) && b@ == hexcodec::hex_bytes(text@),
            Err(e) => !hexcodec::is_hex(text@) && e@ == SyncErrorView::Protocol(
                hexcodec::hex_error_message(text@),
            ),
        },
        forall|x: Seq<u8>| text@ == #[trigger] hexcodec::hex_text(x) ==> r is Ok && r->Ok_0@ == x,
{
    proof {
        assert forall|b: Seq<u8>| text@ == #[trigger] hexcodec::hex_text(b) implies hexcodec::is_hex(
            text@,
        ) && hexcodec::hex_bytes(text@) == b by {
            hexcodec::decode_restores_encode(b);
        }
    }
    match hexcodec::decode(text) {
        Ok(b) => Ok(b),
        Err(m) => Err(SyncError::Protocol(m)),
    }
}

/// The key of one item, sealed under the key of the account.
#[derive(Debug)]
pub struct WrappedItemKey {
    pub nonce: [u8; 24],
    pub ciphertext: Vec<u8>,
}

/// One sealed chunk of an item's contents.
#[derive(Debug)]
pub struct EncryptedChunk {
    pub blob_id: [u8; 32],
    pub chunk_index: u32,
    pub nonce: [u8; 24],
    pub ciphertext: Vec<u8>,
}

/// A sealed chunk together with the sealed key of its item.
pub struct SealedChunkView {
    pub key_nonce: Seq<u8>,
    pub key_ciphertext: Seq<u8>,
    pub blob_id: Seq<u8>,
    pub chunk_index: nat,
    pub nonce: Seq<u8>,
    pub ciphertext: Seq<u8>,
}

/// A wrapped key and a chunk as mathematical values.
pub open spec fn sealed_view(w: WrappedItemKey, c: EncryptedChunk) -> SealedChunkView {
    SealedChunkView {
        key_nonce: w.nonce@,
        key_ciphertext: w.ciphertext@,
        blob_id: c.blob_id@,
        chunk_index: c.chunk_index as nat,
        nonce: c.nonce@,
        ciphertext: c.ciphertext@,
    }
}

/// Whether the parts of a sealed chunk have their fixed widths.
pub open spec fn sealed_widths(v: SealedChunkView) -> bool {
    &&& v.key_nonce.len() == 24
    &&& v.key_ciphertext.len() == 48
    &&& v.blob_id.len() == 32
    &&& v.chunk_index <= u32::MAX
    &&& v.nonce.len() == 24
    &&& v.ciphertext.len() <= u32::MAX
}

/// The tag at the start of an encoded chunk.
pub open spec fn chunk_tag() -> Seq<u8> {
    seq![0x41u8, 0x53, 0x42, 0x31]
}

/// The encoding of a sealed chunk.
pub open spec fn chunk_bytes(v: SealedChunkView) -> Seq<u8> {
    chunk_tag() + v.key_nonce + v.key_ciphertext + v.blob_id + le_bytes(v.chunk_index, 4) + v.nonce
        + le_bytes(v.ciphertext.len(), 4) + v.ciphertext
}

/// The sealed chunk that some bytes encode, read at fixed places.
pub open spec fn chunk_parts(b: Seq<u8>) -> SealedChunkView {
    SealedChunkView {
        key_nonce: b.subrange(4, 28),
        key_ciphertext: b.subrange(28, 76),
        blob_id: b.subrange(76, 108),
        chunk_index: le_value(b.subrange(108, 112)),
        nonce: b.subrange(112, 136),
        ciphertext: b.skip(140),
    }
}

/// Why some bytes are no encoded chunk, if they are not.
pub open spec fn chunk_error(b: Seq<u8>) -> Option<SyncErrorView> {
    if b.len() < BLOB_CHUNK_HEADER || b.subrange(0, 4) != chunk_tag() {
        Some(SyncErrorView::Protocol("invalid encrypted blob chunk"@))
    } else if b.len() != BLOB_CHUNK_HEADER + le_value(b.subrange(136, 140)) {
        Some(SyncErrorView::Protocol("encrypted blob chunk length mismatch"@))
    } else {
        None
    }
}

/// Encodes a sealed chunk.
pub fn encode_blob_chunk(wrapped: &WrappedItemKey, chunk: &EncryptedChunk) -> (r: Result<
    Vec<u8>,
    SyncError,
>)
    ensures
        match r {
            Ok(b) => {
                &&& sealed_widths(sealed_view(*wrapped, *chunk))
                &&& b@ == chunk_bytes(sealed_view(*wrapped, *chunk))
            },
            Err(e) => if wrapped.ciphertext@.len() != 48 {
                e@ == SyncErrorView::Protocol("unexpected wrapped item key length"@)
            } else {
                &&& chunk.ciphertext@.len() > u32::MAX
                &&& e@ == SyncErrorView::Protocol("encrypted chunk is too large"@)
            },
        },
{
    if wrapped.ciphertext.len() != 48 {
        return Err(protocol("unexpected wrapped item key length"));
    }
    if chunk.ciphertext.len() as u64 > 0xffff_ffff {
        return Err(protocol("encrypted chunk is too large"));
    }
    let mut out: Vec<u8> = vec![0x41u8, 0x53, 0x42, 0x31];
    assert(out@ =~= chunk_tag());
    push_all(&mut out, wrapped.nonce.as_slice());
    push_all(&mut out, wrapped.ciphertext.as_slice());
    push_all(&mut out, chunk.blob_id.as_slice());
    push_le(&mut out, chunk.chunk_index as u64, 4);
    push_all(&mut out, chunk.nonce.as_slice());
    push_le(&mut out, chunk.ciphertext.len() as u64, 4);
    push_all(&mut out, chunk.ciphertext.as_slice());
    Ok(out)
}

fn array24(b: &[u8], from: usize) -> (r: [u8; 24])
    requires
        from + 24 <= b@.len(),
    ensures
        r@ == b@.subrange(from as int, from + 24),
{
    let n: usize = b.len();
    let mut out: [u8; 24] = [0u8; 24];
    let mut i: usize = 0;
    while i < 24
        invariant
            i <= 24,
            from + 24 <= b@.len() == n,
            forall|j: int| 0 <= j < i ==> out@[j] == b@[from + j],
        decreases 24 - i,
    {
        out[i] = b[from + i];
        i += 1;
    }
    assert(out@ =~= b@.subrange(from as int, from + 24));
    out
}

fn array32(b: &[u8], from: usize) -> (r: [u8; 32])
    requires
        from + 32 <= b@.len(),
    ensures
        r@ == b@.subrange(from as int, from + 32),
{
    let n: usize = b.len();
    let mut out: [u8; 32] = [0u8; 32];
    let mut i: usize = 0;
    while i < 32
        invariant
            i <= 32,
            from + 32 <= b@.len() == n,
            forall|j: int| 0 <= j < i ==> out@[j] == b@[from + j],
        decreases 32 - i,
    {
        out[i] = b[from + i];
        i += 1;
    }
    assert(out@ =~= b@.subrange(from as int, from + 32));
    out
}

/// Reads an encoded chunk.
pub fn decode_blob_chunk(bytes: &[u8]) -> (r: Result<(WrappedItemKey, EncryptedChunk), SyncError>)
    ensures
        match r {
            Ok((w, c)) => chunk_error(bytes@) is None && sealed_view(w, c) == chunk_parts(bytes@),
            Err(e) => chunk_error(bytes@) == Some(e@),
        },
{
    if bytes.len() < BLOB_CHUNK_HEADER {
        return Err(protocol("invalid encrypted blob chunk"));
    }
    let tag = copy_range(bytes, 0, 4);
    let expected: Vec<u8> = vec![0x41u8, 0x53, 0x42, 0x31];
    assert(expected@ =~= chunk_tag());
    if !same_bytes(tag.as_slice(), expected.as_slice()) {
        return Err(protocol("invalid encrypted blob chunk"));
    }
    let ciphertext_len: u64 = read_le(bytes, 136, 4);
    proof {
        crate::bytes::lemma_le_bound(bytes@.subrange(136, 140));
        crate::bytes::lemma_le_bound(bytes@.subrange(108, 112));
        crate::bytes::lemma_pow256();
    }
    if bytes.len() as u64 != 140 + ciphertext_len {
        return Err(protocol("encrypted blob chunk length mismatch"));
    }
    let wrapped = WrappedItemKey {
        nonce: array24(bytes, 4),
        ciphertext: copy_range(bytes, 28, 76),
    };
    let chunk = EncryptedChunk {
        blob_id: array32(bytes, 76),
        chunk_index: read_le(bytes, 108, 4) as u32,
        nonce: array24(bytes, 112),
        ciphertext: copy_range(bytes, BLOB_CHUNK_HEADER, bytes.len()),
    };
    proof {
        assert(bytes@.subrange(140, bytes@.len() as int) =~= bytes@.skip(140));
        assert(sealed_view(wrapped, chunk) == chunk_parts(bytes@));
    }
    Ok((wrapped, chunk))
}

/// Reading an encoded chunk gives back the chunk.
pub proof fn chunk_decode_restores_encode(v: SealedChunkView)
    requires
        sealed_widths(v),
    ensures
        chunk_error(chunk_bytes(v)) is None,
        chunk_parts(chunk_bytes(v)) == v,
{
    let b = chunk_bytes(v);
    crate::bytes::lemma_pow256();
    crate::bytes::le_round_trip(v.chunk_index, 4);
    crate::bytes::le_round_trip(v.ciphertext.len(), 4);
    assert(b.subrange(0, 4) =~= chunk_tag());
    assert(b.subrange(4, 28) =~= v.key_nonce);
    assert(b.subrange(28, 76) =~= v.key_ciphertext);
    assert(b.subrange(76, 108) =~= v.blob_id);
    assert(b.subrange(108, 112) =~= le_bytes(v.chunk_index, 4));
    assert(b.subrange(112, 136) =~= v.nonce);
    assert(b.subrange(136, 140) =~= le_bytes(v.ciphertext.len(), 4));
    assert(b.skip(140) =~= v.ciphertext);
}

/// Turns plain contents into encoded chunks: the sealed key and the identity
/// that every chunk of one item carries.
#[derive(Debug)]
pub struct BlobChunkEncryptor {
    pub wrapped: WrappedItemKey,
    pub blob_id: [u8; 32],
}

impl BlobChunkEncryptor {
    /// An encryptor from what wrapping a fresh item key gave.
    pub fn new(wrapped: Result<WrappedItemKey, String>, blob_id: [u8; 32]) -> (r: Result<
        BlobChunkEncryptor,
        SyncError,
    >)
        ensures
            match wrapped {
                Ok(w) => r == Ok::<BlobChunkEncryptor, SyncError>(
                    (BlobChunkEncryptor { wrapped: w, blob_id }),
                ),
                Err(m) => r matches Err(e) && e@ == SyncErrorView::Failed(m@),
            },
    {
        match wrapped {
            Ok(w) => Ok(BlobChunkEncryptor { wrapped: w, blob_id }),
            Err(m) => Err(crypto_failed(m)),
        }
    }

    /// Encodes the chunk that sealing some contents gave.
    pub fn encrypt(&self, sealed: Result<EncryptedChunk, String>) -> (r: Result<
        Vec<u8>,
        SyncError,
    >)
        ensures
            match sealed {
                Err(m) => r matches Err(e) && e@ == SyncErrorView::Failed(m@),
                Ok(chunk) => match r {
                    Ok(b) => {
                        &&& sealed_widths(sealed_view(self.wrapped, chunk))
                        &&& b@ == chunk_bytes(sealed_view(self.wrapped, chunk))
                    },
                    Err(e) => if self.wrapped.ciphertext@.len() != 48 {
                        e@ == SyncErrorView::Protocol("unexpected wrapped item key length"@)
                    } else {
                        &&& chunk.ciphertext@.len() > u32::MAX
                        &&& e@ == SyncErrorView::Protocol("encrypted chunk is too large"@)
                    },
                },
            },
    {
        match sealed {
            Ok(chunk) => encode_blob_chunk(&self.wrapped, &chunk),
            Err(m) => Err(crypto_failed(m)),
        }
    }
}

/// The failure that a cryptographic error becomes.
pub fn crypto_failed(text: String) -> (r: SyncError)
    ensures
        r@ == SyncErrorView::Failed(text@),
{
    SyncError::Failed(text)
}

/// Puts contents together from encoded chunks. It checks that the chunks come
/// in order and belong to one item, and that the whole has the right digest.
#[derive(Debug)]
pub struct BlobChunkDecryptor {
    expected_blob_id: Option<[u8; 32]>,
    hasher: blake3::Hasher,
}

/// The digest of plain contents, from which the identity of their chunks is
/// made.
pub fn plaintext_hash(bytes: &[u8]) -> (r: [u8; 32])
    ensures
        r@ == blake3_of(bytes@),
{
    blake3_bytes(bytes)
}

/// The identity of an item, if it is known, as a byte sequence.
pub open spec fn known_id(id: Option<[u8; 32]>) -> Option<Seq<u8>> {
    match id {
        Some(a) => Some(a@),
        None => None,
    }
}

/// Why an encoded chunk is refused at place `index` of an item whose identity
/// is known to be `id`, if it is.
pub open spec fn refusal(id: Option<Seq<u8>>, index: nat, encoded: Seq<u8>) -> Option<
    SyncErrorView,
> {
    if chunk_error(encoded) is Some {
        chunk_error(encoded)
    } else if chunk_parts(encoded).chunk_index != index {
        Some(SyncErrorView::Protocol("blob chunk index is not contiguous"@))
    } else if id is Some && id->0 != chunk_parts(encoded).blob_id {
        Some(SyncErrorView::Protocol("blob id changed between chunks"@))
    } else {
        None
    }
}

impl Default for BlobChunkDecryptor {
    fn default() -> (r: Self)
        ensures
            r.seen_id() is None,
            r.fed() == Seq::<u8>::empty(),
    {
        BlobChunkDecryptor { expected_blob_id: None, hasher: new_hasher() }
    }
}

impl BlobChunkDecryptor {
    #[verifier::type_invariant]
    spec fn wf(self) -> bool {
        hasher_input(self.hasher) is Some
    }

    /// The identity that the chunks so far carry, once there was one.
    pub closed spec fn seen_id(&self) -> Option<Seq<u8>> {
        known_id(self.expected_blob_id)
    }

    /// All plain bytes so far.
    pub closed spec fn fed(&self) -> Seq<u8> {
        hasher_input(self.hasher)->0
    }

    /// Takes the encoded chunk for place `expected_index` and hands out what
    /// has to be unsealed. A refused chunk changes nothing.
    pub fn decrypt_begin(&mut self, expected_index: u32, encoded: &[u8]) -> (r: Result<
        (WrappedItemKey, EncryptedChunk),
        SyncError,
    >)
        ensures
            match r {
                Ok((w, c)) => {
                    &&& refusal(old(self).seen_id(), expected_index as nat, encoded@) is None
                    &&& sealed_view(w, c) == chunk_parts(encoded@)
                    &&& final(self).seen_id() == Some(chunk_parts(encoded@).blob_id)
                    &&& final(self).fed() == old(self).fed()
                },
                Err(e) => {
                    &&& refusal(old(self).seen_id(), expected_index as nat, encoded@) == Some(e@)
                    &&& *final(self) == *old(self)
                },
            },
    {
        proof {
            use_type_invariant(&*self);
        }
        let (wrapped, chunk) = match decode_blob_chunk(encoded) {
            Ok(parts) => parts,
            Err(e) => return Err(e),
        };
        if chunk.chunk_index != expected_index {
            return Err(protocol("blob chunk index is not contiguous"));
        }
        if let Some(id) = &self.expected_blob_id {
            if !same_bytes(id.as_slice(), chunk.blob_id.as_slice()) {
                return Err(protocol("blob id changed between chunks"));
            }
        }
        self.expected_blob_id = Some(chunk.blob_id);
        Ok((wrapped, chunk))
    }

    /// Takes what unsealing the chunk gave, and hands out its plain bytes.
    pub fn decrypt_end(&mut self, plaintext: Result<Vec<u8>, String>) -> (r: Result<
        Vec<u8>,
        SyncError,
    >)
        ensures
            final(self).seen_id() == old(self).seen_id(),
            match plaintext {
                Ok(b) => {
                    &&& r == Ok::<Vec<u8>, SyncError>(b)
                    &&& final(self).fed() == old(self).fed() + b@
                },
                Err(m) => {
                    &&& r matches Err(e)
                    &&& e@ == SyncErrorView::Failed(m@)
                    &&& final(self).fed() == old(self).fed()
                },
            },
    {
        match plaintext {
            Ok(b) => {
                proof {
                    use_type_invariant(&*self);
                }
                let mut hasher = new_hasher();
                std::mem::swap(&mut hasher, &mut self.hasher);
                feed_hasher(&mut hasher, b.as_slice());
                self.hasher = hasher;
                Ok(b)
            },
            Err(m) => Err(crypto_failed(m)),
        }
    }

    /// Takes the encoded chunk for place `expected_index` together with what
    /// unsealing it gave, and hands out its plain bytes.
    pub fn decrypt(
        &mut self,
        expected_index: u32,
        encoded: &[u8],
        unsealed: Result<Vec<u8>, String>,
    ) -> (r: Result<Vec<u8>, SyncError>)
        ensures
            match refusal(old(self).seen_id(), expected_index as nat, encoded@) {
                Some(e) => r is Err && r->Err_0@ == e && *final(self) == *old(self),
                None => {
                    &&& final(self).seen_id() == Some(chunk_parts(encoded@).blob_id)
                    &&& match unsealed {
                        Ok(b) => {
                            &&& r == Ok::<Vec<u8>, SyncError>(b)
                            &&& final(self).fed() == old(self).fed() + b@
                        },
                        Err(m) => {
                            &&& r is Err && r->Err_0@ == SyncErrorView::Failed(m@)
                            &&& final(self).fed() == old(self).fed()
                        },
                    }
                },
            },
    {
        match self.decrypt_begin(expected_index, encoded) {
            Ok(_) => self.decrypt_end(unsealed),
            Err(e) => Err(e),
        }
    }

    /// The digest of all plain bytes so far.
    pub fn plaintext_hash(&self) -> (r: [u8; 32])
        ensures
            r@ == blake3_of(self.fed()),
    {
        proof {
            use_type_invariant(self);
        }
        hasher_digest(&self.hasher)
    }

    /// Ends an item. Its identity must be the digest of its plain bytes, or the
    /// tag that the account key makes of that digest.
    pub fn finish(self, dedup_tag: &[u8; 32]) -> (r: Result<(), SyncError>)
        ensures
            match self.seen_id() {
                None => r matches Err(e) && e@ == SyncErrorView::Protocol(
                    "encrypted blob has no chunks"@,
                ),
                Some(id) => if id == dedup_tag@ || id == blake3_of(self.fed()) {
                    r is Ok
                } else {
                    r matches Err(e) && e@ == SyncErrorView::Failed(
                        "blob plaintext hash mismatch"@,
                    )
                },
            },
    {
        let hash = self.plaintext_hash();
        match &self.expected_blob_id {
            None => Err(protocol("encrypted blob has no chunks")),
            Some(id) => if !same_bytes(id.as_slice(), dedup_tag.as_slice()) && !same_bytes(
                id.as_slice(),
                hash.as_slice(),
            ) {
                Err(failed("blob plaintext hash mismatch"))
            } else {
                Ok(())
            },
        }
    }
}

/// A chunk that was encoded for its place is accepted there, and at no other
/// place: chunks of one item cannot be reordered.
pub proof fn chunk_accepted_only_in_place(v: SealedChunkView, id: Option<Seq<u8>>, index: nat)
    requires
        sealed_widths(v),
        id is Some ==> id->0 == v.blob_id,
    ensures
        refusal(id, index, chunk_bytes(v)) is None <==> index == v.chunk_index,
{
    chunk_decode_restores_encode(v);
}

/// What unsealing a chunk gave.
pub open spec fn unsealed_view(r: Result<Vec<u8>, String>) -> Result<Seq<u8>, Seq<char>> {
    match r {
        Ok(b) => Ok(b@),
        Err(m) => Err(m@),
    }
}

/// The identity and the plain bytes that the first `n` encoded chunks give, or
/// why one of them was refused. `plain` is what unsealing each gave.
pub open spec fn opened(
    encoded: Seq<Seq<u8>>,
    plain: Seq<Result<Seq<u8>, Seq<char>>>,
    n: nat,
) -> Result<(Option<Seq<u8>>, Seq<u8>), SyncErrorView>
    decreases n,
{
    if n == 0 {
        Ok((None, Seq::empty()))
    } else {
        let i = (n - 1) as nat;
        match opened(encoded, plain, i) {
            Err(e) => Err(e),
            Ok((id, text)) => if i > u32::MAX {
                Err(SyncErrorView::Protocol("blob has too many chunks"@))
            } else {
                match refusal(id, i, encoded[i as int]) {
                    Some(e) => Err(e),
                    None => match plain[i as int] {
                        Err(m) => Err(SyncErrorView::Failed(m)),
                        Ok(b) => Ok((Some(chunk_parts(encoded[i as int]).blob_id), text + b)),
                    },
                }
            },
        }
    }
}

/// The contents that encoded chunks give, or why they are refused.
pub open spec fn opened_blob(
    encoded: Seq<Seq<u8>>,
    plain: Seq<Result<Seq<u8>, Seq<char>>>,
    dedup_tag: Seq<u8>,
) -> Result<Seq<u8>, SyncErrorView> {
    if encoded.len() == 0 {
        Err(SyncErrorView::Protocol("encrypted blob has no chunks"@))
    } else {
        match opened(encoded, plain, encoded.len()) {
            Err(e) => Err(e),
            Ok((id, text)) => if id == Some(dedup_tag) || id == Some(blake3_of(text)) {
                Ok(text)
            } else {
                Err(SyncErrorView::Failed("blob plaintext hash mismatch"@))
            },
        }
    }
}

/// The contents that encoded chunks give. `unsealed` is what unsealing each
/// gave, and `dedup_tag` is the tag that the account key makes of the digest of
/// them all.
pub fn decrypt_blob_chunks(
    encoded: &[Vec<u8>],
    unsealed: Vec<Result<Vec<u8>, String>>,
    dedup_tag: &[u8; 32],
) -> (r: Result<Vec<u8>, SyncError>)
    requires
        encoded@.len() == unsealed@.len(),
    ensures
        match r {
            Ok(b) => opened_blob(
                contents(encoded@),
                unsealed@.map_values(|u| unsealed_view(u)),
                dedup_tag@,
            ) == Ok::<Seq<u8>, SyncErrorView>(b@),
            Err(e) => opened_blob(
                contents(encoded@),
                unsealed@.map_values(|u| unsealed_view(u)),
                dedup_tag@,
            ) == Err::<Seq<u8>, SyncErrorView>(e@),
        },
{
    let ghost all = contents(encoded@);
    let ghost plain = unsealed@.map_values(|u| unsealed_view(u));
    if encoded.len() == 0 {
        return Err(protocol("encrypted blob has no chunks"));
    }
    let mut text: Vec<u8> = Vec::new();
    let mut decryptor = BlobChunkDecryptor::default();
    let mut rest = unsealed;
    let mut i: usize = 0;
    while i < encoded.len()
        invariant
            i <= encoded@.len(),
            all == contents(encoded@),
            rest@.len() == encoded@.len() - i,
            rest@ == unsealed@.skip(i as int),
            encoded@.len() == unsealed@.len(),
            plain == unsealed@.map_values(|u| unsealed_view(u)),
            opened(all, plain, i as nat) == Ok::<(Option<Seq<u8>>, Seq<u8>), SyncErrorView>(
                (decryptor.seen_id(), text@),
            ),
            decryptor.fed() == text@,
            i > 0 ==> decryptor.seen_id() is Some,
        decreases encoded@.len() - i,
    {
        proof {
            lemma_opened_error(all, plain, (i + 1) as nat, all.len());
        }
        if i > u32::MAX as usize {
            return Err(protocol("blob has too many chunks"));
        }
        let one = rest.remove(0);
        assert(one == unsealed@[i as int]);
        assert(rest@ =~= unsealed@.skip(i + 1));
        assert(plain[i as int] == unsealed_view(one));
        match decryptor.decrypt(i as u32, encoded[i].as_slice(), one) {
            Ok(b) => push_all(&mut text, b.as_slice()),
            Err(e) => return Err(e),
        }
        i += 1;
    }
    match decryptor.finish(dedup_tag) {
        Ok(_) => Ok(text),
        Err(e) => Err(e),
    }
}

/// A chunk that was refused is what the whole is refused for.
proof fn lemma_opened_error(
    encoded: Seq<Seq<u8>>,
    plain: Seq<Result<Seq<u8>, Seq<char>>>,
    n: nat,
    m: nat,
)
    requires
        n <= m,
    ensures
        opened(encoded, plain, n) is Err ==> opened(encoded, plain, m) == opened(encoded, plain, n),
    decreases m,
{
    if n < m {
        lemma_opened_error(encoded, plain, n, (m - 1) as nat);
    }
}

/// The plain bytes of the first `n` chunks.
pub open spec fn whole(parts: Seq<Seq<u8>>, n: nat) -> Seq<u8>
    decreases n,
{
    if n == 0 {
        Seq::empty()
    } else {
        whole(parts, (n - 1) as nat) + parts[n - 1]
    }
}

/// The chunks of an item give back its contents, if each was sealed for its
/// place under the item's identity and unsealing gives what was sealed.
pub proof fn blob_opens_as_sealed(
    sealed: Seq<SealedChunkView>,
    parts: Seq<Seq<u8>>,
    blob_id: Seq<u8>,
    dedup_tag: Seq<u8>,
)
    requires
        0 < sealed.len() == parts.len() <= 0x1_0000_0000,
        forall|i: int|
            0 <= i < sealed.len() ==> sealed_widths(#[trigger] sealed[i]) && sealed[i].chunk_index
                == i && sealed[i].blob_id == blob_id,
        blob_id == dedup_tag || blob_id == blake3_of(whole(parts, parts.len())),
    ensures
        opened_blob(
            sealed.map_values(|v| chunk_bytes(v)),
            parts.map_values(|b| Ok::<Seq<u8>, Seq<char>>(b)),
            dedup_tag,
        ) == Ok::<Seq<u8>, SyncErrorView>(whole(parts, parts.len())),
{
    lemma_opened_prefix(sealed, parts, blob_id, sealed.len());
}

proof fn lemma_opened_prefix(
    sealed: Seq<SealedChunkView>,
    parts: Seq<Seq<u8>>,
    blob_id: Seq<u8>,
    n: nat,
)
    requires
        n <= sealed.len() == parts.len() <= 0x1_0000_0000,
        forall|i: int|
            0 <= i < sealed.len() ==> sealed_widths(#[trigger] sealed[i]) && sealed[i].chunk_index
                == i && sealed[i].blob_id == blob_id,
    ensures
        opened(
            sealed.map_values(|v| chunk_bytes(v)),
            parts.map_values(|b| Ok::<Seq<u8>, Seq<char>>(b)),
            n,
        ) == Ok::<(Option<Seq<u8>>, Seq<u8>), SyncErrorView>(
            (
                if n == 0 {
                    None
                } else {
                    Some(blob_id)
                },
                whole(parts, n),
            ),
        ),
    decreases n,
{
    if n > 0 {
        let i = (n - 1) as nat;
        lemma_opened_prefix(sealed, parts, blob_id, i);
        let v = sealed[i as int];
        let id = if i == 0 {
            None
        } else {
            Some(blob_id)
        };
        chunk_decode_restores_encode(v);
        chunk_accepted_only_in_place(v, id, i);
        let encoded = sealed.map_values(|v: SealedChunkView| chunk_bytes(v));
        assert(encoded[i as int] == chunk_bytes(v));
        let plain = parts.map_values(|b: Seq<u8>| Ok::<Seq<u8>, Seq<char>>(b));
        assert(plain[i as int] == Ok::<Seq<u8>, Seq<char>>(parts[i as int]));
    }
}

/// Where chunk `i` of contents of `len` bytes begins.
pub open spec fn chunk_start(i: int) -> int {
    i * CHUNK_SIZE
}

/// Where chunk `i` of contents of `len` bytes ends.
pub open spec fn chunk_end(len: int, i: int) -> int {
    if chunk_start(i + 1) <= len {
        chunk_start(i + 1)
    } else {
        len
    }
}

/// The number of chunks of contents of `len` bytes.
pub open spec fn chunk_total(len: int) -> int {
    (len + CHUNK_SIZE - 1) / CHUNK_SIZE as int
}

/// The ranges of the chunks of contents of `len` bytes.
pub fn encrypt_blob_chunks(len: usize) -> (r: Result<Vec<(usize, usize)>, SyncError>)
    ensures
        match r {
            Ok(ranges) => {
                &&& chunk_total(len as int) <= 0x1_0000_0000
                &&& ranges@.len() == chunk_total(len as int)
                &&& forall|i: int|
                    0 <= i < ranges@.len() ==> (#[trigger] ranges@[i]).0 == chunk_start(i)
                        && ranges@[i].1 == chunk_end(len as int, i)
            },
            Err(e) => {
                &&& chunk_total(len as int) > 0x1_0000_0000
                &&& e@ == SyncErrorView::Protocol("blob has too many chunks"@)
            },
        },
{
    let mut out: Vec<(usize, usize)> = Vec::new();
    let mut at: usize = 0;
    let mut i: u64 = 0;
    while at < len
        invariant
            at <= len,
            i == out@.len(),
            i <= 0x1_0000_0000,
            at == if chunk_start(i as int) <= len {
                chunk_start(i as int)
            } else {
                len as int
            },
            at < len ==> at == chunk_start(i as int),
            chunk_start(i - 1) < len,
            forall|j: int|
                0 <= j < out@.len() ==> (#[trigger] out@[j]).0 == chunk_start(j) && out@[j].1
                    == chunk_end(len as int, j),
        decreases len - at,
    {
        if i >= 0x1_0000_0000 {
            return Err(protocol("blob has too many chunks"));
        }
        let end: usize = if len - at > CHUNK_SIZE {
            at + CHUNK_SIZE
        } else {
            len
        };
        out.push((at, end));
        at = end;
        i += 1;
    }
    Ok(out)
}

/// The chunks of contents follow one another without gap or overlap, from the
/// first byte to the last, and none is longer than the chunk size.
pub proof fn chunks_cover_contents(len: int, i: int)
    requires
        0 <= len,
        0 <= i < chunk_total(len),
    ensures
        chunk_start(0) == 0,
        chunk_start(i) < chunk_end(len, i) <= len,
        chunk_end(len, i) - chunk_start(i) <= CHUNK_SIZE,
        i + 1 < chunk_total(len) ==> chunk_end(len, i) == chunk_start(i + 1),
        i + 1 == chunk_total(len) ==> chunk_end(len, i) == len,
{
}

/// The bytes by which sealing makes a chunk longer.
pub const SEAL_OVERHEAD: usize = 16;

/// Chunk `i` of some contents.
pub open spec fn chunk_of(bytes: Seq<u8>, i: int) -> Seq<u8> {
    bytes.subrange(chunk_start(i), chunk_end(bytes.len() as int, i))
}

/// The encoded chunks of some contents, where `seal` seals the bytes for a
/// place.
pub open spec fn encoded_chunks(
    seal: spec_fn(nat, Seq<u8>) -> SealedChunkView,
    bytes: Seq<u8>,
) -> Seq<Seq<u8>> {
    Seq::new(
        chunk_total(bytes.len() as int) as nat,
        |i: int| chunk_bytes(seal(i as nat, chunk_of(bytes, i))),
    )
}

/// What unsealing gives of each encoded chunk.
pub open spec fn unsealed_chunks(
    unseal: spec_fn(SealedChunkView) -> Result<Seq<u8>, Seq<char>>,
    encoded: Seq<Seq<u8>>,
) -> Seq<Result<Seq<u8>, Seq<char>>> {
    encoded.map_values(|e: Seq<u8>| unseal(chunk_parts(e)))
}

/// Whether sealing carries the place and the identity, lengthens the bytes by the
/// overhead, and is undone by unsealing.
pub open spec fn seals_faithfully(
    seal: spec_fn(nat, Seq<u8>) -> SealedChunkView,
    unseal: spec_fn(SealedChunkView) -> Result<Seq<u8>, Seq<char>>,
    blob_id: Seq<u8>,
) -> bool {
    forall|i: nat, b: Seq<u8>|
        i <= u32::MAX && b.len() <= CHUNK_SIZE ==> {
            let v = #[trigger] seal(i, b);
            &&& sealed_widths(v)
            &&& v.chunk_index == i
            &&& v.blob_id == blob_id
            &&& v.ciphertext.len() == b.len() + SEAL_OVERHEAD
            &&& unseal(v) == Ok::<Seq<u8>, Seq<char>>(b)
        }
}

proof fn lemma_whole_chunks(bytes: Seq<u8>, parts: Seq<Seq<u8>>, n: nat)
    requires
        parts.len() == chunk_total(bytes.len() as int),
        n <= parts.len(),
        forall|i: int| 0 <= i < parts.len() ==> #[trigger] parts[i] == chunk_of(bytes, i),
    ensures
        whole(parts, n) == bytes.take(
            if chunk_start(n as int) <= bytes.len() {
                chunk_start(n as int)
            } else {
                bytes.len() as int
            },
        ),
    decreases n,
{
    if n > 0 {
        let i = n - 1;
        lemma_whole_chunks(bytes, parts, i as nat);
        chunks_cover_contents(bytes.len() as int, i);
        assert(bytes.take(chunk_start(i)) + chunk_of(bytes, i) =~= bytes.take(
            chunk_end(bytes.len() as int, i),
        ));
    }
}

/// What the chunks up to a place give rests on those chunks alone.
proof fn lemma_opened_agrees(
    encoded: Seq<Seq<u8>>,
    plain: Seq<Result<Seq<u8>, Seq<char>>>,
    other: Seq<Seq<u8>>,
    other_plain: Seq<Result<Seq<u8>, Seq<char>>>,
    n: nat,
)
    requires
        forall|i: int| 0 <= i < n ==> #[trigger] encoded[i] == other[i],
        forall|i: int| 0 <= i < n ==> #[trigger] plain[i] == other_plain[i],
    ensures
        opened(encoded, plain, n) == opened(other, other_plain, n),
    decreases n,
{
    if n > 0 {
        lemma_opened_agrees(encoded, plain, other, other_plain, (n - 1) as nat);
    }
}

/// Contents open as they were sealed: there is one chunk for each chunk size or
/// part of it, none is longer than a chunk with its header and its overhead, and
/// together they give the contents back. Two chunks that were exchanged are
/// refused, and so are no chunks, which is what empty contents give. `seal` and
/// `unseal` stand for the sealing and unsealing of a chunk.
pub proof fn contents_open_as_sealed(
    seal: spec_fn(nat, Seq<u8>) -> SealedChunkView,
    unseal: spec_fn(SealedChunkView) -> Result<Seq<u8>, Seq<char>>,
    bytes: Seq<u8>,
    blob_id: Seq<u8>,
    dedup_tag: Seq<u8>,
)
    requires
        seals_faithfully(seal, unseal, blob_id),
        blob_id == dedup_tag || blob_id == blake3_of(bytes),
        chunk_total(bytes.len() as int) <= 0x1_0000_0000,
    ensures
        ({
            let encoded = encoded_chunks(seal, bytes);
            let plain = unsealed_chunks(unseal, encoded);
            &&& encoded.len() == (bytes.len() + CHUNK_SIZE - 1) / CHUNK_SIZE as int
            &&& forall|i: int|
                0 <= i < encoded.len() ==> (#[trigger] encoded[i]).len() <= CHUNK_SIZE
                    + BLOB_CHUNK_HEADER + SEAL_OVERHEAD
            &&& bytes.len() > 0 ==> opened_blob(encoded, plain, dedup_tag) == Ok::<
                Seq<u8>,
                SyncErrorView,
            >(bytes)
            &&& bytes.len() == 0 ==> opened_blob(encoded, plain, dedup_tag) == Err::<
                Seq<u8>,
                SyncErrorView,
            >(SyncErrorView::Protocol("encrypted blob has no chunks"@))
            &&& forall|i: int, j: int|
                0 <= i < j < encoded.len() ==> {
                    let swapped = #[trigger] exchanged(encoded, i, j);
                    opened_blob(swapped, unsealed_chunks(unseal, swapped), dedup_tag) == Err::<
                        Seq<u8>,
                        SyncErrorView,
                    >(SyncErrorView::Protocol("blob chunk index is not contiguous"@))
                }
        }),
{
    let len = bytes.len() as int;
    let n = chunk_total(len) as nat;
    let sealed = Seq::new(n, |i: int| seal(i as nat, chunk_of(bytes, i)));
    let parts = Seq::new(n, |i: int| chunk_of(bytes, i));
    let encoded = encoded_chunks(seal, bytes);
    let plain = unsealed_chunks(unseal, encoded);
    assert forall|i: int| 0 <= i < n implies {
        &&& sealed_widths(#[trigger] sealed[i])
        &&& sealed[i].chunk_index == i
        &&& sealed[i].blob_id == blob_id
        &&& encoded[i] == chunk_bytes(sealed[i])
        &&& plain[i] == Ok::<Seq<u8>, Seq<char>>(parts[i])
        &&& chunk_error(encoded[i]) is None
        &&& chunk_parts(encoded[i]) == sealed[i]
        &&& encoded[i].len() <= CHUNK_SIZE + BLOB_CHUNK_HEADER + SEAL_OVERHEAD
    } by {
        chunks_cover_contents(len, i);
        assert(chunk_of(bytes, i).len() <= CHUNK_SIZE);
        let v = seal(i as nat, chunk_of(bytes, i));
        assert(sealed[i] == v);
        chunk_decode_restores_encode(v);
        assert(chunk_bytes(v).len() == BLOB_CHUNK_HEADER + v.ciphertext.len());
    }
    assert forall|i: int| 0 <= i < n implies (#[trigger] encoded[i]).len() <= CHUNK_SIZE
        + BLOB_CHUNK_HEADER + SEAL_OVERHEAD by {
        assert(sealed_widths(sealed[i]));
    }
    assert(encoded =~= sealed.map_values(|v| chunk_bytes(v)));
    assert(plain =~= parts.map_values(|b| Ok::<Seq<u8>, Seq<char>>(b))) by {
        assert forall|i: int| 0 <= i < n implies #[trigger] plain[i] == Ok::<Seq<u8>, Seq<char>>(
            parts[i],
        ) by {
            assert(sealed_widths(sealed[i]));
        }
    }
    lemma_whole_chunks(bytes, parts, n);
    assert(whole(parts, n) =~= bytes);
    if len > 0 {
        blob_opens_as_sealed(sealed, parts, blob_id, dedup_tag);
    }
    assert forall|i: int, j: int| 0 <= i < j < encoded.len() implies {
        let swapped = #[trigger] exchanged(encoded, i, j);
        opened_blob(swapped, unsealed_chunks(unseal, swapped), dedup_tag) == Err::<
            Seq<u8>,
            SyncErrorView,
        >(SyncErrorView::Protocol("blob chunk index is not contiguous"@))
    } by {
        let swapped = exchanged(encoded, i, j);
        let swapped_plain = unsealed_chunks(unseal, swapped);
        lemma_opened_prefix(sealed, parts, blob_id, i as nat);
        assert forall|k: int| 0 <= k < i implies #[trigger] plain[k] == swapped_plain[k] by {
            assert(encoded[k] == swapped[k]);
        }
        lemma_opened_agrees(encoded, plain, swapped, swapped_plain, i as nat);
        assert(swapped[i] == encoded[j]);
        assert(sealed_widths(sealed[j]));
        assert(opened(swapped, swapped_plain, (i + 1) as nat) == Err::<
            (Option<Seq<u8>>, Seq<u8>),
            SyncErrorView,
        >(SyncErrorView::Protocol("blob chunk index is not contiguous"@)));
        lemma_opened_error(swapped, swapped_plain, (i + 1) as nat, swapped.len());
    }
}

/// A sequence with two places exchanged.
pub open spec fn exchanged(s: Seq<Seq<u8>>, i: int, j: int) -> Seq<Seq<u8>> {
    s.update(i, s[j]).update(j, s[i])
}

/// Contents travel in the package itself just if there are any, even none in number of
/// bytes, and they have no more than 256 kibibytes.
pub proof fn small_contents_travel_inline(payload: Seq<u8>)
    ensures
        travels_inline(Some(payload)) <==> payload.len() <= 256 * 1024,
        !travels_inline(None),
{
}

/// A package is made whenever its parts could be sealed, of exactly those parts, and
/// what could be unsealed is handed on as it is.
pub proof fn sealed_parts_make_a_package<P>(meta: P, body: P, failure: Seq<char>, bytes: Seq<u8>)
    ensures
        packed(Ok::<P, Seq<char>>(meta), None) == Ok::<SyncPackage<P>, SyncErrorView>(
            SyncPackage { meta, body: None, chunk_count: 0 },
        ),
        packed(Ok::<P, Seq<char>>(meta), Some(Ok::<P, Seq<char>>(body))) == Ok::<
            SyncPackage<P>,
            SyncErrorView,
        >(SyncPackage { meta, body: Some(body), chunk_count: 0 }),
        packed(Err::<P, Seq<char>>(failure), None) == Err::<SyncPackage<P>, SyncErrorView>(
            SyncErrorView::Failed(failure),
        ),
        packed(Ok::<P, Seq<char>>(meta), Some(Err::<P, Seq<char>>(failure))) == Err::<
            SyncPackage<P>,
            SyncErrorView,
        >(SyncErrorView::Failed(failure)),
        unpacked_meta(Ok::<Seq<u8>, Seq<char>>(bytes)) == Ok::<Seq<u8>, SyncErrorView>(bytes),
        unpacked_meta(Err::<Seq<u8>, Seq<char>>(failure)) == Err::<Seq<u8>, SyncErrorView>(
            SyncErrorView::Failed(failure),
        ),
        unpacked_body(None) == Ok::<Option<Seq<u8>>, SyncErrorView>(None),
        unpacked_body(Some(Ok::<Seq<u8>, Seq<char>>(bytes))) == Ok::<
            Option<Seq<u8>>,
            SyncErrorView,
        >(Some(bytes)),
        unpacked_body(Some(Err::<Seq<u8>, Seq<char>>(failure))) == Err::<
            Option<Seq<u8>>,
            SyncErrorView,
        >(SyncErrorView::Failed(failure)),
{
}

/// Contents are cut every four mebibytes, and into no more chunks than that takes.
pub proof fn contents_are_cut_every_four_mebibytes(len: int, i: int)
    requires
        0 <= len,
        0 <= i < chunk_total(len),
    ensures
        chunk_start(i) == i * (4 * 1024 * 1024),
        chunk_end(len, i) == (if (i + 1) * (4 * 1024 * 1024) <= len {
            (i + 1) * (4 * 1024 * 1024)
        } else {
            len
        }),
        chunk_total(len) * (4 * 1024 * 1024) >= len,
        (chunk_total(len) - 1) * (4 * 1024 * 1024) < len,
{
}

/// A sealed chunk can be encoded whenever its nonces have twenty-four bytes, its key
/// forty-eight, its identity thirty-two, and its place and its length fit into four
/// bytes.
pub proof fn chunks_of_fixed_widths_are_encoded(v: SealedChunkView)
    ensures
        sealed_widths(v) <==> {
            &&& v.key_nonce.len() == 24
            &&& v.nonce.len() == 24
            &&& v.key_ciphertext.len() == 48
            &&& v.blob_id.len() == 32
            &&& v.chunk_index < 0x1_0000_0000
            &&& v.ciphertext.len() < 0x1_0000_0000
        },
        sealed_widths(v) ==> chunk_bytes(v).len() == 140 + v.ciphertext.len(),
{
    crate::bytes::lemma_le_len(v.chunk_index, 4);
    crate::bytes::lemma_le_len(v.ciphertext.len(), 4);
}

/// Bytes are an encoded chunk just if they have at least the 140 bytes of its head,
/// begin with the tag, and have the length that the head names. Such a chunk is taken
/// just if it is the one for its place and carries the identity of those before it.
pub proof fn chunks_are_taken_in_turn(b: Seq<u8>, id: Option<Seq<u8>>, index: nat)
    ensures
        chunk_error(b) is None <==> {
            &&& b.len() >= 140
            &&& b[0] == 0x41 && b[1] == 0x53 && b[2] == 0x42 && b[3] == 0x31
            &&& b.len() - 140 == le_value(b.subrange(136, 140))
        },
        refusal(id, index, b) is None <==> {
            &&& chunk_error(b) is None
            &&& le_value(b.subrange(108, 112)) == index
            &&& id is None || id->0 == b.subrange(76, 108)
        },
{
    if b.len() >= 140 {
        assert(chunk_tag().len() == 4);
        if b[0] == 0x41 && b[1] == 0x53 && b[2] == 0x42 && b[3] == 0x31 {
            assert(b.subrange(0, 4) =~= chunk_tag());
        }
        if b.subrange(0, 4) == chunk_tag() {
            assert(b.subrange(0, 4)[0] == 0x41 && b.subrange(0, 4)[1] == 0x53);
            assert(b.subrange(0, 4)[2] == 0x42 && b.subrange(0, 4)[3] == 0x31);
        }
    }
}

proof fn lemma_opened_chunks(
    encoded: Seq<Seq<u8>>,
    plain: Seq<Result<Seq<u8>, Seq<char>>>,
    n: nat,
)
    requires
        n <= encoded.len() == plain.len(),
        opened(encoded, plain, n) is Ok,
    ensures
        opened(encoded, plain, n)->Ok_0.1 == whole(
            plain.map_values(|p: Result<Seq<u8>, Seq<char>>| p->Ok_0),
            n,
        ),
        n > 0 ==> opened(encoded, plain, n)->Ok_0.0 == Some(
            chunk_parts(encoded[n - 1]).blob_id,
        ),
        n == 0 ==> opened(encoded, plain, n)->Ok_0.0 is None,
        forall|i: int|
            0 <= i < n ==> {
                &&& (#[trigger] plain[i]) is Ok
                &&& chunk_error(encoded[i]) is None
                &&& chunk_parts(encoded[i]).chunk_index == i
                &&& chunk_parts(encoded[i]).blob_id == chunk_parts(encoded[0]).blob_id
            },
    decreases n,
{
    if n > 0 {
        let i = (n - 1) as nat;
        lemma_opened_chunks(encoded, plain, i);
        assert(plain[i as int] is Ok);
        if i > 0 {
            assert(plain[i - 1] is Ok);
        }
    }
}

/// What is opened is whole and in order: it is the plain bytes of all chunks one after
/// the other, where each chunk stood in its place, all carry one identity, and that is
/// the digest of the bytes or the tag that the account key makes of it.
pub proof fn opened_contents_are_whole(
    encoded: Seq<Seq<u8>>,
    plain: Seq<Result<Seq<u8>, Seq<char>>>,
    dedup_tag: Seq<u8>,
    i: int,
)
    requires
        encoded.len() == plain.len(),
        opened_blob(encoded, plain, dedup_tag) is Ok,
        0 <= i < encoded.len(),
    ensures
        ({
            let text = opened_blob(encoded, plain, dedup_tag)->Ok_0;
            let id = chunk_parts(encoded[i]).blob_id;
            &&& text == whole(
                plain.map_values(|p: Result<Seq<u8>, Seq<char>>| p->Ok_0),
                encoded.len(),
            )
            &&& plain[i] is Ok
            &&& chunk_parts(encoded[i]).chunk_index == i
            &&& id == chunk_parts(encoded[0]).blob_id
            &&& id == dedup_tag || id == blake3_of(text)
        }),
{
    let n = encoded.len();
    lemma_opened_chunks(encoded, plain, n);
    assert(plain[n - 1] is Ok);
    assert(plain[i] is Ok);
}


/// A sealed chunk is encoded, `r`, just if its key has forty-eight bytes and its length
/// fits into four, and is decoded, `d`, as it was.
pub proof fn chunks_are_read_as_written(
    w: WrappedItemKey,
    c: EncryptedChunk,
    r: Result<Vec<u8>, SyncError>,
    bytes: &[u8],
    d: Result<(WrappedItemKey, EncryptedChunk), SyncError>,
)
    requires
        call_ensures(encode_blob_chunk, (&w, &c), r),
        r is Ok ==> bytes@ == r->Ok_0@,
        call_ensures(decode_blob_chunk, (bytes,), d),
    ensures
        r is Ok <==> w.ciphertext@.len() == 48 && c.ciphertext@.len() <= 0xffff_ffff,
        r is Ok ==> {
            &&& r->Ok_0@.len() == 140 + c.ciphertext@.len()
            &&& d is Ok
            &&& d->Ok_0.0.nonce@ == w.nonce@ && d->Ok_0.0.ciphertext@ == w.ciphertext@
            &&& d->Ok_0.1.blob_id@ == c.blob_id@ && d->Ok_0.1.chunk_index == c.chunk_index
            &&& d->Ok_0.1.nonce@ == c.nonce@ && d->Ok_0.1.ciphertext@ == c.ciphertext@
        },
{
    let v = sealed_view(w, c);
    if r is Ok {
        chunk_decode_restores_encode(v);
        chunks_of_fixed_widths_are_encoded(v);
        let e = sealed_view(d->Ok_0.0, d->Ok_0.1);
        assert(e == v);
    }
}

/// Contents travel in the package just if they are there and have no more than 256
/// kibibytes; a package that was sealed is made of its parts; and its text reads back.
pub proof fn packages_hold_their_parts<P>(
    payload: Option<&[u8]>,
    inline: bool,
    meta: Result<P, String>,
    body: Option<Result<P, String>>,
    r: Result<SyncPackage<P>, SyncError>,
    serialised: &[u8],
    text: String,
    typed: &str,
    b: Result<Vec<u8>, SyncError>,
)
    requires
        call_ensures(is_inline, (payload,), inline),
        call_ensures(pack::<P>, (meta, body), r),
        call_ensures(encode_package, (serialised,), text),
        typed@ == text@,
        call_ensures(decode_package, (typed,), b),
    ensures
        inline <==> payload is Some && payload->0@.len() <= 256 * 1024,
        r is Ok <==> meta is Ok && (body is None || body->0 is Ok),
        r is Ok ==> r->Ok_0.meta == meta->Ok_0 && r->Ok_0.chunk_count == 0,
        r is Ok ==> (r->Ok_0.body is Some) == (body is Some),
        r is Ok && body is Some ==> r->Ok_0.body == Some(body->0->Ok_0),
        b is Ok && b->Ok_0@ == serialised@,
{
    hexcodec::decode_restores_encode(serialised@);
}

/// What could be unsealed of a package is handed on as it is.
pub proof fn unsealed_parts_are_handed_on(
    meta: Result<Vec<u8>, String>,
    m: Result<Vec<u8>, SyncError>,
    body: Option<Result<Vec<u8>, String>>,
    b: Result<Option<Vec<u8>>, SyncError>,
)
    requires
        call_ensures(unpack_meta, (meta,), m),
        call_ensures(unpack_body, (body,), b),
    ensures
        m is Ok <==> meta is Ok,
        m is Ok ==> m->Ok_0@ == meta->Ok_0@,
        b is Ok <==> body is None || body->0 is Ok,
        b is Ok ==> (b->Ok_0 is Some) == (body is Some),
        b is Ok && body is Some ==> b->Ok_0->0@ == body->0->Ok_0@,
{
}

/// Contents are cut into chunks that lie side by side, begin every four mebibytes and cover
/// all of it.
pub proof fn contents_are_cut_side_by_side(
    len: usize,
    r: Result<Vec<(usize, usize)>, SyncError>,
    i: int,
)
    requires
        call_ensures(encrypt_blob_chunks, (len,), r),
    ensures
        len <= 0x1_0000_0000 * 4194304 ==> r is Ok,
        r is Ok ==> {
            let n = r->Ok_0@.len();
            &&& len == 0 <==> n == 0
            &&& n * 4194304 >= len
            &&& 0 <= i < n ==> r->Ok_0@[i].0 == i * 4194304
            &&& 0 <= i < n - 1 ==> r->Ok_0@[i].1 == (i + 1) * 4194304
            &&& n > 0 ==> r->Ok_0@[n - 1].1 == len
        },
{
}

/// A chunk is taken, `r`, just if it is an encoded chunk for its place with the identity of
/// those before it, and could be unsealed. What was refused changes nothing.
pub proof fn chunks_are_decrypted_in_turn(
    d: &mut BlobChunkDecryptor,
    index: u32,
    encoded: &[u8],
    unsealed: Result<Vec<u8>, String>,
    r: Result<Vec<u8>, SyncError>,
)
    requires
        call_ensures(BlobChunkDecryptor::decrypt, (d, index, encoded, unsealed), r),
    ensures
        ({
            let b = encoded@;
            let fits = {
                &&& b.len() >= 140
                &&& b[0] == 0x41 && b[1] == 0x53 && b[2] == 0x42 && b[3] == 0x31
                &&& b.len() - 140 == le_value(b.subrange(136, 140))
                &&& le_value(b.subrange(108, 112)) == index
                &&& old(d).seen_id() is None || old(d).seen_id()->0 == b.subrange(76, 108)
            };
            &&& r is Ok <==> fits && unsealed is Ok
            &&& r is Ok ==> r->Ok_0 == unsealed->Ok_0 && final(d).fed() == old(d).fed()
                + unsealed->Ok_0@
            &&& r is Err ==> final(d).fed() == old(d).fed()
            &&& fits ==> final(d).seen_id() == Some(b.subrange(76, 108))
            &&& !fits ==> *final(d) == *old(d)
        }),
{
    chunks_are_taken_in_turn(encoded@, old(d).seen_id(), index as nat);
}

/// Contents are accepted at the end just if there were chunks and their identity is the
/// tag or the digest of all that was unsealed.
pub proof fn whole_contents_are_accepted(
    d: BlobChunkDecryptor,
    tag: [u8; 32],
    r: Result<(), SyncError>,
    h: [u8; 32],
)
    requires
        call_ensures(BlobChunkDecryptor::finish, (d, &tag), r),
        call_ensures(BlobChunkDecryptor::plaintext_hash, (&d,), h),
    ensures
        r is Ok <==> d.seen_id() is Some && (d.seen_id() == Some(tag@) || d.seen_id() == Some(h@)),
{
}


/// What is opened of sealed chunks, `r`, is all that was unsealed, one after the other, and
/// nothing else; it is opened only if there are chunks, each in its place, and all could be
/// unsealed.
pub proof fn blobs_open_whole(
    encoded: &[Vec<u8>],
    unsealed: Vec<Result<Vec<u8>, String>>,
    tag: [u8; 32],
    r: Result<Vec<u8>, SyncError>,
    i: int,
)
    requires
        encoded@.len() == unsealed@.len(),
        call_ensures(decrypt_blob_chunks, (encoded, unsealed, &tag), r),
    ensures
        encoded@.len() == 0 ==> r is Err,
        r is Ok && 0 <= i < encoded@.len() ==> {
            &&& unsealed@[i] is Ok
            &&& encoded@[i]@.len() >= 140
            &&& le_value(encoded@[i]@.subrange(108, 112)) == i
            &&& encoded@[i]@.subrange(76, 108) == encoded@[0]@.subrange(76, 108)
            &&& encoded@[i]@.subrange(76, 108) == tag@ || encoded@[i]@.subrange(76, 108)
                == blake3_of(r->Ok_0@)
        },
        r is Ok ==> r->Ok_0@ == whole(
            unsealed@.map_values(|u| unsealed_view(u)).map_values(
                |p: Result<Seq<u8>, Seq<char>>| p->Ok_0,
            ),
            encoded@.len(),
        ),
{
    let cs = contents(encoded@);
    let plain = unsealed@.map_values(|u| unsealed_view(u));
    if r is Ok {
        assert(cs.len() > 0);
        opened_contents_are_whole(cs, plain, tag@, 0);
        if 0 <= i < encoded@.len() {
            opened_contents_are_whole(cs, plain, tag@, i);
            assert(cs[i] == encoded@[i]@);
            assert(cs[0] == encoded@[0]@);
            assert(plain[i] == unsealed_view(unsealed@[i]));
            lemma_opened_chunks(cs, plain, cs.len());
            chunks_are_taken_in_turn(cs[i], None, i as nat);
        }
    }
}


} // verus!
