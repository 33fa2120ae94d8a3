//! Frames around serialised envelopes and chunks on a stream.

use vstd::prelude::*;

use crate::bytes::{be_bytes, be_value, contents, push_all, push_be, read_be};
use crate::sync::error::{protocol, SyncError, SyncErrorView};
use crate::sync::payload::CHUNK_SIZE;
use crate::text::{copy_range, decimal, push_decimal};

verus! {

/// The longest serialised envelope, in bytes.
pub const MAX_FRAME: usize = 1048576;

/// What a serialised chunk may have beyond the chunk size.
pub const CHUNK_SLACK: usize = 128;

/// A frame: the length as four big-endian bytes, then the contents.
pub open spec fn framed(b: Seq<u8>) -> Seq<u8> {
    be_bytes(b.len(), 4) + b
}

/// The frame of a serialised envelope.
pub fn write_envelope(serialised: &[u8]) -> (r: Result<Vec<u8>, SyncError>)
    ensures
        match r {
            Ok(b) => serialised@.len() <= MAX_FRAME && b@ == framed(serialised@),
            Err(e) => serialised@.len() > MAX_FRAME && e@ == SyncErrorView::Protocol(
                "frame too large"@,
            ),
        },
{
    if serialised.len() > MAX_FRAME {
        return Err(protocol("frame too large"));
    }
    let mut out: Vec<u8> = Vec::new();
    push_be(&mut out, serialised.len() as u64, 4);
    push_all(&mut out, serialised);
    assert(out@ =~= framed(serialised@));
    Ok(out)
}

/// The length of the envelope that follows a frame's first four bytes.
pub fn read_envelope(head: &[u8]) -> (r: Result<usize, SyncError>)
    requires
        head@.len() == 4,
    ensures
        match r {
            Ok(len) => len == be_value(head@) && 0 < len <= MAX_FRAME,
            Err(e) => {
                &&& be_value(head@) == 0 || be_value(head@) > MAX_FRAME
                &&& e@ == SyncErrorView::Protocol("invalid frame length "@ + decimal(be_value(head@)))
            },
        },
{
    let len: u64 = read_be(head, 0, 4);
    proof {
        assert(head@.subrange(0, 4) =~= head@);
    }
    if len == 0 || len > MAX_FRAME as u64 {
        let mut text = "invalid frame length ".to_owned();
        push_decimal(&mut text, len as u128);
        return Err(SyncError::Protocol(text));
    }
    Ok(len as usize)
}

/// A frame that is written can be read, unless it is empty: its head gives the
/// length of the contents that follow.
pub proof fn frame_read_restores_write(b: Seq<u8>)
    requires
        0 < b.len() <= MAX_FRAME,
    ensures
        framed(b).len() == 4 + b.len(),
        be_value(framed(b).take(4)) == b.len(),
        framed(b).skip(4) == b,
{
    crate::bytes::lemma_pow256();
    crate::bytes::be_round_trip(b.len(), 4);
    assert(framed(b).take(4) =~= be_bytes(b.len(), 4));
    assert(framed(b).skip(4) =~= b);
}

/// The length of the next chunk on a stream: none at the end mark.
pub fn recv_chunk_len(len: u32) -> (r: Result<Option<usize>, SyncError>)
    ensures
        match r {
            Ok(None) => len == 0,
            Ok(Some(n)) => n == len && 0 < len <= CHUNK_SIZE + CHUNK_SLACK,
            Err(e) => len > CHUNK_SIZE + CHUNK_SLACK && e@ == SyncErrorView::Protocol(
                "chunk too large"@,
            ),
        },
{
    if len == 0 {
        return Ok(None);
    }
    if len as u64 > (CHUNK_SIZE + CHUNK_SLACK) as u64 {
        return Err(protocol("chunk too large"));
    }
    Ok(Some(len as usize))
}

/// The frame of a serialised chunk. Its length is cut to four bytes.
pub fn send_chunk_frame(serialised: &[u8]) -> (r: Vec<u8>)
    ensures
        r@ == framed(serialised@),
{
    let mut out: Vec<u8> = Vec::new();
    push_be(&mut out, serialised.len() as u64, 4);
    push_all(&mut out, serialised);
    assert(out@ =~= framed(serialised@));
    out
}

/// Serialised chunks on a stream: a frame for each, then a length of zero.
pub open spec fn chunk_stream(chunks: Seq<Seq<u8>>) -> Seq<u8>
    decreases chunks.len(),
{
    if chunks.len() == 0 {
        be_bytes(0, 4)
    } else {
        framed(chunks[0]) + chunk_stream(chunks.skip(1))
    }
}

/// Serialised chunks on a stream.
pub fn send_chunks(chunks: &[Vec<u8>]) -> (r: Vec<u8>)
    ensures
        r@ == chunk_stream(contents(chunks@)),
{
    let ghost all = contents(chunks@);
    let mut out: Vec<u8> = Vec::new();
    let mut i: usize = 0;
    assert(all.skip(0) =~= all);
    assert(out@ + chunk_stream(all) =~= chunk_stream(all));
    while i < chunks.len()
        invariant
            i <= chunks@.len(),
            all == contents(chunks@),
            chunk_stream(all) == out@ + chunk_stream(all.skip(i as int)),
        decreases chunks@.len() - i,
    {
        let frame = send_chunk_frame(chunks[i].as_slice());
        let ghost before = out@;
        push_all(&mut out, frame.as_slice());
        assert(all.skip(i as int)[0] == chunks@[i as int]@);
        assert(all.skip(i as int).skip(1) =~= all.skip(i + 1));
        assert(before + (framed(all[i as int]) + chunk_stream(all.skip(i + 1))) =~= (before + framed(
            all[i as int],
        )) + chunk_stream(all.skip(i + 1)));
        i += 1;
    }
    assert(all.skip(i as int).len() == 0);
    push_be(&mut out, 0, 4);
    out
}

/// What a stream of chunks holds, up to the length of zero, or why it cannot be
/// read: it ends too early, or a chunk is too large.
pub open spec fn chunks_in(b: Seq<u8>) -> Result<Seq<Seq<u8>>, SyncErrorView>
    decreases b.len(),
{
    if b.len() < 4 {
        Err(SyncErrorView::Io("unexpected end of file"@))
    } else {
        let n = be_value(b.take(4));
        if n == 0 {
            Ok(Seq::empty())
        } else if n > CHUNK_SIZE + CHUNK_SLACK {
            Err(SyncErrorView::Protocol("chunk too large"@))
        } else if b.len() < 4 + n {
            Err(SyncErrorView::Io("early eof"@))
        } else {
            after_chunks(seq![b.subrange(4, 4 + n as int)], chunks_in(b.skip(4 + n as int)))
        }
    }
}

/// Chunks and what follows them.
pub open spec fn after_chunks(
    first: Seq<Seq<u8>>,
    rest: Result<Seq<Seq<u8>>, SyncErrorView>,
) -> Result<Seq<Seq<u8>>, SyncErrorView> {
    match rest {
        Ok(r) => Ok(first + r),
        Err(e) => Err(e),
    }
}

/// The serialised chunks that a stream holds.
pub fn recv_chunks(stream: &[u8]) -> (r: Result<Vec<Vec<u8>>, SyncError>)
    ensures
        match r {
            Ok(v) => chunks_in(stream@) == Ok::<Seq<Seq<u8>>, SyncErrorView>(contents(v@)),
            Err(e) => chunks_in(stream@) == Err::<Seq<Seq<u8>>, SyncErrorView>(e@),
        },
{
    let mut out: Vec<Vec<u8>> = Vec::new();
    let mut at: usize = 0;
    let len: usize = stream.len();
    proof {
        assert(stream@.skip(0) =~= stream@);
        if chunks_in(stream@) is Ok {
            assert(contents(out@) + chunks_in(stream@)->Ok_0 =~= chunks_in(stream@)->Ok_0);
        }
    }
    loop
        invariant
            at <= len,
            len == stream@.len(),
            chunks_in(stream@) == after_chunks(contents(out@), chunks_in(stream@.skip(at as int))),
        decreases len - at,
    {
        let ghost rest = stream@.skip(at as int);
        if len - at < 4 {
            return Err(SyncError::Io("unexpected end of file".to_owned()));
        }
        let head: u64 = read_be(stream, at, 4);
        assert(stream@.subrange(at as int, at + 4) =~= rest.take(4));
        assert(head <= u32::MAX) by {
            crate::bytes::lemma_be_bound(rest.take(4));
            crate::bytes::lemma_pow256();
        }
        match recv_chunk_len(head as u32) {
            Ok(None) => {
                assert(contents(out@) + Seq::<Seq<u8>>::empty() =~= contents(out@));
                return Ok(out);
            },
            Ok(Some(n)) => {
                if len - at - 4 < n {
                    return Err(SyncError::Io("early eof".to_owned()));
                }
                let chunk = copy_range(stream, at + 4, at + 4 + n);
                let ghost before = contents(out@);
                let ghost one = rest.subrange(4, 4 + n as int);
                assert(chunk@ =~= one);
                out.push(chunk);
                at = at + 4 + n;
                proof {
                    assert(contents(out@) =~= before + seq![one]);
                    let tail = stream@.skip(at as int);
                    assert(tail =~= rest.skip(4 + n as int));
                    if chunks_in(tail) is Ok {
                        let more = chunks_in(tail)->Ok_0;
                        assert(before + (seq![one] + more) =~= (before + seq![one]) + more);
                    }
                }
            },
            Err(e) => {
                return Err(e);
            },
        }
    }
}

/// Reading a stream gives back the chunks that were put on it, if none is empty
/// or too large.
pub proof fn chunks_received_as_sent(chunks: Seq<Seq<u8>>)
    requires
        forall|i: int|
            0 <= i < chunks.len() ==> 0 < (#[trigger] chunks[i]).len() <= CHUNK_SIZE + CHUNK_SLACK,
    ensures
        chunks_in(chunk_stream(chunks)) == Ok::<Seq<Seq<u8>>, SyncErrorView>(chunks),
    decreases chunks.len(),
{
    crate::bytes::lemma_pow256();
    let b = chunk_stream(chunks);
    if chunks.len() == 0 {
        crate::bytes::be_round_trip(0, 4);
        assert(b.take(4) =~= be_bytes(0, 4));
        assert(chunks =~= Seq::<Seq<u8>>::empty());
    } else {
        let c = chunks[0];
        let rest = chunks.skip(1);
        assert forall|i: int| 0 <= i < rest.len() implies 0 < (#[trigger] rest[i]).len() <= CHUNK_SIZE
            + CHUNK_SLACK by {
            assert(rest[i] == chunks[i + 1]);
        }
        chunks_received_as_sent(rest);
        crate::bytes::be_round_trip(c.len(), 4);
        assert(b.take(4) =~= be_bytes(c.len(), 4));
        assert(b.subrange(4, 4 + c.len() as int) =~= c);
        assert(b.skip(4 + c.len() as int) =~= chunk_stream(rest));
        assert(seq![c] + rest =~= chunks);
    }
}

/// A message of up to a mebibyte can be framed and read, whatever bytes it has, and
/// comes back as it was. Its frame is four bytes longer.
pub proof fn messages_up_to_a_mebibyte_pass(b: Seq<u8>)
    requires
        0 < b.len() <= 1024 * 1024,
    ensures
        b.len() <= MAX_FRAME,
        framed(b).len() == b.len() + 4,
        0 < be_value(framed(b).take(4)) <= MAX_FRAME,
        framed(b).subrange(4, 4 + be_value(framed(b).take(4)) as int) == b,
{
    frame_read_restores_write(b);
    assert(framed(b).subrange(4, 4 + b.len() as int) =~= framed(b).skip(4));
}

/// Chunks of up to four mebibytes and 128 bytes come back as they were sent, however
/// many there are.
pub proof fn chunks_up_to_the_limit_pass(chunks: Seq<Seq<u8>>)
    requires
        forall|i: int|
            0 <= i < chunks.len() ==> 0 < (#[trigger] chunks[i]).len() <= 4 * 1024 * 1024 + 128,
    ensures
        chunks_in(chunk_stream(chunks)) == Ok::<Seq<Seq<u8>>, SyncErrorView>(chunks),
{
    chunks_received_as_sent(chunks);
}

/// A stream is refused if its next chunk is longer than may be, or if it ends before the
/// chunk does.
pub proof fn broken_streams_are_refused(b: Seq<u8>)
    ensures
        b.len() < 4 ==> chunks_in(b) is Err,
        b.len() >= 4 && be_value(b.take(4)) > 4 * 1024 * 1024 + 128 ==> chunks_in(b) == Err::<
            Seq<Seq<u8>>,
            SyncErrorView,
        >(SyncErrorView::Protocol("chunk too large"@)),
        b.len() >= 4 && be_value(b.take(4)) > b.len() - 4 ==> chunks_in(b) is Err,
{
}

/// A stream that was cut off anywhere is refused: chunks are never taken for complete
/// that are not.
pub proof fn cut_streams_are_refused(chunks: Seq<Seq<u8>>, cut: int)
    requires
        forall|i: int|
            0 <= i < chunks.len() ==> 0 < (#[trigger] chunks[i]).len() <= 4 * 1024 * 1024 + 128,
        0 <= cut < chunk_stream(chunks).len(),
    ensures
        chunks_in(chunk_stream(chunks).take(cut)) is Err,
    decreases chunks.len(),
{
    crate::bytes::lemma_pow256();
    let b = chunk_stream(chunks);
    let part = b.take(cut);
    if chunks.len() == 0 {
        crate::bytes::be_round_trip(0, 4);
    } else if cut >= 4 {
        let c = chunks[0];
        let rest = chunks.skip(1);
        crate::bytes::be_round_trip(c.len(), 4);
        let head = framed(c);
        assert(head.len() == 4 + c.len());
        assert(part.take(4) =~= be_bytes(c.len(), 4));
        if cut >= head.len() {
            assert forall|i: int| 0 <= i < rest.len() implies 0 < (#[trigger] rest[i]).len() <= 4
                * 1024 * 1024 + 128 by {
                assert(rest[i] == chunks[i + 1]);
            }
            cut_streams_are_refused(rest, cut - head.len());
            assert(part.skip(4 + c.len() as int) =~= chunk_stream(rest).take(cut - head.len()));
        }
    }
}


/// A message is framed, `w`, just if it has no more than a mebibyte, and is then read with
/// the length it has.
pub proof fn messages_are_framed(
    message: &[u8],
    w: Result<Vec<u8>, SyncError>,
    head: &[u8],
    r: Result<usize, SyncError>,
)
    requires
        call_ensures(write_envelope, (message,), w),
        head@.len() == 4,
        w is Ok ==> head@ == w->Ok_0@.take(4),
        call_ensures(read_envelope, (head,), r),
    ensures
        w is Ok <==> message@.len() <= 1024 * 1024,
        w is Ok && message@.len() > 0 ==> {
            &&& r is Ok && r->Ok_0 == message@.len()
            &&& w->Ok_0@.len() == 4 + message@.len()
            &&& w->Ok_0@.skip(4) == message@
        },
        w is Ok && message@.len() == 0 ==> r is Err,
{
    if w is Ok && message@.len() > 0 {
        frame_read_restores_write(message@);
    }
    if w is Ok && message@.len() == 0 {
        crate::bytes::lemma_pow256();
        crate::bytes::be_round_trip(0, 4);
        assert(w->Ok_0@.take(4) =~= be_bytes(0, 4));
    }
}

/// A length is accepted just if it is that of a message of one byte up to a mebibyte, or
/// of a chunk of up to four mebibytes and 128 bytes; a chunk of no bytes is the end.
pub proof fn lengths_are_checked(
    head: &[u8],
    r: Result<usize, SyncError>,
    len: u32,
    c: Result<Option<usize>, SyncError>,
)
    requires
        head@.len() == 4,
        call_ensures(read_envelope, (head,), r),
        call_ensures(recv_chunk_len, (len,), c),
    ensures
        r is Ok <==> 1 <= be_value(head@) <= 1024 * 1024,
        r is Ok ==> r->Ok_0 == be_value(head@),
        c is Ok <==> len <= 4 * 1024 * 1024 + 128,
        c is Ok ==> (c->Ok_0 is None <==> len == 0),
        c is Ok && len > 0 ==> c->Ok_0 == Some(len as usize),
{
}

/// Chunks that were put on a stream, `s`, are received as they were, all and in order.
pub proof fn sent_chunks_are_received(
    chunks: &[Vec<u8>],
    s: Vec<u8>,
    stream: &[u8],
    r: Result<Vec<Vec<u8>>, SyncError>,
)
    requires
        forall|i: int|
            0 <= i < chunks@.len() ==> 0 < (#[trigger] chunks@[i])@.len() <= 4 * 1024 * 1024 + 128,
        call_ensures(send_chunks, (chunks,), s),
        stream@ == s@,
        call_ensures(recv_chunks, (stream,), r),
    ensures
        r is Ok,
        r->Ok_0@.len() == chunks@.len(),
        forall|i: int| 0 <= i < chunks@.len() ==> (#[trigger] r->Ok_0@[i])@ == chunks@[i]@,
{
    let cs = contents(chunks@);
    assert forall|i: int| 0 <= i < cs.len() implies 0 < (#[trigger] cs[i]).len() <= CHUNK_SIZE
        + CHUNK_SLACK by {
        assert(cs[i] == chunks@[i]@);
    }
    chunks_received_as_sent(cs);
    assert(contents(r->Ok_0@) == cs);
    assert forall|i: int| 0 <= i < chunks@.len() implies (#[trigger] r->Ok_0@[i])@ == chunks@[i]@ by {
        assert(contents(r->Ok_0@)[i] == r->Ok_0@[i]@);
        assert(cs[i] == chunks@[i]@);
    }
    assert(contents(r->Ok_0@).len() == r->Ok_0@.len());
}


} // verus!
