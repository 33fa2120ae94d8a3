//! The frame that the overlay process is handed, and how it answers.

use vstd::prelude::*;

use crate::bytes::{le_bytes, le_value, push_le, read_le};
use crate::sync::webdav::{lossy_text, utf8_lossy};
use crate::text::{copy_range, same_bytes, trim, trimmed};

verus! {

/// The bytes of the header.
pub const HEADER_LEN: usize = 32;

/// The geometry of a captured frame. The scale is kept as the bits of a
/// floating-point number.
#[derive(Clone, Copy, Debug, PartialEq, Eq, Structural)]
pub struct FrameHeader {
    pub width: u32,
    pub height: u32,
    pub origin_x: i32,
    pub origin_y: i32,
    pub scale_bits: u64,
}

/// The tag at the start of a header.
pub open spec fn frame_tag() -> Seq<u8> {
    seq![0x41u8, 0x53, 0x54, 0x46, 0x52, 0x4d, 0x30, 0x31]
}

/// The header of a frame: the tag, then each number with its lowest byte first.
pub open spec fn header_bytes(h: FrameHeader) -> Seq<u8> {
    frame_tag() + le_bytes(h.width as nat, 4) + le_bytes(h.height as nat, 4) + le_bytes(
        (h.origin_x as u32) as nat,
        4,
    ) + le_bytes((h.origin_y as u32) as nat, 4) + le_bytes(h.scale_bits as nat, 8)
}

/// The geometry that a header holds.
pub open spec fn header_parts(b: Seq<u8>) -> FrameHeader {
    FrameHeader {
        width: le_value(b.subrange(8, 12)) as u32,
        height: le_value(b.subrange(12, 16)) as u32,
        origin_x: (le_value(b.subrange(16, 20)) as u32) as i32,
        origin_y: (le_value(b.subrange(20, 24)) as u32) as i32,
        scale_bits: le_value(b.subrange(24, 32)) as u64,
    }
}

/// The header of a frame.
pub fn encode_header(h: &FrameHeader) -> (r: Vec<u8>)
    ensures
        r@ == header_bytes(*h),
        r@.len() == HEADER_LEN,
{
    let mut out: Vec<u8> = vec![0x41u8, 0x53, 0x54, 0x46, 0x52, 0x4d, 0x30, 0x31];
    assert(out@ =~= frame_tag());
    push_le(&mut out, h.width as u64, 4);
    push_le(&mut out, h.height as u64, 4);
    push_le(&mut out, (#[verifier::truncate] (h.origin_x as u32)) as u64, 4);
    push_le(&mut out, (#[verifier::truncate] (h.origin_y as u32)) as u64, 4);
    push_le(&mut out, h.scale_bits, 8);
    proof {
        lemma_header_len(*h);
    }
    out
}

proof fn lemma_header_len(h: FrameHeader)
    ensures
        header_bytes(h).len() == 32,
{
    crate::bytes::lemma_le_len(h.width as nat, 4);
    crate::bytes::lemma_le_len(h.height as nat, 4);
    crate::bytes::lemma_le_len((h.origin_x as u32) as nat, 4);
    crate::bytes::lemma_le_len((h.origin_y as u32) as nat, 4);
    crate::bytes::lemma_le_len(h.scale_bits as nat, 8);
}

/// The geometry that a header holds. Bytes with another tag are refused.
pub fn decode_header(header: &[u8]) -> (r: Result<FrameHeader, String>)
    requires
        header@.len() == HEADER_LEN,
    ensures
        match r {
            Ok(h) => header@.subrange(0, 8) == frame_tag() && h == header_parts(header@),
            Err(m) => header@.subrange(0, 8) != frame_tag() && m@ == "bad overlay frame header"@,
        },
{
    let tag = copy_range(header, 0, 8);
    let expected: Vec<u8> = vec![0x41u8, 0x53, 0x54, 0x46, 0x52, 0x4d, 0x30, 0x31];
    assert(expected@ =~= frame_tag());
    if !same_bytes(tag.as_slice(), expected.as_slice()) {
        return Err("bad overlay frame header".to_owned());
    }
    let width: u64 = read_le(header, 8, 4);
    let height: u64 = read_le(header, 12, 4);
    let x: u64 = read_le(header, 16, 4);
    let y: u64 = read_le(header, 20, 4);
    let scale_bits: u64 = read_le(header, 24, 8);
    proof {
        crate::bytes::lemma_pow256();
        crate::bytes::lemma_le_bound(header@.subrange(8, 12));
        crate::bytes::lemma_le_bound(header@.subrange(12, 16));
        crate::bytes::lemma_le_bound(header@.subrange(16, 20));
        crate::bytes::lemma_le_bound(header@.subrange(20, 24));
        crate::bytes::lemma_le_bound(header@.subrange(24, 32));
    }
    Ok(
        FrameHeader {
            width: width as u32,
            height: height as u32,
            origin_x: #[verifier::truncate] ((x as u32) as i32),
            origin_y: #[verifier::truncate] ((y as u32) as i32),
            scale_bits,
        },
    )
}

/// A header gives back the geometry and the scale it was made of, negative
/// origins too.
pub proof fn header_decode_restores_encode(h: FrameHeader)
    ensures
        header_bytes(h).len() == HEADER_LEN,
        header_bytes(h).subrange(0, 8) == frame_tag(),
        header_parts(header_bytes(h)) == h,
{
    let b = header_bytes(h);
    let x = h.origin_x;
    let y = h.origin_y;
    lemma_header_len(h);
    crate::bytes::lemma_pow256();
    crate::bytes::le_round_trip(h.width as nat, 4);
    crate::bytes::le_round_trip(h.height as nat, 4);
    crate::bytes::le_round_trip((x as u32) as nat, 4);
    crate::bytes::le_round_trip((y as u32) as nat, 4);
    crate::bytes::le_round_trip(h.scale_bits as nat, 8);
    assert(b.subrange(0, 8) =~= frame_tag());
    assert(b.subrange(8, 12) =~= le_bytes(h.width as nat, 4));
    assert(b.subrange(12, 16) =~= le_bytes(h.height as nat, 4));
    assert(b.subrange(16, 20) =~= le_bytes((x as u32) as nat, 4));
    assert(b.subrange(20, 24) =~= le_bytes((y as u32) as nat, 4));
    assert(b.subrange(24, 32) =~= le_bytes(h.scale_bits as nat, 8));
    assert((x as u32) as i32 == x) by (bit_vector);
    assert((y as u32) as i32 == y) by (bit_vector);
}

/// The bytes of the picture that follows a header, four for each pixel.
pub fn frame_len(width: u32, height: u32) -> (r: Result<usize, String>)
    ensures
        match r {
            Ok(n) => n == width * height * 4,
            Err(m) => width * height * 4 > usize::MAX && m@ == "overlay frame too large"@,
        },
{
    let w: usize = width as usize;
    let h: usize = height as usize;
    match w.checked_mul(h) {
        Some(pixels) => match pixels.checked_mul(4) {
            Some(n) => Ok(n),
            None => Err("overlay frame too large".to_owned()),
        },
        None => {
            assert(width * height * 4 > usize::MAX) by (nonlinear_arith)
                requires
                    width * height > usize::MAX,
            ;
            Err("overlay frame too large".to_owned())
        },
    }
}

/// How the overlay ended.
#[derive(Debug)]
pub enum OverlayRun {
    /// With an outcome, as it was written down or why it could not be.
    Outcome(Result<String, String>),
    /// Without one.
    Nothing,
    /// With an error.
    Failed(String),
}

/// What the overlay process writes and the code it exits with.
#[derive(Debug)]
pub struct OverlayReport {
    pub stdout: Option<String>,
    pub stderr: Option<String>,
    pub code: i32,
}

/// What the overlay process writes and the code it exits with: the outcome, or
/// that it was cancelled, and zero; or an error and one.
pub fn run_overlay_select(run: OverlayRun) -> (r: OverlayReport)
    ensures
        match run {
            OverlayRun::Outcome(Ok(json)) => r.stdout == Some(json) && r.stderr is None && r.code
                == 0,
            OverlayRun::Outcome(Err(m)) => r.stdout is None && r.stderr == Some(m) && r.code == 1,
            OverlayRun::Nothing => {
                &&& r.stdout matches Some(s)
                &&& s@ == "{\"action\":\"cancel\"}"@
                &&& r.stderr is None
                &&& r.code == 0
            },
            OverlayRun::Failed(m) => r.stdout is None && r.stderr == Some(m) && r.code == 1,
        },
{
    match run {
        OverlayRun::Outcome(Ok(json)) => OverlayReport {
            stdout: Some(json),
            stderr: None,
            code: 0,
        },
        OverlayRun::Outcome(Err(m)) => OverlayReport { stdout: None, stderr: Some(m), code: 1 },
        OverlayRun::Nothing => OverlayReport {
            stdout: Some("{\"action\":\"cancel\"}".to_owned()),
            stderr: None,
            code: 0,
        },
        OverlayRun::Failed(m) => OverlayReport { stdout: None, stderr: Some(m), code: 1 },
    }
}

/// What the overlay process said when it ended: nothing to be read, or a text
/// that tells the outcome.
pub fn overlay_answer(success: bool, stdout: &[u8], stderr: &[u8]) -> (r: Result<
    Option<String>,
    String,
>)
    ensures
        if !success {
            r matches Err(m) && m@ == "overlay process failed: "@ + utf8_lossy(stderr@)
        } else if trimmed(utf8_lossy(stdout@)).len() == 0 {
            r == Ok::<Option<String>, String>(None)
        } else {
            r matches Ok(Some(s)) && s@ == trimmed(utf8_lossy(stdout@))
        },
{
    if !success {
        let mut m = "overlay process failed: ".to_owned();
        let text = lossy_text(stderr);
        m.push_str(text.as_str());
        return Err(m);
    }
    let text = lossy_text(stdout);
    let clean = trim(text.as_str());
    if clean.as_str().is_empty() {
        Ok(None)
    } else {
        Ok(Some(clean))
    }
}

/// A frame's geometry that was written as a header, `b`, is read back as it was, and the
/// picture behind it has four bytes for each pixel, as far as its bytes can be counted.
pub proof fn frames_are_read_back(
    h: FrameHeader,
    b: Vec<u8>,
    header: &[u8],
    r: Result<FrameHeader, String>,
    n: Result<usize, String>,
)
    requires
        call_ensures(encode_header, (&h,), b),
        header@ == b@,
        call_ensures(decode_header, (header,), r),
        call_ensures(frame_len, (h.width, h.height), n),
    ensures
        b@.len() == 32,
        b@.subrange(0, 8) == seq![0x41u8, 0x53, 0x54, 0x46, 0x52, 0x4d, 0x30, 0x31],
        le_value(b@.subrange(8, 12)) == h.width,
        le_value(b@.subrange(12, 16)) == h.height,
        le_value(b@.subrange(24, 32)) == h.scale_bits,
        r is Ok && r->Ok_0 == h,
        n is Ok <==> h.width * h.height * 4 <= usize::MAX,
        n is Ok ==> n->Ok_0 == h.width * h.height * 4,
{
    header_decode_restores_encode(h);
    crate::bytes::lemma_pow256();
    crate::bytes::lemma_le_bound(b@.subrange(8, 12));
    crate::bytes::lemma_le_bound(b@.subrange(12, 16));
    crate::bytes::lemma_le_bound(b@.subrange(24, 32));
}

/// Bytes with another tag are no frame.
pub proof fn other_tags_are_no_frames(header: &[u8], r: Result<FrameHeader, String>, i: int)
    requires
        header@.len() == 32,
        call_ensures(decode_header, (header,), r),
        0 <= i < 8,
        header@[i] != seq![0x41u8, 0x53, 0x54, 0x46, 0x52, 0x4d, 0x30, 0x31][i],
    ensures
        r is Err,
{
    assert(header@.subrange(0, 8)[i] == header@[i]);
}

/// The overlay's outcome is written as it is and errors are told apart from it by the exit
/// code; without an outcome the choice is cancelled.
pub proof fn outcomes_are_reported(run: OverlayRun, r: OverlayReport)
    requires
        call_ensures(run_overlay_select, (run,), r),
    ensures
        r.code == 0 || r.code == 1,
        r.code == 1 <==> run is Failed || (run is Outcome && run->Outcome_0 is Err),
        r.stdout is Some <==> r.code == 0,
        r.stderr is Some <==> r.code == 1,
        run matches OverlayRun::Outcome(Ok(json)) ==> r.stdout == Some(json),
        run matches OverlayRun::Outcome(Err(m)) ==> r.stderr == Some(m),
        run matches OverlayRun::Failed(m) ==> r.stderr == Some(m),
        run is Nothing ==> r.stdout->0@ == "{\"action\":\"cancel\"}"@,
{
}

/// What the overlay process wrote is its answer, without the white space around it; a
/// process that failed has none but its error.
pub proof fn answers_are_what_was_written(
    success: bool,
    stdout: &[u8],
    stderr: &[u8],
    r: Result<Option<String>, String>,
)
    requires
        call_ensures(overlay_answer, (success, stdout, stderr), r),
    ensures
        r is Ok <==> success,
        r is Ok ==> (r->Ok_0 is None <==> forall|i: int|
            0 <= i < utf8_lossy(stdout@).len() ==> crate::text::is_white_space(
                #[trigger] utf8_lossy(stdout@)[i],
            )),
        r is Ok && r->Ok_0 is Some ==> r->Ok_0->0@ == trimmed(utf8_lossy(stdout@)),
        r is Err ==> utf8_lossy(stderr@).is_suffix_of(r->Err_0@),
{
    let cut = crate::text::trimming_takes_white_space_alone(utf8_lossy(stdout@));
}


} // verus!
