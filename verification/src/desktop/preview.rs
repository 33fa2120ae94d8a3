//! Pictures as they are shown in the window.

use vstd::prelude::*;

use crate::base64codec::{self, base64_of};
use crate::text::{copy_range, same_bytes};

verus! {

/// The longest edge of a preview, in pixels.
pub const MAX_EDGE: u32 = 480;

/// The most pixels of a picture with samples of eight bits that one pixel of a
/// smaller picture is made of. The samples of so many can be added up in
/// thirty-two bits.
pub const MAX_BLOCK: u32 = 16_000_000;

/// The same where samples have more bits.
pub const MAX_DEEP_BLOCK: u32 = 65_000;

/// The size of the picture that some bytes hold, or the message of the error
/// that reading it gives.
pub uninterp spec fn picture_size(bytes: Seq<u8>) -> Result<(u32, u32), Seq<char>>;

/// The bits of one pixel of the picture that some bytes hold and the number of its
/// channels, or the message of the error that reading it gives.
pub uninterp spec fn picture_depth(bytes: Seq<u8>) -> Result<(u16, u8), Seq<char>>;

/// The picture that some bytes hold as PNG, or the message of the error.
pub uninterp spec fn picture_png(bytes: Seq<u8>) -> Result<Seq<u8>, Seq<char>>;

/// The picture that some bytes hold, made to fit in a size and as PNG, or the
/// message of the error.
pub uninterp spec fn thumbnail_png(bytes: Seq<u8>, width: u32, height: u32) -> Result<
    Seq<u8>,
    Seq<char>,
>;

/// The pixels of the picture that some bytes hold, as red, green, blue and
/// opacity, or the message of the error.
pub uninterp spec fn picture_rgba(bytes: Seq<u8>) -> Result<Seq<u8>, Seq<char>>;

/// Whether a picture was read and keeps within a size.
pub open spec fn fits(size: Result<(u32, u32), Seq<char>>, width: u32, height: u32) -> bool {
    match size {
        Ok((w, h)) => w <= width && h <= height,
        Err(_) => false,
    }
}

/// A bound on the number of pixels of a picture of `w` by `h` that one pixel of
/// the picture is made of that fits into `width` by `height`. Along the edge that
/// decides they are as many as the edge is longer; across it, where the length is
/// rounded to whole pixels but to one at least, up to half as many again, and
/// never more than the picture has.
pub open spec fn block_bound(w: u32, h: u32, width: u32, height: u32) -> nat {
    let (long, edge, across) = if w * height >= h * width {
        (w, width, h)
    } else {
        (h, height, w)
    };
    let rows = (3 * long) as nat / (2 * edge) as nat + 3;
    (long as nat / edge as nat + 2) * (if across < rows {
        across as nat
    } else {
        rows
    })
}

/// The most pixels that one pixel of a smaller picture is made of, by the bits and
/// the channels of a pixel.
pub open spec fn block_limit(bits: u16, channels: u8) -> u32 {
    if bits <= 8 * channels {
        MAX_BLOCK
    } else {
        MAX_DEEP_BLOCK
    }
}

/// Whether the picture that some bytes hold, if it can be read, is made smaller with
/// no pixel of more pixels than can be added up.
pub open spec fn shrinks_within(bytes: Seq<u8>, width: u32, height: u32) -> bool {
    match (picture_size(bytes), picture_depth(bytes)) {
        (Ok((w, h)), Ok((bits, channels))) => block_bound(w, h, width, height) <= block_limit(
            bits,
            channels,
        ),
        (Ok(_), Err(_)) => false,
        (Err(_), _) => true,
    }
}

/// Whether a picture is made smaller with no pixel of more than `limit` pixels.
pub fn can_shrink(w: u32, h: u32, width: u32, height: u32, limit: u32) -> (r: bool)
    requires
        0 < width <= 4096,
        0 < height <= 4096,
    ensures
        r == (block_bound(w, h, width, height) <= limit),
{
    proof {
        assert(w * height <= 0xffff_ffff * 4096) by (nonlinear_arith)
            requires
                0 <= w <= 0xffff_ffff,
                0 <= height <= 4096,
        ;
        assert(h * width <= 0xffff_ffff * 4096) by (nonlinear_arith)
            requires
                0 <= h <= 0xffff_ffff,
                0 <= width <= 4096,
        ;
    }
    let (long, edge, across): (u64, u64, u64) = if w as u64 * height as u64 >= h as u64
        * width as u64 {
        (w as u64, width as u64, h as u64)
    } else {
        (h as u64, height as u64, w as u64)
    };
    let rows: u64 = 3 * long / (2 * edge) + 3;
    let columns: u64 = long / edge + 2;
    let least: u64 = if across < rows {
        across
    } else {
        rows
    };
    proof {
        assert(columns * least <= 0x1_0000_0001 * 0xffff_ffff) by (nonlinear_arith)
            requires
                0 <= columns <= 0x1_0000_0001,
                0 <= least <= 0xffff_ffff,
        ;
    }
    columns as u128 * least as u128 <= limit as u128
}

/// `image::load_from_memory`, `width` and `height`: the size of the picture, by
/// its name.
#[verifier::external_body]
pub(crate) fn read_size(bytes: &[u8]) -> (r: Result<(u32, u32), String>)
    ensures
        match r {
            Ok(size) => picture_size(bytes@) == Ok::<(u32, u32), Seq<char>>(size),
            Err(m) => picture_size(bytes@) == Err::<(u32, u32), Seq<char>>(m@),
        },
{
    let img = image::load_from_memory(bytes).map_err(|e| e.to_string())?;
    Ok((img.width(), img.height()))
}

/// `image::load_from_memory`, `DynamicImage::color`, `bits_per_pixel` and
/// `channel_count`: the bits and the channels of a pixel, by their name.
#[verifier::external_body]
pub(crate) fn read_depth(bytes: &[u8]) -> (r: Result<(u16, u8), String>)
    ensures
        match r {
            Ok(depth) => picture_depth(bytes@) == Ok::<(u16, u8), Seq<char>>(depth),
            Err(m) => picture_depth(bytes@) == Err::<(u16, u8), Seq<char>>(m@),
        },
{
    let color = image::load_from_memory(bytes).map_err(|e| e.to_string())?.color();
    Ok((color.bits_per_pixel(), color.channel_count()))
}

/// `image::load_from_memory` and `DynamicImage::write_to` as PNG: the picture, by
/// its name. A picture of moderate size is read back in that size.
#[verifier::external_body]
pub(crate) fn write_png(bytes: &[u8]) -> (r: Result<Vec<u8>, String>)
    ensures
        match r {
            Ok(png) => picture_png(bytes@) == Ok::<Seq<u8>, Seq<char>>(png@),
            Err(m) => picture_png(bytes@) == Err::<Seq<u8>, Seq<char>>(m@),
        },
        r is Ok && fits(picture_size(bytes@), 4096, 4096) ==> picture_size(r->Ok_0@)
            == picture_size(bytes@),
{
    let img = image::load_from_memory(bytes).map_err(|e| e.to_string())?;
    let mut png = std::io::Cursor::new(Vec::new());
    img.write_to(&mut png, image::ImageFormat::Png).map_err(|e| e.to_string())?;
    Ok(png.into_inner())
}

/// `image::load_from_memory`, `DynamicImage::thumbnail` and `write_to` as PNG: the
/// picture that fits into a size, by its name. The size is one whose pixels can
/// be held in memory, and what is read back keeps within it. `thumbnail` adds the
/// samples of the pixels that become one in thirty-two bits: the picture is one of
/// which no more do than [`block_limit`] says of its samples.
#[verifier::external_body]
pub(crate) fn write_thumbnail(bytes: &[u8], width: u32, height: u32) -> (r: Result<Vec<u8>, String>)
    requires
        0 < width <= 4096,
        0 < height <= 4096,
        shrinks_within(bytes@, width, height),
    ensures
        match r {
            Ok(png) => thumbnail_png(bytes@, width, height) == Ok::<Seq<u8>, Seq<char>>(png@),
            Err(m) => thumbnail_png(bytes@, width, height) == Err::<Seq<u8>, Seq<char>>(m@),
        },
        r is Ok ==> fits(picture_size(r->Ok_0@), width, height),
{
    let img = image::load_from_memory(bytes).map_err(|e| e.to_string())?;
    let mut png = std::io::Cursor::new(Vec::new());
    let small = img.thumbnail(width, height);
    small.write_to(&mut png, image::ImageFormat::Png).map_err(|e| e.to_string())?;
    Ok(png.into_inner())
}

/// `image::load_from_memory` and `DynamicImage::to_rgba8`: the pixels, by their
/// name.
#[verifier::external_body]
pub(crate) fn read_rgba(bytes: &[u8]) -> (r: Result<Vec<u8>, String>)
    ensures
        match r {
            Ok(rgba) => picture_rgba(bytes@) == Ok::<Seq<u8>, Seq<char>>(rgba@),
            Err(m) => picture_rgba(bytes@) == Err::<Seq<u8>, Seq<char>>(m@),
        },
{
    let img = image::load_from_memory(bytes).map_err(|e| e.to_string())?;
    Ok(img.to_rgba8().into_raw())
}

/// Whether bytes begin as a GIF file does.
pub open spec fn is_gif(b: Seq<u8>) -> bool {
    b.len() >= 6 && (b.subrange(0, 6) == seq![0x47u8, 0x49, 0x46, 0x38, 0x37, 0x61] || b.subrange(
        0,
        6,
    ) == seq![0x47u8, 0x49, 0x46, 0x38, 0x39, 0x61])
}

/// Whether bytes begin as a GIF file does.
pub fn starts_as_gif(b: &[u8]) -> (r: bool)
    ensures
        r == is_gif(b@),
{
    if b.len() < 6 {
        return false;
    }
    let head = copy_range(b, 0, 6);
    let old: Vec<u8> = vec![0x47u8, 0x49, 0x46, 0x38, 0x37, 0x61];
    let new: Vec<u8> = vec![0x47u8, 0x49, 0x46, 0x38, 0x39, 0x61];
    assert(old@ =~= seq![0x47u8, 0x49, 0x46, 0x38, 0x37, 0x61]);
    assert(new@ =~= seq![0x47u8, 0x49, 0x46, 0x38, 0x39, 0x61]);
    same_bytes(head.as_slice(), old.as_slice()) || same_bytes(head.as_slice(), new.as_slice())
}

/// Whether a picture is too large to be its own preview.
pub fn needs_thumbnail(width: u32, height: u32) -> (r: bool)
    ensures
        r == (width > MAX_EDGE || height > MAX_EDGE),
{
    width > MAX_EDGE || height > MAX_EDGE
}

/// A data address for a PNG picture.
pub open spec fn png_url(png: Seq<u8>) -> Seq<char> {
    "data:image/png;base64,"@ + base64_of(png)
}

/// A data address for a GIF picture.
pub open spec fn gif_url(gif: Seq<u8>) -> Seq<char> {
    "data:image/gif;base64,"@ + base64_of(gif)
}

/// A data address for a PNG picture.
pub fn png_data_url(png: &[u8]) -> (r: String)
    ensures
        r@ == png_url(png@),
{
    let mut out = "data:image/png;base64,".to_owned();
    let text = base64codec::encode(png);
    out.push_str(text.as_str());
    out
}

/// A data address for a GIF picture.
pub fn gif_data_url(gif: &[u8]) -> (r: String)
    ensures
        r@ == gif_url(gif@),
{
    let mut out = "data:image/gif;base64,".to_owned();
    let text = base64codec::encode(gif);
    out.push_str(text.as_str());
    out
}

/// The preview of a picture: a GIF as it is, another as PNG, made to fit if it
/// is large.
pub open spec fn preview_of(bytes: Seq<u8>) -> Result<Seq<char>, Seq<char>> {
    if is_gif(bytes) {
        Ok(gif_url(bytes))
    } else {
        match picture_size(bytes) {
            Err(m) => Err(m),
            Ok((w, h)) => {
                let png = if w > MAX_EDGE || h > MAX_EDGE {
                    thumbnail_png(bytes, MAX_EDGE, MAX_EDGE)
                } else {
                    picture_png(bytes)
                };
                match png {
                    Ok(b) => Ok(png_url(b)),
                    Err(m) => Err(m),
                }
            },
        }
    }
}

/// Whether the preview of a picture can be made: a GIF's always, and another's
/// unless so many of its pixels would become one that they cannot be added up.
pub open spec fn has_preview(bytes: Seq<u8>) -> bool {
    is_gif(bytes) || shrinks_within(bytes, MAX_EDGE, MAX_EDGE)
}

/// The preview of a picture, as a data address. Unless it is a GIF, neither edge
/// of the preview is longer than [`MAX_EDGE`].
pub fn encode_preview_data_url(bytes: &[u8]) -> (r: Result<String, String>)
    requires
        has_preview(bytes@),
    ensures
        match r {
            Ok(url) => preview_of(bytes@) == Ok::<Seq<char>, Seq<char>>(url@),
            Err(m) => preview_of(bytes@) == Err::<Seq<char>, Seq<char>>(m@),
        },
        r is Ok && !is_gif(bytes@) ==> exists|png: Seq<u8>|
            r->Ok_0@ == #[trigger] png_url(png) && fits(picture_size(png), MAX_EDGE, MAX_EDGE),
{
    if starts_as_gif(bytes) {
        return Ok(gif_data_url(bytes));
    }
    let (width, height) = match read_size(bytes) {
        Ok(size) => size,
        Err(m) => return Err(m),
    };
    let png = if needs_thumbnail(width, height) {
        write_thumbnail(bytes, MAX_EDGE, MAX_EDGE)
    } else {
        write_png(bytes)
    };
    match png {
        Ok(b) => Ok(png_data_url(b.as_slice())),
        Err(m) => Err(m),
    }
}

/// The preview of any picture, as a data address, or nothing if it cannot be
/// made.
pub fn preview_data_url(bytes: &[u8]) -> (r: Option<Result<String, String>>)
    ensures
        match r {
            Some(Ok(url)) => has_preview(bytes@) && preview_of(bytes@) == Ok::<
                Seq<char>,
                Seq<char>,
            >(url@),
            Some(Err(m)) => has_preview(bytes@) && preview_of(bytes@) == Err::<
                Seq<char>,
                Seq<char>,
            >(m@),
            None => !has_preview(bytes@),
        },
{
    if !starts_as_gif(bytes) {
        if let Ok((width, height)) = read_size(bytes) {
            let limit: u32 = match read_depth(bytes) {
                Ok((bits, channels)) => if bits <= 8 * channels as u16 {
                    MAX_BLOCK
                } else {
                    MAX_DEEP_BLOCK
                },
                Err(_) => return None,
            };
            if !can_shrink(width, height, MAX_EDGE, MAX_EDGE, limit) {
                return None;
            }
        }
    }
    Some(encode_preview_data_url(bytes))
}

/// A picture to be annotated.
#[derive(Debug)]
pub struct AnnotationSource {
    pub data_url: String,
    pub width: u32,
    pub height: u32,
}

/// A picture to be annotated, with its size.
pub fn annotation_source(png: &[u8]) -> (r: Result<AnnotationSource, String>)
    ensures
        match r {
            Ok(a) => {
                &&& picture_size(png@) == Ok::<(u32, u32), Seq<char>>((a.width, a.height))
                &&& a.data_url@ == png_url(png@)
            },
            Err(m) => picture_size(png@) == Err::<(u32, u32), Seq<char>>(m@),
        },
{
    match read_size(png) {
        Ok((width, height)) => Ok(AnnotationSource { data_url: png_data_url(png), width, height }),
        Err(m) => Err(m),
    }
}

/// Pixels with red and blue exchanged. What is no whole pixel becomes zero.
pub open spec fn swapped(rgba: Seq<u8>) -> Seq<u8> {
    Seq::new(
        rgba.len(),
        |i: int|
            if i >= rgba.len() - rgba.len() % 4 {
                0u8
            } else if i % 4 == 0 {
                rgba[i + 2]
            } else if i % 4 == 2 {
                rgba[i - 2]
            } else {
                rgba[i]
            },
    )
}

/// Pixels with red and blue exchanged.
pub fn swap_red_blue(rgba: &[u8]) -> (r: Vec<u8>)
    ensures
        r@ == swapped(rgba@),
{
    let n: usize = rgba.len();
    let whole: usize = n - n % 4;
    let mut out: Vec<u8> = Vec::new();
    let mut i: usize = 0;
    while i < n
        invariant
            i <= n == rgba@.len(),
            whole == n - n % 4,
            out@.len() == i,
            forall|j: int| 0 <= j < i ==> #[trigger] out@[j] == swapped(rgba@)[j],
        decreases n - i,
    {
        let v: u8 = if i >= whole {
            0
        } else if i % 4 == 0 {
            rgba[i + 2]
        } else if i % 4 == 2 {
            rgba[i - 2]
        } else {
            rgba[i]
        };
        out.push(v);
        i += 1;
    }
    assert(out@ =~= swapped(rgba@));
    out
}

/// Exchanging red and blue twice changes nothing.
pub proof fn swap_undoes_itself(rgba: Seq<u8>)
    requires
        rgba.len() % 4 == 0,
    ensures
        swapped(swapped(rgba)) == rgba,
{
    assert(swapped(swapped(rgba)) =~= rgba);
}

/// The pixels of a picture as blue, green, red and opacity.
pub fn load_bgra(png: &[u8]) -> (r: Result<Vec<u8>, String>)
    ensures
        match r {
            Ok(bgra) => picture_rgba(png@) is Ok && bgra@ == swapped(picture_rgba(png@)->Ok_0),
            Err(m) => picture_rgba(png@) == Err::<Seq<u8>, Seq<char>>(m@),
        },
{
    match read_rgba(png) {
        Ok(rgba) => Ok(swap_red_blue(rgba.as_slice())),
        Err(m) => Err(m),
    }
}

/// Bytes are taken for a GIF just if they begin with `GIF87a` or `GIF89a`, and a picture
/// gets a smaller preview just if one of its edges is longer than 480 pixels.
pub proof fn pictures_are_told_apart(b: &[u8], gif: bool, w: u32, h: u32, large: bool)
    requires
        call_ensures(starts_as_gif, (b,), gif),
        call_ensures(needs_thumbnail, (w, h), large),
    ensures
        gif <==> b@.len() >= 6 && b@[0] == 0x47 && b@[1] == 0x49 && b@[2] == 0x46 && b@[3] == 0x38
            && (b@[4] == 0x37 || b@[4] == 0x39) && b@[5] == 0x61,
        !large <==> w <= 480 && h <= 480,
{
    let a = seq![0x47u8, 0x49, 0x46, 0x38, 0x37, 0x61];
    let c = seq![0x47u8, 0x49, 0x46, 0x38, 0x39, 0x61];
    if b@.len() >= 6 {
        let head = b@.subrange(0, 6);
        assert(head[0] == b@[0] && head[1] == b@[1] && head[2] == b@[2] && head[3] == b@[3]
            && head[4] == b@[4] && head[5] == b@[5]);
        if b@[0] == 0x47 && b@[1] == 0x49 && b@[2] == 0x46 && b@[3] == 0x38 && b@[5] == 0x61 {
            if b@[4] == 0x37 {
                assert(head =~= a);
            }
            if b@[4] == 0x39 {
                assert(head =~= c);
            }
        }
    }
}

/// The preview of a GIF is the GIF itself. The preview of another picture is the picture
/// if both its edges are of at most 480 pixels, and else the picture that fits into 480
/// by 480.
pub proof fn previews_show_the_picture(bytes: &[u8], gif: bool, r: Result<String, String>)
    requires
        has_preview(bytes@),
        call_ensures(starts_as_gif, (bytes,), gif),
        call_ensures(encode_preview_data_url, (bytes,), r),
    ensures
        gif ==> r is Ok && r->Ok_0@ == "data:image/gif;base64,"@ + base64_of(bytes@),
        !gif ==> (picture_size(bytes@) matches Ok(size) ==> {
            let png = if size.0 <= 480 && size.1 <= 480 {
                picture_png(bytes@)
            } else {
                thumbnail_png(bytes@, 480, 480)
            };
            &&& r is Ok <==> png is Ok
            &&& r is Ok ==> r->Ok_0@ == "data:image/png;base64,"@ + base64_of(png->Ok_0)
        }),
        !gif && picture_size(bytes@) is Err ==> r is Err && r->Err_0@ == picture_size(bytes@)->Err_0,
{
}

/// Pictures with edges of up to three thousand times the preview's are made smaller, and
/// with deep samples of up to two hundred times.
pub proof fn large_pictures_are_shrunk(
    w: u32,
    h: u32,
    width: u32,
    height: u32,
    limit: u32,
    r: bool,
)
    requires
        0 < width <= 4096,
        0 < height <= 4096,
        call_ensures(can_shrink, (w, h, width, height, limit), r),
    ensures
        w <= 3000 * width && h <= 3000 * height && limit >= 16_000_000 ==> r,
        w <= 200 * width && h <= 200 * height && limit >= 65_000 ==> r,
        w >= limit * width && h > 0 && w * height >= h * width ==> !r,
        h >= limit * height && w > 0 && w * height < h * width ==> !r,
{
    let (long, edge, across) = if w * height >= h * width {
        (w, width, h)
    } else {
        (h, height, w)
    };
    let rows = (3 * long) as nat / (2 * edge) as nat + 3;
    let columns = long as nat / edge as nat + 2;
    let least = if across < rows {
        across as nat
    } else {
        rows
    };
    assert(columns >= 2 && rows >= 3) by (nonlinear_arith)
        requires
            columns == long as nat / edge as nat + 2,
            rows == (3 * long) as nat / (2 * edge) as nat + 3,
            edge > 0,
            long >= 0,
    ;
    if w <= 3000 * width && h <= 3000 * height {
        lemma_block(long as nat, edge as nat, 3000);
        assert(columns * least <= 3002 * 4503) by (nonlinear_arith)
            requires
                0 <= columns <= 3002,
                0 <= least <= 4503,
        ;
    }
    if w <= 200 * width && h <= 200 * height {
        lemma_block(long as nat, edge as nat, 200);
        assert(columns * least <= 202 * 303) by (nonlinear_arith)
            requires
                0 <= columns <= 202,
                0 <= least <= 303,
        ;
    }
    if long >= limit * edge && across > 0 {
        assert(long as nat / edge as nat >= limit) by (nonlinear_arith)
            requires
                long >= limit * edge,
                edge > 0,
                limit >= 0,
        ;
        assert(columns * least >= columns) by (nonlinear_arith)
            requires
                columns >= 0,
                least >= 1,
        ;
    }
}

proof fn lemma_block(long: nat, edge: nat, k: nat)
    requires
        edge > 0,
        long <= k * edge,
        k % 2 == 0,
    ensures
        long / edge + 2 <= k + 2,
        (3 * long) / (2 * edge) + 3 <= 3 * k / 2 + 3,
{
    assert(long / edge <= k) by (nonlinear_arith)
        requires
            edge > 0,
            long <= k * edge,
    ;
    let m: nat = (3 * k / 2) as nat;
    assert(2 * m == 3 * k);
    assert(3 * long <= m * (2 * edge)) by (nonlinear_arith)
        requires
            long <= k * edge,
            2 * m == 3 * k,
    ;
    let a = 3 * long;
    let b = 2 * edge;
    assert(a / b <= m) by (nonlinear_arith)
        requires
            b > 0,
            a <= m * b,
    ;
}

/// A picture to be annotated is shown as it is, in its own size.
pub proof fn annotated_pictures_are_whole(png: &[u8], r: Result<AnnotationSource, String>)
    requires
        call_ensures(annotation_source, (png,), r),
    ensures
        r is Ok <==> picture_size(png@) is Ok,
        r is Ok ==> {
            &&& (r->Ok_0.width, r->Ok_0.height) == picture_size(png@)->Ok_0
            &&& r->Ok_0.data_url@ == "data:image/png;base64,"@ + base64_of(png@)
        },
{
}

/// Red and blue are exchanged in every pixel, and green and opacity stay.
pub proof fn red_and_blue_are_exchanged(rgba: &[u8], r: Vec<u8>, p: int)
    requires
        call_ensures(swap_red_blue, (rgba,), r),
        0 <= p,
        4 * p + 3 < rgba@.len(),
    ensures
        r@.len() == rgba@.len(),
        r@[4 * p] == rgba@[4 * p + 2],
        r@[4 * p + 1] == rgba@[4 * p + 1],
        r@[4 * p + 2] == rgba@[4 * p],
        r@[4 * p + 3] == rgba@[4 * p + 3],
{
    assert((4 * p) % 4 == 0 && (4 * p + 1) % 4 == 1 && (4 * p + 2) % 4 == 2 && (4 * p + 3) % 4 == 3);
}

/// The pixels of a picture are all there, in the other order.
pub proof fn pixels_are_loaded(png: &[u8], r: Result<Vec<u8>, String>, p: int)
    requires
        call_ensures(load_bgra, (png,), r),
    ensures
        r is Ok <==> picture_rgba(png@) is Ok,
        r is Ok ==> r->Ok_0@.len() == picture_rgba(png@)->Ok_0.len(),
        r is Ok && 0 <= p && 4 * p + 3 < r->Ok_0@.len() ==> {
            let rgba = picture_rgba(png@)->Ok_0;
            &&& r->Ok_0@[4 * p] == rgba[4 * p + 2]
            &&& r->Ok_0@[4 * p + 1] == rgba[4 * p + 1]
            &&& r->Ok_0@[4 * p + 2] == rgba[4 * p]
            &&& r->Ok_0@[4 * p + 3] == rgba[4 * p + 3]
        },
{
    assert((4 * p) % 4 == 0 && (4 * p + 1) % 4 == 1 && (4 * p + 2) % 4 == 2 && (4 * p + 3) % 4 == 3);
}


/// A picture that can be read has a preview, `r`, if neither of its edges has more than
/// 1,440,000 pixels and its samples have eight bits, or more than 96,000 with deeper
/// samples; a GIF has one in any case.
pub proof fn ordinary_pictures_have_previews(
    bytes: &[u8],
    r: Option<Result<String, String>>,
    direct: Result<String, String>,
)
    requires
        call_ensures(preview_data_url, (bytes,), r),
        call_ensures(encode_preview_data_url, (bytes,), direct),
    ensures
        is_gif(bytes@) ==> r is Some,
        picture_size(bytes@) is Err ==> r is Some,
        picture_size(bytes@) matches Ok(size) ==> (picture_depth(bytes@) matches Ok(depth) ==> {
            &&& size.0 <= 1_440_000 && size.1 <= 1_440_000 && depth.0 <= 8 * depth.1 ==> r is Some
            &&& size.0 <= 96_000 && size.1 <= 96_000 ==> r is Some
        }),
        r is Some ==> (r->0 is Ok) == (direct is Ok),
        r matches Some(Ok(url)) ==> direct is Ok && direct->Ok_0@ == url@,
{
    if let Ok((w, h)) = picture_size(bytes@) {
        if let Ok((bits, channels)) = picture_depth(bytes@) {
            lemma_bound_of_edges(w, h);
        }
    }
}

proof fn lemma_bound_of_edges(w: u32, h: u32)
    ensures
        w <= 3000 * 480 && h <= 3000 * 480 ==> block_bound(w, h, 480, 480) <= 16_000_000,
        w <= 200 * 480 && h <= 200 * 480 ==> block_bound(w, h, 480, 480) <= 65_000,
{
    let long = if w * 480 >= h * 480 {
        w
    } else {
        h
    };
    let across = if w * 480 >= h * 480 {
        h
    } else {
        w
    };
    let rows = (3 * long) as nat / 960nat + 3;
    let columns = long as nat / 480nat + 2;
    let least = if across < rows {
        across as nat
    } else {
        rows
    };
    assert(block_bound(w, h, 480, 480) == columns * least);
    if w <= 3000 * 480 && h <= 3000 * 480 {
        assert(columns * least <= 3002 * 4503) by (nonlinear_arith)
            requires
                0 <= columns <= 3002,
                0 <= least <= 4503,
        ;
    }
    if w <= 200 * 480 && h <= 200 * 480 {
        assert(columns * least <= 202 * 303) by (nonlinear_arith)
            requires
                0 <= columns <= 202,
                0 <= least <= 303,
        ;
    }
}


} // verus!
