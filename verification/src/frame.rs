//! Turning a captured screen buffer into tightly packed ARGB32 rows.
use vstd::prelude::*;
use crate::pixels::{lemma_row_fits, lemma_row_split, lemma_index_in_row, lemma_row_order};

verus! {

/// Pixel layouts that a screen capture may arrive in.
#[derive(Clone, Copy, Debug, PartialEq, Eq, Structural)]
pub enum PixelFormat {
    /// Memory order `[B, G, R, A]`, the same as ARGB32.
    Argb8888,
    /// Memory order `[R, G, B, X]`.
    Xbgr8888,
    /// Memory order `[B, G, R, X]`.
    Xrgb8888,
    /// Any other layout; its bytes are kept as they are.
    Other,
}

/// Why a captured buffer could not be turned into pixels.
#[derive(Clone, Copy, Debug, PartialEq, Eq, Structural)]
pub enum FrameError {
    /// The buffer's rows are shorter than four bytes per pixel.
    StrideTooSmall,
}

/// `[R, G, B, X]` pixels reordered to `[B, G, R, 255]`.
pub open spec fn xbgr_as_argb(d: Seq<u8>, pixels: int) -> Seq<u8> {
    Seq::new(
        (4 * pixels) as nat,
        |i: int|
            {
                let k = i - i % 4;
                if i % 4 == 0 {
                    d[k + 2]
                } else if i % 4 == 1 {
                    d[k + 1]
                } else if i % 4 == 2 {
                    d[k]
                } else {
                    255u8
                }
            },
    )
}

/// `[B, G, R, X]` pixels with the last byte set to 255.
pub open spec fn xrgb_as_argb(d: Seq<u8>, pixels: int) -> Seq<u8> {
    Seq::new((4 * pixels) as nat, |i: int| if i % 4 == 3 { 255u8 } else { d[i] })
}

/// The pixel bytes of each row of `canvas`, rows `stride` bytes apart, packed
/// `4 * width` bytes per row; a row that starts past the end of `canvas` is
/// zero.
pub open spec fn packed_rows(canvas: Seq<u8>, width: int, height: int, stride: int) -> Seq<u8> {
    Seq::new(
        (4 * width * height) as nat,
        |i: int|
            {
                let row = i / (4 * width);
                if row * stride < canvas.len() {
                    canvas[row * stride + i % (4 * width)]
                } else {
                    0u8
                }
            },
    )
}

/// Rows of `row_len` bytes in reverse order.
pub open spec fn flipped_rows(d: Seq<u8>, height: int, row_len: int) -> Seq<u8> {
    Seq::new(d.len(), |i: int| d[(height - 1 - i / row_len) * row_len + i % row_len])
}

/// Packed rows in ARGB32 byte order.
pub open spec fn as_argb(raw: Seq<u8>, pixels: int, format: PixelFormat) -> Seq<u8> {
    match format {
        PixelFormat::Xbgr8888 => xbgr_as_argb(raw, pixels),
        PixelFormat::Xrgb8888 => xrgb_as_argb(raw, pixels),
        _ => raw,
    }
}

/// The ARGB32 image, `4 * width` bytes per row, that a captured buffer holds.
pub open spec fn frame_pixels(
    canvas: Seq<u8>,
    width: int,
    height: int,
    stride: int,
    format: PixelFormat,
    y_invert: bool,
) -> Seq<u8> {
    let argb = as_argb(packed_rows(canvas, width, height, stride), width * height, format);
    if y_invert {
        flipped_rows(argb, height, 4 * width)
    } else {
        argb
    }
}

/// Convert Xbgr8888 buffer data to ARGB32 format (little-endian byte order):
/// each pixel `[R, G, B, X]` becomes `[B, G, R, 255]`.
pub fn convert_xbgr8888_to_argb32(data: &[u8], width: usize, height: usize) -> (result: Vec<u8>)
    requires
        4 * width * height <= usize::MAX,
        4 * width * height <= data.len(),
    ensures
        result@ == xbgr_as_argb(data@, width * height),
{
    assert(width * height <= 4 * width * height && 4 * (width * height) == 4 * width * height)
        by (nonlinear_arith);
    let pixels = width * height;
    let mut result: Vec<u8> = Vec::with_capacity(pixels * 4);
    let mut i: usize = 0;
    while i < pixels
        invariant
            pixels == width * height,
            4 * pixels <= data.len(),
            i <= pixels,
            result.len() == 4 * i,
            forall|k: int| 0 <= k < 4 * i ==> #[trigger] result@[k] == xbgr_as_argb(data@, pixels as int)[k],
        decreases pixels - i,
    {
        let src = i * 4;
        result.push(data[src + 2]);
        result.push(data[src + 1]);
        result.push(data[src]);
        result.push(255);
        i = i + 1;
    }
    assert(result@ =~= xbgr_as_argb(data@, pixels as int));
    result
}

/// Convert Xrgb8888 buffer data to ARGB32 format (little-endian byte order):
/// each pixel `[B, G, R, X]` becomes `[B, G, R, 255]`.
pub fn convert_xrgb8888_to_argb32(data: &[u8], width: usize, height: usize) -> (result: Vec<u8>)
    requires
        4 * width * height <= usize::MAX,
        4 * width * height <= data.len(),
    ensures
        result@ == xrgb_as_argb(data@, width * height),
{
    assert(width * height <= 4 * width * height && 4 * (width * height) == 4 * width * height)
        by (nonlinear_arith);
    let pixels = width * height;
    let mut result: Vec<u8> = Vec::with_capacity(pixels * 4);
    let mut i: usize = 0;
    while i < pixels
        invariant
            pixels == width * height,
            4 * pixels <= data.len(),
            i <= pixels,
            result.len() == 4 * i,
            forall|k: int| 0 <= k < 4 * i ==> #[trigger] result@[k] == xrgb_as_argb(data@, pixels as int)[k],
        decreases pixels - i,
    {
        let src = i * 4;
        result.push(data[src]);
        result.push(data[src + 1]);
        result.push(data[src + 2]);
        result.push(255);
        i = i + 1;
    }
    assert(result@ =~= xrgb_as_argb(data@, pixels as int));
    result
}

/// `[R, G, B, A]` pixels reordered to `[B, G, R, A]`.
pub open spec fn rgba_as_argb(d: Seq<u8>, pixels: int) -> Seq<u8> {
    Seq::new(
        (4 * pixels) as nat,
        |i: int|
            {
                let k = i - i % 4;
                if i % 4 == 0 {
                    d[k + 2]
                } else if i % 4 == 1 {
                    d[k + 1]
                } else if i % 4 == 2 {
                    d[k]
                } else {
                    d[k + 3]
                }
            },
    )
}

/// Convert RGBA8 image data (`[R, G, B, A]` per pixel) to ARGB32 byte
/// order `[B, G, R, A]`.
pub fn rgba_to_argb32(data: &[u8], width: usize, height: usize) -> (result: Vec<u8>)
    requires
        4 * width * height <= usize::MAX,
        4 * width * height <= data.len(),
    ensures
        result@ == rgba_as_argb(data@, width * height),
{
    assert(width * height <= 4 * width * height && 4 * (width * height) == 4 * width * height)
        by (nonlinear_arith);
    let pixels = width * height;
    let mut result: Vec<u8> = Vec::with_capacity(pixels * 4);
    let mut i: usize = 0;
    while i < pixels
        invariant
            pixels == width * height,
            4 * pixels <= data.len(),
            i <= pixels,
            result.len() == 4 * i,
            forall|k: int| 0 <= k < 4 * i ==> #[trigger] result@[k] == rgba_as_argb(data@, pixels as int)[k],
        decreases pixels - i,
    {
        let src = i * 4;
        result.push(data[src + 2]);
        result.push(data[src + 1]);
        result.push(data[src]);
        result.push(data[src + 3]);
        i = i + 1;
    }
    assert(result@ =~= rgba_as_argb(data@, pixels as int));
    result
}

/// What the `image` crate decodes an encoded image (PNG, JPEG) to: its
/// width, height and RGBA8 pixel bytes, or nothing when the bytes are not an
/// image it can read.
pub uninterp spec fn decoded_rgba(data: Seq<u8>) -> Option<(u32, u32, Seq<u8>)>;

/// `image::load_from_memory`, then `DynamicImage::to_rgba8`. The contract
/// claims that the result is a function of the bytes alone (the format is
/// guessed from the bytes), and that the RGBA buffer holds at least
/// `4 * width * height` bytes, the check `ImageBuffer` makes of every buffer
/// it holds. What the pixels are is not stated.
#[verifier::external_body]
fn decode_image_rgba(data: &[u8]) -> (img: Option<(u32, u32, Vec<u8>)>)
    ensures
        match img {
            Some((w, h, px)) => decoded_rgba(data@) == Some((w, h, px@)) && 4 * w * h <= px@.len()
                && 4 * w * h <= usize::MAX,
            None => decoded_rgba(data@) is None,
        },
{
    match image::load_from_memory(data) {
        Ok(decoded) => {
            let rgba = decoded.to_rgba8();
            let (w, h) = rgba.dimensions();
            Some((w, h, rgba.into_raw()))
        },
        Err(_) => None,
    }
}

/// An encoded image (the album art of the playing track, or a background
/// picture) as its width, height and packed ARGB32 pixels; none when the
/// bytes do not decode.
pub fn decode_argb32(data: &[u8]) -> (art: Option<(u32, u32, Vec<u8>)>)
    ensures
        match decoded_rgba(data@) {
            None => art is None,
            Some((w, h, px)) => art matches Some((aw, ah, apx)) && aw == w && ah == h
                && apx@ == rgba_as_argb(px, w * h),
        },
{
    match decode_image_rgba(data) {
        None => None,
        Some((w, h, px)) => {
            let argb = rgba_to_argb32(px.as_slice(), w as usize, h as usize);
            Some((w, h, argb))
        },
    }
}

/// Where the first byte of pixel `(x, y)` of an image with rows `rowstride`
/// bytes apart and `channels` bytes per pixel lies.
pub open spec fn pixbuf_offset(x: int, y: int, rowstride: int, channels: int) -> int {
    y * rowstride + x * channels
}

/// An image of `channels` bytes per pixel (`[R, G, B]` or `[R, G, B, A]`),
/// rows `rowstride` bytes apart, as packed ARGB32 pixels `[B, G, R, A]`,
/// opaque without an alpha channel; with any other channel count every byte
/// is zero.
pub open spec fn pixbuf_as_argb(
    d: Seq<u8>,
    width: int,
    height: int,
    rowstride: int,
    channels: int,
) -> Seq<u8> {
    Seq::new(
        (4 * width * height) as nat,
        |i: int|
            {
                let s = pixbuf_offset((i / 4) % width, (i / 4) / width, rowstride, channels);
                if channels == 4 || channels == 3 {
                    if i % 4 == 0 {
                        d[s + 2]
                    } else if i % 4 == 1 {
                        d[s + 1]
                    } else if i % 4 == 2 {
                        d[s]
                    } else if channels == 4 {
                        d[s + 3]
                    } else {
                        255u8
                    }
                } else {
                    0u8
                }
            },
    )
}

proof fn lemma_pixel_coords(width: int, x: int, y: int)
    requires
        0 <= x < width,
        0 <= y,
    ensures
        (y * width + x) % width == x,
        (y * width + x) / width == y,
{
    vstd::arithmetic::div_mod::lemma_fundamental_div_mod_converse(y * width + x, width, y, x);
}

proof fn lemma_pixel_in_image(x: int, y: int, width: int, height: int, rowstride: int, channels: int)
    requires
        0 <= x < width,
        0 <= y < height,
        0 <= rowstride,
        0 <= channels,
    ensures
        pixbuf_offset(x, y, rowstride, channels) + channels <= pixbuf_offset(
            width - 1,
            height - 1,
            rowstride,
            channels,
        ) + channels,
        0 <= pixbuf_offset(x, y, rowstride, channels),
{
    assert(y * rowstride <= (height - 1) * rowstride) by (nonlinear_arith)
        requires
            0 <= y <= height - 1,
            0 <= rowstride,
    ;
    assert(x * channels <= (width - 1) * channels) by (nonlinear_arith)
        requires
            0 <= x <= width - 1,
            0 <= channels,
    ;
    assert(0 <= y * rowstride && 0 <= x * channels) by (nonlinear_arith)
        requires
            0 <= y,
            0 <= x,
            0 <= rowstride,
            0 <= channels,
    ;
}

/// Convert the pixels of a decoded icon (`channels` bytes per pixel, rows
/// `rowstride` bytes apart) to packed ARGB32.
pub fn pixbuf_to_argb32(
    pixels: &[u8],
    width: usize,
    height: usize,
    rowstride: usize,
    channels: usize,
) -> (result: Vec<u8>)
    requires
        4 * width * height <= usize::MAX,
        (channels == 3 || channels == 4) && width > 0 && height > 0 ==> pixbuf_offset(
            width - 1,
            height - 1,
            rowstride as int,
            channels as int,
        ) + channels <= pixels.len(),
    ensures
        result@ == pixbuf_as_argb(pixels@, width as int, height as int, rowstride as int, channels as int),
{
    let ghost target = pixbuf_as_argb(pixels@, width as int, height as int, rowstride as int, channels as int);
    let mut result: Vec<u8> = Vec::new();
    let mut y: usize = 0;
    while y < height
        invariant
            y <= height,
            4 * width * height <= usize::MAX,
            (channels == 3 || channels == 4) && width > 0 && height > 0 ==> pixbuf_offset(
                width - 1,
                height - 1,
                rowstride as int,
                channels as int,
            ) + channels <= pixels.len(),
            target == pixbuf_as_argb(pixels@, width as int, height as int, rowstride as int, channels as int),
            result.len() == 4 * (y * width),
            forall|k: int| 0 <= k < result.len() ==> #[trigger] result@[k] == target[k],
        decreases height - y,
    {
        let mut x: usize = 0;
        while x < width
            invariant
                x <= width,
                y < height,
                4 * width * height <= usize::MAX,
                (channels == 3 || channels == 4) && width > 0 && height > 0 ==> pixbuf_offset(
                    width - 1,
                    height - 1,
                    rowstride as int,
                    channels as int,
                ) + channels <= pixels.len(),
                target == pixbuf_as_argb(pixels@, width as int, height as int, rowstride as int, channels as int),
                result.len() == 4 * (y * width + x),
                forall|k: int| 0 <= k < result.len() ==> #[trigger] result@[k] == target[k],
            decreases width - x,
        {
            let ghost p = y * width + x;
            assert(p + 1 <= width * height && 4 * (p + 1) <= 4 * width * height) by (nonlinear_arith)
                requires
                    p == y * width + x,
                    x < width,
                    y < height,
            ;
            proof {
                lemma_pixel_coords(width as int, x as int, y as int);
            }
            let ghost before = result@;
            if channels == 4 || channels == 3 {
                proof {
                    lemma_pixel_in_image(x as int, y as int, width as int, height as int, rowstride as int, channels as int);
                }
                let s = y * rowstride + x * channels;
                result.push(pixels[s + 2]);
                result.push(pixels[s + 1]);
                result.push(pixels[s]);
                if channels == 4 {
                    result.push(pixels[s + 3]);
                } else {
                    result.push(255);
                }
            } else {
                result.push(0);
                result.push(0);
                result.push(0);
                result.push(0);
            }
            assert forall|k: int| 0 <= k < result.len() implies #[trigger] result@[k] == target[k] by {
                if k >= 4 * p {
                    assert(k / 4 == p);
                    assert(k % 4 == k - 4 * p);
                } else {
                    assert(result@[k] == before[k]);
                }
            }
            x = x + 1;
        }
        assert(4 * (y * width + width) == 4 * ((y + 1) * width)) by (nonlinear_arith);
        y = y + 1;
    }
    assert(result@.len() == 4 * width * height) by (nonlinear_arith)
        requires
            result@.len() == 4 * (height * width),
    ;
    assert(result@ =~= target);
    result
}

/// Row `row` of a canvas either starts past its end or holds all `row_len`
/// pixel bytes.
pub open spec fn row_whole(canvas_len: int, row: int, stride: int, row_len: int) -> bool {
    row * stride < canvas_len ==> row * stride + row_len <= canvas_len
}

/// No row of the canvas is cut off in the middle.
pub open spec fn rows_whole(canvas_len: int, height: int, stride: int, row_len: int) -> bool {
    forall|row: int| 0 <= row < height ==> #[trigger] row_whole(canvas_len, row, stride, row_len)
}

/// Packs the pixel bytes of each row of `canvas` into `4 * width` bytes per row.
#[verifier::spinoff_prover]
fn pack_rows(canvas: &[u8], width: u32, height: u32, stride: u32) -> (data: Vec<u8>)
    requires
        4 * width * height <= u32::MAX,
        4 * width <= stride,
        height * stride + 4 * width <= usize::MAX,
        rows_whole(canvas@.len() as int, height as int, stride as int, 4 * width),
    ensures
        data@ == packed_rows(canvas@, width as int, height as int, stride as int),
{
    let ghost target = packed_rows(canvas@, width as int, height as int, stride as int);
    assert(width * height <= 4 * width * height && width * height * 4 == 4 * width * height)
        by (nonlinear_arith);
    let pw = (width * 4) as usize;
    let st = stride as usize;
    let h = height as usize;
    let total = (width * height * 4) as usize;
    assert(total == pw * h) by (nonlinear_arith)
        requires
            total == width * height * 4,
            pw == width * 4,
            h == height,
    ;
    let mut data: Vec<u8> = vec![0u8; total];
    let mut row: usize = 0;
    while row < h
        invariant
            row <= h,
            h == height,
            pw == 4 * width,
            st == stride,
            pw <= st,
            total == pw * h,
            data.len() == total,
            h * st + pw <= usize::MAX,
            rows_whole(canvas@.len() as int, height as int, stride as int, pw as int),
            target == packed_rows(canvas@, width as int, height as int, stride as int),
            forall|i: int| 0 <= i < row * pw ==> #[trigger] data@[i] == target[i],
            forall|i: int| row * pw <= i < total ==> #[trigger] data@[i] == 0,
        decreases h - row,
    {
        proof {
            lemma_row_fits(row as int, h as int, st as int);
            lemma_row_fits(row as int, h as int, pw as int);
            assert(row_whole(canvas@.len() as int, row as int, stride as int, pw as int));
        }
        let src = row * st;
        let dst = row * pw;
        let copy_end = if src + pw < canvas.len() {
            src + pw
        } else {
            canvas.len()
        };
        let ghost before = data@;
        if copy_end > src {
            let mut k: usize = 0;
            while k < pw
                invariant
                    k <= pw,
                    src + pw <= canvas.len(),
                    dst + pw <= data.len(),
                    data.len() == total,
                    forall|i: int|
                        0 <= i < total ==> #[trigger] data@[i] == (if dst <= i < dst + k {
                            canvas@[src + (i - dst)]
                        } else {
                            before[i]
                        }),
                decreases pw - k,
            {
                data[dst + k] = canvas[src + k];
                k = k + 1;
            }
        }
        assert forall|i: int| 0 <= i < (row + 1) * pw implies #[trigger] data@[i] == target[i] by {
            if i >= dst {
                lemma_row_split(row as int, i - dst, pw as int);
            }
        }
        assert forall|i: int| (row + 1) * pw <= i < total implies #[trigger] data@[i] == 0 by {}
        row = row + 1;
    }
    assert(target.len() == total);
    assert(row * pw == total) by (nonlinear_arith)
        requires
            row == h,
            total == pw * h,
    ;
    assert forall|i: int| 0 <= i < total implies #[trigger] data@[i] == target[i] by {}
    assert(data@ =~= target);
    data
}

/// Reverses the order of the rows of `d`, `row_len` bytes each.
fn flip_rows(d: &Vec<u8>, height: usize, row_len: usize) -> (flipped: Vec<u8>)
    requires
        d.len() == height * row_len,
    ensures
        flipped@ == flipped_rows(d@, height as int, row_len as int),
{
    let ghost target = flipped_rows(d@, height as int, row_len as int);
    let mut out: Vec<u8> = vec![0u8; d.len()];
    let mut row: usize = 0;
    while row < height
        invariant
            row <= height,
            d.len() == height * row_len,
            out.len() == d.len(),
            target == flipped_rows(d@, height as int, row_len as int),
            forall|i: int| 0 <= i < row * row_len ==> #[trigger] out@[i] == target[i],
        decreases height - row,
    {
        proof {
            lemma_row_fits(row as int, height as int, row_len as int);
            lemma_row_fits((height - 1 - row) as int, height as int, row_len as int);
        }
        let src = (height - 1 - row) * row_len;
        let dst = row * row_len;
        let ghost before = out@;
        let mut k: usize = 0;
        while k < row_len
            invariant
                k <= row_len,
                src + row_len <= d.len(),
                dst + row_len <= out.len(),
                out.len() == d.len(),
                forall|i: int|
                    0 <= i < out.len() ==> #[trigger] out@[i] == (if dst <= i < dst + k {
                        d@[src + (i - dst)]
                    } else {
                        before[i]
                    }),
            decreases row_len - k,
        {
            out[dst + k] = d[src + k];
            k = k + 1;
        }
        assert forall|i: int| 0 <= i < (row + 1) * row_len implies #[trigger] out@[i] == target[i] by {
            if i >= dst {
                lemma_row_split(row as int, i - dst, row_len as int);
            }
        }
        row = row + 1;
    }
    proof {
        if height > 0 {
            lemma_row_fits((height - 1) as int, height as int, row_len as int);
        }
    }
    assert(out@ =~= target);
    out
}

/// The ARGB32 pixels, `4 * width` bytes per row, of a captured buffer whose
/// rows are `stride` bytes apart: rows are packed, converted from `format`,
/// and put in reverse order when the capture is upside down. A stride
/// shorter than a row of pixels is an error.
pub fn frame_to_argb32(
    canvas: &[u8],
    width: u32,
    height: u32,
    stride: u32,
    format: PixelFormat,
    y_invert: bool,
) -> (result: Result<Vec<u8>, FrameError>)
    requires
        4 * width <= u32::MAX,
        4 * width <= stride ==> {
            &&& 4 * width * height <= u32::MAX
            &&& height * stride + 4 * width <= usize::MAX
            &&& rows_whole(canvas@.len() as int, height as int, stride as int, 4 * width)
        },
    ensures
        stride < 4 * width ==> result == Err::<Vec<u8>, FrameError>(FrameError::StrideTooSmall),
        4 * width <= stride ==> result is Ok && result->Ok_0@ == frame_pixels(
            canvas@,
            width as int,
            height as int,
            stride as int,
            format,
            y_invert,
        ),
{
    let pixel_width = width * 4;
    if stride < pixel_width {
        return Err(FrameError::StrideTooSmall);
    }
    let raw = pack_rows(canvas, width, height, stride);
    assert(4 * width * height == 4 * (width * height)) by (nonlinear_arith);
    let converted = match format {
        PixelFormat::Xbgr8888 => convert_xbgr8888_to_argb32(
            raw.as_slice(),
            width as usize,
            height as usize,
        ),
        PixelFormat::Xrgb8888 => convert_xrgb8888_to_argb32(
            raw.as_slice(),
            width as usize,
            height as usize,
        ),
        _ => raw,
    };
    if y_invert {
        assert(converted.len() == (height as usize) * (pixel_width as usize)) by (nonlinear_arith)
            requires
                converted.len() == 4 * width * height,
                pixel_width == 4 * width,
        ;
        Ok(flip_rows(&converted, height as usize, pixel_width as usize))
    } else {
        Ok(converted)
    }
}

/// Reversing the rows twice gives back the same buffer.
pub proof fn lemma_flip_twice(d: Seq<u8>, height: int, row_len: int)
    requires
        0 <= height,
        0 <= row_len,
        d.len() == height * row_len,
    ensures
        flipped_rows(flipped_rows(d, height, row_len), height, row_len) == d,
{
    let once = flipped_rows(d, height, row_len);
    let twice = flipped_rows(once, height, row_len);
    if row_len > 0 {
        assert forall|i: int| 0 <= i < d.len() implies #[trigger] twice[i] == d[i] by {
            lemma_index_in_row(i, height, row_len);
            let row = i / row_len;
            let k = i % row_len;
            let j = (height - 1 - row) * row_len + k;
            lemma_row_split(height - 1 - row, k, row_len);
            lemma_row_fits(height - 1 - row, height, row_len);
            assert(twice[i] == once[j]);
            assert(once[j] == d[(height - 1 - (height - 1 - row)) * row_len + k]);
        }
    } else {
        assert(d.len() == 0) by (nonlinear_arith)
            requires
                d.len() == height * row_len,
                row_len == 0,
        ;
    }
    assert(twice =~= d);
}

proof fn lemma_split_index(q: int, m: int, r: int)
    requires
        0 < m,
        0 <= r < m,
    ensures
        (q * m + r) / m == q,
        (q * m + r) % m == r,
{
    vstd::arithmetic::div_mod::lemma_fundamental_div_mod_converse(q * m + r, m, q, r);
}

/// Byte `j` of pixel `x` of row `y` of a capture (a row that lies inside the
/// canvas, `stride` bytes per row) comes out at byte `j` of pixel `x` of
/// output row `y`, or of row `height - 1 - y` when the capture is upside
/// down. Xrgb8888 pixels (`[B, G, R, X]`) keep their first three bytes in
/// place, Xbgr8888 pixels (`[R, G, B, X]`) trade the first and third, and
/// both come out opaque (fourth byte 255); the bytes of any other format
/// are kept as they are. The output holds `4 * width * height` bytes.
pub proof fn lemma_capture_pixel_bytes(
    canvas: Seq<u8>,
    width: int,
    height: int,
    stride: int,
    format: PixelFormat,
    y_invert: bool,
    x: int,
    y: int,
    j: int,
)
    requires
        4 * width <= stride,
        0 <= x < width,
        0 <= y < height,
        0 <= j < 4,
        y * stride + 4 * width <= canvas.len(),
    ensures
        frame_pixels(canvas, width, height, stride, format, y_invert).len() == 4 * width * height,
        frame_pixels(canvas, width, height, stride, format, y_invert)[4 * ((if y_invert {
            height - 1 - y
        } else {
            y
        }) * width + x) + j] == (if j == 3 && (format == PixelFormat::Xrgb8888 || format
            == PixelFormat::Xbgr8888) {
            255u8
        } else {
            canvas[y * stride + 4 * x + (if format == PixelFormat::Xbgr8888 && j < 3 {
            2 - j
        } else {
            j
        })]
        }),
{
    let w4 = 4 * width;
    let n = width * height;
    let p = packed_rows(canvas, width, height, stride);
    let argb = as_argb(p, n, format);
    assert(4 * width * height == 4 * n) by (nonlinear_arith)
        requires
            n == width * height,
    ;
    assert(p.len() == 4 * n);
    assert(argb.len() == 4 * n);
    let k = y * width + x;
    let i = 4 * k + j;
    assert(0 <= k < n) by (nonlinear_arith)
        requires
            0 <= x < width,
            0 <= y < height,
            k == y * width + x,
            n == width * height,
    ;
    // where pixel k sits in the packed rows and in the canvas
    assert forall|jj: int| 0 <= jj < 4 implies #[trigger] p[4 * k + jj] == canvas[y * stride + 4 * x + jj] by {
        assert(4 * k + jj == y * w4 + (4 * x + jj)) by (nonlinear_arith)
            requires
                k == y * width + x,
                w4 == 4 * width,
        ;
        lemma_split_index(y, w4, 4 * x + jj);
        assert(0 <= y * stride) by (nonlinear_arith)
            requires
                0 <= y,
                0 <= stride,
        ;
    }
    lemma_split_index(k, 4, j);
    assert(i - i % 4 == 4 * k);
    assert(argb[i] == (if j == 3 && (format == PixelFormat::Xrgb8888 || format
        == PixelFormat::Xbgr8888) {
        255u8
    } else {
        canvas[y * stride + 4 * x + (if format == PixelFormat::Xbgr8888 && j < 3 {
            2 - j
        } else {
            j
        })]
    })) by {
        if format == PixelFormat::Xbgr8888 && j < 3 {
            assert(p[4 * k + (2 - j)] == canvas[y * stride + 4 * x + (2 - j)]);
        } else if j < 3 || (format != PixelFormat::Xrgb8888 && format != PixelFormat::Xbgr8888) {
            assert(p[4 * k + j] == canvas[y * stride + 4 * x + j]);
        }
    }
    if y_invert {
        let yy = height - 1 - y;
        let i2 = 4 * (yy * width + x) + j;
        assert(i2 == yy * w4 + (4 * x + j)) by (nonlinear_arith)
            requires
                i2 == 4 * (yy * width + x) + j,
                w4 == 4 * width,
        ;
        assert(i == y * w4 + (4 * x + j)) by (nonlinear_arith)
            requires
                i == 4 * (y * width + x) + j,
                w4 == 4 * width,
        ;
        lemma_split_index(yy, w4, 4 * x + j);
        assert(0 <= i2 < 4 * n) by (nonlinear_arith)
            requires
                i2 == 4 * (yy * width + x) + j,
                0 <= yy < height,
                0 <= x < width,
                0 <= j < 4,
                n == width * height,
        ;
        assert(flipped_rows(argb, height, w4)[i2] == argb[(height - 1 - yy) * w4 + (4 * x + j)]);
    }
}

} // verus!
