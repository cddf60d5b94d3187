//! Pixels and PNG.

use png::{BitDepth, ColorType};
use vstd::prelude::*;

verus! {

/// Encoding errors of the `png` crate.
#[verifier::external_type_specification]
#[verifier::external_body]
pub struct ExEncodingError(png::EncodingError);

/// Decoding errors of the `png` crate.
#[verifier::external_type_specification]
#[verifier::external_body]
pub struct ExDecodingError(png::DecodingError);

/// Pixel layout of a decoded frame: eight bits per sample.
#[derive(PartialEq, Eq, Structural, Clone, Copy, Debug)]
pub enum PixelFormat {
    /// Gray only
    Gray,
    /// Gray and alpha
    GrayAlpha,
    /// Red, green, blue
    Rgb,
    /// Red, green, blue, alpha
    Rgba,
    /// Anything else, such as sixteen bits per sample
    Other,
}

/// A decoded frame.
pub struct Frame {
    /// Width in pixels
    pub width: u32,
    /// Height in pixels
    pub height: u32,
    /// Pixel layout
    pub format: PixelFormat,
    /// Samples, row by row
    pub data: Vec<u8>,
}

/// What a [`Frame`] stands for.
#[verifier::ext_equal]
pub struct FrameView {
    pub width: u32,
    pub height: u32,
    pub format: PixelFormat,
    pub data: Seq<u8>,
}

impl View for Frame {
    type V = FrameView;

    open spec fn view(&self) -> FrameView {
        FrameView {
            width: self.width,
            height: self.height,
            format: self.format,
            data: self.data@,
        }
    }
}

/// The PNG file of an RGBA bitmap.
pub uninterp spec fn png_encoded(width: u32, height: u32, rgba: Seq<u8>) -> Seq<u8>;

/// The first frame of a PNG file with palettes, transparency chunks and
/// samples under eight bits expanded; nothing when the file cannot be decoded.
pub uninterp spec fn png_frame(bytes: Seq<u8>) -> Option<FrameView>;

/// The size and the samples of the first frame of a PNG file, just as the file
/// has them; nothing when the file cannot be decoded.
pub uninterp spec fn png_raw(bytes: Seq<u8>) -> Option<(u32, u32, Seq<u8>)>;

/// The size in the header of a PNG file; nothing when it cannot be read.
pub uninterp spec fn png_header(bytes: Seq<u8>) -> Option<(u32, u32)>;

/// The widest bitmap whose rows fit the decoder's default limit with room to
/// spare.
pub open spec fn rows_fit(width: u32) -> bool {
    width <= 0x40_0000
}

/// `png::Encoder` with eight-bit RGBA and fast compression, written to
/// memory. It refuses an empty bitmap and takes every other one. The file is a
/// function of the bitmap. PNG is lossless, so decoding the file gives the
/// bitmap back, with or without expansion, and its header the size, as long as
/// a row fits the decoder's limit.
#[verifier::external_body]
pub(crate) fn encode(width: u32, height: u32, rgba: &[u8]) -> (r: Result<Vec<u8>, png::EncodingError>)
    requires
        rgba@.len() == width * height * 4,
    ensures
        r is Ok == (0 < width && 0 < height),
        r is Ok ==> r->Ok_0@ == png_encoded(width, height, rgba@),
        r is Ok && rows_fit(width) ==> png_frame(r->Ok_0@) == Some(
            FrameView { width, height, format: PixelFormat::Rgba, data: rgba@ },
        ),
        r is Ok && rows_fit(width) ==> png_raw(r->Ok_0@) == Some((width, height, rgba@)),
        r is Ok && rows_fit(width) ==> png_header(r->Ok_0@) == Some((width, height)),
{
    let mut out = Vec::new();
    let mut encoder = png::Encoder::new(&mut out, width, height);
    encoder.set_color(ColorType::Rgba);
    encoder.set_depth(BitDepth::Eight);
    encoder.set_compression(png::Compression::Fast);
    let mut writer = encoder.write_header()?;
    writer.write_image_data(rgba)?;
    drop(writer);
    Ok(out)
}

/// Bytes per pixel.
pub open spec fn samples(format: PixelFormat) -> nat {
    match format {
        PixelFormat::Gray => 1,
        PixelFormat::GrayAlpha => 2,
        PixelFormat::Rgb => 3,
        PixelFormat::Rgba => 4,
        PixelFormat::Other => 0,
    }
}

/// `png::Decoder` with the `EXPAND` transformation, up to the first frame. The
/// frame is a function of the file. A frame in one of the eight-bit layouts
/// has the bytes that its size asks for.
#[verifier::external_body]
pub(crate) fn decode(bytes: &[u8]) -> (r: Result<Frame, png::DecodingError>)
    ensures
        match r {
            Ok(frame) => png_frame(bytes@) == Some(frame@),
            Err(_) => png_frame(bytes@) is None,
        },
        r is Ok && r->Ok_0.format != PixelFormat::Other ==> r->Ok_0.data@.len() == r->Ok_0.width
            * r->Ok_0.height * samples(r->Ok_0.format),
{
    let mut decoder = png::Decoder::new(std::io::Cursor::new(bytes));
    decoder.set_transformations(png::Transformations::EXPAND);
    let mut reader = decoder.read_info()?;
    let size = reader.output_buffer_size().ok_or(png::DecodingError::LimitsExceeded)?;
    let mut data = vec![0u8; size];
    let info = reader.next_frame(&mut data)?;
    data.truncate(info.buffer_size());
    let format = match (info.color_type, info.bit_depth) {
        (ColorType::Grayscale, BitDepth::Eight) => PixelFormat::Gray,
        (ColorType::GrayscaleAlpha, BitDepth::Eight) => PixelFormat::GrayAlpha,
        (ColorType::Rgb, BitDepth::Eight) => PixelFormat::Rgb,
        (ColorType::Rgba, BitDepth::Eight) => PixelFormat::Rgba,
        _ => PixelFormat::Other,
    };
    Ok(Frame { width: info.width, height: info.height, format, data })
}

/// `png::Decoder` without any transformation, up to the first frame. What
/// comes out is a function of the file.
#[verifier::external_body]
pub(crate) fn decode_raw(bytes: &[u8]) -> (r: Result<(u32, u32, Vec<u8>), png::DecodingError>)
    ensures
        match r {
            Ok(frame) => png_raw(bytes@) == Some((frame.0, frame.1, frame.2@)),
            Err(_) => png_raw(bytes@) is None,
        },
{
    let mut reader = png::Decoder::new(std::io::Cursor::new(bytes)).read_info()?;
    let size = reader.output_buffer_size().ok_or(png::DecodingError::LimitsExceeded)?;
    let mut data = vec![0u8; size];
    let info = reader.next_frame(&mut data)?;
    data.truncate(info.buffer_size());
    Ok((info.width, info.height, data))
}

/// `png::Decoder::read_info`: reads the header only. The size is a function of
/// the file.
#[verifier::external_body]
pub(crate) fn header(bytes: &[u8]) -> (r: Result<(u32, u32), png::DecodingError>)
    ensures
        match r {
            Ok(size) => png_header(bytes@) == Some(size),
            Err(_) => png_header(bytes@) is None,
        },
{
    let reader = png::Decoder::new(std::io::Cursor::new(bytes)).read_info()?;
    let info = reader.info();
    Ok((info.width, info.height))
}

/// Image errors.
#[derive(PartialEq, Eq, Structural, Clone, Copy, Debug)]
pub enum ImageError {
    /// The bitmap cannot be encoded
    Encode,
    /// The file cannot be decoded
    Decode,
    /// The pixel layout is not supported
    Format,
}

/// The RGBA pixels of a frame; nothing for a layout that is not supported.
pub open spec fn expanded(frame: FrameView) -> Option<Seq<u8>> {
    let d = frame.data;
    match frame.format {
        PixelFormat::Rgba => Some(d),
        PixelFormat::Rgb => Some(
            Seq::new(
                ((d.len() / 3) * 4) as nat,
                |i: int| if i % 4 == 3 {
                    255u8
                } else {
                    d[(i / 4) * 3 + i % 4]
                },
            ),
        ),
        PixelFormat::GrayAlpha => Some(
            Seq::new(
                ((d.len() / 2) * 4) as nat,
                |i: int| if i % 4 == 3 {
                    d[(i / 4) * 2 + 1]
                } else {
                    d[(i / 4) * 2]
                },
            ),
        ),
        PixelFormat::Gray => Some(
            Seq::new(
                (d.len() * 4) as nat,
                |i: int| if i % 4 == 3 {
                    255u8
                } else {
                    d[i / 4]
                },
            ),
        ),
        PixelFormat::Other => None,
    }
}

fn push_pixel(out: &mut Vec<u8>, r: u8, g: u8, b: u8, a: u8)
    ensures
        final(out)@ == old(out)@ + seq![r, g, b, a],
{
    let ghost before = out@;
    out.push(r);
    out.push(g);
    out.push(b);
    out.push(a);
    proof {
        assert(out@ =~= before + seq![r, g, b, a]);
    }
}

/// Brings a decoded frame to RGBA: a missing alpha is opaque.
pub fn expand_frame(frame: Frame) -> (r: Result<Vec<u8>, ImageError>)
    ensures
        match r {
            Ok(rgba) => expanded(frame@) == Some(rgba@),
            Err(e) => expanded(frame@) is None && e == ImageError::Format,
        },
{
    let ghost d = frame.data@;
    let mut out: Vec<u8> = Vec::new();
    let mut i: usize = 0;
    match frame.format {
        PixelFormat::Rgba => Ok(frame.data),
        PixelFormat::Rgb => {
            let n: usize = frame.data.len() / 3;
            while i < n
                invariant
                    i <= n,
                    d == frame.data@,
                    n == d.len() / 3,
                    out.len() == i * 4,
                    forall|j: int|
                        0 <= j < i * 4 ==> #[trigger] out@[j] == (if j % 4 == 3 {
                            255u8
                        } else {
                            d[(j / 4) * 3 + j % 4]
                        }),
                decreases n - i,
            {
                push_pixel(&mut out, frame.data[3 * i], frame.data[3 * i + 1], frame.data[3 * i + 2], 255);
                i += 1;
            }
            proof {
                assert(out@ =~= expanded(frame@)->0);
            }
            Ok(out)
        },
        PixelFormat::GrayAlpha => {
            let n: usize = frame.data.len() / 2;
            while i < n
                invariant
                    i <= n,
                    d == frame.data@,
                    n == d.len() / 2,
                    out.len() == i * 4,
                    forall|j: int|
                        0 <= j < i * 4 ==> #[trigger] out@[j] == (if j % 4 == 3 {
                            d[(j / 4) * 2 + 1]
                        } else {
                            d[(j / 4) * 2]
                        }),
                decreases n - i,
            {
                let v: u8 = frame.data[2 * i];
                push_pixel(&mut out, v, v, v, frame.data[2 * i + 1]);
                i += 1;
            }
            proof {
                assert(out@ =~= expanded(frame@)->0);
            }
            Ok(out)
        },
        PixelFormat::Gray => {
            let n: usize = frame.data.len();
            while i < n
                invariant
                    i <= n,
                    d == frame.data@,
                    n == d.len(),
                    out.len() == i * 4,
                    forall|j: int|
                        0 <= j < i * 4 ==> #[trigger] out@[j] == (if j % 4 == 3 {
                            255u8
                        } else {
                            d[j / 4]
                        }),
                decreases n - i,
            {
                let v: u8 = frame.data[i];
                push_pixel(&mut out, v, v, v, 255);
                i += 1;
            }
            proof {
                assert(out@ =~= expanded(frame@)->0);
            }
            Ok(out)
        },
        PixelFormat::Other => Err(ImageError::Format),
    }
}

/// The RGBA bitmap in a PNG file.
pub open spec fn decoded(bytes: Seq<u8>) -> Option<(u32, u32, Seq<u8>)> {
    match png_frame(bytes) {
        Some(frame) => match expanded(frame) {
            Some(rgba) => Some((frame.width, frame.height, rgba)),
            None => None,
        },
        None => None,
    }
}

proof fn lemma_expanded_fits(frame: FrameView)
    requires
        frame.format != PixelFormat::Other ==> frame.data.len() == frame.width * frame.height * samples(
            frame.format,
        ),
    ensures
        expanded(frame) is Some ==> expanded(frame)->0.len() == frame.width * frame.height * 4,
{
    let n = frame.width * frame.height;
    assert(n >= 0) by (nonlinear_arith)
        requires
            n == frame.width * frame.height,
    ;
}

/// Decodes a PNG file to RGBA. The bytes fit the size.
pub fn decode_png_rgba(bytes: &[u8]) -> (r: Result<(usize, usize, Vec<u8>), ImageError>)
    ensures
        match r {
            Ok(image) => decoded(bytes@) == Some((image.0 as u32, image.1 as u32, image.2@)) && image.0
                <= u32::MAX && image.1 <= u32::MAX && image.2@.len() == image.0 * image.1 * 4,
            Err(e) => decoded(bytes@) is None && e == (if png_frame(bytes@) is None {
                ImageError::Decode
            } else {
                ImageError::Format
            }),
        },
{
    match decode(bytes) {
        Err(_) => Err(ImageError::Decode),
        Ok(frame) => {
            let width: u32 = frame.width;
            let height: u32 = frame.height;
            proof {
                lemma_expanded_fits(frame@);
            }
            match expand_frame(frame) {
                Ok(rgba) => Ok((width as usize, height as usize, rgba)),
                Err(e) => Err(e),
            }
        },
    }
}

/// Whether the bytes are those of an RGBA bitmap of that size, and there are
/// any.
pub open spec fn is_bitmap(width: u32, height: u32, rgba: Seq<u8>) -> bool {
    &&& width > 0
    &&& height > 0
    &&& rgba.len() == width * height * 4
}

/// Encodes an RGBA bitmap as PNG. A bitmap whose bytes do not fit its size, or
/// that has none, is refused.
pub fn encode_png_rgba(width: usize, height: usize, rgba: &[u8]) -> (r: Result<Vec<u8>, ImageError>)
    ensures
        match r {
            Ok(file) => is_bitmap(width as u32, height as u32, rgba@) && file@ == png_encoded(
                width as u32,
                height as u32,
                rgba@,
            ),
            Err(e) => e == ImageError::Encode && !is_bitmap(width as u32, height as u32, rgba@),
        },
        r is Ok && rows_fit(width as u32) ==> decoded(r->Ok_0@) == Some(
            (width as u32, height as u32, rgba@),
        ),
        r is Ok && rows_fit(width as u32) ==> png_raw(r->Ok_0@) == Some(
            (width as u32, height as u32, rgba@),
        ),
        r is Ok && rows_fit(width as u32) ==> png_header(r->Ok_0@) == Some(
            (width as u32, height as u32),
        ),
{
    let w: u32 = width as u32;
    let h: u32 = height as u32;
    assert(0 <= (w as u128) * (h as u128) <= 0xffff_ffff * 0xffff_ffff) by (nonlinear_arith)
        requires
            w <= 0xffff_ffff,
            h <= 0xffff_ffff,
    ;
    let need: u128 = (w as u128) * (h as u128) * 4;
    if rgba.len() as u128 != need {
        return Err(ImageError::Encode);
    }
    match encode(w, h, rgba) {
        Ok(file) => Ok(file),
        Err(_) => Err(ImageError::Encode),
    }
}

/// `fast_image_resize::Resizer::resize` with Lanczos3 convolution, from one
/// RGBA bitmap to another. It succeeds, the result has the size that was asked
/// for, and a bitmap that has that size already is copied. The pixels of a
/// scaled bitmap come from a filter that `f64::sin` computes, whose precision
/// std leaves open, so nothing is claimed of them.
#[verifier::external_body]
pub(crate) fn resize(width: u32, height: u32, rgba: Vec<u8>, to_width: u32, to_height: u32) -> (r: Option<
    Vec<u8>,
>)
    requires
        rgba@.len() == width * height * 4,
        to_width * to_height <= 0x100_0000,
    ensures
        r is Some,
        r->0@.len() == to_width * to_height * 4,
        width == to_width && height == to_height ==> r->0@ == rgba@,
{
    let pixel = fast_image_resize::PixelType::U8x4;
    let from = fast_image_resize::images::Image::from_vec_u8(width, height, rgba, pixel).ok()?;
    let mut to = fast_image_resize::images::Image::new(to_width, to_height, pixel);
    let filter = fast_image_resize::ResizeAlg::Convolution(fast_image_resize::FilterType::Lanczos3);
    let options = fast_image_resize::ResizeOptions::new().resize_alg(filter);
    fast_image_resize::Resizer::new().resize(&from, &mut to, &options).ok()?;
    Some(to.into_vec())
}

/// Whether a PNG file holds a bitmap of that size.
pub open spec fn has_size(file: Seq<u8>, width: u32, height: u32) -> bool {
    match decoded(file) {
        Some(image) => image.0 == width && image.1 == height,
        None => false,
    }
}

/// Decodes a PNG file of the history: its samples as they are. Files that were
/// recorded hold RGBA.
pub fn decode_png(bytes: &[u8]) -> (r: Result<(usize, usize, Vec<u8>), ImageError>)
    ensures
        match r {
            Ok(image) => png_raw(bytes@) == Some((image.0 as u32, image.1 as u32, image.2@)) && image.0
                <= u32::MAX && image.1 <= u32::MAX,
            Err(e) => png_raw(bytes@) is None && e == ImageError::Decode,
        },
{
    match decode_raw(bytes) {
        Ok(frame) => Ok((frame.0 as usize, frame.1 as usize, frame.2)),
        Err(_) => Err(ImageError::Decode),
    }
}

/// Whether the file has samples enough for an RGBA bitmap of that size. Nothing
/// is expanded: a file with fewer bytes per pixel has too few.
pub open spec fn covers(bytes: Seq<u8>, width: u32, height: u32) -> bool {
    match png_raw(bytes) {
        Some(raw) => raw.2.len() >= width * height * 4,
        None => false,
    }
}

/// Scales a PNG file of the given size to another; nothing when its samples
/// are no RGBA bitmap of that size, or when the other size is empty. A file
/// that has the size already keeps its pixels.
pub fn downscale_png(bytes: &[u8], width: u32, height: u32, to_width: u32, to_height: u32) -> (r: Option<
    Vec<u8>,
>)
    requires
        to_width * to_height <= 0x100_0000,
        rows_fit(to_width),
    ensures
        r is Some <==> covers(bytes@, width, height) && to_width > 0 && to_height > 0,
        r is Some ==> has_size(r->0@, to_width, to_height),
        r is Some && width == to_width && height == to_height ==> decoded(r->0@) == Some(
            (width, height, (png_raw(bytes@)->0).2.take(width * height * 4)),
        ),
{
    let image = match decode_png(bytes) {
        Ok(image) => image,
        Err(_) => {
            return None;
        },
    };
    assert(0 <= (width as u128) * (height as u128) <= 0xffff_ffff * 0xffff_ffff) by (nonlinear_arith)
        requires
            width <= 0xffff_ffff,
            height <= 0xffff_ffff,
    ;
    let need: u128 = (width as u128) * (height as u128) * 4;
    let mut rgba: Vec<u8> = image.2;
    if (rgba.len() as u128) < need {
        return None;
    }
    let ghost all = rgba@;
    rgba.truncate(need as usize);
    proof {
        assert(rgba@ =~= all.take(width * height * 4));
    }
    match resize(width, height, rgba, to_width, to_height) {
        None => None,
        Some(scaled) => match encode_png_rgba(to_width as usize, to_height as usize, scaled.as_slice()) {
            Ok(file) => Some(file),
            Err(_) => None,
        },
    }
}

/// Reads the pixel size of a PNG file from its header.
pub fn png_dimensions(bytes: &[u8]) -> (r: Option<(u32, u32)>)
    ensures
        r == png_header(bytes@),
{
    match header(bytes) {
        Ok(size) => Some(size),
        Err(_) => None,
    }
}

/// Whether every pixel has no alpha.
pub open spec fn all_transparent(pixels: Seq<u8>) -> bool {
    forall|k: int| 0 <= k < pixels.len() / 4 ==> #[trigger] pixels[4 * k + 3] == 0
}

/// The pixels with red and blue swapped. An icon without any alpha keeps its
/// transparency elsewhere and becomes opaque; bytes behind the last whole
/// pixel stay.
pub open spec fn swapped(pixels: Seq<u8>) -> Seq<u8> {
    Seq::new(
        pixels.len(),
        |i: int|
            if i >= (pixels.len() / 4) * 4 {
                pixels[i]
            } else if i % 4 == 0 {
                pixels[i + 2]
            } else if i % 4 == 2 {
                pixels[i - 2]
            } else if i % 4 == 3 && all_transparent(pixels) {
                255u8
            } else {
                pixels[i]
            },
    )
}

/// BGRA pixels to RGBA.
pub fn bgra_to_rgba(pixels: Vec<u8>) -> (r: Vec<u8>)
    ensures
        r@ == swapped(pixels@),
{
    let n: usize = pixels.len() / 4;
    let mut opaque: bool = true;
    let mut k: usize = 0;
    while k < n
        invariant
            k <= n,
            n == pixels@.len() / 4,
            4 * n <= pixels.len(),
            opaque == (forall|j: int| 0 <= j < k ==> #[trigger] pixels@[4 * j + 3] == 0),
        decreases n - k,
    {
        if pixels[4 * k + 3] != 0 {
            opaque = false;
        }
        k += 1;
    }
    let ghost whole = (pixels@.len() / 4) * 4;
    let mut out: Vec<u8> = Vec::new();
    let mut i: usize = 0;
    while i < n
        invariant
            i <= n,
            n == pixels@.len() / 4,
            4 * n <= pixels.len(),
            whole == n * 4,
            opaque == all_transparent(pixels@),
            out@ == swapped(pixels@).take(i * 4),
        decreases n - i,
    {
        let a: u8 = if opaque {
            255
        } else {
            pixels[4 * i + 3]
        };
        push_pixel(&mut out, pixels[4 * i + 2], pixels[4 * i + 1], pixels[4 * i], a);
        proof {
            assert(out@ =~= swapped(pixels@).take((i + 1) * 4));
        }
        i += 1;
    }
    let mut t: usize = n * 4;
    while t < pixels.len()
        invariant
            whole <= t <= pixels@.len(),
            whole == (pixels@.len() / 4) * 4,
            out@ == swapped(pixels@).take(t as int),
        decreases pixels@.len() - t,
    {
        out.push(pixels[t]);
        proof {
            assert(out@ =~= swapped(pixels@).take(t + 1));
        }
        t += 1;
    }
    proof {
        assert(swapped(pixels@).take(t as int) =~= swapped(pixels@));
    }
    out
}

/// Swapping twice gives the pixels back when some pixel has alpha.
pub proof fn law_swap_is_an_involution(pixels: Seq<u8>)
    requires
        !all_transparent(pixels),
    ensures
        swapped(swapped(pixels)) == pixels,
{
    let once = swapped(pixels);
    let k = choose|k: int| 0 <= k < pixels.len() / 4 && #[trigger] pixels[4 * k + 3] != 0;
    assert(once[4 * k + 3] == pixels[4 * k + 3]);
    assert(!all_transparent(once));
    assert(swapped(once) =~= pixels);
}

/// No icon comes out invisible: some pixel has alpha whenever there is a
/// pixel at all.
pub proof fn law_icon_is_visible(pixels: Seq<u8>)
    requires
        pixels.len() >= 4,
    ensures
        !all_transparent(swapped(pixels)),
{
    let out = swapped(pixels);
    if all_transparent(pixels) {
        let k = 0int;
        assert(out[4 * k + 3] == 255);
    } else {
        let k = choose|k: int| 0 <= k < pixels.len() / 4 && #[trigger] pixels[4 * k + 3] != 0;
        assert(out[4 * k + 3] == pixels[4 * k + 3]);
    }
}

/// Pixels come out in their order, with the color that they had: gray is spread
/// over the three colors, and what has no alpha is opaque. Other layouts are
/// refused.
pub proof fn law_pixels_keep_their_color(frame: FrameView, k: int)
    ensures
        frame.format == PixelFormat::Rgba ==> expanded(frame) == Some(frame.data),
        frame.format == PixelFormat::Rgb && 0 <= k < frame.data.len() / 3 ==> ({
            let out = expanded(frame)->0;
            &&& expanded(frame) is Some && out.len() == (frame.data.len() / 3) * 4
            &&& out[4 * k] == frame.data[3 * k]
            &&& out[4 * k + 1] == frame.data[3 * k + 1]
            &&& out[4 * k + 2] == frame.data[3 * k + 2]
            &&& out[4 * k + 3] == 255
        }),
        frame.format == PixelFormat::GrayAlpha && 0 <= k < frame.data.len() / 2 ==> ({
            let out = expanded(frame)->0;
            &&& expanded(frame) is Some && out.len() == (frame.data.len() / 2) * 4
            &&& out[4 * k] == frame.data[2 * k]
            &&& out[4 * k + 1] == frame.data[2 * k]
            &&& out[4 * k + 2] == frame.data[2 * k]
            &&& out[4 * k + 3] == frame.data[2 * k + 1]
        }),
        frame.format == PixelFormat::Gray && 0 <= k < frame.data.len() ==> ({
            let out = expanded(frame)->0;
            &&& expanded(frame) is Some && out.len() == frame.data.len() * 4
            &&& out[4 * k] == frame.data[k]
            &&& out[4 * k + 1] == frame.data[k]
            &&& out[4 * k + 2] == frame.data[k]
            &&& out[4 * k + 3] == 255
        }),
        frame.format == PixelFormat::Other ==> expanded(frame) is None,
{
}

/// Red and blue change places in every whole pixel and green stays. Alpha stays
/// where any pixel has some, and is full where none has.
pub proof fn law_red_and_blue_change_places(pixels: Seq<u8>, k: int, j: int)
    requires
        0 <= k < pixels.len() / 4,
        0 <= j < pixels.len() / 4,
    ensures
        ({
            let out = swapped(pixels);
            &&& out.len() == pixels.len()
            &&& out[4 * k] == pixels[4 * k + 2]
            &&& out[4 * k + 1] == pixels[4 * k + 1]
            &&& out[4 * k + 2] == pixels[4 * k]
            &&& pixels[4 * j + 3] != 0 ==> out[4 * k + 3] == pixels[4 * k + 3]
            &&& (forall|m: int| 0 <= m < pixels.len() / 4 ==> #[trigger] pixels[4 * m + 3] == 0)
                ==> out[4 * k + 3] == 255
        }),
{
}

/// A bitmap has a size and four bytes for each pixel.
pub proof fn law_bitmap(width: u32, height: u32, rgba: Seq<u8>)
    ensures
        is_bitmap(width, height, rgba) ==> width > 0 && height > 0 && rgba.len() == width * height * 4,
        width > 0 && height > 0 && rgba.len() == width * height * 4 ==> is_bitmap(width, height, rgba),
{
}

} // verus!
