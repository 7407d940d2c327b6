//! Images, pixel by pixel: what differs, and a picture of it.

use crate::error::{DevError, ErrorView};
use crate::number::arith::{of_int, product, quotient};
use crate::number::double::{rounded, Double, Real};
use vstd::prelude::*;

verus! {

/// How far apart two channels may be: five per cent of 255, rounded up.
pub const FUZZ_THRESHOLD: u8 = 13;

/// What the samples of an image are.
#[derive(Debug, Clone, Copy, PartialEq, Eq, Structural)]
pub enum ColorType {
    Grayscale,
    Rgb,
    Indexed,
    GrayscaleAlpha,
    Rgba,
}

/// How many bits a sample has.
#[derive(Debug, Clone, Copy, PartialEq, Eq, Structural)]
pub enum BitDepth {
    One,
    Two,
    Four,
    Eight,
    Sixteen,
}

impl BitDepth {
    /// The name of the depth.
    pub open spec fn name_text(self) -> Seq<char> {
        match self {
            BitDepth::One => "One"@,
            BitDepth::Two => "Two"@,
            BitDepth::Four => "Four"@,
            BitDepth::Eight => "Eight"@,
            BitDepth::Sixteen => "Sixteen"@,
        }
    }

    /// Names the depth.
    pub fn name(self) -> (r: &'static str)
        ensures
            r@ == self.name_text(),
    {
        match self {
            BitDepth::One => "One",
            BitDepth::Two => "Two",
            BitDepth::Four => "Four",
            BitDepth::Eight => "Eight",
            BitDepth::Sixteen => "Sixteen",
        }
    }
}

/// What was decoded: sizes, the numbers of colour type and bit depth in the
/// file, and the samples.
#[derive(Debug)]
pub struct RawPng {
    pub width: u32,
    pub height: u32,
    pub color: u8,
    pub depth: u8,
    pub data: Vec<u8>,
}

/// Why an image cannot be decoded.
#[derive(Debug)]
pub enum PngFault {
    /// It is no image.
    Invalid(String),
    /// It does not fit into memory.
    NoSize,
    /// Its data are broken.
    Decode(String),
}

/// The contents of a [`RawPng`].
pub ghost struct RawView {
    pub width: nat,
    pub height: nat,
    pub color: nat,
    pub depth: nat,
    pub data: Seq<u8>,
}

/// The contents of a [`PngFault`].
pub ghost enum FaultView {
    Invalid(Seq<char>),
    NoSize,
    Decode(Seq<char>),
}

impl View for RawPng {
    type V = RawView;

    open spec fn view(&self) -> RawView {
        RawView {
            width: self.width as nat,
            height: self.height as nat,
            color: self.color as nat,
            depth: self.depth as nat,
            data: self.data@,
        }
    }
}

impl View for PngFault {
    type V = FaultView;

    open spec fn view(&self) -> FaultView {
        match self {
            PngFault::Invalid(m) => FaultView::Invalid(m@),
            PngFault::NoSize => FaultView::NoSize,
            PngFault::Decode(m) => FaultView::Decode(m@),
        }
    }
}

/// What the bytes of an image file hold.
pub uninterp spec fn png_contents(bytes: Seq<u8>) -> Result<RawView, FaultView>;

/// `png::Decoder` reads the header and the first frame of an image. What they
/// are, and the text of an error, is the decoder's and not stated here.
#[verifier::external_body]
fn decode_bytes(bytes: &[u8]) -> (r: Result<RawPng, PngFault>)
    ensures
        match r {
            Ok(p) => png_contents(bytes@) == Ok::<RawView, FaultView>(p@),
            Err(e) => png_contents(bytes@) == Err::<RawView, FaultView>(e@),
        },
{
    let decoder = png::Decoder::new(std::io::Cursor::new(bytes));
    let mut reader = decoder.read_info().map_err(|e| PngFault::Invalid(e.to_string()))?;
    let (width, height) = reader.info().size();
    let (color, depth) = (reader.info().color_type as u8, reader.info().bit_depth as u8);
    let mut data = vec![0; reader.output_buffer_size().ok_or(PngFault::NoSize)?];
    let frame = reader.next_frame(&mut data).map_err(|e| PngFault::Decode(e.to_string()))?;
    data.truncate(frame.buffer_size());
    Ok(RawPng { width, height, color, depth, data })
}

/// The bytes of an image file for some pixels.
pub uninterp spec fn png_file(width: u32, height: u32, rgba: Seq<u8>) -> Result<
    Seq<u8>,
    (bool, Seq<char>),
>;

/// Whether the bytes of a row, and those of all pixels, can be counted.
pub open spec fn countable(width: u32, height: u32) -> bool {
    width as int * 4 + 1 <= usize::MAX && width as int * 4 * height as int <= usize::MAX
}

/// `png::Encoder` writes pixels of four channels of eight bits as an image; an
/// error says whether the header was at fault. It counts the bytes of a row, with
/// one more, and of all rows, and panics where a count does not fit: such sizes
/// are left out.
#[verifier::external_body]
fn encode_bytes(width: u32, height: u32, rgba: &[u8]) -> (r: Result<Vec<u8>, (bool, String)>)
    requires
        countable(width, height),
    ensures
        match r {
            Ok(v) => png_file(width, height, rgba@) == Ok::<Seq<u8>, (bool, Seq<char>)>(v@),
            Err(e) => png_file(width, height, rgba@) == Err::<Seq<u8>, (bool, Seq<char>)>(
                (e.0, e.1@),
            ),
        },
{
    let mut out = Vec::new();
    let mut encoder = png::Encoder::new(&mut out, width, height);
    encoder.set_color(png::ColorType::Rgba);
    encoder.set_depth(png::BitDepth::Eight);
    let mut writer = encoder.write_header().map_err(|e| (true, e.to_string()))?;
    writer.write_image_data(rgba).map_err(|e| (false, e.to_string()))?;
    drop(writer);
    Ok(out)
}

/// The colour type of its number.
pub open spec fn color_of(code: nat) -> Option<ColorType> {
    if code == 0 {
        Some(ColorType::Grayscale)
    } else if code == 2 {
        Some(ColorType::Rgb)
    } else if code == 3 {
        Some(ColorType::Indexed)
    } else if code == 4 {
        Some(ColorType::GrayscaleAlpha)
    } else if code == 6 {
        Some(ColorType::Rgba)
    } else {
        None
    }
}

/// The bit depth of its number.
pub open spec fn depth_of(code: nat) -> Option<BitDepth> {
    if code == 1 {
        Some(BitDepth::One)
    } else if code == 2 {
        Some(BitDepth::Two)
    } else if code == 4 {
        Some(BitDepth::Four)
    } else if code == 8 {
        Some(BitDepth::Eight)
    } else if code == 16 {
        Some(BitDepth::Sixteen)
    } else {
        None
    }
}

fn read_color(code: u8) -> (r: Option<ColorType>)
    ensures
        r == color_of(code as nat),
{
    match code {
        0 => Some(ColorType::Grayscale),
        2 => Some(ColorType::Rgb),
        3 => Some(ColorType::Indexed),
        4 => Some(ColorType::GrayscaleAlpha),
        6 => Some(ColorType::Rgba),
        _ => None,
    }
}

fn read_depth(code: u8) -> (r: Option<BitDepth>)
    ensures
        r == depth_of(code as nat),
{
    match code {
        1 => Some(BitDepth::One),
        2 => Some(BitDepth::Two),
        4 => Some(BitDepth::Four),
        8 => Some(BitDepth::Eight),
        16 => Some(BitDepth::Sixteen),
        _ => None,
    }
}

/// How many samples a pixel has.
pub open spec fn samples(color: ColorType) -> nat {
    match color {
        ColorType::Grayscale | ColorType::Indexed => 1,
        ColorType::GrayscaleAlpha => 2,
        ColorType::Rgb => 3,
        ColorType::Rgba => 4,
    }
}

/// The channel `c` of a pixel whose samples start at `base`.
pub open spec fn channel(buf: Seq<u8>, color: ColorType, base: int, c: int) -> u8 {
    match color {
        ColorType::Rgba => buf[base + c],
        ColorType::Rgb => if c == 3 {
            255
        } else {
            buf[base + c]
        },
        ColorType::GrayscaleAlpha => if c == 3 {
            buf[base + 1]
        } else {
            buf[base]
        },
        _ => if c == 3 {
            255
        } else {
            buf[base]
        },
    }
}

/// Samples as four channels for each whole pixel: grey in all three colours, and
/// opaque where there is no other word on it.
pub open spec fn as_rgba(buf: Seq<u8>, color: ColorType) -> Seq<u8> {
    if color is Rgba {
        buf
    } else {
        Seq::new(
            4 * (buf.len() / samples(color)),
            |k: int| channel(buf, color, (k / 4) * samples(color), k % 4),
        )
    }
}

proof fn quarter(i: int, c: int)
    requires
        0 <= c < 4,
    ensures
        (4 * i + c) / 4 == i,
        (4 * i + c) % 4 == c,
{
}

fn expand_gray(buf: &[u8]) -> (r: Vec<u8>)
    ensures
        r@ == as_rgba(buf@, ColorType::Grayscale),
{
    let ghost want = as_rgba(buf@, ColorType::Grayscale);
    let mut out: Vec<u8> = Vec::new();
    let mut i: usize = 0;
    while i < buf.len()
        invariant
            i <= buf@.len(),
            want == as_rgba(buf@, ColorType::Grayscale),
            out@.len() == 4 * i,
            forall|k: int| 0 <= k < out@.len() ==> #[trigger] out@[k] == want[k],
        decreases buf@.len() - i,
    {
        let g: u8 = buf[i];
        out.push(g);
        out.push(g);
        out.push(g);
        out.push(255);
        i += 1;
        assert forall|k: int| 4 * (i - 1) <= k < out@.len() implies #[trigger] out@[k] == want[k] by {
            quarter(i - 1, k - 4 * (i - 1));
        }
    }
    assert(out@ =~= want);
    out
}

fn expand_rgb(buf: &[u8]) -> (r: Vec<u8>)
    ensures
        r@ == as_rgba(buf@, ColorType::Rgb),
{
    let ghost want = as_rgba(buf@, ColorType::Rgb);
    let total: usize = buf.len();
    let n: usize = total / 3;
    let mut out: Vec<u8> = Vec::new();
    let mut i: usize = 0;
    while i < n
        invariant
            i <= n,
            total == buf@.len(),
            n == total / 3,
            want == as_rgba(buf@, ColorType::Rgb),
            out@.len() == 4 * i,
            forall|k: int| 0 <= k < out@.len() ==> #[trigger] out@[k] == want[k],
        decreases n - i,
    {
        out.push(buf[3 * i]);
        out.push(buf[3 * i + 1]);
        out.push(buf[3 * i + 2]);
        out.push(255);
        i += 1;
        assert forall|k: int| 4 * (i - 1) <= k < out@.len() implies #[trigger] out@[k] == want[k] by {
            quarter(i - 1, k - 4 * (i - 1));
        }
    }
    assert(out@ =~= want);
    out
}

fn expand_gray_alpha(buf: &[u8]) -> (r: Vec<u8>)
    ensures
        r@ == as_rgba(buf@, ColorType::GrayscaleAlpha),
{
    let ghost want = as_rgba(buf@, ColorType::GrayscaleAlpha);
    let total: usize = buf.len();
    let n: usize = total / 2;
    let mut out: Vec<u8> = Vec::new();
    let mut i: usize = 0;
    while i < n
        invariant
            i <= n,
            total == buf@.len(),
            n == total / 2,
            want == as_rgba(buf@, ColorType::GrayscaleAlpha),
            out@.len() == 4 * i,
            forall|k: int| 0 <= k < out@.len() ==> #[trigger] out@[k] == want[k],
        decreases n - i,
    {
        let g: u8 = buf[2 * i];
        out.push(g);
        out.push(g);
        out.push(g);
        out.push(buf[2 * i + 1]);
        i += 1;
        assert forall|k: int| 4 * (i - 1) <= k < out@.len() implies #[trigger] out@[k] == want[k] by {
            quarter(i - 1, k - 4 * (i - 1));
        }
    }
    assert(out@ =~= want);
    out
}

fn copy_bytes(buf: &[u8]) -> (r: Vec<u8>)
    ensures
        r@ == buf@,
{
    let mut out: Vec<u8> = Vec::new();
    let mut i: usize = 0;
    while i < buf.len()
        invariant
            i <= buf@.len(),
            out@ == buf@.take(i as int),
        decreases buf@.len() - i,
    {
        out.push(buf[i]);
        i += 1;
        assert(buf@.take(i as int) =~= buf@.take(i - 1).push(buf@[i - 1]));
    }
    assert(buf@.take(i as int) =~= buf@);
    out
}

/// The pixels of some samples, or why they are not supported.
pub open spec fn rgba_result(buf: Seq<u8>, color: ColorType, depth: BitDepth) -> Result<
    Seq<u8>,
    ErrorView,
> {
    if !(depth is Eight) {
        Err(ErrorView::Verify("unsupported bit depth: "@ + depth.name_text()))
    } else if color is Indexed {
        Err(ErrorView::Verify("unsupported color type: "@ + "Indexed"@))
    } else {
        Ok(as_rgba(buf, color))
    }
}

/// Turns samples of eight bits into pixels of four channels.
pub fn to_rgba(buf: &[u8], color_type: ColorType, bit_depth: BitDepth) -> (r: Result<
    Vec<u8>,
    DevError,
>)
    ensures
        match rgba_result(buf@, color_type, bit_depth) {
            Ok(v) => r matches Ok(x) && x@ == v,
            Err(e) => r matches Err(x) && x@ == e,
        },
{
    if !matches!(bit_depth, BitDepth::Eight) {
        let mut m = "unsupported bit depth: ".to_owned();
        m.append(bit_depth.name());
        return Err(DevError::Verify(m));
    }
    match color_type {
        ColorType::Rgba => Ok(copy_bytes(buf)),
        ColorType::Rgb => Ok(expand_rgb(buf)),
        ColorType::Grayscale => Ok(expand_gray(buf)),
        ColorType::GrayscaleAlpha => Ok(expand_gray_alpha(buf)),
        ColorType::Indexed => {
            let mut m = "unsupported color type: ".to_owned();
            m.append("Indexed");
            Err(DevError::Verify(m))
        },
    }
}

/// An image of four channels.
#[derive(Debug)]
pub struct DecodedPng {
    pub width: u32,
    pub height: u32,
    pub rgba: Vec<u8>,
}

impl DecodedPng {
    /// Whether the image has all its pixels.
    pub open spec fn wf(&self) -> bool {
        self.rgba@.len() == self.height as int * (self.width as int * 4)
    }
}

/// Why the file at a path cannot be decoded.
pub open spec fn fault_error(path: Seq<char>, fault: FaultView) -> ErrorView {
    match fault {
        FaultView::Invalid(m) => ErrorView::Verify("invalid PNG "@ + path + ": "@ + m),
        FaultView::NoSize => ErrorView::Verify("cannot determine buffer size for "@ + path),
        FaultView::Decode(m) => ErrorView::Verify("PNG decode error "@ + path + ": "@ + m),
    }
}

/// The image that was read from a file, or why there is none.
pub open spec fn image_result(path: Seq<char>, contents: Result<RawView, FaultView>) -> Result<
    (nat, nat, Seq<u8>),
    ErrorView,
> {
    match contents {
        Err(f) => Err(fault_error(path, f)),
        Ok(p) => match (color_of(p.color), depth_of(p.depth)) {
            (Some(c), Some(d)) => match rgba_result(p.data, c, d) {
                Ok(v) => Ok((p.width, p.height, v)),
                Err(e) => Err(e),
            },
            _ => Err(ErrorView::Verify("unsupported image "@ + path)),
        },
    }
}

/// Makes an image of what was decoded.
pub fn finish_decoding(path: &str, contents: Result<RawPng, PngFault>) -> (r: Result<
    DecodedPng,
    DevError,
>)
    ensures
        match image_result(
            path@,
            match contents {
                Ok(p) => Ok(p@),
                Err(f) => Err(f@),
            },
        ) {
            Ok(v) => r matches Ok(x) && x.width == v.0 && x.height == v.1 && x.rgba@ == v.2,
            Err(e) => r matches Err(x) && x@ == e,
        },
{
    match contents {
        Err(f) => {
            let mut m = match &f {
                PngFault::Invalid(_) => "invalid PNG ".to_owned(),
                PngFault::NoSize => "cannot determine buffer size for ".to_owned(),
                PngFault::Decode(_) => "PNG decode error ".to_owned(),
            };
            m.append(path);
            match f {
                PngFault::Invalid(why) => {
                    m.append(": ");
                    m.append(why.as_str());
                },
                PngFault::NoSize => {},
                PngFault::Decode(why) => {
                    m.append(": ");
                    m.append(why.as_str());
                },
            }
            Err(DevError::Verify(m))
        },
        Ok(p) => match (read_color(p.color), read_depth(p.depth)) {
            (Some(c), Some(d)) => match to_rgba(&p.data, c, d) {
                Ok(rgba) => Ok(DecodedPng { width: p.width, height: p.height, rgba }),
                Err(e) => Err(e),
            },
            _ => {
                let mut m = "unsupported image ".to_owned();
                m.append(path);
                Err(DevError::Verify(m))
            },
        },
    }
}

/// Reads an image from the bytes of a file; the path is for the error.
pub fn decode_png(path: &str, bytes: &[u8]) -> (r: Result<DecodedPng, DevError>)
    ensures
        match image_result(path@, png_contents(bytes@)) {
            Ok(v) => r matches Ok(x) && x.width == v.0 && x.height == v.1 && x.rgba@ == v.2,
            Err(e) => r matches Err(x) && x@ == e,
        },
{
    finish_decoding(path, decode_bytes(bytes))
}

/// The byte `x` of row `y` of an image that is extended with white.
pub open spec fn padded_byte(rgba: Seq<u8>, w: int, h: int, x: int, y: int) -> u8 {
    if y < h && x < w * 4 {
        rgba[y * (w * 4) + x]
    } else {
        255
    }
}

/// An image extended with white, or cut, to a size.
pub open spec fn padded(rgba: Seq<u8>, w: int, h: int, tw: int, th: int) -> Seq<u8> {
    Seq::new(
        (th * (tw * 4)) as nat,
        |k: int| padded_byte(rgba, w, h, k % (tw * 4), k / (tw * 4)),
    )
}

proof fn split_index(y: int, x: int, stride: int)
    requires
        0 <= y,
        0 <= x < stride,
    ensures
        (y * stride + x) / stride == y,
        (y * stride + x) % stride == x,
{
    vstd::arithmetic::div_mod::lemma_fundamental_div_mod_converse(
        y * stride + x,
        stride,
        y,
        x,
    );
}

proof fn row_fits(y: int, h: int, x: int, stride: int)
    requires
        0 <= y < h,
        0 <= x < stride,
    ensures
        0 <= y * stride + x < h * stride,
        y * stride + stride <= h * stride,
{
    assert(y * stride + stride <= h * stride) by (nonlinear_arith)
        requires
            y + 1 <= h,
            0 < stride,
    ;
    assert(0 <= y * stride) by (nonlinear_arith)
        requires
            0 <= y,
            0 < stride,
    ;
}

/// Extends an image with white to a size.
pub fn pad_to_size(img: &DecodedPng, target_w: u32, target_h: u32) -> (r: Vec<u8>)
    requires
        img.wf(),
        target_h as int * (target_w as int * 4) <= usize::MAX,
        target_w as int * 4 <= usize::MAX,
    ensures
        r@ == padded(
            img.rgba@,
            img.width as int,
            img.height as int,
            target_w as int,
            target_h as int,
        ),
{
    let ghost w = img.width as int;
    let ghost h = img.height as int;
    let ghost tw = target_w as int;
    let ghost th = target_h as int;
    let ghost want = padded(img.rgba@, w, h, tw, th);
    let have: usize = img.rgba.len();
    let stride: usize = target_w as usize * 4;
    let mut out: Vec<u8> = Vec::new();
    let mut y: u32 = 0;
    assert(0 * (tw * 4) == 0);
    while y < target_h
        invariant
            y <= target_h,
            img.wf(),
            w == img.width,
            h == img.height,
            tw == target_w,
            th == target_h,
            stride == tw * 4,
            have == img.rgba@.len(),
            th * (tw * 4) <= usize::MAX,
            want == padded(img.rgba@, w, h, tw, th),
            out@.len() == y * (tw * 4),
            forall|k: int| 0 <= k < out@.len() ==> #[trigger] out@[k] == want[k],
        decreases target_h - y,
    {
        let mut x: usize = 0;
        while x < stride
            invariant
                x <= stride,
                y < target_h,
                img.wf(),
                w == img.width,
                h == img.height,
                tw == target_w,
                th == target_h,
                stride == tw * 4,
                have == img.rgba@.len(),
                want == padded(img.rgba@, w, h, tw, th),
                out@.len() == y * (tw * 4) + x,
                forall|k: int| 0 <= k < out@.len() ==> #[trigger] out@[k] == want[k],
            decreases stride - x,
        {
            proof {
                split_index(y as int, x as int, tw * 4);
                row_fits(y as int, th, x as int, tw * 4);
            }
            let inside = y < img.height && x / 4 < img.width as usize;
            assert(inside == (y < h && x < w * 4));
            let b: u8 = if inside {
                proof {
                    row_fits(y as int, h, x as int, w * 4);
                    assert(y as int * (w * 4) == (y * w) * 4) by (nonlinear_arith);
                    assert(y as int * w <= y as int * (w * 4)) by (nonlinear_arith)
                        requires
                            0 <= w,
                            0 <= y,
                    ;
                }
                let row: usize = pixel_offset(y, img.width, have);
                img.rgba[row + x]
            } else {
                255
            };
            out.push(b);
            x += 1;
        }
        y += 1;
        assert((y - 1) * (tw * 4) + tw * 4 == y * (tw * 4)) by (nonlinear_arith);
    }
    assert(out@ =~= want);
    out
}

/// Where row `y` of an image starts.
fn pixel_offset(y: u32, width: u32, have: usize) -> (r: usize)
    requires
        y as int * (width as int * 4) <= have,
    ensures
        r == y as int * (width as int * 4),
{
    let w4: u64 = width as u64 * 4;
    assert(y as u64 * w4 <= have) by (nonlinear_arith)
        requires
            y as int * (width as int * 4) <= have,
            w4 == width as int * 4,
    ;
    assert(y as int * w4 <= 0xffff_ffff * (0xffff_ffff * 4)) by (nonlinear_arith)
        requires
            y <= 0xffff_ffff,
            w4 <= 0xffff_ffff * 4,
    ;
    (y as u64 * w4) as usize
}

/// How far apart two bytes are.
pub open spec fn apart(a: u8, b: u8) -> int {
    if a > b {
        a - b
    } else {
        b - a
    }
}

/// Whether a pixel differs: one of its colours is farther apart than the threshold.
pub open spec fn differs(p: Seq<u8>, r: Seq<u8>, i: int) -> bool {
    ||| apart(p[4 * i], r[4 * i]) > FUZZ_THRESHOLD
    ||| apart(p[4 * i + 1], r[4 * i + 1]) > FUZZ_THRESHOLD
    ||| apart(p[4 * i + 2], r[4 * i + 2]) > FUZZ_THRESHOLD
}

/// How many of the first `n` pixels differ.
pub open spec fn diff_count(p: Seq<u8>, r: Seq<u8>, n: nat) -> nat
    decreases n,
{
    if n == 0 {
        0
    } else {
        diff_count(p, r, (n - 1) as nat) + if differs(p, r, n - 1) {
            1nat
        } else {
            0nat
        }
    }
}

/// A byte of the picture of the differences: red where a pixel differs, else
/// the reference in a third of its brightness.
pub open spec fn diff_byte(p: Seq<u8>, r: Seq<u8>, k: int) -> u8 {
    if k % 4 == 3 {
        255
    } else if differs(p, r, k / 4) {
        if k % 4 == 0 {
            255
        } else {
            0
        }
    } else {
        r[k] / 3
    }
}

/// The picture of the differences between `n` pixels.
pub open spec fn diff_image(p: Seq<u8>, r: Seq<u8>, n: nat) -> Seq<u8> {
    Seq::new(4 * n, |k: int| diff_byte(p, r, k))
}

/// A part in per cent of a whole.
pub open spec fn percentage(part: nat, whole: nat) -> Real {
    if whole == 0 {
        of_int(0)
    } else {
        product(quotient(rounded(false, part, 1), rounded(false, whole, 1)), of_int(100))
    }
}

/// How much of two images differs.
#[derive(Debug)]
pub struct PixelDiffResult {
    pub diff_pct: Double,
    pub total_pixels: u64,
    pub diff_pixels: u64,
}

/// How much of two images differs, and a picture of it.
#[derive(Debug)]
pub struct PixelDiff {
    pub result: PixelDiffResult,
    pub width: u32,
    pub height: u32,
    pub rgba: Vec<u8>,
}

/// The greater of two sizes.
pub open spec fn larger(a: u32, b: u32) -> u32 {
    if a > b {
        a
    } else {
        b
    }
}

/// Whether an image of the size fits into memory.
pub open spec fn fits_memory(w: u32, h: u32) -> bool {
    h as int * (w as int * 4) <= usize::MAX && w as int * 4 <= usize::MAX
}

/// Whether this is the difference between two images, each extended to the size
/// that holds both.
pub open spec fn is_diff(d: PixelDiff, pipeline: DecodedPng, reference: DecodedPng) -> bool {
    let w = larger(pipeline.width, reference.width);
    let h = larger(pipeline.height, reference.height);
    let n = (w as int * h as int) as nat;
    let p = padded(pipeline.rgba@, pipeline.width as int, pipeline.height as int, w as int, h as int);
    let r = padded(
        reference.rgba@,
        reference.width as int,
        reference.height as int,
        w as int,
        h as int,
    );
    &&& d.width == w
    &&& d.height == h
    &&& d.result.total_pixels == n
    &&& d.result.diff_pixels == diff_count(p, r, n)
    &&& d.result.diff_pct@ == percentage(diff_count(p, r, n), n)
    &&& d.rgba@ == diff_image(p, r, n)
}

fn too_far(a: u8, b: u8) -> (r: bool)
    ensures
        r == (apart(a, b) > FUZZ_THRESHOLD),
{
    if a > b {
        a - b > FUZZ_THRESHOLD
    } else {
        b - a > FUZZ_THRESHOLD
    }
}

fn percent(part: u64, whole: u64) -> (r: Double)
    ensures
        r@ == percentage(part as nat, whole as nat),
{
    if whole == 0 {
        Double::of_i64(0)
    } else {
        Double::of_u64(part).over(Double::of_u64(whole)).times(Double::of_i64(100))
    }
}

fn mark_differences(p: &[u8], r: &[u8], n: usize) -> (res: (u64, Vec<u8>))
    requires
        p@.len() == 4 * n,
        r@.len() == 4 * n,
        n <= u64::MAX,
    ensures
        res.0 == diff_count(p@, r@, n as nat),
        res.1@ == diff_image(p@, r@, n as nat),
{
    let total: usize = p.len();
    let ghost want = diff_image(p@, r@, n as nat);
    let mut count: u64 = 0;
    let mut out: Vec<u8> = Vec::new();
    let mut i: usize = 0;
    while i < n
        invariant
            i <= n,
            n <= u64::MAX,
            count <= i,
            total == 4 * n,
            p@.len() == total,
            r@.len() == total,
            want == diff_image(p@, r@, n as nat),
            count == diff_count(p@, r@, i as nat),
            out@.len() == 4 * i,
            forall|k: int| 0 <= k < out@.len() ==> #[trigger] out@[k] == want[k],
        decreases n - i,
    {
        let base: usize = 4 * i;
        let red: u8 = r[base];
        let green: u8 = r[base + 1];
        let blue: u8 = r[base + 2];
        let different = too_far(p[base], red) || too_far(p[base + 1], green) || too_far(
            p[base + 2],
            blue,
        );
        assert(different == differs(p@, r@, i as int));
        if different {
            count += 1;
            out.push(255);
            out.push(0);
            out.push(0);
        } else {
            out.push(red / 3);
            out.push(green / 3);
            out.push(blue / 3);
        }
        out.push(255);
        i += 1;
        assert forall|k: int| 4 * (i - 1) <= k < out@.len() implies #[trigger] out@[k] == want[k] by {
            quarter(i - 1, k - 4 * (i - 1));
        }
    }
    assert(out@ =~= want);
    (count, out)
}

/// Compares two images pixel by pixel.
pub fn pixel_diff(pipeline: &DecodedPng, reference: &DecodedPng) -> (d: PixelDiff)
    requires
        pipeline.wf(),
        reference.wf(),
        fits_memory(
            larger(pipeline.width, reference.width),
            larger(pipeline.height, reference.height),
        ),
    ensures
        is_diff(d, *pipeline, *reference),
        d.width == if pipeline.width > reference.width { pipeline.width } else { reference.width },
        d.height == if pipeline.height > reference.height {
            pipeline.height
        } else {
            reference.height
        },
        ({
            let (w, h) = (d.width as int, d.height as int);
            let n = (w * h) as nat;
            let p = padded(pipeline.rgba@, pipeline.width as int, pipeline.height as int, w, h);
            let r = padded(reference.rgba@, reference.width as int, reference.height as int, w, h);
            &&& d.result.total_pixels == n
            &&& d.result.diff_pixels == diff_count(p, r, n)
            &&& d.result.diff_pct@ == percentage(diff_count(p, r, n), n)
            &&& d.rgba@ == diff_image(p, r, n)
        }),
{
    let w: u32 = if pipeline.width > reference.width {
        pipeline.width
    } else {
        reference.width
    };
    let h: u32 = if pipeline.height > reference.height {
        pipeline.height
    } else {
        reference.height
    };
    let p = pad_to_size(pipeline, w, h);
    let r = pad_to_size(reference, w, h);
    proof {
        assert(h as int * (w as int * 4) == 4 * (w as int * h as int)) by (nonlinear_arith);
        assert(0 <= w as int * h as int <= 0xffff_ffff * 0xffff_ffff) by (nonlinear_arith)
            requires
                0 <= w <= 0xffff_ffff,
                0 <= h <= 0xffff_ffff,
        ;
    }
    let total: u64 = w as u64 * h as u64;
    let n: usize = total as usize;
    let (count, rgba) = mark_differences(&p, &r, n);
    let diff_pct = percent(count, total);
    PixelDiff {
        result: PixelDiffResult { diff_pct, total_pixels: total, diff_pixels: count },
        width: w,
        height: h,
        rgba,
    }
}

fn is_whole(img: &DecodedPng) -> (r: bool)
    ensures
        r == img.wf(),
{
    let w4: u128 = img.width as u128 * 4;
    let h: u128 = img.height as u128;
    assert(h * w4 <= 0xffff_ffff * (0xffff_ffff * 4)) by (nonlinear_arith)
        requires
            0 <= h <= 0xffff_ffff,
            0 <= w4 <= 0xffff_ffff * 4,
    ;
    img.rgba.len() as u128 == h * w4
}

fn size_fits(w: u32, h: u32) -> (r: bool)
    ensures
        r == fits_memory(w, h),
{
    let w4: u128 = w as u128 * 4;
    let hh: u128 = h as u128;
    assert(hh * w4 <= 0xffff_ffff * (0xffff_ffff * 4)) by (nonlinear_arith)
        requires
            0 <= hh <= 0xffff_ffff,
            0 <= w4 <= 0xffff_ffff * 4,
    ;
    hh * w4 <= usize::MAX as u128 && w4 <= usize::MAX as u128
}

/// Whether two images have all their pixels and can be compared in memory.
pub open spec fn comparable(a: DecodedPng, b: DecodedPng) -> bool {
    a.wf() && b.wf() && fits_memory(larger(a.width, b.width), larger(a.height, b.height))
}

/// Reads two images and compares them; nothing comes of images that lack pixels
/// or are too large to compare.
pub fn compare_pixels(
    pipeline_path: &str,
    pipeline_png: &[u8],
    reference_path: &str,
    reference_png: &[u8],
) -> (r: Result<Option<PixelDiff>, DevError>)
    ensures
        match (
            image_result(pipeline_path@, png_contents(pipeline_png@)),
            image_result(reference_path@, png_contents(reference_png@)),
        ) {
            (Err(e), _) => r matches Err(x) && x@ == e,
            (Ok(_), Err(e)) => r matches Err(x) && x@ == e,
            (Ok(a), Ok(b)) => r matches Ok(found) && forall|p: DecodedPng, q: DecodedPng|
                is_image(p, a) && is_image(q, b) ==> match found {
                    Some(d) => #[trigger] comparable(p, q) && is_diff(d, p, q),
                    None => !comparable(p, q),
                },
        },
{
    let pipeline = match decode_png(pipeline_path, pipeline_png) {
        Ok(i) => i,
        Err(e) => {
            return Err(e);
        },
    };
    let reference = match decode_png(reference_path, reference_png) {
        Ok(i) => i,
        Err(e) => {
            return Err(e);
        },
    };
    let w: u32 = if pipeline.width > reference.width {
        pipeline.width
    } else {
        reference.width
    };
    let h: u32 = if pipeline.height > reference.height {
        pipeline.height
    } else {
        reference.height
    };
    if is_whole(&pipeline) && is_whole(&reference) && size_fits(w, h) {
        Ok(Some(pixel_diff(&pipeline, &reference)))
    } else {
        Ok(None)
    }
}

/// Whether an image has the size and the pixels.
pub open spec fn is_image(p: DecodedPng, v: (nat, nat, Seq<u8>)) -> bool {
    p.width == v.0 && p.height == v.1 && p.rgba@ == v.2
}

/// Tests whether the bytes of an image can be counted.
pub fn is_countable(width: u32, height: u32) -> (r: bool)
    ensures
        r == countable(width, height),
{
    let w4: u128 = width as u128 * 4;
    let h: u128 = height as u128;
    assert(w4 * h <= (0xffff_ffff * 4) * 0xffff_ffff) by (nonlinear_arith)
        requires
            0 <= h <= 0xffff_ffff,
            0 <= w4 <= 0xffff_ffff * 4,
    ;
    w4 + 1 <= usize::MAX as u128 && w4 * h <= usize::MAX as u128
}

/// Writes an image file, or says why it cannot be written.
pub fn write_diff_png(width: u32, height: u32, rgba: &[u8]) -> (r: Result<Vec<u8>, DevError>)
    requires
        countable(width, height),
    ensures
        match png_file(width, height, rgba@) {
            Ok(v) => r matches Ok(x) && x@ == v,
            Err(e) => r matches Err(x) && x@ == ErrorView::Verify(
                (if e.0 {
                    "PNG encode error: "@
                } else {
                    "PNG write error: "@
                }) + e.1,
            ),
        },
{
    match encode_bytes(width, height, rgba) {
        Ok(v) => Ok(v),
        Err(e) => {
            let mut m = if e.0 {
                "PNG encode error: ".to_owned()
            } else {
                "PNG write error: ".to_owned()
            };
            m.append(e.1.as_str());
            Err(DevError::Verify(m))
        },
    }
}

/// An image differs from itself in no pixel.
pub proof fn same_image_has_no_difference(p: Seq<u8>, n: nat)
    ensures
        diff_count(p, p, n) == 0,
    decreases n,
{
    if n > 0 {
        same_image_has_no_difference(p, (n - 1) as nat);
    }
}

/// How many pixels differ does not depend on which image is the reference, and
/// is never more than there are.
pub proof fn difference_is_symmetric(p: Seq<u8>, r: Seq<u8>, n: nat)
    ensures
        diff_count(p, r, n) == diff_count(r, p, n),
        diff_count(p, r, n) <= n,
    decreases n,
{
    if n > 0 {
        difference_is_symmetric(p, r, (n - 1) as nat);
    }
}

} // verus!
