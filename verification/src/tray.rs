//! The tray icon's image: the embedded PNG, decoded with the `png` crate and
//! turned into the ARGB32 pixmap a StatusNotifierItem expects (bytes A, R, G,
//! B per pixel), so the tray shows an image even when the themed icon is not
//! installed.

use vstd::prelude::*;

verus! {

/// The color types of a decoded PNG frame.
#[derive(Debug, Clone, Copy, PartialEq, Eq, Structural)]
pub enum PngColor {
    Grayscale,
    Rgb,
    Indexed,
    GrayscaleAlpha,
    Rgba,
}

/// The first frame of a PNG, as the decoder hands it out.
pub struct PngFrame {
    pub width: u32,
    pub height: u32,
    pub color: PngColor,
    /// How many bytes of `pixels` the frame fills.
    pub size: usize,
    /// The output buffer the frame was decoded into.
    pub pixels: Vec<u8>,
}

/// The first frame that `png::Decoder` reads from these bytes (width,
/// height, color type, filled size and output buffer), or `None` where it
/// reports an error.
pub uninterp spec fn decoded_png(data: Seq<u8>) -> Option<(u32, u32, PngColor, usize, Seq<u8>)>;

/// Decodes the first frame of a PNG with `png::Decoder::new(data)`:
/// `read_info`, a buffer of `output_buffer_size` bytes, `next_frame` into it.
/// Decoding is a function of the bytes alone; the contract names its result
/// and claims nothing more of it.
#[verifier::external_body]
fn decode_png(data: &[u8]) -> (r: Option<PngFrame>)
    ensures
        match r {
            Some(f) => decoded_png(data@) == Some((f.width, f.height, f.color, f.size, f.pixels@)),
            None => decoded_png(data@) is None,
        },
{
    let mut reader = png::Decoder::new(data).read_info().ok()?;
    let mut buf = vec![0u8; reader.output_buffer_size()];
    let info = reader.next_frame(&mut buf).ok()?;
    let color = match info.color_type {
        png::ColorType::Grayscale => PngColor::Grayscale,
        png::ColorType::Rgb => PngColor::Rgb,
        png::ColorType::Indexed => PngColor::Indexed,
        png::ColorType::GrayscaleAlpha => PngColor::GrayscaleAlpha,
        png::ColorType::Rgba => PngColor::Rgba,
    };
    Some(PngFrame { width: info.width, height: info.height, color, size: info.buffer_size(), pixels: buf })
}

/// An icon image: width, height, and ARGB32 bytes.
#[derive(Debug)]
pub struct Pixmap {
    pub width: i32,
    pub height: i32,
    pub data: Vec<u8>,
}

/// Bytes per pixel of the color types the tray can show.
pub open spec fn channels(c: PngColor) -> Option<nat> {
    match c {
        PngColor::Rgba => Some(4),
        PngColor::Rgb => Some(3),
        _ => None,
    }
}

/// Pixel `i` of `px` (`ch` bytes per pixel) as A, R, G, B; opaque when the
/// pixel has no alpha byte.
pub open spec fn argb_pixel(px: Seq<u8>, ch: nat, i: int) -> Seq<u8> {
    seq![
        if ch == 4 {
            px[i * ch + 3]
        } else {
            255u8
        },
        px[i * ch],
        px[i * ch + 1],
        px[i * ch + 2],
    ]
}

/// The first `n` pixels of `px` in ARGB order.
pub open spec fn argb(px: Seq<u8>, ch: nat, n: nat) -> Seq<u8>
    decreases n,
{
    if n == 0 {
        Seq::empty()
    } else {
        argb(px, ch, (n - 1) as nat) + argb_pixel(px, ch, n - 1)
    }
}

/// The icon of a decoded frame: its whole pixels (the filled bytes taken in
/// runs of one pixel, a shorter rest ignored) in ARGB order; none for color
/// types other than RGB and RGBA. The sizes become `i32` by truncation.
pub open spec fn spec_icon(f: (u32, u32, PngColor, usize, Seq<u8>)) -> Option<(i32, i32, Seq<u8>)> {
    match channels(f.2) {
        Some(ch) => Some((f.0 as i32, f.1 as i32, argb(f.4.take(f.3 as int), ch, f.3 as nat / ch))),
        None => None,
    }
}

proof fn lemma_pixel_fits(k: nat, n: nat, ch: nat, size: nat)
    by (nonlinear_arith)
    requires
        ch > 0,
        n == size / ch,
        k < n,
    ensures
        (k + 1) * ch <= size,
        k * ch + ch == (k + 1) * ch,
{
}

/// Converts a decoded frame to an icon.
pub fn icon_from_frame(frame: PngFrame) -> (r: Option<Pixmap>)
    requires
        frame.size <= frame.pixels@.len(),
    ensures
        match r {
            Some(p) => spec_icon((frame.width, frame.height, frame.color, frame.size, frame.pixels@)) == Some(
                (p.width, p.height, p.data@),
            ),
            None => spec_icon((frame.width, frame.height, frame.color, frame.size, frame.pixels@)) is None,
        },
{
    let ch: usize = match frame.color {
        PngColor::Rgba => 4,
        PngColor::Rgb => 3,
        _ => {
            return None;
        },
    };
    let ghost px = frame.pixels@.take(frame.size as int);
    let n = frame.size / ch;
    let mut data: Vec<u8> = Vec::new();
    let mut k: usize = 0;
    let mut off: usize = 0;
    while k < n
        invariant
            ch == 3 || ch == 4,
            n == frame.size as nat / ch as nat,
            frame.size <= frame.pixels@.len(),
            px == frame.pixels@.take(frame.size as int),
            0 <= k <= n,
            off == k * ch,
            data@ == argb(px, ch as nat, k as nat),
        decreases n - k,
    {
        proof {
            lemma_pixel_fits(k as nat, n as nat, ch as nat, frame.size as nat);
        }
        let r = frame.pixels[off];
        let g = frame.pixels[off + 1];
        let b = frame.pixels[off + 2];
        let a = if ch == 4 {
            frame.pixels[off + 3]
        } else {
            255u8
        };
        let ghost before = data@;
        data.push(a);
        data.push(r);
        data.push(g);
        data.push(b);
        proof {
            assert(px[off as int] == r && px[off + 1] == g && px[off + 2] == b);
            assert(ch == 4 ==> px[off + 3] == a);
            assert(argb(px, ch as nat, (k + 1) as nat) == before + argb_pixel(px, ch as nat, k as int));
            assert(data@ =~= before + argb_pixel(px, ch as nat, k as int));
        }
        k = k + 1;
        off = off + ch;
    }
    Some(
        Pixmap {
            width: #[verifier::truncate] (frame.width as i32),
            height: #[verifier::truncate] (frame.height as i32),
            data,
        },
    )
}

/// The tray icon decoded from PNG bytes: `None` when they do not decode, when
/// the frame is neither RGB nor RGBA, or when the decoder reports a frame
/// larger than its own buffer.
pub fn icon_pixmap(png: &[u8]) -> (r: Option<Pixmap>)
    ensures
        match r {
            Some(p) => decoded_png(png@) matches Some(f) && f.3 <= f.4.len() && spec_icon(f) == Some(
                (p.width, p.height, p.data@),
            ),
            None => match decoded_png(png@) {
                Some(f) => f.3 > f.4.len() || spec_icon(f) is None,
                None => true,
            },
        },
{
    let frame = match decode_png(png) {
        Some(f) => f,
        None => {
            return None;
        },
    };
    if frame.size > frame.pixels.len() {
        return None;
    }
    icon_from_frame(frame)
}

} // verus!
