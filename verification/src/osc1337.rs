//! Inline images in the iTerm2 escape sequence `OSC 1337 ; File=...`: the
//! frame encoded as a JPEG and sent in base64.
use base64::Engine;
use base64::engine::general_purpose::STANDARD;
use jpeg_encoder::{ColorType, Encoder};
use vstd::prelude::*;
use vstd::string::StrSliceExecFns;
use vstd::utf8::encode_utf8;
use crate::text::{decimal, push_all, push_decimal};
use crate::util::Color;

verus! {

/// Asks the terminal to take the focus.
pub const STEAL_FOCUS: &'static str = "\x1b]1337;StealFocus\x1b\\";

// ===== base64 =====

/// The character of the standard base64 alphabet for the value `v`
/// (0 to 63).
pub open spec fn b64_digit(v: int) -> u8 {
    if v < 26 {
        (65 + v) as u8
    } else if v < 52 {
        (97 + v - 26) as u8
    } else if v < 62 {
        (48 + v - 52) as u8
    } else if v == 62 {
        43u8
    } else {
        47u8
    }
}

/// Standard base64 with `=` padding (RFC 4648): each group of three bytes
/// becomes four characters of six bits each; a last group of one or two
/// bytes is padded.
pub open spec fn base64_std(s: Seq<u8>) -> Seq<u8>
    decreases s.len(),
{
    if s.len() == 0 {
        seq![]
    } else {
        let a = s[0] as int;
        let b = if s.len() > 1 { s[1] as int } else { 0 };
        let c = if s.len() > 2 { s[2] as int } else { 0 };
        let d0 = b64_digit(a / 4);
        let d1 = b64_digit((a % 4) * 16 + b / 16);
        let d2 = b64_digit((b % 16) * 4 + c / 64);
        let d3 = b64_digit(c % 64);
        if s.len() == 1 {
            seq![d0, d1, 61u8, 61u8]
        } else if s.len() == 2 {
            seq![d0, d1, d2, 61u8]
        } else {
            seq![d0, d1, d2, d3] + base64_std(s.subrange(3, s.len() as int))
        }
    }
}

/// Calls `Engine::encode` of `base64` with the `STANDARD` engine, which
/// encodes with the standard alphabet and `=` padding, as its documentation
/// says.
#[verifier::external_body]
fn encode_base64(data: &Vec<u8>) -> (r: Vec<u8>)
    ensures
        r@ == base64_std(data@),
{
    STANDARD.encode(data.as_slice()).into_bytes()
}

// ===== JPEG =====

/// The JPEG file, at quality 90, that `jpeg_encoder` makes of `width` by
/// `height` RGBA pixels.
pub uninterp spec fn jpeg_rgba(data: Seq<u8>, width: u16, height: u16) -> Seq<u8>;

/// Calls `Encoder::encode` of `jpeg_encoder` into a `Vec`, at quality 90,
/// with RGBA input. Its source shows that it fails only on a zero width or
/// height or on data shorter than four bytes a pixel (writing to a `Vec`
/// cannot fail); the bytes it writes are named `jpeg_rgba`.
#[verifier::external_body]
fn encode_jpeg(data: &Vec<u8>, width: u16, height: u16) -> (r: Option<Vec<u8>>)
    requires
        width * height * 4 <= usize::MAX,
    ensures
        r is Some <==> (width > 0 && height > 0 && data@.len() >= width * height * 4),
        r matches Some(b) ==> b@ == jpeg_rgba(data@, width, height),
{
    let mut buffer: Vec<u8> = Vec::new();
    match Encoder::new(&mut buffer, 90).encode(data.as_slice(), width, height, ColorType::Rgba) {
        Ok(()) => Some(buffer),
        Err(_) => None,
    }
}

// ===== the escape sequence =====

/// The text before the image data.
pub open spec fn image_header(display_width: nat, display_height: nat, size: nat) -> Seq<char> {
    "\x1b]1337;File=inline=1;width="@ + decimal(display_width) + ";height="@ + decimal(display_height)
        + ";size="@ + decimal(size) + ":"@
}

/// The whole escape sequence that shows the JPEG file `jpeg`.
pub open spec fn image_escape(jpeg: Seq<u8>, display_width: nat, display_height: nat) -> Seq<u8> {
    encode_utf8(image_header(display_width, display_height, jpeg.len())) + base64_std(jpeg) + seq![27u8, 92u8]
}

fn append_bytes(buf: &mut Vec<u8>, b: &Vec<u8>)
    ensures
        final(buf)@ == old(buf)@ + b@,
{
    let mut i: usize = 0;
    let ghost b0 = buf@;
    while i < b.len()
        invariant
            i <= b@.len(),
            buf@ == b0 + b@.take(i as int),
        decreases b@.len() - i,
    {
        buf.push(b[i]);
        assert(b@.take(i + 1) =~= b@.take(i as int).push(b@[i as int]));
        i = i + 1;
    }
    assert(b@.take(b@.len() as int) =~= b@);
}

/// Appends the escape sequence that shows the JPEG file `jpeg` in a box of
/// `display_width` by `display_height` cells.
pub fn format_image_escape(buf: &mut Vec<u8>, jpeg: &Vec<u8>, display_width: usize, display_height: usize)
    ensures
        final(buf)@ == old(buf)@ + image_escape(jpeg@, display_width as nat, display_height as nat),
{
    let mut head = String::new();
    push_all(&mut head, "\x1b]1337;File=inline=1;width=");
    push_decimal(&mut head, display_width as u64);
    push_all(&mut head, ";height=");
    push_decimal(&mut head, display_height as u64);
    push_all(&mut head, ";size=");
    push_decimal(&mut head, jpeg.len() as u64);
    push_all(&mut head, ":");
    assert(head@ =~= image_header(display_width as nat, display_height as nat, jpeg@.len()));
    let hb = head.as_str().as_bytes_vec();
    append_bytes(buf, &hb);
    let enc = encode_base64(jpeg);
    append_bytes(buf, &enc);
    buf.push(27u8);
    buf.push(92u8);
    assert(buf@ =~= old(buf)@ + image_escape(jpeg@, display_width as nat, display_height as nat));
}

// ===== pixels =====

/// The rows of the frame, `width` pixels each, one after another: the data
/// itself when rows are not padded.
pub open spec fn packed_rows(data: Seq<Color>, width: nat, height: nat, pitch: nat) -> Seq<Color>
    decreases height,
{
    if pitch == width {
        data
    } else if height == 0 {
        seq![]
    } else {
        packed_rows(data, width, (height - 1) as nat, pitch) + data.subrange(
            (height - 1) * pitch,
            (height - 1) * pitch + width,
        )
    }
}

/// The bytes of the pixels, red, green, blue and alpha of each.
pub open spec fn rgba_bytes(px: Seq<Color>) -> Seq<u8>
    decreases px.len(),
{
    if px.len() == 0 {
        seq![]
    } else {
        rgba_bytes(px.drop_last()) + seq![px.last().r, px.last().g, px.last().b, px.last().a]
    }
}

/// The bytes of the pixels of the frame, rows packed.
fn frame_bytes(data: &Vec<Color>, width: usize, height: usize, pitch: usize) -> (r: Vec<u8>)
    requires
        pitch != width ==> height == 0 || (height - 1) * pitch + width <= data@.len(),
    ensures
        r@ == rgba_bytes(packed_rows(data@, width as nat, height as nat, pitch as nat)),
{
    let mut r: Vec<u8> = Vec::new();
    if pitch == width {
        let mut i: usize = 0;
        while i < data.len()
            invariant
                pitch == width,
                i <= data@.len(),
                r@ == rgba_bytes(data@.take(i as int)),
            decreases data@.len() - i,
        {
            let c = data[i];
            r.push(c.r);
            r.push(c.g);
            r.push(c.b);
            r.push(c.a);
            proof {
                assert(data@.take(i + 1).drop_last() =~= data@.take(i as int));
                assert(r@ =~= rgba_bytes(data@.take(i + 1)));
            }
            i = i + 1;
        }
        assert(data@.take(data@.len() as int) =~= data@);
        return r;
    }
    let n = data.len();
    let mut y: usize = 0;
    while y < height
        invariant
            n == data@.len(),
            pitch != width,
            y <= height,
            height == 0 || (height - 1) * pitch + width <= data@.len(),
            r@ == rgba_bytes(packed_rows(data@, width as nat, y as nat, pitch as nat)),
        decreases height - y,
    {
        proof {
            assert(y * pitch <= (height - 1) * pitch) by (nonlinear_arith)
                requires
                    y < height,
            ;
        }
        let start = y * pitch;
        let ghost r0 = r@;
        let ghost row = data@.subrange(start as int, start + width);
        let mut x: usize = 0;
        while x < width
            invariant
                x <= width,
                n == data@.len(),
                start + width <= data@.len(),
                row == data@.subrange(start as int, start + width),
                r@ == r0 + rgba_bytes(row.take(x as int)),
            decreases width - x,
        {
            let c = data[start + x];
            r.push(c.r);
            r.push(c.g);
            r.push(c.b);
            r.push(c.a);
            proof {
                assert(row.take(x + 1).drop_last() =~= row.take(x as int));
                assert(row.take(x + 1).last() == c);
                assert(r@ =~= r0 + rgba_bytes(row.take(x + 1)));
            }
            x = x + 1;
        }
        proof {
            assert(row.take(width as int) =~= row);
            lemma_rgba_concat(packed_rows(data@, width as nat, y as nat, pitch as nat), row);
            assert(packed_rows(data@, width as nat, (y + 1) as nat, pitch as nat) == packed_rows(
                data@,
                width as nat,
                y as nat,
                pitch as nat,
            ) + row);
        }
        y = y + 1;
    }
    r
}

proof fn lemma_rgba_concat(a: Seq<Color>, b: Seq<Color>)
    ensures
        rgba_bytes(a + b) == rgba_bytes(a) + rgba_bytes(b),
    decreases b.len(),
{
    if b.len() == 0 {
        assert(a + b =~= a);
    } else {
        lemma_rgba_concat(a, b.drop_last());
        assert((a + b).drop_last() =~= a + b.drop_last());
        assert(rgba_bytes(a + b) =~= rgba_bytes(a) + rgba_bytes(b));
    }
}

/// Appends the escape sequence that shows the frame (`width` by `height`
/// pixels, rows `pitch` pixels apart) as a JPEG in a box of `display_width`
/// by `display_height` cells. Nothing is appended when the encoder refuses
/// the frame: the sizes are cut to 16 bits, and a size that is then zero is
/// refused.
pub fn format_image(
    buf: &mut Vec<u8>,
    data: &Vec<Color>,
    width: usize,
    height: usize,
    pitch: usize,
    display_width: usize,
    display_height: usize,
)
    requires
        pitch != width ==> height == 0 || (height - 1) * pitch + width <= data@.len(),
    ensures
        ({
            let px = rgba_bytes(packed_rows(data@, width as nat, height as nat, pitch as nat));
            let (w, h) = (width as u16, height as u16);
            if w > 0 && h > 0 && px.len() >= w * h * 4 {
                final(buf)@ == old(buf)@ + image_escape(jpeg_rgba(px, w, h), display_width as nat, display_height as nat)
            } else {
                final(buf)@ == old(buf)@
            }
        }),
{
    let px = frame_bytes(data, width, height, pitch);
    let px_len = px.len();
    let w = width as u16;
    let h = height as u16;
    proof {
        assert(w * h * 4 <= 0xffff * 0xffff * 4) by (nonlinear_arith)
            requires
                w <= 0xffff,
                h <= 0xffff,
        ;
    }
    if (w as u64) * (h as u64) * 4 > usize::MAX as u64 {
        assert(px_len < w * h * 4);
        return;
    }
    match encode_jpeg(&px, w, h) {
        Some(jpeg) => format_image_escape(buf, &jpeg, display_width, display_height),
        None => {},
    }
}

} // verus!
