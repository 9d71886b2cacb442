//! Previews of files as PNG data URIs: the size check of the bitmap the
//! Shell hands out, its conversion from premultiplied BGRA to straight
//! RGBA, and the encoding of the picture.

use vstd::prelude::*;
use crate::shell::ShellError;
use crate::text::{chars_of, push_chars, string_of};

verus! {

broadcast use vstd::string::group_string_axioms;

/// The size in bytes of a bitmap of 32-bit pixels, when both the pixel
/// count and the byte count fit in a `u32`.
pub open spec fn bitmap_byte_count(width: u32, height: u32) -> Option<usize> {
    if width * height * 4 <= u32::MAX {
        Some((width * height * 4) as usize)
    } else {
        None
    }
}

/// The byte count of a `width` by `height` bitmap of 32-bit pixels, or
/// `None` when it does not fit in a `u32`.
pub fn preview_byte_count(width: u32, height: u32) -> (n: Option<usize>)
    ensures
        n == bitmap_byte_count(width, height),
{
    match width.checked_mul(height) {
        Some(pixels) => match pixels.checked_mul(4) {
            Some(bytes) => Some(bytes as usize),
            None => None,
        },
        None => {
            assert(width * height * 4 > u32::MAX) by (nonlinear_arith)
                requires
                    width * height > u32::MAX,
            ;
            None
        },
    }
}

/// Whether some pixel of a BGRA bitmap has an alpha byte other than zero.
pub open spec fn has_alpha(bgra: Seq<u8>) -> bool {
    exists|j: int| 0 <= j < bgra.len() && j % 4 == 3 && #[trigger] bgra[j] != 0
}

/// A colour channel premultiplied by `alpha`, brought back to its straight
/// value (at most 255); unchanged when the pixel is fully transparent or
/// fully opaque.
pub open spec fn unpremultiplied_channel(channel: u8, alpha: u8) -> u8 {
    if alpha == 0 || alpha == 255 {
        channel
    } else if channel * 255 / alpha as int > 255 {
        255
    } else {
        (channel * 255 / alpha as int) as u8
    }
}

/// The alpha of the pixel that starts at `p`: its own when the bitmap has
/// any alpha at all, else fully opaque.
pub open spec fn pixel_alpha(bgra: Seq<u8>, p: int) -> u8 {
    if has_alpha(bgra) {
        bgra[p + 3]
    } else {
        255
    }
}

/// A premultiplied BGRA bitmap as straight RGBA: red, green and blue taken
/// back from the premultiplied values, and the alpha of each pixel.
pub open spec fn unpremultiplied(bgra: Seq<u8>) -> Seq<u8> {
    Seq::new(
        bgra.len(),
        |i: int|
            {
                let p = i - i % 4;
                let alpha = pixel_alpha(bgra, p);
                if i % 4 == 0 {
                    unpremultiplied_channel(bgra[p + 2], alpha)
                } else if i % 4 == 1 {
                    unpremultiplied_channel(bgra[p + 1], alpha)
                } else if i % 4 == 2 {
                    unpremultiplied_channel(bgra[p], alpha)
                } else {
                    alpha
                }
            },
    )
}

fn straight_channel(channel: u8, alpha: u8) -> (c: u8)
    ensures
        c == unpremultiplied_channel(channel, alpha),
{
    if alpha == 0 || alpha == 255 {
        channel
    } else {
        let value: u32 = channel as u32 * 255 / alpha as u32;
        if value > 255 {
            255
        } else {
            value as u8
        }
    }
}

/// Whether a BGRA bitmap has any alpha byte other than zero.
fn bitmap_has_alpha(bgra: &[u8]) -> (r: bool)
    requires
        bgra@.len() % 4 == 0,
    ensures
        r == has_alpha(bgra@),
{
    let mut i: usize = 0;
    while i < bgra.len()
        invariant
            bgra@.len() % 4 == 0,
            0 <= i <= bgra@.len(),
            i % 4 == 0,
            forall|j: int| 0 <= j < i && j % 4 == 3 ==> #[trigger] bgra@[j] == 0,
        decreases bgra@.len() - i,
    {
        if bgra[i + 3] != 0 {
            return true;
        }
        i = i + 4;
    }
    false
}

/// The straight RGBA picture of a premultiplied BGRA bitmap: when no pixel
/// has an alpha byte, the bitmap is taken as opaque.
pub fn preview_rgba(bgra: &[u8]) -> (rgba: Vec<u8>)
    requires
        bgra@.len() % 4 == 0,
    ensures
        rgba@ == unpremultiplied(bgra@),
{
    let alpha_present = bitmap_has_alpha(bgra);
    let mut rgba: Vec<u8> = Vec::new();
    let mut i: usize = 0;
    while i < bgra.len()
        invariant
            bgra@.len() % 4 == 0,
            0 <= i <= bgra@.len(),
            i % 4 == 0,
            alpha_present == has_alpha(bgra@),
            rgba@.len() == i,
            forall|j: int| 0 <= j < i ==> #[trigger] rgba@[j] == unpremultiplied(bgra@)[j],
        decreases bgra@.len() - i,
    {
        let alpha = if alpha_present {
            bgra[i + 3]
        } else {
            255
        };
        rgba.push(straight_channel(bgra[i + 2], alpha));
        rgba.push(straight_channel(bgra[i + 1], alpha));
        rgba.push(straight_channel(bgra[i], alpha));
        rgba.push(alpha);
        proof {
            assert forall|j: int| 0 <= j < i + 4 implies #[trigger] rgba@[j] == unpremultiplied(
                bgra@,
            )[j] by {
                if j >= i {
                    assert(j - j % 4 == i);
                }
            }
        }
        i = i + 4;
    }
    proof {
        assert(rgba@ =~= unpremultiplied(bgra@));
    }
    rgba
}

/// What encoding a straight RGBA picture of the given size as PNG gives:
/// the PNG bytes, or the encoder's message.
pub uninterp spec fn png_rgba8(width: u32, height: u32, rgba: Seq<u8>) -> Result<Seq<u8>, Seq<char>>;

/// The PNG encoding of an RGBA picture whose buffer holds exactly
/// `width * height` pixels, through `image::write_buffer_with_format` with
/// `ImageFormat::Png` and `ExtendedColorType::Rgba8`. Claimed: the PNG bytes
/// written, or the text of the `ImageError`, are `png_rgba8` of the size
/// and the pixels. (The encoder asserts that the buffer has that exact
/// length, hence the `requires`.)
#[verifier::external_body]
fn encode_png_rgba8(width: u32, height: u32, rgba: &[u8]) -> (r: Result<Vec<u8>, String>)
    requires
        rgba@.len() == 4 * width * height,
    ensures
        match r {
            Ok(png) => png_rgba8(width, height, rgba@) == Ok::<Seq<u8>, Seq<char>>(png@),
            Err(m) => png_rgba8(width, height, rgba@) == Err::<Seq<u8>, Seq<char>>(m@),
        },
{
    let mut png = std::io::Cursor::new(Vec::new());
    match image::write_buffer_with_format(
        &mut png,
        rgba,
        width,
        height,
        image::ExtendedColorType::Rgba8,
        image::ImageFormat::Png,
    ) {
        Ok(()) => Ok(png.into_inner()),
        Err(error) => Err(error.to_string()),
    }
}

/// The PNG picture of a premultiplied BGRA bitmap of `width` by `height`
/// pixels: refused when the bitmap holds fewer bytes than that size needs,
/// else the encoding of its straight RGBA picture, or the encoder's
/// message as a picture error.
pub fn preview_png(width: u32, height: u32, bgra: &[u8]) -> (r: Result<Vec<u8>, ShellError>)
    requires
        bgra@.len() % 4 == 0,
        bgra@.len() <= 4 * width * height,
    ensures
        bgra@.len() < 4 * width * height ==> (r matches Err(ShellError::Visual(m)) && m@
            == "Windows returned an invalid RGBA buffer"@),
        bgra@.len() == 4 * width * height ==> match png_rgba8(width, height, unpremultiplied(bgra@)) {
            Ok(png) => r matches Ok(v) && v@ == png,
            Err(message) => r matches Err(ShellError::Visual(m)) && m@ == message,
        },
{
    proof {
        assert(width * height <= 0xffff_ffff * 0xffff_ffff && 4 * width * height == 4 * (width * height))
            by (nonlinear_arith);
    }
    let pixels: u128 = width as u128 * height as u128;
    let needed: u128 = 4 * pixels;
    let rgba = preview_rgba(bgra);
    if (rgba.len() as u128) < needed {
        return Err(ShellError::Visual(string_of(&chars_of("Windows returned an invalid RGBA buffer"))));
    }
    match encode_png_rgba8(width, height, &rgba) {
        Ok(png) => Ok(png),
        Err(message) => Err(ShellError::Visual(message)),
    }
}

/// The digit of a six-bit value in the standard Base64 alphabet
/// (RFC 4648): `A`-`Z`, `a`-`z`, `0`-`9`, `+`, `/`.
pub open spec fn base64_digit(n: int) -> char {
    "ABCDEFGHIJKLMNOPQRSTUVWXYZabcdefghijklmnopqrstuvwxyz0123456789+/"@[n]
}

/// The standard Base64 text of some bytes (RFC 4648, with padding): each
/// group of three bytes as four digits of six bits each; a last group of
/// one or two bytes padded with zero bits and `=`.
pub open spec fn base64_standard(bytes: Seq<u8>) -> Seq<char>
    decreases bytes.len(),
{
    let b0 = if bytes.len() > 0 { bytes[0] as int } else { 0 };
    let b1 = if bytes.len() > 1 { bytes[1] as int } else { 0 };
    let b2 = if bytes.len() > 2 { bytes[2] as int } else { 0 };
    if bytes.len() == 0 {
        Seq::empty()
    } else if bytes.len() == 1 {
        seq![base64_digit(b0 / 4), base64_digit((b0 % 4) * 16), '=', '=']
    } else if bytes.len() == 2 {
        seq![base64_digit(b0 / 4), base64_digit((b0 % 4) * 16 + b1 / 16), base64_digit((b1 % 16) * 4), '=']
    } else {
        seq![
            base64_digit(b0 / 4),
            base64_digit((b0 % 4) * 16 + b1 / 16),
            base64_digit((b1 % 16) * 4 + b2 / 64),
            base64_digit(b2 % 64),
        ] + base64_standard(bytes.skip(3))
    }
}

/// The standard Base64 encoding of some bytes, through
/// `base64::Engine::encode` on `base64::engine::general_purpose::STANDARD`.
/// Claimed: the text is the standard Base64 of the bytes, as
/// `base64_standard` states it. (The call panics
/// when the encoded length overflows `usize`, hence the `requires`.)
#[verifier::external_body]
fn encode_base64_standard(bytes: &[u8]) -> (text: String)
    requires
        bytes@.len() <= 3 * (usize::MAX / 4),
    ensures
        text@ == base64_standard(bytes@),
{
    base64::Engine::encode(&base64::engine::general_purpose::STANDARD, bytes)
}

/// The data URI of a PNG picture.
pub fn png_data_uri(png: &[u8]) -> (uri: String)
    requires
        png@.len() <= 3 * (usize::MAX / 4),
    ensures
        uri@ == "data:image/png;base64,"@ + base64_standard(png@),
{
    let encoded = encode_base64_standard(png);
    let mut text = chars_of("data:image/png;base64,");
    push_chars(&mut text, &chars_of(encoded.as_str()));
    string_of(&text)
}

/// The standard Base64 alphabet: `A`-`Z` for 0 to 25, `a`-`z` for 26 to
/// 51, `0`-`9` for 52 to 61, `+` for 62 and `/` for 63; every three bytes
/// take four digits, and the text is padded with `=` to a multiple of
/// four.
pub proof fn law_base64_alphabet_and_length(n: int, bytes: Seq<u8>)
    requires
        0 <= n < 64,
    ensures
        n < 26 ==> base64_digit(n) as int == 'A' as int + n,
        26 <= n < 52 ==> base64_digit(n) as int == 'a' as int + (n - 26),
        52 <= n < 62 ==> base64_digit(n) as int == '0' as int + (n - 52),
        n == 62 ==> base64_digit(n) == '+',
        n == 63 ==> base64_digit(n) == '/',
        base64_standard(bytes).len() == 4 * ((bytes.len() + 2) / 3),
    decreases bytes.len(),
{
    reveal_strlit("ABCDEFGHIJKLMNOPQRSTUVWXYZabcdefghijklmnopqrstuvwxyz0123456789+/");
    if bytes.len() >= 3 {
        law_base64_alphabet_and_length(n, bytes.skip(3));
        assert((bytes.len() + 2) / 3 == (bytes.skip(3).len() + 2) / 3 + 1);
    }
}

} // verus!
