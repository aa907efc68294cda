//! Turning file thumbnails into the Base64 PNG text the interface shows, and
//! the paths the Windows shell understands.
use crate::text::{has_prefix, strip_prefix};
use vstd::prelude::*;
use vstd::string::*;

verus! {

/// The Windows prefix of a verbatim UNC path.
pub const VERBATIM_UNC_PREFIX: &'static str = "\\\\?\\UNC\\";

/// The Windows prefix of a verbatim path.
pub const VERBATIM_PREFIX: &'static str = "\\\\?\\";

/// The path the Windows shell accepts for `path`: a verbatim UNC path
/// `\\?\UNC\server\share` becomes `\\server\share`, a verbatim drive path
/// `\\?\C:\...` loses its prefix, and any other path is kept.
pub open spec fn shell_path(path: Seq<char>) -> Seq<char> {
    if has_prefix(path, VERBATIM_UNC_PREFIX@) {
        "\\\\"@ + path.subrange(VERBATIM_UNC_PREFIX@.len() as int, path.len() as int)
    } else if has_prefix(path, VERBATIM_PREFIX@) {
        path.subrange(VERBATIM_PREFIX@.len() as int, path.len() as int)
    } else {
        path
    }
}

/// The path the Windows shell accepts for `file_path`.
pub fn shell_compatible_path(file_path: &str) -> (shell: String)
    ensures
        shell@ == shell_path(file_path@),
{
    if let Some(unc_path) = strip_prefix(file_path, VERBATIM_UNC_PREFIX) {
        let mut shell = String::from_str("\\\\");
        shell.append(unc_path);
        return shell;
    }
    if let Some(drive_path) = strip_prefix(file_path, VERBATIM_PREFIX) {
        return String::from_str(drive_path);
    }
    String::from_str(file_path)
}

/// The character that stands for a six-bit value in standard Base64.
pub open spec fn base64_digit(v: int) -> char {
    if v < 26 {
        (('A' as int) + v) as char
    } else if v < 52 {
        (('a' as int) + v - 26) as char
    } else if v < 62 {
        (('0' as int) + v - 52) as char
    } else if v == 62 {
        '+'
    } else {
        '/'
    }
}

/// Standard Base64 with padding: every three bytes become four characters,
/// and a last group of one or two bytes is padded with `=`.
pub open spec fn base64_encoding(bytes: Seq<u8>) -> Seq<char>
    decreases bytes.len(),
{
    if bytes.len() == 0 {
        Seq::empty()
    } else {
        let b0 = bytes[0] as int;
        let b1 = if bytes.len() > 1 {
            bytes[1] as int
        } else {
            0
        };
        let b2 = if bytes.len() > 2 {
            bytes[2] as int
        } else {
            0
        };
        let third = if bytes.len() > 1 {
            base64_digit((b1 % 16) * 4 + b2 / 64)
        } else {
            '='
        };
        let fourth = if bytes.len() > 2 {
            base64_digit(b2 % 64)
        } else {
            '='
        };
        let group = seq![base64_digit(b0 / 4), base64_digit((b0 % 4) * 16 + b1 / 16), third, fourth];
        if bytes.len() > 3 {
            group + base64_encoding(bytes.subrange(3, bytes.len() as int))
        } else {
            group
        }
    }
}

proof fn lemma_base64_digit_injective(x: int, y: int)
    requires
        0 <= x < 64,
        0 <= y < 64,
        base64_digit(x) == base64_digit(y),
    ensures
        x == y,
{
}

proof fn lemma_base64_digit_is_not_padding(x: int)
    requires
        0 <= x < 64,
    ensures
        base64_digit(x) != '=',
{
}

proof fn lemma_base64_encoding_len(bytes: Seq<u8>)
    ensures
        bytes.len() == 0 <==> base64_encoding(bytes).len() == 0,
        1 <= bytes.len() <= 3 ==> base64_encoding(bytes).len() == 4,
        bytes.len() > 3 ==> base64_encoding(bytes).len() > 4,
    decreases bytes.len(),
{
    if bytes.len() > 3 {
        lemma_base64_encoding_len(bytes.subrange(3, bytes.len() as int));
    }
}

/// Different bytes never share a Base64 encoding, so Base64 text decodes to
/// at most one sequence of bytes: a thumbnail's text decodes back to its PNG.
pub proof fn lemma_base64_encoding_is_injective(a: Seq<u8>, b: Seq<u8>)
    requires
        base64_encoding(a) == base64_encoding(b),
    ensures
        a == b,
    decreases a.len(),
{
    lemma_base64_encoding_len(a);
    lemma_base64_encoding_len(b);
    if a.len() == 0 {
        assert(b.len() == 0);
        assert(a =~= b);
        return;
    }
    let ea = base64_encoding(a);
    let a0 = a[0] as int;
    let b0 = b[0] as int;
    let a1 = if a.len() > 1 { a[1] as int } else { 0 };
    let b1 = if b.len() > 1 { b[1] as int } else { 0 };
    let a2 = if a.len() > 2 { a[2] as int } else { 0 };
    let b2 = if b.len() > 2 { b[2] as int } else { 0 };
    assert(ea[0] == base64_digit(a0 / 4));
    assert(ea[0] == base64_digit(b0 / 4));
    assert(ea[1] == base64_digit((a0 % 4) * 16 + a1 / 16));
    assert(ea[1] == base64_digit((b0 % 4) * 16 + b1 / 16));
    assert(0 <= (a0 % 4) * 16 + a1 / 16 < 64) by (nonlinear_arith)
        requires 0 <= a0 < 256, 0 <= a1 < 256;
    assert(0 <= (b0 % 4) * 16 + b1 / 16 < 64) by (nonlinear_arith)
        requires 0 <= b0 < 256, 0 <= b1 < 256;
    lemma_base64_digit_injective(a0 / 4, b0 / 4);
    lemma_base64_digit_injective((a0 % 4) * 16 + a1 / 16, (b0 % 4) * 16 + b1 / 16);
    assert(a0 == b0 && a1 / 16 == b1 / 16) by (nonlinear_arith)
        requires
            0 <= a0 < 256, 0 <= a1 < 256, 0 <= b0 < 256, 0 <= b1 < 256,
            a0 / 4 == b0 / 4,
            (a0 % 4) * 16 + a1 / 16 == (b0 % 4) * 16 + b1 / 16;
    // The third character is padding exactly for one byte, the fourth for at most two.
    if a.len() > 1 {
        lemma_base64_digit_is_not_padding((a1 % 16) * 4 + a2 / 64);
    }
    if b.len() > 1 {
        lemma_base64_digit_is_not_padding((b1 % 16) * 4 + b2 / 64);
    }
    if a.len() > 2 {
        lemma_base64_digit_is_not_padding(a2 % 64);
    }
    if b.len() > 2 {
        lemma_base64_digit_is_not_padding(b2 % 64);
    }
    assert(a.len() > 1 <==> b.len() > 1);
    assert(a.len() > 2 <==> b.len() > 2);
    if a.len() > 1 {
        assert(0 <= (a1 % 16) * 4 + a2 / 64 < 64) by (nonlinear_arith)
            requires 0 <= a1 < 256, 0 <= a2 < 256;
        assert(0 <= (b1 % 16) * 4 + b2 / 64 < 64) by (nonlinear_arith)
            requires 0 <= b1 < 256, 0 <= b2 < 256;
        assert(ea[2] == base64_digit((a1 % 16) * 4 + a2 / 64));
        assert(base64_encoding(b)[2] == base64_digit((b1 % 16) * 4 + b2 / 64));
        lemma_base64_digit_injective((a1 % 16) * 4 + a2 / 64, (b1 % 16) * 4 + b2 / 64);
        assert(a1 == b1 && a2 / 64 == b2 / 64) by (nonlinear_arith)
            requires
                0 <= a1 < 256, 0 <= a2 < 256, 0 <= b1 < 256, 0 <= b2 < 256,
                a1 / 16 == b1 / 16,
                (a1 % 16) * 4 + a2 / 64 == (b1 % 16) * 4 + b2 / 64;
    }
    if a.len() > 2 {
        assert(ea[3] == base64_digit(a2 % 64));
        assert(base64_encoding(b)[3] == base64_digit(b2 % 64));
        lemma_base64_digit_injective(a2 % 64, b2 % 64);
        assert(a2 == b2) by (nonlinear_arith)
            requires
                0 <= a2 < 256, 0 <= b2 < 256,
                a2 / 64 == b2 / 64,
                a2 % 64 == b2 % 64;
    }
    if a.len() > 3 {
        assert(b.len() > 3);
        let ta = a.subrange(3, a.len() as int);
        let tb = b.subrange(3, b.len() as int);
        let ga = seq![ea[0], ea[1], ea[2], ea[3]];
        assert(ea =~= ga + base64_encoding(ta));
        assert(base64_encoding(b) =~= ga + base64_encoding(tb));
        assert(base64_encoding(ta) =~= ea.subrange(4, ea.len() as int));
        assert(base64_encoding(tb) =~= ea.subrange(4, ea.len() as int));
        lemma_base64_encoding_is_injective(ta, tb);
        assert(a =~= b) by {
            assert forall|i: int| 0 <= i < a.len() implies a[i] == b[i] by {
                if i >= 3 {
                    assert(a[i] == ta[i - 3]);
                    assert(b[i] == tb[i - 3]);
                }
            }
        }
    } else {
        assert(b.len() <= 3);
        assert(a.len() == b.len()) by {
            if a.len() == 3 {
                assert(b.len() == 3);
            }
        }
        assert(a =~= b);
    }
}

/// Wraps `base64::engine::general_purpose::STANDARD.encode`. Claimed: the text
/// is the standard, padded Base64 encoding of the bytes.
#[verifier::external_body]
fn encode_base64(bytes: &Vec<u8>) -> (text: String)
    ensures
        text@ == base64_encoding(bytes@),
{
    base64::Engine::encode(&base64::engine::general_purpose::STANDARD, bytes)
}

/// What encoding an RGBA image of `width` by `height` pixels, read from
/// `pixels`, as PNG gives: the file's bytes, or the encoder's message.
pub uninterp spec fn png_encoding(width: u32, height: u32, pixels: Seq<u8>) -> Result<Seq<u8>, Seq<char>>;

/// `pixels` holds the four bytes of every pixel of a `width` by `height` image.
pub open spec fn holds_image(width: u32, height: u32, pixels: Seq<u8>) -> bool {
    4 * width * height <= pixels.len()
}

/// Wraps `image::ImageBuffer::from_raw` followed by `write_to` in PNG format.
/// Claimed: no image comes about when the buffer is shorter than four bytes
/// per pixel; otherwise the PNG bytes or the error message are those that
/// `png_encoding` names.
#[verifier::external_body]
pub(crate) fn encode_png(width: u32, height: u32, pixels: Vec<u8>) -> (png: Option<Result<Vec<u8>, String>>)
    ensures
        match png {
            None => !holds_image(width, height, pixels@),
            Some(Ok(bytes)) => holds_image(width, height, pixels@) && png_encoding(width, height, pixels@) == Ok::<Seq<u8>, Seq<char>>(bytes@),
            Some(Err(e)) => holds_image(width, height, pixels@) && png_encoding(width, height, pixels@) == Err::<Seq<u8>, Seq<char>>(e@),
        },
{
    let image = image::RgbaImage::from_raw(width, height, pixels)?;
    let mut png = Vec::new();
    let written = image.write_to(&mut std::io::Cursor::new(&mut png), image::ImageFormat::Png);
    Some(written.map(|_| png).map_err(|error| error.to_string()))
}

/// The Base64 text of a thumbnail of `width` by `height` RGBA pixels encoded
/// as PNG: an error when the pixels do not fill the image or the encoder
/// fails.
pub fn thumbnail_png_base64(width: u32, height: u32, rgba: Vec<u8>) -> (text: Result<String, String>)
    ensures
        !holds_image(width, height, rgba@) ==> (text matches Err(e) && e@ == "Failed to create image buffer"@),
        holds_image(width, height, rgba@) ==> match png_encoding(width, height, rgba@) {
            Ok(png) => text matches Ok(t) && t@ == base64_encoding(png),
            Err(m) => text matches Err(e) && e@ == m,
        },
{
    match encode_png(width, height, rgba) {
        None => Err(String::from_str("Failed to create image buffer")),
        Some(Err(message)) => Err(message),
        Some(Ok(png)) => Ok(encode_base64(&png)),
    }
}

} // verus!
