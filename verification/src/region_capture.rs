//! Region capture: cropping the selected region out of a screenshot, and the
//! base64 text of image bytes.
use vstd::prelude::*;
use crate::numfmt::{dec_digits, dec_u128};
use crate::text::{chars_of, push_all, push_str, str_to_string, string_of};
use image::ImageEncoder;

verus! {

/// Region selected by the user, in virtual-screen coordinates.
#[derive(Debug, Clone, Copy, PartialEq, Eq, Structural)]
pub struct SelectedRegion {
    pub x: i32,
    pub y: i32,
    pub width: u32,
    pub height: u32,
}

/// Result of a region capture.
#[derive(Debug)]
pub enum RegionCaptureResult {
    /// A region was selected; its PNG bytes.
    Selected { region: SelectedRegion, image_data: Vec<u8> },
    /// The user cancelled.
    Cancelled,
    /// The capture failed.
    Error(String),
}

/// An RGBA image: 4 bytes per pixel, row by row.
#[derive(Debug)]
pub struct RgbaImage {
    pub width: u32,
    pub height: u32,
    pub pixels: Vec<u8>,
}

/// The pixel buffer has the size the dimensions call for.
pub open spec fn image_wf(width: u32, height: u32, pixels: Seq<u8>) -> bool {
    pixels.len() == width * height * 4
}

/// What `image::load_from_memory(data)?.to_rgba8()` gives for the bytes
/// `data`: the width, height and RGBA bytes, or the error's message.
pub uninterp spec fn decoded_rgba(data: Seq<u8>) -> Result<(u32, u32, Seq<u8>), Seq<char>>;

/// What `PngEncoder::write_image` writes for an RGBA image of the given size
/// and bytes, or the error's message.
pub uninterp spec fn encoded_png(width: u32, height: u32, pixels: Seq<u8>) -> Result<Seq<u8>, Seq<char>>;

/// Model of a decoding result.
pub open spec fn decode_view(r: Result<RgbaImage, String>) -> Result<(u32, u32, Seq<u8>), Seq<char>> {
    match r {
        Ok(img) => Ok((img.width, img.height, img.pixels@)),
        Err(e) => Err(e@),
    }
}

/// Calls `image::load_from_memory` and converts the image to 8-bit RGBA
///; the result is named `decoded_rgba`, and the RGBA buffer holds
/// 4 bytes per pixel (`ImageBuffer`'s invariant).
#[verifier::external_body]
fn decode_image(data: &[u8]) -> (r: Result<RgbaImage, String>)
    ensures
        decode_view(r) == decoded_rgba(data@),
        r matches Ok(img) ==> image_wf(img.width, img.height, img.pixels@),
{
    match image::load_from_memory(data) {
        Ok(img) => {
            let rgba = img.to_rgba8();
            Ok(RgbaImage { width: rgba.width(), height: rgba.height(), pixels: rgba.into_raw() })
        },
        Err(e) => Err(e.to_string()),
    }
}

/// Model of an encoding result.
pub open spec fn bytes_result_view(r: Result<Vec<u8>, String>) -> Result<Seq<u8>, Seq<char>> {
    match r {
        Ok(b) => Ok(b@),
        Err(e) => Err(e@),
    }
}

/// Calls `PngEncoder::write_image` for an RGBA image; the result is named
/// `encoded_png`. The encoder asserts that the buffer fits the dimensions,
/// hence the precondition.
#[verifier::external_body]
pub(crate) fn encode_png(width: u32, height: u32, pixels: &[u8]) -> (r: Result<Vec<u8>, String>)
    requires
        image_wf(width, height, pixels@),
    ensures
        bytes_result_view(r) == encoded_png(width, height, pixels@),
{
    let mut out: Vec<u8> = Vec::new();
    let encoder = image::codecs::png::PngEncoder::new(&mut out);
    match encoder.write_image(pixels, width, height, image::ExtendedColorType::Rgba8) {
        Ok(()) => Ok(out),
        Err(e) => Err(e.to_string()),
    }
}

/// The region's bytes of an image `width` pixels wide: row `r`, column `c`
/// and channel `k` of the crop come from row `y + r`, column `x + c`.
pub open spec fn cropped(pixels: Seq<u8>, width: nat, x: nat, y: nat, w: nat, h: nat) -> Seq<u8> {
    Seq::new(
        w * h * 4,
        |i: int| pixels[((y + (i / 4) / (w as int)) * width + (x + (i / 4) % (w as int))) * 4 + i % 4],
    )
}

/// The refusal of a region outside the image.
pub open spec fn out_of_bounds_message(x: nat, y: nat, w: nat, h: nat, iw: nat, ih: nat) -> Seq<char> {
    "Region out of bounds: ("@ + dec_digits(x) + ", "@ + dec_digits(y) + ") + "@ + dec_digits(w) + "x"@
        + dec_digits(h) + " exceeds "@ + dec_digits(iw) + "x"@ + dec_digits(ih)
}

/// Cropping a decoded image: negative coordinates and regions past the
/// image's edge are refused.
pub open spec fn crop_result(img: (u32, u32, Seq<u8>), region: SelectedRegion) -> Result<
    (u32, u32, Seq<u8>),
    Seq<char>,
> {
    if region.x < 0 || region.y < 0 {
        Err("Invalid region: negative coordinates"@)
    } else if region.x + region.width > img.0 || region.y + region.height > img.1 {
        Err(
            out_of_bounds_message(
                region.x as nat,
                region.y as nat,
                region.width as nat,
                region.height as nat,
                img.0 as nat,
                img.1 as nat,
            ),
        )
    } else {
        Ok(
            (
                region.width,
                region.height,
                cropped(
                    img.2,
                    img.0 as nat,
                    region.x as nat,
                    region.y as nat,
                    region.width as nat,
                    region.height as nat,
                ),
            ),
        )
    }
}

/// Cropping the whole image gives the image back.
pub proof fn lemma_full_crop_is_identity(width: u32, height: u32, pixels: Seq<u8>)
    requires
        image_wf(width, height, pixels),
    ensures
        crop_result((width, height, pixels), SelectedRegion { x: 0, y: 0, width, height }) == Ok::<
            (u32, u32, Seq<u8>),
            Seq<char>,
        >((width, height, pixels)),
{
    let w = width as nat;
    let c = cropped(pixels, w, 0, 0, w, height as nat);
    assert(c.len() == pixels.len());
    assert forall|i: int| 0 <= i < c.len() implies c[i] == pixels[i] by {
        let q = i / 4;
        assert(w > 0) by {
            if w == 0 {
                assert(pixels.len() == 0) by (nonlinear_arith)
                    requires
                        pixels.len() == w * height * 4,
                        w == 0,
                ;
            }
        }
        assert((q / (w as int)) * (w as int) + q % (w as int) == q) by (nonlinear_arith)
            requires
                w > 0,
        ;
        assert(q * 4 + i % 4 == i) by (nonlinear_arith)
            requires
                q == i / 4,
        ;
        assert(c[i] == pixels[((0 + q / (w as int)) * (w as int) + (0 + q % (w as int))) * 4 + i % 4]);
    }
    assert(c =~= pixels);
}

proof fn lemma_pixel_index(width: nat, height: nat, x: nat, y: nat, w: nat, h: nat, r: nat, c: nat, k: nat)
    requires
        x + w <= width,
        y + h <= height,
        r < h,
        c < w,
        k < 4,
    ensures
        ((y + r) * width + (x + c)) * 4 + k < width * height * 4,
        (r * w + c) * 4 + k < w * h * 4,
{
    assert(((y + r) * width + (x + c)) * 4 + k < width * height * 4) by (nonlinear_arith)
        requires
            x + w <= width,
            y + h <= height,
            r < h,
            c < w,
            k < 4,
    ;
    assert((r * w + c) * 4 + k < w * h * 4) by (nonlinear_arith)
        requires
            r < h,
            c < w,
            k < 4,
    ;
}

/// Crops `region` out of a decoded image.
pub fn crop_image(img: &RgbaImage, region: &SelectedRegion) -> (r: Result<RgbaImage, String>)
    requires
        image_wf(img.width, img.height, img.pixels@),
        region.x >= 0 ==> region.x + region.width <= u32::MAX,
        region.y >= 0 ==> region.y + region.height <= u32::MAX,
    ensures
        decode_view(r) == crop_result((img.width, img.height, img.pixels@), *region),
        r matches Ok(c) ==> image_wf(c.width, c.height, c.pixels@),
{
    if region.x < 0 || region.y < 0 {
        return Err(str_to_string("Invalid region: negative coordinates"));
    }
    let x = region.x as u32;
    let y = region.y as u32;
    if x + region.width > img.width || y + region.height > img.height {
        let mut m = chars_of("Region out of bounds: (");
        push_all(&mut m, dec_u128(x as u128).as_slice());
        push_str(&mut m, ", ");
        push_all(&mut m, dec_u128(y as u128).as_slice());
        push_str(&mut m, ") + ");
        push_all(&mut m, dec_u128(region.width as u128).as_slice());
        push_str(&mut m, "x");
        push_all(&mut m, dec_u128(region.height as u128).as_slice());
        push_str(&mut m, " exceeds ");
        push_all(&mut m, dec_u128(img.width as u128).as_slice());
        push_str(&mut m, "x");
        push_all(&mut m, dec_u128(img.height as u128).as_slice());
        return Err(string_of(m.as_slice()));
    }
    let w = region.width as usize;
    let h = region.height as usize;
    let iw = img.width as usize;
    let ghost target = cropped(img.pixels@, iw as nat, x as nat, y as nat, w as nat, h as nat);
    let mut out: Vec<u8> = Vec::new();
    let mut row: usize = 0;
    proof {
        assert(img.pixels@.len() == iw * (img.height as nat) * 4);
        assert(w * h * 4 <= iw * (img.height as nat) * 4) by (nonlinear_arith)
            requires
                w <= iw,
                h <= img.height,
        ;
    }
    while row < h
        invariant
            0 <= row <= h,
            w == region.width,
            h == region.height,
            iw == img.width,
            x + w <= iw,
            y + h <= img.height,
            image_wf(img.width, img.height, img.pixels@),
            target == cropped(img.pixels@, iw as nat, x as nat, y as nat, w as nat, h as nat),
            w * h * 4 <= img.pixels@.len(),
            out@.len() == row * w * 4,
            forall|i: int| 0 <= i < out@.len() ==> #[trigger] out@[i] == target[i],
        decreases h - row,
    {
        let mut col: usize = 0;
        while col < w
            invariant
                0 <= row < h,
                0 <= col <= w,
                w == region.width,
                h == region.height,
                iw == img.width,
                x + w <= iw,
                y + h <= img.height,
                image_wf(img.width, img.height, img.pixels@),
                target == cropped(img.pixels@, iw as nat, x as nat, y as nat, w as nat, h as nat),
                out@.len() == (row * w + col) * 4,
                forall|i: int| 0 <= i < out@.len() ==> #[trigger] out@[i] == target[i],
            decreases w - col,
        {
            let mut k: usize = 0;
            while k < 4
                invariant
                    0 <= row < h,
                    0 <= col < w,
                    0 <= k <= 4,
                    w == region.width,
                    h == region.height,
                    iw == img.width,
                    x + w <= iw,
                    y + h <= img.height,
                    image_wf(img.width, img.height, img.pixels@),
                    target == cropped(img.pixels@, iw as nat, x as nat, y as nat, w as nat, h as nat),
                    out@.len() == (row * w + col) * 4 + k,
                    forall|i: int| 0 <= i < out@.len() ==> #[trigger] out@[i] == target[i],
                decreases 4 - k,
            {
                proof {
                    lemma_pixel_index(
                        iw as nat,
                        img.height as nat,
                        x as nat,
                        y as nat,
                        w as nat,
                        h as nat,
                        row as nat,
                        col as nat,
                        k as nat,
                    );
                }
                let plen = img.pixels.len();
                assert(plen == iw * img.height * 4);
                let a = y as usize + row;
                assert(a * iw <= (a * iw + (x + col)) * 4 + k) by (nonlinear_arith)
                    requires
                        a >= 0,
                        iw >= 0,
                        x + col >= 0,
                        k >= 0,
                ;
                let b = a * iw;
                let c = b + (x as usize + col);
                let src = c * 4 + k;
                let b = img.pixels[src];
                let ghost idx = (row * w + col) * 4 + k;
                proof {
                    assert(idx / 4 == row * w + col) by (nonlinear_arith)
                        requires
                            idx == (row * w + col) * 4 + k,
                            k < 4,
                    ;
                    assert(idx % 4 == k) by (nonlinear_arith)
                        requires
                            idx == (row * w + col) * 4 + k,
                            k < 4,
                    ;
                    assert((row * w + col) / (w as int) == row) by (nonlinear_arith)
                        requires
                            col < w,
                    ;
                    assert((row * w + col) % (w as int) == col) by (nonlinear_arith)
                        requires
                            col < w,
                    ;
                    assert(target[idx] == b);
                }
                out.push(b);
                k = k + 1;
            }
            col = col + 1;
        }
        proof {
            assert((row * w + w) * 4 == (row + 1) * w * 4) by (nonlinear_arith);
        }
        row = row + 1;
    }
    assert(h * w * 4 == w * h * 4) by (nonlinear_arith);
    assert(out@ =~= target);
    Ok(RgbaImage { width: region.width, height: region.height, pixels: out })
}

/// Cropping a screenshot: decode, crop, encode as PNG, with the steps'
/// errors prefixed.
pub open spec fn crop_region_result(data: Seq<u8>, region: SelectedRegion) -> Result<Seq<u8>, Seq<char>> {
    match decoded_rgba(data) {
        Err(e) => Err("Failed to decode screenshot: "@ + e),
        Ok(img) => match crop_result(img, region) {
            Err(e) => Err(e),
            Ok(c) => match encoded_png(c.0, c.1, c.2) {
                Ok(b) => Ok(b),
                Err(e) => Err("Failed to encode cropped PNG: "@ + e),
            },
        },
    }
}

/// Crops a region out of a PNG screenshot and returns it as PNG bytes.
pub fn crop_region(screenshot_data: &[u8], region: &SelectedRegion) -> (r: Result<Vec<u8>, String>)
    requires
        region.x >= 0 ==> region.x + region.width <= u32::MAX,
        region.y >= 0 ==> region.y + region.height <= u32::MAX,
    ensures
        bytes_result_view(r) == crop_region_result(screenshot_data@, *region),
{
    let img = match decode_image(screenshot_data) {
        Ok(i) => i,
        Err(e) => {
            let mut m = chars_of("Failed to decode screenshot: ");
            push_str(&mut m, e.as_str());
            return Err(string_of(m.as_slice()));
        },
    };
    let c = match crop_image(&img, region) {
        Ok(c) => c,
        Err(e) => return Err(e),
    };
    match encode_png(c.width, c.height, c.pixels.as_slice()) {
        Ok(b) => Ok(b),
        Err(e) => {
            let mut m = chars_of("Failed to encode cropped PNG: ");
            push_str(&mut m, e.as_str());
            Err(string_of(m.as_slice()))
        },
    }
}

/// The outcome of a selection: the cropped image, or the error.
pub fn selection_result(screenshot_data: &[u8], region: SelectedRegion) -> (r: RegionCaptureResult)
    requires
        region.x >= 0 ==> region.x + region.width <= u32::MAX,
        region.y >= 0 ==> region.y + region.height <= u32::MAX,
    ensures
        match crop_region_result(screenshot_data@, region) {
            Ok(b) => r matches RegionCaptureResult::Selected { region: rg, image_data } && rg == region
                && image_data@ == b,
            Err(e) => r matches RegionCaptureResult::Error(m) && m@ == e,
        },
{
    match crop_region(screenshot_data, &region) {
        Ok(image_data) => RegionCaptureResult::Selected { region, image_data },
        Err(e) => RegionCaptureResult::Error(e),
    }
}

/// The base64 digit for a 6-bit value.
pub open spec fn b64_char(i: nat) -> char {
    if i < 26 {
        (65 + i) as char
    } else if i < 52 {
        (97 + i - 26) as char
    } else if i < 62 {
        (48 + i - 52) as char
    } else if i == 62 {
        '+'
    } else {
        '/'
    }
}

/// Standard base64 with `=` padding.
pub open spec fn base64(s: Seq<u8>) -> Seq<char>
    decreases s.len(),
{
    if s.len() == 0 {
        Seq::empty()
    } else {
        let b0 = s[0] as nat;
        let b1 = if s.len() > 1 {
            s[1] as nat
        } else {
            0
        };
        let b2 = if s.len() > 2 {
            s[2] as nat
        } else {
            0
        };
        let c2 = if s.len() > 1 {
            b64_char((b1 % 16) * 4 + b2 / 64)
        } else {
            '='
        };
        let c3 = if s.len() > 2 {
            b64_char(b2 % 64)
        } else {
            '='
        };
        let rest = if s.len() > 3 {
            s.skip(3)
        } else {
            Seq::empty()
        };
        seq![b64_char(b0 / 4), b64_char((b0 % 4) * 16 + b1 / 16), c2, c3] + base64(rest)
    }
}

fn b64_char_exec(i: u8) -> (c: char)
    requires
        i < 64,
    ensures
        c == b64_char(i as nat),
{
    if i < 26 {
        (65 + i) as char
    } else if i < 52 {
        (97 + i - 26) as char
    } else if i < 62 {
        (48 + i - 52) as char
    } else if i == 62 {
        '+'
    } else {
        '/'
    }
}

/// Encodes bytes as standard base64 text.
pub fn base64_encode(data: &[u8]) -> (r: String)
    ensures
        r@ == base64(data@),
{
    let n = data.len();
    let mut out: Vec<char> = Vec::new();
    let mut i: usize = 0;
    assert(data@.skip(0) =~= data@);
    while i < n
        invariant
            n == data.len(),
            0 <= i <= n,
            out@ + base64(data@.skip(i as int)) == base64(data@),
        decreases n - i,
    {
        let ghost t = data@.skip(i as int);
        let left = n - i;
        let b0 = data[i];
        let b1: u8 = if left > 1 {
            data[i + 1]
        } else {
            0
        };
        let b2: u8 = if left > 2 {
            data[i + 2]
        } else {
            0
        };
        assert(t[0] == b0);
        assert(left > 1 ==> t[1] == b1);
        assert(left > 2 ==> t[2] == b2);
        let ghost before = out@;
        out.push(b64_char_exec(b0 / 4));
        out.push(b64_char_exec((b0 % 4) * 16 + b1 / 16));
        if left > 1 {
            out.push(b64_char_exec((b1 % 16) * 4 + b2 / 64));
        } else {
            out.push('=');
        }
        if left > 2 {
            out.push(b64_char_exec(b2 % 64));
        } else {
            out.push('=');
        }
        proof {
            let rest = if t.len() > 3 {
                t.skip(3)
            } else {
                Seq::<u8>::empty()
            };
            if left > 3 {
                assert(rest =~= data@.skip(i + 3));
            } else {
                assert(data@.skip(n as int) =~= Seq::<u8>::empty());
            }
            assert(out@ =~= before + base64(t).take(4));
            assert(base64(t) =~= base64(t).take(4) + base64(rest));
        }
        i = if left > 3 {
            i + 3
        } else {
            n
        };
    }
    assert(data@.skip(n as int) =~= Seq::<u8>::empty());
    assert(out@ + Seq::<char>::empty() =~= out@);
    string_of(out.as_slice())
}

/// Base64 text has four characters for every started group of three bytes.
pub proof fn lemma_base64_len(s: Seq<u8>)
    ensures
        base64(s).len() == 4 * ((s.len() + 2) / 3),
    decreases s.len(),
{
    if s.len() > 3 {
        lemma_base64_len(s.skip(3));
        assert((s.len() + 2) / 3 == (s.len() - 3 + 2) / 3 + 1);
    } else if s.len() > 0 {
        assert(base64(Seq::<u8>::empty()).len() == 0);
        assert((s.len() + 2) / 3 == 1);
    }
}


/// The 6-bit value of a base64 digit (zero for any other character).
pub open spec fn b64_value(c: char) -> nat {
    let n = c as nat;
    if 65 <= n <= 90 {
        (n - 65) as nat
    } else if 97 <= n <= 122 {
        (n - 97 + 26) as nat
    } else if 48 <= n <= 57 {
        (n - 48 + 52) as nat
    } else if c == '+' {
        62
    } else if c == '/' {
        63
    } else {
        0
    }
}

/// Decodes standard base64 text, four characters at a time; `=` marks the
/// bytes a last group lacks.
pub open spec fn base64_decode(t: Seq<char>) -> Seq<u8>
    decreases t.len(),
{
    if t.len() < 4 {
        Seq::empty()
    } else {
        let v0 = b64_value(t[0]);
        let v1 = b64_value(t[1]);
        let v2 = b64_value(t[2]);
        let v3 = b64_value(t[3]);
        let one = seq![(v0 * 4 + v1 / 16) as u8];
        let two = if t[2] == '=' {
            one
        } else {
            one.push(((v1 % 16) * 16 + v2 / 4) as u8)
        };
        let three = if t[2] == '=' || t[3] == '=' {
            two
        } else {
            two.push(((v2 % 4) * 64 + v3) as u8)
        };
        three + base64_decode(t.skip(4))
    }
}

proof fn lemma_b64_digit(i: nat)
    requires
        i < 64,
    ensures
        b64_value(b64_char(i)) == i,
        b64_char(i) != '=',
{
}

proof fn lemma_b64_group(b0: nat, b1: nat, b2: nat)
    requires
        b0 < 256,
        b1 < 256,
        b2 < 256,
    ensures
        (b0 / 4) * 4 + ((b0 % 4) * 16 + b1 / 16) / 16 == b0,
        (((b0 % 4) * 16 + b1 / 16) % 16) * 16 + ((b1 % 16) * 4 + b2 / 64) / 4 == b1,
        (((b1 % 16) * 4 + b2 / 64) % 4) * 64 + b2 % 64 == b2,
        b0 / 4 < 64,
        (b0 % 4) * 16 + b1 / 16 < 64,
        (b1 % 16) * 4 + b2 / 64 < 64,
        b2 % 64 < 64,
{
    assert((b0 / 4) * 4 + ((b0 % 4) * 16 + b1 / 16) / 16 == b0) by (nonlinear_arith)
        requires
            b0 < 256,
            b1 < 256,
    ;
    assert((((b0 % 4) * 16 + b1 / 16) % 16) * 16 + ((b1 % 16) * 4 + b2 / 64) / 4 == b1) by (nonlinear_arith)
        requires
            b1 < 256,
            b2 < 256,
    ;
    assert((((b1 % 16) * 4 + b2 / 64) % 4) * 64 + b2 % 64 == b2) by (nonlinear_arith)
        requires
            b2 < 256,
    ;
    assert((b0 % 4) * 16 + b1 / 16 < 64) by (nonlinear_arith)
        requires
            b1 < 256,
    ;
    assert((b1 % 16) * 4 + b2 / 64 < 64) by (nonlinear_arith)
        requires
            b2 < 256,
    ;
}

/// Decoding base64 text gives the bytes back.
pub proof fn lemma_base64_round_trip(s: Seq<u8>)
    ensures
        base64_decode(base64(s)) == s,
    decreases s.len(),
{
    if s.len() > 0 {
        let b0 = s[0] as nat;
        let b1 = if s.len() > 1 {
            s[1] as nat
        } else {
            0
        };
        let b2 = if s.len() > 2 {
            s[2] as nat
        } else {
            0
        };
        let rest = if s.len() > 3 {
            s.skip(3)
        } else {
            Seq::empty()
        };
        lemma_base64_round_trip(rest);
        lemma_b64_group(b0, b1, b2);
        let v0 = b0 / 4;
        let v1 = (b0 % 4) * 16 + b1 / 16;
        let v2 = (b1 % 16) * 4 + b2 / 64;
        let v3 = b2 % 64;
        lemma_b64_digit(v0);
        lemma_b64_digit(v1);
        lemma_b64_digit(v2);
        lemma_b64_digit(v3);
        let t = base64(s);
        assert(t.skip(4) =~= base64(rest));
        if s.len() == 1 {
            assert(s =~= seq![s[0]]);
        } else if s.len() == 2 {
            assert(s =~= seq![s[0], s[1]]);
        } else {
            assert(s =~= seq![s[0], s[1], s[2]] + rest);
        }
    }
}

/// The padding of base64 text: exactly the characters a last incomplete
/// group lacks are `=`, at the end, and no other character is.
pub proof fn lemma_base64_padding(s: Seq<u8>)
    ensures
        forall|i: int|
            0 <= i < base64(s).len() ==> ((#[trigger] base64(s)[i] == '=') <==> i >= base64(s).len() - (3
                - s.len() % 3) % 3),
    decreases s.len(),
{
    if s.len() > 0 {
        let b0 = s[0] as nat;
        let b1 = if s.len() > 1 {
            s[1] as nat
        } else {
            0
        };
        let b2 = if s.len() > 2 {
            s[2] as nat
        } else {
            0
        };
        let rest = if s.len() > 3 {
            s.skip(3)
        } else {
            Seq::empty()
        };
        lemma_base64_padding(rest);
        lemma_base64_len(rest);
        lemma_b64_group(b0, b1, b2);
        lemma_b64_digit(b0 / 4);
        lemma_b64_digit((b0 % 4) * 16 + b1 / 16);
        lemma_b64_digit((b1 % 16) * 4 + b2 / 64);
        lemma_b64_digit(b2 % 64);
        let t = base64(s);
        assert forall|i: int| 0 <= i < t.len() implies ((#[trigger] t[i] == '=') <==> i >= t.len() - (3
            - s.len() % 3) % 3) by {
            if i >= 4 {
                assert(t[i] == base64(rest)[i - 4]);
                if s.len() > 3 {
                    assert(rest.len() == s.len() - 3);
                    assert(s.len() % 3 == rest.len() % 3) by (nonlinear_arith)
                        requires
                            rest.len() == s.len() - 3,
                    ;
                }
            }
        }
    }
}

/// What `base64_encode` gives is standard base64 (RFC 4648, with `=`
/// padding and no line breaks): four characters per started group of three
/// bytes, exactly `(3 - n % 3) % 3` trailing `=` and none elsewhere, and
/// decoding gives the bytes back.
pub proof fn lemma_base64_is_standard(s: Seq<u8>)
    ensures
        base64(s).len() == 4 * ((s.len() + 2) / 3),
        forall|i: int|
            0 <= i < base64(s).len() ==> ((#[trigger] base64(s)[i] == '=') <==> i >= base64(s).len() - (3
                - s.len() % 3) % 3),
        base64_decode(base64(s)) == s,
{
    lemma_base64_len(s);
    lemma_base64_padding(s);
    lemma_base64_round_trip(s);
}

} // verus!
