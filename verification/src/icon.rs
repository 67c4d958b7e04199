//! Reconstruction of an embedded raw bitmap hint into a standalone image:
//! lookup of the bitmap hint under either of its two names, validation of
//! the 7-field structured shape, the acceptance rule for supported
//! encodings, stride removal into a tightly packed RGBA8 buffer, and the
//! PNG encoding of that buffer.

use vstd::prelude::*;
use crate::num::{dec_of, render_i64};
use crate::text::chars_to_string;
use crate::value::{bool_of, byte_of, dict_get, dict_lookup, elems_of, fields_of, i32_of, Value};

verus! {

/// Why icon reconstruction failed for one record.
#[derive(Clone, Copy, PartialEq, Eq, Structural, Debug)]
pub enum ExtractError {
    /// The hint is not a 7-field structure of the expected field types,
    /// or its declared geometry is malformed.
    Shape,
    /// An element of the pixel array is not a byte.
    InvalidByte,
    /// The pixel buffer is shorter than `rowstride * height`.
    Truncated,
    /// The image encoder refused the packed buffer.
    Encode,
}

/// The bitmap hint, addressed by either of its two accepted names, the
/// dashed name taking precedence.
pub open spec fn spec_icon_hint(h: Seq<(String, Value)>) -> Option<Value> {
    match dict_get(h, "image-data"@) {
        Some(v) => Some(v),
        None => dict_get(h, "image_data"@),
    }
}

/// The expected 7-field structured shape: width, height, rowstride,
/// has_alpha, bits_per_sample, channels, pixel data.
pub open spec fn bitmap_shape_ok(v: Value) -> bool {
    &&& v is Structure
    &&& fields_of(v).len() == 7
    &&& fields_of(v)[0] is I32
    &&& fields_of(v)[1] is I32
    &&& fields_of(v)[2] is I32
    &&& fields_of(v)[3] is Bool
    &&& fields_of(v)[4] is I32
    &&& fields_of(v)[5] is I32
    &&& fields_of(v)[6] is Array
}

pub open spec fn bitmap_width(v: Value) -> int {
    i32_of(fields_of(v)[0])
}

pub open spec fn bitmap_height(v: Value) -> int {
    i32_of(fields_of(v)[1])
}

pub open spec fn bitmap_stride(v: Value) -> int {
    i32_of(fields_of(v)[2])
}

/// Only four-channel, 8-bit, alpha-carrying bitmaps are convertible; all
/// others are skipped by design, not rejected.
pub open spec fn bitmap_supported(v: Value) -> bool {
    i32_of(fields_of(v)[5]) == 4 && i32_of(fields_of(v)[4]) == 8 && bool_of(fields_of(v)[3])
}

/// Every element of the pixel array is a byte.
pub open spec fn bitmap_bytes_ok(v: Value) -> bool {
    forall|i: int|
        0 <= i < elems_of(fields_of(v)[6]).len() ==> elems_of(fields_of(v)[6])[i] is Byte
}

/// The pixel bytes of the hint.
pub open spec fn bitmap_data(v: Value) -> Seq<u8> {
    elems_of(fields_of(v)[6]).map_values(|e: Value| byte_of(e))
}

/// The declared geometry is consistent: no negative dimension, and each
/// row at least as wide as its pixels.
pub open spec fn bitmap_geometry_ok(v: Value) -> bool {
    bitmap_width(v) >= 0 && bitmap_height(v) >= 0 && bitmap_stride(v) >= bitmap_width(v) * 4
}

/// The buffer covers every declared row in full.
pub open spec fn bitmap_data_complete(v: Value) -> bool {
    bitmap_data(v).len() >= bitmap_stride(v) * bitmap_height(v)
}

/// Stride removal: row `y` of the output is bytes
/// `[y*stride, y*stride + width*4)` of the input, rows laid out
/// contiguously; the per-row alignment padding never reaches the output.
pub open spec fn packed(data: Seq<u8>, width: int, height: int, stride: int) -> Seq<u8> {
    Seq::new(
        (width * 4 * height) as nat,
        |k: int| data[k / (width * 4) * stride + k % (width * 4)],
    )
}

/// The full outcome of icon extraction on a hint dictionary: no bitmap
/// hint is a silent skip, an unsupported encoding is a silent skip, and
/// each malformation maps to its error; otherwise the packed RGBA8 buffer
/// with its dimensions.
pub open spec fn spec_extract(h: Seq<(String, Value)>) -> Result<
    Option<(int, int, Seq<u8>)>,
    ExtractError,
> {
    match spec_icon_hint(h) {
        None => Ok(None),
        Some(v) => {
            if !bitmap_shape_ok(v) {
                Err(ExtractError::Shape)
            } else if !bitmap_supported(v) {
                Ok(None)
            } else if !bitmap_bytes_ok(v) {
                Err(ExtractError::InvalidByte)
            } else if !bitmap_geometry_ok(v) {
                Err(ExtractError::Shape)
            } else if !bitmap_data_complete(v) {
                Err(ExtractError::Truncated)
            } else {
                Ok(
                    Some(
                        (
                            bitmap_width(v),
                            bitmap_height(v),
                            packed(
                                bitmap_data(v),
                                bitmap_width(v),
                                bitmap_height(v),
                                bitmap_stride(v),
                            ),
                        ),
                    ),
                )
            }
        },
    }
}

/// With no padding (`stride == width*4`) packing is the identity on the
/// pixel prefix of the buffer.
pub proof fn lemma_pack_no_padding(data: Seq<u8>, width: int, height: int)
    requires
        0 <= width,
        0 <= height,
        width * 4 * height <= data.len(),
    ensures
        packed(data, width, height, width * 4) == data.take(width * 4 * height),
{
    let w4 = width * 4;
    let out = packed(data, width, height, w4);
    if width == 0 {
        assert(out =~= data.take(w4 * height));
    } else {
        assert forall|k: int| 0 <= k < w4 * height implies out[k] == data.take(w4 * height)[k] by {
            vstd::arithmetic::div_mod::lemma_fundamental_div_mod(k, w4);
            assert(k == w4 * (k / w4) + k % w4);
            assert(k / w4 * w4 + k % w4 == k) by (nonlinear_arith)
                requires
                    k == w4 * (k / w4) + k % w4,
            ;
        }
        assert(out =~= data.take(w4 * height));
    }
}

/// With padding (`stride > width*4` included) the output holds exactly
/// `width*height*4` bytes, each read from the pixel region of its row:
/// byte `x` of output row `y` is input byte `y*stride + x` with
/// `x < width*4`, so no padding byte ever reaches the output.
pub proof fn lemma_pack_skips_padding(data: Seq<u8>, width: int, height: int, stride: int)
    requires
        0 < width,
        0 <= height,
        width * 4 <= stride,
        stride * height <= data.len(),
    ensures
        packed(data, width, height, stride).len() == width * 4 * height,
        forall|y: int, x: int|
            0 <= y < height && 0 <= x < width * 4 ==> packed(data, width, height, stride)[y * (
            width * 4
            ) + x] == #[trigger] data[y * stride + x],
{
    let w4 = width * 4;
    assert forall|y: int, x: int| 0 <= y < height && 0 <= x < w4 implies packed(
        data,
        width,
        height,
        stride,
    )[y * w4 + x] == #[trigger] data[y * stride + x] by {
        let k = y * w4 + x;
        assert(0 <= k && k + (w4 - x) <= w4 * height) by (nonlinear_arith)
            requires
                0 <= y < height,
                0 <= x < w4,
                0 < w4,
                k == y * w4 + x,
        ;
        vstd::arithmetic::div_mod::lemma_fundamental_div_mod_converse(k, w4, y, x);
        assert(k / w4 == y && k % w4 == x);
    }
}

/// An unsupported encoding is skipped: no buffer, no error.
pub proof fn lemma_unsupported_skipped(h: Seq<(String, Value)>)
    requires
        spec_icon_hint(h) matches Some(v) && bitmap_shape_ok(v) && !bitmap_supported(v),
    ensures
        spec_extract(h) == Ok::<Option<(int, int, Seq<u8>)>, ExtractError>(None),
{
}

/// A buffer shorter than `rowstride * height` is always an error, never a
/// partial result.
pub proof fn lemma_short_buffer_errs(h: Seq<(String, Value)>)
    requires
        spec_icon_hint(h) matches Some(v) && bitmap_shape_ok(v) && bitmap_supported(v)
            && bitmap_data(v).len() < bitmap_stride(v) * bitmap_height(v),
    ensures
        spec_extract(h) is Err,
{
}

fn bytes_of_values(a: &Vec<Value>) -> (r: Result<Vec<u8>, ExtractError>)
    ensures
        r is Ok <==> (forall|i: int| 0 <= i < a@.len() ==> a@[i] is Byte),
        r matches Ok(b) ==> b@ == a@.map_values(|e: Value| byte_of(e)),
        r matches Err(e) ==> e == ExtractError::InvalidByte,
{
    let mut out: Vec<u8> = Vec::new();
    let mut i: usize = 0;
    proof {
        assert(out@ =~= a@.take(0).map_values(|e: Value| byte_of(e)));
    }
    while i < a.len()
        invariant
            i <= a@.len(),
            forall|k: int| 0 <= k < i ==> a@[k] is Byte,
            out@ == a@.take(i as int).map_values(|e: Value| byte_of(e)),
        decreases a@.len() - i,
    {
        match &a[i] {
            Value::Byte(b) => {
                out.push(*b);
            },
            _ => {
                return Err(ExtractError::InvalidByte);
            },
        }
        proof {
            assert(out@ =~= a@.take(i as int + 1).map_values(|e: Value| byte_of(e)));
        }
        i = i + 1;
    }
    proof {
        assert(a@.take(a@.len() as int) =~= a@);
    }
    Ok(out)
}

/// Copies the `width*4` pixel bytes of each of `height` rows, dropping
/// the `stride - width*4` alignment bytes that end every row.
#[verifier::loop_isolation(false)]
pub fn pack_rows(data: &Vec<u8>, width: u32, height: u32, stride: u32) -> (out: Vec<u8>)
    requires
        width * 4 <= stride,
        stride * height <= data@.len(),
    ensures
        out@ == packed(data@, width as int, height as int, stride as int),
{
    let mut out: Vec<u8> = Vec::new();
    if width == 0 || height == 0 {
        proof {
            assert(width * 4 * height == 0) by (nonlinear_arith)
                requires
                    width == 0 || height == 0,
            ;
            assert(out@ =~= packed(data@, width as int, height as int, stride as int));
        }
        return out;
    }
    let dlen: usize = data.len();
    let w4: usize = (width as usize) * 4;
    let strideu: usize = stride as usize;
    let mut y: usize = 0;
    while y < height as usize
        invariant
            0 <= y <= height,
            out@.len() == width * 4 * y,
            forall|k: int|
                0 <= k < out@.len() ==> out@[k] == data@[k / (width * 4) * (stride as int) + k % (
                width * 4
                )],
        decreases height - y,
    {
        proof {
            assert((y + 1) * stride == y * stride + stride) by (nonlinear_arith);
            assert((y + 1) * stride <= height * stride) by (nonlinear_arith)
                requires
                    y + 1 <= height,
                    stride >= 0,
            ;
            assert(height * stride == stride * height) by (nonlinear_arith);
        }
        let base: usize = y * strideu;
        let mut x: usize = 0;
        while x < w4
            invariant
                0 <= x <= w4,
                out@.len() == width * 4 * y + x,
                base == y * stride,
                (y + 1) * stride <= data@.len(),
                forall|k: int|
                    0 <= k < out@.len() ==> out@[k] == data@[k / (width * 4) * (stride as int) + k
                        % (width * 4)],
            decreases w4 - x,
        {
            proof {
                assert((y + 1) * stride == y * stride + stride) by (nonlinear_arith);
                assert(y * stride + x < (y + 1) * stride);
            }
            out.push(data[base + x]);
            proof {
                let k = out@.len() - 1;
                assert((y as int) * (width * 4) == width * 4 * y) by (nonlinear_arith);
                vstd::arithmetic::div_mod::lemma_fundamental_div_mod_converse(
                    k,
                    width * 4,
                    y as int,
                    x as int,
                );
                assert(k / (width * 4) == y as int && k % (width * 4) == x as int);
                assert(out@[k] == data@[k / (width * 4) * (stride as int) + k % (width * 4)]);
            }
            x = x + 1;
        }
        proof {
            assert(width * 4 * y + width * 4 == width * 4 * (y + 1)) by (nonlinear_arith);
        }
        y = y + 1;
    }
    proof {
        assert(out@ =~= packed(data@, width as int, height as int, stride as int));
    }
    out
}

/// Validates the bitmap hint of a hint dictionary and, when one is
/// present, supported and well-formed, returns its dimensions and the
/// packed RGBA8 buffer; exactly the outcome `spec_extract` describes.
pub fn extract_rgba(hints: &Vec<(String, Value)>) -> (r: Result<
    Option<(u32, u32, Vec<u8>)>,
    ExtractError,
>)
    ensures
        ({
            let s = spec_extract(hints@);
            match r {
                Ok(None) => s == Ok::<Option<(int, int, Seq<u8>)>, ExtractError>(None),
                Ok(Some(t)) => (s matches Ok(o) && o matches Some(u) && u.0 == t.0 as int && u.1
                    == t.1 as int && u.2 == t.2@ && t.2@.len() == t.0 as int * 4 * t.1 as int),
                Err(e) => s == Err::<Option<(int, int, Seq<u8>)>, ExtractError>(e),
            }
        }),
{
    let key_dash = String::from_str("image-data");
    let v: &Value = match dict_lookup(hints, &key_dash) {
        Some(v) => v,
        None => {
            let key_under = String::from_str("image_data");
            match dict_lookup(hints, &key_under) {
                Some(v) => v,
                None => {
                    return Ok(None);
                },
            }
        },
    };
    proof {
        assert(spec_icon_hint(hints@) == Some(*v));
    }
    let f: &Vec<Value> = match v {
        Value::Structure(f) => f,
        _ => {
            return Err(ExtractError::Shape);
        },
    };
    if f.len() != 7 {
        return Err(ExtractError::Shape);
    }
    let width: i32 = match &f[0] {
        Value::I32(x) => *x,
        _ => {
            return Err(ExtractError::Shape);
        },
    };
    let height: i32 = match &f[1] {
        Value::I32(x) => *x,
        _ => {
            return Err(ExtractError::Shape);
        },
    };
    let stride: i32 = match &f[2] {
        Value::I32(x) => *x,
        _ => {
            return Err(ExtractError::Shape);
        },
    };
    let has_alpha: bool = match &f[3] {
        Value::Bool(b) => *b,
        _ => {
            return Err(ExtractError::Shape);
        },
    };
    let bits_per_sample: i32 = match &f[4] {
        Value::I32(x) => *x,
        _ => {
            return Err(ExtractError::Shape);
        },
    };
    let channels: i32 = match &f[5] {
        Value::I32(x) => *x,
        _ => {
            return Err(ExtractError::Shape);
        },
    };
    let arr: &Vec<Value> = match &f[6] {
        Value::Array(a) => a,
        _ => {
            return Err(ExtractError::Shape);
        },
    };
    proof {
        assert(bitmap_shape_ok(*v));
        assert(elems_of(fields_of(*v)[6]) == arr@);
    }
    if channels != 4 || bits_per_sample != 8 || !has_alpha {
        return Ok(None);
    }
    let data: Vec<u8> = match bytes_of_values(arr) {
        Ok(b) => b,
        Err(e) => {
            proof {
                assert(!bitmap_bytes_ok(*v));
            }
            return Err(e);
        },
    };
    proof {
        assert(bitmap_bytes_ok(*v));
        assert(data@ == bitmap_data(*v));
    }
    if width < 0 || height < 0 || stride < 0 {
        return Err(ExtractError::Shape);
    }
    if (stride as i64) < (width as i64) * 4 {
        return Err(ExtractError::Shape);
    }
    proof {
        assert(bitmap_geometry_ok(*v));
    }
    proof {
        assert((stride as int) * (height as int) < 0x8000000000000000) by (nonlinear_arith)
            requires
                0 <= stride < 0x80000000,
                0 <= height < 0x80000000,
        ;
    }
    if (data.len() as u64) < (stride as u64) * (height as u64) {
        return Err(ExtractError::Truncated);
    }
    proof {
        assert(bitmap_data_complete(*v));
    }
    let out = pack_rows(&data, width as u32, height as u32, stride as u32);
    Ok(Some((width as u32, height as u32, out)))
}

/// What the PNG encoder produces for a packed RGBA8 buffer of the given
/// dimensions: a pure function of dimensions and pixels.
pub uninterp spec fn png_of(width: nat, height: nat, pixels: Seq<u8>) -> Seq<u8>;

/// Relies on `image::RgbaImage::from_vec` and `ImageBuffer::write_to`
/// with the PNG format: encodes exactly the given `width*height` RGBA8
/// pixels, deterministically in the dimensions and pixel bytes.
#[verifier::external_body]
fn encode_png(width: u32, height: u32, rgba: &Vec<u8>) -> (r: Option<Vec<u8>>)
    requires
        rgba@.len() == width * 4 * height,
    ensures
        r matches Some(b) ==> b@ == png_of(width as nat, height as nat, rgba@),
{
    let img: image::RgbaImage = match image::RgbaImage::from_vec(width, height, rgba.clone()) {
        Some(b) => b,
        None => {
            return None;
        },
    };
    let mut out = std::io::Cursor::new(Vec::new());
    match img.write_to(&mut out, image::ImageFormat::Png) {
        Ok(()) => Some(out.into_inner()),
        Err(_) => None,
    }
}

/// The deterministic file name of an icon produced for the record with
/// the given capture timestamp.
pub open spec fn spec_icon_name(ts: int) -> Seq<char> {
    dec_of(ts) + ".png"@
}

/// Renders the icon file name for a capture timestamp.
pub fn icon_file_name(timestamp: i64) -> (r: String)
    ensures
        r@ == spec_icon_name(timestamp as int),
{
    let mut chars = render_i64(timestamp);
    chars.push('.');
    chars.push('p');
    chars.push('n');
    chars.push('g');
    proof {
        reveal_strlit(".png");
        assert(chars@ =~= dec_of(timestamp as int) + ".png"@);
    }
    chars_to_string(&chars)
}

/// Reconstructs the icon of a hint dictionary as a named PNG: the file
/// name keyed by the capture timestamp, and the encoder's bytes for the
/// packed buffer. Whatever the encoder returns, no file content other
/// than the encoding of the validated, packed buffer is ever produced.
pub fn extract_icon(hints: &Vec<(String, Value)>, timestamp: i64) -> (r: Result<
    Option<(String, Vec<u8>)>,
    ExtractError,
>)
    ensures
        ({
            let s = spec_extract(hints@);
            match r {
                Ok(None) => s == Ok::<Option<(int, int, Seq<u8>)>, ExtractError>(None),
                Ok(Some(t)) => (s matches Ok(o) && o matches Some(u) && t.0@ == spec_icon_name(
                    timestamp as int,
                ) && t.1@ == png_of(u.0 as nat, u.1 as nat, u.2)),
                Err(ExtractError::Encode) => (s matches Ok(o) && o is Some),
                Err(e) => s == Err::<Option<(int, int, Seq<u8>)>, ExtractError>(e),
            }
        }),
{
    let (width, height, buf) = match extract_rgba(hints) {
        Ok(Some(t)) => t,
        Ok(None) => {
            return Ok(None);
        },
        Err(e) => {
            return Err(e);
        },
    };
    let png = match encode_png(width, height, &buf) {
        Some(b) => b,
        None => {
            return Err(ExtractError::Encode);
        },
    };
    let name = icon_file_name(timestamp);
    Ok(Some((name, png)))
}

} // verus!
