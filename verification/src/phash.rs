//! Perceptual fingerprints of window screenshots.
//!
//! Decoding, resampling and hashing are done by the `image` and
//! `image_hasher` crates behind trusted wrappers.  Every wrapper maps plain
//! pixel bytes to plain values, each result named as a function of its
//! arguments, so the whole fingerprint is pinned as a pure function of the
//! PNG bytes; the downscale decision and its arithmetic are verified here.

use vstd::prelude::*;

verus! {

/// Whether `image::load_from_memory_with_format` decodes these bytes as a
/// PNG image; decoding is a function of the bytes alone.
pub uninterp spec fn spec_png_ok(bytes: Seq<u8>) -> bool;

/// The RGBA pixel bytes, width and height the decoded image converts to;
/// a function of the PNG bytes alone.
pub uninterp spec fn spec_png_rgba(bytes: Seq<u8>) -> (Seq<u8>, u32, u32);

/// The RGBA pixel bytes `image::imageops::resize` (triangle filter)
/// resamples a `width` x `height` image to at `new_w` x `new_h`; a function
/// of its arguments alone.
pub uninterp spec fn spec_resized_rgba(
    pixels: Seq<u8>,
    width: u32,
    height: u32,
    new_w: u32,
    new_h: u32,
) -> Seq<u8>;

/// The base64 text of the `hash_w` x `hash_h` double-gradient hash of a
/// `width` x `height` RGBA image; a function of its arguments alone.
pub uninterp spec fn spec_rgba_phash(
    pixels: Seq<u8>,
    width: u32,
    height: u32,
    hash_w: u32,
    hash_h: u32,
) -> Seq<char>;

/// The strings produced by `image_hasher::ImageHash::to_base64`: unpadded
/// base64 of a non-empty hash, accepted back by `ImageHash::from_base64`.
pub uninterp spec fn spec_phash_enc(s: Seq<char>) -> bool;

/// The Hamming distance `image_hasher::ImageHash::dist` reports between two
/// encoded fingerprints (`u32::MAX` where one of them does not decode); a
/// function of the two strings alone.
pub uninterp spec fn spec_phash_dist(a: Seq<char>, b: Seq<char>) -> u32;

/// Relies on `image::load_from_memory_with_format` and
/// `DynamicImage::to_rgba8`: the bytes decode exactly when they are a PNG
/// image (the format forbids a zero dimension), and the conversion to RGBA
/// pixels is a function of the bytes, four bytes per pixel.
#[verifier::external_body]
fn decode_png_rgba(bytes: &[u8]) -> (r: Option<(Vec<u8>, u32, u32)>)
    ensures
        r is Some <==> spec_png_ok(bytes@),
        r matches Some(t) ==> {
            &&& (t.0@, t.1, t.2) == spec_png_rgba(bytes@)
            &&& t.0@.len() == 4 * (t.1 as int) * (t.2 as int)
            &&& t.1 >= 1
            &&& t.2 >= 1
        },
{
    let img = match image::load_from_memory_with_format(bytes, image::ImageFormat::Png) {
        Ok(img) => img,
        Err(_) => {
            return None;
        },
    };
    let rgba = img.to_rgba8();
    let (width, height) = rgba.dimensions();
    Some((rgba.into_raw(), width, height))
}

/// Relies on `image::imageops::resize` (triangle filter) over an
/// `RgbaImage` rebuilt with `ImageBuffer::from_raw`: resampling is a
/// function of the pixels and dimensions; the result buffer holds four
/// bytes per target pixel.
#[verifier::external_body]
fn resize_rgba(pixels: &Vec<u8>, width: u32, height: u32, new_w: u32, new_h: u32) -> (r: Vec<u8>)
    requires
        pixels@.len() == 4 * (width as int) * (height as int),
        width >= 1,
        height >= 1,
        1 <= new_w <= 256,
        1 <= new_h <= 256,
    ensures
        r@ == spec_resized_rgba(pixels@, width, height, new_w, new_h),
        r@.len() == 4 * (new_w as int) * (new_h as int),
{
    let img = image::RgbaImage::from_raw(width, height, pixels.clone())
        .expect("buffer length matches the dimensions");
    image::imageops::resize(&img, new_w, new_h, image::imageops::FilterType::Triangle).into_raw()
}

/// Relies on `image_hasher::Hasher::hash_image` (double-gradient) and
/// `ImageHash::to_base64` over an `RgbaImage` rebuilt with
/// `ImageBuffer::from_raw`: the hash is a function of the pixels,
/// dimensions and hash size, and its base64 text is a fingerprint
/// encoding.  The size bound keeps `HasherConfig::to_hasher` from its
/// too-large panic.
#[verifier::external_body]
fn hash_rgba_base64(pixels: &Vec<u8>, width: u32, height: u32, hash_w: u32, hash_h: u32) -> (r:
    String)
    requires
        pixels@.len() == 4 * (width as int) * (height as int),
        width >= 1,
        height >= 1,
        1 <= hash_w <= 16,
        1 <= hash_h <= 16,
    ensures
        r@ == spec_rgba_phash(pixels@, width, height, hash_w, hash_h),
        spec_phash_enc(r@),
{
    let img = image::RgbaImage::from_raw(width, height, pixels.clone())
        .expect("buffer length matches the dimensions");
    image_hasher::HasherConfig::new()
        .hash_alg(image_hasher::HashAlg::DoubleGradient)
        .hash_size(hash_w, hash_h)
        .to_hasher()
        .hash_image(&img)
        .to_base64()
}

/// Relies on `image_hasher::ImageHash::from_base64` and `ImageHash::dist`:
/// the distance is a function of the two encodings and symmetric (an XOR
/// population count over zipped bytes); equal valid encodings decode to
/// equal hash bytes, at distance zero; a string that is not a fingerprint
/// encoding fails to decode, reported as `u32::MAX`.
#[verifier::external_body]
pub fn compute_hamming_distance(lhs: &str, rhs: &str) -> (r: u32)
    ensures
        r == spec_phash_dist(lhs@, rhs@),
        r == spec_phash_dist(rhs@, lhs@),
        lhs@ == rhs@ && spec_phash_enc(lhs@) ==> r == 0,
        !spec_phash_enc(lhs@) || !spec_phash_enc(rhs@) ==> r == u32::MAX,
{
    let Ok(h1) = image_hasher::ImageHash::<Vec<u8>>::from_base64(lhs) else {
        return u32::MAX;
    };
    let Ok(h2) = image_hasher::ImageHash::<Vec<u8>>::from_base64(rhs) else {
        return u32::MAX;
    };
    h1.dist(&h2)
}

/// The downscaled dimensions: at most 256 pixels a side, aspect ratio
/// preserved, never zero; images already small enough keep theirs.
pub open spec fn spec_scaled_dims(width: u32, height: u32) -> (u32, u32) {
    if width > 256 || height > 256 {
        let max_dim: u32 = if width >= height {
            width
        } else {
            height
        };
        let scaled_w = (width as int) * 256 / (max_dim as int);
        let scaled_h = (height as int) * 256 / (max_dim as int);
        (
            if scaled_w < 1 {
                1u32
            } else {
                scaled_w as u32
            },
            if scaled_h < 1 {
                1u32
            } else {
                scaled_h as u32
            },
        )
    } else {
        (width, height)
    }
}

/// The fingerprint of a PNG as a pure function of its bytes: decode to
/// RGBA, downscale to at most 256 pixels a side, then the 8x8
/// double-gradient hash, base64-encoded.
pub open spec fn spec_phash_of(bytes: Seq<u8>) -> Seq<char> {
    let decoded = spec_png_rgba(bytes);
    let dims = spec_scaled_dims(decoded.1, decoded.2);
    if decoded.1 > 256 || decoded.2 > 256 {
        spec_rgba_phash(
            spec_resized_rgba(decoded.0, decoded.1, decoded.2, dims.0, dims.1),
            dims.0,
            dims.1,
            8,
            8,
        )
    } else {
        spec_rgba_phash(decoded.0, decoded.1, decoded.2, 8, 8)
    }
}

/// Computes the perceptual fingerprint of a PNG screenshot.  The result is
/// `spec_phash_of` of the bytes: equal screenshots always fingerprint
/// equally.
pub fn compute_phash(png_bytes: &[u8]) -> (r: Option<String>)
    ensures
        r is Some <==> spec_png_ok(png_bytes@),
        r matches Some(enc) ==> enc@ == spec_phash_of(png_bytes@) && spec_phash_enc(enc@),
{
    let (pixels, width, height) = match decode_png_rgba(png_bytes) {
        Some(t) => t,
        None => {
            return None;
        },
    };
    let encoded = if width > 256 || height > 256 {
        let max_dim: u32 = if width >= height {
            width
        } else {
            height
        };
        let scaled_w: u64 = (width as u64) * 256 / (max_dim as u64);
        let scaled_h: u64 = (height as u64) * 256 / (max_dim as u64);
        assert(scaled_w <= 256 && scaled_h <= 256) by (nonlinear_arith)
            requires
                max_dim >= 1,
                width <= max_dim,
                height <= max_dim,
                scaled_w == (width as int) * 256 / (max_dim as int),
                scaled_h == (height as int) * 256 / (max_dim as int),
        ;
        let new_w: u32 = if scaled_w < 1 {
            1
        } else {
            scaled_w as u32
        };
        let new_h: u32 = if scaled_h < 1 {
            1
        } else {
            scaled_h as u32
        };
        proof {
            assert((new_w, new_h) == spec_scaled_dims(width, height));
        }
        let small = resize_rgba(&pixels, width, height, new_w, new_h);
        hash_rgba_base64(&small, new_w, new_h, 8, 8)
    } else {
        hash_rgba_base64(&pixels, width, height, 8, 8)
    };
    Some(encoded)
}

} // verus!
