use vstd::prelude::*;

use crate::text::{chars_eq_str, chars_of, lowercase_chars, owned};

verus! {

/// Longest edge, in pixels, of an image the background cache holds.
pub const MAX_EDGE: u32 = 7680;

/// Largest source image accepted, in pixels.
pub const MAX_SOURCE_PIXELS: u64 = 100000000;

/// Largest source file accepted: 128 MiB.
pub const MAX_SOURCE_BYTES: u64 = 134217728;

/// Quality of the cached JPEG.
pub const JPEG_QUALITY: u8 = 88;

/// A background image: the original and the copy sized for the screen.
#[derive(Clone, Debug, PartialEq, Eq)]
pub struct BackgroundAsset {
    pub resource_id: String,
    pub file_name: String,
    pub original_path: String,
    pub optimized_path: String,
    pub width: u32,
    pub height: u32,
}

/// A requested edge limited to between 1 and `MAX_EDGE` pixels.
pub open spec fn edge_limit(target: u32) -> u32 {
    if target < 1 {
        1
    } else if target > MAX_EDGE {
        MAX_EDGE
    } else {
        target
    }
}

fn clamp_edge(target: u32) -> (limit: u32)
    ensures
        limit == edge_limit(target),
{
    if target < 1 {
        1
    } else if target > MAX_EDGE {
        MAX_EDGE
    } else {
        target
    }
}

/// The original is used as it is when it fits within the requested size (each edge limited
/// to between 1 and 7680 pixels).
pub open spec fn spec_should_reuse_original(width: u32, height: u32, target_width: u32, target_height: u32) -> bool {
    width <= edge_limit(target_width) && height <= edge_limit(target_height)
}

pub fn should_reuse_original(width: u32, height: u32, target_width: u32, target_height: u32) -> (reuse: bool)
    ensures
        reuse == spec_should_reuse_original(width, height, target_width, target_height),
{
    width <= clamp_edge(target_width) && height <= clamp_edge(target_height)
}

/// A ratio `n / d` with a positive numerator; a zero denominator stands for +infinity.
pub open spec fn ratio_le(a: (nat, nat), b: (nat, nat)) -> bool {
    a.0 * b.1 <= b.0 * a.1
}

pub open spec fn ratio_max(a: (nat, nat), b: (nat, nat)) -> (nat, nat) {
    if ratio_le(a, b) {
        b
    } else {
        a
    }
}

pub open spec fn ratio_min(a: (nat, nat), b: (nat, nat)) -> (nat, nat) {
    if ratio_le(a, b) {
        a
    } else {
        b
    }
}

/// The scale of a cached image: enough to cover the requested size, but never more than
/// `MAX_EDGE` on either edge and never larger than the original.
pub open spec fn scale_ratio(width: u32, height: u32, target_width: u32, target_height: u32) -> (nat, nat) {
    let cover = ratio_max(
        (edge_limit(target_width) as nat, width as nat),
        (edge_limit(target_height) as nat, height as nat),
    );
    let capped = ratio_min(ratio_min(cover, (MAX_EDGE as nat, width as nat)), (MAX_EDGE as nat, height as nat));
    ratio_min(capped, (1, 1))
}

/// `x` times the ratio `r`, rounded to the nearest integer (halves up), and at least 1.
pub open spec fn scaled_edge(x: u32, r: (nat, nat)) -> nat {
    let v: nat = ((2 * x * r.0 + r.1) as nat) / ((2 * r.1) as nat);
    if v < 1 {
        1
    } else {
        v
    }
}

/// Size of the cached copy of a `width` x `height` image for a screen of the target size:
/// the image scaled, keeping its aspect ratio, to cover the target, within the limits above.
pub open spec fn spec_target_dimensions(width: u32, height: u32, target_width: u32, target_height: u32) -> (nat, nat) {
    let r = scale_ratio(width, height, target_width, target_height);
    (scaled_edge(width, r), scaled_edge(height, r))
}

proof fn lemma_ratio_le_transitive(a: (nat, nat), b: (nat, nat), c: (nat, nat))
    requires
        b.0 > 0,
        ratio_le(a, b),
        ratio_le(b, c),
    ensures
        ratio_le(a, c),
{
    if b.1 == 0 {
        assert(b.0 * c.1 == 0) by (nonlinear_arith)
            requires
                b.0 * c.1 <= c.0 * b.1,
                b.1 == 0,
        ;
        assert(c.1 == 0) by (nonlinear_arith)
            requires
                b.0 * c.1 == 0,
                b.0 > 0,
        ;
        assert(a.0 * c.1 == 0) by (nonlinear_arith)
            requires
                c.1 == 0,
        ;
    } else {
        assert(a.0 * c.1 <= c.0 * a.1) by (nonlinear_arith)
            requires
                a.0 * b.1 <= b.0 * a.1,
                b.0 * c.1 <= c.0 * b.1,
                b.1 > 0,
        {
            assert(a.0 * b.1 * c.1 <= b.0 * a.1 * c.1);
            assert(b.0 * c.1 * a.1 <= c.0 * b.1 * a.1);
            assert(a.0 * c.1 * b.1 <= c.0 * a.1 * b.1);
        }
    }
}

fn le(a: (u64, u64), b: (u64, u64)) -> (r: bool)
    requires
        a.0 <= 7680,
        b.0 <= 7680,
        a.1 <= u32::MAX,
        b.1 <= u32::MAX,
    ensures
        r == ratio_le((a.0 as nat, a.1 as nat), (b.0 as nat, b.1 as nat)),
{
    assert(a.0 * b.1 <= 7680 * u32::MAX) by (nonlinear_arith)
        requires
            a.0 <= 7680,
            b.1 <= u32::MAX,
    ;
    assert(b.0 * a.1 <= 7680 * u32::MAX) by (nonlinear_arith)
        requires
            b.0 <= 7680,
            a.1 <= u32::MAX,
    ;
    a.0 * b.1 <= b.0 * a.1
}

proof fn lemma_rounded_edge_bound(x: nat, n: nat, d: nat)
    requires
        d > 0,
        n * x <= 7680 * d,
    ensures
        (2 * x * n + d) / (2 * d) <= 7680,
{
    assert(2 * x * n + d <= 2 * 7680 * d + d) by (nonlinear_arith)
        requires
            n * x <= 7680 * d,
    ;
    assert((2 * 7680 * d + d) / (2 * d) == 7680) by (nonlinear_arith)
        requires
            d > 0,
    ;
    assert((2 * x * n + d) / (2 * d) <= (2 * 7680 * d + d) / (2 * d)) by (nonlinear_arith)
        requires
            d > 0,
            2 * x * n + d <= 2 * 7680 * d + d,
    ;
}

fn round_scaled(x: u32, r: (u64, u64)) -> (v: u32)
    requires
        r.1 > 0,
        r.0 <= 7680,
        r.1 <= u32::MAX,
        x == 0 || r.0 * x <= 7680 * r.1,
    ensures
        v == scaled_edge(x, (r.0 as nat, r.1 as nat)),
{
    let xx = x as u64;
    assert(2 * xx * r.0 + r.1 <= 2 * u32::MAX * 7680 + u32::MAX) by (nonlinear_arith)
        requires
            xx <= u32::MAX,
            r.0 <= 7680,
            r.1 <= u32::MAX,
    ;
    let v = (2 * xx * r.0 + r.1) / (2 * r.1);
    proof {
        if x == 0 {
            assert(2 * xx * r.0 == 0) by (nonlinear_arith)
                requires
                    xx == 0,
            ;
            assert((r.1 as int) / (2 * r.1) == 0) by (nonlinear_arith)
                requires
                    r.1 > 0,
            ;
        } else {
            lemma_rounded_edge_bound(xx as nat, r.0 as nat, r.1 as nat);
        }
    }
    if v < 1 {
        1
    } else {
        v as u32
    }
}

pub fn target_dimensions(width: u32, height: u32, target_width: u32, target_height: u32) -> (dims: (u32, u32))
    ensures
        dims.0 == spec_target_dimensions(width, height, target_width, target_height).0,
        dims.1 == spec_target_dimensions(width, height, target_width, target_height).1,
{
    let lw = clamp_edge(target_width) as u64;
    let lh = clamp_edge(target_height) as u64;
    let w = width as u64;
    let h = height as u64;
    let e = MAX_EDGE as u64;
    let a = (lw, w);
    let b = (lh, h);
    let cover = if le(a, b) {
        b
    } else {
        a
    };
    let c1 = if le(cover, (e, w)) {
        cover
    } else {
        (e, w)
    };
    let c2 = if le(c1, (e, h)) {
        c1
    } else {
        (e, h)
    };
    let r = if le(c2, (1, 1)) {
        c2
    } else {
        (1u64, 1u64)
    };
    proof {
        let rs = scale_ratio(width, height, target_width, target_height);
        assert(rs == (r.0 as nat, r.1 as nat));
        assert(r.0 >= 1);
        if r.1 == 0 {
            assert(r.0 * 1 <= 1 * r.1);
            assert(false);
        }
        let rn = (r.0 as nat, r.1 as nat);
        let c1n = (c1.0 as nat, c1.1 as nat);
        let c2n = (c2.0 as nat, c2.1 as nat);
        assert(ratio_le(rn, c2n));
        assert(ratio_le(c2n, c1n));
        assert(ratio_le(c1n, (e as nat, w as nat)));
        assert(ratio_le(c2n, (e as nat, h as nat)));
        assert(c1.0 > 0 && c2.0 > 0);
        lemma_ratio_le_transitive(rn, c2n, c1n);
        lemma_ratio_le_transitive(rn, c1n, (e as nat, w as nat));
        lemma_ratio_le_transitive(rn, c2n, (e as nat, h as nat));
        assert(ratio_le(rn, (e as nat, w as nat)));
        assert(ratio_le(rn, (e as nat, h as nat)));
        assert(r.0 * w <= e * r.1);
        assert(r.0 * h <= e * r.1);
    }
    (round_scaled(width, r), round_scaled(height, r))
}

/// A cached copy is kept when it is at least as large as the size now wanted.
pub fn cache_covers(actual: (u32, u32), desired: (u32, u32)) -> (covers: bool)
    ensures
        covers == (actual.0 >= desired.0 && actual.1 >= desired.1),
{
    actual.0 >= desired.0 && actual.1 >= desired.1
}

/// A source file must be a regular file of at most 128 MiB.
pub fn check_source_file(is_file: bool, len: u64) -> (result: Result<(), String>)
    ensures
        match result {
            Ok(()) => is_file && len <= MAX_SOURCE_BYTES,
            Err(e) => if !is_file {
                e@ == "Background image does not exist"@
            } else {
                len > MAX_SOURCE_BYTES && e@ == "Background image file cannot exceed 128 MB"@
            },
        },
{
    if !is_file {
        return Err(owned("Background image does not exist"));
    }
    if len > MAX_SOURCE_BYTES {
        return Err(owned("Background image file cannot exceed 128 MB"));
    }
    Ok(())
}

/// A source image must have both edges and at most 100 million pixels.
pub fn check_source_dimensions(width: u32, height: u32) -> (result: Result<(u32, u32), String>)
    ensures
        match result {
            Ok(d) => d == (width, height) && width > 0 && height > 0 && width * height <= MAX_SOURCE_PIXELS,
            Err(e) => !(width > 0 && height > 0 && width * height <= MAX_SOURCE_PIXELS) && e@
                == "Background image pixel count is too large"@,
        },
{
    let w = width as u64;
    let h = height as u64;
    assert(w * h <= u32::MAX * u32::MAX) by (nonlinear_arith)
        requires
            w <= u32::MAX,
            h <= u32::MAX,
    ;
    let pixels = w * h;
    if width == 0 || height == 0 || pixels > MAX_SOURCE_PIXELS {
        return Err(owned("Background image pixel count is too large"));
    }
    Ok((width, height))
}

/// Only PNG, JPEG and WebP files are imported, by their extension in ASCII lower case.
pub open spec fn supported_image_extension(ext: Seq<char>) -> bool {
    let e = crate::text::to_ascii_lowercase(ext);
    e == "png"@ || e == "jpg"@ || e == "jpeg"@ || e == "webp"@
}

/// The lower-case extension of an image that can be imported, or the refusal.
pub fn check_image_extension(extension: &str) -> (result: Result<String, String>)
    ensures
        match result {
            Ok(e) => supported_image_extension(extension@) && e@ == crate::text::to_ascii_lowercase(extension@),
            Err(e) => !supported_image_extension(extension@) && e@
                == "Only PNG, JPG, JPEG and WebP static images are supported"@,
        },
{
    let lower = lowercase_chars(chars_of(extension).as_slice());
    let l = lower.as_slice();
    if chars_eq_str(l, "png") || chars_eq_str(l, "jpg") || chars_eq_str(l, "jpeg") || chars_eq_str(l, "webp") {
        Ok(crate::text::string_of(l))
    } else {
        Err(owned("Only PNG, JPG, JPEG and WebP static images are supported"))
    }
}

} // verus!
