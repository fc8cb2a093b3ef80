//! Video geometry: fitting a source frame inside an H.264 boundary
//! (KeepAspect) or covering the boundary with an aligned crop (Cover).

use vstd::prelude::*;
use crate::error::{Error, Result};
use crate::text::{concat, decimal};

verus! {

broadcast use vstd::arithmetic::div_mod::lemma_div_pos_is_pos;

#[derive(Debug, Clone, Copy, PartialEq, Eq, Structural)]
pub struct Dimensions {
    pub width: u32,
    pub height: u32,
}

#[derive(Debug, Clone, Copy, PartialEq, Eq, Structural)]
pub enum CropMode {
    Cover,
    KeepAspect,
}

/// Where a crop window sits along each axis, in percent of the slack.
#[derive(Debug, Clone, Copy, PartialEq, Eq, Structural)]
pub struct Alignment {
    pub x: u8,
    pub y: u8,
}

#[derive(Debug, Clone, Copy, PartialEq, Eq, Structural)]
pub struct CropRect {
    pub x: u32,
    pub y: u32,
    pub width: u32,
    pub height: u32,
}

#[derive(Debug, Clone, Copy, PartialEq, Eq, Structural)]
pub struct ResolvedVideoGeometry {
    pub output: Dimensions,
    pub crop: Option<CropRect>,
}

pub open spec fn dims_ok(width: int, height: int) -> bool {
    width > 0 && height > 0
}

pub open spec fn h264_ok(width: int, height: int) -> bool {
    dims_ok(width, height) && width % 2 == 0 && height % 2 == 0
}

pub open spec fn alignment_ok(x: int, y: int) -> bool {
    x <= 100 && y <= 100
}

pub open spec fn even_floor_of(v: int) -> int {
    v - v % 2
}

/// KeepAspect: the boundary side that binds is kept, the other side is
/// scaled down and rounded to even; `None` where that side rounds to zero.
pub open spec fn spec_fit_inside(s: Dimensions, b: Dimensions) -> Option<Dimensions> {
    if s.width * b.height >= s.height * b.width {
        let h = even_floor_of(s.height * b.width / s.width as int);
        if h == 0 {
            None
        } else {
            Some(Dimensions { width: b.width, height: h as u32 })
        }
    } else {
        let w = even_floor_of(s.width * b.height / s.height as int);
        if w == 0 {
            None
        } else {
            Some(Dimensions { width: w as u32, height: b.height })
        }
    }
}

/// Offset of a crop window inside `remaining` slack at `alignment` percent.
pub open spec fn spec_aligned_offset(remaining: int, alignment: int) -> int {
    remaining * alignment / 100
}

/// Cover: the crop of the source whose aspect matches the boundary, or no
/// crop where the aspects already agree; `None` where the crop is empty.
pub open spec fn spec_cover(s: Dimensions, b: Dimensions, a: Alignment) -> Option<Option<CropRect>> {
    let sc = s.width * b.height;
    let bc = s.height * b.width;
    if sc == bc {
        Some(None)
    } else if sc > bc {
        let w = s.height * b.width / b.height as int;
        if w == 0 || w > s.width {
            None
        } else {
            Some(Some(CropRect {
                x: spec_aligned_offset(s.width - w, a.x as int) as u32,
                y: 0,
                width: w as u32,
                height: s.height,
            }))
        }
    } else {
        let h = s.width * b.height / b.width as int;
        if h == 0 || h > s.height {
            None
        } else {
            Some(Some(CropRect {
                x: 0,
                y: spec_aligned_offset(s.height - h, a.y as int) as u32,
                width: s.width,
                height: h as u32,
            }))
        }
    }
}

/// The geometry for a source, a boundary, a crop mode and an alignment;
/// `None` where the inputs are refused or the result is degenerate.
pub open spec fn spec_resolve(s: Dimensions, b: Dimensions, mode: CropMode, a: Alignment) -> Option<ResolvedVideoGeometry> {
    if !dims_ok(s.width as int, s.height as int) || !h264_ok(b.width as int, b.height as int)
        || !alignment_ok(a.x as int, a.y as int) {
        None
    } else {
        match mode {
            CropMode::KeepAspect => match spec_fit_inside(s, b) {
                Some(o) => Some(ResolvedVideoGeometry { output: o, crop: None }),
                None => None,
            },
            CropMode::Cover => match spec_cover(s, b, a) {
                Some(c) => Some(ResolvedVideoGeometry { output: b, crop: c }),
                None => None,
            },
        }
    }
}

fn invalid_arguments(reason: String) -> (e: Error)
    ensures
        e == (Error::InvalidArguments { reason }),
{
    Error::InvalidArguments { reason }
}

fn invalid_arguments_text(reason: &str) -> (e: Error)
    ensures
        e == (Error::InvalidArguments { reason: e->InvalidArguments_reason }),
        e->InvalidArguments_reason@ == reason@,
{
    Error::InvalidArguments { reason: reason.to_owned() }
}

/// `{width}x{height}`.
fn dims_text(width: u32, height: u32) -> (s: String)
    ensures
        s@ == crate::text::spec_decimal(width as nat) + "x"@ + crate::text::spec_decimal(height as nat),
{
    let w = decimal(width as u64);
    let h = decimal(height as u64);
    let wx = concat(w.as_str(), "x");
    concat(wx.as_str(), h.as_str())
}

impl Dimensions {
    pub fn new(width: u32, height: u32) -> (r: Result<Dimensions>)
        ensures
            r is Ok <==> dims_ok(width as int, height as int),
            r matches Ok(d) ==> d == (Dimensions { width, height }),
            r matches Err(e) ==> e is InvalidArguments,
    {
        if width == 0 || height == 0 {
            let t = dims_text(width, height);
            return Err(invalid_arguments(concat("dimensions must be positive, got ", t.as_str())));
        }
        Ok(Dimensions { width, height })
    }

    /// Dimensions an H.264 stream can have: positive and even. The error
    /// names the even neighbours of an odd size.
    pub fn new_h264(width: u32, height: u32) -> (r: Result<Dimensions>)
        ensures
            r is Ok <==> h264_ok(width as int, height as int),
            r matches Ok(d) ==> d == (Dimensions { width, height }),
            r matches Err(e) ==> e is InvalidArguments,
    {
        let dimensions = Dimensions::new(width, height)?;
        if width % 2 != 0 || height % 2 != 0 {
            let down = dims_text(width - width % 2, height - height % 2);
            let up_w = match width.checked_add(width % 2) {
                Some(v) => v,
                None => width - 1,
            };
            let up_h = match height.checked_add(height % 2) {
                Some(v) => v,
                None => height - 1,
            };
            let up = dims_text(up_w, up_h);
            let given = dims_text(width, height);
            let m1 = concat("H.264 dimensions must be even, got ", given.as_str());
            let m2 = concat(m1.as_str(), "; valid neighbors are ");
            let m3 = concat(m2.as_str(), down.as_str());
            let m4 = concat(m3.as_str(), " and ");
            let m5 = concat(m4.as_str(), up.as_str());
            return Err(invalid_arguments(m5));
        }
        Ok(dimensions)
    }
}

impl Alignment {
    pub fn new(x: u8, y: u8) -> (r: Result<Alignment>)
        ensures
            r is Ok <==> alignment_ok(x as int, y as int),
            r matches Ok(a) ==> a == (Alignment { x, y }),
            r matches Err(e) ==> e is InvalidArguments,
    {
        if x > 100 || y > 100 {
            let xs = decimal(x as u64);
            let ys = decimal(y as u64);
            let m1 = concat("alignment must be between 0 and 100, got ", xs.as_str());
            let m2 = concat(m1.as_str(), ",");
            return Err(invalid_arguments(concat(m2.as_str(), ys.as_str())));
        }
        Ok(Alignment { x, y })
    }

    /// The centred alignment, 50 % on both axes.
    pub fn center() -> (a: Alignment)
        ensures
            a == (Alignment { x: 50, y: 50 }),
    {
        Alignment { x: 50, y: 50 }
    }
}

proof fn lemma_product_fits(a: u32, b: u32)
    ensures
        0 <= a * b <= u64::MAX,
{
    vstd::arithmetic::mul::lemma_mul_upper_bound(a as int, u32::MAX as int, b as int, u32::MAX as int);
    assert(u32::MAX as int * u32::MAX as int <= u64::MAX) by (nonlinear_arith);
    vstd::arithmetic::mul::lemma_mul_nonnegative(a as int, b as int);
}

fn checked_product(left: u32, right: u32) -> (r: Result<u64>)
    ensures
        r matches Ok(v) && v == left * right,
{
    proof {
        lemma_product_fits(left, right);
    }
    match (left as u64).checked_mul(right as u64) {
        Some(v) => Ok(v),
        None => Err(invalid_arguments_text("dimension arithmetic overflow")),
    }
}

fn checked_scale(value: u32, numerator: u32, denominator: u32) -> (r: Result<u32>)
    requires
        denominator > 0,
    ensures
        r is Ok <==> value * numerator / denominator as int <= u32::MAX,
        r matches Ok(v) ==> v == value * numerator / denominator as int,
        r matches Err(e) ==> e is InvalidArguments,
{
    let product = checked_product(value, numerator)?;
    let scaled = product / (denominator as u64);
    if scaled > u32::MAX as u64 {
        Err(invalid_arguments_text("scaled dimension exceeds u32"))
    } else {
        Ok(scaled as u32)
    }
}

fn even_floor(value: u32) -> (r: Result<u32>)
    ensures
        r is Ok <==> even_floor_of(value as int) != 0,
        r matches Ok(v) ==> v == even_floor_of(value as int),
        r matches Err(e) ==> e is InvalidArguments,
{
    let even = value - value % 2;
    if even == 0 {
        Err(invalid_arguments_text("scaled H.264 dimension would be smaller than 2 pixels"))
    } else {
        Ok(even)
    }
}

fn aligned_offset(remaining: u32, alignment: u8) -> (r: Result<u32>)
    requires
        alignment <= 100,
    ensures
        r matches Ok(v) && v == spec_aligned_offset(remaining as int, alignment as int),
{
    proof {
        vstd::arithmetic::mul::lemma_mul_inequality(alignment as int, 100, remaining as int);
        vstd::arithmetic::mul::lemma_mul_is_commutative(alignment as int, remaining as int);
        vstd::arithmetic::div_mod::lemma_multiply_divide_le(remaining * alignment, 100, remaining as int);
    }
    checked_scale(remaining, alignment as u32, 100)
}

proof fn lemma_scaled_below(a: int, b: int, c: int, d: int)
    requires
        a > 0,
        b >= 0,
        c >= 0,
        d > 0,
        b * c <= d * a,
    ensures
        0 <= b * c / a <= d,
{
    vstd::arithmetic::mul::lemma_mul_nonnegative(b, c);
    vstd::arithmetic::div_mod::lemma_multiply_divide_le(b * c, a, d);
    vstd::arithmetic::mul::lemma_mul_is_commutative(a, d);
}

fn fit_inside(source: Dimensions, boundary: Dimensions) -> (r: Result<ResolvedVideoGeometry>)
    requires
        dims_ok(source.width as int, source.height as int),
        h264_ok(boundary.width as int, boundary.height as int),
    ensures
        r is Ok <==> spec_fit_inside(source, boundary) is Some,
        r matches Ok(g) ==> g == (ResolvedVideoGeometry { output: spec_fit_inside(source, boundary)->0, crop: None }),
        r matches Err(e) ==> e is InvalidArguments,
{
    let source_cross = checked_product(source.width, boundary.height)?;
    let boundary_cross = checked_product(source.height, boundary.width)?;
    let (width, height) = if source_cross >= boundary_cross {
        proof {
            vstd::arithmetic::mul::lemma_mul_is_commutative(source.width as int, boundary.height as int);
            lemma_scaled_below(source.width as int, source.height as int, boundary.width as int, boundary.height as int);
        }
        let scaled = checked_scale(source.height, boundary.width, source.width)?;
        (boundary.width, even_floor(scaled)?)
    } else {
        proof {
            vstd::arithmetic::mul::lemma_mul_is_commutative(source.width as int, boundary.height as int);
            vstd::arithmetic::mul::lemma_mul_is_commutative(source.height as int, boundary.width as int);
            vstd::arithmetic::mul::lemma_mul_is_commutative(boundary.width as int, source.height as int);
            lemma_scaled_below(source.height as int, source.width as int, boundary.height as int, boundary.width as int);
        }
        let scaled = checked_scale(source.width, boundary.height, source.height)?;
        (even_floor(scaled)?, boundary.height)
    };
    Ok(ResolvedVideoGeometry { output: Dimensions::new_h264(width, height)?, crop: None })
}

fn cover(source: Dimensions, boundary: Dimensions, alignment: Alignment) -> (r: Result<ResolvedVideoGeometry>)
    requires
        dims_ok(source.width as int, source.height as int),
        h264_ok(boundary.width as int, boundary.height as int),
        alignment_ok(alignment.x as int, alignment.y as int),
    ensures
        r is Ok <==> spec_cover(source, boundary, alignment) is Some,
        r matches Ok(g) ==> g == (ResolvedVideoGeometry { output: boundary, crop: spec_cover(source, boundary, alignment)->0 }),
        r matches Err(e) ==> e is InvalidArguments,
{
    let source_cross = checked_product(source.width, boundary.height)?;
    let boundary_cross = checked_product(source.height, boundary.width)?;
    let crop = if source_cross == boundary_cross {
        None
    } else if source_cross > boundary_cross {
        proof {
            vstd::arithmetic::mul::lemma_mul_is_commutative(source.width as int, boundary.height as int);
            lemma_scaled_below(boundary.height as int, source.height as int, boundary.width as int, source.width as int);
        }
        let width = checked_scale(source.height, boundary.width, boundary.height)?;
        if width == 0 || width > source.width {
            return Err(invalid_arguments_text("cannot compute a valid horizontal crop"));
        }
        let remaining = source.width - width;
        Some(CropRect { x: aligned_offset(remaining, alignment.x)?, y: 0, width, height: source.height })
    } else {
        proof {
            vstd::arithmetic::mul::lemma_mul_is_commutative(source.height as int, boundary.width as int);
            lemma_scaled_below(boundary.width as int, source.width as int, boundary.height as int, source.height as int);
        }
        let height = checked_scale(source.width, boundary.height, boundary.width)?;
        if height == 0 || height > source.height {
            return Err(invalid_arguments_text("cannot compute a valid vertical crop"));
        }
        let remaining = source.height - height;
        Some(CropRect { x: 0, y: aligned_offset(remaining, alignment.y)?, width: source.width, height })
    };
    Ok(ResolvedVideoGeometry { output: boundary, crop })
}

/// Output size and crop for a video: the source must be positive, the
/// boundary positive and even, the alignment at most 100 on each axis.
pub fn resolve_video_geometry(
    source: Dimensions,
    boundary: Dimensions,
    crop_mode: CropMode,
    alignment: Alignment,
) -> (r: Result<ResolvedVideoGeometry>)
    ensures
        r is Ok <==> spec_resolve(source, boundary, crop_mode, alignment) is Some,
        r matches Ok(g) ==> g == spec_resolve(source, boundary, crop_mode, alignment)->0,
        r matches Err(e) ==> e is InvalidArguments,
{
    let source = Dimensions::new(source.width, source.height)?;
    let boundary = Dimensions::new_h264(boundary.width, boundary.height)?;
    let alignment = Alignment::new(alignment.x, alignment.y)?;
    match crop_mode {
        CropMode::KeepAspect => fit_inside(source, boundary),
        CropMode::Cover => cover(source, boundary, alignment),
    }
}

/// Every resolved geometry can be encoded as H.264: the output is positive
/// and even on both sides and fits inside the boundary (KeepAspect) or is
/// the boundary (Cover); a crop window is non-empty and lies inside the
/// source frame.
pub proof fn lemma_resolved_geometry_is_encodable(s: Dimensions, b: Dimensions, mode: CropMode, a: Alignment)
    ensures
        spec_resolve(s, b, mode, a) matches Some(g) ==> {
            &&& h264_ok(g.output.width as int, g.output.height as int)
            &&& g.output.width <= b.width
            &&& g.output.height <= b.height
            &&& (mode == CropMode::Cover ==> g.output == b)
            &&& (g.crop matches Some(c) ==> {
                &&& c.width > 0
                &&& c.height > 0
                &&& c.x + c.width <= s.width
                &&& c.y + c.height <= s.height
            })
        },
{
    if let Some(g) = spec_resolve(s, b, mode, a) {
        let sw = s.width as int;
        let sh = s.height as int;
        let bw = b.width as int;
        let bh = b.height as int;
        match mode {
            CropMode::KeepAspect => {
                if sw * bh >= sh * bw {
                    let q = sh * bw / sw;
                    assert(0 <= q <= bh) by (nonlinear_arith)
                        requires sw > 0, sh > 0, bw > 0, bh > 0, sw * bh >= sh * bw, q == sh * bw / sw;
                } else {
                    let q = sw * bh / sh;
                    assert(0 <= q <= bw) by (nonlinear_arith)
                        requires sw > 0, sh > 0, bw > 0, bh > 0, sw * bh < sh * bw, q == sw * bh / sh;
                }
            },
            CropMode::Cover => {
                let sc = sw * bh;
                let bc = sh * bw;
                if sc > bc {
                    let w = sh * bw / bh;
                    let r = sw - w;
                    let ax = a.x as int;
                    assert(0 <= r * ax / 100 <= r) by (nonlinear_arith)
                        requires r >= 0, 0 <= ax <= 100;
                } else if sc < bc {
                    let h = sw * bh / bw;
                    let r = sh - h;
                    let ay = a.y as int;
                    assert(0 <= r * ay / 100 <= r) by (nonlinear_arith)
                        requires r >= 0, 0 <= ay <= 100;
                }
            },
        }
    }
}

} // verus!
