//! Pixel dimensions for a rendered page.
//!
//! A page's physical size is given in thousandths of a typographic point
//! (72 points to the inch). Rendering at a DPI setting scales a dimension
//! by `dpi / 72` and truncates toward zero, so a dimension of `m`
//! millipoints maps to `m * dpi / 72000` whole pixels.

use vstd::prelude::*;

verus! {

use vstd::arithmetic::div_mod::lemma_fundamental_div_mod;
use vstd::arithmetic::div_mod::lemma_mod_division_less_than_divisor;

/// Largest physical page dimension accepted, in millipoints
/// (about 2.1 million points, far beyond any real page).
pub const MAX_PAGE_MILLIPOINTS: u64 = 0x7fff_ffff;

/// Largest DPI setting accepted.
pub const MAX_DPI: u32 = 1_000_000;

/// The pixel count a dimension of `millipoints` maps to at `dpi`:
/// `millipoints * dpi / 72000`, truncated toward zero.
pub open spec fn spec_pixels(millipoints: int, dpi: int) -> int {
    millipoints * dpi / 72000
}

/// Target pixel dimensions for a page of the given physical size at `dpi`.
/// Truncation toward zero may yield a zero dimension for a degenerate
/// page; that is the caller's concern, not an error here.
pub fn compute_pixels(width_millipoints: u64, height_millipoints: u64, dpi: u32) -> (r: (i64, i64))
    requires
        width_millipoints <= MAX_PAGE_MILLIPOINTS,
        height_millipoints <= MAX_PAGE_MILLIPOINTS,
        dpi <= MAX_DPI,
    ensures
        r.0 == spec_pixels(width_millipoints as int, dpi as int),
        r.1 == spec_pixels(height_millipoints as int, dpi as int),
{
    proof {
        assert((MAX_PAGE_MILLIPOINTS as int) * (MAX_DPI as int) < 0x8000_0000_0000_0000)
            by (nonlinear_arith);
        assert(width_millipoints * dpi <= (MAX_PAGE_MILLIPOINTS as int) * (MAX_DPI as int))
            by (nonlinear_arith)
            requires
                width_millipoints <= MAX_PAGE_MILLIPOINTS,
                dpi <= MAX_DPI,
        ;
        assert(height_millipoints * dpi <= (MAX_PAGE_MILLIPOINTS as int) * (MAX_DPI as int))
            by (nonlinear_arith)
            requires
                height_millipoints <= MAX_PAGE_MILLIPOINTS,
                dpi <= MAX_DPI,
        ;
    }
    let w: u64 = width_millipoints * (dpi as u64) / 72000;
    let h: u64 = height_millipoints * (dpi as u64) / 72000;
    (w as i64, h as i64)
}

/// At the reference resolution of 72 DPI the scale factor is one: a
/// dimension maps to its whole-point size, the millipoint value
/// truncated to points.
pub proof fn lemma_dpi_72_is_point_size(millipoints: int)
    requires
        millipoints >= 0,
    ensures
        spec_pixels(millipoints, 72) == millipoints / 1000,
{
    let q = millipoints / 1000;
    let r = millipoints % 1000;
    lemma_fundamental_div_mod(millipoints, 1000);
    lemma_mod_division_less_than_divisor(millipoints, 1000);
    assert(millipoints == 1000 * q + r && 0 <= r < 1000);
    assert(millipoints * 72 == 72000 * q + 72 * r) by (nonlinear_arith)
        requires
            millipoints == 1000 * q + r,
    ;
    assert((72000 * q + 72 * r) / 72000 == q) by (nonlinear_arith)
        requires
            0 <= r < 1000,
            q >= 0,
    ;
}

/// Doubling the DPI from 72 to 144 doubles each pixel dimension, for a
/// page whose physical size is a whole number of points.
pub proof fn lemma_dpi_144_doubles(millipoints: int)
    requires
        millipoints >= 0,
        millipoints % 1000 == 0,
    ensures
        spec_pixels(millipoints, 144) == 2 * spec_pixels(millipoints, 72),
{
    let k = millipoints / 1000;
    lemma_fundamental_div_mod(millipoints, 1000);
    assert(millipoints == 1000 * k);
    assert(1000 * k * 144 / 72000 == 2 * k) by (nonlinear_arith)
        requires
            k >= 0,
    ;
    assert(1000 * k * 72 / 72000 == k) by (nonlinear_arith)
        requires
            k >= 0,
    ;
}

} // verus!
