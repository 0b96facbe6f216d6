use vstd::prelude::*;

verus! {

/// A colour with 8-bit channels.
#[derive(Clone, Copy, Debug, PartialEq, Eq)]
pub struct Rgba {
    pub r: u8,
    pub g: u8,
    pub b: u8,
    pub a: u8,
}

/// Channel `v` scaled by `per_mille / 1000`, rounded down and capped at 255.
pub open spec fn shaded(v: u8, per_mille: u32) -> u8 {
    let x = (v as int * per_mille as int) / 1000;
    if x > 255 {
        255
    } else {
        x as u8
    }
}

fn shade_channel(v: u8, per_mille: u32) -> (r: u8)
    ensures
        r == shaded(v, per_mille),
{
    assert((v as u64) * (per_mille as u64) <= 255 * 0xffff_ffff) by (nonlinear_arith)
        requires
            v <= 255,
            per_mille <= 0xffff_ffff,
    ;
    let x: u64 = (v as u64) * (per_mille as u64) / 1000;
    if x > 255 {
        255
    } else {
        x as u8
    }
}

/// `c` with its colour channels scaled by `per_mille / 1000` (capped at 255)
/// and its alpha kept.
pub fn shade(c: Rgba, per_mille: u32) -> (r: Rgba)
    ensures
        r.r == shaded(c.r, per_mille),
        r.g == shaded(c.g, per_mille),
        r.b == shaded(c.b, per_mille),
        r.a == c.a,
{
    Rgba {
        r: shade_channel(c.r, per_mille),
        g: shade_channel(c.g, per_mille),
        b: shade_channel(c.b, per_mille),
        a: c.a,
    }
}

} // verus!
