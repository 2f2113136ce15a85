//! Device-pixel snapping at a rational output scale.
//!
//! An output scale is kept exactly as a positive fraction `num / den`.
//! Every logical coordinate in this crate is an integer count of *units* of
//! `1 / num` logical size, so a logical value `v` is `v * num` units, and the
//! device-pixel grid (spacing `1 / scale = den / num` logical) falls on the
//! unit counts that are multiples of `den`.  Snapping a value up to the next
//! device-pixel boundary, `ceil(v * scale) / scale`, is then plain integer
//! arithmetic on unit counts: round up to the next multiple of `den`.

use vstd::prelude::*;

verus! {

/// Largest admitted numerator or denominator of a [`Scale`].
pub const SCALE_LIMIT: u32 = 0x10000;

/// Largest unit count accepted by [`snap_up`]; generous enough for every
/// value this crate snaps (small visual constants and corner radii, scaled).
pub const SNAP_LIMIT: u64 = 0x40_0000_0000;

/// An output scale factor, stored exactly as the fraction `num / den`.
#[derive(Clone, Copy, Debug, PartialEq, Eq, Structural)]
pub struct Scale {
    /// Numerator; also the number of units per logical pixel.
    pub num: u32,
    /// Denominator; a unit count is on the device-pixel grid exactly when it
    /// is a multiple of `den`.
    pub den: u32,
}

impl Scale {
    /// Both parts positive, and small enough that unit arithmetic on
    /// bounded surface coordinates stays far from `i64` overflow.
    pub open spec fn valid(self) -> bool {
        1 <= self.num <= SCALE_LIMIT && 1 <= self.den <= SCALE_LIMIT
    }

    /// A scale of exactly `num / den`.
    pub fn new(num: u32, den: u32) -> (r: Scale)
        ensures
            r.num == num,
            r.den == den,
    {
        Scale { num, den }
    }
}

/// `ceil(a / b)` for `a >= 0`, `b >= 1`.
pub open spec fn ceil_div(a: int, b: int) -> int
    recommends
        a >= 0,
        b >= 1,
{
    (a + b - 1) / b
}

/// The snap of a logical value held as `u` units of `1 / num`, at a scale
/// whose device-pixel grid has spacing `den` units: the least multiple of
/// `den` that is at least `u`.  This is `ceil(v * scale) / scale` expressed
/// on unit counts.
pub open spec fn snap_units(u: int, den: int) -> int
    recommends
        u >= 0,
        den >= 1,
{
    ceil_div(u, den) * den
}

/// Rounds the unit count `u` up to the next device-pixel boundary, i.e. to
/// the next multiple of `den`.
pub fn snap_up(u: u64, den: u64) -> (r: u64)
    requires
        1 <= den <= SCALE_LIMIT,
        u <= SNAP_LIMIT,
    ensures
        r == snap_units(u as int, den as int),
        u <= r <= SNAP_LIMIT + SCALE_LIMIT,
    {
        proof {
            lemma_snap_bounds(u as int, den as int);
        }
        ((u + den - 1) / den) * den
    }

/// Basic facts about a snapped value: it never moves a value down, moves it
/// up by less than one device pixel, and lands exactly on the device-pixel
/// grid (its unit count is a multiple of `den`, so multiplying the snapped
/// logical value by the scale gives an integer).
pub proof fn lemma_snap_bounds(u: int, den: int)
    requires
        u >= 0,
        den >= 1,
    ensures
        u <= snap_units(u, den) < u + den,
        snap_units(u, den) % den == 0,
{
    let q = (u + den - 1) / den;
    let r = (u + den - 1) % den;
    vstd::arithmetic::div_mod::lemma_fundamental_div_mod(u + den - 1, den);
    vstd::arithmetic::div_mod::lemma_mod_bound(u + den - 1, den);
    assert(u + den - 1 == den * q + r);
    assert(snap_units(u, den) == q * den);
    assert(q * den == u + den - 1 - r);
    vstd::arithmetic::div_mod::lemma_mod_multiples_basic(q, den);
}

/// Snapping an already snapped value changes nothing: the snap operation is
/// idempotent for every unit count `u >= 0` and every grid spacing `den >= 1`.
pub proof fn lemma_snap_idempotent(u: int, den: int)
    requires
        u >= 0,
        den >= 1,
    ensures
        snap_units(snap_units(u, den), den) == snap_units(u, den),
{
    let q = (u + den - 1) / den;
    lemma_snap_bounds(u, den);
    assert(snap_units(u, den) == q * den);
    lemma_mul_div_exact(q, den);
    assert((q * den + den - 1) / den == q) by {
        vstd::arithmetic::div_mod::lemma_fundamental_div_mod(q * den + den - 1, den);
        vstd::arithmetic::div_mod::lemma_fundamental_div_mod_converse(
            q * den + den - 1,
            den,
            q,
            den - 1,
        );
    }
}

/// A snapped value, multiplied by the scale, is exactly an integer: the
/// device-pixel alignment guarantee.  In unit form, `snap_units(u, den)` is
/// `den` times the device-pixel index the value landed on.
pub proof fn lemma_snap_alignment(u: int, den: int)
    requires
        u >= 0,
        den >= 1,
    ensures
        snap_units(u, den) == den * (snap_units(u, den) / den),
        snap_units(u, den) % den == 0,
{
    lemma_snap_bounds(u, den);
    vstd::arithmetic::div_mod::lemma_fundamental_div_mod(snap_units(u, den), den);
}

/// `(q * den) / den == q` for `den >= 1`.
proof fn lemma_mul_div_exact(q: int, den: int)
    requires
        den >= 1,
    ensures
        (q * den) / den == q,
{
    vstd::arithmetic::div_mod::lemma_fundamental_div_mod_converse(q * den, den, q, 0);
}

} // verus!
