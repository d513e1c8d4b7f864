//! Straight segments on the voxel lattice: the sample points a
//! line-of-sight ray visits between two voxel coordinates.

use vstd::prelude::*;
use vstd::arithmetic::div_mod::{
    lemma_basic_div, lemma_div_is_ordered, lemma_div_nonincreasing,
    lemma_fundamental_div_mod, lemma_fundamental_div_mod_converse,
};
use crate::math::ivec3;
use crate::world::World;

verus! {

pub open spec fn iabs(v: int) -> int {
    if v < 0 { -v } else { v }
}

pub open spec fn imax(a: int, b: int) -> int {
    if a < b { b } else { a }
}

/// `p / n` rounded to the nearest integer, halves rounding up.
pub open spec fn rdiv(p: int, n: int) -> int {
    (2 * p + n) / (2 * n)
}

/// Number of unit steps a segment from `a` to `b` takes: the largest
/// per-axis distance. The segment visits `seg_n + 1` sample points.
pub open spec fn seg_n(a: ivec3, b: ivec3) -> int {
    imax(iabs(b.x - a.x), imax(iabs(b.y - a.y), iabs(b.z - a.z)))
}

/// One coordinate of sample point `i`: the start coordinate plus the
/// rounded share `d * i / n` of the full delta `d`. A zero-length
/// segment stays at its start.
pub open spec fn seg_coord(a0: int, d: int, i: int, n: int) -> int {
    if n <= 0 {
        a0
    } else {
        a0 + rdiv(d * i, n)
    }
}

pub open spec fn seg_x(a: ivec3, b: ivec3, i: int) -> int {
    seg_coord(a.x as int, b.x - a.x, i, seg_n(a, b))
}

pub open spec fn seg_y(a: ivec3, b: ivec3, i: int) -> int {
    seg_coord(a.y as int, b.y - a.y, i, seg_n(a, b))
}

pub open spec fn seg_z(a: ivec3, b: ivec3, i: int) -> int {
    seg_coord(a.z as int, b.z - a.z, i, seg_n(a, b))
}

/// Whether sample point `i` of the segment from `a` to `b` holds a
/// solid voxel of `w`.
pub open spec fn solid_on_seg(w: World, a: ivec3, b: ivec3, i: int) -> bool {
    w.solid_at(seg_x(a, b, i), seg_y(a, b, i), seg_z(a, b, i))
}

/// The rounded share of the delta stays between 0 and the delta.
pub proof fn lemma_rdiv_range(d: int, i: int, n: int)
    requires
        1 <= n,
        0 <= i <= n,
    ensures
        d >= 0 ==> 0 <= rdiv(d * i, n) <= d,
        d < 0 ==> d <= rdiv(d * i, n) <= 0,
{
    let p = d * i;
    let num = 2 * p + n;
    let den = 2 * n;
    if d >= 0 {
        assert(0 <= p && p <= d * n) by (nonlinear_arith)
            requires d >= 0, 0 <= i <= n, p == d * i;
        lemma_basic_div(n, den);
        lemma_div_is_ordered(n, num, den);
        assert(num <= d * den + n) by (nonlinear_arith)
            requires p <= d * n, num == 2 * p + n, den == 2 * n;
        lemma_fundamental_div_mod_converse(d * den + n, den, d, n);
        lemma_div_is_ordered(num, d * den + n, den);
    } else {
        assert(d * n <= p && p <= 0) by (nonlinear_arith)
            requires d < 0, 0 <= i <= n, p == d * i;
        lemma_basic_div(n, den);
        lemma_div_is_ordered(num, n, den);
        assert(d * den + n <= num) by (nonlinear_arith)
            requires d * n <= p, num == 2 * p + n, den == 2 * n;
        lemma_fundamental_div_mod_converse(d * den + n, den, d, n);
        lemma_div_is_ordered(d * den + n, num, den);
    }
}

/// The segment starts at `a` and, when `a != b`, ends at `b`.
pub proof fn lemma_seg_endpoints(a: ivec3, b: ivec3)
    ensures
        seg_n(a, b) >= 1 ==> {
            &&& seg_x(a, b, 0) == a.x
            &&& seg_y(a, b, 0) == a.y
            &&& seg_z(a, b, 0) == a.z
            &&& seg_x(a, b, seg_n(a, b)) == b.x
            &&& seg_y(a, b, seg_n(a, b)) == b.y
            &&& seg_z(a, b, seg_n(a, b)) == b.z
        },
        seg_n(a, b) == 0 ==> a.x == b.x && a.y == b.y && a.z == b.z,
{
    let n = seg_n(a, b);
    if n >= 1 {
        lemma_rdiv_at_zero(b.x - a.x, n);
        lemma_rdiv_at_zero(b.y - a.y, n);
        lemma_rdiv_at_zero(b.z - a.z, n);
        lemma_rdiv_at_end(b.x - a.x, n);
        lemma_rdiv_at_end(b.y - a.y, n);
        lemma_rdiv_at_end(b.z - a.z, n);
    }
}

/// At step 0 the rounded share is 0.
pub proof fn lemma_rdiv_at_zero(d: int, n: int)
    requires
        1 <= n,
    ensures
        rdiv(d * 0, n) == 0,
{
    lemma_basic_div(n, 2 * n);
}

/// At step `n` the rounded share is the full delta.
pub proof fn lemma_rdiv_at_end(d: int, n: int)
    requires
        1 <= n,
    ensures
        rdiv(d * n, n) == d,
{
    assert(2 * (d * n) + n == d * (2 * n) + n) by (nonlinear_arith);
    lemma_fundamental_div_mod_converse(d * (2 * n) + n, 2 * n, d, n);
}

/// Floor division of `a` by a positive `b`.
pub fn div_floor_i64(a: i64, b: i64) -> (q: i64)
    requires
        1 <= b <= 0x10000,
        -0x100000000000 <= a <= 0x100000000000,
    ensures
        q == a as int / b as int,
{
    if a >= 0 {
        let qa = (a as u64) / (b as u64);
        proof {
            lemma_div_nonincreasing(a as int, b as int);
        }
        qa as i64
    } else {
        let m = (-a) as u64;
        let bu = b as u64;
        let qm = m / bu;
        let rm = m % bu;
        proof {
            lemma_div_nonincreasing(m as int, bu as int);
            lemma_fundamental_div_mod(m as int, bu as int);
            if rm == 0 {
                assert(a as int == (-(qm as int)) * (b as int) + 0) by (nonlinear_arith)
                    requires
                        a as int == -(m as int),
                        m as int == bu as int * qm as int + rm as int,
                        rm == 0,
                        bu == b;
                lemma_fundamental_div_mod_converse(
                    a as int, b as int, -(qm as int), 0);
            } else {
                assert(a as int == (-(qm as int) - 1) * b + (b - rm)) by (nonlinear_arith)
                    requires
                        a as int == -(m as int),
                        m as int == bu as int * qm as int + rm as int,
                        bu == b;
                lemma_fundamental_div_mod_converse(
                    a as int, b as int, -(qm as int) - 1, b as int - rm as int);
            }
        }
        if rm == 0 {
            -(qm as i64)
        } else {
            -(qm as i64) - 1
        }
    }
}

/// Computes `rdiv(p, n)` on machine integers.
pub fn rdiv_exec(p: i64, n: i64) -> (r: i64)
    requires
        1 <= n <= 0x2000,
        -0x10000000000 <= p <= 0x10000000000,
    ensures
        r == rdiv(p as int, n as int),
{
    div_floor_i64(2 * p + n, 2 * n)
}

} // verus!
