//! Swept collision against solid voxels: the body follows the lattice
//! segment of the motion, sliding independently per axis at each step.

use vstd::prelude::*;
use crate::math::ivec3;
use crate::world::{World, coord_x, coord_y, coord_z, lemma_flat_idx, lemma_coords};
use crate::ray::{imax, seg_coord, seg_n, seg_x, seg_y, seg_z};

verus! {

/// The axis-aligned cube of half-side `r` around `(px, py, pz)` lies
/// fully inside the world.
pub open spec fn body_box_in_bounds(w: World, px: int, py: int, pz: int, r: int) -> bool {
    &&& 0 <= px - r && px + r < w.xs
    &&& 0 <= py - r && py + r < w.ys
    &&& 0 <= pz - r && pz + r < w.zs
}

/// No voxel of that cube is solid.
pub open spec fn body_clear(w: World, px: int, py: int, pz: int, r: int) -> bool {
    forall|qx: int, qy: int, qz: int|
        px - r <= qx <= px + r && py - r <= qy <= py + r && pz - r <= qz <= pz + r
            ==> !(#[trigger] w.solid_at(qx, qy, qz))
}

/// A body of half-side `r` can stand at `(px, py, pz)`: its occupied
/// volume is inside the world and overlaps no solid voxel.
pub open spec fn body_free(w: World, px: int, py: int, pz: int, r: int) -> bool {
    body_box_in_bounds(w, px, py, pz, r) && body_clear(w, px, py, pz, r)
}

/// One sweep step: the body tries to take the segment's per-axis
/// deltas for this step, one axis at a time; an axis whose move is
/// blocked is skipped while the others still advance (sliding).
pub open spec fn sweep_step(
    w: World, px: int, py: int, pz: int,
    sx: int, sy: int, sz: int, r: int,
) -> (int, int, int) {
    let nx = if sx != 0 && body_free(w, px + sx, py, pz, r) { px + sx } else { px };
    let ny = if sy != 0 && body_free(w, nx, py + sy, pz, r) { py + sy } else { py };
    let nz = if sz != 0 && body_free(w, nx, ny, pz + sz, r) { pz + sz } else { pz };
    (nx, ny, nz)
}

/// Where the body stands after following the lattice segment from `a`
/// toward `b`, sample by sample, starting from `(px, py, pz)` at
/// sample `i`: at each step it takes the segment's per-axis deltas with
/// sliding.
pub open spec fn sweep_from(
    w: World, a: ivec3, b: ivec3,
    px: int, py: int, pz: int, i: int, r: int,
) -> (int, int, int)
    decreases seg_n(a, b) - i,
{
    if i >= seg_n(a, b) {
        (px, py, pz)
    } else {
        let sx = seg_x(a, b, i + 1) - seg_x(a, b, i);
        let sy = seg_y(a, b, i + 1) - seg_y(a, b, i);
        let sz = seg_z(a, b, i + 1) - seg_z(a, b, i);
        let st = sweep_step(w, px, py, pz, sx, sy, sz, r);
        sweep_from(w, a, b, st.0, st.1, st.2, i + 1, r)
    }
}

/// Where a clipped move from `p` by `d` ends: the body sweeps along
/// the lattice segment from `p` to `p + d`, sliding per axis at every
/// step, so motion blocked along one axis does not cancel motion along
/// a perpendicular one.
pub open spec fn clip_dest(w: World, p: ivec3, d: ivec3, r: int) -> (int, int, int) {
    let b = ivec3 { x: (p.x + d.x) as i32, y: (p.y + d.y) as i32, z: (p.z + d.z) as i32 };
    sweep_from(w, p, b, p.x as int, p.y as int, p.z as int, 0, r)
}

pub open spec fn imin(u: int, v: int) -> int {
    if u < v { u } else { v }
}

/// Membership in the axis-aligned envelope of the segment from `a` to
/// `b`: every position the sweep can pass through lies in it.
pub open spec fn in_envelope(a: ivec3, b: ivec3, x: int, y: int, z: int) -> bool {
    &&& imin(a.x as int, b.x as int) <= x <= imax(a.x as int, b.x as int)
    &&& imin(a.y as int, b.y as int) <= y <= imax(a.y as int, b.y as int)
    &&& imin(a.z as int, b.z as int) <= z <= imax(a.z as int, b.z as int)
}

/// Every sample coordinate of the segment stays in the per-axis
/// envelope.
proof fn lemma_seg_in_envelope(a0: int, d: int, i: int, n: int)
    requires
        1 <= n,
        0 <= i <= n,
    ensures
        imin(a0, a0 + d) <= seg_coord(a0, d, i, n) <= imax(a0, a0 + d),
{
    crate::ray::lemma_rdiv_range(d, i, n);
}

/// When the body can stand everywhere in the segment's envelope, the
/// sweep tracks the segment exactly from sample `i` to the end.
proof fn lemma_sweep_tracks(w: World, a: ivec3, b: ivec3, i: int, r: int)
    requires
        0 <= i <= seg_n(a, b),
        1 <= seg_n(a, b),
        forall|x: int, y: int, z: int|
            in_envelope(a, b, x, y, z) ==> #[trigger] body_free(w, x, y, z, r),
    ensures
        sweep_from(w, a, b, seg_x(a, b, i), seg_y(a, b, i), seg_z(a, b, i), i, r)
            == (seg_x(a, b, seg_n(a, b)), seg_y(a, b, seg_n(a, b)), seg_z(a, b, seg_n(a, b))),
    decreases seg_n(a, b) - i,
{
    let n = seg_n(a, b);
    if i < n {
        let sx = seg_x(a, b, i + 1) - seg_x(a, b, i);
        let sy = seg_y(a, b, i + 1) - seg_y(a, b, i);
        let sz = seg_z(a, b, i + 1) - seg_z(a, b, i);
        lemma_seg_in_envelope(a.x as int, b.x - a.x, i, n);
        lemma_seg_in_envelope(a.y as int, b.y - a.y, i, n);
        lemma_seg_in_envelope(a.z as int, b.z - a.z, i, n);
        lemma_seg_in_envelope(a.x as int, b.x - a.x, i + 1, n);
        lemma_seg_in_envelope(a.y as int, b.y - a.y, i + 1, n);
        lemma_seg_in_envelope(a.z as int, b.z - a.z, i + 1, n);
        assert(in_envelope(a, b, seg_x(a, b, i + 1), seg_y(a, b, i), seg_z(a, b, i)));
        assert(in_envelope(a, b, seg_x(a, b, i + 1), seg_y(a, b, i + 1), seg_z(a, b, i)));
        assert(in_envelope(a, b, seg_x(a, b, i + 1), seg_y(a, b, i + 1), seg_z(a, b, i + 1)));
        assert(sweep_step(w, seg_x(a, b, i), seg_y(a, b, i), seg_z(a, b, i), sx, sy, sz, r)
            == (seg_x(a, b, i + 1), seg_y(a, b, i + 1), seg_z(a, b, i + 1)));
        lemma_sweep_tracks(w, a, b, i + 1, r);
    }
}

/// Unobstructed motion is applied in full: when the body can stand
/// everywhere in the axis-aligned envelope swept from `p` to `p + d`,
/// the clipped move ends exactly at `p + d`.
pub proof fn lemma_clip_full_motion(w: World, p: ivec3, d: ivec3, r: int)
    requires
        -4096 <= p.x <= 4096 && -4096 <= p.y <= 4096 && -4096 <= p.z <= 4096,
        -4096 <= d.x <= 4096 && -4096 <= d.y <= 4096 && -4096 <= d.z <= 4096,
        forall|x: int, y: int, z: int|
            in_envelope(p, (ivec3 { x: (p.x + d.x) as i32, y: (p.y + d.y) as i32,
                z: (p.z + d.z) as i32 }), x, y, z)
                ==> #[trigger] body_free(w, x, y, z, r),
    ensures
        clip_dest(w, p, d, r) == (p.x + d.x, p.y + d.y, p.z + d.z),
{
    let b = ivec3 { x: (p.x + d.x) as i32, y: (p.y + d.y) as i32, z: (p.z + d.z) as i32 };
    let n = seg_n(p, b);
    crate::ray::lemma_seg_endpoints(p, b);
    if n >= 1 {
        lemma_sweep_tracks(w, p, b, 0, r);
    }
}

/// Decides `body_free` on machine integers.
pub fn body_free_exec(w: &World, px: i32, py: i32, pz: i32, r: i32) -> (b: bool)
    requires
        w.wf(),
        0 <= r <= 1024,
        -0x10000 <= px <= 0x10000,
        -0x10000 <= py <= 0x10000,
        -0x10000 <= pz <= 0x10000,
    ensures
        b == body_free(*w, px as int, py as int, pz as int, r as int),
{
    let xs = w.xs;
    let ys = w.ys;
    let zs = w.zs;
    if px - r < 0 || px + r >= xs as i32 || py - r < 0 || py + r >= ys as i32
        || pz - r < 0 || pz + r >= zs as i32 {
        return false;
    }
    let total = w.vox.len();
    let mut found: bool = false;
    let mut i: usize = 0;
    while i < total
        invariant
            0 <= i <= total,
            w.wf(),
            xs == w.xs && ys == w.ys && zs == w.zs,
            total == w.vox@.len(),
            -0x10000 <= px <= 0x10000 && -0x10000 <= py <= 0x10000 && -0x10000 <= pz <= 0x10000,
            0 <= r <= 1024,
            found <==> exists|j: int| 0 <= j < i
                && px - r <= coord_x(j, ys as int, zs as int) <= px + r
                && py - r <= coord_y(j, ys as int, zs as int) <= py + r
                && pz - r <= coord_z(j, zs as int) <= pz + r
                && w.vox@[j].is_solid(),
        decreases total - i,
    {
        proof {
            lemma_coords(xs as int, ys as int, zs as int, i as int);
        }
        let q = i / zs;
        let x = (q / ys) as i32;
        let y = (q % ys) as i32;
        let z = (i % zs) as i32;
        if px - r <= x && x <= px + r && py - r <= y && y <= py + r
            && pz - r <= z && z <= pz + r {
            let v = w.vox[i];
            if v.solid() {
                found = true;
            }
        }
        i = i + 1;
    }
    proof {
        if found {
            let j = choose|j: int| 0 <= j < total
                && px - r <= coord_x(j, ys as int, zs as int) <= px + r
                && py - r <= coord_y(j, ys as int, zs as int) <= py + r
                && pz - r <= coord_z(j, zs as int) <= pz + r
                && w.vox@[j].is_solid();
            lemma_coords(xs as int, ys as int, zs as int, j);
            assert(w.solid_at(coord_x(j, ys as int, zs as int),
                coord_y(j, ys as int, zs as int), coord_z(j, zs as int)));
        } else {
            assert forall|qx: int, qy: int, qz: int|
                px - r <= qx <= px + r && py - r <= qy <= py + r && pz - r <= qz <= pz + r
                    implies !(w.solid_at(qx, qy, qz)) by {
                if w.solid_at(qx, qy, qz) {
                    lemma_flat_idx(xs as int, ys as int, zs as int, qx, qy, qz);
                }
            }
        }
    }
    !found
}

} // verus!
