//! Voxel sprites: independently owned voxel grids with a placement and
//! an explicit ownership tag.

use vstd::prelude::*;
use crate::math::ivec3;
use crate::world::{World, coord_x, coord_y, coord_z, in_sphere};

verus! {

/// Who releases a sprite: the engine at teardown, or the caller.
#[derive(Clone, Copy, PartialEq, Eq, Structural, Debug)]
pub enum SpriteOwnership {
    EngineManaged,
    CallerOwned,
}

/// A voxel model: its own grid of voxels, a world-space position for
/// grid cell `(0, 0, 0)`, and an ownership tag.
pub struct VxSprite {
    pub grid: World,
    pub pos: ivec3,
    pub ownership: SpriteOwnership,
}

impl VxSprite {
    pub open spec fn wf(self) -> bool {
        self.grid.wf()
    }

    /// Wraps an existing voxel grid as a caller-owned sprite placed at
    /// the world origin.
    pub fn from_grid(grid: World) -> (s: VxSprite)
        requires
            grid.wf(),
        ensures
            s.grid == grid,
            s.pos == (ivec3 { x: 0, y: 0, z: 0 }),
            s.ownership == SpriteOwnership::CallerOwned,
    {
        VxSprite { grid, pos: ivec3 { x: 0, y: 0, z: 0 }, ownership: SpriteOwnership::CallerOwned }
    }

    /// Places the sprite.
    pub fn set_pos(&mut self, pos: &ivec3)
        ensures
            *final(self) == (VxSprite { pos: *pos, ..*old(self) }),
    {
        self.pos = *pos;
    }

    pub fn get_pos(&self) -> (p: ivec3)
        ensures
            p == self.pos,
    {
        self.pos
    }

    /// Moves the sprite by `dir`.
    pub fn add_pos(&mut self, dir: &ivec3)
        requires
            i32::MIN <= old(self).pos.x + dir.x <= i32::MAX,
            i32::MIN <= old(self).pos.y + dir.y <= i32::MAX,
            i32::MIN <= old(self).pos.z + dir.z <= i32::MAX,
        ensures
            final(self).pos.x == old(self).pos.x + dir.x,
            final(self).pos.y == old(self).pos.y + dir.y,
            final(self).pos.z == old(self).pos.z + dir.z,
            final(self).grid == old(self).grid,
            final(self).ownership == old(self).ownership,
    {
        self.pos = ivec3 {
            x: self.pos.x + dir.x,
            y: self.pos.y + dir.y,
            z: self.pos.z + dir.z,
        };
    }
}

/// How many of the first `k` cells of `w` (in flat column-major order)
/// are solid and lie in the closed ball of radius `r` around the
/// center.
pub open spec fn count_solid_in_sphere_upto(
    w: World, cx: int, cy: int, cz: int, r: int, k: int,
) -> int
    decreases k,
{
    if k <= 0 {
        0
    } else {
        count_solid_in_sphere_upto(w, cx, cy, cz, r, k - 1)
            + if in_sphere(cx, cy, cz, r,
                coord_x(k - 1, w.ys as int, w.zs as int),
                coord_y(k - 1, w.ys as int, w.zs as int),
                coord_z(k - 1, w.zs as int)) && w.vox@[k - 1].is_solid() {
                1int
            } else {
                0int
            }
    }
}

/// The number of solid voxels of `w` inside the closed ball of radius
/// `r` around `(cx, cy, cz)`.
pub open spec fn count_solid_in_sphere(w: World, cx: int, cy: int, cz: int, r: int) -> int {
    count_solid_in_sphere_upto(w, cx, cy, cz, r, w.vox@.len() as int)
}

/// The count over the first `k` cells is a sum of zeros and ones.
proof fn lemma_count_bounds(w: World, cx: int, cy: int, cz: int, r: int, k: int)
    ensures
        0 <= count_solid_in_sphere_upto(w, cx, cy, cz, r, k),
        count_solid_in_sphere_upto(w, cx, cy, cz, r, k) <= (if k <= 0 { 0int } else { k }),
    decreases (if k <= 0 { 0int } else { k }),
{
    if k > 0 {
        lemma_count_bounds(w, cx, cy, cz, r, k - 1);
    }
}

/// The count over the first `k` cells is zero exactly when none of
/// them is a solid voxel inside the ball.
proof fn lemma_count_upto_zero(w: World, cx: int, cy: int, cz: int, r: int, k: int)
    ensures
        count_solid_in_sphere_upto(w, cx, cy, cz, r, k) == 0 <==> forall|j: int|
            0 <= j < k && in_sphere(cx, cy, cz, r,
                coord_x(j, w.ys as int, w.zs as int),
                coord_y(j, w.ys as int, w.zs as int),
                coord_z(j, w.zs as int))
                ==> !(#[trigger] w.vox@[j]).is_solid(),
    decreases (if k <= 0 { 0int } else { k }),
{
    if k > 0 {
        lemma_count_upto_zero(w, cx, cy, cz, r, k - 1);
        lemma_count_bounds(w, cx, cy, cz, r, k - 1);
    }
}

/// A melt count of zero means the ball held no solid voxel, and a
/// positive one that it held some.
pub proof fn lemma_count_zero_iff_clear(w: World, cx: int, cy: int, cz: int, r: int)
    requires
        w.wf(),
    ensures
        count_solid_in_sphere(w, cx, cy, cz, r) == 0 <==> forall|x: int, y: int, z: int|
            in_sphere(cx, cy, cz, r, x, y, z) ==> !w.solid_at(x, y, z),
{
    let len = w.vox@.len() as int;
    lemma_count_upto_zero(w, cx, cy, cz, r, len);
    if count_solid_in_sphere(w, cx, cy, cz, r) == 0 {
        assert forall|x: int, y: int, z: int|
            in_sphere(cx, cy, cz, r, x, y, z) implies !w.solid_at(x, y, z) by {
            if w.solid_at(x, y, z) {
                crate::world::lemma_flat_idx(w.xs as int, w.ys as int, w.zs as int, x, y, z);
            }
        }
    } else {
        assert(!(forall|j: int|
            0 <= j < len && in_sphere(cx, cy, cz, r,
                coord_x(j, w.ys as int, w.zs as int),
                coord_y(j, w.ys as int, w.zs as int),
                coord_z(j, w.zs as int))
                ==> !(#[trigger] w.vox@[j]).is_solid()));
        let j = choose|j: int| 0 <= j < len && in_sphere(cx, cy, cz, r,
            coord_x(j, w.ys as int, w.zs as int),
            coord_y(j, w.ys as int, w.zs as int),
            coord_z(j, w.zs as int)) && (#[trigger] w.vox@[j]).is_solid();
        crate::world::lemma_coords(w.xs as int, w.ys as int, w.zs as int, j);
        assert(w.solid_at(coord_x(j, w.ys as int, w.zs as int),
            coord_y(j, w.ys as int, w.zs as int), coord_z(j, w.zs as int)));
    }
}

/// A point of the closed ball lies within `r` of the center along each
/// axis.
pub proof fn lemma_sphere_component_bound(
    cx: int, cy: int, cz: int, r: int, x: int, y: int, z: int,
)
    requires
        r >= 0,
        in_sphere(cx, cy, cz, r, x, y, z),
    ensures
        cx - r <= x <= cx + r,
        cy - r <= y <= cy + r,
        cz - r <= z <= cz + r,
{
    assert(cx - r <= x <= cx + r && cy - r <= y <= cy + r && cz - r <= z <= cz + r)
        by (nonlinear_arith)
        requires
            r >= 0,
            (x - cx) * (x - cx) + (y - cy) * (y - cy) + (z - cz) * (z - cz) <= r * r;
}

} // verus!
