//! The voxel world store: a bounded, column-major field of voxels with
//! point queries and region fills.

use vstd::prelude::*;
use vstd::arithmetic::div_mod::{
    lemma_fundamental_div_mod, lemma_fundamental_div_mod_converse,
};
use crate::color::Color;

verus! {

/// Largest permitted side length per axis.
pub const MAX_DIM: usize = 1024;

/// One cell of the world: empty, or solid with a color.
#[derive(Clone, Copy, PartialEq, Eq, Structural, Debug)]
pub enum Voxel {
    Empty,
    Solid(Color),
}

impl Voxel {
    pub open spec fn is_solid(self) -> bool {
        self is Solid
    }

    /// Whether the cell is solid.
    pub fn solid(&self) -> (b: bool)
        ensures
            b == self.is_solid(),
    {
        match self {
            Voxel::Solid(_) => true,
            Voxel::Empty => false,
        }
    }
}

/// Flat index of cell `(x, y, z)` in a grid whose columns run in `z`:
/// cells of one `(x, y)` column are contiguous (column-major order).
pub open spec fn flat_idx(ys: int, zs: int, x: int, y: int, z: int) -> int {
    (x * ys + y) * zs + z
}

/// The coordinates packed into flat index `i`.
pub open spec fn coord_x(i: int, ys: int, zs: int) -> int {
    (i / zs) / ys
}

pub open spec fn coord_y(i: int, ys: int, zs: int) -> int {
    (i / zs) % ys
}

pub open spec fn coord_z(i: int, zs: int) -> int {
    i % zs
}

/// `flat_idx` maps in-bounds coordinates into `[0, xs * ys * zs)` and the
/// `coord_*` functions recover them.
pub proof fn lemma_flat_idx(xs: int, ys: int, zs: int, x: int, y: int, z: int)
    requires
        1 <= ys <= 1024,
        1 <= zs <= 1024,
        0 <= x < xs,
        0 <= y < ys,
        0 <= z < zs,
        xs <= 1024,
    ensures
        0 <= flat_idx(ys, zs, x, y, z) < xs * ys * zs,
        0 <= x * ys + y < xs * ys,
        xs * ys <= 0x100000,
        xs * ys * zs <= 0x40000000,
        coord_x(flat_idx(ys, zs, x, y, z), ys, zs) == x,
        coord_y(flat_idx(ys, zs, x, y, z), ys, zs) == y,
        coord_z(flat_idx(ys, zs, x, y, z), zs) == z,
{
    let q = x * ys + y;
    let i = q * zs + z;
    assert(0 <= q && q < xs * ys && xs * ys <= 0x100000) by (nonlinear_arith)
        requires 1 <= ys <= 1024, 0 <= x < xs, 0 <= y < ys, xs <= 1024, q == x * ys + y;
    lemma_fundamental_div_mod_converse(i, zs, q, z);
    lemma_fundamental_div_mod_converse(q, ys, x, y);
    assert(0 <= i && i < (xs * ys) * zs) by (nonlinear_arith)
        requires 1 <= zs, 0 <= q < xs * ys, 0 <= z < zs, i == q * zs + z;
    assert((xs * ys) * zs == xs * ys * zs) by (nonlinear_arith);
    assert(xs * ys * zs <= 0x40000000) by (nonlinear_arith)
        requires 1 <= ys <= 1024, 1 <= zs <= 1024, 1 <= xs <= 1024;
}

/// Every flat index in range comes from exactly one in-bounds coordinate
/// triple, which the `coord_*` functions give.
pub proof fn lemma_coords(xs: int, ys: int, zs: int, i: int)
    requires
        1 <= xs,
        1 <= ys,
        1 <= zs,
        0 <= i < xs * ys * zs,
    ensures
        0 <= coord_x(i, ys, zs) < xs,
        0 <= coord_y(i, ys, zs) < ys,
        0 <= coord_z(i, zs) < zs,
        flat_idx(ys, zs, coord_x(i, ys, zs), coord_y(i, ys, zs), coord_z(i, zs)) == i,
{
    lemma_fundamental_div_mod(i, zs);
    let q = i / zs;
    let z = i % zs;
    assert(0 <= z < zs);
    assert(0 <= q < xs * ys) by (nonlinear_arith)
        requires
            1 <= zs,
            0 <= i < xs * ys * zs,
            i == zs * q + z,
            0 <= z < zs;
    lemma_fundamental_div_mod(q, ys);
    let x = q / ys;
    let y = q % ys;
    assert(0 <= x < xs) by (nonlinear_arith)
        requires 1 <= ys, 0 <= q < xs * ys, q == ys * x + y, 0 <= y < ys;
    assert(flat_idx(ys, zs, x, y, z) == i) by (nonlinear_arith)
        requires q == ys * x + y, i == zs * q + z;
}

/// Membership of `(x, y, z)` in the closed axis-aligned box whose
/// opposite corners are `(x0, y0, z0)` and `(x1, y1, z1)`, in either
/// corner order.
pub open spec fn in_box(
    x0: int, y0: int, z0: int,
    x1: int, y1: int, z1: int,
    x: int, y: int, z: int,
) -> bool {
    &&& (if x0 <= x1 { x0 <= x <= x1 } else { x1 <= x <= x0 })
    &&& (if y0 <= y1 { y0 <= y <= y1 } else { y1 <= y <= y0 })
    &&& (if z0 <= z1 { z0 <= z <= z1 } else { z1 <= z <= z0 })
}

/// Membership of `(x, y, z)` in the closed ball of radius `r` around
/// `(cx, cy, cz)`, by squared Euclidean distance.
pub open spec fn in_sphere(cx: int, cy: int, cz: int, r: int, x: int, y: int, z: int) -> bool {
    (x - cx) * (x - cx) + (y - cy) * (y - cy) + (z - cz) * (z - cz) <= r * r
}

/// The voxel field: `xs * ys * zs` cells stored in column-major order.
pub struct World {
    pub xs: usize,
    pub ys: usize,
    pub zs: usize,
    pub vox: Vec<Voxel>,
}

impl World {
    /// Dimensions in range and the backing vector exactly covers the
    /// grid.
    pub open spec fn wf(self) -> bool {
        &&& 1 <= self.xs <= MAX_DIM
        &&& 1 <= self.ys <= MAX_DIM
        &&& 1 <= self.zs <= MAX_DIM
        &&& self.vox@.len() == self.xs * self.ys * self.zs
    }

    pub open spec fn in_bounds(self, x: int, y: int, z: int) -> bool {
        0 <= x < self.xs && 0 <= y < self.ys && 0 <= z < self.zs
    }

    /// The cell at in-bounds coordinates `(x, y, z)`.
    pub open spec fn voxel_at(self, x: int, y: int, z: int) -> Voxel {
        self.vox@[flat_idx(self.ys as int, self.zs as int, x, y, z)]
    }

    /// Whether `(x, y, z)` holds a solid voxel; out-of-bounds
    /// coordinates hold none.
    pub open spec fn solid_at(self, x: int, y: int, z: int) -> bool {
        self.in_bounds(x, y, z) && self.voxel_at(x, y, z).is_solid()
    }

    pub open spec fn same_dims(self, other: World) -> bool {
        self.xs == other.xs && self.ys == other.ys && self.zs == other.zs
    }

    /// A fresh, fully empty world.
    pub fn new(xs: usize, ys: usize, zs: usize) -> (w: World)
        requires
            1 <= xs <= MAX_DIM,
            1 <= ys <= MAX_DIM,
            1 <= zs <= MAX_DIM,
        ensures
            w.wf(),
            w.xs == xs && w.ys == ys && w.zs == zs,
            forall|x: int, y: int, z: int|
                w.in_bounds(x, y, z) ==> w.voxel_at(x, y, z) == Voxel::Empty,
    {
        proof {
            assert(xs * ys <= 0x100000 && xs * ys * zs <= 0x40000000) by (nonlinear_arith)
                requires 1 <= xs <= 1024, 1 <= ys <= 1024, 1 <= zs <= 1024;
        }
        let total: usize = xs * ys * zs;
        let mut vox: Vec<Voxel> = Vec::new();
        let mut i: usize = 0;
        while i < total
            invariant
                i <= total,
                total == xs * ys * zs,
                vox@.len() == i,
                forall|j: int| 0 <= j < i ==> vox@[j] == Voxel::Empty,
            decreases total - i,
        {
            vox.push(Voxel::Empty);
            i = i + 1;
        }
        let w = World { xs, ys, zs, vox };
        proof {
            assert forall|x: int, y: int, z: int|
                w.in_bounds(x, y, z) implies w.voxel_at(x, y, z) == Voxel::Empty by {
                lemma_flat_idx(xs as int, ys as int, zs as int, x, y, z);
            }
        }
        w
    }

    /// Reads one in-bounds cell.
    pub fn get(&self, x: usize, y: usize, z: usize) -> (v: Voxel)
        requires
            self.wf(),
            self.in_bounds(x as int, y as int, z as int),
        ensures
            v == self.voxel_at(x as int, y as int, z as int),
    {
        proof {
            lemma_flat_idx(self.xs as int, self.ys as int, self.zs as int,
                x as int, y as int, z as int);
        }
        let i: usize = (x * self.ys + y) * self.zs + z;
        self.vox[i]
    }

    /// Writes one in-bounds cell; every other cell keeps its value.
    pub fn set(&mut self, x: usize, y: usize, z: usize, v: Voxel)
        requires
            old(self).wf(),
            old(self).in_bounds(x as int, y as int, z as int),
        ensures
            final(self).wf(),
            final(self).same_dims(*old(self)),
            final(self).voxel_at(x as int, y as int, z as int) == v,
            forall|a: int, b: int, c: int|
                old(self).in_bounds(a, b, c) && !(a == x && b == y && c == z)
                    ==> final(self).voxel_at(a, b, c) == old(self).voxel_at(a, b, c),
    {
        proof {
            lemma_flat_idx(self.xs as int, self.ys as int, self.zs as int,
                x as int, y as int, z as int);
        }
        let i: usize = (x * self.ys + y) * self.zs + z;
        self.vox.set(i, v);
        proof {
            assert forall|a: int, b: int, c: int|
                old(self).in_bounds(a, b, c) && !(a == x && b == y && c == z)
                    implies self.voxel_at(a, b, c) == old(self).voxel_at(a, b, c) by {
                lemma_flat_idx(self.xs as int, self.ys as int, self.zs as int, a, b, c);
            }
        }
    }
    /// Fills every cell of the closed ball around `(cx, cy, cz)` of
    /// radius `r` with `v`; every other cell keeps its value.
    pub fn fill_sphere(&mut self, cx: i32, cy: i32, cz: i32, r: i32, v: Voxel)
        requires
            old(self).wf(),
            -4096 <= cx <= 4096,
            -4096 <= cy <= 4096,
            -4096 <= cz <= 4096,
            0 <= r <= 4096,
        ensures
            final(self).wf(),
            final(self).same_dims(*old(self)),
            forall|x: int, y: int, z: int|
                old(self).in_bounds(x, y, z) ==> final(self).voxel_at(x, y, z)
                    == (if in_sphere(cx as int, cy as int, cz as int, r as int, x, y, z) {
                        v
                    } else {
                        old(self).voxel_at(x, y, z)
                    }),
    {
        let xs = self.xs;
        let ys = self.ys;
        let zs = self.zs;
        let total = self.vox.len();
        let mut i: usize = 0;
        while i < total
            invariant
                0 <= i <= total,
                self.xs == xs && self.ys == ys && self.zs == zs,
                old(self).xs == xs && old(self).ys == ys && old(self).zs == zs,
                1 <= xs <= MAX_DIM && 1 <= ys <= MAX_DIM && 1 <= zs <= MAX_DIM,
                total == xs * ys * zs,
                self.vox@.len() == total,
                old(self).vox@.len() == total,
                -4096 <= cx <= 4096 && -4096 <= cy <= 4096 && -4096 <= cz <= 4096,
                0 <= r <= 4096,
                forall|j: int| 0 <= j < i ==> self.vox@[j]
                    == (if in_sphere(cx as int, cy as int, cz as int, r as int,
                            coord_x(j, ys as int, zs as int),
                            coord_y(j, ys as int, zs as int),
                            coord_z(j, zs as int)) {
                        v
                    } else {
                        old(self).vox@[j]
                    }),
                forall|j: int| i <= j < total ==> self.vox@[j] == old(self).vox@[j],
            decreases total - i,
        {
            proof {
                lemma_coords(xs as int, ys as int, zs as int, i as int);
            }
            let q = i / zs;
            let x = (q / ys) as i32;
            let y = (q % ys) as i32;
            let z = (i % zs) as i32;
            if sphere_test(cx, cy, cz, r, x, y, z) {
                self.vox.set(i, v);
            }
            i = i + 1;
        }
        proof {
            assert forall|x: int, y: int, z: int|
                old(self).in_bounds(x, y, z) implies self.voxel_at(x, y, z)
                    == (if in_sphere(cx as int, cy as int, cz as int, r as int, x, y, z) {
                        v
                    } else {
                        old(self).voxel_at(x, y, z)
                    }) by {
                lemma_flat_idx(xs as int, ys as int, zs as int, x, y, z);
            }
        }
    }

    /// Fills every cell of the closed box between the two corners
    /// (in either order) with `v`; every other cell keeps its value.
    pub fn fill_box(&mut self, x0: i32, y0: i32, z0: i32, x1: i32, y1: i32, z1: i32, v: Voxel)
        requires
            old(self).wf(),
        ensures
            final(self).wf(),
            final(self).same_dims(*old(self)),
            forall|x: int, y: int, z: int|
                old(self).in_bounds(x, y, z) ==> final(self).voxel_at(x, y, z)
                    == (if in_box(x0 as int, y0 as int, z0 as int,
                            x1 as int, y1 as int, z1 as int, x, y, z) {
                        v
                    } else {
                        old(self).voxel_at(x, y, z)
                    }),
    {
        let xs = self.xs;
        let ys = self.ys;
        let zs = self.zs;
        let total = self.vox.len();
        let mut i: usize = 0;
        while i < total
            invariant
                0 <= i <= total,
                self.xs == xs && self.ys == ys && self.zs == zs,
                old(self).xs == xs && old(self).ys == ys && old(self).zs == zs,
                1 <= xs <= MAX_DIM && 1 <= ys <= MAX_DIM && 1 <= zs <= MAX_DIM,
                total == xs * ys * zs,
                self.vox@.len() == total,
                old(self).vox@.len() == total,
                forall|j: int| 0 <= j < i ==> self.vox@[j]
                    == (if in_box(x0 as int, y0 as int, z0 as int,
                            x1 as int, y1 as int, z1 as int,
                            coord_x(j, ys as int, zs as int),
                            coord_y(j, ys as int, zs as int),
                            coord_z(j, zs as int)) {
                        v
                    } else {
                        old(self).vox@[j]
                    }),
                forall|j: int| i <= j < total ==> self.vox@[j] == old(self).vox@[j],
            decreases total - i,
        {
            proof {
                lemma_coords(xs as int, ys as int, zs as int, i as int);
            }
            let q = i / zs;
            let x = (q / ys) as i32;
            let y = (q % ys) as i32;
            let z = (i % zs) as i32;
            if box_test(x0, y0, z0, x1, y1, z1, x, y, z) {
                self.vox.set(i, v);
            }
            i = i + 1;
        }
        proof {
            assert forall|x: int, y: int, z: int|
                old(self).in_bounds(x, y, z) implies self.voxel_at(x, y, z)
                    == (if in_box(x0 as int, y0 as int, z0 as int,
                            x1 as int, y1 as int, z1 as int, x, y, z) {
                        v
                    } else {
                        old(self).voxel_at(x, y, z)
                    }) by {
                lemma_flat_idx(xs as int, ys as int, zs as int, x, y, z);
            }
        }
    }
}

/// Decides `in_sphere` on machine integers.
pub fn sphere_test(cx: i32, cy: i32, cz: i32, r: i32, x: i32, y: i32, z: i32) -> (b: bool)
    requires
        -4096 <= cx <= 4096,
        -4096 <= cy <= 4096,
        -4096 <= cz <= 4096,
        0 <= r <= 4096,
        -4096 <= x <= 4096,
        -4096 <= y <= 4096,
        -4096 <= z <= 4096,
    ensures
        b == in_sphere(cx as int, cy as int, cz as int, r as int, x as int, y as int, z as int),
{
    let dx = x as i64 - cx as i64;
    let dy = y as i64 - cy as i64;
    let dz = z as i64 - cz as i64;
    let rr = r as i64;
    proof {
        assert(0 <= dx * dx <= 0x4000000 && 0 <= dy * dy <= 0x4000000
            && 0 <= dz * dz <= 0x4000000 && 0 <= rr * rr <= 0x1000000) by (nonlinear_arith)
            requires
                -8192 <= dx <= 8192,
                -8192 <= dy <= 8192,
                -8192 <= dz <= 8192,
                0 <= rr <= 4096;
    }
    dx * dx + dy * dy + dz * dz <= rr * rr
}

/// Decides `in_box` on machine integers.
pub fn box_test(x0: i32, y0: i32, z0: i32, x1: i32, y1: i32, z1: i32,
    x: i32, y: i32, z: i32) -> (b: bool)
    ensures
        b == in_box(x0 as int, y0 as int, z0 as int, x1 as int, y1 as int, z1 as int,
            x as int, y as int, z as int),
{
    let bx = if x0 <= x1 { x0 <= x && x <= x1 } else { x1 <= x && x <= x0 };
    let by = if y0 <= y1 { y0 <= y && y <= y1 } else { y1 <= y && y <= y0 };
    let bz = if z0 <= z1 { z0 <= z && z <= z1 } else { z1 <= z && z <= z0 };
    bx && by && bz
}

} // verus!
