//! The engine context: the voxel world plus lighting, configuration and
//! the overlay framebuffer, owned by one explicit value.

use vstd::prelude::*;
use crate::color::Color;
use crate::math::ivec3;
use crate::world::{World, Voxel, MAX_DIM, flat_idx, coord_x, coord_y, coord_z,
    in_box, in_sphere, box_test, sphere_test, lemma_flat_idx, lemma_coords};
use crate::ray::{seg_n, seg_x, seg_y, seg_z, solid_on_seg, rdiv_exec, lemma_rdiv_range};
use crate::clip::{body_box_in_bounds, body_clear, body_free, body_free_exec, clip_dest,
    sweep_from, sweep_step};
use crate::overlay::Image;
use crate::sprite::{VxSprite, SpriteOwnership, count_solid_in_sphere,
    count_solid_in_sphere_upto, lemma_sphere_component_bound};

verus! {

/// A constructive-solid-geometry edit either writes solid voxels or
/// clears them.
#[derive(Clone, Copy, PartialEq, Eq, Structural, Debug)]
pub enum CsgOperationType {
    Insert,
    Remove,
}

impl CsgOperationType {
    /// The integer convention for an edit operation: `0` inserts, `-1`
    /// removes.
    pub open spec fn spec_as_int(self) -> int {
        match self {
            CsgOperationType::Insert => 0,
            CsgOperationType::Remove => -1,
        }
    }

    pub fn as_int(self) -> (r: i32)
        ensures
            r == self.spec_as_int(),
    {
        match self {
            CsgOperationType::Insert => 0,
            CsgOperationType::Remove => -1,
        }
    }
}

/// How rendering derives a shade from the lighting field.
#[derive(Clone, Copy, PartialEq, Eq, Structural, Debug)]
pub enum LightingMode {
    NoSpecialLighting,
    SimpleEstimatedNormalLighting,
    MultiplePointSourceLighting,
}

/// The engine's error taxonomy.
#[derive(Clone, Copy, PartialEq, Eq, Structural, Debug)]
pub enum EngineError {
    /// The engine could not be brought up; no further calls are valid.
    InitError,
    /// A malformed or missing asset; the caller may retry or skip.
    LoadError,
    /// A coordinate outside the world extent.
    OutOfBounds,
    /// A parameter rejected at the boundary, before any work is done.
    InvalidParameter,
}

/// Outcome of a line-of-sight query.
#[derive(Clone, Copy, PartialEq, Eq, Structural, Debug)]
pub enum VisibilityResult {
    CanSee,
    CannotSee(ivec3),
}

/// Largest permitted scan distance for rendering rays.
pub const MAX_SCAN_DIST: i32 = 2896;

/// The engine: world store, per-voxel lighting, mipmap, configuration
/// and the overlay framebuffer.
pub struct Engine {
    pub world: World,
    /// Derived brightness per voxel, parallel to the world grid.
    pub light: Vec<u8>,
    /// Half-resolution solidity grid for distant rendering.
    pub mip: World,
    /// Color that sphere and rectangle inserts write.
    pub curcol: Color,
    /// Ambient color for sprite rendering.
    pub kv6col: Color,
    /// Color of pixels no ray reaches.
    pub fogcol: Color,
    /// Screen columns per cast ray; at least 1.
    pub raycast_density: i32,
    /// Upper bound on ray length, in `1..=MAX_SCAN_DIST`.
    pub max_scan_dist: i32,
    /// Whether edits check for geometry left floating.
    pub fallcheck: bool,
    pub lighting_mode: LightingMode,
    /// Camera position, kept inside the world.
    pub cam: ivec3,
    /// Sky raster sampled by pixels whose ray hits nothing; with none
    /// bound, such pixels take the fog color.
    pub sky: Option<Image>,
}

/// Half of `n`, rounded up: the side of the mipmap grid.
pub open spec fn half_up(n: int) -> int {
    (n + 1) / 2
}

/// A legal VSID: a power of two no larger than `MAX_DIM`.
pub open spec fn valid_side(side: int) -> bool {
    ||| side == 1 ||| side == 2 ||| side == 4 ||| side == 8
    ||| side == 16 ||| side == 32 ||| side == 64 ||| side == 128
    ||| side == 256 ||| side == 512 ||| side == 1024
}

/// `v` clamped into `[0, hi)`.
pub open spec fn clamp_coord(v: int, hi: int) -> int {
    if v < 0 {
        0
    } else if v >= hi {
        hi - 1
    } else {
        v
    }
}

/// Decides `valid_side` on machine integers.
pub fn is_valid_side(side: usize) -> (b: bool)
    ensures
        b == valid_side(side as int),
{
    side == 1 || side == 2 || side == 4 || side == 8
        || side == 16 || side == 32 || side == 64 || side == 128
        || side == 256 || side == 512 || side == 1024
}

/// The authoritative brightness of a voxel under a lighting mode:
/// `NoSpecialLighting` is uniform full brightness; the estimated-normal
/// mode lights empty space fully, top-exposed solid voxels brightly and
/// buried ones dimly; the multi-point-source mode keeps solid voxels at
/// a low ambient level that only flashes raise.
pub open spec fn base_light(mode: LightingMode, w: World, x: int, y: int, z: int) -> u8 {
    match mode {
        LightingMode::NoSpecialLighting => 255u8,
        LightingMode::SimpleEstimatedNormalLighting => {
            if !w.solid_at(x, y, z) {
                255u8
            } else if !w.solid_at(x, y, z - 1) {
                192u8
            } else {
                64u8
            }
        },
        LightingMode::MultiplePointSourceLighting => {
            if !w.solid_at(x, y, z) {
                255u8
            } else {
                32u8
            }
        },
    }
}

/// Brightness raised by a flash of the given intensity, saturating at
/// full brightness.
pub open spec fn flashed(cur: u8, intens: int) -> u8 {
    if cur + intens > 255 {
        255u8
    } else {
        (cur + intens) as u8
    }
}

/// The mipmap cell over the eight world voxels it covers: the first
/// solid child in scan order, or empty when none is solid.
pub open spec fn mip_voxel(w: World, mx: int, my: int, mz: int) -> Voxel {
    let x = 2 * mx;
    let y = 2 * my;
    let z = 2 * mz;
    if w.solid_at(x, y, z) {
        w.voxel_at(x, y, z)
    } else if w.solid_at(x, y, z + 1) {
        w.voxel_at(x, y, z + 1)
    } else if w.solid_at(x, y + 1, z) {
        w.voxel_at(x, y + 1, z)
    } else if w.solid_at(x, y + 1, z + 1) {
        w.voxel_at(x, y + 1, z + 1)
    } else if w.solid_at(x + 1, y, z) {
        w.voxel_at(x + 1, y, z)
    } else if w.solid_at(x + 1, y, z + 1) {
        w.voxel_at(x + 1, y, z + 1)
    } else if w.solid_at(x + 1, y + 1, z) {
        w.voxel_at(x + 1, y + 1, z)
    } else if w.solid_at(x + 1, y + 1, z + 1) {
        w.voxel_at(x + 1, y + 1, z + 1)
    } else {
        Voxel::Empty
    }
}

/// Reads the voxel at any coordinates; outside the world it is empty.
pub fn voxel_checked(w: &World, x: i32, y: i32, z: i32) -> (v: Voxel)
    requires
        w.wf(),
    ensures
        v == (if w.in_bounds(x as int, y as int, z as int) {
            w.voxel_at(x as int, y as int, z as int)
        } else {
            Voxel::Empty
        }),
        v.is_solid() == w.solid_at(x as int, y as int, z as int),
{
    if x < 0 || y < 0 || z < 0 {
        return Voxel::Empty;
    }
    let xu = x as usize;
    let yu = y as usize;
    let zu = z as usize;
    if xu >= w.xs || yu >= w.ys || zu >= w.zs {
        return Voxel::Empty;
    }
    w.get(xu, yu, zu)
}

/// Computes `mip_voxel` on machine integers.
pub fn mip_cell(w: &World, mx: i32, my: i32, mz: i32) -> (v: Voxel)
    requires
        w.wf(),
        0 <= mx <= 1024,
        0 <= my <= 1024,
        0 <= mz <= 1024,
    ensures
        v == mip_voxel(*w, mx as int, my as int, mz as int),
{
    let x = 2 * mx;
    let y = 2 * my;
    let z = 2 * mz;
    let c0 = voxel_checked(w, x, y, z);
    if c0.solid() {
        return c0;
    }
    let c1 = voxel_checked(w, x, y, z + 1);
    if c1.solid() {
        return c1;
    }
    let c2 = voxel_checked(w, x, y + 1, z);
    if c2.solid() {
        return c2;
    }
    let c3 = voxel_checked(w, x, y + 1, z + 1);
    if c3.solid() {
        return c3;
    }
    let c4 = voxel_checked(w, x + 1, y, z);
    if c4.solid() {
        return c4;
    }
    let c5 = voxel_checked(w, x + 1, y, z + 1);
    if c5.solid() {
        return c5;
    }
    let c6 = voxel_checked(w, x + 1, y + 1, z);
    if c6.solid() {
        return c6;
    }
    let c7 = voxel_checked(w, x + 1, y + 1, z + 1);
    if c7.solid() {
        return c7;
    }
    Voxel::Empty
}

impl Engine {
    /// Well-formedness: the world is well formed, the lighting field
    /// covers it, the mipmap has half its extent, the camera is inside
    /// it, and the tunables are in range.
    pub open spec fn wf(self) -> bool {
        &&& self.world.wf()
        &&& valid_side(self.world.xs as int)
        &&& self.world.ys == self.world.xs
        &&& self.light@.len() == self.world.vox@.len()
        &&& self.mip.wf()
        &&& self.mip.xs == half_up(self.world.xs as int)
        &&& self.mip.ys == half_up(self.world.ys as int)
        &&& self.mip.zs == half_up(self.world.zs as int)
        &&& self.world.in_bounds(self.cam.x as int, self.cam.y as int, self.cam.z as int)
        &&& self.raycast_density >= 1
        &&& 1 <= self.max_scan_dist <= MAX_SCAN_DIST
        &&& (self.sky matches Some(img) ==> img.wf())
    }

    /// All fields but the world and the lighting field are equal; edits
    /// leave the configuration alone.
    pub open spec fn same_config(self, other: Engine) -> bool {
        &&& self.curcol == other.curcol
        &&& self.kv6col == other.kv6col
        &&& self.fogcol == other.fogcol
        &&& self.raycast_density == other.raycast_density
        &&& self.max_scan_dist == other.max_scan_dist
        &&& self.fallcheck == other.fallcheck
        &&& self.lighting_mode == other.lighting_mode
        &&& self.cam == other.cam
        &&& self.sky == other.sky
    }

    /// Brings up an engine over an empty `side x side x height` world.
    /// The side must be a power of two no larger than `MAX_DIM` and the
    /// height must be in `1..=MAX_DIM`; anything else is refused with
    /// `InitError` before any state is built.
    pub fn init(side: usize, height: usize) -> (r: Result<Engine, EngineError>)
        ensures
            r is Ok <==> valid_side(side as int) && 1 <= height <= MAX_DIM,
            r matches Ok(e) ==> {
                &&& e.wf()
                &&& e.world.xs == side && e.world.ys == side && e.world.zs == height
                &&& forall|x: int, y: int, z: int| !e.world.solid_at(x, y, z)
                &&& e.raycast_density == 1
                &&& e.max_scan_dist == MAX_SCAN_DIST
                &&& e.lighting_mode == LightingMode::NoSpecialLighting
                &&& e.sky is None
                &&& forall|i: int| 0 <= i < e.light@.len() ==> e.light@[i] == 255u8
            },
            r matches Err(err) ==> err == EngineError::InitError,
    {
        if !is_valid_side(side) || height < 1 || height > MAX_DIM {
            return Err(EngineError::InitError);
        }
        let world = World::new(side, side, height);
        let total = world.vox.len();
        let mut light: Vec<u8> = Vec::new();
        let mut i: usize = 0;
        while i < total
            invariant
                i <= total,
                light@.len() == i,
                forall|j: int| 0 <= j < i ==> light@[j] == 255u8,
            decreases total - i,
        {
            light.push(255);
            i = i + 1;
        }
        let mip = World::new((side + 1) / 2, (side + 1) / 2, (height + 1) / 2);
        Ok(Engine {
            world,
            light,
            mip,
            curcol: Color::RGB(255, 255, 255),
            kv6col: Color::RGB(255, 255, 255),
            fogcol: Color::RGB(0, 0, 0),
            raycast_density: 1,
            max_scan_dist: MAX_SCAN_DIST,
            fallcheck: true,
            lighting_mode: LightingMode::NoSpecialLighting,
            cam: ivec3 { x: 0, y: 0, z: 0 },
            sky: None,
        })
    }

    /// Tears the engine down, releasing all of its state.
    pub fn uninit(self) {
    }

    /// Side length of the world in `x` and `y` (the configured VSID):
    /// always a power of two, and equal along both horizontal axes.
    pub fn get_max_xy_dimension(&self) -> (r: i32)
        requires
            self.wf(),
        ensures
            r == self.world.xs,
            r == self.world.ys,
            valid_side(r as int),
    {
        self.world.xs as i32
    }

    /// Whether the voxel at `pos` is solid; coordinates outside the
    /// world count as empty.
    pub fn is_voxel_solid(&self, pos: &ivec3) -> (r: bool)
        requires
            self.wf(),
        ensures
            r == self.world.solid_at(pos.x as int, pos.y as int, pos.z as int),
    {
        if pos.x < 0 || pos.y < 0 || pos.z < 0 {
            return false;
        }
        let x = pos.x as usize;
        let y = pos.y as usize;
        let z = pos.z as usize;
        if x >= self.world.xs || y >= self.world.ys || z >= self.world.zs {
            return false;
        }
        self.world.get(x, y, z).solid()
    }

    /// The checked form of the solidity query: coordinates outside the
    /// world are refused with `OutOfBounds` instead of counting as
    /// empty.
    pub fn solidity(&self, pos: &ivec3) -> (r: Result<bool, EngineError>)
        requires
            self.wf(),
        ensures
            r is Ok <==> self.world.in_bounds(pos.x as int, pos.y as int, pos.z as int),
            r matches Ok(b) ==> b == self.world.solid_at(pos.x as int, pos.y as int,
                pos.z as int),
            r matches Err(e) ==> e == EngineError::OutOfBounds,
    {
        if pos.x < 0 || pos.y < 0 || pos.z < 0 {
            return Err(EngineError::OutOfBounds);
        }
        let x = pos.x as usize;
        let y = pos.y as usize;
        let z = pos.z as usize;
        if x >= self.world.xs || y >= self.world.ys || z >= self.world.zs {
            return Err(EngineError::OutOfBounds);
        }
        Ok(self.world.get(x, y, z).solid())
    }

    /// Writes one voxel: solid with the given color, or empty for
    /// `None`. Every other voxel keeps its value.
    pub fn set_cube(&mut self, pos: &ivec3, col: Option<Color>)
        requires
            old(self).wf(),
            old(self).world.in_bounds(pos.x as int, pos.y as int, pos.z as int),
        ensures
            final(self).wf(),
            final(self).same_config(*old(self)),
            final(self).world.same_dims(old(self).world),
            final(self).light == old(self).light,
            final(self).mip == old(self).mip,
            final(self).world.voxel_at(pos.x as int, pos.y as int, pos.z as int)
                == (match col { Some(c) => Voxel::Solid(c), None => Voxel::Empty }),
            final(self).world.solid_at(pos.x as int, pos.y as int, pos.z as int)
                == (col is Some),
            forall|x: int, y: int, z: int|
                old(self).world.in_bounds(x, y, z) && !(x == pos.x && y == pos.y && z == pos.z)
                    ==> final(self).world.voxel_at(x, y, z) == old(self).world.voxel_at(x, y, z),
    {
        let v = match col {
            Some(c) => Voxel::Solid(c),
            None => Voxel::Empty,
        };
        self.world.set(pos.x as usize, pos.y as usize, pos.z as usize, v);
    }

    /// Sets how many screen columns each cast ray covers; densities
    /// below 1 are rejected with `InvalidParameter` before anything is
    /// touched.
    pub fn set_raycast_density(&mut self, param: i32) -> (r: Result<(), EngineError>)
        ensures
            r is Ok <==> param >= 1,
            r is Ok ==> *final(self) == (Engine { raycast_density: param, ..*old(self) }),
            r matches Err(e) ==> e == EngineError::InvalidParameter && *final(self) == *old(self),
    {
        if param < 1 {
            return Err(EngineError::InvalidParameter);
        }
        self.raycast_density = param;
        Ok(())
    }

    pub fn get_raycast_density(&self) -> (r: i32)
        ensures
            r == self.raycast_density,
    {
        self.raycast_density
    }

    /// Caps ray length; values outside `1..=MAX_SCAN_DIST` are rejected
    /// with `InvalidParameter`.
    pub fn set_max_scan_dist(&mut self, dist: i32) -> (r: Result<(), EngineError>)
        ensures
            r is Ok <==> 1 <= dist <= MAX_SCAN_DIST,
            r is Ok ==> *final(self) == (Engine { max_scan_dist: dist, ..*old(self) }),
            r matches Err(e) ==> e == EngineError::InvalidParameter && *final(self) == *old(self),
    {
        if dist < 1 || dist > MAX_SCAN_DIST {
            return Err(EngineError::InvalidParameter);
        }
        self.max_scan_dist = dist;
        Ok(())
    }

    /// Sets the scan distance to its largest permitted value.
    pub fn set_max_scan_dist_to_max(&mut self)
        ensures
            *final(self) == (Engine { max_scan_dist: MAX_SCAN_DIST, ..*old(self) }),
    {
        self.max_scan_dist = MAX_SCAN_DIST;
    }

    pub fn set_fog_color(&mut self, param: Color)
        ensures
            *final(self) == (Engine { fogcol: param, ..*old(self) }),
    {
        self.fogcol = param;
    }

    pub fn set_kv6col(&mut self, param: Color)
        ensures
            *final(self) == (Engine { kv6col: param, ..*old(self) }),
    {
        self.kv6col = param;
    }

    /// Sets the color that sphere and rectangle inserts write.
    pub fn set_curcol(&mut self, param: Color)
        ensures
            *final(self) == (Engine { curcol: param, ..*old(self) }),
    {
        self.curcol = param;
    }

    pub fn set_fallcheck(&mut self, param: bool)
        ensures
            *final(self) == (Engine { fallcheck: param, ..*old(self) }),
    {
        self.fallcheck = param;
    }

    /// Switches the lighting mode; existing lighting values stay as
    /// they are until `update_lighting` recomputes them.
    pub fn set_lighting_mode(&mut self, mode: LightingMode)
        ensures
            *final(self) == (Engine { lighting_mode: mode, ..*old(self) }),
    {
        self.lighting_mode = mode;
    }

    /// The voxel that a CSG edit writes: solid in the current edit
    /// color for `Insert`, empty for `Remove`.
    pub open spec fn csg_voxel(self, op: CsgOperationType) -> Voxel {
        match op {
            CsgOperationType::Insert => Voxel::Solid(self.curcol),
            CsgOperationType::Remove => Voxel::Empty,
        }
    }

    /// CSG edit of the closed ball of radius `radius` around `pos`:
    /// `Insert` writes solid voxels in the current edit color, `Remove`
    /// clears them. Voxels outside the ball keep their value; the
    /// mipmap and lighting are left for an explicit regeneration pass.
    pub fn set_sphere(&mut self, pos: &ivec3, radius: i32, operation_type: CsgOperationType)
        requires
            old(self).wf(),
            old(self).world.in_bounds(pos.x as int, pos.y as int, pos.z as int),
            0 <= radius <= 4096,
        ensures
            final(self).wf(),
            final(self).same_config(*old(self)),
            final(self).world.same_dims(old(self).world),
            final(self).light == old(self).light,
            final(self).mip == old(self).mip,
            forall|x: int, y: int, z: int|
                old(self).world.in_bounds(x, y, z) ==> final(self).world.voxel_at(x, y, z)
                    == (if in_sphere(pos.x as int, pos.y as int, pos.z as int, radius as int,
                            x, y, z) {
                        old(self).csg_voxel(operation_type)
                    } else {
                        old(self).world.voxel_at(x, y, z)
                    }),
            forall|x: int, y: int, z: int|
                old(self).world.in_bounds(x, y, z)
                    && in_sphere(pos.x as int, pos.y as int, pos.z as int, radius as int, x, y, z)
                    ==> final(self).world.solid_at(x, y, z)
                        == (operation_type == CsgOperationType::Insert),
    {
        let v = match operation_type {
            CsgOperationType::Insert => Voxel::Solid(self.curcol),
            CsgOperationType::Remove => Voxel::Empty,
        };
        self.world.fill_sphere(pos.x, pos.y, pos.z, radius, v);
    }

    /// CSG edit of the closed box between corners `p1` and `p2`, in
    /// either corner order, clipped to the world.
    pub fn set_rect(&mut self, p1: &ivec3, p2: &ivec3, mode: CsgOperationType)
        requires
            old(self).wf(),
        ensures
            final(self).wf(),
            final(self).same_config(*old(self)),
            final(self).world.same_dims(old(self).world),
            final(self).light == old(self).light,
            final(self).mip == old(self).mip,
            forall|x: int, y: int, z: int|
                old(self).world.in_bounds(x, y, z) ==> final(self).world.voxel_at(x, y, z)
                    == (if in_box(p1.x as int, p1.y as int, p1.z as int,
                            p2.x as int, p2.y as int, p2.z as int, x, y, z) {
                        old(self).csg_voxel(mode)
                    } else {
                        old(self).world.voxel_at(x, y, z)
                    }),
    {
        let v = match mode {
            CsgOperationType::Insert => Voxel::Solid(self.curcol),
            CsgOperationType::Remove => Voxel::Empty,
        };
        self.world.fill_box(p1.x, p1.y, p1.z, p2.x, p2.y, p2.z, v);
    }

    /// Whether no solid voxel lies in the closed box between the two
    /// positions, in either corner order; the part of the box outside
    /// the world counts as empty.
    pub fn all_voxel_empty(&self, start_pos: &ivec3, end_pos: &ivec3) -> (r: bool)
        requires
            self.wf(),
        ensures
            r <==> forall|x: int, y: int, z: int|
                in_box(start_pos.x as int, start_pos.y as int, start_pos.z as int,
                    end_pos.x as int, end_pos.y as int, end_pos.z as int, x, y, z)
                    ==> !self.world.solid_at(x, y, z),
    {
        let xs = self.world.xs;
        let ys = self.world.ys;
        let zs = self.world.zs;
        let total = self.world.vox.len();
        let mut found: bool = false;
        let mut i: usize = 0;
        while i < total
            invariant
                0 <= i <= total,
                self.wf(),
                xs == self.world.xs && ys == self.world.ys && zs == self.world.zs,
                total == self.world.vox@.len(),
                found <==> exists|j: int| 0 <= j < i
                    && in_box(start_pos.x as int, start_pos.y as int, start_pos.z as int,
                        end_pos.x as int, end_pos.y as int, end_pos.z as int,
                        coord_x(j, ys as int, zs as int),
                        coord_y(j, ys as int, zs as int),
                        coord_z(j, zs as int))
                    && self.world.vox@[j].is_solid(),
            decreases total - i,
        {
            proof {
                lemma_coords(xs as int, ys as int, zs as int, i as int);
            }
            let q = i / zs;
            let x = (q / ys) as i32;
            let y = (q % ys) as i32;
            let z = (i % zs) as i32;
            if box_test(start_pos.x, start_pos.y, start_pos.z,
                end_pos.x, end_pos.y, end_pos.z, x, y, z) {
                let v = self.world.vox[i];
                if v.solid() {
                    found = true;
                }
            }
            i = i + 1;
        }
        proof {
            if found {
                let j = choose|j: int| 0 <= j < total
                    && in_box(start_pos.x as int, start_pos.y as int, start_pos.z as int,
                        end_pos.x as int, end_pos.y as int, end_pos.z as int,
                        coord_x(j, ys as int, zs as int),
                        coord_y(j, ys as int, zs as int),
                        coord_z(j, zs as int))
                    && self.world.vox@[j].is_solid();
                lemma_coords(xs as int, ys as int, zs as int, j);
                assert(self.world.solid_at(coord_x(j, ys as int, zs as int),
                    coord_y(j, ys as int, zs as int), coord_z(j, zs as int)));
            } else {
                assert forall|x: int, y: int, z: int|
                    in_box(start_pos.x as int, start_pos.y as int, start_pos.z as int,
                        end_pos.x as int, end_pos.y as int, end_pos.z as int, x, y, z)
                        implies !self.world.solid_at(x, y, z) by {
                    if self.world.solid_at(x, y, z) {
                        lemma_flat_idx(xs as int, ys as int, zs as int, x, y, z);
                    }
                }
            }
        }
        !found
    }

    /// Casts a single ray from `starting_point` to `ending_point`.
    /// Returns `CanSee` exactly when no sample point of the lattice
    /// segment between them holds a solid voxel; otherwise returns the
    /// first blocking voxel encountered from `starting_point`.
    pub fn can_see(&self, starting_point: &ivec3, ending_point: &ivec3) -> (r: VisibilityResult)
        requires
            self.wf(),
            self.world.in_bounds(starting_point.x as int, starting_point.y as int,
                starting_point.z as int),
            self.world.in_bounds(ending_point.x as int, ending_point.y as int,
                ending_point.z as int),
        ensures
            (r == VisibilityResult::CanSee) <==> (forall|i: int|
                0 <= i <= seg_n(*starting_point, *ending_point)
                    ==> !solid_on_seg(self.world, *starting_point, *ending_point, i)),
            r matches VisibilityResult::CannotSee(p) ==> exists|i: int|
                {
                    &&& 0 <= i <= seg_n(*starting_point, *ending_point)
                    &&& solid_on_seg(self.world, *starting_point, *ending_point, i)
                    &&& p.x == seg_x(*starting_point, *ending_point, i)
                    &&& p.y == seg_y(*starting_point, *ending_point, i)
                    &&& p.z == seg_z(*starting_point, *ending_point, i)
                    &&& forall|j: int| 0 <= j < i
                        ==> !solid_on_seg(self.world, *starting_point, *ending_point, j)
                },
    {
        let a = *starting_point;
        let b = *ending_point;
        let dx = b.x - a.x;
        let dy = b.y - a.y;
        let dz = b.z - a.z;
        let ax = if dx < 0 { -dx } else { dx };
        let ay = if dy < 0 { -dy } else { dy };
        let az = if dz < 0 { -dz } else { dz };
        let n = if ax >= ay && ax >= az { ax } else if ay >= az { ay } else { az };
        proof {
            assert(n == seg_n(a, b));
        }
        let mut i: i32 = 0;
        while i <= n
            invariant
                self.wf(),
                a == *starting_point && b == *ending_point,
                self.world.in_bounds(a.x as int, a.y as int, a.z as int),
                self.world.in_bounds(b.x as int, b.y as int, b.z as int),
                n == seg_n(a, b),
                dx == b.x - a.x && dy == b.y - a.y && dz == b.z - a.z,
                0 <= n < 1024,
                0 <= i <= n + 1,
                forall|j: int| 0 <= j < i ==> !solid_on_seg(self.world, a, b, j),
            decreases n + 1 - i,
        {
            let px: i32;
            let py: i32;
            let pz: i32;
            if n == 0 {
                px = a.x;
                py = a.y;
                pz = a.z;
            } else {
                proof {
                    lemma_rdiv_range(dx as int, i as int, n as int);
                    lemma_rdiv_range(dy as int, i as int, n as int);
                    lemma_rdiv_range(dz as int, i as int, n as int);
                    assert(-0x100000 <= dx as int * i as int <= 0x100000
                        && -0x100000 <= dy as int * i as int <= 0x100000
                        && -0x100000 <= dz as int * i as int <= 0x100000) by (nonlinear_arith)
                        requires
                            -1024 <= dx as int <= 1024,
                            -1024 <= dy as int <= 1024,
                            -1024 <= dz as int <= 1024,
                            0 <= i as int <= 1024;
                }
                px = a.x + rdiv_exec(dx as i64 * i as i64, n as i64) as i32;
                py = a.y + rdiv_exec(dy as i64 * i as i64, n as i64) as i32;
                pz = a.z + rdiv_exec(dz as i64 * i as i64, n as i64) as i32;
            }
            proof {
                assert(px == seg_x(a, b, i as int));
                assert(py == seg_y(a, b, i as int));
                assert(pz == seg_z(a, b, i as int));
            }
            let v = self.world.get(px as usize, py as usize, pz as usize);
            if v.solid() {
                proof {
                    assert(solid_on_seg(self.world, a, b, i as int));
                }
                return VisibilityResult::CannotSee(ivec3 { x: px, y: py, z: pz });
            }
            i = i + 1;
        }
        VisibilityResult::CanSee
    }

    /// Swept movement of a body of half-side `acr` from `pos` by
    /// `move_vec`, clipped against solid voxels: the body follows the
    /// lattice segment of the motion, and at each step an axis whose
    /// move is blocked is skipped while the others still advance. The
    /// returned position never overlaps a solid voxel, whatever the
    /// solid configuration and the motion. A body not wholly inside the
    /// world has no defined voxel support and does not move.
    pub fn clip_move(&self, pos: &mut ivec3, move_vec: &ivec3, acr: i32)
        requires
            self.wf(),
            0 <= acr <= 1024,
            -4096 <= move_vec.x <= 4096,
            -4096 <= move_vec.y <= 4096,
            -4096 <= move_vec.z <= 4096,
            -0x10000 <= old(pos).x <= 0x10000,
            -0x10000 <= old(pos).y <= 0x10000,
            -0x10000 <= old(pos).z <= 0x10000,
            body_clear(self.world, old(pos).x as int, old(pos).y as int, old(pos).z as int,
                acr as int),
        ensures
            body_box_in_bounds(self.world, old(pos).x as int, old(pos).y as int,
                old(pos).z as int, acr as int) ==> {
                &&& (final(pos).x as int, final(pos).y as int, final(pos).z as int)
                    == clip_dest(self.world, *old(pos), *move_vec, acr as int)
                &&& body_free(self.world, final(pos).x as int, final(pos).y as int,
                    final(pos).z as int, acr as int)
            },
            !body_box_in_bounds(self.world, old(pos).x as int, old(pos).y as int,
                old(pos).z as int, acr as int) ==> *final(pos) == *old(pos),
            body_clear(self.world, final(pos).x as int, final(pos).y as int,
                final(pos).z as int, acr as int),
    {
        let xs = self.world.xs;
        let ys = self.world.ys;
        let zs = self.world.zs;
        if pos.x - acr < 0 || pos.x + acr >= xs as i32
            || pos.y - acr < 0 || pos.y + acr >= ys as i32
            || pos.z - acr < 0 || pos.z + acr >= zs as i32 {
            return;
        }
        let a = *pos;
        let b = ivec3 {
            x: a.x + move_vec.x,
            y: a.y + move_vec.y,
            z: a.z + move_vec.z,
        };
        let dx = move_vec.x;
        let dy = move_vec.y;
        let dz = move_vec.z;
        let axd = if dx < 0 { -dx } else { dx };
        let ayd = if dy < 0 { -dy } else { dy };
        let azd = if dz < 0 { -dz } else { dz };
        let n = if axd >= ayd && axd >= azd { axd } else if ayd >= azd { ayd } else { azd };
        proof {
            assert(n == seg_n(a, b));
        }
        let mut px = a.x;
        let mut py = a.y;
        let mut pz = a.z;
        let mut i: i32 = 0;
        while i < n
            invariant
                self.wf(),
                a == *old(pos),
                b.x == a.x + dx && b.y == a.y + dy && b.z == a.z + dz,
                dx == move_vec.x && dy == move_vec.y && dz == move_vec.z,
                -4096 <= dx <= 4096 && -4096 <= dy <= 4096 && -4096 <= dz <= 4096,
                n == seg_n(a, b),
                0 <= n <= 4096,
                0 <= i <= n,
                0 <= acr <= 1024,
                body_free(self.world, px as int, py as int, pz as int, acr as int),
                sweep_from(self.world, a, b, a.x as int, a.y as int, a.z as int, 0, acr as int)
                    == sweep_from(self.world, a, b, px as int, py as int, pz as int,
                        i as int, acr as int),
            decreases n - i,
        {
            proof {
                lemma_rdiv_range(dx as int, i as int, n as int);
                lemma_rdiv_range(dy as int, i as int, n as int);
                lemma_rdiv_range(dz as int, i as int, n as int);
                lemma_rdiv_range(dx as int, i + 1, n as int);
                lemma_rdiv_range(dy as int, i + 1, n as int);
                lemma_rdiv_range(dz as int, i + 1, n as int);
                assert(-0x1000000 <= dx as int * (i as int) <= 0x1000000
                    && -0x1000000 <= dy as int * (i as int) <= 0x1000000
                    && -0x1000000 <= dz as int * (i as int) <= 0x1000000
                    && -0x1000000 <= dx as int * (i + 1) <= 0x1000000
                    && -0x1000000 <= dy as int * (i + 1) <= 0x1000000
                    && -0x1000000 <= dz as int * (i + 1) <= 0x1000000) by (nonlinear_arith)
                    requires
                        -4096 <= dx as int <= 4096,
                        -4096 <= dy as int <= 4096,
                        -4096 <= dz as int <= 4096,
                        0 <= i as int,
                        i < n,
                        n <= 4096;
            }
            let sx = (rdiv_exec(dx as i64 * (i + 1) as i64, n as i64)
                - rdiv_exec(dx as i64 * i as i64, n as i64)) as i32;
            let sy = (rdiv_exec(dy as i64 * (i + 1) as i64, n as i64)
                - rdiv_exec(dy as i64 * i as i64, n as i64)) as i32;
            let sz = (rdiv_exec(dz as i64 * (i + 1) as i64, n as i64)
                - rdiv_exec(dz as i64 * i as i64, n as i64)) as i32;
            proof {
                assert(sx as int == seg_x(a, b, i + 1) - seg_x(a, b, i as int));
                assert(sy as int == seg_y(a, b, i + 1) - seg_y(a, b, i as int));
                assert(sz as int == seg_z(a, b, i + 1) - seg_z(a, b, i as int));
            }
            let mut nx = px;
            let mut ny = py;
            let mut nz = pz;
            if sx != 0 && body_free_exec(&self.world, px + sx, py, pz, acr) {
                nx = px + sx;
            }
            if sy != 0 && body_free_exec(&self.world, nx, py + sy, pz, acr) {
                ny = py + sy;
            }
            if sz != 0 && body_free_exec(&self.world, nx, ny, pz + sz, acr) {
                nz = pz + sz;
            }
            proof {
                assert((nx as int, ny as int, nz as int) == sweep_step(self.world,
                    px as int, py as int, pz as int, sx as int, sy as int, sz as int,
                    acr as int));
            }
            px = nx;
            py = ny;
            pz = nz;
            i = i + 1;
        }
        *pos = ivec3 { x: px, y: py, z: pz };
    }

    /// Carves the closed ball of radius `radius` around `center` out of
    /// the world into a new caller-owned sprite. Returns the sprite and
    /// the number of voxels that were solid inside the ball; those
    /// voxels become empty in the world.
    pub fn melt_sphere(&mut self, center: &ivec3, radius: i32) -> (ret: (VxSprite, i32))
        requires
            old(self).wf(),
            old(self).world.in_bounds(center.x as int, center.y as int, center.z as int),
            0 <= radius <= 500,
        ensures
            final(self).wf(),
            final(self).same_config(*old(self)),
            final(self).world.same_dims(old(self).world),
            final(self).light == old(self).light,
            final(self).mip == old(self).mip,
            forall|x: int, y: int, z: int|
                old(self).world.in_bounds(x, y, z) ==> final(self).world.voxel_at(x, y, z)
                    == (if in_sphere(center.x as int, center.y as int, center.z as int,
                            radius as int, x, y, z) {
                        Voxel::Empty
                    } else {
                        old(self).world.voxel_at(x, y, z)
                    }),
            forall|x: int, y: int, z: int|
                in_sphere(center.x as int, center.y as int, center.z as int, radius as int,
                    x, y, z) ==> !final(self).world.solid_at(x, y, z),
            ret.1 == count_solid_in_sphere(old(self).world, center.x as int, center.y as int,
                center.z as int, radius as int),
            ret.0.ownership == SpriteOwnership::CallerOwned,
            ret.0.wf(),
            ret.0.grid.xs == 2 * radius + 1,
            ret.0.grid.ys == 2 * radius + 1,
            ret.0.grid.zs == 2 * radius + 1,
            ret.0.pos.x == center.x - radius,
            ret.0.pos.y == center.y - radius,
            ret.0.pos.z == center.z - radius,
            forall|sx: int, sy: int, sz: int|
                ret.0.grid.in_bounds(sx, sy, sz) ==> ret.0.grid.voxel_at(sx, sy, sz)
                    == (if old(self).world.in_bounds(center.x - radius + sx,
                            center.y - radius + sy, center.z - radius + sz)
                        && in_sphere(center.x as int, center.y as int, center.z as int,
                            radius as int, center.x - radius + sx, center.y - radius + sy,
                            center.z - radius + sz) {
                        old(self).world.voxel_at(center.x - radius + sx,
                            center.y - radius + sy, center.z - radius + sz)
                    } else {
                        Voxel::Empty
                    }),
    {
        let side: usize = 2 * (radius as usize) + 1;
        let mut grid = World::new(side, side, side);
        let ox = center.x - radius;
        let oy = center.y - radius;
        let oz = center.z - radius;
        let xs = self.world.xs;
        let ys = self.world.ys;
        let zs = self.world.zs;
        let total = self.world.vox.len();
        proof {
            assert(xs * ys * zs <= 0x40000000) by (nonlinear_arith)
                requires 1 <= xs <= 1024, 1 <= ys <= 1024, 1 <= zs <= 1024;
        }
        let mut cnt: i32 = 0;
        let mut i: usize = 0;
        while i < total
            invariant
                0 <= i <= total,
                total <= 0x40000000,
                self.world.xs == xs && self.world.ys == ys && self.world.zs == zs,
                old(self).world.xs == xs && old(self).world.ys == ys
                    && old(self).world.zs == zs,
                1 <= xs <= MAX_DIM && 1 <= ys <= MAX_DIM && 1 <= zs <= MAX_DIM,
                total == xs * ys * zs,
                self.world.vox@.len() == total,
                old(self).world.vox@.len() == total,
                self.light == old(self).light,
                self.mip == old(self).mip,
                self.same_config(*old(self)),
                self.light@.len() == total,
                self.mip.wf(),
                self.mip.xs == half_up(xs as int) && self.mip.ys == half_up(ys as int)
                    && self.mip.zs == half_up(zs as int),
                self.world.in_bounds(self.cam.x as int, self.cam.y as int, self.cam.z as int),
                self.raycast_density >= 1,
                1 <= self.max_scan_dist <= MAX_SCAN_DIST,
                0 <= radius <= 500,
                side == 2 * radius + 1,
                ox == center.x - radius && oy == center.y - radius && oz == center.z - radius,
                old(self).world.in_bounds(center.x as int, center.y as int, center.z as int),
                grid.wf(),
                grid.xs == side && grid.ys == side && grid.zs == side,
                0 <= cnt <= i,
                cnt == count_solid_in_sphere_upto(old(self).world, center.x as int,
                    center.y as int, center.z as int, radius as int, i as int),
                forall|j: int| 0 <= j < i ==> self.world.vox@[j]
                    == (if in_sphere(center.x as int, center.y as int, center.z as int,
                            radius as int,
                            coord_x(j, ys as int, zs as int),
                            coord_y(j, ys as int, zs as int),
                            coord_z(j, zs as int)) {
                        Voxel::Empty
                    } else {
                        old(self).world.vox@[j]
                    }),
                forall|j: int| i <= j < total ==> self.world.vox@[j] == old(self).world.vox@[j],
                forall|sx: int, sy: int, sz: int|
                    grid.in_bounds(sx, sy, sz) ==> grid.voxel_at(sx, sy, sz)
                        == (if old(self).world.in_bounds(ox + sx, oy + sy, oz + sz)
                            && flat_idx(ys as int, zs as int, ox + sx, oy + sy, oz + sz) < i
                            && in_sphere(center.x as int, center.y as int, center.z as int,
                                radius as int, ox + sx, oy + sy, oz + sz) {
                            old(self).world.voxel_at(ox + sx, oy + sy, oz + sz)
                        } else {
                            Voxel::Empty
                        }),
            decreases total - i,
        {
            proof {
                lemma_coords(xs as int, ys as int, zs as int, i as int);
            }
            let q = i / zs;
            let x = (q / ys) as i32;
            let y = (q % ys) as i32;
            let z = (i % zs) as i32;
            if sphere_test(center.x, center.y, center.z, radius, x, y, z) {
                proof {
                    lemma_sphere_component_bound(center.x as int, center.y as int,
                        center.z as int, radius as int, x as int, y as int, z as int);
                }
                let v = self.world.vox[i];
                if v.solid() {
                    cnt = cnt + 1;
                }
                grid.set((x - ox) as usize, (y - oy) as usize, (z - oz) as usize, v);
                self.world.vox.set(i, Voxel::Empty);
            }
            proof {
                assert forall|sx: int, sy: int, sz: int|
                    grid.in_bounds(sx, sy, sz)
                        && old(self).world.in_bounds(ox + sx, oy + sy, oz + sz)
                        && flat_idx(ys as int, zs as int, ox + sx, oy + sy, oz + sz) == i
                        implies ox + sx == x && oy + sy == y && oz + sz == z by {
                    lemma_flat_idx(xs as int, ys as int, zs as int, ox + sx, oy + sy, oz + sz);
                }
            }
            i = i + 1;
        }
        proof {
            assert forall|x: int, y: int, z: int|
                old(self).world.in_bounds(x, y, z) implies self.world.voxel_at(x, y, z)
                    == (if in_sphere(center.x as int, center.y as int, center.z as int,
                            radius as int, x, y, z) {
                        Voxel::Empty
                    } else {
                        old(self).world.voxel_at(x, y, z)
                    }) by {
                lemma_flat_idx(xs as int, ys as int, zs as int, x, y, z);
            }
            assert forall|sx: int, sy: int, sz: int|
                grid.in_bounds(sx, sy, sz)
                    && old(self).world.in_bounds(ox + sx, oy + sy, oz + sz)
                    implies flat_idx(ys as int, zs as int, ox + sx, oy + sy, oz + sz)
                        < total by {
                lemma_flat_idx(xs as int, ys as int, zs as int, ox + sx, oy + sy, oz + sz);
            }
        }
        let spr = VxSprite {
            grid,
            pos: ivec3 { x: ox, y: oy, z: oz },
            ownership: SpriteOwnership::CallerOwned,
        };
        (spr, cnt)
    }

    /// Stamps a sprite into the world: where the sprite's grid holds a
    /// solid voxel, `Insert` writes that voxel into the world at the
    /// sprite's position and `Remove` clears the cell; everywhere else
    /// the world keeps its value.
    pub fn set_kv6_into_vxl_memory(&mut self, spr: &VxSprite, operation_type: CsgOperationType)
        requires
            old(self).wf(),
            spr.wf(),
            -4096 <= spr.pos.x <= 4096,
            -4096 <= spr.pos.y <= 4096,
            -4096 <= spr.pos.z <= 4096,
        ensures
            final(self).wf(),
            final(self).same_config(*old(self)),
            final(self).world.same_dims(old(self).world),
            final(self).light == old(self).light,
            final(self).mip == old(self).mip,
            forall|x: int, y: int, z: int|
                old(self).world.in_bounds(x, y, z) ==> final(self).world.voxel_at(x, y, z)
                    == (if spr.grid.solid_at(x - spr.pos.x, y - spr.pos.y, z - spr.pos.z) {
                        match operation_type {
                            CsgOperationType::Insert =>
                                spr.grid.voxel_at(x - spr.pos.x, y - spr.pos.y, z - spr.pos.z),
                            CsgOperationType::Remove => Voxel::Empty,
                        }
                    } else {
                        old(self).world.voxel_at(x, y, z)
                    }),
    {
        let xs = self.world.xs;
        let ys = self.world.ys;
        let zs = self.world.zs;
        let total = self.world.vox.len();
        let mut i: usize = 0;
        while i < total
            invariant
                0 <= i <= total,
                self.world.xs == xs && self.world.ys == ys && self.world.zs == zs,
                old(self).world.xs == xs && old(self).world.ys == ys
                    && old(self).world.zs == zs,
                1 <= xs <= MAX_DIM && 1 <= ys <= MAX_DIM && 1 <= zs <= MAX_DIM,
                total == xs * ys * zs,
                self.world.vox@.len() == total,
                old(self).world.vox@.len() == total,
                self.light == old(self).light,
                self.mip == old(self).mip,
                self.same_config(*old(self)),
                self.light@.len() == total,
                self.mip.wf(),
                self.mip.xs == half_up(xs as int) && self.mip.ys == half_up(ys as int)
                    && self.mip.zs == half_up(zs as int),
                self.world.in_bounds(self.cam.x as int, self.cam.y as int, self.cam.z as int),
                self.raycast_density >= 1,
                1 <= self.max_scan_dist <= MAX_SCAN_DIST,
                spr.wf(),
                -4096 <= spr.pos.x <= 4096 && -4096 <= spr.pos.y <= 4096
                    && -4096 <= spr.pos.z <= 4096,
                forall|j: int| 0 <= j < i ==> self.world.vox@[j]
                    == (if spr.grid.solid_at(
                            coord_x(j, ys as int, zs as int) - spr.pos.x,
                            coord_y(j, ys as int, zs as int) - spr.pos.y,
                            coord_z(j, zs as int) - spr.pos.z) {
                        match operation_type {
                            CsgOperationType::Insert => spr.grid.voxel_at(
                                coord_x(j, ys as int, zs as int) - spr.pos.x,
                                coord_y(j, ys as int, zs as int) - spr.pos.y,
                                coord_z(j, zs as int) - spr.pos.z),
                            CsgOperationType::Remove => Voxel::Empty,
                        }
                    } else {
                        old(self).world.vox@[j]
                    }),
                forall|j: int| i <= j < total ==> self.world.vox@[j] == old(self).world.vox@[j],
            decreases total - i,
        {
            proof {
                lemma_coords(xs as int, ys as int, zs as int, i as int);
            }
            let q = i / zs;
            let x = (q / ys) as i32;
            let y = (q % ys) as i32;
            let z = (i % zs) as i32;
            let sx = x - spr.pos.x;
            let sy = y - spr.pos.y;
            let sz = z - spr.pos.z;
            if sx >= 0 && sy >= 0 && sz >= 0 && (sx as usize) < spr.grid.xs
                && (sy as usize) < spr.grid.ys && (sz as usize) < spr.grid.zs {
                let v = spr.grid.get(sx as usize, sy as usize, sz as usize);
                if v.solid() {
                    let w = match operation_type {
                        CsgOperationType::Insert => v,
                        CsgOperationType::Remove => Voxel::Empty,
                    };
                    self.world.vox.set(i, w);
                }
            }
            i = i + 1;
        }
        proof {
            assert forall|x: int, y: int, z: int|
                old(self).world.in_bounds(x, y, z) implies self.world.voxel_at(x, y, z)
                    == (if spr.grid.solid_at(x - spr.pos.x, y - spr.pos.y, z - spr.pos.z) {
                        match operation_type {
                            CsgOperationType::Insert =>
                                spr.grid.voxel_at(x - spr.pos.x, y - spr.pos.y, z - spr.pos.z),
                            CsgOperationType::Remove => Voxel::Empty,
                        }
                    } else {
                        old(self).world.voxel_at(x, y, z)
                    }) by {
                lemma_flat_idx(xs as int, ys as int, zs as int, x, y, z);
            }
        }
    }

    /// The stored brightness of the in-bounds voxel `(x, y, z)`.
    pub open spec fn light_at(self, x: int, y: int, z: int) -> u8 {
        self.light@[flat_idx(self.world.ys as int, self.world.zs as int, x, y, z)]
    }

    /// Recomputes authoritative lighting over the closed box between
    /// the two corners (in either order) from the current mode and
    /// world, erasing any flash contribution there; lighting outside
    /// the box is left stale.
    pub fn update_lighting(&mut self, x0: i32, y0: i32, z0: i32, x1: i32, y1: i32, z1: i32)
        requires
            old(self).wf(),
        ensures
            final(self).wf(),
            final(self).same_config(*old(self)),
            final(self).world == old(self).world,
            final(self).mip == old(self).mip,
            forall|x: int, y: int, z: int|
                old(self).world.in_bounds(x, y, z) ==> final(self).light_at(x, y, z)
                    == (if in_box(x0 as int, y0 as int, z0 as int,
                            x1 as int, y1 as int, z1 as int, x, y, z) {
                        base_light(old(self).lighting_mode, old(self).world, x, y, z)
                    } else {
                        old(self).light_at(x, y, z)
                    }),
    {
        let xs = self.world.xs;
        let ys = self.world.ys;
        let zs = self.world.zs;
        let total = self.light.len();
        let mut i: usize = 0;
        while i < total
            invariant
                0 <= i <= total,
                *self == (Engine { light: self.light, ..*old(self) }),
                self.wf(),
                xs == self.world.xs && ys == self.world.ys && zs == self.world.zs,
                total == self.light@.len(),
                total == xs * ys * zs,
                forall|j: int| 0 <= j < i ==> self.light@[j]
                    == (if in_box(x0 as int, y0 as int, z0 as int,
                            x1 as int, y1 as int, z1 as int,
                            coord_x(j, ys as int, zs as int),
                            coord_y(j, ys as int, zs as int),
                            coord_z(j, zs as int)) {
                        base_light(old(self).lighting_mode, old(self).world,
                            coord_x(j, ys as int, zs as int),
                            coord_y(j, ys as int, zs as int),
                            coord_z(j, zs as int))
                    } else {
                        old(self).light@[j]
                    }),
                forall|j: int| i <= j < total ==> self.light@[j] == old(self).light@[j],
            decreases total - i,
        {
            proof {
                lemma_coords(xs as int, ys as int, zs as int, i as int);
            }
            let q = i / zs;
            let x = (q / ys) as i32;
            let y = (q % ys) as i32;
            let z = (i % zs) as i32;
            if box_test(x0, y0, z0, x1, y1, z1, x, y, z) {
                let here = voxel_checked(&self.world, x, y, z);
                let val: u8 = match self.lighting_mode {
                    LightingMode::NoSpecialLighting => 255,
                    LightingMode::SimpleEstimatedNormalLighting => {
                        if !here.solid() {
                            255
                        } else {
                            let above = voxel_checked(&self.world, x, y, z - 1);
                            if !above.solid() {
                                192
                            } else {
                                64
                            }
                        }
                    },
                    LightingMode::MultiplePointSourceLighting => {
                        if !here.solid() {
                            255
                        } else {
                            32
                        }
                    },
                };
                self.light.set(i, val);
            }
            i = i + 1;
        }
        proof {
            assert forall|x: int, y: int, z: int|
                old(self).world.in_bounds(x, y, z) implies self.light_at(x, y, z)
                    == (if in_box(x0 as int, y0 as int, z0 as int,
                            x1 as int, y1 as int, z1 as int, x, y, z) {
                        base_light(old(self).lighting_mode, old(self).world, x, y, z)
                    } else {
                        old(self).light_at(x, y, z)
                    }) by {
                lemma_flat_idx(xs as int, ys as int, zs as int, x, y, z);
            }
        }
    }

    /// Applies a transient localized flash: every voxel within
    /// `flash_radius` of `pos` has its brightness raised by `intens`,
    /// saturating at full brightness. The next `update_lighting` pass
    /// over the region erases the contribution.
    pub fn set_norm_flash(&mut self, pos: &ivec3, flash_radius: i32, intens: i32)
        requires
            old(self).wf(),
            -4096 <= pos.x <= 4096,
            -4096 <= pos.y <= 4096,
            -4096 <= pos.z <= 4096,
            0 <= flash_radius <= 4096,
            0 <= intens,
        ensures
            final(self).wf(),
            final(self).same_config(*old(self)),
            final(self).world == old(self).world,
            final(self).mip == old(self).mip,
            forall|x: int, y: int, z: int|
                old(self).world.in_bounds(x, y, z) ==> final(self).light_at(x, y, z)
                    == (if in_sphere(pos.x as int, pos.y as int, pos.z as int,
                            flash_radius as int, x, y, z) {
                        flashed(old(self).light_at(x, y, z), intens as int)
                    } else {
                        old(self).light_at(x, y, z)
                    }),
    {
        let xs = self.world.xs;
        let ys = self.world.ys;
        let zs = self.world.zs;
        let total = self.light.len();
        let mut i: usize = 0;
        while i < total
            invariant
                0 <= i <= total,
                *self == (Engine { light: self.light, ..*old(self) }),
                self.wf(),
                xs == self.world.xs && ys == self.world.ys && zs == self.world.zs,
                total == self.light@.len(),
                total == xs * ys * zs,
                -4096 <= pos.x <= 4096 && -4096 <= pos.y <= 4096 && -4096 <= pos.z <= 4096,
                0 <= flash_radius <= 4096,
                0 <= intens,
                forall|j: int| 0 <= j < i ==> self.light@[j]
                    == (if in_sphere(pos.x as int, pos.y as int, pos.z as int,
                            flash_radius as int,
                            coord_x(j, ys as int, zs as int),
                            coord_y(j, ys as int, zs as int),
                            coord_z(j, zs as int)) {
                        flashed(old(self).light@[j], intens as int)
                    } else {
                        old(self).light@[j]
                    }),
                forall|j: int| i <= j < total ==> self.light@[j] == old(self).light@[j],
            decreases total - i,
        {
            proof {
                lemma_coords(xs as int, ys as int, zs as int, i as int);
            }
            let q = i / zs;
            let x = (q / ys) as i32;
            let y = (q % ys) as i32;
            let z = (i % zs) as i32;
            if sphere_test(pos.x, pos.y, pos.z, flash_radius, x, y, z) {
                let cur = self.light[i];
                let add = if intens > 255 { 255 } else { intens };
                let summed = cur as i32 + add;
                let val: u8 = if summed > 255 { 255 } else { summed as u8 };
                proof {
                    assert(val == flashed(self.light@[i as int], intens as int));
                }
                self.light.set(i, val);
            }
            i = i + 1;
        }
        proof {
            assert forall|x: int, y: int, z: int|
                old(self).world.in_bounds(x, y, z) implies self.light_at(x, y, z)
                    == (if in_sphere(pos.x as int, pos.y as int, pos.z as int,
                            flash_radius as int, x, y, z) {
                        flashed(old(self).light_at(x, y, z), intens as int)
                    } else {
                        old(self).light_at(x, y, z)
                    }) by {
                lemma_flat_idx(xs as int, ys as int, zs as int, x, y, z);
            }
        }
    }

    /// Regenerates the mipmap over the rectangular footprint between
    /// `(x0, y0)` and `(x1, y1)` (in either corner order): every mipmap
    /// cell whose column lies in the footprint is recomputed from the
    /// eight world voxels it covers; cells outside keep their stale
    /// value.
    pub fn generate_vxl_mipmapping(&mut self, x0: i32, y0: i32, x1: i32, y1: i32)
        requires
            old(self).wf(),
            0 <= x0 < old(self).world.xs,
            0 <= x1 < old(self).world.xs,
            0 <= y0 < old(self).world.ys,
            0 <= y1 < old(self).world.ys,
        ensures
            final(self).wf(),
            final(self).same_config(*old(self)),
            final(self).world == old(self).world,
            final(self).light == old(self).light,
            final(self).mip.same_dims(old(self).mip),
            forall|mx: int, my: int, mz: int|
                old(self).mip.in_bounds(mx, my, mz) ==> final(self).mip.voxel_at(mx, my, mz)
                    == (if (if x0 <= x1 { x0 / 2 <= mx <= x1 / 2 } else { x1 / 2 <= mx <= x0 / 2 })
                        && (if y0 <= y1 { y0 / 2 <= my <= y1 / 2 } else { y1 / 2 <= my <= y0 / 2 }) {
                        mip_voxel(old(self).world, mx, my, mz)
                    } else {
                        old(self).mip.voxel_at(mx, my, mz)
                    }),
    {
        let lx = if x0 <= x1 { x0 / 2 } else { x1 / 2 };
        let hx = if x0 <= x1 { x1 / 2 } else { x0 / 2 };
        let ly = if y0 <= y1 { y0 / 2 } else { y1 / 2 };
        let hy = if y0 <= y1 { y1 / 2 } else { y0 / 2 };
        let mxs = self.mip.xs;
        let mys = self.mip.ys;
        let mzs = self.mip.zs;
        let total = self.mip.vox.len();
        let mut i: usize = 0;
        while i < total
            invariant
                0 <= i <= total,
                *self == (Engine { mip: self.mip, ..*old(self) }),
                old(self).wf(),
                self.mip.wf(),
                self.mip.same_dims(old(self).mip),
                mxs == self.mip.xs && mys == self.mip.ys && mzs == self.mip.zs,
                total == self.mip.vox@.len(),
                total == mxs * mys * mzs,
                lx == (if x0 <= x1 { x0 / 2 } else { x1 / 2 }),
                hx == (if x0 <= x1 { x1 / 2 } else { x0 / 2 }),
                ly == (if y0 <= y1 { y0 / 2 } else { y1 / 2 }),
                hy == (if y0 <= y1 { y1 / 2 } else { y0 / 2 }),
                0 <= x0 < old(self).world.xs && 0 <= x1 < old(self).world.xs,
                0 <= y0 < old(self).world.ys && 0 <= y1 < old(self).world.ys,
                forall|j: int| 0 <= j < i ==> self.mip.vox@[j]
                    == (if lx <= coord_x(j, mys as int, mzs as int) <= hx
                        && ly <= coord_y(j, mys as int, mzs as int) <= hy {
                        mip_voxel(old(self).world,
                            coord_x(j, mys as int, mzs as int),
                            coord_y(j, mys as int, mzs as int),
                            coord_z(j, mzs as int))
                    } else {
                        old(self).mip.vox@[j]
                    }),
                forall|j: int| i <= j < total ==> self.mip.vox@[j] == old(self).mip.vox@[j],
            decreases total - i,
        {
            proof {
                lemma_coords(mxs as int, mys as int, mzs as int, i as int);
            }
            let q = i / mzs;
            let mx = (q / mys) as i32;
            let my = (q % mys) as i32;
            let mz = (i % mzs) as i32;
            if lx <= mx && mx <= hx && ly <= my && my <= hy {
                let v = mip_cell(&self.world, mx, my, mz);
                self.mip.vox.set(i, v);
            }
            i = i + 1;
        }
        proof {
            assert forall|mx: int, my: int, mz: int|
                old(self).mip.in_bounds(mx, my, mz) implies self.mip.voxel_at(mx, my, mz)
                    == (if (if x0 <= x1 { x0 / 2 <= mx <= x1 / 2 } else { x1 / 2 <= mx <= x0 / 2 })
                        && (if y0 <= y1 { y0 / 2 <= my <= y1 / 2 } else { y1 / 2 <= my <= y0 / 2 }) {
                        mip_voxel(old(self).world, mx, my, mz)
                    } else {
                        old(self).mip.voxel_at(mx, my, mz)
                    }) by {
                lemma_flat_idx(mxs as int, mys as int, mzs as int, mx, my, mz);
            }
        }
    }

    /// Replaces the world with the built-in default map: a flat floor
    /// of gray voxels at the bottom layer of a 32-unit cube, everything
    /// above it empty. Lighting resets to full brightness, the mipmap
    /// to empty, and the camera moves to the returned position above
    /// the middle of the floor.
    pub fn load_default_map(&mut self) -> (cam: ivec3)
        requires
            old(self).wf(),
        ensures
            final(self).wf(),
            final(self).world.xs == 32 && final(self).world.ys == 32 && final(self).world.zs == 32,
            forall|x: int, y: int, z: int|
                final(self).world.in_bounds(x, y, z) ==> final(self).world.voxel_at(x, y, z)
                    == (if z == 31 {
                        Voxel::Solid(Color::RGB(128, 128, 128))
                    } else {
                        Voxel::Empty
                    }),
            cam == final(self).cam,
            cam == (ivec3 { x: 16, y: 16, z: 16 }),
            final(self).curcol == old(self).curcol,
            final(self).kv6col == old(self).kv6col,
            final(self).fogcol == old(self).fogcol,
            final(self).raycast_density == old(self).raycast_density,
            final(self).max_scan_dist == old(self).max_scan_dist,
            final(self).fallcheck == old(self).fallcheck,
            final(self).lighting_mode == old(self).lighting_mode,
            final(self).sky == old(self).sky,
            forall|i: int| 0 <= i < final(self).light@.len() ==> final(self).light@[i] == 255u8,
            forall|x: int, y: int, z: int| !final(self).mip.solid_at(x, y, z),
    {
        let mut w = World::new(32, 32, 32);
        w.fill_box(0, 0, 31, 31, 31, 31, Voxel::Solid(Color::RGB(128, 128, 128)));
        let total = w.vox.len();
        let mut light: Vec<u8> = Vec::new();
        let mut k: usize = 0;
        while k < total
            invariant
                0 <= k <= total,
                light@.len() == k,
                forall|j: int| 0 <= j < k ==> light@[j] == 255u8,
            decreases total - k,
        {
            light.push(255);
            k = k + 1;
        }
        let cam = ivec3 { x: 16, y: 16, z: 16 };
        self.world = w;
        self.light = light;
        self.mip = World::new(16, 16, 16);
        self.cam = cam;
        cam
    }

    /// Binds a sky raster: pixels whose render ray hits no voxel take
    /// its pixels, tiled over the screen, instead of the fog color. An
    /// image whose buffer does not match its stated dimensions is
    /// refused with `LoadError`.
    pub fn load_sky(&mut self, img: Image) -> (r: Result<(), EngineError>)
        requires
            old(self).wf(),
        ensures
            final(self).wf(),
            r is Ok <==> img.wf(),
            r is Ok ==> *final(self) == (Engine { sky: Some(img), ..*old(self) }),
            r matches Err(e) ==> e == EngineError::LoadError && *final(self) == *old(self),
    {
        if img.width < 1 || img.width > 1024 || img.height < 1 || img.height > 1024
            || img.bytes_per_line != 4 * img.width {
            return Err(EngineError::LoadError);
        }
        proof {
            assert((img.width as int) * (img.height as int) <= 0x100000) by (nonlinear_arith)
                requires 1 <= img.width <= 1024, 1 <= img.height <= 1024;
        }
        if img.pixels.len() != (img.width as usize) * (img.height as usize) {
            return Err(EngineError::LoadError);
        }
        self.sky = Some(img);
        Ok(())
    }

    /// Moves the camera. Any position is accepted; one outside the
    /// world is clamped into it per axis, the store's policy for
    /// out-of-extent coordinates.
    pub fn set_camera(&mut self, pos: &ivec3)
        requires
            old(self).wf(),
        ensures
            *final(self) == (Engine {
                cam: (ivec3 {
                    x: clamp_coord(pos.x as int, old(self).world.xs as int) as i32,
                    y: clamp_coord(pos.y as int, old(self).world.ys as int) as i32,
                    z: clamp_coord(pos.z as int, old(self).world.zs as int) as i32,
                }),
                ..*old(self)
            }),
    {
        let cx = if pos.x < 0 {
            0
        } else if pos.x >= self.world.xs as i32 {
            self.world.xs as i32 - 1
        } else {
            pos.x
        };
        let cy = if pos.y < 0 {
            0
        } else if pos.y >= self.world.ys as i32 {
            self.world.ys as i32 - 1
        } else {
            pos.y
        };
        let cz = if pos.z < 0 {
            0
        } else if pos.z >= self.world.zs as i32 {
            self.world.zs as i32 - 1
        } else {
            pos.z
        };
        self.cam = ivec3 { x: cx, y: cy, z: cz };
    }
}

} // verus!
