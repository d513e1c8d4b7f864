//! The rendering pass: one ray per framebuffer pixel, marched through
//! the world store, shaded by the lighting field, with fog where no
//! voxel is hit.
//!
//! The camera model is an axis-aligned orthographic view looking down
//! the `z` axis from the camera position: pixel `(px, py)` casts the
//! column at `(cam.x - width / 2 + px, cam.y - height / 2 + py)`.

use vstd::prelude::*;
use crate::color::Color;
use crate::engine::Engine;
use crate::sprite::VxSprite;
use crate::overlay::{FrameBuffer, lemma_pix_idx};
use crate::world::{World, Voxel, lemma_flat_idx, lemma_coords};

verus! {

/// Depth of the first solid voxel in the column at `(x, y)`, looking
/// at `k` cells from `z0` onward; `None` when the scan runs out.
pub open spec fn column_hit(w: World, x: int, y: int, z0: int, k: nat) -> Option<int>
    decreases k,
{
    if k == 0 {
        None
    } else if w.solid_at(x, y, z0) {
        Some(z0)
    } else {
        column_hit(w, x, y, z0 + 1, (k - 1) as nat)
    }
}

/// One color channel scaled by a brightness in `0..=255`.
pub open spec fn shade_channel(c: u8, l: u8) -> u8 {
    ((c * l) / 255) as u8
}

/// A voxel color under a brightness value.
pub open spec fn shaded(c: Color, l: u8) -> Color {
    match c {
        Color::RGB(r, g, b) => Color::RGB(
            shade_channel(r, l),
            shade_channel(g, l),
            shade_channel(b, l),
        ),
    }
}

/// How many cells a ray entering at depth `z0` may scan: to the bottom
/// of the world, capped by the configured scan distance.
pub open spec fn scan_steps(e: Engine, z0: int) -> nat {
    let room = if z0 < 0 { e.world.zs as int } else { e.world.zs - z0 };
    let capped = if room > e.max_scan_dist { e.max_scan_dist as int } else { room };
    if capped < 0 {
        0nat
    } else {
        capped as nat
    }
}

/// The packed pixel a ray through world column `(wx, wy)` produces on
/// a hit: the first solid voxel's color shaded by its stored
/// brightness; `None` when the scan distance runs out first.
pub open spec fn cast_hit(e: Engine, wx: int, wy: int) -> Option<int> {
    let z0 = if e.cam.z < 0 { 0 } else { e.cam.z as int };
    match column_hit(e.world, wx, wy, z0, scan_steps(e, z0)) {
        Some(z) => Some(shaded(
            e.world.voxel_at(wx, wy, z)->Solid_0,
            e.light_at(wx, wy, z),
        ).packed()),
        None => None,
    }
}

/// What a pixel whose ray hits nothing shows: the bound sky raster
/// tiled over the screen, or the fog color without one.
pub open spec fn miss_pixel(e: Engine, px: int, py: int) -> int {
    match e.sky {
        Some(img) => img.pixels@[
            (py % (img.height as int)) * img.width + (px % (img.width as int))] as int,
        None => e.fogcol.packed(),
    }
}

/// The packed pixel rendered at screen position `(px, py)` casting the
/// world column `(wx, wy)`.
pub open spec fn rendered_pixel(e: Engine, wx: int, wy: int, px: int, py: int) -> int {
    match cast_hit(e, wx, wy) {
        Some(v) => v,
        None => miss_pixel(e, px, py),
    }
}

/// Scales a color by a brightness value on machine integers.
pub fn shade_exec(c: Color, l: u8) -> (r: Color)
    ensures
        r == shaded(c, l),
{
    match c {
        Color::RGB(rr, gg, bb) => {
            proof {
                lemma_shade_channel_bound(rr, l);
                lemma_shade_channel_bound(gg, l);
                lemma_shade_channel_bound(bb, l);
            }
            Color::RGB(
                ((rr as u32 * l as u32) / 255) as u8,
                ((gg as u32 * l as u32) / 255) as u8,
                ((bb as u32 * l as u32) / 255) as u8,
            )
        }
    }
}

/// A scaled channel stays a byte.
proof fn lemma_shade_channel_bound(c: u8, l: u8)
    ensures
        0 <= (c * l) / 255 <= 255,
        shade_channel(c, l) == (c * l) / 255,
{
    assert(0 <= c * l <= 255 * 255) by (nonlinear_arith)
        requires 0 <= c <= 255, 0 <= l <= 255;
    vstd::arithmetic::div_mod::lemma_div_is_ordered(c * l, 255 * 255int, 255);
    vstd::arithmetic::div_mod::lemma_fundamental_div_mod_converse(255 * 255int, 255, 255, 0);
    vstd::arithmetic::div_mod::lemma_div_is_ordered(0, c * l, 255);
}

/// A color tinted by an ambient color, channel by channel.
pub open spec fn tinted(c: Color, ambient: Color) -> Color {
    match (c, ambient) {
        (Color::RGB(r, g, b), Color::RGB(ar, ag, ab)) => Color::RGB(
            shade_channel(r, ar),
            shade_channel(g, ag),
            shade_channel(b, ab),
        ),
    }
}

/// Tints a color by an ambient color on machine integers.
pub fn tint_exec(c: Color, ambient: Color) -> (r: Color)
    ensures
        r == tinted(c, ambient),
{
    match (c, ambient) {
        (Color::RGB(rr, gg, bb), Color::RGB(ar, ag, ab)) => {
            proof {
                lemma_shade_channel_bound(rr, ar);
                lemma_shade_channel_bound(gg, ag);
                lemma_shade_channel_bound(bb, ab);
            }
            Color::RGB(
                ((rr as u32 * ar as u32) / 255) as u8,
                ((gg as u32 * ag as u32) / 255) as u8,
                ((bb as u32 * ab as u32) / 255) as u8,
            )
        }
    }
}

/// The color of the first solid voxel in the full-height column
/// `(gx, gy)` of a sprite grid, if any.
pub open spec fn sprite_column_color(grid: World, gx: int, gy: int) -> Option<Color> {
    match column_hit(grid, gx, gy, 0, grid.zs as nat) {
        Some(z) => Some(grid.voxel_at(gx, gy, z)->Solid_0),
        None => None,
    }
}

/// Marches one full-height column of a sprite grid.
fn sprite_column(grid: &World, gx: i32, gy: i32) -> (r: Option<Color>)
    requires
        grid.wf(),
    ensures
        r == sprite_column_color(*grid, gx as int, gy as int),
{
    let steps = grid.zs;
    let mut z: i32 = 0;
    while (z as usize) < steps
        invariant
            grid.wf(),
            steps == grid.zs,
            0 <= z <= steps,
            column_hit(*grid, gx as int, gy as int, 0, steps as nat)
                == column_hit(*grid, gx as int, gy as int, z as int, (steps - z) as nat),
        decreases steps - z,
    {
        let v = crate::engine::voxel_checked(grid, gx, gy, z);
        match v {
            Voxel::Solid(c) => {
                return Some(c);
            }
            Voxel::Empty => {
            }
        }
        z = z + 1;
    }
    None
}

/// The screen column a pixel's ray is cast for: the ray density
/// coarsens the horizontal pixel grid, each group of `density` adjacent
/// columns sharing the ray of its leftmost member.
pub open spec fn quant(px: int, density: int) -> int {
    density * (px / density)
}

impl Engine {
    /// Renders one frame into the bound framebuffer: every pixel takes
    /// the color its ray produces — the first solid voxel of its world
    /// column shaded by the lighting field, or fog where the scan
    /// distance runs out before a hit. The ray density tunable trades
    /// quality for speed: each run of `raycast_density` adjacent screen
    /// columns shares one cast ray.
    pub fn opticast(&self, fb: &mut FrameBuffer)
        requires
            self.wf(),
            old(fb).wf(),
        ensures
            final(fb).wf(),
            final(fb).width == old(fb).width && final(fb).height == old(fb).height,
            forall|px: int, py: int|
                old(fb).in_bounds(px, py) ==> final(fb).pix_at(px, py)
                    == rendered_pixel(*self,
                        self.cam.x - old(fb).width / 2
                            + quant(px, self.raycast_density as int),
                        self.cam.y - old(fb).height / 2 + py, px, py),
    {
        let width = fb.width;
        let height = fb.height;
        let total = fb.pix.len();
        let base_x = self.cam.x - ((width / 2) as i32);
        let base_y = self.cam.y - ((height / 2) as i32);
        let dens = self.raycast_density;
        let mut j: usize = 0;
        while j < total
            invariant
                0 <= j <= total,
                self.wf(),
                fb.wf(),
                width == fb.width && height == fb.height,
                old(fb).width == width && old(fb).height == height,
                total == fb.pix@.len(),
                total == width * height,
                base_x == self.cam.x - width / 2,
                base_y == self.cam.y - height / 2,
                dens == self.raycast_density,
                dens >= 1,
                forall|t: int| 0 <= t < j ==> fb.pix@[t]
                    == rendered_pixel(*self, base_x + quant(t % (width as int), dens as int),
                        base_y + (t / (width as int)), t % (width as int),
                        t / (width as int)),
                forall|t: int| j <= t < total ==> fb.pix@[t] == old(fb).pix@[t],
            decreases total - j,
        {
            let px = j % width;
            let py = j / width;
            proof {
                assert(height as int * (width as int) * 1 == width as int * (height as int))
                    by (nonlinear_arith);
                lemma_coords(height as int, width as int, 1, j as int);
                vstd::arithmetic::div_mod::lemma_fundamental_div_mod(px as int, dens as int);
                vstd::arithmetic::div_mod::lemma_mod_pos_bound(px as int, dens as int);
                assert(0 <= (px as int / (dens as int)) * (dens as int)
                    && (px as int / (dens as int)) * (dens as int) <= px as int
                    && (px as int / (dens as int)) * (dens as int)
                        == (dens as int) * (px as int / (dens as int))) by (nonlinear_arith)
                    requires
                        px as int == (dens as int) * (px as int / (dens as int))
                            + (px as int % (dens as int)),
                        0 <= px as int % (dens as int);
            }
            let pxq = ((px / (dens as usize)) * (dens as usize)) as usize;
            let wx = base_x + pxq as i32;
            let wy = base_y + py as i32;
            let v: i32 = match self.cast_ray(wx, wy) {
                Some(hit) => hit,
                None => self.miss_color(px, py),
            };
            fb.pix.set(j, v);
            j = j + 1;
        }
        proof {
            assert forall|px: int, py: int|
                old(fb).in_bounds(px, py) implies fb.pix_at(px, py)
                    == rendered_pixel(*self,
                        self.cam.x - old(fb).width / 2
                            + quant(px, self.raycast_density as int),
                        self.cam.y - old(fb).height / 2 + py, px, py) by {
                lemma_pix_idx(width as int, height as int, px, py);
                lemma_flat_idx(height as int, width as int, 1, py, px, 0);
                assert(height as int * (width as int) * 1 == width as int * (height as int))
                    by (nonlinear_arith);
                lemma_coords(height as int, width as int, 1, py * width + px);
            }
        }
    }

    /// Composites a sprite over the bound framebuffer with the same
    /// orthographic camera as `opticast`: a pixel whose ray hits the
    /// sprite's grid takes the hit voxel's color tinted by the sprite
    /// ambient color, and every other pixel keeps its value.
    pub fn draw_sprite(&self, spr: &VxSprite, fb: &mut FrameBuffer)
        requires
            self.wf(),
            spr.wf(),
            old(fb).wf(),
            -4096 <= spr.pos.x <= 4096,
            -4096 <= spr.pos.y <= 4096,
        ensures
            final(fb).wf(),
            final(fb).width == old(fb).width && final(fb).height == old(fb).height,
            forall|px: int, py: int|
                old(fb).in_bounds(px, py) ==> final(fb).pix_at(px, py)
                    == (match sprite_column_color(spr.grid,
                            self.cam.x - old(fb).width / 2 + px - spr.pos.x,
                            self.cam.y - old(fb).height / 2 + py - spr.pos.y) {
                        Some(c) => (tinted(c, self.kv6col).packed()) as i32,
                        None => old(fb).pix_at(px, py),
                    }),
    {
        let width = fb.width;
        let height = fb.height;
        let total = fb.pix.len();
        let base_x = self.cam.x - ((width / 2) as i32);
        let base_y = self.cam.y - ((height / 2) as i32);
        let mut j: usize = 0;
        while j < total
            invariant
                0 <= j <= total,
                self.wf(),
                spr.wf(),
                -4096 <= spr.pos.x <= 4096,
                -4096 <= spr.pos.y <= 4096,
                fb.wf(),
                width == fb.width && height == fb.height,
                old(fb).width == width && old(fb).height == height,
                total == fb.pix@.len(),
                old(fb).pix@.len() == total,
                total == width * height,
                base_x == self.cam.x - width / 2,
                base_y == self.cam.y - height / 2,
                forall|t: int| 0 <= t < j ==> fb.pix@[t]
                    == (match sprite_column_color(spr.grid,
                            base_x + (t % (width as int)) - spr.pos.x,
                            base_y + (t / (width as int)) - spr.pos.y) {
                        Some(c) => (tinted(c, self.kv6col).packed()) as i32,
                        None => old(fb).pix@[t],
                    }),
                forall|t: int| j <= t < total ==> fb.pix@[t] == old(fb).pix@[t],
            decreases total - j,
        {
            let px = j % width;
            let py = j / width;
            proof {
                assert(height as int * (width as int) * 1 == width as int * (height as int))
                    by (nonlinear_arith);
                lemma_coords(height as int, width as int, 1, j as int);
            }
            let gx = base_x + px as i32 - spr.pos.x;
            let gy = base_y + py as i32 - spr.pos.y;
            match sprite_column(&spr.grid, gx, gy) {
                Some(c) => {
                    let v = tint_exec(c, self.kv6col).to_i32();
                    fb.pix.set(j, v);
                }
                None => {
                }
            }
            j = j + 1;
        }
        proof {
            assert forall|px: int, py: int|
                old(fb).in_bounds(px, py) implies fb.pix_at(px, py)
                    == (match sprite_column_color(spr.grid,
                            self.cam.x - old(fb).width / 2 + px - spr.pos.x,
                            self.cam.y - old(fb).height / 2 + py - spr.pos.y) {
                        Some(c) => (tinted(c, self.kv6col).packed()) as i32,
                        None => old(fb).pix_at(px, py),
                    }) by {
                lemma_pix_idx(width as int, height as int, px, py);
                lemma_flat_idx(height as int, width as int, 1, py, px, 0);
                assert(height as int * (width as int) * 1 == width as int * (height as int))
                    by (nonlinear_arith);
                lemma_coords(height as int, width as int, 1, py * width + px);
            }
        }
    }

    /// What a missed pixel at screen position `(px, py)` shows.
    fn miss_color(&self, px: usize, py: usize) -> (r: i32)
        requires
            self.wf(),
        ensures
            r == miss_pixel(*self, px as int, py as int),
    {
        match &self.sky {
            Some(img) => {
                let w = img.width as usize;
                let h = img.height as usize;
                let sx = px % w;
                let sy = py % h;
                proof {
                    lemma_pix_idx(img.width as int, img.height as int, sx as int, sy as int);
                }
                img.pixels[sy * w + sx]
            }
            None => self.fogcol.to_i32(),
        }
    }

    /// Marches one ray down the column at `(wx, wy)`; `Some` holds the
    /// packed pixel of a hit.
    fn cast_ray(&self, wx: i32, wy: i32) -> (r: Option<i32>)
        requires
            self.wf(),
        ensures
            r is Some <==> cast_hit(*self, wx as int, wy as int) is Some,
            r matches Some(v) ==> cast_hit(*self, wx as int, wy as int) == Some(v as int),
    {
        let z0: i32 = if self.cam.z < 0 { 0 } else { self.cam.z };
        let room: i32 = if z0 >= self.world.zs as i32 {
            0
        } else {
            self.world.zs as i32 - z0
        };
        let steps: i32 = if room > self.max_scan_dist { self.max_scan_dist } else { room };
        proof {
            assert(steps as int == scan_steps(*self, z0 as int));
        }
        let mut t: i32 = 0;
        let mut z = z0;
        while t < steps
            invariant
                self.wf(),
                0 <= t <= steps,
                z == z0 + t,
                0 <= z0,
                steps <= self.world.zs - z0,
                z0 == (if self.cam.z < 0 { 0int } else { self.cam.z as int }),
                steps as int == scan_steps(*self, z0 as int),
                column_hit(self.world, wx as int, wy as int, z0 as int, steps as nat)
                    == column_hit(self.world, wx as int, wy as int, z as int,
                        (steps - t) as nat),
                forall|u: int| z0 <= u < z ==> !self.world.solid_at(wx as int, wy as int, u),
            decreases steps - t,
        {
            let v = crate::engine::voxel_checked(&self.world, wx, wy, z);
            match v {
                Voxel::Solid(c) => {
                    proof {
                        lemma_flat_idx(self.world.xs as int, self.world.ys as int,
                            self.world.zs as int, wx as int, wy as int, z as int);
                    }
                    let li: usize = ((wx as usize) * self.world.ys + (wy as usize))
                        * self.world.zs + (z as usize);
                    let l = self.light[li];
                    let sc = shade_exec(c, l);
                    return Some(sc.to_i32());
                }
                Voxel::Empty => {
                }
            }
            t = t + 1;
            z = z + 1;
        }
        None
    }
}

} // verus!
