//! The map file codec: a column-major byte format holding the world
//! dimensions, the camera placement, and every voxel.
//!
//! Layout: six 16-bit little-endian words (`xs`, `ys`, `zs`, camera
//! `x`, `y`, `z`), then four bytes per voxel in flat column-major
//! order (a solidity flag and the three color channels).

use vstd::prelude::*;
use vstd::arithmetic::div_mod::{
    lemma_fundamental_div_mod, lemma_fundamental_div_mod_converse,
};
use crate::color::Color;
use crate::math::ivec3;
use crate::world::{World, Voxel, MAX_DIM};
use crate::sprite::{SpriteOwnership, VxSprite};
use crate::engine::{Engine, EngineError, is_valid_side, valid_side};

verus! {

/// The mathematical content of a saved map: dimensions, camera, and
/// the voxel field.
pub ghost struct MapSnapshot {
    pub xs: int,
    pub ys: int,
    pub zs: int,
    pub camx: int,
    pub camy: int,
    pub camz: int,
    pub vox: Seq<Voxel>,
}

impl MapSnapshot {
    /// Well-formed per the engine's world model: the horizontal sides
    /// are one equal power-of-two VSID.
    pub open spec fn wf(self) -> bool {
        &&& valid_side(self.xs)
        &&& self.ys == self.xs
        &&& 1 <= self.zs <= MAX_DIM
        &&& 0 <= self.camx < self.xs
        &&& 0 <= self.camy < self.ys
        &&& 0 <= self.camz < self.zs
        &&& self.vox.len() == self.xs * self.ys * self.zs
    }
}

/// The snapshot a world and camera denote.
pub open spec fn snapshot_of(w: World, cam: ivec3) -> MapSnapshot {
    MapSnapshot {
        xs: w.xs as int,
        ys: w.ys as int,
        zs: w.zs as int,
        camx: cam.x as int,
        camy: cam.y as int,
        camz: cam.z as int,
        vox: w.vox@,
    }
}

/// Byte `k` (0..4) of one encoded voxel.
pub open spec fn vox_byte(v: Voxel, k: int) -> u8 {
    match v {
        Voxel::Empty => 0u8,
        Voxel::Solid(c) => match c {
            Color::RGB(r, g, b) => {
                if k == 0 {
                    1u8
                } else if k == 1 {
                    r
                } else if k == 2 {
                    g
                } else {
                    b
                }
            }
        },
    }
}

/// The six header words in order.
pub open spec fn header_word(m: MapSnapshot, w: int) -> int {
    if w == 0 {
        m.xs
    } else if w == 1 {
        m.ys
    } else if w == 2 {
        m.zs
    } else if w == 3 {
        m.camx
    } else if w == 4 {
        m.camy
    } else {
        m.camz
    }
}

/// Byte `i` (0..12) of the header: each word little-endian.
pub open spec fn header_byte(m: MapSnapshot, i: int) -> u8 {
    if i % 2 == 0 {
        (header_word(m, i / 2) % 256) as u8
    } else {
        (header_word(m, i / 2) / 256) as u8
    }
}

/// The encoded bytes of a snapshot.
pub open spec fn encode_map(m: MapSnapshot) -> Seq<u8> {
    Seq::new((12 + 4 * m.vox.len()) as nat, |i: int|
        if i < 12 {
            header_byte(m, i)
        } else {
            vox_byte(m.vox[(i - 12) / 4], (i - 12) % 4)
        })
}

/// The 16-bit little-endian word at offset `i`.
pub open spec fn word_at(b: Seq<u8>, i: int) -> int {
    b[i] + 256 * b[i + 1]
}

/// The voxel encoded at byte offset `off`: any nonzero flag byte is
/// solid.
pub open spec fn decode_voxel(b: Seq<u8>, off: int) -> Voxel {
    if b[off] == 0 {
        Voxel::Empty
    } else {
        Voxel::Solid(Color::RGB(b[off + 1], b[off + 2], b[off + 3]))
    }
}

/// The snapshot a byte string holds, if it is a well-formed map file.
pub open spec fn decode_map(b: Seq<u8>) -> Option<MapSnapshot> {
    if b.len() < 12 {
        None
    } else {
        let m = MapSnapshot {
            xs: word_at(b, 0),
            ys: word_at(b, 2),
            zs: word_at(b, 4),
            camx: word_at(b, 6),
            camy: word_at(b, 8),
            camz: word_at(b, 10),
            vox: Seq::new((word_at(b, 0) * word_at(b, 2) * word_at(b, 4)) as nat,
                |i: int| decode_voxel(b, 12 + 4 * i)),
        };
        if m.wf() && b.len() == 12 + 4 * (m.xs * m.ys * m.zs) {
            Some(m)
        } else {
            None
        }
    }
}

/// Byte `12 + 4 * i + k` of an encoding holds byte `k` of voxel `i`.
proof fn lemma_quad_index(i: int, k: int)
    requires
        0 <= i,
        0 <= k < 4,
    ensures
        (4 * i + k) / 4 == i,
        (4 * i + k) % 4 == k,
{
    lemma_fundamental_div_mod_converse(4 * i + k, 4, i, k);
}

/// Saving a map and loading the result yields the identical snapshot:
/// the same dimensions, camera and voxel field.
pub proof fn lemma_map_round_trip(m: MapSnapshot)
    requires
        m.wf(),
    ensures
        decode_map(encode_map(m)) == Some(m),
{
    let b = encode_map(m);
    assert(b.len() == 12 + 4 * m.vox.len());
    assert forall|w: int| 0 <= w < 6 implies word_at(b, 2 * w) == header_word(m, w) by {
        lemma_fundamental_div_mod_converse(2 * w, 2, w, 0);
        lemma_fundamental_div_mod_converse(2 * w + 1, 2, w, 1);
        assert(b[2 * w] == header_byte(m, 2 * w));
        assert(b[2 * w + 1] == header_byte(m, 2 * w + 1));
        lemma_fundamental_div_mod(header_word(m, w), 256);
    }
    assert(word_at(b, 0) == m.xs);
    assert(word_at(b, 2) == m.ys);
    assert(word_at(b, 4) == m.zs);
    assert(word_at(b, 6) == m.camx);
    assert(word_at(b, 8) == m.camy);
    assert(word_at(b, 10) == m.camz);
    let d = decode_map(b).unwrap();
    assert forall|i: int| 0 <= i < m.vox.len() implies d.vox[i] == m.vox[i] by {
        lemma_quad_index(i, 0);
        lemma_quad_index(i, 1);
        lemma_quad_index(i, 2);
        lemma_quad_index(i, 3);
        assert(b[12 + 4 * i] == vox_byte(m.vox[i], 0));
        assert(b[12 + 4 * i + 1] == vox_byte(m.vox[i], 1));
        assert(b[12 + 4 * i + 2] == vox_byte(m.vox[i], 2));
        assert(b[12 + 4 * i + 3] == vox_byte(m.vox[i], 3));
    }
    assert(d.vox =~= m.vox);
}

/// Reads the 16-bit little-endian word at `off`.
fn read_word(bytes: &Vec<u8>, off: usize) -> (r: usize)
    requires
        off + 2 <= bytes@.len(),
        bytes@.len() <= usize::MAX,
    ensures
        r == word_at(bytes@, off as int),
        0 <= r < 0x10000,
{
    bytes[off] as usize + 256 * (bytes[off + 1] as usize)
}

impl Engine {
    /// Serializes the world and camera into the map byte format.
    pub fn save_vxl(&self) -> (out: Vec<u8>)
        requires
            self.wf(),
        ensures
            out@ == encode_map(snapshot_of(self.world, self.cam)),
    {
        let ghost m = snapshot_of(self.world, self.cam);
        let mut out: Vec<u8> = Vec::new();
        let xs = self.world.xs;
        let ys = self.world.ys;
        let zs = self.world.zs;
        out.push((xs % 256) as u8);
        out.push((xs / 256) as u8);
        out.push((ys % 256) as u8);
        out.push((ys / 256) as u8);
        out.push((zs % 256) as u8);
        out.push((zs / 256) as u8);
        let cx = self.cam.x as usize;
        let cy = self.cam.y as usize;
        let cz = self.cam.z as usize;
        out.push((cx % 256) as u8);
        out.push((cx / 256) as u8);
        out.push((cy % 256) as u8);
        out.push((cy / 256) as u8);
        out.push((cz % 256) as u8);
        out.push((cz / 256) as u8);
        proof {
            assert forall|j: int| 0 <= j < 12 implies out@[j] == encode_map(m)[j] by {
                lemma_fundamental_div_mod(j, 2);
            }
        }
        let total = self.world.vox.len();
        let mut i: usize = 0;
        while i < total
            invariant
                0 <= i <= total,
                m == snapshot_of(self.world, self.cam),
                total == self.world.vox@.len(),
                out@.len() == 12 + 4 * i,
                forall|j: int| 0 <= j < out@.len() ==> out@[j] == encode_map(m)[j],
            decreases total - i,
        {
            let v = self.world.vox[i];
            match v {
                Voxel::Empty => {
                    out.push(0);
                    out.push(0);
                    out.push(0);
                    out.push(0);
                }
                Voxel::Solid(c) => {
                    match c {
                        Color::RGB(r, g, b) => {
                            out.push(1);
                            out.push(r);
                            out.push(g);
                            out.push(b);
                        }
                    }
                }
            }
            proof {
                lemma_quad_index(i as int, 0);
                lemma_quad_index(i as int, 1);
                lemma_quad_index(i as int, 2);
                lemma_quad_index(i as int, 3);
            }
            i = i + 1;
        }
        proof {
            assert(out@ =~= encode_map(m));
        }
        out
    }

    /// Replaces the world and camera with the map held in `bytes`.
    /// A malformed byte string is refused with `LoadError` and the
    /// engine is left untouched; a well-formed one becomes the new
    /// world, the camera moves to the saved position, the lighting
    /// field resets to full brightness and the mipmap to empty.
    pub fn load_vxl(&mut self, bytes: &Vec<u8>) -> (r: Result<ivec3, EngineError>)
        requires
            old(self).wf(),
        ensures
            final(self).wf(),
            r is Ok <==> decode_map(bytes@) is Some,
            r matches Ok(cam) ==> {
                &&& decode_map(bytes@) == Some(snapshot_of(final(self).world, final(self).cam))
                &&& cam == final(self).cam
                &&& final(self).curcol == old(self).curcol
                &&& final(self).kv6col == old(self).kv6col
                &&& final(self).fogcol == old(self).fogcol
                &&& final(self).raycast_density == old(self).raycast_density
                &&& final(self).max_scan_dist == old(self).max_scan_dist
                &&& final(self).fallcheck == old(self).fallcheck
                &&& final(self).lighting_mode == old(self).lighting_mode
                &&& final(self).sky == old(self).sky
                &&& forall|i: int| 0 <= i < final(self).light@.len()
                    ==> final(self).light@[i] == 255u8
                &&& forall|x: int, y: int, z: int| !final(self).mip.solid_at(x, y, z)
            },
            r matches Err(e) ==> e == EngineError::LoadError && *final(self) == *old(self),
    {
        let blen = bytes.len();
        if blen < 12 {
            return Err(EngineError::LoadError);
        }
        let xs = read_word(bytes, 0);
        let ys = read_word(bytes, 2);
        let zs = read_word(bytes, 4);
        let cx = read_word(bytes, 6);
        let cy = read_word(bytes, 8);
        let cz = read_word(bytes, 10);
        if !is_valid_side(xs) || ys != xs || zs < 1 || zs > MAX_DIM
            || cx >= xs || cy >= ys || cz >= zs {
            return Err(EngineError::LoadError);
        }
        proof {
            assert(xs * ys <= 0x100000 && xs * ys * zs <= 0x40000000) by (nonlinear_arith)
                requires 1 <= xs <= 1024, 1 <= ys <= 1024, 1 <= zs <= 1024;
        }
        let total = xs * ys * zs;
        if blen as u64 != 12u64 + 4u64 * (total as u64) {
            return Err(EngineError::LoadError);
        }
        let mut vox: Vec<Voxel> = Vec::new();
        let mut i: usize = 0;
        while i < total
            invariant
                0 <= i <= total,
                total <= 0x40000000,
                bytes@.len() == 12 + 4 * total,
                12 + 4 * total <= usize::MAX,
                vox@.len() == i,
                forall|j: int| 0 <= j < i ==> vox@[j] == decode_voxel(bytes@, 12 + 4 * j),
            decreases total - i,
        {
            let off = 12 + 4 * i;
            let flag = bytes[off];
            let v = if flag == 0 {
                Voxel::Empty
            } else {
                Voxel::Solid(Color::RGB(bytes[off + 1], bytes[off + 2], bytes[off + 3]))
            };
            vox.push(v);
            i = i + 1;
        }
        let world = World { xs, ys, zs, vox };
        let mut light: Vec<u8> = Vec::new();
        let mut k: usize = 0;
        while k < total
            invariant
                0 <= k <= total,
                light@.len() == k,
                forall|j: int| 0 <= j < k ==> light@[j] == 255u8,
            decreases total - k,
        {
            light.push(255);
            k = k + 1;
        }
        let mip = World::new((xs + 1) / 2, (ys + 1) / 2, (zs + 1) / 2);
        let cam = ivec3 { x: cx as i32, y: cy as i32, z: cz as i32 };
        self.world = world;
        self.light = light;
        self.mip = mip;
        self.cam = cam;
        proof {
            let m = decode_map(bytes@).unwrap();
            assert(self.world.vox@ =~= m.vox);
            assert forall|x: int, y: int, z: int| !self.mip.solid_at(x, y, z) by {
            }
        }
        Ok(cam)
    }

    /// Replaces the world and camera with the map held in a
    /// binary-space-partition container: the magic prefix followed by
    /// the map payload. Refusal and success behave as for `load_vxl`.
    pub fn load_bsp(&mut self, bytes: &Vec<u8>) -> (r: Result<ivec3, EngineError>)
        requires
            old(self).wf(),
        ensures
            final(self).wf(),
            r is Ok <==> decode_bsp(bytes@) is Some,
            r matches Ok(cam) ==> {
                &&& decode_bsp(bytes@) == Some(snapshot_of(final(self).world, final(self).cam))
                &&& cam == final(self).cam
                &&& final(self).curcol == old(self).curcol
                &&& final(self).kv6col == old(self).kv6col
                &&& final(self).fogcol == old(self).fogcol
                &&& final(self).raycast_density == old(self).raycast_density
                &&& final(self).max_scan_dist == old(self).max_scan_dist
                &&& final(self).fallcheck == old(self).fallcheck
                &&& final(self).lighting_mode == old(self).lighting_mode
                &&& final(self).sky == old(self).sky
                &&& forall|i: int| 0 <= i < final(self).light@.len()
                    ==> final(self).light@[i] == 255u8
                &&& forall|x: int, y: int, z: int| !final(self).mip.solid_at(x, y, z)
            },
            r matches Err(e) ==> e == EngineError::LoadError && *final(self) == *old(self),
    {
        let blen = bytes.len();
        if blen < 4 || bytes[0] != BSP_MAGIC_0 || bytes[1] != BSP_MAGIC_1
            || bytes[2] != BSP_MAGIC_2 || bytes[3] != BSP_MAGIC_3 {
            return Err(EngineError::LoadError);
        }
        let mut tail: Vec<u8> = Vec::new();
        let mut i: usize = 4;
        while i < blen
            invariant
                4 <= i <= blen,
                blen == bytes@.len(),
                tail@.len() == i - 4,
                forall|j: int| 0 <= j < tail@.len() ==> tail@[j] == bytes@[j + 4],
            decreases blen - i,
        {
            tail.push(bytes[i]);
            i = i + 1;
        }
        proof {
            assert(tail@ =~= bytes@.skip(4));
        }
        self.load_vxl(&tail)
    }
}

/// The magic prefix of the binary-space-partition map container.
pub const BSP_MAGIC_0: u8 = 66;

pub const BSP_MAGIC_1: u8 = 83;

pub const BSP_MAGIC_2: u8 = 80;

pub const BSP_MAGIC_3: u8 = 33;

/// The snapshot a binary-space-partition container holds: the magic
/// prefix followed by the map payload.
pub open spec fn decode_bsp(b: Seq<u8>) -> Option<MapSnapshot> {
    if b.len() >= 4 && b[0] == BSP_MAGIC_0 && b[1] == BSP_MAGIC_1
        && b[2] == BSP_MAGIC_2 && b[3] == BSP_MAGIC_3 {
        decode_map(b.skip(4))
    } else {
        None
    }
}

/// The magic prefix of the sprite-model container.
pub const KV6_MAGIC_0: u8 = 75;

pub const KV6_MAGIC_1: u8 = 86;

pub const KV6_MAGIC_2: u8 = 54;

pub const KV6_MAGIC_3: u8 = 33;

/// The mathematical content of a sprite-model file: the grid
/// dimensions and its voxels. Unlike a map, a sprite grid may have any
/// dimensions up to `MAX_DIM` and carries no camera.
pub ghost struct GridSnapshot {
    pub xs: int,
    pub ys: int,
    pub zs: int,
    pub vox: Seq<Voxel>,
}

impl GridSnapshot {
    pub open spec fn wf(self) -> bool {
        &&& 1 <= self.xs <= MAX_DIM
        &&& 1 <= self.ys <= MAX_DIM
        &&& 1 <= self.zs <= MAX_DIM
        &&& self.vox.len() == self.xs * self.ys * self.zs
    }
}

/// The snapshot a voxel grid denotes.
pub open spec fn grid_snapshot_of(w: World) -> GridSnapshot {
    GridSnapshot { xs: w.xs as int, ys: w.ys as int, zs: w.zs as int, vox: w.vox@ }
}

/// The grid a sprite-model byte string holds, if it is well formed:
/// the magic prefix, three 16-bit little-endian dimensions, then four
/// bytes per voxel in flat column-major order.
pub open spec fn decode_kv6(b: Seq<u8>) -> Option<GridSnapshot> {
    if b.len() < 10 || b[0] != KV6_MAGIC_0 || b[1] != KV6_MAGIC_1
        || b[2] != KV6_MAGIC_2 || b[3] != KV6_MAGIC_3 {
        None
    } else {
        let g = GridSnapshot {
            xs: word_at(b, 4),
            ys: word_at(b, 6),
            zs: word_at(b, 8),
            vox: Seq::new((word_at(b, 4) * word_at(b, 6) * word_at(b, 8)) as nat,
                |i: int| decode_voxel(b, 10 + 4 * i)),
        };
        if g.wf() && b.len() == 10 + 4 * (g.xs * g.ys * g.zs) {
            Some(g)
        } else {
            None
        }
    }
}

/// Parses a sprite-model file into an engine-managed sprite placed at
/// the world origin; a malformed byte string is refused with
/// `LoadError`.
pub fn load_sprite(bytes: &Vec<u8>) -> (r: Result<VxSprite, EngineError>)
    ensures
        r is Ok <==> decode_kv6(bytes@) is Some,
        r matches Ok(s) ==> {
            &&& s.wf()
            &&& s.ownership == SpriteOwnership::EngineManaged
            &&& s.pos == (ivec3 { x: 0, y: 0, z: 0 })
            &&& decode_kv6(bytes@) == Some(grid_snapshot_of(s.grid))
        },
        r matches Err(e) ==> e == EngineError::LoadError,
{
    let blen = bytes.len();
    if blen < 10 || bytes[0] != KV6_MAGIC_0 || bytes[1] != KV6_MAGIC_1
        || bytes[2] != KV6_MAGIC_2 || bytes[3] != KV6_MAGIC_3 {
        return Err(EngineError::LoadError);
    }
    let xs = read_word(bytes, 4);
    let ys = read_word(bytes, 6);
    let zs = read_word(bytes, 8);
    if xs < 1 || xs > MAX_DIM || ys < 1 || ys > MAX_DIM || zs < 1 || zs > MAX_DIM {
        return Err(EngineError::LoadError);
    }
    proof {
        assert(xs * ys <= 0x100000 && xs * ys * zs <= 0x40000000) by (nonlinear_arith)
            requires 1 <= xs <= 1024, 1 <= ys <= 1024, 1 <= zs <= 1024;
    }
    let total = xs * ys * zs;
    if blen as u64 != 10u64 + 4u64 * (total as u64) {
        return Err(EngineError::LoadError);
    }
    let mut vox: Vec<Voxel> = Vec::new();
    let mut i: usize = 0;
    while i < total
        invariant
            0 <= i <= total,
            total <= 0x40000000,
            bytes@.len() == 10 + 4 * total,
            10 + 4 * total <= usize::MAX,
            vox@.len() == i,
            forall|j: int| 0 <= j < i ==> vox@[j] == decode_voxel(bytes@, 10 + 4 * j),
        decreases total - i,
    {
        let off = 10 + 4 * i;
        let flag = bytes[off];
        let v = if flag == 0 {
            Voxel::Empty
        } else {
            Voxel::Solid(Color::RGB(bytes[off + 1], bytes[off + 2], bytes[off + 3]))
        };
        vox.push(v);
        i = i + 1;
    }
    let grid = World { xs, ys, zs, vox };
    proof {
        let g = decode_kv6(bytes@).unwrap();
        assert(grid.vox@ =~= g.vox);
    }
    Ok(VxSprite {
        grid,
        pos: ivec3 { x: 0, y: 0, z: 0 },
        ownership: SpriteOwnership::EngineManaged,
    })
}

} // verus!
