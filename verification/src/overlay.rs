//! The 2D overlay: a caller-bound pixel buffer, line drawing over it,
//! and decoded raster images.

use vstd::prelude::*;
use crate::color::Color;
use crate::math::ivec3;
use crate::engine::EngineError;
use crate::ray::{seg_n, seg_x, seg_y, rdiv_exec, lemma_rdiv_range};
use crate::world::{flat_idx, lemma_flat_idx};

verus! {

/// Height of the legacy fixed-size screen that `in_screen` checks
/// against.
pub const SCREEN_EXTENT: i32 = 600;

/// Whether a screen coordinate lies on the legacy fixed-size screen.
pub fn in_screen(num: i32) -> (r: bool)
    ensures
        r == (0 <= num < SCREEN_EXTENT),
{
    num >= 0 && num < SCREEN_EXTENT
}

/// A bound pixel buffer the engine draws into: `height` rows of
/// `width` packed pixels.
pub struct FrameBuffer {
    pub width: usize,
    pub height: usize,
    pub pix: Vec<i32>,
}

impl FrameBuffer {
    pub open spec fn wf(self) -> bool {
        &&& 1 <= self.width <= 1024
        &&& 1 <= self.height <= 1024
        &&& self.pix@.len() == self.width * self.height
    }

    pub open spec fn in_bounds(self, x: int, y: int) -> bool {
        0 <= x < self.width && 0 <= y < self.height
    }

    /// The packed pixel at column `x` of row `y`.
    pub open spec fn pix_at(self, x: int, y: int) -> i32 {
        self.pix@[y * self.width + x]
    }
}

/// Binds a fresh framebuffer of the given size, cleared to zero.
pub fn set_frame_buffer(buffer_width: usize, buffer_height: usize)
    -> (r: Result<FrameBuffer, EngineError>)
    ensures
        r is Ok <==> 1 <= buffer_width <= 1024 && 1 <= buffer_height <= 1024,
        r matches Ok(fb) ==> {
            &&& fb.wf()
            &&& fb.width == buffer_width
            &&& fb.height == buffer_height
            &&& forall|x: int, y: int| fb.in_bounds(x, y) ==> fb.pix_at(x, y) == 0
        },
        r matches Err(e) ==> e == EngineError::InvalidParameter,
{
    if buffer_width < 1 || buffer_width > 1024 || buffer_height < 1 || buffer_height > 1024 {
        return Err(EngineError::InvalidParameter);
    }
    proof {
        assert(buffer_width * buffer_height <= 0x1000000) by (nonlinear_arith)
            requires 1 <= buffer_width <= 1024, 1 <= buffer_height <= 1024;
    }
    let total: usize = buffer_width * buffer_height;
    let mut pix: Vec<i32> = Vec::new();
    let mut i: usize = 0;
    while i < total
        invariant
            i <= total,
            pix@.len() == i,
            forall|j: int| 0 <= j < i ==> pix@[j] == 0,
        decreases total - i,
    {
        pix.push(0);
        i = i + 1;
    }
    let fb = FrameBuffer { width: buffer_width, height: buffer_height, pix };
    proof {
        assert forall|x: int, y: int| fb.in_bounds(x, y) implies fb.pix_at(x, y) == 0 by {
            lemma_pix_idx(fb.width as int, fb.height as int, x, y);
        }
    }
    Ok(fb)
}

/// A pixel's flat index lies in range; row-major order is injective.
pub proof fn lemma_pix_idx(width: int, height: int, x: int, y: int)
    requires
        1 <= width <= 1024,
        1 <= height <= 1024,
        0 <= x < width,
        0 <= y < height,
    ensures
        0 <= y * width + x < width * height,
        y * width + x == flat_idx(width, 1, y, x, 0),
        width * height <= 0x1000000,
{
    lemma_flat_idx(height, width, 1, y, x, 0);
    assert(flat_idx(width, 1, y, x, 0) == y * width + x) by (nonlinear_arith);
    assert(height * width == width * height) by (nonlinear_arith);
    assert(width * height <= 0x1000000) by (nonlinear_arith)
        requires 1 <= width <= 1024, 1 <= height <= 1024;
}

/// The 2D sample points of the segment between `(x1, y1)` and
/// `(x2, y2)`: the 3D lattice segment at height zero.
pub open spec fn line_pt(x1: i32, y1: i32, x2: i32, y2: i32) -> (ivec3, ivec3) {
    (ivec3 { x: x1, y: y1, z: 0 }, ivec3 { x: x2, y: y2, z: 0 })
}

/// Draws the lattice segment between the two points into the buffer:
/// every sample point of the segment takes the packed color, and every
/// other pixel keeps its value. Both endpoints must lie inside the
/// buffer.
pub fn draw_line_2d(fb: &mut FrameBuffer, x1: i32, y1: i32, x2: i32, y2: i32, col: Color)
    requires
        old(fb).wf(),
        old(fb).in_bounds(x1 as int, y1 as int),
        old(fb).in_bounds(x2 as int, y2 as int),
    ensures
        final(fb).wf(),
        final(fb).width == old(fb).width && final(fb).height == old(fb).height,
        forall|px: int, py: int|
            old(fb).in_bounds(px, py) ==> final(fb).pix_at(px, py)
                == (if exists|i: int| 0 <= i <= seg_n(line_pt(x1, y1, x2, y2).0,
                        line_pt(x1, y1, x2, y2).1)
                        && seg_x(line_pt(x1, y1, x2, y2).0, line_pt(x1, y1, x2, y2).1, i) == px
                        && seg_y(line_pt(x1, y1, x2, y2).0, line_pt(x1, y1, x2, y2).1, i) == py {
                    (col.packed()) as i32
                } else {
                    old(fb).pix_at(px, py)
                }),
{
    let ghost a = ivec3 { x: x1, y: y1, z: 0 };
    let ghost b = ivec3 { x: x2, y: y2, z: 0 };
    let width = fb.width;
    let height = fb.height;
    let cv = col.to_i32();
    let dx = x2 - x1;
    let dy = y2 - y1;
    let axd = if dx < 0 { -dx } else { dx };
    let ayd = if dy < 0 { -dy } else { dy };
    let n = if axd >= ayd { axd } else { ayd };
    proof {
        assert(n == seg_n(a, b));
    }
    let mut i: i32 = 0;
    while i <= n
        invariant
            fb.wf(),
            width == fb.width && height == fb.height,
            old(fb).width == width && old(fb).height == height,
            old(fb).pix@.len() == fb.pix@.len(),
            a == (ivec3 { x: x1, y: y1, z: 0 }) && b == (ivec3 { x: x2, y: y2, z: 0 }),
            old(fb).in_bounds(x1 as int, y1 as int),
            old(fb).in_bounds(x2 as int, y2 as int),
            n == seg_n(a, b),
            dx == b.x - a.x && dy == b.y - a.y,
            0 <= n < 4096,
            0 <= i <= n + 1,
            cv == col.packed(),
            forall|px: int, py: int|
                old(fb).in_bounds(px, py) ==> fb.pix_at(px, py)
                    == (if exists|j: int| 0 <= j < i && seg_x(a, b, j) == px
                            && seg_y(a, b, j) == py {
                        cv
                    } else {
                        old(fb).pix_at(px, py)
                    }),
        decreases n + 1 - i,
    {
        let px: i32;
        let py: i32;
        if n == 0 {
            px = x1;
            py = y1;
        } else {
            proof {
                lemma_rdiv_range(dx as int, i as int, n as int);
                lemma_rdiv_range(dy as int, i as int, n as int);
                assert(-0x1000000 <= dx as int * i as int <= 0x1000000
                    && -0x1000000 <= dy as int * i as int <= 0x1000000) by (nonlinear_arith)
                    requires
                        -4096 <= dx as int <= 4096,
                        -4096 <= dy as int <= 4096,
                        0 <= i as int <= 4096;
            }
            px = x1 + rdiv_exec(dx as i64 * i as i64, n as i64) as i32;
            py = y1 + rdiv_exec(dy as i64 * i as i64, n as i64) as i32;
        }
        proof {
            assert(px == seg_x(a, b, i as int));
            assert(py == seg_y(a, b, i as int));
            lemma_pix_idx(width as int, height as int, px as int, py as int);
        }
        let ghost fb_pre = *fb;
        let idx: usize = (py as usize) * width + (px as usize);
        fb.pix.set(idx, cv);
        proof {
            assert(fb.pix_at(px as int, py as int) == cv);
            assert forall|qx: int, qy: int|
                old(fb).in_bounds(qx, qy) implies fb.pix_at(qx, qy)
                    == (if exists|j: int| 0 <= j < i + 1 && seg_x(a, b, j) == qx
                            && seg_y(a, b, j) == qy {
                        cv
                    } else {
                        old(fb).pix_at(qx, qy)
                    }) by {
                if qx == px as int && qy == py as int {
                    assert(0 <= i as int && (i as int) < i + 1 && seg_x(a, b, i as int) == qx
                        && seg_y(a, b, i as int) == qy);
                } else {
                    lemma_pix_idx(width as int, height as int, qx, qy);
                    lemma_flat_idx(height as int, width as int, 1, qy, qx, 0);
                    lemma_flat_idx(height as int, width as int, 1, py as int, px as int, 0);
                    assert(qy * width + qx != idx);
                    assert(fb.pix_at(qx, qy) == fb_pre.pix_at(qx, qy));
                    if exists|j: int| 0 <= j < i + 1 && seg_x(a, b, j) == qx
                        && seg_y(a, b, j) == qy {
                        let j = choose|j: int| 0 <= j < i + 1 && seg_x(a, b, j) == qx
                            && seg_y(a, b, j) == qy;
                        assert(j < i);
                    }
                }
            }
        }
        i = i + 1;
    }
    proof {
        assert(cv == (col.packed()) as i32);
        assert(line_pt(x1, y1, x2, y2).0 == a);
        assert(line_pt(x1, y1, x2, y2).1 == b);
        assert forall|px: int, py: int|
            old(fb).in_bounds(px, py) implies fb.pix_at(px, py)
                == (if exists|j: int| 0 <= j <= seg_n(a, b) && seg_x(a, b, j) == px
                        && seg_y(a, b, j) == py {
                    cv
                } else {
                    old(fb).pix_at(px, py)
                }) by {
            if exists|j: int| 0 <= j < i && seg_x(a, b, j) == px && seg_y(a, b, j) == py {
                let j = choose|j: int| 0 <= j < i && seg_x(a, b, j) == px
                    && seg_y(a, b, j) == py;
                assert(0 <= j <= seg_n(a, b) && seg_x(a, b, j) == px && seg_y(a, b, j) == py);
            }
            if exists|j: int| 0 <= j <= seg_n(a, b) && seg_x(a, b, j) == px
                && seg_y(a, b, j) == py {
                let j = choose|j: int| 0 <= j <= seg_n(a, b) && seg_x(a, b, j) == px
                    && seg_y(a, b, j) == py;
                assert(0 <= j < i && seg_x(a, b, j) == px && seg_y(a, b, j) == py);
            }
        }
    }
}

/// A decoded raster image: `height` rows of `width` packed pixels,
/// each row `bytes_per_line` bytes apart in its encoded form.
pub struct Image {
    pub width: i32,
    pub height: i32,
    pub bytes_per_line: i32,
    pub pixels: Vec<i32>,
}

impl Image {
    pub open spec fn wf(self) -> bool {
        &&& 1 <= self.width <= 1024
        &&& 1 <= self.height <= 1024
        &&& self.bytes_per_line == 4 * self.width
        &&& self.pixels@.len() == self.width * self.height
    }

    /// Wraps a decoded pixel buffer; refused with `InvalidParameter`
    /// when the dimensions are out of range or do not match the
    /// buffer.
    pub fn new(width: i32, height: i32, pixels: Vec<i32>) -> (r: Result<Image, EngineError>)
        ensures
            r is Ok <==> 1 <= width <= 1024 && 1 <= height <= 1024
                && pixels@.len() == width * height,
            r matches Ok(img) ==> {
                &&& img.wf()
                &&& img.width == width
                &&& img.height == height
                &&& img.pixels@ == pixels@
            },
            r matches Err(e) ==> e == EngineError::InvalidParameter,
    {
        if width < 1 || width > 1024 || height < 1 || height > 1024 {
            return Err(EngineError::InvalidParameter);
        }
        proof {
            assert(width * height <= 0x1000000) by (nonlinear_arith)
                requires 1 <= width <= 1024, 1 <= height <= 1024;
        }
        if pixels.len() != (width as usize) * (height as usize) {
            return Err(EngineError::InvalidParameter);
        }
        Ok(Image { width, height, bytes_per_line: 4 * width, pixels })
    }

    /// The color of the pixel at column `x` of row `y`.
    pub fn get_pixel(&self, x: i32, y: i32) -> (c: Color)
        requires
            self.wf(),
            0 <= x < self.width,
            0 <= y < self.height,
        ensures
            c == Color::unpacked(self.pixels@[y * self.width + x]),
    {
        proof {
            lemma_pix_idx(self.width as int, self.height as int, x as int, y as int);
        }
        let idx: usize = (y as usize) * (self.width as usize) + (x as usize);
        Color::from_i32(self.pixels[idx])
    }

    /// The decoded pixel buffer, row-major.
    pub fn pixels(&self) -> (r: &Vec<i32>)
        ensures
            r@ == self.pixels@,
    {
        &self.pixels
    }
}

/// The signed 32-bit little-endian word at byte offset `off`.
pub open spec fn le32_at(b: Seq<u8>, off: int) -> int {
    let u = b[off] + 0x100 * b[off + 1] + 0x10000 * b[off + 2] + 0x1000000 * b[off + 3];
    if u < 0x80000000 {
        u
    } else {
        u - 0x100000000
    }
}

/// Parses a raw image dump: `width * height` packed little-endian
/// 32-bit pixels, row-major. Out-of-range dimensions are refused with
/// `InvalidParameter`; a byte string of the wrong length with
/// `LoadError`.
pub fn image_from_bytes(width: i32, height: i32, bytes: &Vec<u8>) -> (r: Result<Image, EngineError>)
    ensures
        r is Ok <==> 1 <= width <= 1024 && 1 <= height <= 1024
            && bytes@.len() == 4 * ((width as int) * (height as int)),
        r matches Ok(img) ==> {
            &&& img.wf()
            &&& img.width == width
            &&& img.height == height
            &&& forall|i: int| 0 <= i < img.pixels@.len()
                ==> (#[trigger] img.pixels@[i]) as int == le32_at(bytes@, 4 * i)
        },
        r matches Err(e) ==> (if 1 <= width <= 1024 && 1 <= height <= 1024 {
            e == EngineError::LoadError
        } else {
            e == EngineError::InvalidParameter
        }),
{
    if width < 1 || width > 1024 || height < 1 || height > 1024 {
        return Err(EngineError::InvalidParameter);
    }
    proof {
        assert((width as int) * (height as int) <= 0x100000) by (nonlinear_arith)
            requires 1 <= width <= 1024, 1 <= height <= 1024;
    }
    let count: usize = (width as usize) * (height as usize);
    if bytes.len() != 4 * count {
        return Err(EngineError::LoadError);
    }
    let mut pixels: Vec<i32> = Vec::new();
    let mut i: usize = 0;
    while i < count
        invariant
            0 <= i <= count,
            count <= 0x100000,
            bytes@.len() == 4 * count,
            pixels@.len() == i,
            forall|j: int| 0 <= j < i
                ==> (#[trigger] pixels@[j]) as int == le32_at(bytes@, 4 * j),
        decreases count - i,
    {
        let off = 4 * i;
        let u: u32 = bytes[off] as u32 + 0x100 * (bytes[off + 1] as u32)
            + 0x10000 * (bytes[off + 2] as u32) + 0x1000000 * (bytes[off + 3] as u32);
        let p: i32 = if u < 0x80000000 {
            u as i32
        } else {
            -((0xffffffffu32 - u) as i32) - 1
        };
        pixels.push(p);
        i = i + 1;
    }
    Ok(Image { width, height, bytes_per_line: 4 * width, pixels })
}

} // verus!
