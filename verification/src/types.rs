//! The engine's data model: monitor and window descriptors and captured
//! images, with the invariants the rest of the crate relies on.

use vstd::prelude::*;

verus! {

/// One display device, in virtual-desktop coordinates.  `x`/`y` may be
/// negative; a well-formed descriptor has strictly positive extents.
pub struct MonitorData {
    pub width: u32,
    pub height: u32,
    pub x: i32,
    pub y: i32,
    pub name: String,
    pub is_primary: bool,
}

impl MonitorData {
    /// A usable descriptor: both pixel extents are strictly positive.
    pub open spec fn wf(self) -> bool {
        self.width > 0 && self.height > 0
    }

    /// The monitor's rectangle contains the point, half-open on the
    /// right and bottom edges.
    pub open spec fn contains_point(self, px: int, py: int) -> bool {
        &&& self.x <= px < self.x + self.width
        &&& self.y <= py < self.y + self.height
    }

    /// Builds a descriptor, accepting only strictly positive extents.
    pub fn new(width: u32, height: u32, x: i32, y: i32, name: String, is_primary: bool) -> (r:
        Option<MonitorData>)
        ensures
            r is Some <==> width > 0 && height > 0,
            r matches Some(m) ==> m == (MonitorData { width, height, x, y, name, is_primary })
                && m.wf(),
    {
        if width > 0 && height > 0 {
            Some(MonitorData { width, height, x, y, name, is_primary })
        } else {
            None
        }
    }
}

impl Clone for MonitorData {
    fn clone(&self) -> (r: Self)
        ensures
            r == *self,
    {
        MonitorData {
            width: self.width,
            height: self.height,
            x: self.x,
            y: self.y,
            name: self.name.clone(),
            is_primary: self.is_primary,
        }
    }
}

/// One application window, with its stacking-order key `z`: a greater
/// `z` means closer to the viewer (front-most).
pub struct WindowData {
    pub title: String,
    pub app_name: String,
    pub pid: u32,
    pub x: i32,
    pub y: i32,
    pub width: u32,
    pub height: u32,
    pub z: i32,
}

impl WindowData {
    /// The window's rectangle contains the point, inclusive on all four
    /// edges.
    pub open spec fn contains_point(self, px: int, py: int) -> bool {
        &&& self.x <= px <= self.x + self.width
        &&& self.y <= py <= self.y + self.height
    }
}

impl Clone for WindowData {
    fn clone(&self) -> (r: Self)
        ensures
            r == *self,
    {
        WindowData {
            title: self.title.clone(),
            app_name: self.app_name.clone(),
            pid: self.pid,
            x: self.x,
            y: self.y,
            width: self.width,
            height: self.height,
            z: self.z,
        }
    }
}

/// Position of one byte of a pixel inside a row-major RGBA buffer of
/// row length `w`: pixel (`x`, `y`), channel `b`.
pub open spec fn byte_index(w: int, x: int, y: int, b: int) -> int {
    (y * w + x) * 4 + b
}

/// A captured surface: a row-major buffer of 8-bit RGBA tuples,
/// top-left origin, no padding between rows.
#[derive(Debug)]
pub struct ImageData {
    pub pixels: Vec<u8>,
    pub width: u32,
    pub height: u32,
}

impl ImageData {
    /// The buffer holds exactly one RGBA tuple per pixel.
    pub open spec fn wf(self) -> bool {
        self.pixels@.len() == self.width * self.height * 4
    }

    /// The byte of channel `b` of pixel (`x`, `y`).
    pub open spec fn byte_at(self, x: int, y: int, b: int) -> u8 {
        self.pixels@[byte_index(self.width as int, x, y, b)]
    }

    /// Wraps a raw buffer, accepting it only when its length matches
    /// the claimed dimensions.
    pub fn new(pixels: Vec<u8>, width: u32, height: u32) -> (r: Option<ImageData>)
        ensures
            r is Some <==> pixels@.len() == width * height * 4,
            r matches Some(img) ==> img == (ImageData { pixels, width, height }) && img.wf(),
    {
        let w64: u64 = width as u64;
        let h64: u64 = height as u64;
        proof {
            assert(w64 * h64 <= u64::MAX) by (nonlinear_arith)
                requires
                    w64 < 0x1_0000_0000 && h64 < 0x1_0000_0000,
            ;
        }
        let wh: u64 = w64 * h64;
        let need: u128 = (wh as u128) * 4;
        if (pixels.len() as u128) == need {
            Some(ImageData { pixels, width, height })
        } else {
            None
        }
    }
}

impl Clone for ImageData {
    fn clone(&self) -> (r: Self)
        ensures
            r.pixels@ == self.pixels@,
            r.width == self.width,
            r.height == self.height,
    {
        let p = self.pixels.clone();
        proof {
            assert forall|i: int| 0 <= i < self.pixels@.len() implies p@[i]
                == self.pixels@[i] by {
                assert(cloned::<u8>(self.pixels[i], p[i]));
            }
            assert(p@ =~= self.pixels@);
        }
        ImageData { pixels: p, width: self.width, height: self.height }
    }
}

/// Every channel byte of an in-range pixel lies inside the buffer of a
/// `w` by `h` surface.
pub proof fn lemma_byte_index_bounds(w: int, h: int, x: int, y: int, b: int)
    requires
        0 <= x < w,
        0 <= y < h,
        0 <= b < 4,
    ensures
        0 <= byte_index(w, x, y, b) < w * h * 4,
{
    assert(0 <= (y * w + x) * 4 + b < w * h * 4) by (nonlinear_arith)
        requires
            0 <= x < w,
            0 <= y < h,
            0 <= b < 4,
    ;
}

/// Computes the buffer position of one channel byte of a `w` by `h`
/// surface, free of overflow.
pub fn byte_offset(w: u32, h: u32, x: u32, y: u32, b: u32) -> (r: usize)
    requires
        x < w,
        y < h,
        b < 4,
        w * h * 4 <= usize::MAX,
    ensures
        r == byte_index(w as int, x as int, y as int, b as int),
{
    let ghost wi: int = w as int;
    let ghost hi: int = h as int;
    let ghost xi: int = x as int;
    let ghost yi: int = y as int;
    proof {
        assert(yi * wi + xi < wi * hi) by (nonlinear_arith)
            requires
                0 <= xi < wi,
                0 <= yi < hi,
        ;
        assert(0 <= wi * hi) by (nonlinear_arith)
            requires
                0 <= wi && 0 <= hi,
        ;
    }
    let pix: usize = (y as usize) * (w as usize) + (x as usize);
    pix * 4 + (b as usize)
}

/// Every buffer position of a `w` by `h` surface is the address of one
/// in-range (pixel, channel) coordinate.
pub proof fn lemma_byte_index_decompose(w: int, h: int, k: int)
    requires
        0 < w,
        0 <= k < w * h * 4,
    ensures
        ({
            let b = k % 4;
            let pix = k / 4;
            let x = pix % w;
            let y = pix / w;
            0 <= x < w && 0 <= y < h && 0 <= b < 4 && byte_index(w, x, y, b) == k
        }),
{
    let b = k % 4;
    let pix = k / 4;
    let x = pix % w;
    let y = pix / w;
    assert(0 <= x < w && 0 <= y < h && 0 <= b < 4 && (y * w + x) * 4 + b == k) by (nonlinear_arith)
        requires
            0 < w,
            0 <= k < w * h * 4,
            b == k % 4,
            pix == k / 4,
            x == pix % w,
            y == pix / w,
    ;
}

} // verus!
