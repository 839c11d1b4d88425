//! Extracting a caller-specified rectangle from a captured surface.
//! A rectangle that reaches past the source is refused, never clamped.

use vstd::prelude::*;

use crate::errors::CaptureError;
use crate::types::byte_index;
use crate::types::byte_offset;
use crate::types::lemma_byte_index_bounds;
use crate::types::lemma_byte_index_decompose;
use crate::types::ImageData;

verus! {

/// The source-buffer position that position `k` of a crop at offset
/// (`x`, `y`) with row length `out_w` reads from, for a source of row
/// length `src_w`.
spec fn crop_src(src_w: int, x: int, y: int, out_w: int, k: int) -> int {
    let pix = k / 4;
    let b = k % 4;
    let cx = pix % out_w;
    let cy = pix / out_w;
    byte_index(src_w, x + cx, y + cy, b)
}

proof fn lemma_crop_src_at(src_w: int, x: int, y: int, out_w: int, cx: int, cy: int, b: int)
    requires
        0 < out_w,
        0 <= cx < out_w,
        0 <= cy,
        0 <= b < 4,
    ensures
        crop_src(src_w, x, y, out_w, byte_index(out_w, cx, cy, b)) == byte_index(
            src_w,
            x + cx,
            y + cy,
            b,
        ),
{
    let k = byte_index(out_w, cx, cy, b);
    assert(k / 4 == cy * out_w + cx && k % 4 == b && (cy * out_w + cx) % out_w == cx && (cy * out_w
        + cx) / out_w == cy) by (nonlinear_arith)
        requires
            0 < out_w,
            0 <= cx < out_w,
            0 <= cy,
            0 <= b < 4,
            k == (cy * out_w + cx) * 4 + b,
    ;
}

/// Extracts the sub-rectangle at offset (`x`, `y`) of size `width` by
/// `height` from a captured surface.  Succeeds exactly when the
/// rectangle lies inside the surface; a rectangle past the edge is
/// `OutOfBounds`.  Cropping the full extent returns the pixel buffer
/// unchanged.
pub fn crop_image(img: &ImageData, x: u32, y: u32, width: u32, height: u32) -> (r: Result<
    ImageData,
    CaptureError,
>)
    requires
        img.wf(),
    ensures
        r is Ok <==> x + width <= img.width && y + height <= img.height,
        r matches Err(e) ==> e is OutOfBounds,
        r matches Ok(out) ==> out.wf() && out.width == width && out.height == height && (forall|
            cx: int,
            cy: int,
            b: int,
        |
            0 <= cx < width && 0 <= cy < height && 0 <= b < 4 ==> out.byte_at(cx, cy, b)
                == img.byte_at(x + cx, y + cy, b)),
        x == 0 && y == 0 && width == img.width && height == img.height ==> (r matches Ok(out)
            ==> out.pixels@ == img.pixels@),
{
    let fits = (x as u64) + (width as u64) <= (img.width as u64) && (y as u64) + (height as u64)
        <= (img.height as u64);
    if !fits {
        return Err(CaptureError::OutOfBounds);
    }
    let ghost wi: int = width as int;
    let ghost hi: int = height as int;
    let ghost swi: int = img.width as int;
    let n: usize = img.pixels.len();
    proof {
        assert(n == img.pixels@.len());
        assert(img.width * img.height * 4 <= usize::MAX);
    }
    let mut buf: Vec<u8> = Vec::new();
    let mut cy: u32 = 0;
    while cy < height
        invariant
            img.wf(),
            x + width <= img.width,
            y + height <= img.height,
            img.width * img.height * 4 <= usize::MAX,
            cy <= height,
            buf@.len() == (cy as int) * wi * 4,
            wi == width && hi == height && swi == img.width,
            forall|k: int|
                0 <= k < buf@.len() ==> buf@[k] == img.pixels@[crop_src(
                    swi,
                    x as int,
                    y as int,
                    wi,
                    k,
                )],
        decreases height - cy,
    {
        let mut cx: u32 = 0;
        while cx < width
            invariant
                img.wf(),
                x + width <= img.width,
                y + height <= img.height,
                img.width * img.height * 4 <= usize::MAX,
                cy < height,
                cx <= width,
                buf@.len() == ((cy as int) * wi + (cx as int)) * 4,
                wi == width && hi == height && swi == img.width,
                forall|k: int|
                    0 <= k < buf@.len() ==> buf@[k] == img.pixels@[crop_src(
                        swi,
                        x as int,
                        y as int,
                        wi,
                        k,
                    )],
            decreases width - cx,
        {
            let mut b: u32 = 0;
            while b < 4
                invariant
                    img.wf(),
                    x + width <= img.width,
                    y + height <= img.height,
                    img.width * img.height * 4 <= usize::MAX,
                    cy < height,
                    cx < width,
                    b <= 4,
                    buf@.len() == ((cy as int) * wi + (cx as int)) * 4 + (b as int),
                    wi == width && hi == height && swi == img.width,
                    forall|k: int|
                        0 <= k < buf@.len() ==> buf@[k] == img.pixels@[crop_src(
                            swi,
                            x as int,
                            y as int,
                            wi,
                            k,
                        )],
                decreases 4 - b,
            {
                let off = byte_offset(img.width, img.height, x + cx, y + cy, b);
                proof {
                    lemma_byte_index_bounds(
                        swi,
                        img.height as int,
                        (x + cx) as int,
                        (y + cy) as int,
                        b as int,
                    );
                    lemma_crop_src_at(
                        swi,
                        x as int,
                        y as int,
                        wi,
                        cx as int,
                        cy as int,
                        b as int,
                    );
                }
                buf.push(img.pixels[off]);
                b = b + 1;
            }
            proof {
                assert(((cy as int) * wi + (cx as int)) * 4 + 4 == ((cy as int) * wi + ((cx as int)
                    + 1)) * 4) by (nonlinear_arith);
            }
            cx = cx + 1;
        }
        proof {
            assert(((cy as int) * wi + wi) * 4 == (((cy as int) + 1) * wi) * 4)
                by (nonlinear_arith);
        }
        cy = cy + 1;
    }
    proof {
        assert(hi * wi * 4 == wi * hi * 4) by (nonlinear_arith);
    }
    let out = ImageData { pixels: buf, width, height };
    proof {
        assert forall|cx: int, cy: int, b: int|
            0 <= cx < width && 0 <= cy < height && 0 <= b < 4 implies out.byte_at(cx, cy, b)
            == img.byte_at(x + cx, y + cy, b) by {
            lemma_byte_index_bounds(wi, hi, cx, cy, b);
            lemma_crop_src_at(swi, x as int, y as int, wi, cx, cy, b);
        }
        if x == 0 && y == 0 && width == img.width && height == img.height {
            if width == 0 || height == 0 {
                assert(img.pixels@.len() == 0) by (nonlinear_arith)
                    requires
                        img.pixels@.len() == img.width * img.height * 4,
                        img.width == 0 || img.height == 0,
                ;
                assert(out.pixels@ =~= img.pixels@);
            } else {
                assert forall|k: int| 0 <= k < out.pixels@.len() implies out.pixels@[k]
                    == img.pixels@[k] by {
                    lemma_byte_index_decompose(wi, hi, k);
                    let b = k % 4;
                    let pix = k / 4;
                    let cx = pix % wi;
                    let cy = pix / wi;
                    lemma_crop_src_at(swi, 0, 0, wi, cx, cy, b);
                }
                assert(out.pixels@ =~= img.pixels@);
            }
        }
    }
    Ok(out)
}

} // verus!
