//! Stitching per-monitor captures into one virtual-desktop image sized
//! to the true union bounding box of the monitor rectangles.  Uncovered
//! regions stay fully transparent zero pixels; where monitor rectangles
//! overlap, the monitor latest in enumeration order wins.

use vstd::prelude::*;
use vstd::string::StringExecFns;

use crate::errors::CaptureError;
use crate::types::byte_index;
use crate::types::byte_offset;
use crate::types::lemma_byte_index_bounds;
use crate::types::lemma_byte_index_decompose;
use crate::types::ImageData;
use crate::types::MonitorData;

verus! {

/// The least monitor left edge.
pub open spec fn min_left(mons: Seq<MonitorData>) -> int
    decreases mons.len(),
{
    if mons.len() <= 1 {
        mons[0].x as int
    } else {
        let rest = min_left(mons.drop_last());
        if mons.last().x < rest {
            mons.last().x as int
        } else {
            rest
        }
    }
}

/// The greatest monitor right edge (`x + width`).
pub open spec fn max_right(mons: Seq<MonitorData>) -> int
    decreases mons.len(),
{
    if mons.len() <= 1 {
        mons[0].x + mons[0].width
    } else {
        let rest = max_right(mons.drop_last());
        if mons.last().x + mons.last().width > rest {
            mons.last().x + mons.last().width
        } else {
            rest
        }
    }
}

/// The least monitor top edge.
pub open spec fn min_top(mons: Seq<MonitorData>) -> int
    decreases mons.len(),
{
    if mons.len() <= 1 {
        mons[0].y as int
    } else {
        let rest = min_top(mons.drop_last());
        if mons.last().y < rest {
            mons.last().y as int
        } else {
            rest
        }
    }
}

/// The greatest monitor bottom edge (`y + height`).
pub open spec fn max_bottom(mons: Seq<MonitorData>) -> int
    decreases mons.len(),
{
    if mons.len() <= 1 {
        mons[0].y + mons[0].height
    } else {
        let rest = max_bottom(mons.drop_last());
        if mons.last().y + mons.last().height > rest {
            mons.last().y + mons.last().height
        } else {
            rest
        }
    }
}

/// Width of the true union bounding box of all monitor rectangles.
pub open spec fn union_width(mons: Seq<MonitorData>) -> int {
    max_right(mons) - min_left(mons)
}

/// Height of the true union bounding box of all monitor rectangles.
pub open spec fn union_height(mons: Seq<MonitorData>) -> int {
    max_bottom(mons) - min_top(mons)
}

/// The channel byte the composite holds at virtual-desktop point
/// (`px`, `py`): the byte of the covering monitor latest in
/// enumeration order, or zero where no monitor covers the point.
pub open spec fn composite_byte(
    mons: Seq<MonitorData>,
    imgs: Seq<ImageData>,
    px: int,
    py: int,
    b: int,
) -> u8
    decreases mons.len(),
{
    if mons.len() == 0 {
        0u8
    } else if mons.last().contains_point(px, py) {
        imgs.last().byte_at(px - mons.last().x, py - mons.last().y, b)
    } else {
        composite_byte(mons.drop_last(), imgs.drop_last(), px, py, b)
    }
}

/// When compositing succeeds: at least one monitor, one capture per
/// monitor with matching dimensions and a well-formed buffer, and a
/// union bounding box whose image fits the machine's limits.
pub open spec fn compositing_ok(mons: Seq<MonitorData>, imgs: Seq<ImageData>) -> bool {
    &&& mons.len() > 0
    &&& imgs.len() == mons.len()
    &&& (forall|i: int|
        0 <= i < mons.len() ==> imgs[i].wf() && imgs[i].width == mons[i].width && imgs[i].height
            == mons[i].height)
    &&& union_width(mons) <= u32::MAX
    &&& union_height(mons) <= u32::MAX
    &&& union_width(mons) * union_height(mons) * 4 <= usize::MAX
}

proof fn lemma_bounds_step(mons: Seq<MonitorData>, i: int)
    requires
        1 <= i < mons.len(),
    ensures
        min_left(mons.take(i + 1)) == if mons[i].x < min_left(mons.take(i)) {
            mons[i].x as int
        } else {
            min_left(mons.take(i))
        },
        max_right(mons.take(i + 1)) == if mons[i].x + mons[i].width > max_right(mons.take(i)) {
            mons[i].x + mons[i].width
        } else {
            max_right(mons.take(i))
        },
        min_top(mons.take(i + 1)) == if mons[i].y < min_top(mons.take(i)) {
            mons[i].y as int
        } else {
            min_top(mons.take(i))
        },
        max_bottom(mons.take(i + 1)) == if mons[i].y + mons[i].height > max_bottom(mons.take(i)) {
            mons[i].y + mons[i].height
        } else {
            max_bottom(mons.take(i))
        },
{
    assert(mons.take(i + 1).drop_last() =~= mons.take(i));
    assert(mons.take(i + 1).last() == mons[i]);
}

/// The union bounding box contains every monitor's rectangle.
pub proof fn lemma_bounds_member(mons: Seq<MonitorData>, j: int)
    requires
        0 <= j < mons.len(),
    ensures
        min_left(mons) <= mons[j].x,
        max_right(mons) >= mons[j].x + mons[j].width,
        min_top(mons) <= mons[j].y,
        max_bottom(mons) >= mons[j].y + mons[j].height,
    decreases mons.len(),
{
    if mons.len() > 1 && j < mons.len() - 1 {
        assert(mons.drop_last()[j] == mons[j]);
        lemma_bounds_member(mons.drop_last(), j);
    }
}

fn last_covering(monitors: &Vec<MonitorData>, px: i64, py: i64) -> (r: Option<usize>)
    ensures
        r matches Some(i) ==> (i as int) < monitors@.len() && monitors@[i as int].contains_point(
            px as int,
            py as int,
        ) && (forall|j: int|
            i < j < monitors@.len() ==> !monitors@[j].contains_point(px as int, py as int)),
        r is None ==> forall|j: int|
            0 <= j < monitors@.len() ==> !monitors@[j].contains_point(px as int, py as int),
{
    let mut i: usize = monitors.len();
    while i > 0
        invariant
            i <= monitors@.len(),
            forall|j: int|
                i <= j < monitors@.len() ==> !monitors@[j].contains_point(px as int, py as int),
        decreases i,
    {
        i = i - 1;
        let m = &monitors[i];
        let inside = (m.x as i64) <= px && px < (m.x as i64) + (m.width as i64) && (m.y as i64)
            <= py && py < (m.y as i64) + (m.height as i64);
        if inside {
            return Some(i);
        }
    }
    None
}

proof fn lemma_composite_byte_some(
    mons: Seq<MonitorData>,
    imgs: Seq<ImageData>,
    px: int,
    py: int,
    b: int,
    i: int,
)
    requires
        imgs.len() == mons.len(),
        0 <= i < mons.len(),
        mons[i].contains_point(px, py),
        forall|j: int| i < j < mons.len() ==> !mons[j].contains_point(px, py),
    ensures
        composite_byte(mons, imgs, px, py, b) == imgs[i].byte_at(px - mons[i].x, py - mons[i].y, b),
    decreases mons.len(),
{
    if i < mons.len() - 1 {
        assert(!mons.last().contains_point(px, py));
        assert(mons.drop_last()[i] == mons[i]);
        assert(imgs.drop_last()[i] == imgs[i]);
        lemma_composite_byte_some(mons.drop_last(), imgs.drop_last(), px, py, b, i);
    }
}

proof fn lemma_composite_byte_none(
    mons: Seq<MonitorData>,
    imgs: Seq<ImageData>,
    px: int,
    py: int,
    b: int,
)
    requires
        imgs.len() == mons.len(),
        forall|j: int| 0 <= j < mons.len() ==> !mons[j].contains_point(px, py),
    ensures
        composite_byte(mons, imgs, px, py, b) == 0u8,
    decreases mons.len(),
{
    if mons.len() > 0 {
        assert(!mons.last().contains_point(px, py));
        lemma_composite_byte_none(mons.drop_last(), imgs.drop_last(), px, py, b);
    }
}

/// The byte position `k` of the composite buffer holds, for a
/// composite of row length `out_w` whose top-left corner sits at
/// (`minx`, `miny`) of the virtual desktop.
spec fn out_byte(
    mons: Seq<MonitorData>,
    imgs: Seq<ImageData>,
    minx: int,
    miny: int,
    out_w: int,
    k: int,
) -> u8 {
    let pix = k / 4;
    let b = k % 4;
    let gx = pix % out_w;
    let gy = pix / out_w;
    composite_byte(mons, imgs, minx + gx, miny + gy, b)
}

proof fn lemma_out_byte_at(
    mons: Seq<MonitorData>,
    imgs: Seq<ImageData>,
    minx: int,
    miny: int,
    out_w: int,
    gx: int,
    gy: int,
    b: int,
)
    requires
        0 < out_w,
        0 <= gx < out_w,
        0 <= gy,
        0 <= b < 4,
    ensures
        out_byte(mons, imgs, minx, miny, out_w, byte_index(out_w, gx, gy, b)) == composite_byte(
            mons,
            imgs,
            minx + gx,
            miny + gy,
            b,
        ),
{
    let k = byte_index(out_w, gx, gy, b);
    assert(k / 4 == gy * out_w + gx && k % 4 == b && (gy * out_w + gx) % out_w == gx && (gy * out_w
        + gx) / out_w == gy) by (nonlinear_arith)
        requires
            0 < out_w,
            0 <= gx < out_w,
            0 <= gy,
            0 <= b < 4,
            k == (gy * out_w + gx) * 4 + b,
    ;
}

fn image_matches(img: &ImageData, m: &MonitorData) -> (r: bool)
    ensures
        r <==> img.wf() && img.width == m.width && img.height == m.height,
{
    if img.width != m.width || img.height != m.height {
        return false;
    }
    let w64: u64 = img.width as u64;
    let h64: u64 = img.height as u64;
    proof {
        assert(w64 * h64 <= u64::MAX) by (nonlinear_arith)
            requires
                w64 < 0x1_0000_0000 && h64 < 0x1_0000_0000,
        ;
    }
    let need: u128 = ((w64 * h64) as u128) * 4;
    (img.pixels.len() as u128) == need
}

/// Composites one capture per monitor into a single virtual-desktop
/// image.  The output is sized to the true union bounding box of the
/// monitor rectangles (`max(x + width) - min(x)` by
/// `max(y + height) - min(y)`); every point covered by no monitor is a
/// zero pixel, and every covered point carries the byte of its
/// covering monitor latest in enumeration order.
pub fn composite_monitors(monitors: &Vec<MonitorData>, images: &Vec<ImageData>) -> (r: Result<
    ImageData,
    CaptureError,
>)
    ensures
        r is Ok <==> compositing_ok(monitors@, images@),
        r matches Err(e) ==> e is CaptureFailed,
        r matches Ok(out) ==> out.wf() && out.width == union_width(monitors@) && out.height
            == union_height(monitors@) && (forall|gx: int, gy: int, b: int|
            0 <= gx < out.width && 0 <= gy < out.height && 0 <= b < 4 ==> out.byte_at(gx, gy, b)
                == composite_byte(
                monitors@,
                images@,
                min_left(monitors@) + gx,
                min_top(monitors@) + gy,
                b,
            )),
{
    if monitors.len() == 0 {
        return Err(CaptureError::CaptureFailed(String::from_str("no monitors to composite")));
    }
    if images.len() != monitors.len() {
        return Err(
            CaptureError::CaptureFailed(String::from_str("one capture per monitor is required")),
        );
    }
    let mut i: usize = 0;
    while i < monitors.len()
        invariant
            images@.len() == monitors@.len(),
            i <= monitors@.len(),
            forall|j: int|
                0 <= j < i ==> images@[j].wf() && images@[j].width == monitors@[j].width
                    && images@[j].height == monitors@[j].height,
        decreases monitors@.len() - i,
    {
        if !image_matches(&images[i], &monitors[i]) {
            return Err(
                CaptureError::CaptureFailed(
                    String::from_str("a capture does not match its monitor's dimensions"),
                ),
            );
        }
        i = i + 1;
    }
    let m0 = &monitors[0];
    let mut minx: i64 = m0.x as i64;
    let mut maxr: i64 = (m0.x as i64) + (m0.width as i64);
    let mut miny: i64 = m0.y as i64;
    let mut maxb: i64 = (m0.y as i64) + (m0.height as i64);
    proof {
        assert(monitors@.take(1)[0] == monitors@[0]);
        assert(monitors@.take(1).len() == 1);
    }
    let mut i: usize = 1;
    while i < monitors.len()
        invariant
            monitors@.len() > 0,
            1 <= i <= monitors@.len(),
            minx == min_left(monitors@.take(i as int)),
            maxr == max_right(monitors@.take(i as int)),
            miny == min_top(monitors@.take(i as int)),
            maxb == max_bottom(monitors@.take(i as int)),
            i32::MIN <= minx <= i32::MAX,
            i32::MIN <= maxr <= (i32::MAX as i64) + (u32::MAX as i64),
            i32::MIN <= miny <= i32::MAX,
            i32::MIN <= maxb <= (i32::MAX as i64) + (u32::MAX as i64),
        decreases monitors@.len() - i,
    {
        proof {
            lemma_bounds_step(monitors@, i as int);
        }
        let m = &monitors[i];
        let l = m.x as i64;
        let rr = (m.x as i64) + (m.width as i64);
        let t = m.y as i64;
        let bb = (m.y as i64) + (m.height as i64);
        if l < minx {
            minx = l;
        }
        if rr > maxr {
            maxr = rr;
        }
        if t < miny {
            miny = t;
        }
        if bb > maxb {
            maxb = bb;
        }
        i = i + 1;
    }
    proof {
        assert(monitors@.take(monitors@.len() as int) =~= monitors@);
        lemma_bounds_member(monitors@, 0);
    }
    let ghost uw: int = union_width(monitors@);
    let ghost uh: int = union_height(monitors@);
    let w64: i64 = maxr - minx;
    let h64: i64 = maxb - miny;
    if w64 > (u32::MAX as i64) || h64 > (u32::MAX as i64) {
        return Err(
            CaptureError::CaptureFailed(
                String::from_str("virtual desktop dimensions exceed the supported size"),
            ),
        );
    }
    proof {
        assert((w64 as u128) * (h64 as u128) * 4 < u128::MAX) by (nonlinear_arith)
            requires
                0 <= w64 < 0x1_0000_0000,
                0 <= h64 < 0x1_0000_0000,
        ;
    }
    let total: u128 = (w64 as u128) * (h64 as u128) * 4;
    if total > (usize::MAX as u128) {
        proof {
            assert(!(uw * uh * 4 <= usize::MAX)) by (nonlinear_arith)
                requires
                    0 <= uw && 0 <= uh,
                    (w64 as u128) * (h64 as u128) * 4 > (usize::MAX as u128),
                    w64 == uw,
                    h64 == uh,
            ;
        }
        return Err(
            CaptureError::CaptureFailed(
                String::from_str("virtual desktop image exceeds the addressable size"),
            ),
        );
    }
    proof {
        assert(uw * uh * 4 <= usize::MAX) by (nonlinear_arith)
            requires
                0 <= uw && 0 <= uh,
                (w64 as u128) * (h64 as u128) * 4 <= (usize::MAX as u128),
                w64 == uw,
                h64 == uh,
        ;
    }
    let out_w: u32 = w64 as u32;
    let out_h: u32 = h64 as u32;
    let ghost wi: int = out_w as int;
    let ghost hi: int = out_h as int;
    let mut buf: Vec<u8> = Vec::new();
    let mut gy: u32 = 0;
    while gy < out_h
        invariant
            compositing_ok(monitors@, images@),
            gy <= out_h,
            wi == out_w && hi == out_h,
            wi == uw && hi == uh,
            uw == union_width(monitors@) && uh == union_height(monitors@),
            minx == min_left(monitors@) && miny == min_top(monitors@),
            i32::MIN <= minx <= i32::MAX,
            i32::MIN <= miny <= i32::MAX,
            uw * uh * 4 <= usize::MAX,
            buf@.len() == (gy as int) * wi * 4,
            forall|k: int|
                0 <= k < buf@.len() ==> buf@[k] == out_byte(
                    monitors@,
                    images@,
                    minx as int,
                    miny as int,
                    wi,
                    k,
                ),
        decreases out_h - gy,
    {
        let mut gx: u32 = 0;
        while gx < out_w
            invariant
                compositing_ok(monitors@, images@),
                gy < out_h,
                gx <= out_w,
                wi == out_w && hi == out_h,
                wi == uw && hi == uh,
                uw == union_width(monitors@) && uh == union_height(monitors@),
                minx == min_left(monitors@) && miny == min_top(monitors@),
                i32::MIN <= minx <= i32::MAX,
                i32::MIN <= miny <= i32::MAX,
                uw * uh * 4 <= usize::MAX,
                buf@.len() == ((gy as int) * wi + (gx as int)) * 4,
                forall|k: int|
                    0 <= k < buf@.len() ==> buf@[k] == out_byte(
                        monitors@,
                        images@,
                        minx as int,
                        miny as int,
                        wi,
                        k,
                    ),
            decreases out_w - gx,
        {
            let px: i64 = minx + (gx as i64);
            let py: i64 = miny + (gy as i64);
            let cover = last_covering(monitors, px, py);
            let mut b: u32 = 0;
            while b < 4
                invariant
                    compositing_ok(monitors@, images@),
                    gy < out_h,
                    gx < out_w,
                    b <= 4,
                    wi == out_w && hi == out_h,
                    wi == uw && hi == uh,
                    uw == union_width(monitors@) && uh == union_height(monitors@),
                    minx == min_left(monitors@) && miny == min_top(monitors@),
                    i32::MIN <= minx <= i32::MAX,
                    i32::MIN <= miny <= i32::MAX,
                    uw * uh * 4 <= usize::MAX,
                    px == minx + gx && py == miny + gy,
                    cover matches Some(ci) ==> (ci as int) < monitors@.len() && monitors@[ci as int].contains_point(
                        px as int,
                        py as int,
                    ) && (forall|j: int|
                        ci < j < monitors@.len() ==> !monitors@[j].contains_point(
                            px as int,
                            py as int,
                        )),
                    cover is None ==> forall|j: int|
                        0 <= j < monitors@.len() ==> !monitors@[j].contains_point(
                            px as int,
                            py as int,
                        ),
                    buf@.len() == ((gy as int) * wi + (gx as int)) * 4 + (b as int),
                    forall|k: int|
                        0 <= k < buf@.len() ==> buf@[k] == out_byte(
                            monitors@,
                            images@,
                            minx as int,
                            miny as int,
                            wi,
                            k,
                        ),
                decreases 4 - b,
            {
                let v: u8 = match cover {
                    Some(ci) => {
                        let m = &monitors[ci];
                        let im = &images[ci];
                        let lx: u32 = (px - (m.x as i64)) as u32;
                        let ly: u32 = (py - (m.y as i64)) as u32;
                        let n: usize = im.pixels.len();
                        proof {
                            assert(n == im.pixels@.len());
                            lemma_byte_index_bounds(
                                im.width as int,
                                im.height as int,
                                lx as int,
                                ly as int,
                                b as int,
                            );
                        }
                        let off = byte_offset(im.width, im.height, lx, ly, b);
                        im.pixels[off]
                    },
                    None => 0u8,
                };
                proof {
                    match cover {
                        Some(ci) => {
                            lemma_composite_byte_some(
                                monitors@,
                                images@,
                                px as int,
                                py as int,
                                b as int,
                                ci as int,
                            );
                        },
                        None => {
                            lemma_composite_byte_none(
                                monitors@,
                                images@,
                                px as int,
                                py as int,
                                b as int,
                            );
                        },
                    }
                    lemma_out_byte_at(
                        monitors@,
                        images@,
                        minx as int,
                        miny as int,
                        wi,
                        gx as int,
                        gy as int,
                        b as int,
                    );
                }
                buf.push(v);
                b = b + 1;
            }
            proof {
                assert(((gy as int) * wi + (gx as int)) * 4 + 4 == ((gy as int) * wi + ((
                gx as int) + 1)) * 4) by (nonlinear_arith);
            }
            gx = gx + 1;
        }
        proof {
            assert(((gy as int) * wi + wi) * 4 == (((gy as int) + 1) * wi) * 4)
                by (nonlinear_arith);
        }
        gy = gy + 1;
    }
    proof {
        assert((out_h as int) * wi * 4 == wi * hi * 4) by (nonlinear_arith)
            requires
                hi == out_h,
        ;
    }
    let out = ImageData { pixels: buf, width: out_w, height: out_h };
    proof {
        assert forall|gx: int, gy: int, b: int|
            0 <= gx < out.width && 0 <= gy < out.height && 0 <= b < 4 implies out.byte_at(
            gx,
            gy,
            b,
        ) == composite_byte(
            monitors@,
            images@,
            min_left(monitors@) + gx,
            min_top(monitors@) + gy,
            b,
        ) by {
            lemma_byte_index_bounds(wi, hi, gx, gy, b);
            lemma_out_byte_at(monitors@, images@, minx as int, miny as int, wi, gx, gy, b);
        }
    }
    Ok(out)
}

/// For a single-monitor configuration the composited virtual desktop
/// is that monitor's own capture: the union bounding box collapses to
/// the monitor's extent and every pixel is copied through unchanged.
pub proof fn lemma_single_monitor_composite(
    mons: Seq<MonitorData>,
    imgs: Seq<ImageData>,
    out: ImageData,
)
    requires
        mons.len() == 1,
        imgs.len() == 1,
        mons[0].wf(),
        imgs[0].wf(),
        imgs[0].width == mons[0].width,
        imgs[0].height == mons[0].height,
        out.wf(),
        out.width == union_width(mons),
        out.height == union_height(mons),
        forall|gx: int, gy: int, b: int|
            0 <= gx < out.width && 0 <= gy < out.height && 0 <= b < 4 ==> out.byte_at(gx, gy, b)
                == composite_byte(mons, imgs, min_left(mons) + gx, min_top(mons) + gy, b),
    ensures
        out.width == imgs[0].width,
        out.height == imgs[0].height,
        out.pixels@ == imgs[0].pixels@,
{
    let m = mons[0];
    assert(min_left(mons) == m.x && max_right(mons) == m.x + m.width && min_top(mons) == m.y
        && max_bottom(mons) == m.y + m.height);
    assert forall|k: int| 0 <= k < out.pixels@.len() implies out.pixels@[k]
        == imgs[0].pixels@[k] by {
        lemma_byte_index_decompose(out.width as int, out.height as int, k);
        let b = k % 4;
        let pix = k / 4;
        let gx = pix % (out.width as int);
        let gy = pix / (out.width as int);
        assert(out.byte_at(gx, gy, b) == composite_byte(mons, imgs, m.x + gx, m.y + gy, b));
        assert(m.contains_point(m.x + gx, m.y + gy));
        assert(mons.last() == mons[0] && imgs.last() == imgs[0]);
        assert(composite_byte(mons, imgs, m.x + gx, m.y + gy, b) == imgs[0].byte_at(gx, gy, b));
    }
    assert(out.pixels@ =~= imgs[0].pixels@);
}

} // verus!
