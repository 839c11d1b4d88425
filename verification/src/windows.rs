//! Window stacking order and resolution: normalizing a window list to
//! front-most-first order, and picking the front-most window by app
//! name or by point containment.

use vstd::prelude::*;
use vstd::seq_lib::group_to_multiset_ensures;
use vstd::string::StringExecFns;

use crate::errors::CaptureError;
use crate::types::WindowData;

verus! {

/// Front-most first: stacking keys never increase along the list.
pub open spec fn sorted_by_z_desc(ws: Seq<WindowData>) -> bool {
    forall|i: int, j: int| 0 <= i < j < ws.len() ==> ws[i].z >= ws[j].z
}

/// Some window in the list carries exactly this app name.
pub open spec fn has_window_named(ws: Seq<WindowData>, name: Seq<char>) -> bool {
    exists|i: int| 0 <= i < ws.len() && ws[i].app_name@ == name
}

/// Some window's rectangle contains the point.
pub open spec fn has_window_at(ws: Seq<WindowData>, px: int, py: int) -> bool {
    exists|i: int| 0 <= i < ws.len() && ws[i].contains_point(px, py)
}

fn clone_windows(windows: &Vec<WindowData>) -> (r: Vec<WindowData>)
    ensures
        r@ == windows@,
{
    let mut r: Vec<WindowData> = Vec::new();
    for i in 0..windows.len()
        invariant
            r@ =~= windows@.take(i as int),
    {
        r.push(windows[i].clone());
        proof {
            assert(r@ =~= windows@.take(i as int + 1));
        }
    }
    proof {
        assert(windows@.take(windows@.len() as int) =~= windows@);
    }
    r
}

fn index_of_max_z(windows: &Vec<WindowData>) -> (r: usize)
    requires
        windows@.len() > 0,
    ensures
        r < windows@.len(),
        forall|k: int| 0 <= k < windows@.len() ==> windows@[k].z <= windows@[r as int].z,
{
    let mut best: usize = 0;
    for j in 1..windows.len()
        invariant
            best < j,
            windows@.len() > 0,
            forall|k: int| 0 <= k < j ==> windows@[k].z <= windows@[best as int].z,
    {
        if windows[j].z > windows[best].z {
            best = j;
        }
    }
    best
}

/// Reorders a window list so the front-most window (greatest `z`)
/// comes first, keeping exactly the original windows.
pub fn sort_windows_by_z(windows: &Vec<WindowData>) -> (r: Vec<WindowData>)
    ensures
        r@.to_multiset() == windows@.to_multiset(),
        r@.len() == windows@.len(),
        sorted_by_z_desc(r@),
{
    broadcast use group_to_multiset_ensures;

    let mut rest = clone_windows(windows);
    let mut out: Vec<WindowData> = Vec::new();
    while rest.len() > 0
        invariant
            out@.to_multiset().add(rest@.to_multiset()) =~= windows@.to_multiset(),
            out@.len() + rest@.len() == windows@.len(),
            sorted_by_z_desc(out@),
            forall|i: int, j: int|
                0 <= i < out@.len() && 0 <= j < rest@.len() ==> out@[i].z >= rest@[j].z,
        decreases rest@.len(),
    {
        let best = index_of_max_z(&rest);
        let ghost old_out = out@;
        let ghost old_rest = rest@;
        let w = rest.remove(best);
        out.push(w);
        proof {
            assert(out@ == old_out.push(w));
            vstd::seq_lib::to_multiset_build(old_out, w);
            assert(rest@ == old_rest.remove(best as int));
            vstd::seq_lib::to_multiset_remove(old_rest, best as int);
            assert(w == old_rest[best as int]);
            assert(old_rest.contains(w));
            old_rest.to_multiset_ensures();
            assert(old_rest.to_multiset().count(w) > 0);
            assert(out@.to_multiset().add(rest@.to_multiset()) =~= windows@.to_multiset());
            assert forall|i: int, j: int|
                0 <= i < out@.len() && 0 <= j < rest@.len() implies out@[i].z >= rest@[j].z by {
                assert(rest@[j] == if j < best { old_rest[j] } else { old_rest[j + 1] });
            }
            assert(sorted_by_z_desc(out@));
        }
    }
    out
}

/// Whatever a sorted copy holds, the original list holds, and the
/// other way round.
proof fn lemma_multiset_contains_both(a: Seq<WindowData>, b: Seq<WindowData>, w: WindowData)
    requires
        a.to_multiset() == b.to_multiset(),
    ensures
        a.contains(w) <==> b.contains(w),
{
    broadcast use group_to_multiset_ensures;

    assert(a.contains(w) <==> a.to_multiset().count(w) > 0);
    assert(b.contains(w) <==> b.to_multiset().count(w) > 0);
}

/// The catalog of available windows, one per line: the app name, then
/// the title in parentheses.
pub open spec fn window_catalog(ws: Seq<WindowData>) -> Seq<char>
    decreases ws.len(),
{
    if ws.len() == 0 {
        Seq::<char>::empty()
    } else {
        window_catalog(ws.drop_last()) + "\n"@ + ws.last().app_name@ + " ("@ + ws.last().title@
            + ")"@
    }
}

/// The diagnostic text of a failed app-name lookup: the query, then the
/// catalog of available windows.
pub open spec fn window_not_found_message(name: Seq<char>, ws: Seq<WindowData>) -> Seq<char> {
    "no window with app name '"@ + name + "'; available windows:"@ + window_catalog(ws)
}

proof fn lemma_window_catalog_step(ws: Seq<WindowData>, i: int)
    requires
        0 <= i < ws.len(),
    ensures
        window_catalog(ws.take(i + 1)) == window_catalog(ws.take(i)) + "\n"@ + ws[i].app_name@
            + " ("@ + ws[i].title@ + ")"@,
{
    assert(ws.take(i + 1).drop_last() =~= ws.take(i));
    assert(ws.take(i + 1).last() == ws[i]);
}

fn build_window_not_found_message(name: &String, windows: &Vec<WindowData>) -> (r: String)
    ensures
        r@ == window_not_found_message(name@, windows@),
{
    let mut msg = String::from_str("no window with app name '");
    msg.append(name.as_str());
    msg.append("'; available windows:");
    for i in 0..windows.len()
        invariant
            msg@ == "no window with app name '"@ + name@ + "'; available windows:"@
                + window_catalog(windows@.take(i as int)),
    {
        proof {
            lemma_window_catalog_step(windows@, i as int);
        }
        let w = &windows[i];
        msg.append("\n");
        msg.append(w.app_name.as_str());
        msg.append(" (");
        msg.append(w.title.as_str());
        msg.append(")");
    }
    proof {
        assert(windows@.take(windows@.len() as int) =~= windows@);
    }
    msg
}

/// Selects the front-most window whose app name equals `name` exactly.
/// On failure the diagnostic lists every available window, so the
/// caller can correct the query.
pub fn find_window_by_app_name(windows: &Vec<WindowData>, name: &String) -> (r: Result<
    WindowData,
    CaptureError,
>)
    ensures
        r is Ok <==> has_window_named(windows@, name@),
        r matches Ok(w) ==> windows@.contains(w) && w.app_name@ == name@ && (forall|v: WindowData|
            windows@.contains(v) && v.app_name@ == name@ ==> v.z <= w.z),
        r matches Err(e) ==> e matches CaptureError::NotFound(msg) && msg@
            == window_not_found_message(name@, windows@),
{
    let sorted = sort_windows_by_z(windows);
    for i in 0..sorted.len()
        invariant
            sorted@.to_multiset() == windows@.to_multiset(),
            sorted@.len() == windows@.len(),
            sorted_by_z_desc(sorted@),
            forall|j: int| 0 <= j < i ==> sorted@[j].app_name@ != name@,
    {
        let w = &sorted[i];
        if w.app_name == *name {
            proof {
                assert(sorted@.contains(sorted@[i as int]));
                lemma_multiset_contains_both(sorted@, windows@, sorted@[i as int]);
                assert forall|v: WindowData|
                    windows@.contains(v) && v.app_name@ == name@ implies v.z
                    <= sorted@[i as int].z by {
                    lemma_multiset_contains_both(sorted@, windows@, v);
                    let k = choose|k: int| 0 <= k < sorted@.len() && sorted@[k] == v;
                    assert(k >= i);
                }
                assert(has_window_named(windows@, name@)) by {
                    let k = choose|k: int|
                        0 <= k < windows@.len() && windows@[k] == sorted@[i as int];
                    assert(windows@[k].app_name@ == name@);
                }
            }
            return Ok(w.clone());
        }
    }
    proof {
        assert forall|k: int|
            0 <= k < windows@.len() implies windows@[k].app_name@ != name@ by {
            assert(windows@.contains(windows@[k]));
            lemma_multiset_contains_both(sorted@, windows@, windows@[k]);
            let j = choose|j: int| 0 <= j < sorted@.len() && sorted@[j] == windows@[k];
            assert(sorted@[j].app_name@ != name@);
        }
    }
    Err(CaptureError::NotFound(build_window_not_found_message(name, windows)))
}

/// Selects the front-most window whose rectangle contains the point,
/// inclusive on all four edges: among all windows containing the
/// point, one with the greatest stacking key `z` is returned.
pub fn find_window_at_point(windows: &Vec<WindowData>, x: u32, y: u32) -> (r: Result<
    WindowData,
    CaptureError,
>)
    ensures
        r is Ok <==> has_window_at(windows@, x as int, y as int),
        r matches Ok(w) ==> windows@.contains(w) && w.contains_point(x as int, y as int) && (
        forall|v: WindowData|
            windows@.contains(v) && v.contains_point(x as int, y as int) ==> v.z <= w.z),
        r matches Err(e) ==> e matches CaptureError::NotFound(msg) && msg@
            == "no window contains the requested point"@,
{
    let sorted = sort_windows_by_z(windows);
    for i in 0..sorted.len()
        invariant
            sorted@.to_multiset() == windows@.to_multiset(),
            sorted@.len() == windows@.len(),
            sorted_by_z_desc(sorted@),
            forall|j: int| 0 <= j < i ==> !sorted@[j].contains_point(x as int, y as int),
    {
        let w = &sorted[i];
        let px = x as i64;
        let py = y as i64;
        let inside = (w.x as i64) <= px && px <= (w.x as i64) + (w.width as i64) && (w.y as i64)
            <= py && py <= (w.y as i64) + (w.height as i64);
        if inside {
            proof {
                assert(sorted@[i as int].contains_point(x as int, y as int));
                assert(sorted@.contains(sorted@[i as int]));
                lemma_multiset_contains_both(sorted@, windows@, sorted@[i as int]);
                assert forall|v: WindowData|
                    windows@.contains(v) && v.contains_point(x as int, y as int) implies v.z
                    <= sorted@[i as int].z by {
                    lemma_multiset_contains_both(sorted@, windows@, v);
                    let k = choose|k: int| 0 <= k < sorted@.len() && sorted@[k] == v;
                    assert(k >= i);
                }
                assert(has_window_at(windows@, x as int, y as int)) by {
                    let k = choose|k: int|
                        0 <= k < windows@.len() && windows@[k] == sorted@[i as int];
                    assert(windows@[k].contains_point(x as int, y as int));
                }
            }
            return Ok(w.clone());
        }
    }
    proof {
        assert forall|k: int|
            0 <= k < windows@.len() implies !windows@[k].contains_point(x as int, y as int) by {
            assert(windows@.contains(windows@[k]));
            lemma_multiset_contains_both(sorted@, windows@, windows@[k]);
            let j = choose|j: int| 0 <= j < sorted@.len() && sorted@[j] == windows@[k];
            assert(!sorted@[j].contains_point(x as int, y as int));
        }
    }
    Err(CaptureError::NotFound(String::from_str("no window contains the requested point")))
}

} // verus!
