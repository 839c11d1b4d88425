//! Resolving monitors from a freshly enumerated descriptor list: by
//! exact name, by primary flag, by point containment, and the
//! width-sum working-area aggregate.

use vstd::prelude::*;
use vstd::string::StringExecFns;

use crate::errors::CaptureError;
use crate::types::MonitorData;

verus! {

/// Some monitor in the list carries exactly this name.
pub open spec fn has_monitor_named(mons: Seq<MonitorData>, name: Seq<char>) -> bool {
    exists|i: int| 0 <= i < mons.len() && mons[i].name@ == name
}

/// Some monitor in the list is flagged primary.
pub open spec fn has_primary_monitor(mons: Seq<MonitorData>) -> bool {
    exists|i: int| 0 <= i < mons.len() && mons[i].is_primary
}

/// Some monitor's rectangle contains the point.
pub open spec fn has_monitor_at(mons: Seq<MonitorData>, px: int, py: int) -> bool {
    exists|i: int| 0 <= i < mons.len() && mons[i].contains_point(px, py)
}

/// Decides whether every descriptor of a freshly enumerated monitor
/// list is well-formed: strictly positive width and height.  A list
/// that passes is fit to hand to the resolvers and the compositor.
pub fn monitor_list_valid(monitors: &Vec<MonitorData>) -> (r: bool)
    ensures
        r <==> forall|i: int| 0 <= i < monitors@.len() ==> monitors@[i].wf(),
{
    for i in 0..monitors.len()
        invariant
            forall|j: int| 0 <= j < i ==> monitors@[j].wf(),
    {
        let m = &monitors[i];
        if m.width == 0 || m.height == 0 {
            return false;
        }
    }
    true
}

/// The diagnostic text of a failed name lookup.
pub open spec fn monitor_not_found_message(name: Seq<char>) -> Seq<char> {
    "no monitor named '"@ + name + "'"@
}

/// Selects the first monitor whose name equals `name` exactly.
pub fn find_monitor_by_name(monitors: &Vec<MonitorData>, name: &String) -> (r: Result<
    MonitorData,
    CaptureError,
>)
    ensures
        r is Ok <==> has_monitor_named(monitors@, name@),
        r matches Ok(m) ==> exists|i: int|
            0 <= i < monitors@.len() && m == monitors@[i] && m.name@ == name@ && (forall|j: int|
                0 <= j < i ==> monitors@[j].name@ != name@),
        r matches Err(e) ==> e matches CaptureError::NotFound(msg) && msg@
            == monitor_not_found_message(name@),
{
    for i in 0..monitors.len()
        invariant
            forall|j: int| 0 <= j < i ==> monitors@[j].name@ != name@,
    {
        let m = &monitors[i];
        if m.name == *name {
            return Ok(m.clone());
        }
    }
    let mut msg = String::from_str("no monitor named '");
    msg.append(name.as_str());
    msg.append("'");
    Err(CaptureError::NotFound(msg))
}

/// Selects the first monitor flagged primary by the host.
pub fn find_primary_monitor(monitors: &Vec<MonitorData>) -> (r: Result<MonitorData, CaptureError>)
    ensures
        r is Ok <==> has_primary_monitor(monitors@),
        r matches Ok(m) ==> exists|i: int|
            0 <= i < monitors@.len() && m == monitors@[i] && m.is_primary && (forall|j: int|
                0 <= j < i ==> !monitors@[j].is_primary),
        r matches Err(e) ==> e matches CaptureError::NotFound(msg) && msg@
            == "no monitor is flagged primary"@,
{
    for i in 0..monitors.len()
        invariant
            forall|j: int| 0 <= j < i ==> !monitors@[j].is_primary,
    {
        let m = &monitors[i];
        if m.is_primary {
            return Ok(m.clone());
        }
    }
    Err(CaptureError::NotFound(String::from_str("no monitor is flagged primary")))
}

/// Selects the first monitor whose rectangle contains the point,
/// half-open on the right and bottom edges.
pub fn find_monitor_at_point(monitors: &Vec<MonitorData>, x: u32, y: u32) -> (r: Result<
    MonitorData,
    CaptureError,
>)
    ensures
        r is Ok <==> has_monitor_at(monitors@, x as int, y as int),
        r matches Ok(m) ==> exists|i: int|
            0 <= i < monitors@.len() && m == monitors@[i] && m.contains_point(x as int, y as int)
                && (forall|j: int|
                0 <= j < i ==> !monitors@[j].contains_point(x as int, y as int)),
        r matches Err(e) ==> e matches CaptureError::NotFound(msg) && msg@
            == "no monitor contains the requested point"@,
{
    for i in 0..monitors.len()
        invariant
            forall|j: int| 0 <= j < i ==> !monitors@[j].contains_point(x as int, y as int),
    {
        let m = &monitors[i];
        let px = x as i64;
        let py = y as i64;
        let inside = (m.x as i64) <= px && px < (m.x as i64) + (m.width as i64) && (m.y as i64)
            <= py && py < (m.y as i64) + (m.height as i64);
        if inside {
            return Ok(m.clone());
        }
    }
    Err(CaptureError::NotFound(String::from_str("no monitor contains the requested point")))
}

/// The sum of all monitor widths.
pub open spec fn sum_widths(mons: Seq<MonitorData>) -> int
    decreases mons.len(),
{
    if mons.len() == 0 {
        0
    } else {
        sum_widths(mons.drop_last()) + mons.last().width
    }
}

/// The greatest monitor height, zero for an empty list.
pub open spec fn max_height(mons: Seq<MonitorData>) -> int
    decreases mons.len(),
{
    if mons.len() == 0 {
        0
    } else {
        let rest = max_height(mons.drop_last());
        if mons.last().height > rest {
            mons.last().height as int
        } else {
            rest
        }
    }
}

/// All monitor names, joined with a comma-space separator.
pub open spec fn joined_names(mons: Seq<MonitorData>) -> Seq<char>
    decreases mons.len(),
{
    if mons.len() == 0 {
        Seq::<char>::empty()
    } else if mons.len() == 1 {
        mons[0].name@
    } else {
        joined_names(mons.drop_last()) + ", "@ + mons.last().name@
    }
}

proof fn lemma_sum_widths_step(mons: Seq<MonitorData>, i: int)
    requires
        0 <= i < mons.len(),
    ensures
        sum_widths(mons.take(i + 1)) == sum_widths(mons.take(i)) + mons[i].width,
{
    assert(mons.take(i + 1).drop_last() =~= mons.take(i));
    assert(mons.take(i + 1).last() == mons[i]);
}

proof fn lemma_sum_widths_prefix(mons: Seq<MonitorData>, i: int)
    requires
        0 <= i <= mons.len(),
    ensures
        sum_widths(mons.take(i)) <= sum_widths(mons),
    decreases mons.len() - i,
{
    if i == mons.len() {
        assert(mons.take(i) =~= mons);
    } else {
        lemma_sum_widths_step(mons, i);
        lemma_sum_widths_prefix(mons, i + 1);
    }
}

proof fn lemma_max_height_step(mons: Seq<MonitorData>, i: int)
    requires
        0 <= i < mons.len(),
    ensures
        max_height(mons.take(i + 1)) == if mons[i].height > max_height(mons.take(i)) {
            mons[i].height as int
        } else {
            max_height(mons.take(i))
        },
{
    assert(mons.take(i + 1).drop_last() =~= mons.take(i));
    assert(mons.take(i + 1).last() == mons[i]);
}

proof fn lemma_joined_names_step(mons: Seq<MonitorData>, i: int)
    requires
        0 < i < mons.len(),
    ensures
        joined_names(mons.take(i + 1)) == joined_names(mons.take(i)) + ", "@ + mons[i].name@,
{
    assert(mons.take(i + 1).drop_last() =~= mons.take(i));
    assert(mons.take(i + 1).last() == mons[i]);
}

/// The working-area aggregate: the sum of the monitor widths, the
/// greatest monitor height, origin (0, 0), and all names joined with a
/// comma-space separator.  (This deliberately differs from the true
/// union bounding box that compositing uses.)
pub fn working_area(monitors: &Vec<MonitorData>) -> (r: MonitorData)
    requires
        sum_widths(monitors@) <= u32::MAX,
    ensures
        r.width == sum_widths(monitors@),
        r.height == max_height(monitors@),
        r.x == 0 && r.y == 0,
        !r.is_primary,
        r.name@ == joined_names(monitors@),
{
    let mut width: u32 = 0;
    let mut height: u32 = 0;
    let mut name = String::new();
    for i in 0..monitors.len()
        invariant
            sum_widths(monitors@) <= u32::MAX,
            width == sum_widths(monitors@.take(i as int)),
            height == max_height(monitors@.take(i as int)),
            name@ == joined_names(monitors@.take(i as int)),
    {
        proof {
            lemma_sum_widths_step(monitors@, i as int);
            lemma_sum_widths_prefix(monitors@, i as int + 1);
            lemma_max_height_step(monitors@, i as int);
            if i > 0 {
                lemma_joined_names_step(monitors@, i as int);
            } else {
                assert(monitors@.take(1)[0] == monitors@[0]);
                assert(monitors@.take(1).len() == 1);
            }
        }
        let m = &monitors[i];
        width = width + m.width;
        if m.height > height {
            height = m.height;
        }
        if i > 0 {
            name.append(", ");
        }
        name.append(m.name.as_str());
    }
    proof {
        assert(monitors@.take(monitors@.len() as int) =~= monitors@);
    }
    MonitorData { width, height, x: 0, y: 0, name, is_primary: false }
}

} // verus!
