use screen_capture::monitors::find_monitor_at_point;
use screen_capture::monitors::find_monitor_by_name;
use screen_capture::monitors::find_primary_monitor;
use screen_capture::monitors::monitor_list_valid;
use screen_capture::monitors::working_area;
use screen_capture::normalize::normalized;
use screen_capture::windows::find_window_at_point;
use screen_capture::windows::find_window_by_app_name;
use screen_capture::windows::sort_windows_by_z;
use screen_capture::CaptureError;
use screen_capture::MonitorData;
use screen_capture::WindowData;

fn mon(name: &str, width: u32, height: u32, x: i32, y: i32, is_primary: bool) -> MonitorData {
    MonitorData { width, height, x, y, name: name.to_string(), is_primary }
}

fn win(app_name: &str, title: &str, x: i32, y: i32, width: u32, height: u32, z: i32) -> WindowData {
    WindowData {
        title: title.to_string(),
        app_name: app_name.to_string(),
        pid: 1,
        x,
        y,
        width,
        height,
        z,
    }
}

#[test]
fn monitors_report_positive_extents() {
    assert!(MonitorData::new(0, 5, 0, 0, "A".to_string(), false).is_none());
    assert!(MonitorData::new(5, 0, 0, 0, "A".to_string(), false).is_none());
    let m = MonitorData::new(5, 4, -3, 2, "A".to_string(), true).unwrap();
    assert_eq!(m.width, 5);
    assert_eq!(m.height, 4);
    assert_eq!(m.x, -3);
    assert_eq!(m.y, 2);
    assert!(m.is_primary);

    let good = vec![mon("A", 1, 1, 0, 0, false), mon("B", 7, 9, 5, 5, false)];
    assert!(monitor_list_valid(&good));
    let bad = vec![mon("A", 1, 1, 0, 0, false), mon("B", 0, 9, 5, 5, false)];
    assert!(!monitor_list_valid(&bad));
}

#[test]
fn monitor_lookup_by_name_finds_exact_match() {
    let ms = vec![mon("DP-1", 1920, 1080, 0, 0, true), mon("HDMI-1", 1280, 1024, 1920, 0, false)];
    let m = find_monitor_by_name(&ms, &"HDMI-1".to_string()).unwrap();
    assert_eq!(m.name, "HDMI-1");
    assert_eq!(m.width, 1280);
    assert_eq!(m.x, 1920);
}

#[test]
fn monitor_lookup_unknown_name_is_not_found() {
    let ms = vec![mon("DP-1", 1920, 1080, 0, 0, true)];
    match find_monitor_by_name(&ms, &"nonexistent".to_string()) {
        Err(CaptureError::NotFound(msg)) => {
            assert_eq!(msg, "no monitor named 'nonexistent'");
        }
        other => panic!("expected NotFound, got {:?}", other.map(|m| m.name)),
    }
}

#[test]
fn primary_monitor_selection() {
    let ms = vec![mon("A", 10, 10, 0, 0, false), mon("B", 10, 10, 10, 0, true)];
    let m = find_primary_monitor(&ms).unwrap();
    assert_eq!(m.name, "B");

    let none = vec![mon("A", 10, 10, 0, 0, false)];
    assert!(matches!(find_primary_monitor(&none), Err(CaptureError::NotFound(_))));
}

#[test]
fn monitor_at_point_uses_half_open_rectangles() {
    let ms = vec![mon("A", 4, 4, -2, -2, false), mon("B", 4, 4, 2, 0, false)];
    let m = find_monitor_at_point(&ms, 1, 1).unwrap();
    assert_eq!(m.name, "A");
    let m = find_monitor_at_point(&ms, 2, 1).unwrap();
    assert_eq!(m.name, "B");
    // the right edge x + width is excluded
    assert!(matches!(find_monitor_at_point(&ms, 6, 1), Err(CaptureError::NotFound(_))));
}

#[test]
fn working_area_sums_widths_and_joins_names() {
    let ms = vec![mon("A", 2, 4, 0, 0, false), mon("B", 3, 2, 2, 0, false)];
    let wa = working_area(&ms);
    assert_eq!(wa.width, 5);
    assert_eq!(wa.height, 4);
    assert_eq!(wa.x, 0);
    assert_eq!(wa.y, 0);
    assert_eq!(wa.name, "A, B");

    let empty: Vec<MonitorData> = Vec::new();
    let wa = working_area(&empty);
    assert_eq!(wa.width, 0);
    assert_eq!(wa.height, 0);
    assert_eq!(wa.name, "");
}

#[test]
fn normalized_strips_path_separators() {
    assert_eq!(normalized("a|b\\c:d/e"), "abcde");
    assert_eq!(normalized("plain.png"), "plain.png");
    assert_eq!(normalized("|\\:/"), "");
    assert_eq!(normalized(""), "");
}

#[test]
fn window_sort_orders_by_descending_z() {
    let ws = vec![
        win("term", "t1", 0, 0, 5, 5, 2),
        win("edit", "t2", 0, 0, 5, 5, 9),
        win("mail", "t3", 0, 0, 5, 5, 4),
    ];
    let sorted = sort_windows_by_z(&ws);
    assert_eq!(sorted.len(), 3);
    assert_eq!(sorted[0].z, 9);
    assert_eq!(sorted[1].z, 4);
    assert_eq!(sorted[2].z, 2);
    assert_eq!(sorted[0].app_name, "edit");
}

#[test]
fn window_at_point_prefers_higher_z() {
    // two overlapping windows; the one with greater z wins
    let back = win("back", "b", 0, 0, 10, 10, 1);
    let front = win("front", "f", 5, 5, 10, 10, 7);
    let ws = vec![back.clone(), front.clone()];
    let w = find_window_at_point(&ws, 6, 6).unwrap();
    assert_eq!(w.app_name, "front");
    // the order the OS handed them over must not matter
    let ws = vec![front, back];
    let w = find_window_at_point(&ws, 6, 6).unwrap();
    assert_eq!(w.app_name, "front");
}

#[test]
fn window_at_point_is_inclusive_on_all_edges() {
    let ws = vec![win("only", "t", 2, 3, 4, 5, 1)];
    assert!(find_window_at_point(&ws, 2, 3).is_ok());
    assert!(find_window_at_point(&ws, 6, 8).is_ok());
    assert!(matches!(find_window_at_point(&ws, 7, 8), Err(CaptureError::NotFound(_))));
    assert!(matches!(find_window_at_point(&ws, 1, 3), Err(CaptureError::NotFound(_))));
}

#[test]
fn window_by_app_name_prefers_higher_z() {
    let ws = vec![
        win("term", "old", 0, 0, 5, 5, 1),
        win("edit", "doc", 0, 0, 5, 5, 3),
        win("term", "new", 0, 0, 5, 5, 8),
    ];
    let w = find_window_by_app_name(&ws, &"term".to_string()).unwrap();
    assert_eq!(w.title, "new");
    assert_eq!(w.z, 8);
}

#[test]
fn window_by_app_name_reports_candidates() {
    let ws = vec![win("term", "shell", 0, 0, 5, 5, 1), win("edit", "doc", 0, 0, 5, 5, 3)];
    match find_window_by_app_name(&ws, &"browser".to_string()) {
        Err(CaptureError::NotFound(msg)) => {
            assert_eq!(
                msg,
                "no window with app name 'browser'; available windows:\nterm (shell)\nedit (doc)"
            );
        }
        other => panic!("expected NotFound, got {:?}", other.map(|w| w.app_name)),
    }
}

#[test]
fn error_messages_carry_their_payload() {
    let e = CaptureError::NotFound("missing".to_string());
    assert_eq!(e.message(), "missing");
    let e = CaptureError::EnumerationFailed("no display".to_string());
    assert_eq!(e.message(), "no display");
    let e = CaptureError::CaptureFailed("denied".to_string());
    assert_eq!(e.message(), "denied");
    let e = CaptureError::OutOfBounds;
    assert_eq!(e.message(), "requested rectangle exceeds the captured surface");
}
