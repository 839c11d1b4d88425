use screen_capture::compose::composite_monitors;
use screen_capture::crop::crop_image;
use screen_capture::monitors::find_monitor_at_point;
use screen_capture::CaptureError;
use screen_capture::ImageData;
use screen_capture::MonitorData;

fn mon(name: &str, width: u32, height: u32, x: i32, y: i32) -> MonitorData {
    MonitorData { width, height, x, y, name: name.to_string(), is_primary: false }
}

/// A width-by-height image whose every pixel is the same RGBA tuple.
fn solid(width: u32, height: u32, rgba: [u8; 4]) -> ImageData {
    let mut pixels = Vec::new();
    for _ in 0..(width * height) {
        pixels.extend_from_slice(&rgba);
    }
    ImageData::new(pixels, width, height).unwrap()
}

/// The RGBA tuple of pixel (x, y) of an image.
fn pixel(img: &ImageData, x: u32, y: u32) -> [u8; 4] {
    let base = ((y * img.width + x) * 4) as usize;
    [img.pixels[base], img.pixels[base + 1], img.pixels[base + 2], img.pixels[base + 3]]
}

#[test]
fn image_data_checks_buffer_length() {
    assert!(ImageData::new(vec![0; 15], 2, 2).is_none());
    assert!(ImageData::new(vec![0; 17], 2, 2).is_none());
    let img = ImageData::new(vec![0; 16], 2, 2).unwrap();
    assert_eq!(img.width, 2);
    assert_eq!(img.height, 2);
    assert!(ImageData::new(Vec::new(), 0, 5).is_some());
}

#[test]
fn crop_extracts_the_requested_rectangle() {
    // a 3x2 image whose bytes count up from 0
    let pixels: Vec<u8> = (0u8..24).collect();
    let img = ImageData::new(pixels, 3, 2).unwrap();
    let out = crop_image(&img, 1, 0, 2, 2).unwrap();
    assert_eq!(out.width, 2);
    assert_eq!(out.height, 2);
    assert_eq!(out.pixels, vec![4, 5, 6, 7, 8, 9, 10, 11, 16, 17, 18, 19, 20, 21, 22, 23]);
}

#[test]
fn crop_past_the_edge_is_out_of_bounds() {
    let img = solid(4, 3, [1, 2, 3, 4]);
    assert!(matches!(crop_image(&img, 3, 0, 2, 1), Err(CaptureError::OutOfBounds)));
    assert!(matches!(crop_image(&img, 0, 2, 1, 2), Err(CaptureError::OutOfBounds)));
    assert!(matches!(crop_image(&img, 5, 0, 1, 1), Err(CaptureError::OutOfBounds)));
    assert!(crop_image(&img, 3, 2, 1, 1).is_ok());
}

#[test]
fn crop_full_extent_is_the_identity() {
    let pixels: Vec<u8> = (0u8..48).map(|v| v.wrapping_mul(5)).collect();
    let img = ImageData::new(pixels.clone(), 4, 3).unwrap();
    let out = crop_image(&img, 0, 0, 4, 3).unwrap();
    assert_eq!(out.width, img.width);
    assert_eq!(out.height, img.height);
    assert_eq!(out.pixels, pixels);
}

#[test]
fn crop_of_zero_size_is_empty() {
    let img = solid(2, 2, [9, 9, 9, 9]);
    let out = crop_image(&img, 1, 1, 0, 0).unwrap();
    assert_eq!(out.width, 0);
    assert_eq!(out.height, 0);
    assert!(out.pixels.is_empty());
}

#[test]
fn composite_is_sized_to_the_union_bounding_box() {
    let monitors = vec![mon("A", 2, 2, 0, 0), mon("B", 2, 2, 2, 0)];
    let images = vec![solid(2, 2, [1, 1, 1, 255]), solid(2, 2, [2, 2, 2, 255])];
    let out = composite_monitors(&monitors, &images).unwrap();
    assert_eq!(out.width, 4);
    assert_eq!(out.height, 2);

    let monitors = vec![mon("A", 1, 1, -1, -1), mon("B", 1, 1, 0, 0)];
    let images = vec![solid(1, 1, [1, 1, 1, 255]), solid(1, 1, [2, 2, 2, 255])];
    let out = composite_monitors(&monitors, &images).unwrap();
    assert_eq!(out.width, 2);
    assert_eq!(out.height, 2);
    assert_eq!(pixel(&out, 0, 0), [1, 1, 1, 255]);
    assert_eq!(pixel(&out, 1, 1), [2, 2, 2, 255]);
}

#[test]
fn composite_of_a_single_monitor_is_its_capture() {
    let monitors = vec![mon("only", 3, 2, 40, -7)];
    let pixels: Vec<u8> = (0u8..24).collect();
    let img = ImageData::new(pixels.clone(), 3, 2).unwrap();
    let out = composite_monitors(&monitors, &vec![img]).unwrap();
    assert_eq!(out.width, 3);
    assert_eq!(out.height, 2);
    assert_eq!(out.pixels, pixels);
}

#[test]
fn composite_overlap_resolves_to_the_later_monitor() {
    let monitors = vec![mon("A", 2, 1, 0, 0), mon("B", 2, 1, 1, 0)];
    let images = vec![solid(2, 1, [10, 0, 0, 255]), solid(2, 1, [0, 20, 0, 255])];
    let out = composite_monitors(&monitors, &images).unwrap();
    assert_eq!(out.width, 3);
    assert_eq!(out.height, 1);
    assert_eq!(pixel(&out, 0, 0), [10, 0, 0, 255]);
    assert_eq!(pixel(&out, 1, 0), [0, 20, 0, 255]);
    assert_eq!(pixel(&out, 2, 0), [0, 20, 0, 255]);
}

#[test]
fn composite_leaves_uncovered_points_transparent() {
    let monitors = vec![mon("A", 1, 1, 0, 0), mon("B", 1, 1, 2, 0)];
    let images = vec![solid(1, 1, [10, 0, 0, 255]), solid(1, 1, [0, 20, 0, 255])];
    let out = composite_monitors(&monitors, &images).unwrap();
    assert_eq!(out.width, 3);
    assert_eq!(pixel(&out, 0, 0), [10, 0, 0, 255]);
    assert_eq!(pixel(&out, 1, 0), [0, 0, 0, 0]);
    assert_eq!(pixel(&out, 2, 0), [0, 20, 0, 255]);
}

#[test]
fn composite_refuses_bad_input() {
    let none: Vec<MonitorData> = Vec::new();
    let no_images: Vec<ImageData> = Vec::new();
    assert!(matches!(
        composite_monitors(&none, &no_images),
        Err(CaptureError::CaptureFailed(_))
    ));

    let monitors = vec![mon("A", 2, 2, 0, 0)];
    assert!(matches!(
        composite_monitors(&monitors, &no_images),
        Err(CaptureError::CaptureFailed(_))
    ));

    let wrong = vec![solid(3, 2, [0, 0, 0, 0])];
    assert!(matches!(
        composite_monitors(&monitors, &wrong),
        Err(CaptureError::CaptureFailed(_))
    ));
}

#[test]
fn rect_capture_pipeline_resolves_then_crops() {
    // resolving a monitor from a point and cropping its capture,
    // the way a rectangle capture runs end to end
    let monitors = vec![mon("A", 4, 4, 0, 0), mon("B", 4, 4, 4, 0)];
    let m = find_monitor_at_point(&monitors, 5, 1).unwrap();
    assert_eq!(m.name, "B");
    let capture = {
        let pixels: Vec<u8> = (0u8..64).collect();
        ImageData::new(pixels, m.width, m.height).unwrap()
    };
    let out = crop_image(&capture, 1, 1, 2, 2).unwrap();
    assert_eq!(out.width, 2);
    assert_eq!(out.height, 2);
    assert_eq!(out.pixels, vec![20, 21, 22, 23, 24, 25, 26, 27, 36, 37, 38, 39, 40, 41, 42, 43]);
}
