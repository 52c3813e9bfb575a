use aivorelay::region_capture::RgbaImage;
use aivorelay::virtual_screen::{
    capture_all_monitors, virtual_screen_info, CapturedScreen, MonitorRect, VirtualScreenInfo,
};

fn solid(width: u32, height: u32, rgba: [u8; 4]) -> RgbaImage {
    let mut pixels = Vec::new();
    for _ in 0..width * height {
        pixels.extend_from_slice(&rgba);
    }
    RgbaImage { width, height, pixels }
}

fn rect(x: i32, y: i32, width: u32, height: u32) -> MonitorRect {
    MonitorRect { x, y, width, height }
}

#[test]
fn virtual_screen_spans_all_monitors() {
    let monitors = vec![rect(0, 0, 1920, 1080), rect(-1280, 200, 1280, 1024), rect(1920, -300, 800, 600)];
    assert_eq!(
        virtual_screen_info(&monitors),
        Ok(VirtualScreenInfo { offset_x: -1280, offset_y: -300, total_width: 1920 + 1280 + 800, total_height: 1524 })
    );
}

#[test]
fn no_monitors_is_refused() {
    assert_eq!(virtual_screen_info(&Vec::new()), Err("No screens found".to_string()));
    assert_eq!(capture_all_monitors(&Vec::new()), Err("No screens found".to_string()));
}

#[test]
fn captures_are_painted_in_place() {
    let red = [255, 0, 0, 255];
    let green = [0, 255, 0, 255];
    let blue = [0, 0, 255, 255];
    let screens = vec![
        CapturedScreen { rect: rect(-2, 0, 2, 2), image: solid(2, 2, red) },
        // Larger than its monitor: cut at the canvas's edge.
        CapturedScreen { rect: rect(0, 1, 3, 2), image: solid(4, 2, green) },
        // Painted over the first capture.
        CapturedScreen { rect: rect(-1, 0, 1, 1), image: solid(1, 1, blue) },
    ];
    let (png, info) = capture_all_monitors(&screens).unwrap();
    assert_eq!(info, VirtualScreenInfo { offset_x: -2, offset_y: 0, total_width: 5, total_height: 3 });
    let img = image::load_from_memory(&png).unwrap().to_rgba8();
    assert_eq!((img.width(), img.height()), (5, 3));
    assert_eq!(img.get_pixel(0, 0).0, red);
    assert_eq!(img.get_pixel(1, 0).0, blue);
    assert_eq!(img.get_pixel(1, 1).0, red);
    assert_eq!(img.get_pixel(2, 0).0, [0, 0, 0, 0]);
    assert_eq!(img.get_pixel(0, 2).0, [0, 0, 0, 0]);
    assert_eq!(img.get_pixel(2, 1).0, green);
    assert_eq!(img.get_pixel(4, 2).0, green);
}
