use aivorelay::region_capture::{
    base64_encode, crop_image, crop_region, selection_result, RegionCaptureResult, RgbaImage, SelectedRegion,
};
use image::ImageEncoder;

fn pixel(x: u32, y: u32) -> [u8; 4] {
    [x as u8, y as u8, (x * 10 + y) as u8, 255]
}

fn test_image(w: u32, h: u32) -> Vec<u8> {
    let mut px = Vec::new();
    for y in 0..h {
        for x in 0..w {
            px.extend_from_slice(&pixel(x, y));
        }
    }
    px
}

fn png(w: u32, h: u32) -> Vec<u8> {
    let mut out = Vec::new();
    image::codecs::png::PngEncoder::new(&mut out)
        .write_image(&test_image(w, h), w, h, image::ExtendedColorType::Rgba8)
        .unwrap();
    out
}

#[test]
fn crop_keeps_the_region_pixels() {
    let img = RgbaImage { width: 4, height: 3, pixels: test_image(4, 3) };
    let c = crop_image(&img, &SelectedRegion { x: 1, y: 1, width: 2, height: 2 }).unwrap();
    assert_eq!((c.width, c.height), (2, 2));
    let mut expected = Vec::new();
    for (x, y) in [(1, 1), (2, 1), (1, 2), (2, 2)] {
        expected.extend_from_slice(&pixel(x, y));
    }
    assert_eq!(c.pixels, expected);
}

#[test]
fn crop_refuses_bad_regions() {
    let img = RgbaImage { width: 4, height: 3, pixels: test_image(4, 3) };
    assert_eq!(
        crop_image(&img, &SelectedRegion { x: -1, y: 0, width: 1, height: 1 }).unwrap_err(),
        "Invalid region: negative coordinates"
    );
    assert_eq!(
        crop_image(&img, &SelectedRegion { x: 3, y: 1, width: 2, height: 2 }).unwrap_err(),
        "Region out of bounds: (3, 1) + 2x2 exceeds 4x3"
    );
}

#[test]
fn crop_region_round_trips_png() {
    let data = png(5, 4);
    let cropped = crop_region(&data, &SelectedRegion { x: 2, y: 1, width: 3, height: 2 }).unwrap();
    let back = image::load_from_memory(&cropped).unwrap().to_rgba8();
    assert_eq!((back.width(), back.height()), (3, 2));
    assert_eq!(back.get_pixel(0, 0).0, pixel(2, 1));
    assert_eq!(back.get_pixel(2, 1).0, pixel(4, 2));
}

#[test]
fn selection_outcomes() {
    let data = png(2, 2);
    match selection_result(&data, SelectedRegion { x: 0, y: 0, width: 1, height: 1 }) {
        RegionCaptureResult::Selected { region, image_data } => {
            assert_eq!(region, SelectedRegion { x: 0, y: 0, width: 1, height: 1 });
            assert!(!image_data.is_empty());
        }
        other => panic!("unexpected {:?}", other),
    }
    match selection_result(b"not an image", SelectedRegion { x: 0, y: 0, width: 1, height: 1 }) {
        RegionCaptureResult::Error(e) => assert!(e.starts_with("Failed to decode screenshot: ")),
        other => panic!("unexpected {:?}", other),
    }
}

#[test]
fn base64_values() {
    assert_eq!(base64_encode(b""), "");
    assert_eq!(base64_encode(b"f"), "Zg==");
    assert_eq!(base64_encode(b"fo"), "Zm8=");
    assert_eq!(base64_encode(b"foo"), "Zm9v");
    assert_eq!(base64_encode(b"foobar"), "Zm9vYmFy");
    assert_eq!(base64_encode(&[0xff, 0xfe, 0x00]), "//4A");
}

#[test]
fn full_crop_is_the_image() {
    let img = RgbaImage { width: 4, height: 3, pixels: test_image(4, 3) };
    let c = crop_image(&img, &SelectedRegion { x: 0, y: 0, width: 4, height: 3 }).unwrap();
    assert_eq!((c.width, c.height), (4, 3));
    assert_eq!(c.pixels, img.pixels);
}
