//! The blur compositor: clamping, rectangle totality, ellipse bounds,
//! and the end-to-end scenario through PNG bytes.
use faceblur::compose::{apply_blur, blur_face_area, blur_multiple_faces, FaceBlurError};
use faceblur::pixel::PixelBuf;
use faceblur::rect::{BlurRect, ShapeMode};

/// A deterministic non-uniform test image: channel values derived from
/// the pixel position.
fn noisy(width: u32, height: u32) -> PixelBuf {
    let mut data = Vec::new();
    for y in 0..height {
        for x in 0..width {
            data.push(((x * 7 + y * 13) % 256) as u8);
            data.push(((x * 31 + y * 3) % 256) as u8);
            data.push(((x * 5 + y * 17) % 256) as u8);
            data.push(255);
        }
    }
    PixelBuf { width, height, data }
}

fn checkerboard(width: u32, height: u32) -> PixelBuf {
    let mut data = Vec::new();
    for y in 0..height {
        for x in 0..width {
            let v = if (x + y) % 2 == 0 { 0 } else { 255 };
            data.push(v);
            data.push(v);
            data.push(v);
            data.push(255);
        }
    }
    PixelBuf { width, height, data }
}

fn pixel(buf: &PixelBuf, x: u32, y: u32) -> [u8; 4] {
    let i = 4 * ((y * buf.width + x) as usize);
    [buf.data[i], buf.data[i + 1], buf.data[i + 2], buf.data[i + 3]]
}

#[test]
fn rectangle_fully_outside_changes_nothing() {
    let mut img = noisy(100, 100);
    let original = img.data.clone();
    let rects = vec![BlurRect { x: 10000, y: 0, w: 50, h: 50 }];
    apply_blur(&mut img, &rects, ShapeMode::Rectangle);
    assert_eq!(img.data, original);
}

#[test]
fn degenerate_and_below_bottom_rectangles_change_nothing() {
    let mut img = noisy(100, 100);
    let original = img.data.clone();
    let rects = vec![
        BlurRect { x: 0, y: 0, w: 0, h: 30 },
        BlurRect { x: 30, y: 30, w: -5, h: 10 },
        BlurRect { x: 0, y: 200, w: 30, h: 30 },
    ];
    apply_blur(&mut img, &rects, ShapeMode::Rectangle);
    assert_eq!(img.data, original);
}

#[test]
fn empty_rectangle_list_is_identity() {
    let mut img = noisy(64, 64);
    let original = img.data.clone();
    apply_blur(&mut img, &Vec::new(), ShapeMode::Ellipse);
    assert_eq!(img.data, original);
}

#[test]
fn rectangle_blur_changes_every_interior_pixel() {
    // A checkerboard blurs to mid values: every pixel of the blurred
    // region differs from its sharp original.
    let mut img = checkerboard(32, 32);
    let original = checkerboard(32, 32);
    let rects = vec![BlurRect { x: 0, y: 0, w: 32, h: 32 }];
    apply_blur(&mut img, &rects, ShapeMode::Rectangle);
    for y in 0..32 {
        for x in 0..32 {
            assert_ne!(pixel(&img, x, y), pixel(&original, x, y), "pixel {x},{y}");
        }
    }
}

#[test]
fn rectangle_blur_leaves_outside_untouched() {
    let mut img = noisy(60, 40);
    let original = noisy(60, 40);
    let rects = vec![BlurRect { x: 10, y: 10, w: 20, h: 15 }];
    apply_blur(&mut img, &rects, ShapeMode::Rectangle);
    for y in 0..40 {
        for x in 0..60 {
            let inside = (10..30).contains(&x) && (10..25).contains(&y);
            if !inside {
                assert_eq!(pixel(&img, x, y), pixel(&original, x, y), "pixel {x},{y}");
            }
        }
    }
}

#[test]
fn ellipse_blur_never_touches_outside_the_ellipse() {
    let mut img = noisy(60, 60);
    let original = noisy(60, 60);
    let (rx, ry, rw, rh) = (10i64, 14i64, 30i64, 20i64);
    let rects = vec![BlurRect { x: rx as i32, y: ry as i32, w: rw as i32, h: rh as i32 }];
    apply_blur(&mut img, &rects, ShapeMode::Ellipse);
    for y in 0..60i64 {
        for x in 0..60i64 {
            let lx = x - rx;
            let ly = y - ry;
            let in_rect = (0..rw).contains(&lx) && (0..rh).contains(&ly);
            let in_ellipse = in_rect
                && (2 * lx - rw).pow(2) * rh.pow(2) + (2 * ly - rh).pow(2) * rw.pow(2)
                    <= rw.pow(2) * rh.pow(2);
            if !in_ellipse {
                assert_eq!(
                    pixel(&img, x as u32, y as u32),
                    pixel(&original, x as u32, y as u32),
                    "pixel {x},{y}"
                );
            }
        }
    }
    // The four corner pixels of the rectangle in particular are untouched.
    for (cx, cy) in [(rx, ry), (rx + rw - 1, ry), (rx, ry + rh - 1), (rx + rw - 1, ry + rh - 1)] {
        assert_eq!(pixel(&img, cx as u32, cy as u32), pixel(&original, cx as u32, cy as u32));
    }
}

#[test]
fn ellipse_blur_changes_the_center() {
    let mut img = checkerboard(40, 40);
    let original = checkerboard(40, 40);
    let rects = vec![BlurRect { x: 5, y: 5, w: 30, h: 30 }];
    apply_blur(&mut img, &rects, ShapeMode::Ellipse);
    assert_ne!(pixel(&img, 20, 20), pixel(&original, 20, 20));
}

fn png_of_uniform(width: u32, height: u32, rgba: [u8; 4]) -> Vec<u8> {
    let img = image::RgbaImage::from_pixel(width, height, image::Rgba(rgba));
    let mut out = Vec::new();
    img.write_to(&mut std::io::Cursor::new(&mut out), image::ImageFormat::Png).unwrap();
    out
}

#[test]
fn end_to_end_blank_image_differs_only_inside_the_rectangle() {
    let bytes = png_of_uniform(200, 200, [100, 150, 200, 255]);
    let rects = vec![BlurRect { x: 50, y: 50, w: 100, h: 100 }];
    let out = blur_multiple_faces(bytes.clone(), rects, false).unwrap();
    let decoded = image::load_from_memory(&out).unwrap().to_rgba8();
    assert_eq!(decoded.width(), 200);
    assert_eq!(decoded.height(), 200);
    for y in 0..200u32 {
        for x in 0..200u32 {
            let inside = (50..150).contains(&x) && (50..150).contains(&y);
            if !inside {
                assert_eq!(*decoded.get_pixel(x, y), image::Rgba([100, 150, 200, 255]));
            }
        }
    }
}

#[test]
fn undecodable_bytes_give_a_decode_error() {
    let r = blur_multiple_faces(vec![1, 2, 3, 4], vec![], false);
    assert!(matches!(r, Err(FaceBlurError::Decode(_))));
    let r2 = blur_face_area(vec![9, 9, 9], 0, 0, 10, 10);
    assert!(matches!(r2, Err(FaceBlurError::Decode(_))));
}

#[test]
fn blur_face_area_outside_returns_original_bytes() {
    let bytes = png_of_uniform(100, 100, [1, 2, 3, 255]);
    let out = blur_face_area(bytes.clone(), 10000, 0, 10, 10).unwrap();
    assert_eq!(out, bytes);
}

#[test]
fn blur_face_area_blurs_the_region() {
    let bytes = png_of_uniform(100, 100, [10, 20, 30, 255]);
    let out = blur_face_area(bytes.clone(), 10, 10, 30, 30).unwrap();
    let decoded = image::load_from_memory(&out).unwrap().to_rgba8();
    assert_eq!(decoded.width(), 100);
    assert_eq!(decoded.height(), 100);
    assert_eq!(*decoded.get_pixel(0, 0), image::Rgba([10, 20, 30, 255]));
}

#[test]
fn empty_rect_list_succeeds_with_unchanged_pixels() {
    let img = image::RgbaImage::from_fn(30, 20, |x, y| {
        image::Rgba([(x * 8) as u8, (y * 12) as u8, (x + y) as u8, 255])
    });
    let mut bytes = Vec::new();
    img.write_to(&mut std::io::Cursor::new(&mut bytes), image::ImageFormat::Png).unwrap();
    let out = blur_multiple_faces(bytes, Vec::new(), true).unwrap();
    let decoded = image::load_from_memory(&out).unwrap().to_rgba8();
    assert_eq!(decoded.dimensions(), (30, 20));
    for y in 0..20 {
        for x in 0..30 {
            assert_eq!(decoded.get_pixel(x, y), img.get_pixel(x, y));
        }
    }
}
