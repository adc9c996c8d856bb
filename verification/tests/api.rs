//! The small public surface around the pipeline.
use faceblur::greet;
use faceblur::rect::clamp_rect;
use faceblur::rect::BlurRect;

#[test]
fn greet_builds_the_greeting() {
    assert_eq!(greet(String::from("World")), "Hello, World!");
    assert_eq!(greet(String::new()), "Hello, !");
}

#[test]
fn clamping_trims_to_the_image() {
    let r = BlurRect { x: -10, y: 90, w: 30, h: 30 };
    assert_eq!(clamp_rect(&r, 100, 100), Some((0, 90, 30, 10)));
    let gone = BlurRect { x: 10000, y: 0, w: 30, h: 30 };
    assert_eq!(clamp_rect(&gone, 100, 100), None);
    let degenerate = BlurRect { x: 10, y: 10, w: 0, h: 5 };
    assert_eq!(clamp_rect(&degenerate, 100, 100), None);
}
