use rphys::color::Color;
use rphys::frame::Frame;
use rphys::physics::BodyId;
use rphys::scalar::Scalar;
use rphys::scene::{BodyType, Vec2};
use rphys::trail::{composite_over, TrailBody, TrailHistory};

fn body(id: u32, tag: &str, alive: bool) -> TrailBody {
    TrailBody {
        id: BodyId(id),
        tags: vec![tag.to_string()],
        alive,
        body_type: BodyType::Dynamic,
        position: Vec2 { x: Scalar { bits: 0 }, y: Scalar { bits: (id as f32).to_bits() } },
        radius: Scalar { bits: 0.5f32.to_bits() },
        color: Color::rgb(id as u8, 0, 0),
    }
}

#[test]
fn history_keeps_the_last_frames_of_tagged_live_bodies() {
    let mut t = TrailHistory::new(2, vec!["racer".to_string()]);
    let bodies = vec![body(1, "racer", true), body(2, "wall", true), body(3, "racer", false)];
    t.push_frame(&bodies);
    assert_eq!(t.frames.len(), 1);
    assert_eq!(t.frames[0].len(), 1);
    assert_eq!(t.frames[0][0].id, BodyId(1));
    t.push_frame(&vec![body(4, "racer", true)]);
    t.push_frame(&vec![body(5, "racer", true)]);
    assert_eq!(t.frames.len(), 2);
    assert_eq!(t.frames[0][0].id, BodyId(4));
    assert_eq!(t.frames[1][0].id, BodyId(5));
}

#[test]
fn empty_filter_keeps_every_live_body_and_zero_length_keeps_nothing() {
    let mut t = TrailHistory::new(3, vec![]);
    t.push_frame(&vec![body(1, "a", true), body(2, "b", true), body(3, "c", false)]);
    assert_eq!(t.frames[0].len(), 2);
    let mut none = TrailHistory::new(0, vec![]);
    none.push_frame(&vec![body(1, "a", true)]);
    assert!(none.frames.is_empty());
}

#[test]
fn composite_over_premultiplied() {
    let mut dst = Frame { width: 3, height: 1, pixels: vec![100, 100, 100, 255, 10, 20, 30, 40, 200, 200, 200, 200] };
    let src = Frame { width: 3, height: 1, pixels: vec![1, 2, 3, 255, 9, 9, 9, 0, 50, 60, 70, 128] };
    composite_over(&mut dst, &src);
    assert_eq!(&dst.pixels[0..4], &[1, 2, 3, 255]);
    assert_eq!(&dst.pixels[4..8], &[10, 20, 30, 40]);
    let blend = |s: u32, d: u32| ((s + (d * 127 + 127) / 255).min(255)) as u8;
    assert_eq!(&dst.pixels[8..12], &[blend(50, 200), blend(60, 200), blend(70, 200), blend(128, 200)]);
}

fn body_at(id: u32, x: f32, y: f32, tags: Vec<String>) -> TrailBody {
    TrailBody {
        id: BodyId(id),
        tags,
        alive: true,
        body_type: BodyType::Dynamic,
        position: Vec2 { x: Scalar { bits: x.to_bits() }, y: Scalar { bits: y.to_bits() } },
        radius: Scalar { bits: 0.5f32.to_bits() },
        color: Color::rgb(255, 100, 0),
    }
}

#[test]
fn test_trail_history_bounded() {
    let max_len = 4_usize;
    let mut trail = TrailHistory::new(max_len, vec![]);
    let bodies = vec![body_at(0, 5.0, 5.0, vec![])];
    for _ in 0..(max_len * 3) {
        trail.push_frame(&bodies);
    }
    assert!(
        trail.frames.len() <= max_len,
        "history length {} must not exceed configured max {}",
        trail.frames.len(),
        max_len,
    );
}

#[test]
fn test_tag_filter_excludes_unmatched_bodies() {
    let mut trail = TrailHistory::new(10, vec!["racer".to_string()]);
    let untagged = body_at(0, 5.0, 5.0, vec!["obstacle".to_string()]);
    trail.push_frame(&vec![untagged]);
    assert_eq!(trail.frames.len(), 1, "one snapshot should be pushed");
    assert!(trail.frames[0].is_empty(), "snapshot should be empty when no body matches the tag filter");
}

#[test]
fn test_empty_tag_filter_accepts_all() {
    let mut trail = TrailHistory::new(10, vec![]);
    trail.push_frame(&vec![body_at(0, 3.0, 3.0, vec![])]);
    assert_eq!(trail.frames[0].len(), 1, "body should be included when tags_filter is empty");
}

#[test]
fn empty_filter_trails_only_dynamic_bodies() {
    let mut t = TrailHistory::new(3, vec![]);
    let mut fixed = body_at(1, 0.0, 0.0, vec![]);
    fixed.body_type = BodyType::Static;
    let mut spinner = body_at(2, 0.0, 0.0, vec![]);
    spinner.body_type = BodyType::Kinematic;
    t.push_frame(&vec![fixed, spinner, body_at(3, 1.0, 1.0, vec![])]);
    assert_eq!(t.frames[0].len(), 1);
    assert_eq!(t.frames[0][0].id, BodyId(3));
    let mut tagged = TrailHistory::new(3, vec!["pin".to_string()]);
    let mut pin = body_at(4, 0.0, 0.0, vec!["pin".to_string()]);
    pin.body_type = BodyType::Static;
    tagged.push_frame(&vec![pin]);
    assert_eq!(tagged.frames[0].len(), 1);
}
