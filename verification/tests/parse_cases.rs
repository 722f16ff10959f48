use rphys::color::Color;
use rphys::scalar::Scalar;
use rphys::scene::{BodyType, EndCondition, Scene, ShapeKind};
use rphys::scene_errors::{ParseError, ValidationError};
use rphys::scene_parse::{
    check_scene, is_blank, RawAudioFile, RawCheckpoint, RawDestructible, RawEndCondition, RawEnvironment,
    RawMaterial, RawMeta, RawObject, RawObjectAudio, RawRaceConfig, RawScene, RawSceneAudio, RawWallConfig,
    RawWorldBounds, Reading,
};
use rphys::scene::Vec2;

fn s(v: f32) -> Scalar {
    Scalar { bits: v.to_bits() }
}

fn f(x: Scalar) -> f32 {
    f32::from_bits(x.bits)
}

fn reading(v: f32) -> Reading {
    Reading { value: s(v), shown: format!("{v}") }
}

fn v2(x: f32, y: f32) -> Vec2 {
    Vec2 { x: s(x), y: s(y) }
}

fn environment() -> RawEnvironment {
    RawEnvironment {
        gravity: v2(0.0, -9.81),
        background_color: "#000000".to_string(),
        world_bounds: RawWorldBounds { width: reading(20.0), height: reading(35.0) },
        walls: RawWallConfig { visible: Some(true), color: Some("#ffffff".to_string()), thickness: Some(reading(0.3)) },
    }
}

/// The scene every case starts from: no objects, no end condition.
fn minimal() -> RawScene {
    RawScene {
        version: "1".to_string(),
        meta: RawMeta { name: "Test Scene".to_string(), description: None, author: None, duration_hint: None },
        environment: RawEnvironment {
            background_color: "#1a1a2e".to_string(),
            world_bounds: RawWorldBounds { width: reading(20.0), height: reading(35.56) },
            ..environment()
        },
        objects: vec![],
        end_condition: None,
        audio: None,
        race: None,
    }
}

fn named(name: &str, objects: Vec<RawObject>) -> RawScene {
    RawScene {
        version: "1".to_string(),
        meta: RawMeta { name: name.to_string(), description: None, author: None, duration_hint: None },
        environment: environment(),
        objects,
        end_condition: None,
        audio: None,
        race: None,
    }
}

fn circle(name: Option<&str>, radius: f32, x: f32, y: f32) -> RawObject {
    RawObject {
        name: name.map(|n| n.to_string()),
        shape: Some("circle".to_string()),
        radius: Some(reading(radius)),
        size: None,
        vertices: None,
        position: Some(v2(x, y)),
        velocity: None,
        rotation: None,
        angular_velocity: None,
        body_type: None,
        material: None,
        color: None,
        tags: None,
        destructible: None,
        audio: None,
    }
}

fn parse(raw: &RawScene) -> Scene {
    check_scene(raw, None).expect("should parse")
}

fn errors(raw: &RawScene) -> Vec<ValidationError> {
    match check_scene(raw, None) {
        Err(ParseError::Validation(errs)) => errs,
        Err(other) => panic!("expected Validation error, got {other:?}"),
        Ok(_) => panic!("expected Validation error, got a scene"),
    }
}

fn invalid_value(errs: &[ValidationError], who: &str, part: &str) -> bool {
    errs.iter().any(|e| matches!(e, ValidationError::InvalidValue { name, message } if name == who && message.contains(part)))
}

#[test]
fn test_parse_minimal_scene() {
    let scene = parse(&minimal());
    assert_eq!(scene.version, "1");
    assert_eq!(scene.meta.name, "Test Scene");
    assert!(scene.objects.is_empty());
    assert_eq!((f(scene.environment.gravity.x), f(scene.environment.gravity.y)), (0.0, -9.81));
}

#[test]
fn test_parse_scene_meta_optional_fields() {
    let mut raw = named("Full Meta", vec![]);
    raw.meta.description = Some("A test scene".to_string());
    raw.meta.author = Some("rphys".to_string());
    raw.meta.duration_hint = Some(reading(30.0));
    raw.environment.gravity = v2(0.0, 0.0);
    raw.environment.world_bounds = RawWorldBounds { width: reading(10.0), height: reading(10.0) };
    raw.environment.walls =
        RawWallConfig { visible: Some(false), color: Some("#333333".to_string()), thickness: Some(reading(0.5)) };
    let scene = parse(&raw);
    assert_eq!(scene.meta.description.as_deref(), Some("A test scene"));
    assert_eq!(scene.meta.author.as_deref(), Some("rphys"));
    assert_eq!(scene.meta.duration_hint.map(f), Some(30.0));
}

#[test]
fn test_parse_circle_object() {
    let mut ball = circle(Some("ball"), 0.8, 10.0, 20.0);
    ball.velocity = Some(v2(2.0, 0.0));
    ball.color = Some("#ff0000".to_string());
    ball.tags = Some(vec!["bouncy".to_string()]);
    ball.material =
        Some(RawMaterial { restitution: Some(reading(0.9)), friction: Some(reading(0.1)), density: Some(reading(1.5)) });
    let mut raw = named("Circle Test", vec![ball]);
    raw.environment.background_color = "#1a1a2e".to_string();
    raw.environment.world_bounds.height = reading(35.56);
    let scene = parse(&raw);
    assert_eq!(scene.objects.len(), 1);
    let obj = &scene.objects[0];
    assert_eq!(obj.name.as_deref(), Some("ball"));
    assert!(matches!(obj.shape, ShapeKind::Circle { radius } if (f(radius) - 0.8).abs() < 1e-6));
    assert_eq!((f(obj.position.x), f(obj.position.y)), (10.0, 20.0));
    assert_eq!((f(obj.velocity.x), f(obj.velocity.y)), (2.0, 0.0));
    assert_eq!(obj.tags, vec!["bouncy".to_string()]);
    assert_eq!(obj.color, Color::rgb(0xff, 0x00, 0x00));
    assert!((f(obj.material.restitution) - 0.9).abs() < 1e-6);
}

#[test]
fn test_parse_rectangle_object() {
    let mut bx = circle(Some("box"), 1.0, 5.0, 10.0);
    bx.shape = Some("rectangle".to_string());
    bx.radius = None;
    bx.size = Some((reading(3.0), reading(2.0)));
    bx.body_type = Some("static".to_string());
    let scene = parse(&named("Rect Test", vec![bx]));
    let obj = &scene.objects[0];
    assert!(matches!(
        obj.shape,
        ShapeKind::Rectangle { width, height } if (f(width) - 3.0).abs() < 1e-6 && (f(height) - 2.0).abs() < 1e-6
    ));
    assert_eq!(obj.body_type, BodyType::Static);
}

#[test]
fn test_parse_polygon_object() {
    let mut tri = circle(Some("tri"), 1.0, 10.0, 15.0);
    tri.shape = Some("polygon".to_string());
    tri.radius = None;
    tri.vertices = Some(vec![v2(0.0, 1.0), v2(1.0, -0.5), v2(-1.0, -0.5)]);
    let scene = parse(&named("Poly Test", vec![tri]));
    if let ShapeKind::Polygon { vertices } = &scene.objects[0].shape {
        assert_eq!(vertices.len(), 3);
    } else {
        panic!("expected polygon");
    }
}

#[test]
fn test_parse_end_condition_time_limit() {
    let mut raw = named("EC Test", vec![]);
    raw.end_condition = Some(RawEndCondition::TimeLimit { seconds: reading(30.0) });
    let scene = parse(&raw);
    assert!(matches!(
        scene.end_condition,
        Some(EndCondition::TimeLimit { seconds }) if (f(seconds) - 30.0).abs() < 1e-6
    ));
}

#[test]
fn test_parse_end_condition_or_composite() {
    let mut raw = named("Composite EC", vec![circle(Some("ball"), 0.5, 10.0, 10.0)]);
    raw.end_condition = Some(RawEndCondition::Or {
        conditions: vec![
            RawEndCondition::TimeLimit { seconds: reading(60.0) },
            RawEndCondition::ObjectEscaped { name: "ball".to_string() },
        ],
    });
    let scene = parse(&raw);
    if let Some(EndCondition::Or { conditions }) = &scene.end_condition {
        assert_eq!(conditions.len(), 2);
        assert!(matches!(conditions[0], EndCondition::TimeLimit { .. }));
        assert!(matches!(conditions[1], EndCondition::ObjectEscaped { .. }));
    } else {
        panic!("expected Or end condition");
    }
}

#[test]
fn test_parse_destructible() {
    let mut brick = circle(Some("brick"), 1.0, 5.0, 20.0);
    brick.shape = Some("rectangle".to_string());
    brick.radius = None;
    brick.size = Some((reading(2.0), reading(0.8)));
    brick.body_type = Some("static".to_string());
    brick.destructible = Some(RawDestructible { min_impact_force: reading(5.0) });
    let scene = parse(&named("Destructible", vec![brick]));
    let d = scene.objects[0].destructible.as_ref().expect("should have destructible");
    assert!((f(d.min_impact_force) - 5.0).abs() < 1e-6);
}

#[test]
fn test_empty_yaml_returns_empty_scene_error() {
    assert!(is_blank(""));
}

#[test]
fn test_whitespace_only_returns_empty_scene_error() {
    assert!(is_blank("   \n\t  "));
}

#[test]
fn test_unsupported_version() {
    let mut raw = named("Future", vec![]);
    raw.version = "2".to_string();
    let err = check_scene(&raw, None).unwrap_err();
    assert!(matches!(err, ParseError::UnsupportedVersion { version } if version == "2"));
}

#[test]
fn test_missing_shape_field() {
    let mut ball = circle(Some("ball"), 0.5, 10.0, 10.0);
    ball.shape = None;
    ball.radius = None;
    let errs = errors(&named("Missing Shape", vec![ball]));
    assert!(errs.iter().any(|e| matches!(e, ValidationError::MissingField { name, field } if name == "ball" && *field == "shape")));
}

#[test]
fn test_unknown_shape_type() {
    let mut weird = circle(Some("weird"), 0.5, 10.0, 10.0);
    weird.shape = Some("sphere".to_string());
    weird.radius = None;
    let errs = errors(&named("Unknown Shape", vec![weird]));
    assert!(errs.iter().any(|e| matches!(e, ValidationError::UnknownShape { name, shape } if name == "weird" && shape == "sphere")));
}

#[test]
fn test_circle_missing_radius() {
    let mut ball = circle(Some("ball"), 0.5, 10.0, 10.0);
    ball.radius = None;
    let errs = errors(&named("No Radius", vec![ball]));
    assert!(errs.iter().any(|e| matches!(e, ValidationError::MissingField { name, field } if name == "ball" && *field == "radius")));
}

#[test]
fn test_rectangle_missing_size() {
    let mut bx = circle(Some("box"), 0.5, 10.0, 10.0);
    bx.shape = Some("rectangle".to_string());
    bx.radius = None;
    let errs = errors(&named("No Size", vec![bx]));
    assert!(errs.iter().any(|e| matches!(e, ValidationError::MissingField { name, field } if name == "box" && *field == "size")));
}

#[test]
fn test_duplicate_object_name() {
    let raw = named("Duplicate Names", vec![circle(Some("ball"), 0.5, 5.0, 10.0), circle(Some("ball"), 0.5, 15.0, 10.0)]);
    let errs = errors(&raw);
    assert!(errs.iter().any(|e| matches!(e, ValidationError::DuplicateName { name } if name == "ball")));
}

#[test]
fn test_invalid_restitution_out_of_range() {
    let mut ball = circle(Some("ball"), 0.5, 10.0, 10.0);
    ball.material = Some(RawMaterial { restitution: Some(reading(1.5)), friction: None, density: None });
    let errs = errors(&named("Bad Restitution", vec![ball]));
    assert!(invalid_value(&errs, "ball", "restitution"));
}

#[test]
fn test_end_condition_references_unknown_object() {
    let mut raw = named("Bad Reference", vec![]);
    raw.end_condition = Some(RawEndCondition::ObjectEscaped { name: "nonexistent".to_string() });
    let errs = errors(&raw);
    assert!(errs.iter().any(|e| matches!(e, ValidationError::UnknownObjectReference { name } if name == "nonexistent")));
}

#[test]
fn test_parse_tags_collided_end_condition() {
    let mut raw = named("Tags EC", vec![]);
    raw.end_condition = Some(RawEndCondition::TagsCollided { tag_a: "ball".to_string(), tag_b: "goal".to_string() });
    let scene = parse(&raw);
    assert!(matches!(
        scene.end_condition,
        Some(EndCondition::TagsCollided { tag_a, tag_b }) if tag_a == "ball" && tag_b == "goal"
    ));
}

#[test]
fn test_all_tagged_destroyed_end_condition() {
    let mut raw = named("Destroy All", vec![]);
    raw.end_condition = Some(RawEndCondition::AllTaggedDestroyed { tag: "enemy".to_string() });
    let scene = parse(&raw);
    assert!(matches!(scene.end_condition, Some(EndCondition::AllTaggedDestroyed { tag }) if tag == "enemy"));
}

#[test]
fn test_material_defaults_when_omitted() {
    let scene = parse(&named("Default Material", vec![circle(None, 1.0, 10.0, 10.0)]));
    let mat = &scene.objects[0].material;
    assert!((f(mat.restitution) - 0.5).abs() < 1e-6);
    assert!((f(mat.friction) - 0.5).abs() < 1e-6);
    assert!((f(mat.density) - 1.0).abs() < 1e-6);
}

#[test]
fn test_scene_audio_defaults() {
    let scene = parse(&minimal());
    assert!((f(scene.audio.master_volume) - 1.0).abs() < 1e-6);
    assert!(scene.audio.default_bounce.is_none());
    assert!(scene.audio.default_destroy.is_none());
}

#[test]
fn test_parse_end_condition_and_composite() {
    let mut raw = named("And EC", vec![circle(Some("ball"), 0.5, 10.0, 10.0)]);
    raw.end_condition = Some(RawEndCondition::And {
        conditions: vec![
            RawEndCondition::TimeLimit { seconds: reading(60.0) },
            RawEndCondition::ObjectEscaped { name: "ball".to_string() },
        ],
    });
    let scene = parse(&raw);
    if let Some(EndCondition::And { conditions }) = &scene.end_condition {
        assert_eq!(conditions.len(), 2);
        assert!(matches!(conditions[0], EndCondition::TimeLimit { .. }));
        assert!(matches!(conditions[1], EndCondition::ObjectEscaped { .. }));
    } else {
        panic!("expected And end condition");
    }
}

#[test]
fn test_parse_nested_composite_end_condition() {
    let mut raw = named("Nested EC", vec![circle(Some("ball"), 0.5, 10.0, 10.0)]);
    raw.end_condition = Some(RawEndCondition::Or {
        conditions: vec![
            RawEndCondition::TimeLimit { seconds: reading(30.0) },
            RawEndCondition::And {
                conditions: vec![
                    RawEndCondition::ObjectEscaped { name: "ball".to_string() },
                    RawEndCondition::AllTaggedDestroyed { tag: "enemy".to_string() },
                ],
            },
        ],
    });
    let scene = parse(&raw);
    if let Some(EndCondition::Or { conditions }) = &scene.end_condition {
        assert_eq!(conditions.len(), 2);
        assert!(matches!(conditions[1], EndCondition::And { .. }));
    } else {
        panic!("expected nested Or/And end condition");
    }
}

#[test]
fn test_missing_position_field() {
    let mut ball = circle(Some("ball"), 0.5, 10.0, 10.0);
    ball.position = None;
    let errs = errors(&named("Missing Position", vec![ball]));
    assert!(errs.iter().any(|e| matches!(e, ValidationError::MissingField { name, field } if name == "ball" && *field == "position")));
}

#[test]
fn test_polygon_too_few_vertices() {
    let mut bad = circle(Some("bad"), 1.0, 10.0, 10.0);
    bad.shape = Some("polygon".to_string());
    bad.radius = None;
    bad.vertices = Some(vec![v2(0.0, 1.0), v2(1.0, -1.0)]);
    let errs = errors(&named("Bad Polygon", vec![bad]));
    assert!(invalid_value(&errs, "bad", "at least 3 vertices"));
}

#[test]
fn test_circle_negative_radius() {
    let errs = errors(&named("Negative Radius", vec![circle(Some("bad"), -1.0, 10.0, 10.0)]));
    assert!(invalid_value(&errs, "bad", "radius"));
}

#[test]
fn test_invalid_body_type() {
    let mut bad = circle(Some("bad"), 1.0, 10.0, 10.0);
    bad.body_type = Some("flying".to_string());
    let errs = errors(&named("Bad Body Type", vec![bad]));
    assert!(invalid_value(&errs, "bad", "body_type"));
}

#[test]
fn test_multiple_object_errors_accumulate() {
    let raw = named("Multi Error", vec![circle(Some("a"), -1.0, 5.0, 5.0), circle(Some("b"), -2.0, 15.0, 15.0)]);
    let errs = errors(&raw);
    assert!(errs.iter().any(|e| matches!(e, ValidationError::InvalidValue { name, .. } if name == "a")), "expected error for object 'a'");
    assert!(errs.iter().any(|e| matches!(e, ValidationError::InvalidValue { name, .. } if name == "b")), "expected error for object 'b'");
}

#[test]
fn test_objects_collided_end_condition_valid() {
    let mut raw = named("Collided EC", vec![circle(Some("a"), 0.5, 5.0, 10.0), circle(Some("b"), 0.5, 15.0, 10.0)]);
    raw.end_condition = Some(RawEndCondition::ObjectsCollided { name_a: "a".to_string(), name_b: "b".to_string() });
    let scene = parse(&raw);
    assert!(matches!(
        scene.end_condition,
        Some(EndCondition::ObjectsCollided { name_a, name_b }) if name_a == "a" && name_b == "b"
    ));
}

#[test]
fn test_objects_collided_end_condition_unknown_name() {
    let mut raw = named("Collided EC Bad", vec![circle(Some("a"), 0.5, 5.0, 10.0)]);
    raw.end_condition = Some(RawEndCondition::ObjectsCollided { name_a: "a".to_string(), name_b: "ghost".to_string() });
    let errs = errors(&raw);
    assert!(errs.iter().any(|e| matches!(e, ValidationError::UnknownObjectReference { name } if name == "ghost")));
}

#[test]
fn test_wall_config_defaults() {
    let mut raw = named("Wall Defaults", vec![]);
    raw.environment.walls = RawWallConfig { visible: None, color: None, thickness: None };
    let scene = parse(&raw);
    assert!(scene.environment.walls.visible);
    assert_eq!(scene.environment.walls.color, Color::white());
    assert!((f(scene.environment.walls.thickness) - 0.3).abs() < 1e-6);
}

#[test]
fn test_object_audio_parsed_from_yaml() {
    let mut ball = circle(Some("ball"), 0.5, 10.0, 10.0);
    ball.audio = Some(RawObjectAudio {
        bounce: Some(RawAudioFile { path: "sounds/bounce.wav".to_string(), exists: false }),
        destroy: Some(RawAudioFile { path: "sounds/pop.wav".to_string(), exists: false }),
    });
    let scene = parse(&named("Object Audio", vec![ball]));
    let audio = &scene.objects[0].audio;
    assert!(audio.bounce.is_some());
    assert!(audio.destroy.is_some());
}

#[test]
fn test_time_limit_seconds_must_be_positive() {
    let mut raw = named("Bad Seconds", vec![]);
    raw.end_condition = Some(RawEndCondition::TimeLimit { seconds: reading(-10.0) });
    let errs = errors(&raw);
    assert!(errs.iter().any(|e| matches!(e, ValidationError::InvalidValue { message, .. } if message.contains("seconds"))));
}

#[test]
fn test_master_volume_out_of_range() {
    let mut raw = named("Bad Volume", vec![]);
    raw.audio = Some(RawSceneAudio { default_bounce: None, default_destroy: None, master_volume: Some(reading(2.5)) });
    let errs = errors(&raw);
    assert!(errs.iter().any(|e| matches!(e, ValidationError::InvalidValue { name, .. } if name == "audio.master_volume")));
}

#[test]
fn test_wall_thickness_must_be_positive() {
    let mut raw = named("Bad Wall", vec![]);
    raw.environment.walls.thickness = Some(reading(-0.5));
    let errs = errors(&raw);
    assert!(errs.iter().any(|e| matches!(e, ValidationError::InvalidValue { name, .. } if name == "environment.walls.thickness")));
}

fn race(finish_y: f32, tag: Option<&str>, hold: Option<f32>, checkpoints: Vec<(f32, Option<&str>)>) -> RawRaceConfig {
    RawRaceConfig {
        finish_y: reading(finish_y),
        racer_tag: tag.map(|t| t.to_string()),
        announcement_hold_secs: hold.map(reading),
        checkpoints: checkpoints
            .into_iter()
            .map(|(y, label)| RawCheckpoint { y: reading(y), label: label.map(|l| l.to_string()) })
            .collect(),
    }
}

#[test]
fn test_parse_race_config_full() {
    let mut raw = minimal();
    raw.race = Some(race(2.0, Some("racer"), Some(3.0), vec![(28.0, Some("Checkpoint 1")), (15.0, None)]));
    let scene = parse(&raw);
    let race = scene.race.as_ref().expect("race should be Some");
    assert!((f(race.finish_y) - 2.0).abs() < 1e-6);
    assert_eq!(race.racer_tag, "racer");
    assert!((f(race.announcement_hold_secs) - 3.0).abs() < 1e-6);
    assert_eq!(race.checkpoints.len(), 2);
    assert!((f(race.checkpoints[0].y) - 28.0).abs() < 1e-6);
    assert_eq!(race.checkpoints[0].label.as_deref(), Some("Checkpoint 1"));
    assert!((f(race.checkpoints[1].y) - 15.0).abs() < 1e-6);
    assert!(race.checkpoints[1].label.is_none());
}

#[test]
fn test_parse_race_config_defaults() {
    let mut raw = minimal();
    raw.race = Some(race(0.0, None, None, vec![]));
    let scene = parse(&raw);
    let race = scene.race.as_ref().expect("race should be Some");
    assert_eq!(race.racer_tag, "racer");
    assert!((f(race.announcement_hold_secs) - 2.0).abs() < 1e-6);
    assert!(race.checkpoints.is_empty());
}

#[test]
fn test_parse_race_config_absent_gives_none() {
    assert!(parse(&minimal()).race.is_none());
}

#[test]
fn test_race_finish_y_must_not_be_negative() {
    let mut raw = minimal();
    raw.race = Some(race(-1.0, None, None, vec![]));
    assert!(invalid_value(&errors(&raw), "race.finish_y", "finish_y"));
}

#[test]
fn test_race_announcement_hold_secs_must_be_positive() {
    let mut raw = minimal();
    raw.race = Some(race(2.0, None, Some(0.0), vec![]));
    let errs = errors(&raw);
    assert!(errs.iter().any(|e| matches!(e, ValidationError::InvalidValue { name, .. } if name == "race.announcement_hold_secs")));
}

#[test]
fn test_race_checkpoint_y_must_exceed_finish_y() {
    let mut raw = minimal();
    raw.race = Some(race(10.0, None, None, vec![(5.0, Some("Below finish line"))]));
    let errs = errors(&raw);
    assert!(errs.iter().any(|e| matches!(
        e,
        ValidationError::InvalidValue { name, message } if name.starts_with("race.checkpoints") && message.contains("finish_y")
    )));
}

#[test]
fn test_parse_end_condition_first_to_reach() {
    let mut raw = minimal();
    raw.end_condition = Some(RawEndCondition::FirstToReach { finish_y: reading(2.0), tag: Some("racer".to_string()) });
    let scene = parse(&raw);
    assert!(matches!(
        scene.end_condition,
        Some(EndCondition::FirstToReach { finish_y, ref tag }) if (f(finish_y) - 2.0).abs() < 1e-6 && tag == "racer"
    ));
}

#[test]
fn test_parse_first_to_reach_default_tag() {
    let mut raw = minimal();
    raw.end_condition = Some(RawEndCondition::FirstToReach { finish_y: reading(0.0), tag: None });
    let scene = parse(&raw);
    if let Some(EndCondition::FirstToReach { tag, .. }) = &scene.end_condition {
        assert_eq!(tag, "racer");
    } else {
        panic!("expected FirstToReach end condition");
    }
}

#[test]
fn test_first_to_reach_negative_finish_y_rejected() {
    let mut raw = minimal();
    raw.end_condition = Some(RawEndCondition::FirstToReach { finish_y: reading(-5.0), tag: None });
    assert!(invalid_value(&errors(&raw), "end_condition.first_to_reach", "finish_y"));
}

#[test]
fn test_first_to_reach_inside_or_composite() {
    let mut raw = minimal();
    raw.end_condition = Some(RawEndCondition::Or {
        conditions: vec![
            RawEndCondition::FirstToReach { finish_y: reading(2.0), tag: None },
            RawEndCondition::TimeLimit { seconds: reading(120.0) },
        ],
    });
    let scene = parse(&raw);
    if let Some(EndCondition::Or { conditions }) = &scene.end_condition {
        assert_eq!(conditions.len(), 2);
        assert!(matches!(
            conditions[0],
            EndCondition::FirstToReach { finish_y, ref tag } if (f(finish_y) - 2.0).abs() < 1e-6 && tag == "racer"
        ));
        assert!(matches!(conditions[1], EndCondition::TimeLimit { .. }));
    } else {
        panic!("expected Or end condition");
    }
}

#[test]
fn test_checkpoint_label_is_optional() {
    let mut raw = minimal();
    raw.race = Some(race(1.0, None, None, vec![(20.0, None), (10.0, Some("Halfway"))]));
    let scene = parse(&raw);
    let checkpoints = &scene.race.as_ref().unwrap().checkpoints;
    assert_eq!(checkpoints.len(), 2);
    assert!(checkpoints[0].label.is_none());
    assert_eq!(checkpoints[1].label.as_deref(), Some("Halfway"));
}

#[test]
fn test_race_config_finish_y_at_zero_is_valid() {
    let mut raw = minimal();
    raw.race = Some(race(0.0, None, None, vec![]));
    let scene = parse(&raw);
    assert!(f(scene.race.unwrap().finish_y).abs() < 1e-6);
}

#[test]
fn test_first_to_reach_finish_y_at_zero_is_valid() {
    let mut raw = minimal();
    raw.end_condition = Some(RawEndCondition::FirstToReach { finish_y: reading(0.0), tag: None });
    let scene = parse(&raw);
    assert!(matches!(scene.end_condition, Some(EndCondition::FirstToReach { finish_y, .. }) if f(finish_y).abs() < 1e-6));
}

#[test]
fn test_race_and_first_to_reach_together() {
    let mut raw = minimal();
    raw.race = Some(race(2.0, Some("racer"), None, vec![(28.0, Some("Checkpoint 1"))]));
    raw.end_condition = Some(RawEndCondition::FirstToReach { finish_y: reading(2.0), tag: Some("racer".to_string()) });
    let scene = parse(&raw);
    assert!(scene.race.is_some());
    assert!(matches!(scene.end_condition, Some(EndCondition::FirstToReach { .. })));
}

#[test]
fn test_destructible_min_impact_force_must_be_positive() {
    let mut bad = circle(Some("bad"), 1.0, 10.0, 10.0);
    bad.destructible = Some(RawDestructible { min_impact_force: reading(-5.0) });
    let errs = errors(&named("Bad Destructible", vec![bad]));
    assert!(invalid_value(&errs, "bad", "min_impact_force"));
}

#[test]
fn test_parse_full_bouncing_ball_example() {
    let mut ball = circle(Some("ball"), 0.8, 10.0, 25.0);
    ball.velocity = Some(v2(3.0, 0.0));
    ball.material =
        Some(RawMaterial { restitution: Some(reading(0.85)), friction: Some(reading(0.1)), density: Some(reading(1.0)) });
    ball.color = Some("#e94560".to_string());
    ball.tags = Some(vec!["ball".to_string()]);
    let mut raw = named("Bouncing Ball", vec![ball]);
    raw.meta.description = Some("A single ball bouncing in a box".to_string());
    raw.meta.author = Some("rphys".to_string());
    raw.environment.background_color = "#0d0d0d".to_string();
    raw.environment.walls.color = Some("#333333".to_string());
    raw.end_condition = Some(RawEndCondition::TimeLimit { seconds: reading(20.0) });
    raw.audio = Some(RawSceneAudio { default_bounce: None, default_destroy: None, master_volume: Some(reading(0.8)) });
    let scene = parse(&raw);
    assert_eq!(scene.meta.name, "Bouncing Ball");
    assert_eq!(scene.objects.len(), 1);
    assert_eq!(scene.objects[0].name.as_deref(), Some("ball"));
    assert!((f(scene.audio.master_volume) - 0.8).abs() < 1e-6);
}
