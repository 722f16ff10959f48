use rphys::color::Color;
use rphys::scalar::Scalar;
use rphys::scene::{BodyType, EndCondition, RaceConfig, SceneAudio, ShapeKind, Vec2};
use rphys::scene_errors::{format_validation_errors, ParseError, ValidationError};
use rphys::scene_parse::{
    check_scene, is_blank, resolve_path, RawAudioFile, RawCheckpoint, RawDestructible, RawEndCondition,
    RawEnvironment, RawMaterial, RawMeta, RawObject, RawObjectAudio, RawRaceConfig, RawScene, RawSceneAudio,
    RawWallConfig, RawWorldBounds, Reading,
};

fn s(v: f32) -> Scalar {
    Scalar { bits: v.to_bits() }
}

fn reading(v: f32) -> Reading {
    Reading { value: s(v), shown: format!("{v}") }
}

fn v2(x: f32, y: f32) -> Vec2 {
    Vec2 { x: s(x), y: s(y) }
}

fn environment() -> RawEnvironment {
    RawEnvironment {
        gravity: v2(0.0, -9.81),
        background_color: "#1a1a2e".to_string(),
        world_bounds: RawWorldBounds { width: reading(20.0), height: reading(35.56) },
        walls: RawWallConfig { visible: Some(true), color: Some("#ffffff".to_string()), thickness: Some(reading(0.3)) },
    }
}

fn scene(objects: Vec<RawObject>) -> RawScene {
    RawScene {
        version: "1".to_string(),
        meta: RawMeta { name: "Test Scene".to_string(), description: None, author: None, duration_hint: None },
        environment: environment(),
        objects,
        end_condition: None,
        audio: None,
        race: None,
    }
}

fn object(name: Option<&str>) -> RawObject {
    RawObject {
        name: name.map(|n| n.to_string()),
        shape: Some("circle".to_string()),
        radius: Some(reading(0.5)),
        size: None,
        vertices: None,
        position: Some(v2(10.0, 10.0)),
        velocity: None,
        rotation: None,
        angular_velocity: None,
        body_type: None,
        material: None,
        color: None,
        tags: None,
        destructible: None,
        audio: None,
    }
}

fn errors_of(r: Result<rphys::scene::Scene, ParseError>) -> Vec<ValidationError> {
    match r {
        Err(ParseError::Validation(errs)) => errs,
        Err(other) => panic!("expected validation errors, got {other:?}"),
        Ok(_) => panic!("expected validation errors, got a scene"),
    }
}

fn messages(errs: &[ValidationError]) -> Vec<String> {
    errs.iter().map(|e| e.message()).collect()
}

#[test]
fn minimal_scene_converts_with_defaults() {
    let sc = check_scene(&scene(vec![]), None).expect("valid");
    assert_eq!(sc.version, "1");
    assert_eq!(sc.meta.name, "Test Scene");
    assert!(sc.objects.is_empty());
    assert_eq!(sc.environment.gravity.y.bits, (-9.81f32).to_bits());
    assert_eq!(sc.environment.background_color, Color::rgb(0x1a, 0x1a, 0x2e));
    assert!(sc.environment.walls.visible);
    assert_eq!(sc.audio.master_volume.bits, 1.0f32.to_bits());
    assert!(sc.end_condition.is_none());
    assert!(sc.race.is_none());
}

#[test]
fn object_defaults_are_filled_in() {
    let sc = check_scene(&scene(vec![object(Some("ball"))]), None).expect("valid");
    let o = &sc.objects[0];
    assert_eq!(o.name.as_deref(), Some("ball"));
    assert!(matches!(o.shape, ShapeKind::Circle { radius } if radius.bits == 0.5f32.to_bits()));
    assert_eq!(o.body_type, BodyType::Dynamic);
    assert_eq!(o.material.restitution.bits, 0.5f32.to_bits());
    assert_eq!(o.material.friction.bits, 0.5f32.to_bits());
    assert_eq!(o.material.density.bits, 1.0f32.to_bits());
    assert_eq!(o.color, Color::white());
    assert_eq!(o.velocity.x.bits, 0);
    assert_eq!(o.rotation.bits, 0);
    assert!(o.tags.is_empty());
    assert!(o.destructible.is_none());
    assert!(o.audio.bounce.is_none());
}

#[test]
fn unsupported_version_is_refused_first() {
    let mut raw = scene(vec![]);
    raw.version = "2".to_string();
    raw.environment.background_color = "bad".to_string();
    match check_scene(&raw, None) {
        Err(ParseError::UnsupportedVersion { version }) => assert_eq!(version, "2"),
        other => panic!("unexpected {other:?}"),
    }
}

#[test]
fn circle_missing_radius() {
    let mut o = object(Some("ball"));
    o.radius = None;
    let errs = errors_of(check_scene(&scene(vec![o]), None));
    assert!(matches!(&errs[0], ValidationError::MissingField { name, field } if name == "ball" && *field == "radius"));
    assert_eq!(errs.len(), 1);
}

#[test]
fn circle_negative_radius_message() {
    let mut o = object(Some("ball"));
    o.radius = Some(reading(-1.0));
    let errs = errors_of(check_scene(&scene(vec![o]), None));
    assert_eq!(messages(&errs), vec!["Object 'ball': radius must be > 0, got -1".to_string()]);
}

#[test]
fn unknown_shape_and_missing_position() {
    let mut a = object(None);
    a.shape = Some("hexagon".to_string());
    let mut b = object(Some("b"));
    b.position = None;
    let errs = errors_of(check_scene(&scene(vec![a, b]), None));
    assert_eq!(
        messages(&errs),
        vec![
            "Object '<unnamed>': unknown shape type 'hexagon'".to_string(),
            "Object 'b': missing required field 'position'".to_string(),
        ]
    );
}

#[test]
fn rectangle_and_polygon_rules() {
    let mut r = object(Some("r"));
    r.shape = Some("rectangle".to_string());
    r.size = Some((reading(2.0), reading(0.0)));
    let mut p = object(Some("p"));
    p.shape = Some("polygon".to_string());
    p.vertices = Some(vec![v2(0.0, 0.0), v2(1.0, 0.0)]);
    let errs = errors_of(check_scene(&scene(vec![r, p]), None));
    assert_eq!(
        messages(&errs),
        vec![
            "Object 'r': rectangle size must be positive [w, h], got [2, 0]".to_string(),
            "Object 'p': polygon must have at least 3 vertices, got 2".to_string(),
        ]
    );
    let mut tri = object(Some("tri"));
    tri.shape = Some("polygon".to_string());
    tri.vertices = Some(vec![v2(0.0, 0.0), v2(1.0, 0.0), v2(0.0, 1.0)]);
    let sc = check_scene(&scene(vec![tri]), None).expect("valid");
    assert!(matches!(&sc.objects[0].shape, ShapeKind::Polygon { vertices } if vertices.len() == 3));
}

#[test]
fn duplicate_names_are_reported_and_still_converted() {
    let errs = errors_of(check_scene(&scene(vec![object(Some("x")), object(Some("x"))]), None));
    assert_eq!(messages(&errs), vec!["Duplicate object name 'x'".to_string()]);
}

#[test]
fn material_errors_are_reported_together() {
    let mut o = object(Some("m"));
    o.material = Some(RawMaterial {
        restitution: Some(reading(1.5)),
        friction: Some(reading(-0.1)),
        density: Some(reading(0.0)),
    });
    let errs = errors_of(check_scene(&scene(vec![o]), None));
    assert_eq!(
        messages(&errs),
        vec![
            "Object 'm': restitution must be between 0.0 and 1.0, got 1.5".to_string(),
            "Object 'm': friction must be >= 0.0, got -0.1".to_string(),
            "Object 'm': density must be > 0.0, got 0".to_string(),
        ]
    );
}

#[test]
fn nan_restitution_is_refused_but_nan_friction_is_not() {
    let mut o = object(Some("n"));
    o.material = Some(RawMaterial { restitution: Some(reading(f32::NAN)), friction: None, density: None });
    let errs = errors_of(check_scene(&scene(vec![o]), None));
    assert_eq!(errs.len(), 1);
    let mut p = object(Some("p"));
    p.material = Some(RawMaterial { restitution: None, friction: Some(reading(f32::NAN)), density: None });
    assert!(check_scene(&scene(vec![p]), None).is_ok());
}

#[test]
fn body_type_color_and_destructible_rules() {
    let mut a = object(Some("a"));
    a.body_type = Some("floating".to_string());
    let mut b = object(Some("b"));
    b.color = Some("#12".to_string());
    let mut c = object(Some("c"));
    c.destructible = Some(RawDestructible { min_impact_force: reading(0.0) });
    let errs = errors_of(check_scene(&scene(vec![a, b, c]), None));
    assert_eq!(
        messages(&errs),
        vec![
            "Object 'a': unknown body_type 'floating' (expected 'dynamic', 'static', or 'kinematic')".to_string(),
            "Object 'b': color must be '#RRGGBB' or '#RRGGBBAA' hex, got '#12'".to_string(),
            "Object 'c': destructible.min_impact_force must be > 0, got 0".to_string(),
        ]
    );
    let mut k = object(Some("k"));
    k.body_type = Some("kinematic".to_string());
    k.color = Some("#ff000080".to_string());
    k.tags = Some(vec!["racer".to_string()]);
    let sc = check_scene(&scene(vec![k]), None).expect("valid");
    assert_eq!(sc.objects[0].body_type, BodyType::Kinematic);
    assert_eq!(sc.objects[0].color, Color::rgba(255, 0, 0, 0x80));
    assert_eq!(sc.objects[0].tags, vec!["racer".to_string()]);
}

#[test]
fn environment_rules_stop_at_the_first_failure() {
    let mut raw = scene(vec![]);
    raw.environment.world_bounds.width = reading(0.0);
    raw.environment.world_bounds.height = reading(-1.0);
    let errs = errors_of(check_scene(&raw, None));
    assert_eq!(messages(&errs), vec!["Object 'environment.world_bounds.width': world_bounds.width must be > 0, got 0".to_string()]);
    let mut walls = scene(vec![]);
    walls.environment.walls.thickness = Some(reading(-0.3));
    let errs = errors_of(check_scene(&walls, None));
    assert_eq!(messages(&errs), vec!["Object 'environment.walls.thickness': walls.thickness must be > 0, got -0.3".to_string()]);
}

#[test]
fn end_condition_references_need_a_unique_object() {
    let mut raw = scene(vec![object(Some("a")), object(Some("b")), object(Some("b"))]);
    raw.end_condition = Some(RawEndCondition::Or {
        conditions: vec![
            RawEndCondition::ObjectsCollided { name_a: "a".to_string(), name_b: "b".to_string() },
            RawEndCondition::ObjectEscaped { name: "ghost".to_string() },
            RawEndCondition::TimeLimit { seconds: reading(0.0) },
        ],
    });
    let errs = errors_of(check_scene(&raw, None));
    assert_eq!(
        messages(&errs),
        vec![
            "Duplicate object name 'b'".to_string(),
            "End condition references unknown object 'b'".to_string(),
            "End condition references unknown object 'ghost'".to_string(),
            "Object 'end_condition.time_limit': time_limit.seconds must be > 0, got 0".to_string(),
        ]
    );
}

#[test]
fn nested_end_conditions_convert() {
    let mut raw = scene(vec![object(Some("a")), object(Some("b"))]);
    raw.end_condition = Some(RawEndCondition::And {
        conditions: vec![
            RawEndCondition::TimeLimit { seconds: reading(5.0) },
            RawEndCondition::Or {
                conditions: vec![
                    RawEndCondition::ObjectsCollided { name_a: "a".to_string(), name_b: "b".to_string() },
                    RawEndCondition::FirstToReach { finish_y: reading(0.0), tag: None },
                ],
            },
        ],
    });
    let sc = check_scene(&raw, None).expect("valid");
    match sc.end_condition {
        Some(EndCondition::And { conditions }) => {
            assert_eq!(conditions.len(), 2);
            assert!(matches!(conditions[0], EndCondition::TimeLimit { seconds } if seconds.bits == 5.0f32.to_bits()));
            match &conditions[1] {
                EndCondition::Or { conditions } => {
                    assert!(matches!(&conditions[1], EndCondition::FirstToReach { tag, .. } if tag == "racer"));
                }
                other => panic!("unexpected {other:?}"),
            }
        }
        other => panic!("unexpected {other:?}"),
    }
}

#[test]
fn first_to_reach_negative_finish_is_refused() {
    let mut raw = scene(vec![]);
    raw.end_condition = Some(RawEndCondition::FirstToReach { finish_y: reading(-1.0), tag: Some("r".to_string()) });
    let errs = errors_of(check_scene(&raw, None));
    assert_eq!(
        messages(&errs),
        vec!["Object 'end_condition.first_to_reach': first_to_reach.finish_y must be >= 0, got -1".to_string()]
    );
}

#[test]
fn race_config_defaults_and_rules() {
    let mut raw = scene(vec![]);
    raw.race = Some(RawRaceConfig {
        finish_y: reading(2.0),
        racer_tag: None,
        announcement_hold_secs: None,
        checkpoints: vec![RawCheckpoint { y: reading(10.0), label: Some("half".to_string()) }],
    });
    let sc = check_scene(&raw, None).expect("valid");
    let race = sc.race.expect("race");
    assert_eq!(race.racer_tag, "racer");
    assert_eq!(race.announcement_hold_secs.bits, 2.0f32.to_bits());
    assert_eq!(race.checkpoints.len(), 1);
    assert_eq!(race.checkpoints[0].label.as_deref(), Some("half"));

    let mut bad = scene(vec![]);
    bad.race = Some(RawRaceConfig {
        finish_y: reading(-1.0),
        racer_tag: Some("r".to_string()),
        announcement_hold_secs: Some(reading(0.0)),
        checkpoints: vec![
            RawCheckpoint { y: reading(5.0), label: None },
            RawCheckpoint { y: reading(-2.0), label: None },
        ],
    });
    let errs = errors_of(check_scene(&bad, None));
    assert_eq!(
        messages(&errs),
        vec![
            "Object 'race.finish_y': race.finish_y must be >= 0, got -1".to_string(),
            "Object 'race.announcement_hold_secs': race.announcement_hold_secs must be > 0, got 0".to_string(),
            "Object 'race.checkpoints[1]': checkpoint y (-2) must be > finish_y (-1)".to_string(),
        ]
    );
}

#[test]
fn audio_paths_resolve_and_missing_files_are_reported() {
    let mut o = object(Some("ball"));
    o.audio = Some(RawObjectAudio {
        bounce: Some(RawAudioFile { path: "sfx/bounce.wav".to_string(), exists: false }),
        destroy: Some(RawAudioFile { path: "/abs/boom.wav".to_string(), exists: true }),
    });
    let mut raw = scene(vec![o]);
    raw.audio = Some(RawSceneAudio {
        default_bounce: None,
        default_destroy: Some(RawAudioFile { path: "d.wav".to_string(), exists: true }),
        master_volume: Some(reading(1.5)),
    });
    let errs = errors_of(check_scene(&raw, Some("/scenes")));
    assert_eq!(
        messages(&errs),
        vec![
            "Audio file not found: '/scenes/sfx/bounce.wav'".to_string(),
            "Object 'audio.master_volume': master_volume must be between 0.0 and 1.0, got 1.5".to_string(),
        ]
    );
    // Without a base directory nothing is checked and paths stay as written.
    let mut ok = scene(vec![]);
    ok.audio = Some(RawSceneAudio {
        default_bounce: Some(RawAudioFile { path: "b.wav".to_string(), exists: false }),
        default_destroy: None,
        master_volume: None,
    });
    let sc = check_scene(&ok, None).expect("valid");
    assert_eq!(sc.audio.default_bounce.as_deref(), Some("b.wav"));
}

#[test]
fn negative_duration_hint_is_refused() {
    let mut raw = scene(vec![]);
    raw.meta.duration_hint = Some(reading(-3.5));
    let errs = errors_of(check_scene(&raw, None));
    assert_eq!(messages(&errs), vec!["Object 'meta.duration_hint': duration_hint must be >= 0, got -3.5".to_string()]);
}

#[test]
fn path_joining() {
    assert_eq!(resolve_path("a.wav", None), "a.wav");
    assert_eq!(resolve_path("a.wav", Some("dir")), "dir/a.wav");
    assert_eq!(resolve_path("a.wav", Some("dir/")), "dir/a.wav");
    assert_eq!(resolve_path("a.wav", Some("")), "a.wav");
    assert_eq!(resolve_path("/x/a.wav", Some("dir")), "/x/a.wav");
    let p = std::path::Path::new("dir").join("a.wav");
    assert_eq!(p.to_str().unwrap(), resolve_path("a.wav", Some("dir")));
}

#[test]
fn blank_text_matches_trim() {
    for t in ["", "   ", "\n\t  \r\n", "\u{a0}\u{3000}", " x ", "version: \"1\""] {
        assert_eq!(is_blank(t), t.trim().is_empty(), "{t:?}");
    }
}

#[test]
fn error_list_and_parse_error_messages() {
    let errs = vec![
        ValidationError::DuplicateName { name: "a".to_string() },
        ValidationError::UnknownObjectReference { name: "z".to_string() },
    ];
    assert_eq!(
        format_validation_errors(&errs),
        "  - Duplicate object name 'a'\n  - End condition references unknown object 'z'"
    );
    assert_eq!(
        ParseError::Validation(errs).message(),
        "Validation failed:\n  - Duplicate object name 'a'\n  - End condition references unknown object 'z'"
    );
    assert_eq!(ParseError::EmptyScene.message(), "Empty scene file — nothing to simulate");
    assert_eq!(
        ParseError::Syntax { line: 12, message: "bad".to_string() }.message(),
        "YAML syntax error at line 12: bad"
    );
    assert_eq!(
        ParseError::UnsupportedVersion { version: "9".to_string() }.message(),
        "Unsupported schema version '9' (expected '1')"
    );
    assert_eq!(ParseError::Io("gone".to_string()).message(), "IO error reading scene file: gone");
}

#[test]
fn race_config_and_scene_audio_defaults() {
    let rc = RaceConfig::default();
    assert_eq!(rc.finish_y.bits, 0.0f32.to_bits());
    assert_eq!(rc.racer_tag, "racer");
    assert_eq!(f32::from_bits(rc.announcement_hold_secs.bits), 2.0);
    assert!(rc.checkpoints.is_empty());

    let a = SceneAudio::default();
    assert!(a.default_bounce.is_none());
    assert!(a.default_destroy.is_none());
    assert_eq!(f32::from_bits(a.master_volume.bits), 1.0);
}
