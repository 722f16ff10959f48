use rphys::audio::{bounce_sound, destroy_sound, AudioError};
use rphys::color::Color;
use rphys::export::{has_any_audio, resolve_max_duration, ExportError, ExportOptions, Preset};
use rphys::overlay::OverlayError;
use rphys::physics::PhysicsError;
use rphys::race::RaceError;
use rphys::scalar::Scalar;
use rphys::scene::{
    BodyType, EndCondition, Environment, Material, ObjectAudio, Scene, SceneAudio, SceneMeta, SceneObject, ShapeKind,
    Vec2, WallConfig, WorldBounds,
};

fn s(v: f32) -> Scalar {
    Scalar { bits: v.to_bits() }
}

fn scene(end: Option<EndCondition>, hint: Option<f32>) -> Scene {
    Scene {
        version: "1".to_string(),
        meta: SceneMeta { name: "t".to_string(), description: None, author: None, duration_hint: hint.map(s) },
        environment: Environment {
            gravity: Vec2 { x: s(0.0), y: s(-9.81) },
            background_color: Color::black(),
            world_bounds: WorldBounds { width: s(10.0), height: s(10.0) },
            walls: WallConfig { visible: true, color: Color::white(), thickness: s(0.3) },
        },
        objects: vec![],
        end_condition: end,
        audio: SceneAudio::default(),
        race: None,
    }
}

fn object(audio: ObjectAudio) -> SceneObject {
    SceneObject {
        name: None,
        shape: ShapeKind::Circle { radius: s(1.0) },
        position: Vec2 { x: s(1.0), y: s(1.0) },
        velocity: Vec2 { x: s(0.0), y: s(0.0) },
        rotation: s(0.0),
        angular_velocity: s(0.0),
        body_type: BodyType::Dynamic,
        material: Material { restitution: s(0.5), friction: s(0.5), density: s(1.0) },
        color: Color::white(),
        tags: vec![],
        destructible: None,
        audio,
    }
}

/// One static circle, a one-second time limit, no sounds.
fn minimal_scene() -> Scene {
    let mut sc = scene(Some(EndCondition::TimeLimit { seconds: s(1.0) }), None);
    sc.environment.world_bounds = WorldBounds { width: s(20.0), height: s(20.0) };
    sc.environment.walls = WallConfig { visible: false, color: Color::white(), thickness: s(0.1) };
    let mut circle = object(ObjectAudio { bounce: None, destroy: None });
    circle.name = Some("circle".to_string());
    circle.position = Vec2 { x: s(10.0), y: s(10.0) };
    circle.body_type = BodyType::Static;
    circle.color = Color::rgba(255, 100, 50, 255);
    sc.objects.push(circle);
    sc
}

fn custom_options(max_duration: Option<f32>) -> ExportOptions {
    ExportOptions {
        preset: Preset::Custom,
        width: 1,
        height: 1,
        fps: 1,
        output_path: "x.mp4".to_string(),
        max_duration: max_duration.map(s),
        ffmpeg_path: None,
    }
}

#[test]
fn test_tiktok_preset_defaults() {
    let opts = ExportOptions::from_preset(Preset::TikTok, "out.mp4".to_string());
    assert_eq!(opts.width, 1080);
    assert_eq!(opts.height, 1920);
    assert_eq!(opts.fps, 60);
}

#[test]
fn test_youtube_preset_defaults() {
    let opts = ExportOptions::from_preset(Preset::YouTube, "out.mp4".to_string());
    assert_eq!(opts.width, 1920);
    assert_eq!(opts.height, 1080);
    assert_eq!(opts.fps, 60);
}

#[test]
fn test_resolve_duration_from_options() {
    let mut scene = minimal_scene();
    scene.end_condition = None;
    scene.meta.duration_hint = None;
    let d = resolve_max_duration(&scene, &custom_options(Some(42.0))).expect("should resolve");
    assert!((f32::from_bits(d.bits) - 42.0).abs() < 1e-5);
}

#[test]
fn test_resolve_duration_from_time_limit_condition() {
    let scene = minimal_scene();
    let d = resolve_max_duration(&scene, &custom_options(None)).expect("should resolve");
    assert!((f32::from_bits(d.bits) - 1.0).abs() < 1e-5);
}

#[test]
fn test_resolve_duration_from_hint() {
    let mut scene = minimal_scene();
    scene.end_condition = None;
    scene.meta.duration_hint = Some(s(5.0));
    let d = resolve_max_duration(&scene, &custom_options(None)).expect("should resolve");
    assert!((f32::from_bits(d.bits) - 5.0).abs() < 1e-5);
}

#[test]
fn test_has_any_audio_false_when_all_none() {
    let scene = minimal_scene();
    assert!(!has_any_audio(&scene), "expected false for all-None audio");
}

#[test]
fn test_has_any_audio_true_when_default_bumper_set() {
    let mut scene = minimal_scene();
    scene.audio.default_bumper = Some("bumper.wav".to_string());
    assert!(has_any_audio(&scene), "expected true when default_bumper is set");
}

#[test]
fn test_has_any_audio_true_when_default_boost_set() {
    let mut scene = minimal_scene();
    scene.audio.default_boost = Some("boost.wav".to_string());
    assert!(has_any_audio(&scene), "expected true when default_boost is set");
}

#[test]
fn test_has_any_audio_true_when_default_finish_set() {
    let mut scene = minimal_scene();
    scene.audio.default_finish = Some("finish.wav".to_string());
    assert!(has_any_audio(&scene), "expected true when default_finish is set");
}

#[test]
fn presets_fill_in_format() {
    let o = ExportOptions::from_preset(Preset::TikTok, "out.mp4".to_string());
    assert_eq!((o.width, o.height, o.fps), (1080, 1920, 60));
    assert!(o.max_duration.is_none() && o.ffmpeg_path.is_none());
    let y = ExportOptions::from_preset(Preset::YouTube, "o.mp4".to_string());
    assert_eq!((y.width, y.height, y.fps), (1920, 1080, 60));
    let c = ExportOptions::from_preset(Preset::Custom, "o.mp4".to_string());
    assert_eq!((c.width, c.height, c.fps), (1920, 1080, 60));
}

#[test]
fn duration_comes_from_options_then_time_limit_then_hint() {
    let mut o = ExportOptions::from_preset(Preset::TikTok, "o.mp4".to_string());
    let tl = Some(EndCondition::TimeLimit { seconds: s(12.0) });
    o.max_duration = Some(s(3.0));
    assert_eq!(resolve_max_duration(&scene(tl, Some(8.0)), &o).unwrap().bits, 3.0f32.to_bits());
    o.max_duration = None;
    let tl = Some(EndCondition::TimeLimit { seconds: s(12.0) });
    assert_eq!(resolve_max_duration(&scene(tl, Some(8.0)), &o).unwrap().bits, 12.0f32.to_bits());
    let other = Some(EndCondition::AllTaggedDestroyed { tag: "x".to_string() });
    assert_eq!(resolve_max_duration(&scene(other, Some(8.0)), &o).unwrap().bits, 8.0f32.to_bits());
    let escape = Some(EndCondition::ObjectEscaped { name: "b".to_string() });
    assert_eq!(resolve_max_duration(&scene(escape, None), &o).unwrap().bits, f32::MAX.to_bits());
    assert!(matches!(resolve_max_duration(&scene(None, None), &o), Err(ExportError::NoDuration)));
}

#[test]
fn audio_presence() {
    let mut sc = scene(None, None);
    assert!(!has_any_audio(&sc));
    sc.objects.push(object(ObjectAudio { bounce: None, destroy: Some("boom.wav".to_string()) }));
    assert!(has_any_audio(&sc));
    let mut d = scene(None, None);
    d.audio.default_bounce = Some("b.wav".to_string());
    assert!(has_any_audio(&d));
}

#[test]
fn sound_choice_prefers_the_object() {
    let mut audio = SceneAudio::default();
    audio.default_bounce = Some("db.wav".to_string());
    let own = ObjectAudio { bounce: Some("own.wav".to_string()), destroy: None };
    assert_eq!(bounce_sound(Some(&own), &audio).as_deref(), Some("own.wav"));
    assert_eq!(bounce_sound(None, &audio).as_deref(), Some("db.wav"));
    assert_eq!(destroy_sound(Some(&own), &audio), None);
    let boom = ObjectAudio { bounce: None, destroy: Some("boom.wav".to_string()) };
    assert_eq!(destroy_sound(Some(&boom), &audio).as_deref(), Some("boom.wav"));
}

#[test]
fn error_messages() {
    assert_eq!(
        ExportError::FfmpegNotFound.message(),
        "ffmpeg not found — please install ffmpeg and ensure it is in PATH"
    );
    assert_eq!(
        ExportError::FfmpegFailed { code: -1, stderr: "boom".to_string() }.message(),
        "ffmpeg process failed (exit -1): boom"
    );
    assert_eq!(
        ExportError::FfmpegFailed { code: 255, stderr: String::new() }.message(),
        "ffmpeg process failed (exit 255): "
    );
    assert_eq!(
        ExportError::Physics(PhysicsError::BuildFailed("x".to_string())).message(),
        "Physics error: Failed to build physics world: x"
    );
    assert_eq!(
        ExportError::Audio(AudioError::FileNotFound { path: "a.wav".to_string() }).message(),
        "Audio error: Sound file not found: 'a.wav'"
    );
    assert_eq!(
        AudioError::DecodeFailed { path: "a.wav".to_string(), reason: "bad".to_string() }.message(),
        "Failed to decode audio file 'a.wav': bad"
    );
    assert_eq!(AudioError::WavWriteFailed("disk".to_string()).message(), "Failed to write WAV: disk");
    assert_eq!(ExportError::Render("r".to_string()).message(), "Render error: r");
    assert_eq!(ExportError::Io("io".to_string()).message(), "IO error: io");
    assert_eq!(
        ExportError::NoDuration.message(),
        "Scene has no end condition and no max_duration was specified"
    );
    assert_eq!(
        ExportError::Race(RaceError::NoRaceConfig).message(),
        "Race error: Scene has no race configuration (missing 'race:' section)"
    );
    assert_eq!(
        ExportError::Overlay(OverlayError::FontInit("f".to_string())).message(),
        "Overlay error: Font initialization failed: f"
    );
    assert_eq!(OverlayError::Rasterize("g".to_string()).message(), "Text rasterization failed: g");
}
