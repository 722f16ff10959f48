//! Export settings, the export error type, and the decisions an export
//! makes before it starts: how long to simulate and whether to mix audio.
use vstd::prelude::*;
use vstd::string::*;
use crate::audio::{audio_error_text, AudioError};
use crate::conditions::{extract_time_limit, time_limit_of};
use crate::overlay::{overlay_error_text, OverlayError};
use crate::physics::{physics_error_text, PhysicsError};
use crate::race::{race_error_text, RaceError};
use crate::scalar::Scalar;
use crate::scene::Scene;
use crate::text::{decimal, push_decimal};

verus! {

/// Named export preset controlling resolution and frame rate.
#[derive(Clone, Copy, Debug, PartialEq, Eq, Structural)]
pub enum Preset {
    /// 1080×1920 at 60 fps: vertical short-video platforms.
    TikTok,
    /// 1920×1080 at 60 fps: landscape video.
    YouTube,
    /// User-defined resolution and frame rate.
    Custom,
}

/// Options for one export run.
#[derive(Clone, Debug)]
pub struct ExportOptions {
    pub preset: Preset,
    pub width: u32,
    pub height: u32,
    pub fps: u32,
    /// Destination file.
    pub output_path: String,
    /// Longest simulation to export, in seconds.
    pub max_duration: Option<Scalar>,
    /// The `ffmpeg` program to run; `ffmpeg` from the search path when absent.
    pub ffmpeg_path: Option<String>,
}

/// Resolution and frame rate of a preset.
pub open spec fn preset_format(p: Preset) -> (u32, u32, u32) {
    match p {
        Preset::TikTok => (1080, 1920, 60),
        Preset::YouTube => (1920, 1080, 60),
        Preset::Custom => (1920, 1080, 60),
    }
}

impl ExportOptions {
    /// Options with the preset's resolution and frame rate, no duration cap
    /// and `ffmpeg` from the search path.
    pub fn from_preset(preset: Preset, output_path: String) -> (o: ExportOptions)
        ensures
            o.preset == preset,
            (o.width, o.height, o.fps) == preset_format(preset),
            o.output_path == output_path,
            o.max_duration is None,
            o.ffmpeg_path is None,
    {
        let (width, height, fps) = match preset {
            Preset::TikTok => (1080u32, 1920u32, 60u32),
            Preset::YouTube => (1920u32, 1080u32, 60u32),
            Preset::Custom => (1920u32, 1080u32, 60u32),
        };
        ExportOptions { preset, width, height, fps, output_path, max_duration: None, ffmpeg_path: None }
    }
}

/// Errors that can occur during export.
#[derive(Debug)]
pub enum ExportError {
    /// `ffmpeg` is not installed or not on the search path.
    FfmpegNotFound,
    /// `ffmpeg` exited with a non-zero status.
    FfmpegFailed { code: i32, stderr: String },
    /// Physics simulation error.
    Physics(PhysicsError),
    /// Rendering error.
    Render(String),
    /// Audio error.
    Audio(AudioError),
    /// I/O error; the operating system's message.
    Io(String),
    /// The scene has no end condition and no duration cap was given.
    NoDuration,
    /// Race tracking error.
    Race(RaceError),
    /// Overlay rendering error.
    Overlay(OverlayError),
}

/// Decimal notation of a signed integer.
pub open spec fn signed_decimal(n: int) -> Seq<char> {
    if n < 0 {
        "-"@ + decimal((-n) as nat)
    } else {
        decimal(n as nat)
    }
}

/// How an export error reads.
pub open spec fn export_error_text(e: ExportError) -> Seq<char> {
    match e {
        ExportError::FfmpegNotFound => "ffmpeg not found \u{2014} please install ffmpeg and ensure it is in PATH"@,
        ExportError::FfmpegFailed { code, stderr } => "ffmpeg process failed (exit "@ + signed_decimal(code as int)
            + "): "@ + stderr@,
        ExportError::Physics(p) => "Physics error: "@ + physics_error_text(p),
        ExportError::Render(m) => "Render error: "@ + m@,
        ExportError::Audio(a) => "Audio error: "@ + audio_error_text(a),
        ExportError::Io(m) => "IO error: "@ + m@,
        ExportError::NoDuration => "Scene has no end condition and no max_duration was specified"@,
        ExportError::Race(r) => "Race error: "@ + race_error_text(r),
        ExportError::Overlay(o) => "Overlay error: "@ + overlay_error_text(o),
    }
}

impl ExportError {
    /// The error's text, as it is shown to the user.
    pub fn message(&self) -> (m: String)
        ensures
            m@ == export_error_text(*self),
    {
        match self {
            ExportError::FfmpegNotFound => String::from_str(
                "ffmpeg not found \u{2014} please install ffmpeg and ensure it is in PATH",
            ),
            ExportError::FfmpegFailed { code, stderr } => {
                let mut m = String::from_str("ffmpeg process failed (exit ");
                if *code < 0 {
                    m.append("-");
                    let mag: u64 = (0i64 - *code as i64) as u64;
                    push_decimal(&mut m, mag);
                } else {
                    push_decimal(&mut m, *code as u64);
                }
                m.append("): ");
                m.append(stderr.as_str());
                m
            },
            ExportError::Physics(p) => {
                let mut m = String::from_str("Physics error: ");
                let inner = p.message();
                m.append(inner.as_str());
                m
            },
            ExportError::Render(s) => {
                let mut m = String::from_str("Render error: ");
                m.append(s.as_str());
                m
            },
            ExportError::Audio(a) => {
                let mut m = String::from_str("Audio error: ");
                let inner = a.message();
                m.append(inner.as_str());
                m
            },
            ExportError::Io(s) => {
                let mut m = String::from_str("IO error: ");
                m.append(s.as_str());
                m
            },
            ExportError::NoDuration => String::from_str("Scene has no end condition and no max_duration was specified"),
            ExportError::Race(r) => {
                let mut m = String::from_str("Race error: ");
                let inner = r.message();
                m.append(inner.as_str());
                m
            },
            ExportError::Overlay(o) => {
                let mut m = String::from_str("Overlay error: ");
                let inner = o.message();
                m.append(inner.as_str());
                m
            },
        }
    }
}

/// Bit pattern of the largest finite binary32 (`f32::MAX`): the duration an
/// export uses when the scene's end condition, not a length, ends it.
pub const UNBOUNDED_DURATION_BITS: u32 = 0x7f7f_ffff;

/// The simulation length an export uses: the cap from the options, else the
/// end condition's time limit, else the scene's duration hint, else, when
/// the scene has an end condition, no cap at all (the largest finite value,
/// so that the end condition decides).  Only a scene with neither an end
/// condition nor a hint, exported without a cap, has no duration.
pub open spec fn max_duration_of(scene: Scene, options: ExportOptions) -> Option<Scalar> {
    match options.max_duration {
        Some(d) => Some(d),
        None => match scene.end_condition {
            Some(c) if time_limit_of(c) is Some => time_limit_of(c),
            _ => match scene.meta.duration_hint {
                Some(h) => Some(h),
                None => if scene.end_condition is Some {
                    Some(Scalar { bits: UNBOUNDED_DURATION_BITS })
                } else {
                    None
                },
            },
        },
    }
}

/// Determine the maximum simulation duration, or fail with
/// [`ExportError::NoDuration`] when the scene has no end condition, no
/// duration hint, and the options set no cap.
pub fn resolve_max_duration(scene: &Scene, options: &ExportOptions) -> (r: Result<Scalar, ExportError>)
    ensures
        match max_duration_of(*scene, *options) {
            Some(d) => r matches Ok(v) && v == d,
            None => r matches Err(ExportError::NoDuration),
        },
        r matches Err(ExportError::NoDuration) <==> (options.max_duration is None && scene.end_condition is None
            && scene.meta.duration_hint is None),
{
    if let Some(duration) = options.max_duration {
        return Ok(duration);
    }
    if let Some(end) = &scene.end_condition {
        if let Some(secs) = extract_time_limit(end) {
            return Ok(secs);
        }
    }
    if let Some(hint) = scene.meta.duration_hint {
        return Ok(hint);
    }
    if scene.end_condition.is_some() {
        // The end condition, not a length, ends this export.
        return Ok(Scalar::from_bits(UNBOUNDED_DURATION_BITS));
    }
    Err(ExportError::NoDuration)
}

/// Whether the scene names any sound: a scene default or an object's own.
pub open spec fn scene_has_audio(scene: Scene) -> bool {
    scene.audio.default_bounce is Some || scene.audio.default_destroy is Some || scene.audio.default_bumper is Some
        || scene.audio.default_boost is Some || scene.audio.default_finish is Some || exists|i: int|
        0 <= i < scene.objects@.len() && ((#[trigger] scene.objects@[i]).audio.bounce is Some
            || scene.objects@[i].audio.destroy is Some)
}

/// Whether an export needs an audio track.
pub fn has_any_audio(scene: &Scene) -> (r: bool)
    ensures
        r == scene_has_audio(*scene),
{
    let a = &scene.audio;
    if a.default_bounce.is_some() || a.default_destroy.is_some() || a.default_bumper.is_some()
        || a.default_boost.is_some() || a.default_finish.is_some() {
        return true;
    }
    let mut i: usize = 0;
    while i < scene.objects.len()
        invariant
            0 <= i <= scene.objects@.len(),
            forall|j: int|
                0 <= j < i ==> !((#[trigger] scene.objects@[j]).audio.bounce is Some
                    || scene.objects@[j].audio.destroy is Some),
        decreases scene.objects.len() - i,
    {
        let o = &scene.objects[i];
        if o.audio.bounce.is_some() || o.audio.destroy.is_some() {
            assert(scene.objects@[i as int].audio.bounce is Some || scene.objects@[i as int].audio.destroy is Some);
            return true;
        }
        i = i + 1;
    }
    false
}

} // verus!
