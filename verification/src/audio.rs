//! Which sound a physics event plays, and audio errors.
use vstd::prelude::*;
use vstd::string::*;
use crate::scene::{ObjectAudio, SceneAudio};

verus! {

/// Errors of the offline audio mixer.
#[derive(Debug)]
pub enum AudioError {
    /// The requested audio file does not exist on disk.
    FileNotFound { path: String },
    /// The audio file exists but could not be decoded.
    DecodeFailed { path: String, reason: String },
    /// Writing the output WAV file failed.
    WavWriteFailed(String),
}

/// How an audio error reads.
pub open spec fn audio_error_text(e: AudioError) -> Seq<char> {
    match e {
        AudioError::FileNotFound { path } => "Sound file not found: '"@ + path@ + "'"@,
        AudioError::DecodeFailed { path, reason } => "Failed to decode audio file '"@ + path@ + "': "@ + reason@,
        AudioError::WavWriteFailed(m) => "Failed to write WAV: "@ + m@,
    }
}

impl AudioError {
    /// The error's text, as it is shown to the user.
    pub fn message(&self) -> (m: String)
        ensures
            m@ == audio_error_text(*self),
    {
        match self {
            AudioError::FileNotFound { path } => {
                let mut m = String::from_str("Sound file not found: '");
                m.append(path.as_str());
                m.append("'");
                m
            },
            AudioError::DecodeFailed { path, reason } => {
                let mut m = String::from_str("Failed to decode audio file '");
                m.append(path.as_str());
                m.append("': ");
                m.append(reason.as_str());
                m
            },
            AudioError::WavWriteFailed(s) => {
                let mut m = String::from_str("Failed to write WAV: ");
                m.append(s.as_str());
                m
            },
        }
    }
}

/// The sound a body's bounce (a collision or a wall hit) plays: the body's
/// own bounce sound, else the scene's default.
pub open spec fn bounce_sound_of(body: Option<ObjectAudio>, scene: SceneAudio) -> Option<String> {
    match body {
        Some(a) if a.bounce is Some => a.bounce,
        _ => scene.default_bounce,
    }
}

/// The sound a body's destruction plays: the body's own destroy sound,
/// else the scene's default.
pub open spec fn destroy_sound_of(body: Option<ObjectAudio>, scene: SceneAudio) -> Option<String> {
    match body {
        Some(a) if a.destroy is Some => a.destroy,
        _ => scene.default_destroy,
    }
}

/// The sound a bounce of a body with audio settings `body` plays.
pub fn bounce_sound(body: Option<&ObjectAudio>, scene: &SceneAudio) -> (r: Option<String>)
    ensures
        r == bounce_sound_of(
            match body {
                Some(a) => Some(*a),
                None => None,
            },
            *scene,
        ),
        (body is Some && body->0.bounce is Some) ==> r == body->0.bounce,
        (body is None || body->0.bounce is None) ==> r == scene.default_bounce,
{
    match body {
        Some(a) => match &a.bounce {
            Some(p) => Some(p.clone()),
            None => clone_path(&scene.default_bounce),
        },
        None => clone_path(&scene.default_bounce),
    }
}

/// The sound the destruction of a body with audio settings `body` plays.
pub fn destroy_sound(body: Option<&ObjectAudio>, scene: &SceneAudio) -> (r: Option<String>)
    ensures
        r == destroy_sound_of(
            match body {
                Some(a) => Some(*a),
                None => None,
            },
            *scene,
        ),
        (body is Some && body->0.destroy is Some) ==> r == body->0.destroy,
        (body is None || body->0.destroy is None) ==> r == scene.default_destroy,
{
    match body {
        Some(a) => match &a.destroy {
            Some(p) => Some(p.clone()),
            None => clone_path(&scene.default_destroy),
        },
        None => clone_path(&scene.default_destroy),
    }
}

fn clone_path(p: &Option<String>) -> (r: Option<String>)
    ensures
        r == *p,
{
    match p {
        Some(s) => Some(s.clone()),
        None => None,
    }
}


/// A body's own bounce or destroy sound is played when it has one; when it
/// has none — whether it has no audio settings at all or settings without
/// that sound — the scene's default is played.
pub proof fn law_sounds_fall_back_to_scene_defaults(body: Option<ObjectAudio>, scene: SceneAudio)
    ensures
        (body is Some && body->0.bounce is Some) ==> bounce_sound_of(body, scene) == body->0.bounce,
        (body is None || body->0.bounce is None) ==> bounce_sound_of(body, scene) == scene.default_bounce,
        (body is Some && body->0.destroy is Some) ==> destroy_sound_of(body, scene) == body->0.destroy,
        (body is None || body->0.destroy is None) ==> destroy_sound_of(body, scene) == scene.default_destroy,
{
}

} // verus!
