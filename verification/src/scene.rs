//! The validated scene model: objects, environment, end conditions, audio
//! and race configuration.
//!
//! Quantities are [`Scalar`]s (exact binary32 bit patterns); angles are in
//! radians.  Paths are kept as strings.
use vstd::prelude::*;
use crate::color::Color;
use crate::scalar::Scalar;

verus! {

/// A 2D vector (meters, Y-up) or point.
#[derive(Clone, Copy, Debug)]
pub struct Vec2 {
    pub x: Scalar,
    pub y: Scalar,
}

impl Vec2 {
    /// Build a vector from its coordinates.
    pub fn new(x: Scalar, y: Scalar) -> (r: Vec2)
        ensures
            r.x == x,
            r.y == y,
    {
        Vec2 { x, y }
    }

    /// The zero vector `(+0.0, +0.0)`.
    pub fn zero() -> (r: Vec2)
        ensures
            r.x.bits == 0,
            r.y.bits == 0,
    {
        Vec2 { x: Scalar::zero(), y: Scalar::zero() }
    }
}

/// Geometry of a scene object.
#[derive(Clone, Debug)]
pub enum ShapeKind {
    Circle { radius: Scalar },
    Rectangle { width: Scalar, height: Scalar },
    Polygon { vertices: Vec<Vec2> },
}

/// Surface and mass properties.
#[derive(Clone, Copy, Debug)]
pub struct Material {
    pub restitution: Scalar,
    pub friction: Scalar,
    pub density: Scalar,
}

/// Bit pattern of `0.5`.
pub const HALF_BITS: u32 = 0x3f00_0000;

/// Bit pattern of `1.0`.
pub const ONE_BITS: u32 = 0x3f80_0000;

impl Material {
    /// Restitution 0.5, friction 0.5, density 1.0.
    pub fn default_material() -> (m: Material)
        ensures
            m.restitution.bits == HALF_BITS,
            m.friction.bits == HALF_BITS,
            m.density.bits == ONE_BITS,
    {
        Material {
            restitution: Scalar::from_bits(HALF_BITS),
            friction: Scalar::from_bits(HALF_BITS),
            density: Scalar::from_bits(ONE_BITS),
        }
    }
}

/// Rigid body simulation mode.
#[derive(Clone, Copy, Debug, PartialEq, Eq, Structural)]
pub enum BodyType {
    Dynamic,
    Static,
    Kinematic,
}

/// Destruction threshold of a breakable object.
#[derive(Clone, Copy, Debug)]
pub struct Destructible {
    pub min_impact_force: Scalar,
}

/// Per-object sound files, resolved against the scene's directory.
#[derive(Clone, Debug)]
pub struct ObjectAudio {
    pub bounce: Option<String>,
    pub destroy: Option<String>,
}

/// A validated scene object.
#[derive(Clone, Debug)]
pub struct SceneObject {
    pub name: Option<String>,
    pub shape: ShapeKind,
    pub position: Vec2,
    pub velocity: Vec2,
    /// Rotation in radians.
    pub rotation: Scalar,
    /// Angular velocity in radians per second.
    pub angular_velocity: Scalar,
    pub body_type: BodyType,
    pub material: Material,
    pub color: Color,
    pub tags: Vec<String>,
    pub destructible: Option<Destructible>,
    pub audio: ObjectAudio,
}

/// Size of the simulated world (meters).
#[derive(Clone, Copy, Debug)]
pub struct WorldBounds {
    pub width: Scalar,
    pub height: Scalar,
}

/// How the world's boundary walls are drawn.
#[derive(Clone, Copy, Debug)]
pub struct WallConfig {
    pub visible: bool,
    pub color: Color,
    pub thickness: Scalar,
}

/// Gravity, background and boundaries.
#[derive(Clone, Copy, Debug)]
pub struct Environment {
    pub gravity: Vec2,
    pub background_color: Color,
    pub world_bounds: WorldBounds,
    pub walls: WallConfig,
}

/// A race checkpoint line.
#[derive(Clone, Debug)]
pub struct Checkpoint {
    pub y: Scalar,
    pub label: Option<String>,
}

/// Race mode configuration.
#[derive(Clone, Debug)]
pub struct RaceConfig {
    pub finish_y: Scalar,
    pub racer_tag: String,
    pub announcement_hold_secs: Scalar,
    pub checkpoints: Vec<Checkpoint>,
}

/// Bit pattern of `2.0`.
pub const TWO_BITS: u32 = 0x4000_0000;

impl Default for RaceConfig {
    /// Finish line at `y = 0`, racer tag `"racer"`, a two-second winner
    /// announcement and no checkpoints.
    fn default() -> (r: RaceConfig)
        ensures
            r.finish_y.bits == 0,
            r.racer_tag@ == "racer"@,
            r.announcement_hold_secs.bits == TWO_BITS,
            r.checkpoints@.len() == 0,
    {
        RaceConfig {
            finish_y: Scalar::zero(),
            racer_tag: String::from_str("racer"),
            announcement_hold_secs: Scalar::from_bits(TWO_BITS),
            checkpoints: Vec::new(),
        }
    }
}

/// When the simulation ends.
#[derive(Debug)]
pub enum EndCondition {
    TimeLimit { seconds: Scalar },
    AllTaggedDestroyed { tag: String },
    ObjectEscaped { name: String },
    ObjectsCollided { name_a: String, name_b: String },
    TagsCollided { tag_a: String, tag_b: String },
    And { conditions: Vec<EndCondition> },
    Or { conditions: Vec<EndCondition> },
    FirstToReach { finish_y: Scalar, tag: String },
}

/// Scene-wide sound settings.
#[derive(Clone, Debug)]
pub struct SceneAudio {
    pub default_bounce: Option<String>,
    pub default_destroy: Option<String>,
    /// Sound of a bumper hit.
    pub default_bumper: Option<String>,
    /// Sound of a boost pad.
    pub default_boost: Option<String>,
    /// Sound of a racer crossing the finish line.
    pub default_finish: Option<String>,
    pub master_volume: Scalar,
}

impl Default for SceneAudio {
    /// No scene-wide sounds, full master volume.
    fn default() -> (a: SceneAudio)
        ensures
            a.default_bounce is None,
            a.default_destroy is None,
            a.default_bumper is None,
            a.default_boost is None,
            a.default_finish is None,
            a.master_volume.bits == ONE_BITS,
    {
        SceneAudio {
            default_bounce: None,
            default_destroy: None,
            default_bumper: None,
            default_boost: None,
            default_finish: None,
            master_volume: Scalar::from_bits(ONE_BITS),
        }
    }
}

/// Descriptive metadata.
#[derive(Clone, Debug)]
pub struct SceneMeta {
    pub name: String,
    pub description: Option<String>,
    pub author: Option<String>,
    pub duration_hint: Option<Scalar>,
}

/// A validated scene.
#[derive(Debug)]
pub struct Scene {
    pub version: String,
    pub meta: SceneMeta,
    pub environment: Environment,
    pub objects: Vec<SceneObject>,
    pub end_condition: Option<EndCondition>,
    pub audio: SceneAudio,
    pub race: Option<RaceConfig>,
}

} // verus!
