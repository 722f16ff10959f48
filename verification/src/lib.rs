//! Verified core of a 2D physics-race video renderer: scene colors,
//! deterministic random numbers, pixel frames, race standings and
//! simulation end conditions.
pub mod color;
pub mod scalar;
pub mod frame;
pub mod rng;
pub mod order;
pub mod physics;
pub mod text;
pub mod race;
pub mod race_laws;
pub mod crossing_laws;
pub mod scene;
pub mod conditions;
pub mod scene_errors;
pub mod scene_parse;
pub mod countdown;
pub mod effects;
pub mod audio;
pub mod overlay;
pub mod export;
pub mod schema;
pub mod trail;
