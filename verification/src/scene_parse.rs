//! Validation and conversion of a scene as read from its YAML file.
//!
//! The YAML text is deserialized elsewhere into the `Raw*` types below, which
//! hold every field as the file gave it.  [`check_scene`] applies the scene
//! rules: it collects every validation error (rather than stopping at the
//! first), and builds the validated [`Scene`] when there is none.
use vstd::prelude::*;
use vstd::string::*;
use vstd::utf8::encode_utf8;
use crate::color::{
    digits_message, hex_color_outcome, parse_hex_color, shape_message, Color, HexColorFault,
};
use crate::scalar::{spec_le, spec_lt, Scalar};
use crate::scene::{
    BodyType, Checkpoint, Destructible, EndCondition, Environment, Material, ObjectAudio, RaceConfig, Scene,
    SceneAudio, SceneMeta, SceneObject, ShapeKind, Vec2, WallConfig, WorldBounds, HALF_BITS, ONE_BITS, TWO_BITS,
};
use crate::scene_errors::{issues, Issue, ParseError, ValidationError};
use crate::text::{decimal, push_decimal};

verus! {

// ── Raw input ────────────────────────────────────────────────────────────────

/// A number as the scene file gave it: its value, and its decimal text as
/// messages quote it.
#[derive(Clone, Debug)]
pub struct Reading {
    pub value: Scalar,
    pub shown: String,
}

/// An audio file named by the scene.
#[derive(Clone, Debug)]
pub struct RawAudioFile {
    /// The path as written.
    pub path: String,
    /// Whether the file exists relative to the scene file's directory
    /// (consulted only when the scene was read from a file).
    pub exists: bool,
}

#[derive(Clone, Debug)]
pub struct RawObjectAudio {
    pub bounce: Option<RawAudioFile>,
    pub destroy: Option<RawAudioFile>,
}

#[derive(Clone, Debug)]
pub struct RawMaterial {
    pub restitution: Option<Reading>,
    pub friction: Option<Reading>,
    pub density: Option<Reading>,
}

#[derive(Clone, Debug)]
pub struct RawDestructible {
    pub min_impact_force: Reading,
}

/// A scene object as written.  Angles are already in radians.
#[derive(Clone, Debug)]
pub struct RawObject {
    pub name: Option<String>,
    pub shape: Option<String>,
    pub radius: Option<Reading>,
    pub size: Option<(Reading, Reading)>,
    pub vertices: Option<Vec<Vec2>>,
    pub position: Option<Vec2>,
    pub velocity: Option<Vec2>,
    pub rotation: Option<Scalar>,
    pub angular_velocity: Option<Scalar>,
    pub body_type: Option<String>,
    pub material: Option<RawMaterial>,
    pub color: Option<String>,
    pub tags: Option<Vec<String>>,
    pub destructible: Option<RawDestructible>,
    pub audio: Option<RawObjectAudio>,
}

#[derive(Clone, Debug)]
pub struct RawWorldBounds {
    pub width: Reading,
    pub height: Reading,
}

#[derive(Clone, Debug)]
pub struct RawWallConfig {
    pub visible: Option<bool>,
    pub color: Option<String>,
    pub thickness: Option<Reading>,
}

#[derive(Clone, Debug)]
pub struct RawEnvironment {
    pub gravity: Vec2,
    pub background_color: String,
    pub world_bounds: RawWorldBounds,
    pub walls: RawWallConfig,
}

#[derive(Debug)]
pub enum RawEndCondition {
    TimeLimit { seconds: Reading },
    AllTaggedDestroyed { tag: String },
    ObjectEscaped { name: String },
    ObjectsCollided { name_a: String, name_b: String },
    TagsCollided { tag_a: String, tag_b: String },
    And { conditions: Vec<RawEndCondition> },
    Or { conditions: Vec<RawEndCondition> },
    FirstToReach { finish_y: Reading, tag: Option<String> },
}

#[derive(Clone, Debug)]
pub struct RawSceneAudio {
    pub default_bounce: Option<RawAudioFile>,
    pub default_destroy: Option<RawAudioFile>,
    pub master_volume: Option<Reading>,
}

#[derive(Clone, Debug)]
pub struct RawCheckpoint {
    pub y: Reading,
    pub label: Option<String>,
}

#[derive(Clone, Debug)]
pub struct RawRaceConfig {
    pub finish_y: Reading,
    pub racer_tag: Option<String>,
    pub announcement_hold_secs: Option<Reading>,
    pub checkpoints: Vec<RawCheckpoint>,
}

#[derive(Clone, Debug)]
pub struct RawMeta {
    pub name: String,
    pub description: Option<String>,
    pub author: Option<String>,
    pub duration_hint: Option<Reading>,
}

#[derive(Debug)]
pub struct RawScene {
    pub version: String,
    pub meta: RawMeta,
    pub environment: RawEnvironment,
    pub objects: Vec<RawObject>,
    pub end_condition: Option<RawEndCondition>,
    pub audio: Option<RawSceneAudio>,
    pub race: Option<RawRaceConfig>,
}

// ── Small shared pieces ──────────────────────────────────────────────────────

/// `+0.0`.
pub open spec fn zero() -> Scalar {
    Scalar { bits: 0 }
}

/// An issue that names a field and says what is wrong with it.
pub open spec fn invalid(name: Seq<char>, message: Seq<char>) -> Issue {
    Issue::InvalidValue { name, message }
}

fn push_error(errors: &mut Vec<ValidationError>, e: ValidationError)
    ensures
        issues(final(errors)@) == issues(old(errors)@).push(e@),
{
    errors.push(e);
    assert(issues(errors@) =~= issues(old(errors)@).push(e@));
}

fn cat(a: &str, b: &str) -> (r: String)
    ensures
        r@ == a@ + b@,
{
    let mut r = String::from_str(a);
    r.append(b);
    r
}

fn invalid_value(name: &str, message: String) -> (e: ValidationError)
    ensures
        e@ == invalid(name@, message@),
{
    ValidationError::InvalidValue { name: String::from_str(name), message }
}

/// Copy a list of strings.
fn copy_strings(v: &Vec<String>) -> (r: Vec<String>)
    ensures
        r@ == v@,
{
    let mut r: Vec<String> = Vec::new();
    let mut i: usize = 0;
    while i < v.len()
        invariant
            0 <= i <= v@.len(),
            r@ == v@.take(i as int),
        decreases v.len() - i,
    {
        r.push(v[i].clone());
        assert(r@ =~= v@.take(i + 1));
        i = i + 1;
    }
    assert(v@.take(v@.len() as int) =~= v@);
    r
}

/// Copy a list of points.
fn copy_points(v: &Vec<Vec2>) -> (r: Vec<Vec2>)
    ensures
        r@ == v@,
{
    let mut r: Vec<Vec2> = Vec::new();
    let mut i: usize = 0;
    while i < v.len()
        invariant
            0 <= i <= v@.len(),
            r@ == v@.take(i as int),
        decreases v.len() - i,
    {
        r.push(v[i]);
        assert(r@ =~= v@.take(i + 1));
        i = i + 1;
    }
    assert(v@.take(v@.len() as int) =~= v@);
    r
}

/// Whether `s` reads exactly `w`.
fn is_word(s: &String, w: &str) -> (r: bool)
    ensures
        r == (s@ == w@),
{
    *s == String::from_str(w)
}

fn copy_option_string(s: &Option<String>) -> (r: Option<String>)
    ensures
        r == *s,
{
    match s {
        Some(x) => Some(x.clone()),
        None => None,
    }
}

// ── Paths ────────────────────────────────────────────────────────────────────

/// `p` joined onto directory `dir`: an absolute `p` (one that starts with
/// `/`) stands alone; otherwise a separator is put between them unless `dir`
/// is empty or already ends with one.
pub open spec fn join_path(dir: Seq<char>, p: Seq<char>) -> Seq<char> {
    if p.len() > 0 && p[0] == '/' {
        p
    } else if dir.len() == 0 || dir.last() == '/' {
        dir + p
    } else {
        dir + "/"@ + p
    }
}

/// `p` resolved against an optional base directory.
pub open spec fn resolved_path(p: Seq<char>, base_dir: Option<Seq<char>>) -> Seq<char> {
    match base_dir {
        Some(d) => join_path(d, p),
        None => p,
    }
}

/// View of an optional path argument.
pub open spec fn dir_view(base_dir: Option<&str>) -> Option<Seq<char>> {
    match base_dir {
        Some(d) => Some(d@),
        None => None,
    }
}

fn join_path_exec(dir: &str, p: &str) -> (r: String)
    ensures
        r@ == join_path(dir@, p@),
{
    let np = p.unicode_len();
    if np > 0 && p.get_char(0) == '/' {
        return String::from_str(p);
    }
    let nd = dir.unicode_len();
    if nd == 0 || dir.get_char(nd - 1) == '/' {
        cat(dir, p)
    } else {
        let mut r = String::from_str(dir);
        r.append("/");
        r.append(p);
        r
    }
}

/// Resolve a path string against an optional base directory; absolute paths
/// are returned unchanged.
pub fn resolve_path(p: &str, base_dir: Option<&str>) -> (r: String)
    ensures
        r@ == resolved_path(p@, dir_view(base_dir)),
{
    match base_dir {
        Some(d) => join_path_exec(d, p),
        None => String::from_str(p),
    }
}

/// The error for an audio file that was checked and is missing.
pub open spec fn audio_file_issues(f: RawAudioFile, base_dir: Option<Seq<char>>) -> Seq<Issue> {
    match base_dir {
        Some(d) => if !f.exists {
            seq![Issue::AudioFileNotFound { path: join_path(d, f.path@) }]
        } else {
            Seq::empty()
        },
        None => Seq::empty(),
    }
}

/// Issues of an optional audio file.
pub open spec fn maybe_audio_issues(f: Option<RawAudioFile>, base_dir: Option<Seq<char>>) -> Seq<Issue> {
    match f {
        Some(f) => audio_file_issues(f, base_dir),
        None => Seq::empty(),
    }
}

/// The resolved path of an optional audio file.
pub open spec fn maybe_resolved(f: Option<RawAudioFile>, base_dir: Option<Seq<char>>) -> Option<Seq<char>> {
    match f {
        Some(f) => Some(resolved_path(f.path@, base_dir)),
        None => None,
    }
}

/// View of an optional string.
pub open spec fn opt_view(s: Option<String>) -> Option<Seq<char>> {
    match s {
        Some(s) => Some(s@),
        None => None,
    }
}

fn convert_audio_file(f: &Option<RawAudioFile>, base_dir: Option<&str>, errors: &mut Vec<ValidationError>) -> (r:
    Option<String>)
    ensures
        issues(final(errors)@) == issues(old(errors)@) + maybe_audio_issues(*f, dir_view(base_dir)),
        opt_view(r) == maybe_resolved(*f, dir_view(base_dir)),
{
    match f {
        None => {
            assert(issues(errors@) =~= issues(errors@) + Seq::<Issue>::empty());
            None
        },
        Some(f) => {
            let path = resolve_path(f.path.as_str(), base_dir);
            match base_dir {
                Some(d) => {
                    if !f.exists {
                        let full = join_path_exec(d, f.path.as_str());
                        push_error(errors, ValidationError::AudioFileNotFound { path: full });
                        assert(issues(errors@) =~= issues(old(errors)@) + maybe_audio_issues(
                            Some(*f),
                            dir_view(base_dir),
                        ));
                    } else {
                        assert(issues(errors@) =~= issues(errors@) + Seq::<Issue>::empty());
                    }
                },
                None => {
                    assert(issues(errors@) =~= issues(errors@) + Seq::<Issue>::empty());
                },
            }
            Some(path)
        },
    }
}

/// Issues of per-object audio: the bounce file, then the destroy file.
pub open spec fn object_audio_issues(a: Option<RawObjectAudio>, base_dir: Option<Seq<char>>) -> Seq<Issue> {
    match a {
        Some(a) => maybe_audio_issues(a.bounce, base_dir) + maybe_audio_issues(a.destroy, base_dir),
        None => Seq::empty(),
    }
}

/// `true` when `audio` holds the resolved paths of `a`.
pub open spec fn object_audio_from(audio: ObjectAudio, a: Option<RawObjectAudio>, base_dir: Option<Seq<char>>) -> bool {
    match a {
        Some(a) => opt_view(audio.bounce) == maybe_resolved(a.bounce, base_dir) && opt_view(audio.destroy)
            == maybe_resolved(a.destroy, base_dir),
        None => audio.bounce is None && audio.destroy is None,
    }
}

fn convert_object_audio(a: &Option<RawObjectAudio>, base_dir: Option<&str>, errors: &mut Vec<ValidationError>) -> (r:
    ObjectAudio)
    ensures
        issues(final(errors)@) == issues(old(errors)@) + object_audio_issues(*a, dir_view(base_dir)),
        object_audio_from(r, *a, dir_view(base_dir)),
{
    match a {
        None => {
            assert(issues(errors@) =~= issues(errors@) + Seq::<Issue>::empty());
            ObjectAudio { bounce: None, destroy: None }
        },
        Some(a) => {
            let ghost e0 = issues(errors@);
            let bounce = convert_audio_file(&a.bounce, base_dir, errors);
            let destroy = convert_audio_file(&a.destroy, base_dir, errors);
            assert(issues(errors@) =~= e0 + object_audio_issues(Some(*a), dir_view(base_dir)));
            ObjectAudio { bounce, destroy }
        },
    }
}

// ── Colors ───────────────────────────────────────────────────────────────────

/// The message for a malformed color string, if it is one.
pub open spec fn color_problem(s: Seq<char>) -> Option<Seq<char>> {
    match hex_color_outcome(encode_utf8(s)) {
        Ok(_) => None,
        Err(HexColorFault::Shape) => Some(shape_message(s)),
        Err(HexColorFault::Digits) => Some(digits_message(s)),
    }
}

/// The color a well-formed color string denotes.
pub open spec fn color_of(s: Seq<char>) -> Color {
    hex_color_outcome(encode_utf8(s))->Ok_0
}

/// The color of an optional color field: white when absent.
pub open spec fn color_or_white(c: Option<String>) -> Color {
    match c {
        Some(s) => color_of(s@),
        None => Color { r: 255, g: 255, b: 255, a: 255 },
    }
}

/// Whether an optional color field is malformed.
pub open spec fn color_field_bad(c: Option<String>) -> bool {
    c matches Some(s) && color_problem(s@) is Some
}

fn read_color(s: &String) -> (r: Result<Color, String>)
    ensures
        match r {
            Ok(c) => color_problem(s@) is None && c == color_of(s@),
            Err(m) => color_problem(s@) == Some(m@),
        },
{
    parse_hex_color(s.as_str())
}

// ── Objects ──────────────────────────────────────────────────────────────────

/// The name used in an object's error messages.
pub open spec fn display_name(o: RawObject) -> Seq<char> {
    match o.name {
        Some(n) => n@,
        None => "<unnamed>"@,
    }
}

/// Shape of a raw object whose `shape` field is present.
pub open spec fn shape_outcome(o: RawObject) -> Result<ShapeKind, Issue> {
    let dn = display_name(o);
    let kind = o.shape.unwrap()@;
    if kind == "circle"@ {
        match o.radius {
            None => Err(Issue::MissingField { name: dn, field: "radius"@ }),
            Some(r) => if spec_le(r.value, zero()) {
                Err(invalid(dn, "radius must be > 0, got "@ + r.shown@))
            } else {
                Ok(ShapeKind::Circle { radius: r.value })
            },
        }
    } else if kind == "rectangle"@ {
        match o.size {
            None => Err(Issue::MissingField { name: dn, field: "size"@ }),
            Some((w, h)) => if spec_le(w.value, zero()) || spec_le(h.value, zero()) {
                Err(
                    invalid(
                        dn,
                        "rectangle size must be positive [w, h], got ["@ + w.shown@ + ", "@ + h.shown@ + "]"@,
                    ),
                )
            } else {
                Ok(ShapeKind::Rectangle { width: w.value, height: h.value })
            },
        }
    } else if kind == "polygon"@ {
        match o.vertices {
            None => Err(Issue::MissingField { name: dn, field: "vertices"@ }),
            Some(v) => if v@.len() < 3 {
                Err(invalid(dn, "polygon must have at least 3 vertices, got "@ + decimal(v@.len())))
            } else {
                Ok(ShapeKind::Polygon { vertices: v })
            },
        }
    } else {
        Err(Issue::UnknownShape { name: dn, shape: kind })
    }
}

/// `true` when two shapes have the same kind and the same dimensions or
/// vertices.
pub open spec fn same_shape(a: ShapeKind, b: ShapeKind) -> bool {
    match (a, b) {
        (ShapeKind::Circle { radius: r1 }, ShapeKind::Circle { radius: r2 }) => r1 == r2,
        (ShapeKind::Rectangle { width: w1, height: h1 }, ShapeKind::Rectangle { width: w2, height: h2 }) => w1
            == w2 && h1 == h2,
        (ShapeKind::Polygon { vertices: v1 }, ShapeKind::Polygon { vertices: v2 }) => v1@ == v2@,
        _ => false,
    }
}

/// Body type of a raw object.
pub open spec fn body_type_outcome(o: RawObject) -> Result<BodyType, Issue> {
    match o.body_type {
        None => Ok(BodyType::Dynamic),
        Some(t) => if t@ == "dynamic"@ {
            Ok(BodyType::Dynamic)
        } else if t@ == "static"@ {
            Ok(BodyType::Static)
        } else if t@ == "kinematic"@ {
            Ok(BodyType::Kinematic)
        } else {
            Err(
                invalid(
                    display_name(o),
                    "unknown body_type '"@ + t@ + "' (expected 'dynamic', 'static', or 'kinematic')"@,
                ),
            )
        },
    }
}

/// Issues of a material block, all of them reported together.
pub open spec fn material_issues(m: RawMaterial, dn: Seq<char>) -> Seq<Issue> {
    (match m.restitution {
        Some(r) => if !(spec_le(zero(), r.value) && spec_le(r.value, Scalar { bits: ONE_BITS })) {
            seq![invalid(dn, "restitution must be between 0.0 and 1.0, got "@ + r.shown@)]
        } else {
            Seq::empty()
        },
        None => Seq::empty(),
    }) + (match m.friction {
        Some(f) => if spec_lt(f.value, zero()) {
            seq![invalid(dn, "friction must be >= 0.0, got "@ + f.shown@)]
        } else {
            Seq::empty()
        },
        None => Seq::empty(),
    }) + (match m.density {
        Some(d) => if spec_le(d.value, zero()) {
            seq![invalid(dn, "density must be > 0.0, got "@ + d.shown@)]
        } else {
            Seq::empty()
        },
        None => Seq::empty(),
    })
}

/// The value of an optional reading, or a default bit pattern.
pub open spec fn value_or(r: Option<Reading>, bits: u32) -> Scalar {
    match r {
        Some(r) => r.value,
        None => Scalar { bits },
    }
}

/// The material of a raw object: the defaults fill absent fields.
pub open spec fn material_of(m: Option<RawMaterial>) -> Material {
    match m {
        Some(m) => Material {
            restitution: value_or(m.restitution, HALF_BITS),
            friction: value_or(m.friction, HALF_BITS),
            density: value_or(m.density, ONE_BITS),
        },
        None => Material {
            restitution: Scalar { bits: HALF_BITS },
            friction: Scalar { bits: HALF_BITS },
            density: Scalar { bits: ONE_BITS },
        },
    }
}

/// Whether a destructible threshold is refused.
pub open spec fn destructible_bad(d: Option<RawDestructible>) -> bool {
    d matches Some(d) && spec_le(d.min_impact_force.value, zero())
}

/// The issues that stop an object's conversion: the first failing check
/// (position, shape, shape fields, body type, material, color,
/// destructible), with all material issues reported together.  Empty when
/// the object converts.
pub open spec fn core_issues(o: RawObject) -> Seq<Issue> {
    let dn = display_name(o);
    if o.position is None {
        seq![Issue::MissingField { name: dn, field: "position"@ }]
    } else if o.shape is None {
        seq![Issue::MissingField { name: dn, field: "shape"@ }]
    } else if shape_outcome(o) is Err {
        seq![shape_outcome(o)->Err_0]
    } else if body_type_outcome(o) is Err {
        seq![body_type_outcome(o)->Err_0]
    } else if o.material is Some && material_issues(o.material.unwrap(), dn).len() > 0 {
        material_issues(o.material.unwrap(), dn)
    } else if color_field_bad(o.color) {
        seq![invalid(dn, color_problem(o.color.unwrap()@).unwrap())]
    } else if destructible_bad(o.destructible) {
        seq![
            invalid(
                dn,
                "destructible.min_impact_force must be > 0, got "@ + o.destructible.unwrap().min_impact_force.shown@,
            ),
        ]
    } else {
        Seq::empty()
    }
}

/// Every issue an object raises: a duplicate name first (when `duplicate`),
/// then what stops its conversion, or else its missing audio files.
pub open spec fn object_issues(o: RawObject, duplicate: bool, base_dir: Option<Seq<char>>) -> Seq<Issue> {
    let dup: Seq<Issue> = if duplicate {
        seq![Issue::DuplicateName { name: o.name.unwrap()@ }]
    } else {
        Seq::empty()
    };
    if core_issues(o).len() > 0 {
        dup + core_issues(o)
    } else {
        dup + object_audio_issues(o.audio, base_dir)
    }
}

/// `v`, or the zero vector when absent.
pub open spec fn vec_or_zero(v: Option<Vec2>) -> Vec2 {
    match v {
        Some(v) => v,
        None => Vec2 { x: zero(), y: zero() },
    }
}

/// `true` when `obj` is the conversion of raw object `o`.
pub open spec fn object_from(obj: SceneObject, o: RawObject, base_dir: Option<Seq<char>>) -> bool {
    &&& obj.name == o.name
    &&& same_shape(obj.shape, shape_outcome(o)->Ok_0)
    &&& obj.position == o.position.unwrap()
    &&& obj.velocity == vec_or_zero(o.velocity)
    &&& obj.rotation == (match o.rotation {
        Some(r) => r,
        None => zero(),
    })
    &&& obj.angular_velocity == (match o.angular_velocity {
        Some(r) => r,
        None => zero(),
    })
    &&& obj.body_type == body_type_outcome(o)->Ok_0
    &&& obj.material == material_of(o.material)
    &&& obj.color == color_or_white(o.color)
    &&& obj.tags@ == (match o.tags {
        Some(t) => t@,
        None => Seq::empty(),
    })
    &&& obj.destructible == (match o.destructible {
        Some(d) => Some(Destructible { min_impact_force: d.min_impact_force.value }),
        None => None,
    })
    &&& object_audio_from(obj.audio, o.audio, base_dir)
}

fn convert_shape(o: &RawObject, dn: &String) -> (r: Result<ShapeKind, ValidationError>)
    requires
        o.shape is Some,
        dn@ == display_name(*o),
    ensures
        match r {
            Ok(s) => shape_outcome(*o) is Ok && same_shape(s, shape_outcome(*o)->Ok_0),
            Err(e) => shape_outcome(*o) is Err && shape_outcome(*o)->Err_0 == e@,
        },
{
    let kind = o.shape.as_ref().unwrap();
    let zero = Scalar::zero();
    proof {
        reveal_strlit("circle");
        reveal_strlit("rectangle");
        reveal_strlit("polygon");
    }
    if is_word(kind, "circle") {
        match &o.radius {
            None => Err(ValidationError::MissingField { name: dn.clone(), field: "radius" }),
            Some(r) => {
                if r.value.le(&zero) {
                    let m = cat("radius must be > 0, got ", r.shown.as_str());
                    Err(ValidationError::InvalidValue { name: dn.clone(), message: m })
                } else {
                    Ok(ShapeKind::Circle { radius: r.value })
                }
            },
        }
    } else if is_word(kind, "rectangle") {
        match &o.size {
            None => Err(ValidationError::MissingField { name: dn.clone(), field: "size" }),
            Some((w, h)) => {
                if w.value.le(&zero) || h.value.le(&zero) {
                    let mut m = String::from_str("rectangle size must be positive [w, h], got [");
                    m.append(w.shown.as_str());
                    m.append(", ");
                    m.append(h.shown.as_str());
                    m.append("]");
                    Err(ValidationError::InvalidValue { name: dn.clone(), message: m })
                } else {
                    Ok(ShapeKind::Rectangle { width: w.value, height: h.value })
                }
            },
        }
    } else if is_word(kind, "polygon") {
        match &o.vertices {
            None => Err(ValidationError::MissingField { name: dn.clone(), field: "vertices" }),
            Some(v) => {
                if v.len() < 3 {
                    let mut m = String::from_str("polygon must have at least 3 vertices, got ");
                    push_decimal(&mut m, v.len() as u64);
                    Err(ValidationError::InvalidValue { name: dn.clone(), message: m })
                } else {
                    Ok(ShapeKind::Polygon { vertices: copy_points(v) })
                }
            },
        }
    } else {
        Err(ValidationError::UnknownShape { name: dn.clone(), shape: kind.clone() })
    }
}

fn convert_body_type(o: &RawObject, dn: &String) -> (r: Result<BodyType, ValidationError>)
    requires
        dn@ == display_name(*o),
    ensures
        match r {
            Ok(t) => body_type_outcome(*o) == Ok::<BodyType, Issue>(t),
            Err(e) => body_type_outcome(*o) is Err && body_type_outcome(*o)->Err_0 == e@,
        },
{
    proof {
        reveal_strlit("dynamic");
        reveal_strlit("static");
        reveal_strlit("kinematic");
    }
    match &o.body_type {
        None => Ok(BodyType::Dynamic),
        Some(t) => {
            if is_word(t, "dynamic") {
                Ok(BodyType::Dynamic)
            } else if is_word(t, "static") {
                Ok(BodyType::Static)
            } else if is_word(t, "kinematic") {
                Ok(BodyType::Kinematic)
            } else {
                let mut m = String::from_str("unknown body_type '");
                m.append(t.as_str());
                m.append("' (expected 'dynamic', 'static', or 'kinematic')");
                Err(ValidationError::InvalidValue { name: dn.clone(), message: m })
            }
        },
    }
}

fn convert_material(m: &RawMaterial, dn: &String, errors: &mut Vec<ValidationError>) -> (ok: bool)
    ensures
        issues(final(errors)@) == issues(old(errors)@) + material_issues(*m, dn@),
        ok == (material_issues(*m, dn@).len() == 0),
{
    let ghost e0 = issues(errors@);
    let zero = Scalar::zero();
    let one = Scalar::from_bits(ONE_BITS);
    let mut ok = true;
    if let Some(r) = &m.restitution {
        if !(zero.le(&r.value) && r.value.le(&one)) {
            let msg = cat("restitution must be between 0.0 and 1.0, got ", r.shown.as_str());
            push_error(errors, ValidationError::InvalidValue { name: dn.clone(), message: msg });
            ok = false;
        }
    }
    if let Some(f) = &m.friction {
        if f.value.lt(&zero) {
            let msg = cat("friction must be >= 0.0, got ", f.shown.as_str());
            push_error(errors, ValidationError::InvalidValue { name: dn.clone(), message: msg });
            ok = false;
        }
    }
    if let Some(d) = &m.density {
        if d.value.le(&zero) {
            let msg = cat("density must be > 0.0, got ", d.shown.as_str());
            push_error(errors, ValidationError::InvalidValue { name: dn.clone(), message: msg });
            ok = false;
        }
    }
    assert(issues(errors@) =~= e0 + material_issues(*m, dn@));
    ok
}

fn value_or_default(r: &Option<Reading>, bits: u32) -> (v: Scalar)
    ensures
        v == value_or(*r, bits),
{
    match r {
        Some(r) => r.value,
        None => Scalar::from_bits(bits),
    }
}

/// Convert a raw object, appending its validation errors to `errors`.
///
/// `duplicate` says that an earlier object has the same name.  Returns
/// `None` when a check stops the conversion.
pub fn convert_object(
    raw: &RawObject,
    duplicate: bool,
    base_dir: Option<&str>,
    errors: &mut Vec<ValidationError>,
) -> (r: Option<SceneObject>)
    requires
        duplicate ==> raw.name is Some,
    ensures
        issues(final(errors)@) == issues(old(errors)@) + object_issues(*raw, duplicate, dir_view(base_dir)),
        r is Some <==> core_issues(*raw).len() == 0,
        r matches Some(obj) ==> object_from(obj, *raw, dir_view(base_dir)),
{
    let ghost e0 = issues(errors@);
    let ghost o = *raw;
    let display_name = match &raw.name {
        Some(n) => n.clone(),
        None => String::from_str("<unnamed>"),
    };
    if duplicate {
        let n = raw.name.as_ref().unwrap().clone();
        push_error(errors, ValidationError::DuplicateName { name: n });
    }
    let ghost dup: Seq<Issue> = if duplicate {
        seq![Issue::DuplicateName { name: o.name.unwrap()@ }]
    } else {
        Seq::empty()
    };
    assert(issues(errors@) =~= e0 + dup);
    let position = match raw.position {
        Some(p) => p,
        None => {
            push_error(errors, ValidationError::MissingField { name: display_name, field: "position" });
            assert(issues(errors@) =~= e0 + object_issues(o, duplicate, dir_view(base_dir)));
            return None;
        },
    };
    if raw.shape.is_none() {
        push_error(errors, ValidationError::MissingField { name: display_name, field: "shape" });
        assert(issues(errors@) =~= e0 + object_issues(o, duplicate, dir_view(base_dir)));
        return None;
    }
    let shape = match convert_shape(raw, &display_name) {
        Ok(s) => s,
        Err(e) => {
            push_error(errors, e);
            assert(issues(errors@) =~= e0 + object_issues(o, duplicate, dir_view(base_dir)));
            return None;
        },
    };
    let velocity = match raw.velocity {
        Some(v) => v,
        None => Vec2::zero(),
    };
    let rotation = match raw.rotation {
        Some(r) => r,
        None => Scalar::zero(),
    };
    let angular_velocity = match raw.angular_velocity {
        Some(r) => r,
        None => Scalar::zero(),
    };
    let body_type = match convert_body_type(raw, &display_name) {
        Ok(t) => t,
        Err(e) => {
            push_error(errors, e);
            assert(issues(errors@) =~= e0 + object_issues(o, duplicate, dir_view(base_dir)));
            return None;
        },
    };
    let material = match &raw.material {
        None => Material::default_material(),
        Some(m) => {
            if !convert_material(m, &display_name, errors) {
                assert(issues(errors@) =~= e0 + object_issues(o, duplicate, dir_view(base_dir)));
                return None;
            }
            assert(issues(errors@) =~= e0 + dup);
            Material {
                restitution: value_or_default(&m.restitution, HALF_BITS),
                friction: value_or_default(&m.friction, HALF_BITS),
                density: value_or_default(&m.density, ONE_BITS),
            }
        },
    };
    let color = match &raw.color {
        None => Color::white(),
        Some(hex) => match read_color(hex) {
            Ok(c) => c,
            Err(msg) => {
                push_error(errors, ValidationError::InvalidValue { name: display_name, message: msg });
                assert(issues(errors@) =~= e0 + object_issues(o, duplicate, dir_view(base_dir)));
                return None;
            },
        },
    };
    let tags = match &raw.tags {
        Some(t) => copy_strings(t),
        None => Vec::new(),
    };
    let destructible = match &raw.destructible {
        None => None,
        Some(d) => {
            if d.min_impact_force.value.le(&Scalar::zero()) {
                let msg = cat("destructible.min_impact_force must be > 0, got ", d.min_impact_force.shown.as_str());
                push_error(errors, ValidationError::InvalidValue { name: display_name, message: msg });
                assert(issues(errors@) =~= e0 + object_issues(o, duplicate, dir_view(base_dir)));
                return None;
            }
            Some(Destructible { min_impact_force: d.min_impact_force.value })
        },
    };
    assert(core_issues(o).len() == 0);
    let audio = convert_object_audio(&raw.audio, base_dir, errors);
    assert(issues(errors@) =~= e0 + object_issues(o, duplicate, dir_view(base_dir)));
    Some(
        SceneObject {
            name: copy_option_string(&raw.name),
            shape,
            position,
            velocity,
            rotation,
            angular_velocity,
            body_type,
            material,
            color,
            tags,
            destructible,
            audio,
        },
    )
}

// ── Environment ──────────────────────────────────────────────────────────────

/// Bit pattern of `0.3`, the default wall thickness.
pub const WALL_THICKNESS_BITS: u32 = 0x3e99_999a;

/// Issues of the wall configuration: a malformed color, or else a
/// thickness that is not positive.
pub open spec fn wall_issues(w: RawWallConfig) -> Seq<Issue> {
    if color_field_bad(w.color) {
        seq![invalid("environment.walls.color"@, color_problem(w.color.unwrap()@).unwrap())]
    } else if w.thickness matches Some(t) && spec_le(t.value, zero()) {
        seq![invalid("environment.walls.thickness"@, "walls.thickness must be > 0, got "@ + w.thickness.unwrap().shown@)]
    } else {
        Seq::empty()
    }
}

/// Issues of the environment: the first failing check among the background
/// color, the world width, the world height and the walls.
pub open spec fn env_issues(e: RawEnvironment) -> Seq<Issue> {
    if color_problem(e.background_color@) is Some {
        seq![invalid("environment.background_color"@, color_problem(e.background_color@).unwrap())]
    } else if spec_le(e.world_bounds.width.value, zero()) {
        seq![
            invalid(
                "environment.world_bounds.width"@,
                "world_bounds.width must be > 0, got "@ + e.world_bounds.width.shown@,
            ),
        ]
    } else if spec_le(e.world_bounds.height.value, zero()) {
        seq![
            invalid(
                "environment.world_bounds.height"@,
                "world_bounds.height must be > 0, got "@ + e.world_bounds.height.shown@,
            ),
        ]
    } else {
        wall_issues(e.walls)
    }
}

/// `true` when `env` is the conversion of `e`.
pub open spec fn env_from(env: Environment, e: RawEnvironment) -> bool {
    &&& env.gravity == e.gravity
    &&& env.background_color == color_of(e.background_color@)
    &&& env.world_bounds == WorldBounds { width: e.world_bounds.width.value, height: e.world_bounds.height.value }
    &&& env.walls == WallConfig {
        visible: match e.walls.visible {
            Some(v) => v,
            None => true,
        },
        color: color_or_white(e.walls.color),
        thickness: value_or(e.walls.thickness, WALL_THICKNESS_BITS),
    }
}

fn convert_wall_config(w: &RawWallConfig, errors: &mut Vec<ValidationError>) -> (r: Option<WallConfig>)
    ensures
        issues(final(errors)@) == issues(old(errors)@) + wall_issues(*w),
        r is Some <==> wall_issues(*w).len() == 0,
        r matches Some(v) ==> v == (WallConfig {
            visible: match w.visible {
                Some(v) => v,
                None => true,
            },
            color: color_or_white(w.color),
            thickness: value_or(w.thickness, WALL_THICKNESS_BITS),
        }),
{
    let ghost e0 = issues(errors@);
    let visible = match w.visible {
        Some(v) => v,
        None => true,
    };
    let color = match &w.color {
        None => Color::white(),
        Some(hex) => match read_color(hex) {
            Ok(c) => c,
            Err(msg) => {
                push_error(errors, invalid_value("environment.walls.color", msg));
                assert(issues(errors@) =~= e0 + wall_issues(*w));
                return None;
            },
        },
    };
    let thickness = value_or_default(&w.thickness, WALL_THICKNESS_BITS);
    if let Some(t) = &w.thickness {
        if t.value.le(&Scalar::zero()) {
            let msg = cat("walls.thickness must be > 0, got ", t.shown.as_str());
            push_error(errors, invalid_value("environment.walls.thickness", msg));
            assert(issues(errors@) =~= e0 + wall_issues(*w));
            return None;
        }
    }
    assert(issues(errors@) =~= e0 + wall_issues(*w));
    Some(WallConfig { visible, color, thickness })
}

fn convert_environment(e: &RawEnvironment, errors: &mut Vec<ValidationError>) -> (r: Option<Environment>)
    ensures
        issues(final(errors)@) == issues(old(errors)@) + env_issues(*e),
        r is Some <==> env_issues(*e).len() == 0,
        r matches Some(v) ==> env_from(v, *e),
{
    let ghost e0 = issues(errors@);
    let background_color = match read_color(&e.background_color) {
        Ok(c) => c,
        Err(msg) => {
            push_error(errors, invalid_value("environment.background_color", msg));
            assert(issues(errors@) =~= e0 + env_issues(*e));
            return None;
        },
    };
    let zero = Scalar::zero();
    if e.world_bounds.width.value.le(&zero) {
        let msg = cat("world_bounds.width must be > 0, got ", e.world_bounds.width.shown.as_str());
        push_error(errors, invalid_value("environment.world_bounds.width", msg));
        assert(issues(errors@) =~= e0 + env_issues(*e));
        return None;
    }
    if e.world_bounds.height.value.le(&zero) {
        let msg = cat("world_bounds.height must be > 0, got ", e.world_bounds.height.shown.as_str());
        push_error(errors, invalid_value("environment.world_bounds.height", msg));
        assert(issues(errors@) =~= e0 + env_issues(*e));
        return None;
    }
    let walls = match convert_wall_config(&e.walls, errors) {
        Some(w) => w,
        None => {
            return None;
        },
    };
    Some(
        Environment {
            gravity: e.gravity,
            background_color,
            world_bounds: WorldBounds { width: e.world_bounds.width.value, height: e.world_bounds.height.value },
            walls,
        },
    )
}

// ── End conditions ───────────────────────────────────────────────────────────

/// How many objects are named `name`.
pub open spec fn name_count(objs: Seq<RawObject>, name: Seq<char>) -> nat
    decreases objs.len(),
{
    if objs.len() == 0 {
        0
    } else {
        name_count(objs.drop_last(), name) + (if objs.last().name matches Some(n) && n@ == name {
            1nat
        } else {
            0nat
        })
    }
}

/// An end condition may refer to an object only by a name that exactly one
/// object carries.
pub open spec fn known_object(objs: Seq<RawObject>, name: Seq<char>) -> bool {
    name_count(objs, name) == 1
}

/// Issues of an end condition; composite conditions report the issues of
/// all their parts, in order.
pub open spec fn cond_issues(c: RawEndCondition, objs: Seq<RawObject>) -> Seq<Issue>
    decreases c, 0nat,
{
    match c {
        RawEndCondition::TimeLimit { seconds } => if spec_le(seconds.value, zero()) {
            seq![invalid("end_condition.time_limit"@, "time_limit.seconds must be > 0, got "@ + seconds.shown@)]
        } else {
            Seq::empty()
        },
        RawEndCondition::ObjectEscaped { name } => if !known_object(objs, name@) {
            seq![Issue::UnknownObjectReference { name: name@ }]
        } else {
            Seq::empty()
        },
        RawEndCondition::ObjectsCollided { name_a, name_b } => (if !known_object(objs, name_a@) {
            seq![Issue::UnknownObjectReference { name: name_a@ }]
        } else {
            Seq::empty()
        }) + (if !known_object(objs, name_b@) {
            seq![Issue::UnknownObjectReference { name: name_b@ }]
        } else {
            Seq::empty()
        }),
        RawEndCondition::And { conditions } => parts_issues(conditions@, conditions@.len(), objs),
        RawEndCondition::Or { conditions } => parts_issues(conditions@, conditions@.len(), objs),
        RawEndCondition::FirstToReach { finish_y, .. } => if spec_lt(finish_y.value, zero()) {
            seq![
                invalid(
                    "end_condition.first_to_reach"@,
                    "first_to_reach.finish_y must be >= 0, got "@ + finish_y.shown@,
                ),
            ]
        } else {
            Seq::empty()
        },
        _ => Seq::empty(),
    }
}

/// Issues of the first `n` parts of a composite condition.
pub open spec fn parts_issues(cs: Seq<RawEndCondition>, n: nat, objs: Seq<RawObject>) -> Seq<Issue>
    decreases cs, n,
{
    if n == 0 || n > cs.len() {
        Seq::empty()
    } else {
        parts_issues(cs, (n - 1) as nat, objs) + cond_issues(cs[n - 1], objs)
    }
}

/// `true` when `v` is the conversion of `c`: the same structure and
/// values, with the racer tag `"racer"` when `FirstToReach` names none.
pub open spec fn cond_from(v: EndCondition, c: RawEndCondition) -> bool
    decreases c, 0nat,
{
    match c {
        RawEndCondition::TimeLimit { seconds } => v matches EndCondition::TimeLimit { seconds: s } && s
            == seconds.value,
        RawEndCondition::AllTaggedDestroyed { tag } => v matches EndCondition::AllTaggedDestroyed { tag: t }
            && t == tag,
        RawEndCondition::ObjectEscaped { name } => v matches EndCondition::ObjectEscaped { name: n } && n == name,
        RawEndCondition::ObjectsCollided { name_a, name_b } => v matches EndCondition::ObjectsCollided {
            name_a: a,
            name_b: b,
        } && a == name_a && b == name_b,
        RawEndCondition::TagsCollided { tag_a, tag_b } => v matches EndCondition::TagsCollided {
            tag_a: a,
            tag_b: b,
        } && a == tag_a && b == tag_b,
        RawEndCondition::And { conditions } => v matches EndCondition::And { conditions: vs } && vs@.len()
            == conditions@.len() && parts_from(vs@, conditions@, conditions@.len()),
        RawEndCondition::Or { conditions } => v matches EndCondition::Or { conditions: vs } && vs@.len()
            == conditions@.len() && parts_from(vs@, conditions@, conditions@.len()),
        RawEndCondition::FirstToReach { finish_y, tag } => v matches EndCondition::FirstToReach {
            finish_y: f,
            tag: t,
        } && f == finish_y.value && t@ == (match tag {
            Some(t) => t@,
            None => "racer"@,
        }),
    }
}

/// `true` when each of the first `n` parts of `vs` converts the part of `cs`.
pub open spec fn parts_from(vs: Seq<EndCondition>, cs: Seq<RawEndCondition>, n: nat) -> bool
    decreases cs, n,
{
    if n == 0 || n > cs.len() {
        true
    } else {
        parts_from(vs, cs, (n - 1) as nat) && cond_from(vs[n - 1], cs[n - 1])
    }
}

proof fn lemma_raw_part_decreases(c: &RawEndCondition, conditions: &Vec<RawEndCondition>, i: int)
    requires
        0 <= i < conditions@.len(),
        *c == (RawEndCondition::And { conditions: *conditions }) || *c == (RawEndCondition::Or {
            conditions: *conditions,
        }),
    ensures
        decreases_to!(*c => conditions@[i]),
{
    if c is And {
        assert(decreases_to!(*c => c->And_conditions));
    } else {
        assert(decreases_to!(*c => c->Or_conditions));
    }
    assert(decreases_to!(*conditions => conditions@));
    assert(decreases_to!(conditions@ => conditions@[i]));
}

/// `parts_from` only looks at the first `n` parts.
proof fn lemma_parts_from_push(vs: Seq<EndCondition>, v: EndCondition, cs: Seq<RawEndCondition>, n: nat)
    requires
        n == vs.len(),
        n < cs.len(),
        parts_from(vs, cs, n),
        cond_from(v, cs[n as int]),
    ensures
        parts_from(vs.push(v), cs, n + 1),
{
    lemma_parts_from_prefix(vs, vs.push(v), cs, n);
}

proof fn lemma_parts_from_prefix(vs: Seq<EndCondition>, ws: Seq<EndCondition>, cs: Seq<RawEndCondition>, n: nat)
    requires
        n <= vs.len(),
        n <= ws.len(),
        forall|i: int| 0 <= i < n ==> vs[i] == ws[i],
        parts_from(vs, cs, n),
    ensures
        parts_from(ws, cs, n),
    decreases n,
{
    if n > 0 && n <= cs.len() {
        lemma_parts_from_prefix(vs, ws, cs, (n - 1) as nat);
    }
}

fn count_named(objs: &Vec<RawObject>, name: &String) -> (r: usize)
    ensures
        r == name_count(objs@, name@),
{
    let mut count: usize = 0;
    let mut i: usize = 0;
    while i < objs.len()
        invariant
            0 <= i <= objs@.len(),
            count == name_count(objs@.take(i as int), name@),
            count <= i,
        decreases objs.len() - i,
    {
        proof {
            assert(objs@.take(i + 1).drop_last() =~= objs@.take(i as int));
        }
        let hit = match &objs[i].name {
            Some(n) => *n == *name,
            None => false,
        };
        if hit {
            count = count + 1;
        }
        i = i + 1;
    }
    assert(objs@.take(objs@.len() as int) =~= objs@);
    count
}

fn is_known_object(objs: &Vec<RawObject>, name: &String) -> (r: bool)
    ensures
        r == known_object(objs@, name@),
{
    count_named(objs, name) == 1
}

/// Convert an end condition, appending its validation errors to `errors`;
/// `objs` are the scene's objects, against which object names are checked.
pub fn convert_end_condition(c: &RawEndCondition, objs: &Vec<RawObject>, errors: &mut Vec<ValidationError>) -> (r:
    Option<EndCondition>)
    ensures
        issues(final(errors)@) == issues(old(errors)@) + cond_issues(*c, objs@),
        r is Some <==> cond_issues(*c, objs@).len() == 0,
        r matches Some(v) ==> cond_from(v, *c),
    decreases c,
{
    let ghost e0 = issues(errors@);
    match c {
        RawEndCondition::TimeLimit { seconds } => {
            if seconds.value.le(&Scalar::zero()) {
                let msg = cat("time_limit.seconds must be > 0, got ", seconds.shown.as_str());
                push_error(errors, invalid_value("end_condition.time_limit", msg));
                return None;
            }
            assert(issues(errors@) =~= e0 + cond_issues(*c, objs@));
            Some(EndCondition::TimeLimit { seconds: seconds.value })
        },
        RawEndCondition::AllTaggedDestroyed { tag } => {
            assert(issues(errors@) =~= e0 + cond_issues(*c, objs@));
            Some(EndCondition::AllTaggedDestroyed { tag: tag.clone() })
        },
        RawEndCondition::ObjectEscaped { name } => {
            if !is_known_object(objs, name) {
                push_error(errors, ValidationError::UnknownObjectReference { name: name.clone() });
                return None;
            }
            assert(issues(errors@) =~= e0 + cond_issues(*c, objs@));
            Some(EndCondition::ObjectEscaped { name: name.clone() })
        },
        RawEndCondition::ObjectsCollided { name_a, name_b } => {
            let mut ok = true;
            if !is_known_object(objs, name_a) {
                push_error(errors, ValidationError::UnknownObjectReference { name: name_a.clone() });
                ok = false;
            }
            if !is_known_object(objs, name_b) {
                push_error(errors, ValidationError::UnknownObjectReference { name: name_b.clone() });
                ok = false;
            }
            assert(issues(errors@) =~= e0 + cond_issues(*c, objs@));
            if ok {
                Some(EndCondition::ObjectsCollided { name_a: name_a.clone(), name_b: name_b.clone() })
            } else {
                None
            }
        },
        RawEndCondition::TagsCollided { tag_a, tag_b } => {
            assert(issues(errors@) =~= e0 + cond_issues(*c, objs@));
            Some(EndCondition::TagsCollided { tag_a: tag_a.clone(), tag_b: tag_b.clone() })
        },
        RawEndCondition::And { conditions } | RawEndCondition::Or { conditions } => {
            let mut converted: Vec<EndCondition> = Vec::new();
            let mut all_ok = true;
            let mut i: usize = 0;
            while i < conditions.len()
                invariant
                    0 <= i <= conditions@.len(),
                    *c == (RawEndCondition::And { conditions: *conditions }) || *c == (RawEndCondition::Or {
                        conditions: *conditions,
                    }),
                    issues(errors@) == e0 + parts_issues(conditions@, i as nat, objs@),
                    all_ok == (parts_issues(conditions@, i as nat, objs@).len() == 0),
                    all_ok ==> converted@.len() == i && parts_from(converted@, conditions@, i as nat),
                decreases conditions.len() - i,
            {
                proof {
                    lemma_raw_part_decreases(c, conditions, i as int);
                }
                let ghost before = converted@;
                let ghost e1 = issues(errors@);
                let part = convert_end_condition(&conditions[i], objs, errors);
                proof {
                    assert(issues(errors@) =~= e0 + parts_issues(conditions@, (i + 1) as nat, objs@));
                }
                match part {
                    Some(v) => {
                        converted.push(v);
                        proof {
                            if all_ok {
                                lemma_parts_from_push(before, v, conditions@, i as nat);
                            }
                        }
                    },
                    None => {
                        all_ok = false;
                    },
                }
                i = i + 1;
            }
            if !all_ok {
                return None;
            }
            if matches!(c, RawEndCondition::And { .. }) {
                Some(EndCondition::And { conditions: converted })
            } else {
                Some(EndCondition::Or { conditions: converted })
            }
        },
        RawEndCondition::FirstToReach { finish_y, tag } => {
            if finish_y.value.lt(&Scalar::zero()) {
                let msg = cat("first_to_reach.finish_y must be >= 0, got ", finish_y.shown.as_str());
                push_error(errors, invalid_value("end_condition.first_to_reach", msg));
                return None;
            }
            assert(issues(errors@) =~= e0 + cond_issues(*c, objs@));
            let t = match tag {
                Some(t) => t.clone(),
                None => String::from_str("racer"),
            };
            Some(EndCondition::FirstToReach { finish_y: finish_y.value, tag: t })
        },
    }
}

// ── Race configuration ───────────────────────────────────────────────────────

/// Issues of the first `n` checkpoints: each must lie above the finish line.
pub open spec fn checkpoint_issues(cps: Seq<RawCheckpoint>, finish_y: Reading, n: nat) -> Seq<Issue>
    decreases n,
{
    if n == 0 || n > cps.len() {
        Seq::empty()
    } else {
        checkpoint_issues(cps, finish_y, (n - 1) as nat) + (if spec_le(cps[n - 1].y.value, finish_y.value) {
            seq![
                invalid(
                    "race.checkpoints["@ + decimal((n - 1) as nat) + "]"@,
                    "checkpoint y ("@ + cps[n - 1].y.shown@ + ") must be > finish_y ("@ + finish_y.shown@ + ")"@,
                ),
            ]
        } else {
            Seq::empty()
        })
    }
}

/// Issues of the race configuration: a negative finish line, a hold time
/// that is not positive, and each checkpoint at or below the finish line.
pub open spec fn race_issues(rc: RawRaceConfig) -> Seq<Issue> {
    race_head_issues(rc) + checkpoint_issues(rc.checkpoints@, rc.finish_y, rc.checkpoints@.len())
}

/// Issues of the race's finish line and hold time.
pub open spec fn race_head_issues(rc: RawRaceConfig) -> Seq<Issue> {
    (if spec_lt(rc.finish_y.value, zero()) {
        seq![invalid("race.finish_y"@, "race.finish_y must be >= 0, got "@ + rc.finish_y.shown@)]
    } else {
        Seq::empty()
    }) + (if rc.announcement_hold_secs matches Some(h) && spec_le(h.value, zero()) {
        seq![
            invalid(
                "race.announcement_hold_secs"@,
                "race.announcement_hold_secs must be > 0, got "@ + rc.announcement_hold_secs.unwrap().shown@,
            ),
        ]
    } else {
        Seq::empty()
    })
}

/// `true` when `v` is the conversion of `rc`: racer tag `"racer"` and a
/// hold of two seconds when absent, every checkpoint kept.
pub open spec fn race_from(v: RaceConfig, rc: RawRaceConfig) -> bool {
    &&& v.finish_y == rc.finish_y.value
    &&& v.racer_tag@ == (match rc.racer_tag {
        Some(t) => t@,
        None => "racer"@,
    })
    &&& v.announcement_hold_secs == value_or(rc.announcement_hold_secs, TWO_BITS)
    &&& v.checkpoints@.len() == rc.checkpoints@.len()
    &&& forall|i: int|
        0 <= i < v.checkpoints@.len() ==> (#[trigger] v.checkpoints@[i]).y == rc.checkpoints@[i].y.value
            && v.checkpoints@[i].label == rc.checkpoints@[i].label
}

fn convert_race_config(rc: &RawRaceConfig, errors: &mut Vec<ValidationError>) -> (r: Option<RaceConfig>)
    ensures
        issues(final(errors)@) == issues(old(errors)@) + race_issues(*rc),
        r is Some <==> race_issues(*rc).len() == 0,
        r matches Some(v) ==> race_from(v, *rc),
{
    let ghost e0 = issues(errors@);
    let finish_y = rc.finish_y.value;
    let racer_tag = match &rc.racer_tag {
        Some(t) => t.clone(),
        None => String::from_str("racer"),
    };
    let announcement_hold_secs = value_or_default(&rc.announcement_hold_secs, TWO_BITS);
    let mut ok = true;
    if finish_y.lt(&Scalar::zero()) {
        let msg = cat("race.finish_y must be >= 0, got ", rc.finish_y.shown.as_str());
        push_error(errors, invalid_value("race.finish_y", msg));
        ok = false;
    }
    if let Some(h) = &rc.announcement_hold_secs {
        if h.value.le(&Scalar::zero()) {
            let msg = cat("race.announcement_hold_secs must be > 0, got ", h.shown.as_str());
            push_error(errors, invalid_value("race.announcement_hold_secs", msg));
            ok = false;
        }
    }
    let ghost e1 = issues(errors@);
    let ghost head = race_head_issues(*rc);
    assert(e1 =~= e0 + head);
    assert(ok == (head.len() == 0));
    let mut checkpoints: Vec<Checkpoint> = Vec::new();
    let mut i: usize = 0;
    while i < rc.checkpoints.len()
        invariant
            0 <= i <= rc.checkpoints@.len(),
            finish_y == rc.finish_y.value,
            issues(errors@) == e1 + checkpoint_issues(rc.checkpoints@, rc.finish_y, i as nat),
            checkpoints@.len() <= i,
            (checkpoint_issues(rc.checkpoints@, rc.finish_y, i as nat).len() == 0) == (checkpoints@.len() == i),
            checkpoints@.len() == i ==> forall|j: int|
                0 <= j < checkpoints@.len() ==> (#[trigger] checkpoints@[j]).y == rc.checkpoints@[j].y.value
                    && checkpoints@[j].label == rc.checkpoints@[j].label,
        decreases rc.checkpoints.len() - i,
    {
        let cp = &rc.checkpoints[i];
        if cp.y.value.le(&finish_y) {
            let mut name = String::from_str("race.checkpoints[");
            push_decimal(&mut name, i as u64);
            name.append("]");
            let mut msg = String::from_str("checkpoint y (");
            msg.append(cp.y.shown.as_str());
            msg.append(") must be > finish_y (");
            msg.append(rc.finish_y.shown.as_str());
            msg.append(")");
            let ghost issue = invalid(
                "race.checkpoints["@ + decimal(i as nat) + "]"@,
                "checkpoint y ("@ + cp.y.shown@ + ") must be > finish_y ("@ + rc.finish_y.shown@ + ")"@,
            );
            let e = ValidationError::InvalidValue { name, message: msg };
            assert(e@ == issue);
            push_error(errors, e);
            assert(checkpoint_issues(rc.checkpoints@, rc.finish_y, (i + 1) as nat) == checkpoint_issues(
                rc.checkpoints@,
                rc.finish_y,
                i as nat,
            ) + seq![issue]);
            assert(issues(errors@) =~= e1 + checkpoint_issues(rc.checkpoints@, rc.finish_y, (i + 1) as nat));
        } else {
            checkpoints.push(Checkpoint { y: cp.y.value, label: copy_option_string(&cp.label) });
            assert(checkpoint_issues(rc.checkpoints@, rc.finish_y, (i + 1) as nat) =~= checkpoint_issues(
                rc.checkpoints@,
                rc.finish_y,
                i as nat,
            ));
            assert(issues(errors@) =~= e1 + checkpoint_issues(rc.checkpoints@, rc.finish_y, (i + 1) as nat));
        }
        i = i + 1;
    }
    assert(issues(errors@) =~= e0 + race_issues(*rc));
    if !ok || checkpoints.len() < rc.checkpoints.len() {
        return None;
    }
    Some(RaceConfig { finish_y, racer_tag, announcement_hold_secs, checkpoints })
}

// ── Scene audio ──────────────────────────────────────────────────────────────

/// Issues of the scene-wide audio: missing default files, then a master
/// volume outside `[0, 1]`.
pub open spec fn scene_audio_issues(a: Option<RawSceneAudio>, base_dir: Option<Seq<char>>) -> Seq<Issue> {
    match a {
        None => Seq::empty(),
        Some(r) => maybe_audio_issues(r.default_bounce, base_dir) + maybe_audio_issues(r.default_destroy, base_dir)
            + (if r.master_volume matches Some(m) && !(spec_le(zero(), m.value) && spec_le(
            m.value,
            Scalar { bits: ONE_BITS },
        )) {
            seq![
                invalid(
                    "audio.master_volume"@,
                    "master_volume must be between 0.0 and 1.0, got "@ + r.master_volume.unwrap().shown@,
                ),
            ]
        } else {
            Seq::empty()
        }),
    }
}

/// `true` when `v` is the conversion of the scene-wide audio `a`: no
/// defaults and full volume when absent; a scene file names no bumper,
/// boost or finish sound.
pub open spec fn scene_audio_from(v: SceneAudio, a: Option<RawSceneAudio>, base_dir: Option<Seq<char>>) -> bool {
    &&& v.default_bumper is None
    &&& v.default_boost is None
    &&& v.default_finish is None
    &&& match a {
        None => v.default_bounce is None && v.default_destroy is None && v.master_volume == Scalar { bits: ONE_BITS },
        Some(r) => opt_view(v.default_bounce) == maybe_resolved(r.default_bounce, base_dir) && opt_view(
            v.default_destroy,
        ) == maybe_resolved(r.default_destroy, base_dir) && v.master_volume == value_or(r.master_volume, ONE_BITS),
    }
}

fn convert_scene_audio(a: &Option<RawSceneAudio>, base_dir: Option<&str>, errors: &mut Vec<ValidationError>) -> (r:
    SceneAudio)
    ensures
        issues(final(errors)@) == issues(old(errors)@) + scene_audio_issues(*a, dir_view(base_dir)),
        scene_audio_from(r, *a, dir_view(base_dir)),
{
    let ghost e0 = issues(errors@);
    match a {
        None => {
            assert(issues(errors@) =~= e0 + scene_audio_issues(*a, dir_view(base_dir)));
            SceneAudio {
                default_bounce: None,
                default_destroy: None,
                default_bumper: None,
                default_boost: None,
                default_finish: None,
                master_volume: Scalar::from_bits(ONE_BITS),
            }
        },
        Some(r) => {
            let default_bounce = convert_audio_file(&r.default_bounce, base_dir, errors);
            let default_destroy = convert_audio_file(&r.default_destroy, base_dir, errors);
            let master_volume = value_or_default(&r.master_volume, ONE_BITS);
            if let Some(m) = &r.master_volume {
                if !(Scalar::zero().le(&m.value) && m.value.le(&Scalar::from_bits(ONE_BITS))) {
                    let msg = cat("master_volume must be between 0.0 and 1.0, got ", m.shown.as_str());
                    push_error(errors, invalid_value("audio.master_volume", msg));
                }
            }
            assert(issues(errors@) =~= e0 + scene_audio_issues(*a, dir_view(base_dir)));
            SceneAudio {
                default_bounce,
                default_destroy,
                default_bumper: None,
                default_boost: None,
                default_finish: None,
                master_volume,
            }
        },
    }
}

// ── The whole scene ──────────────────────────────────────────────────────────

/// `true` when both objects carry the same name.
pub open spec fn same_name(a: RawObject, b: RawObject) -> bool {
    a.name matches Some(x) && b.name matches Some(y) && x@ == y@
}

/// `true` when an object before position `k` has the name of object `k`.
pub open spec fn named_earlier(objs: Seq<RawObject>, k: int) -> bool {
    exists|j: int| 0 <= j < k && same_name(#[trigger] objs[j], objs[k])
}

/// Issues of the first `n` objects, in order.
pub open spec fn objects_issues(objs: Seq<RawObject>, base_dir: Option<Seq<char>>, n: nat) -> Seq<Issue>
    decreases n,
{
    if n == 0 || n > objs.len() {
        Seq::empty()
    } else {
        objects_issues(objs, base_dir, (n - 1) as nat) + object_issues(
            objs[n - 1],
            named_earlier(objs, n - 1),
            base_dir,
        )
    }
}

/// Positions of the objects, among the first `n`, that convert.
pub open spec fn kept(objs: Seq<RawObject>, n: nat) -> Seq<int>
    decreases n,
{
    if n == 0 || n > objs.len() {
        Seq::empty()
    } else if core_issues(objs[n - 1]).len() == 0 {
        kept(objs, (n - 1) as nat).push(n - 1)
    } else {
        kept(objs, (n - 1) as nat)
    }
}

/// The issue of a negative duration hint.
pub open spec fn duration_issues(m: RawMeta) -> Seq<Issue> {
    if m.duration_hint matches Some(h) && spec_lt(h.value, zero()) {
        seq![invalid("meta.duration_hint"@, "duration_hint must be >= 0, got "@ + m.duration_hint.unwrap().shown@)]
    } else {
        Seq::empty()
    }
}

/// Every issue of a scene of a supported version, in the order they are
/// reported: objects, environment, end condition, duration hint, audio,
/// race.
pub open spec fn scene_issues(raw: RawScene, base_dir: Option<Seq<char>>) -> Seq<Issue> {
    objects_issues(raw.objects@, base_dir, raw.objects@.len()) + env_issues(raw.environment) + (match raw.end_condition {
        Some(c) => cond_issues(c, raw.objects@),
        None => Seq::empty(),
    }) + duration_issues(raw.meta) + scene_audio_issues(raw.audio, base_dir) + (match raw.race {
        Some(rc) => race_issues(rc),
        None => Seq::empty(),
    })
}

/// `true` when `s` is the conversion of `raw`.
pub open spec fn scene_from(s: Scene, raw: RawScene, base_dir: Option<Seq<char>>) -> bool {
    let objs = raw.objects@;
    let k = kept(objs, objs.len());
    &&& s.version == raw.version
    &&& s.meta.name == raw.meta.name
    &&& s.meta.description == raw.meta.description
    &&& s.meta.author == raw.meta.author
    &&& s.meta.duration_hint == (match raw.meta.duration_hint {
        Some(h) => Some(h.value),
        None => None,
    })
    &&& env_from(s.environment, raw.environment)
    &&& s.objects@.len() == k.len()
    &&& forall|i: int| 0 <= i < k.len() ==> object_from(#[trigger] s.objects@[i], objs[k[i]], base_dir)
    &&& match raw.end_condition {
        Some(c) => s.end_condition matches Some(v) && cond_from(v, c),
        None => s.end_condition is None,
    }
    &&& scene_audio_from(s.audio, raw.audio, base_dir)
    &&& match raw.race {
        Some(rc) => s.race matches Some(v) && race_from(v, rc),
        None => s.race is None,
    }
}

fn has_earlier_name(objs: &Vec<RawObject>, k: usize) -> (r: bool)
    requires
        k < objs@.len(),
    ensures
        r == named_earlier(objs@, k as int),
{
    let name = match &objs[k].name {
        Some(n) => n,
        None => {
            return false;
        },
    };
    let mut j: usize = 0;
    while j < k
        invariant
            0 <= j <= k < objs@.len(),
            objs@[k as int].name == Some(*name),
            forall|q: int| 0 <= q < j ==> !same_name(#[trigger] objs@[q], objs@[k as int]),
        decreases k - j,
    {
        let hit = match &objs[j].name {
            Some(m) => *m == *name,
            None => false,
        };
        if hit {
            assert(same_name(objs@[j as int], objs@[k as int]));
            return true;
        }
        j = j + 1;
    }
    false
}

/// Apply the scene rules to a scene read from YAML.
///
/// A `version` other than `"1"` is refused first.  Otherwise every
/// validation error is collected, in the order of [`scene_issues`]; when
/// there is none the validated scene is returned.  `base_dir` is the
/// directory of the scene file, against which audio paths are resolved and
/// checked; without it they are kept as written and not checked.
pub fn check_scene(raw: &RawScene, base_dir: Option<&str>) -> (r: Result<Scene, ParseError>)
    ensures
        raw.version@ != "1"@ ==> (r matches Err(ParseError::UnsupportedVersion { version }) && version == raw.version),
        raw.version@ == "1"@ && scene_issues(*raw, dir_view(base_dir)).len() > 0 ==> (r matches Err(
            ParseError::Validation(es),
        ) && issues(es@) == scene_issues(*raw, dir_view(base_dir))),
        raw.version@ == "1"@ && scene_issues(*raw, dir_view(base_dir)).len() == 0 ==> (r matches Ok(s) && scene_from(
            s,
            *raw,
            dir_view(base_dir),
        )),
{
    if !is_word(&raw.version, "1") {
        return Err(ParseError::UnsupportedVersion { version: raw.version.clone() });
    }
    let ghost objs = raw.objects@;
    let ghost base = dir_view(base_dir);
    let mut errors: Vec<ValidationError> = Vec::new();
    assert(issues(errors@) =~= Seq::<Issue>::empty());
    let mut objects: Vec<SceneObject> = Vec::new();
    let mut i: usize = 0;
    while i < raw.objects.len()
        invariant
            0 <= i <= objs.len(),
            objs == raw.objects@,
            base == dir_view(base_dir),
            issues(errors@) == objects_issues(objs, base, i as nat),
            objects@.len() == kept(objs, i as nat).len(),
            forall|q: int|
                0 <= q < objects@.len() ==> object_from(#[trigger] objects@[q], objs[kept(objs, i as nat)[q]], base),
        decreases raw.objects.len() - i,
    {
        let dup = has_earlier_name(&raw.objects, i);
        proof {
            if dup {
                let j = choose|j: int| 0 <= j < i && same_name(#[trigger] objs[j], objs[i as int]);
            }
        }
        let ghost before = objects@;
        let converted = convert_object(&raw.objects[i], dup, base_dir, &mut errors);
        match converted {
            Some(o) => {
                objects.push(o);
                proof {
                    assert forall|q: int| 0 <= q < objects@.len() implies object_from(
                        #[trigger] objects@[q],
                        objs[kept(objs, (i + 1) as nat)[q]],
                        base,
                    ) by {
                        if q < before.len() {
                            assert(objects@[q] == before[q]);
                        }
                    }
                }
            },
            None => {},
        }
        assert(issues(errors@) =~= objects_issues(objs, base, (i + 1) as nat));
        i = i + 1;
    }
    let environment = convert_environment(&raw.environment, &mut errors);
    let end_condition = match &raw.end_condition {
        Some(c) => convert_end_condition(c, &raw.objects, &mut errors),
        None => None,
    };
    if let Some(h) = &raw.meta.duration_hint {
        if h.value.lt(&Scalar::zero()) {
            let msg = cat("duration_hint must be >= 0, got ", h.shown.as_str());
            push_error(&mut errors, invalid_value("meta.duration_hint", msg));
        }
    }
    let audio = convert_scene_audio(&raw.audio, base_dir, &mut errors);
    let race = match &raw.race {
        Some(rc) => convert_race_config(rc, &mut errors),
        None => None,
    };
    assert(issues(errors@) =~= scene_issues(*raw, base));
    if errors.len() > 0 {
        return Err(ParseError::Validation(errors));
    }
    let environment = match environment {
        Some(e) => e,
        None => {
            return Err(ParseError::Validation(errors));
        },
    };
    let duration_hint = match &raw.meta.duration_hint {
        Some(h) => Some(h.value),
        None => None,
    };
    assert(objs.len() == raw.objects@.len());
    Ok(
        Scene {
            version: raw.version.clone(),
            meta: SceneMeta {
                name: raw.meta.name.clone(),
                description: copy_option_string(&raw.meta.description),
                author: copy_option_string(&raw.meta.author),
                duration_hint,
            },
            environment,
            objects,
            end_condition,
            audio,
            race,
        },
    )
}

// ── Blank input ──────────────────────────────────────────────────────────────

/// Unicode `White_Space` characters, which `str::trim` removes.
pub open spec fn is_white_space(c: char) -> bool {
    let v = c as u32;
    (0x09 <= v <= 0x0d) || v == 0x20 || v == 0x85 || v == 0xa0 || v == 0x1680 || (0x2000 <= v <= 0x200a)
        || v == 0x2028 || v == 0x2029 || v == 0x202f || v == 0x205f || v == 0x3000
}

/// `true` when the text is empty or only white space.
pub open spec fn blank(s: Seq<char>) -> bool {
    forall|i: int| 0 <= i < s.len() ==> is_white_space(#[trigger] s[i])
}

/// Whether a scene text is empty or only white space (nothing to simulate).
pub fn is_blank(s: &str) -> (r: bool)
    ensures
        r == blank(s@),
{
    let n = s.unicode_len();
    let mut i: usize = 0;
    while i < n
        invariant
            0 <= i <= n,
            n == s@.len(),
            forall|j: int| 0 <= j < i ==> is_white_space(#[trigger] s@[j]),
        decreases n - i,
    {
        let c = s.get_char(i);
        let v = c as u32;
        let white = (0x09 <= v && v <= 0x0d) || v == 0x20 || v == 0x85 || v == 0xa0 || v == 0x1680 || (0x2000
            <= v && v <= 0x200a) || v == 0x2028 || v == 0x2029 || v == 0x202f || v == 0x205f || v == 0x3000;
        if !white {
            return false;
        }
        i = i + 1;
    }
    true
}


/// Absent fields of a material take the documented defaults — restitution
/// 0.5, friction 0.5, density 1.0 — given fields are kept, and a material
/// the validator accepts never has a density at or below zero.
pub proof fn law_material_defaults(m: Option<RawMaterial>, dn: Seq<char>)
    ensures
        (m is None || m->0.restitution is None) ==> material_of(m).restitution == (Scalar { bits: 0x3f00_0000 }),
        (m is None || m->0.friction is None) ==> material_of(m).friction == (Scalar { bits: 0x3f00_0000 }),
        (m is None || m->0.density is None) ==> material_of(m).density == (Scalar { bits: 0x3f80_0000 }),
        (m is Some && m->0.restitution is Some) ==> material_of(m).restitution == m->0.restitution->0.value,
        (m is Some && m->0.friction is Some) ==> material_of(m).friction == m->0.friction->0.value,
        (m is Some && m->0.density is Some) ==> material_of(m).density == m->0.density->0.value,
        (m is None || material_issues(m->0, dn).len() == 0) ==> !spec_le(material_of(m).density, Scalar { bits: 0 }),
{
    if m is Some {
        let mm = m->0;
        if material_issues(mm, dn).len() == 0 && mm.density is Some {
            let d = mm.density->0;
            if spec_le(d.value, zero()) {
                assert(material_issues(mm, dn).len() >= 1);
            }
        }
    }
}

} // verus!
