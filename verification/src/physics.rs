//! Identifiers, snapshots and outcomes of the physics simulation.
use vstd::prelude::*;
use vstd::string::*;
use crate::color::Color;
use crate::scalar::Scalar;
use crate::scene::{BodyType, ObjectAudio};

verus! {

/// Stable identifier for a simulated body.
#[derive(Clone, Copy, Debug, PartialEq, Eq, Hash, Structural)]
pub struct BodyId(pub u32);

/// What the standings and end-condition logic read of one body at a point
/// in physics time.
#[derive(Clone, Debug)]
pub struct BodySnapshot {
    /// Stable identifier.
    pub id: BodyId,
    /// Name from the scene object, if any.
    pub name: Option<String>,
    /// Tags from the scene object.
    pub tags: Vec<String>,
    /// Current world-space Y position (meters, Y-up).
    pub position_y: Scalar,
    /// Fill color.
    pub color: Color,
    /// `true` while the body is still in the simulation.
    pub is_alive: bool,
}

/// Stable metadata of a body, valid for its whole lifetime.
#[derive(Clone, Debug)]
pub struct BodyInfo {
    /// Name from the scene object, if any.
    pub name: Option<String>,
    /// Tags from the scene object.
    pub tags: Vec<String>,
    /// Per-object sound files.
    pub audio: ObjectAudio,
}

/// Reason a simulation reached its end condition.
#[derive(Clone, Debug)]
pub enum CompletionReason {
    /// The time limit was reached.
    TimeLimitReached,
    /// All objects with the given tag were destroyed.
    AllTaggedDestroyed { tag: String },
    /// The named object escaped outside the world bounds.
    ObjectEscaped { name: String },
    /// Two named objects collided.
    ObjectsCollided { name_a: String, name_b: String },
    /// An object with `tag_a` collided with an object with `tag_b`.
    TagsCollided { tag_a: String, tag_b: String },
    /// The first body to reach a tagged zone won the race.
    FirstToReach { tag: String, winner_body: BodyId, winner_name: Option<String> },
}

/// Errors produced by the physics engine.
#[derive(Clone, Debug)]
pub enum PhysicsError {
    /// World construction failed.
    BuildFailed(String),
    /// A physics step failed.
    StepFailed(String),
}

/// How a physics error reads.
pub open spec fn physics_error_text(e: PhysicsError) -> Seq<char> {
    match e {
        PhysicsError::BuildFailed(m) => "Failed to build physics world: "@ + m@,
        PhysicsError::StepFailed(m) => "Physics step failed: "@ + m@,
    }
}

impl PhysicsError {
    /// The error's text, as it is shown to the user.
    pub fn message(&self) -> (m: String)
        ensures
            m@ == physics_error_text(*self),
    {
        match self {
            PhysicsError::BuildFailed(s) => {
                let mut m = String::from_str("Failed to build physics world: ");
                m.append(s.as_str());
                m
            },
            PhysicsError::StepFailed(s) => {
                let mut m = String::from_str("Physics step failed: ");
                m.append(s.as_str());
                m
            },
        }
    }
}

/// `true` when some tag in `tags` equals `tag`.
pub open spec fn has_tag(tags: Seq<String>, tag: Seq<char>) -> bool {
    exists|i: int| 0 <= i < tags.len() && (#[trigger] tags[i])@ == tag
}

/// Whether `tags` contains `tag`.
pub fn tags_contain(tags: &Vec<String>, tag: &String) -> (r: bool)
    ensures
        r == has_tag(tags@, tag@),
{
    let mut i: usize = 0;
    while i < tags.len()
        invariant
            0 <= i <= tags@.len(),
            forall|j: int| 0 <= j < i ==> (#[trigger] tags@[j])@ != tag@,
        decreases tags.len() - i,
    {
        if tags[i] == *tag {
            return true;
        }
        i = i + 1;
    }
    false
}

/// `true` when `s` is `+0.0` or `-0.0`.
pub open spec fn is_zero_scalar(s: Scalar) -> bool {
    s.bits == 0 || s.bits == 0x8000_0000
}

/// How a scene object is simulated: a static body that spins (its angular
/// velocity is not zero; NaN counts as not zero) moves as a kinematic body,
/// since a fixed body ignores its angular velocity.
pub open spec fn simulated_body_type(body_type: BodyType, angular_velocity: Scalar) -> BodyType {
    if body_type == BodyType::Static && !is_zero_scalar(angular_velocity) {
        BodyType::Kinematic
    } else {
        body_type
    }
}

/// The body type the simulation gives a scene object.
pub fn effective_body_type(body_type: BodyType, angular_velocity: Scalar) -> (r: BodyType)
    ensures
        r == simulated_body_type(body_type, angular_velocity),
{
    let spins = angular_velocity.bits != 0 && angular_velocity.bits != 0x8000_0000;
    match body_type {
        BodyType::Static => if spins {
            BodyType::Kinematic
        } else {
            BodyType::Static
        },
        BodyType::Dynamic => BodyType::Dynamic,
        BodyType::Kinematic => BodyType::Kinematic,
    }
}

/// A contact that started during a physics step, as the step reads it: for
/// each of the two colliders, whether it is a boundary wall and which body
/// it belongs to (none for a wall or a removed body), and the summed
/// contact impulse.
#[derive(Clone, Copy, Debug)]
pub struct ContactReport {
    pub wall_1: bool,
    pub wall_2: bool,
    pub body_1: Option<BodyId>,
    pub body_2: Option<BodyId>,
    pub impulse: Scalar,
}

/// What a started contact reports.
#[derive(Clone, Copy, Debug)]
pub enum ContactEvent {
    /// A body hit a boundary wall.
    WallBounce { body: BodyId, impulse: Scalar },
    /// Two bodies started touching.
    Collision { body_a: BodyId, body_b: BodyId, impulse: Scalar },
}

/// The event of one started contact: a wall contact bounces the other
/// collider's body, a contact of two bodies is a collision; contacts whose
/// bodies are gone report nothing.
pub open spec fn contact_event(c: ContactReport) -> Option<ContactEvent> {
    if c.wall_1 || c.wall_2 {
        match (if c.wall_1 { c.body_2 } else { c.body_1 }) {
            Some(b) => Some(ContactEvent::WallBounce { body: b, impulse: c.impulse }),
            None => None,
        }
    } else {
        match (c.body_1, c.body_2) {
            (Some(a), Some(b)) => Some(ContactEvent::Collision { body_a: a, body_b: b, impulse: c.impulse }),
            _ => None,
        }
    }
}

/// The events of a step's started contacts, in order.
pub open spec fn contact_events(cs: Seq<ContactReport>) -> Seq<ContactEvent>
    decreases cs.len(),
{
    if cs.len() == 0 {
        Seq::empty()
    } else {
        let rest = contact_events(cs.drop_last());
        match contact_event(cs.last()) {
            Some(e) => rest.push(e),
            None => rest,
        }
    }
}

/// Turn a step's started contacts into wall bounces and collisions.
pub fn route_contacts(contacts: &Vec<ContactReport>) -> (r: Vec<ContactEvent>)
    ensures
        r@ == contact_events(contacts@),
{
    let mut out: Vec<ContactEvent> = Vec::new();
    let mut i: usize = 0;
    while i < contacts.len()
        invariant
            0 <= i <= contacts@.len(),
            out@ == contact_events(contacts@.take(i as int)),
        decreases contacts.len() - i,
    {
        let c = contacts[i];
        proof {
            assert(contacts@.take(i + 1).drop_last() =~= contacts@.take(i as int));
            assert(contacts@.take(i + 1).last() == c);
        }
        if c.wall_1 || c.wall_2 {
            let other = if c.wall_1 {
                c.body_2
            } else {
                c.body_1
            };
            if let Some(b) = other {
                out.push(ContactEvent::WallBounce { body: b, impulse: c.impulse });
            }
        } else {
            match (c.body_1, c.body_2) {
                (Some(a), Some(b)) => {
                    out.push(ContactEvent::Collision { body_a: a, body_b: b, impulse: c.impulse });
                },
                _ => {},
            }
        }
        i = i + 1;
    }
    assert(contacts@.take(contacts@.len() as int) =~= contacts@);
    out
}

/// A collider that a contact force above its threshold touched during a
/// step: its body (none when gone) and whether that body is destructible.
#[derive(Clone, Copy, Debug)]
pub struct ForceHit {
    pub body: Option<BodyId>,
    pub breakable: bool,
}

/// The destructible bodies a step's force hits break, each once, in the
/// order they were first hit.
pub open spec fn broken_bodies(hits: Seq<ForceHit>) -> Seq<BodyId>
    decreases hits.len(),
{
    if hits.len() == 0 {
        Seq::empty()
    } else {
        let rest = broken_bodies(hits.drop_last());
        match hits.last().body {
            Some(b) => if hits.last().breakable && !rest.contains(b) {
                rest.push(b)
            } else {
                rest
            },
            None => rest,
        }
    }
}

/// Which bodies to remove after a step: the destructible bodies that a
/// contact force broke, each listed once.
pub fn bodies_to_destroy(hits: &Vec<ForceHit>) -> (r: Vec<BodyId>)
    ensures
        r@ == broken_bodies(hits@),
        r@.no_duplicates(),
        forall|b: BodyId|
            r@.contains(b) <==> exists|i: int|
                0 <= i < hits@.len() && (#[trigger] hits@[i]).body == Some(b) && hits@[i].breakable,
{
    let mut out: Vec<BodyId> = Vec::new();
    let mut i: usize = 0;
    while i < hits.len()
        invariant
            0 <= i <= hits@.len(),
            out@ == broken_bodies(hits@.take(i as int)),
        decreases hits.len() - i,
    {
        let h = hits[i];
        proof {
            assert(hits@.take(i + 1).drop_last() =~= hits@.take(i as int));
            assert(hits@.take(i + 1).last() == h);
        }
        if let Some(b) = h.body {
            if h.breakable && !contains_body(&out, b) {
                out.push(b);
            }
        }
        i = i + 1;
    }
    assert(hits@.take(hits@.len() as int) =~= hits@);
    proof {
        lemma_broken_bodies(hits@);
    }
    out
}

fn contains_body(v: &Vec<BodyId>, b: BodyId) -> (r: bool)
    ensures
        r == v@.contains(b),
{
    let mut i: usize = 0;
    while i < v.len()
        invariant
            0 <= i <= v@.len(),
            forall|j: int| 0 <= j < i ==> v@[j] != b,
        decreases v.len() - i,
    {
        if v[i].0 == b.0 {
            assert(v@[i as int] == b);
            return true;
        }
        i = i + 1;
    }
    false
}

/// The broken bodies are distinct, and are exactly the bodies some
/// breakable hit names.
proof fn lemma_broken_bodies(hits: Seq<ForceHit>)
    ensures
        broken_bodies(hits).no_duplicates(),
        forall|b: BodyId|
            broken_bodies(hits).contains(b) <==> exists|i: int|
                0 <= i < hits.len() && (#[trigger] hits[i]).body == Some(b) && hits[i].breakable,
    decreases hits.len(),
{
    if hits.len() > 0 {
        let init = hits.drop_last();
        lemma_broken_bodies(init);
        let rest = broken_bodies(init);
        let h = hits.last();
        let all = broken_bodies(hits);
        assert(forall|i: int| 0 <= i < init.len() ==> init[i] == hits[i]);
        assert(hits[hits.len() - 1] == h);
        assert forall|b: BodyId|
            all.contains(b) <==> exists|i: int|
                0 <= i < hits.len() && (#[trigger] hits[i]).body == Some(b) && hits[i].breakable by {
            let pushed = h.body == Some(b) && h.breakable;
            if all.contains(b) {
                if rest.contains(b) {
                    let i = choose|i: int| 0 <= i < init.len() && (#[trigger] init[i]).body == Some(b) && init[i].breakable;
                    assert(hits[i] == init[i]);
                } else {
                    assert(all != rest);
                    assert(all == rest.push(h.body->0));
                    let k = choose|k: int| 0 <= k < all.len() && all[k] == b;
                    if k < rest.len() {
                        assert(rest[k] == all[k]);
                        assert(rest.contains(b));
                    }
                    assert(pushed);
                }
            }
            if exists|i: int| 0 <= i < hits.len() && (#[trigger] hits[i]).body == Some(b) && hits[i].breakable {
                let i = choose|i: int| 0 <= i < hits.len() && (#[trigger] hits[i]).body == Some(b) && hits[i].breakable;
                if i < hits.len() - 1 {
                    assert(init[i] == hits[i]);
                    assert(rest.contains(b));
                    assert(all == rest || all == rest.push(h.body->0));
                    let k = choose|k: int| 0 <= k < rest.len() && rest[k] == b;
                    assert(all[k] == b);
                } else {
                    assert(pushed);
                    if !rest.contains(b) {
                        assert(all == rest.push(b));
                        assert(all[rest.len() as int] == b);
                    } else {
                        assert(all == rest);
                    }
                }
            }
        }
    }
}

/// A contact that touches during a physics step, as the boost rule reads
/// it: for each collider its body (none for a wall or a removed body),
/// whether that body is a boost pad, and whether it is a dynamic body still
/// in the world.
#[derive(Clone, Copy, Debug)]
pub struct PadContact {
    pub body_1: Option<BodyId>,
    pub body_2: Option<BodyId>,
    pub pad_1: bool,
    pub pad_2: bool,
    pub movable_1: bool,
    pub movable_2: bool,
}

/// The boost a touching pair gives, as `(pad, boosted body)`: a boost pad
/// pushes a dynamic body it touches; the first collider is tried as the pad
/// first.
pub open spec fn pad_boost(c: PadContact) -> Option<(BodyId, BodyId)> {
    match (c.body_1, c.body_2) {
        (Some(a), Some(b)) => if c.pad_1 && c.movable_2 {
            Some((a, b))
        } else if c.pad_2 && c.movable_1 {
            Some((b, a))
        } else {
            None
        },
        _ => None,
    }
}

/// The boosts of a step's touching pairs, in order.
pub open spec fn pad_boosts(cs: Seq<PadContact>) -> Seq<(BodyId, BodyId)>
    decreases cs.len(),
{
    if cs.len() == 0 {
        Seq::empty()
    } else {
        let rest = pad_boosts(cs.drop_last());
        match pad_boost(cs.last()) {
            Some(p) => rest.push(p),
            None => rest,
        }
    }
}

/// Which boost pads push which bodies this step, as `(pad, boosted body)`
/// pairs, one per touching pair.
pub fn boosts_to_apply(contacts: &Vec<PadContact>) -> (r: Vec<(BodyId, BodyId)>)
    ensures
        r@ == pad_boosts(contacts@),
{
    let mut out: Vec<(BodyId, BodyId)> = Vec::new();
    let mut i: usize = 0;
    while i < contacts.len()
        invariant
            0 <= i <= contacts@.len(),
            out@ == pad_boosts(contacts@.take(i as int)),
        decreases contacts.len() - i,
    {
        let c = contacts[i];
        proof {
            assert(contacts@.take(i + 1).drop_last() =~= contacts@.take(i as int));
            assert(contacts@.take(i + 1).last() == c);
        }
        match (c.body_1, c.body_2) {
            (Some(a), Some(b)) => {
                if c.pad_1 && c.movable_2 {
                    out.push((a, b));
                } else if c.pad_2 && c.movable_1 {
                    out.push((b, a));
                }
            },
            _ => {},
        }
        i = i + 1;
    }
    assert(contacts@.take(contacts@.len() as int) =~= contacts@);
    out
}

/// Return a normalised pair so `(a, b)` and `(b, a)` map to the same value.
pub fn normalise_pair(a: BodyId, b: BodyId) -> (r: (BodyId, BodyId))
    ensures
        r == (if a.0 <= b.0 { (a, b) } else { (b, a) }),
{
    if a.0 <= b.0 {
        (a, b)
    } else {
        (b, a)
    }
}

} // verus!
