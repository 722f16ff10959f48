use rphys::physics::{
    bodies_to_destroy, boosts_to_apply, effective_body_type, route_contacts, PadContact, BodyId, ContactEvent, ContactReport,
    ForceHit,
};
use rphys::scalar::Scalar;
use rphys::scene::BodyType;

fn s(v: f32) -> Scalar {
    Scalar { bits: v.to_bits() }
}

#[test]
fn spinning_static_bodies_become_kinematic() {
    assert_eq!(effective_body_type(BodyType::Static, s(3.14)), BodyType::Kinematic);
    assert_eq!(effective_body_type(BodyType::Static, s(-1.0)), BodyType::Kinematic);
    assert_eq!(effective_body_type(BodyType::Static, s(0.0)), BodyType::Static);
    assert_eq!(effective_body_type(BodyType::Static, s(-0.0)), BodyType::Static);
    assert_eq!(effective_body_type(BodyType::Static, s(f32::NAN)), BodyType::Kinematic);
    assert_eq!(effective_body_type(BodyType::Dynamic, s(2.0)), BodyType::Dynamic);
    assert_eq!(effective_body_type(BodyType::Kinematic, s(0.0)), BodyType::Kinematic);
}

fn contact(wall_1: bool, wall_2: bool, body_1: Option<u32>, body_2: Option<u32>, impulse: f32) -> ContactReport {
    ContactReport { wall_1, wall_2, body_1: body_1.map(BodyId), body_2: body_2.map(BodyId), impulse: s(impulse) }
}

#[test]
fn contacts_become_wall_bounces_and_collisions() {
    let contacts = vec![
        contact(true, false, None, Some(4), 1.5),
        contact(false, false, Some(1), Some(2), 2.0),
        contact(false, true, Some(7), None, 0.5),
        contact(false, false, Some(3), None, 9.0),
        contact(true, true, None, None, 1.0),
    ];
    let events = route_contacts(&contacts);
    assert_eq!(events.len(), 3);
    match events[0] {
        ContactEvent::WallBounce { body, impulse } => {
            assert_eq!(body, BodyId(4));
            assert_eq!(impulse.bits, 1.5f32.to_bits());
        }
        _ => panic!("expected a wall bounce"),
    }
    match events[1] {
        ContactEvent::Collision { body_a, body_b, impulse } => {
            assert_eq!((body_a, body_b), (BodyId(1), BodyId(2)));
            assert_eq!(impulse.bits, 2.0f32.to_bits());
        }
        _ => panic!("expected a collision"),
    }
    match events[2] {
        ContactEvent::WallBounce { body, .. } => assert_eq!(body, BodyId(7)),
        _ => panic!("expected a wall bounce"),
    }
}

#[test]
fn broken_bodies_are_listed_once_in_first_hit_order() {
    let hits = vec![
        ForceHit { body: Some(BodyId(5)), breakable: true },
        ForceHit { body: Some(BodyId(2)), breakable: false },
        ForceHit { body: None, breakable: true },
        ForceHit { body: Some(BodyId(3)), breakable: true },
        ForceHit { body: Some(BodyId(5)), breakable: true },
    ];
    assert_eq!(bodies_to_destroy(&hits), vec![BodyId(5), BodyId(3)]);
    assert!(bodies_to_destroy(&Vec::new()).is_empty());
}

#[test]
fn boost_pads_push_dynamic_bodies_they_touch() {
    let pair = |a: Option<u32>, b: Option<u32>, pad_1, pad_2, movable_1, movable_2| PadContact {
        body_1: a.map(BodyId),
        body_2: b.map(BodyId),
        pad_1,
        pad_2,
        movable_1,
        movable_2,
    };
    let contacts = vec![
        pair(Some(1), Some(2), true, false, false, true),
        pair(Some(3), Some(4), false, true, true, false),
        pair(Some(5), Some(6), true, false, false, false),
        pair(Some(7), None, true, false, false, true),
        pair(Some(8), Some(9), true, true, true, true),
    ];
    assert_eq!(
        boosts_to_apply(&contacts),
        vec![(BodyId(1), BodyId(2)), (BodyId(4), BodyId(3)), (BodyId(8), BodyId(9))]
    );
}
