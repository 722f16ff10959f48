use rphys::conditions::{extract_time_limit, find_body_by_name, is_outside_bounds, BodyRecord, EndConditionMonitor};
use rphys::physics::{normalise_pair, BodyId, CompletionReason};
use rphys::scalar::Scalar;
use rphys::scene::{EndCondition, Vec2, WorldBounds};

fn s(v: f32) -> Scalar {
    Scalar { bits: v.to_bits() }
}

fn bounds() -> WorldBounds {
    WorldBounds { width: s(20.0), height: s(30.0) }
}

fn body(id: u32, name: Option<&str>, tags: &[&str], alive: bool, x: f32, y: f32) -> BodyRecord {
    BodyRecord {
        id: BodyId(id),
        name: name.map(|n| n.to_string()),
        tags: tags.iter().map(|t| t.to_string()).collect(),
        alive,
        position: Vec2 { x: s(x), y: s(y) },
    }
}

#[test]
fn time_limit_fires_at_the_limit() {
    let cond = EndCondition::TimeLimit { seconds: s(2.0) };
    let m = EndConditionMonitor::new(None);
    assert!(m.evaluate(&cond, s(1.99), &vec![], bounds()).is_none());
    assert!(matches!(m.evaluate(&cond, s(2.0), &vec![], bounds()), Some(CompletionReason::TimeLimitReached)));
    assert!(m.evaluate(&cond, s(f32::NAN), &vec![], bounds()).is_none());
}

#[test]
fn all_tagged_destroyed_needs_one_tagged_body_and_none_alive() {
    let cond = EndCondition::AllTaggedDestroyed { tag: "target".to_string() };
    let m = EndConditionMonitor::new(None);
    let alive = vec![body(0, None, &["target"], true, 1.0, 1.0), body(1, None, &["target"], false, 1.0, 1.0)];
    assert!(m.evaluate(&cond, s(0.0), &alive, bounds()).is_none());
    let gone = vec![body(0, None, &["target"], false, 1.0, 1.0), body(1, None, &["other"], true, 1.0, 1.0)];
    match m.evaluate(&cond, s(0.0), &gone, bounds()) {
        Some(CompletionReason::AllTaggedDestroyed { tag }) => assert_eq!(tag, "target"),
        other => panic!("unexpected {other:?}"),
    }
    let none_tagged = vec![body(0, None, &["other"], false, 1.0, 1.0)];
    assert!(m.evaluate(&cond, s(0.0), &none_tagged, bounds()).is_none());
}

#[test]
fn object_escaped_when_alive_and_outside() {
    let cond = EndCondition::ObjectEscaped { name: "ball".to_string() };
    let m = EndConditionMonitor::new(None);
    let inside = vec![body(0, Some("ball"), &[], true, 20.0, 30.0)];
    assert!(m.evaluate(&cond, s(0.0), &inside, bounds()).is_none());
    let out = vec![body(0, Some("ball"), &[], true, 20.5, 3.0)];
    assert!(matches!(m.evaluate(&cond, s(0.0), &out, bounds()), Some(CompletionReason::ObjectEscaped { .. })));
    let dead = vec![body(0, Some("ball"), &[], false, -5.0, 3.0)];
    assert!(m.evaluate(&cond, s(0.0), &dead, bounds()).is_none());
}

#[test]
fn bounds_test_uses_float_ordering() {
    assert!(!is_outside_bounds(Vec2 { x: s(-0.0), y: s(0.0) }, bounds()));
    assert!(is_outside_bounds(Vec2 { x: s(-0.001), y: s(0.0) }, bounds()));
    assert!(!is_outside_bounds(Vec2 { x: s(f32::NAN), y: s(f32::NAN) }, bounds()));
}

#[test]
fn objects_collided_uses_recorded_pairs() {
    let cond = EndCondition::ObjectsCollided { name_a: "a".to_string(), name_b: "b".to_string() };
    let bodies = vec![body(3, Some("a"), &[], true, 1.0, 1.0), body(1, Some("b"), &[], true, 1.0, 1.0)];
    let mut m = EndConditionMonitor::new(Some(cond));
    assert!(m.check(s(0.1), &bodies, bounds()).is_none());
    m.record_collision(BodyId(3), BodyId(1));
    m.record_collision(BodyId(1), BodyId(3));
    assert_eq!(m.collisions.len(), 1);
    assert_eq!(m.collisions[0], (BodyId(1), BodyId(3)));
    match m.check(s(0.2), &bodies, bounds()) {
        Some(CompletionReason::ObjectsCollided { name_a, name_b }) => {
            assert_eq!(name_a, "a");
            assert_eq!(name_b, "b");
        }
        other => panic!("unexpected {other:?}"),
    }
    assert!(m.complete);
    // Completion is reported once.
    assert!(m.check(s(0.3), &bodies, bounds()).is_none());
}

#[test]
fn tags_collided_either_way_round() {
    let cond = EndCondition::TagsCollided { tag_a: "red".to_string(), tag_b: "blue".to_string() };
    let bodies = vec![body(0, None, &["blue"], true, 1.0, 1.0), body(1, None, &["red"], true, 1.0, 1.0)];
    let mut m = EndConditionMonitor::new(None);
    assert!(m.evaluate(&cond, s(0.0), &bodies, bounds()).is_none());
    m.record_collision(BodyId(0), BodyId(1));
    assert!(matches!(m.evaluate(&cond, s(0.0), &bodies, bounds()), Some(CompletionReason::TagsCollided { .. })));
}

#[test]
fn and_needs_every_part_and_reports_the_last() {
    let cond = EndCondition::And {
        conditions: vec![
            EndCondition::TimeLimit { seconds: s(1.0) },
            EndCondition::AllTaggedDestroyed { tag: "t".to_string() },
        ],
    };
    let m = EndConditionMonitor::new(None);
    let gone = vec![body(0, None, &["t"], false, 0.0, 0.0)];
    assert!(m.evaluate(&cond, s(0.5), &gone, bounds()).is_none());
    assert!(matches!(m.evaluate(&cond, s(1.5), &gone, bounds()), Some(CompletionReason::AllTaggedDestroyed { .. })));
    let empty = EndCondition::And { conditions: vec![] };
    assert!(m.evaluate(&empty, s(100.0), &gone, bounds()).is_none());
}

#[test]
fn or_reports_the_first_part_met() {
    let cond = EndCondition::Or {
        conditions: vec![
            EndCondition::FirstToReach { finish_y: s(0.0), tag: "racer".to_string() },
            EndCondition::AllTaggedDestroyed { tag: "t".to_string() },
            EndCondition::TimeLimit { seconds: s(1.0) },
        ],
    };
    let m = EndConditionMonitor::new(None);
    let gone = vec![body(0, None, &["t"], false, 0.0, 0.0)];
    assert!(matches!(m.evaluate(&cond, s(1.5), &gone, bounds()), Some(CompletionReason::AllTaggedDestroyed { .. })));
    assert!(matches!(m.evaluate(&cond, s(1.5), &vec![], bounds()), Some(CompletionReason::TimeLimitReached)));
    assert!(m.evaluate(&cond, s(0.5), &vec![], bounds()).is_none());
}

#[test]
fn time_limit_is_found_depth_first() {
    let cond = EndCondition::Or {
        conditions: vec![
            EndCondition::AllTaggedDestroyed { tag: "t".to_string() },
            EndCondition::And {
                conditions: vec![EndCondition::TimeLimit { seconds: s(7.0) }],
            },
            EndCondition::TimeLimit { seconds: s(3.0) },
        ],
    };
    assert_eq!(extract_time_limit(&cond).map(|x| x.bits), Some(7.0f32.to_bits()));
    assert!(extract_time_limit(&EndCondition::ObjectEscaped { name: "x".to_string() }).is_none());
}

#[test]
fn name_lookup_takes_the_first_body() {
    let bodies = vec![body(5, Some("x"), &[], true, 0.0, 0.0), body(2, Some("x"), &[], true, 0.0, 0.0)];
    assert_eq!(find_body_by_name(&bodies, &"x".to_string()), Some(BodyId(5)));
    assert_eq!(find_body_by_name(&bodies, &"y".to_string()), None);
    assert_eq!(normalise_pair(BodyId(9), BodyId(2)), (BodyId(2), BodyId(9)));
}
