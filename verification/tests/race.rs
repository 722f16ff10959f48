use rphys::color::Color;
use rphys::physics::{BodyId, BodySnapshot, PhysicsError};
use rphys::race::{RaceError, RaceEvent, RaceLedger};
use rphys::scalar::Scalar;

fn s(v: f32) -> Scalar {
    Scalar { bits: v.to_bits() }
}

fn snap(id: u32, name: Option<&str>, tag: &str, y: f32, alive: bool) -> BodySnapshot {
    BodySnapshot {
        id: BodyId(id),
        name: name.map(|n| n.to_string()),
        tags: vec![tag.to_string()],
        position_y: s(y),
        color: Color::rgb(id as u8, 0, 0),
        is_alive: alive,
    }
}

fn ledger(bodies: &Vec<BodySnapshot>, checkpoints: Vec<f32>) -> RaceLedger {
    RaceLedger::new("racer".to_string(), s(0.0), checkpoints.into_iter().map(s).collect(), bodies)
}

#[test]
fn racers_identified_by_tag_with_fallback_names() {
    let bodies = vec![
        snap(0, Some("Red"), "racer", 10.0, true),
        snap(1, None, "racer", 10.0, true),
        snap(2, Some("Wall"), "wall", 10.0, true),
    ];
    let l = ledger(&bodies, vec![]);
    assert_eq!(l.racers.len(), 2);
    assert_eq!(l.racers[0].display_name, "Red");
    assert_eq!(l.racers[1].display_name, "Racer 1");
    assert_eq!(l.state.active.len(), 2);
    assert_eq!(l.state.active[0].rank, 1);
    assert_eq!(l.state.active[1].rank, 2);
    assert!(l.state.winner.is_none());
}

#[test]
fn new_ledger_ranks_racers_by_height() {
    let bodies = vec![snap(0, Some("High"), "racer", 5.0, true), snap(1, Some("Low"), "racer", 1.0, true)];
    let l = ledger(&bodies, vec![]);
    assert_eq!(l.state.active[0].body_id, BodyId(1));
    assert_eq!(l.state.active[0].rank, 1);
    assert_eq!(l.state.active[1].body_id, BodyId(0));
    assert_eq!(l.state.active[1].rank, 2);
}

#[test]
fn ranks_restart_at_one_after_the_leader_finishes() {
    let mut bodies = vec![
        snap(0, Some("A"), "racer", 5.0, true),
        snap(1, Some("B"), "racer", 3.0, true),
        snap(2, Some("C"), "racer", 7.0, true),
    ];
    let mut l = ledger(&bodies, vec![]);
    l.step(s(0.1), &bodies, false);
    bodies[1].position_y = s(-1.0);
    l.step(s(0.2), &bodies, false);
    assert_eq!(l.state.active.len(), 2);
    assert_eq!(l.state.active[0].body_id, BodyId(0));
    assert_eq!(l.state.active[0].rank, 1);
    assert_eq!(l.state.active[1].body_id, BodyId(2));
    assert_eq!(l.state.active[1].rank, 2);
}

#[test]
fn eliminated_racers_place_last_and_finishers_first() {
    let mut bodies = vec![
        snap(0, Some("A"), "racer", 5.0, true),
        snap(1, Some("B"), "racer", 9.0, true),
        snap(2, Some("C"), "racer", 7.0, true),
    ];
    let mut l = ledger(&bodies, vec![]);
    l.step(s(1.0), &bodies, true);
    assert_eq!(l.state.finished[0].body_id, BodyId(1));
    assert_eq!(l.state.finished[0].finish_rank, 3);
    l.step(s(2.0), &bodies, true);
    assert_eq!(l.state.finished[1].body_id, BodyId(2));
    assert_eq!(l.state.finished[1].finish_rank, 2);
    bodies[0].position_y = s(-1.0);
    let ev = l.step(s(3.0), &bodies, false);
    assert!(ev.iter().any(|e| matches!(e, RaceEvent::RacerFinished { finish_rank: 1, .. })));
    assert_eq!(l.state.finished[2].finish_rank, 1);
    assert_eq!(l.state.winner.as_ref().unwrap().body_id, BodyId(0));
}

#[test]
fn checkpoints_in_any_order_are_each_credited_once() {
    let mut bodies = vec![snap(0, Some("A"), "racer", 20.0, true)];
    // The second checkpoint is the higher one, so it is reached first.
    let mut l = ledger(&bodies, vec![10.0, 15.0]);
    l.step(s(0.1), &bodies, false);
    bodies[0].position_y = s(12.0);
    let crossed = |ev: &Vec<RaceEvent>| -> Vec<usize> {
        ev.iter()
            .filter_map(|e| match e {
                RaceEvent::CheckpointCrossed { checkpoint_index, .. } => Some(*checkpoint_index),
                _ => None,
            })
            .collect()
    };
    let ev = l.step(s(0.2), &bodies, false);
    assert_eq!(crossed(&ev), vec![1]);
    bodies[0].position_y = s(9.0);
    let ev = l.step(s(0.3), &bodies, false);
    assert_eq!(crossed(&ev), vec![0]);
    assert_eq!(l.racers[0].last_checkpoint, Some(0));
    let ev = l.step(s(0.4), &bodies, false);
    assert!(crossed(&ev).is_empty());
    assert_eq!(l.credited, vec![(BodyId(0), 1), (BodyId(0), 0)]);
}

#[test]
fn ranks_follow_height_and_changes_are_reported() {
    let mut bodies = vec![snap(0, Some("A"), "racer", 10.0, true), snap(1, Some("B"), "racer", 8.0, true)];
    let mut l = ledger(&bodies, vec![]);
    let ev = l.step(s(0.1), &bodies, false);
    match &ev[0] {
        RaceEvent::RankChanged { new_rankings } => {
            assert_eq!(new_rankings, &vec![(BodyId(1), 1), (BodyId(0), 2)])
        }
        other => panic!("unexpected {other:?}"),
    }
    assert_eq!(l.state.active[0].body_id, BodyId(1));
    assert_eq!(l.state.active[0].rank, 1);
    // Same order again: no event.
    let ev = l.step(s(0.2), &bodies, false);
    assert!(ev.is_empty());
    // Overtake.
    bodies[0].position_y = s(5.0);
    let ev = l.step(s(0.3), &bodies, false);
    assert!(matches!(&ev[0], RaceEvent::RankChanged { new_rankings } if new_rankings[0] == (BodyId(0), 1)));
}

#[test]
fn equal_heights_keep_snapshot_order() {
    let bodies = vec![snap(4, None, "racer", 3.0, true), snap(2, None, "racer", 3.0, true)];
    let mut l = ledger(&bodies, vec![]);
    l.step(s(0.1), &bodies, false);
    assert_eq!(l.previous_rankings, vec![BodyId(4), BodyId(2)]);
}

#[test]
fn checkpoints_are_credited_once_in_order() {
    let mut bodies = vec![snap(0, Some("A"), "racer", 20.0, true)];
    let mut l = ledger(&bodies, vec![15.0, 10.0]);
    let ev = l.step(s(0.1), &bodies, false);
    assert_eq!(ev.len(), 1); // rank change only
    bodies[0].position_y = s(9.0);
    let ev = l.step(s(0.2), &bodies, false);
    let crossed: Vec<usize> = ev
        .iter()
        .filter_map(|e| match e {
            RaceEvent::CheckpointCrossed { checkpoint_index, rank_at_crossing, .. } => {
                assert_eq!(*rank_at_crossing, 1);
                Some(*checkpoint_index)
            }
            _ => None,
        })
        .collect();
    assert_eq!(crossed, vec![0, 1]);
    assert_eq!(l.racers[0].last_checkpoint, Some(1));
    let ev = l.step(s(0.3), &bodies, false);
    assert!(ev.is_empty());
}

#[test]
fn first_finisher_wins_and_leaves_the_active_list() {
    let mut bodies = vec![snap(0, Some("A"), "racer", 5.0, true), snap(1, Some("B"), "racer", 3.0, true)];
    let mut l = ledger(&bodies, vec![]);
    l.step(s(0.1), &bodies, false);
    bodies[1].position_y = s(-0.5);
    let ev = l.step(s(1.5), &bodies, false);
    assert!(ev.iter().any(|e| matches!(e, RaceEvent::RacerFinished { body_id, finish_rank: 1, .. } if *body_id == BodyId(1))));
    let complete: Vec<_> = ev
        .iter()
        .filter_map(|e| match e {
            RaceEvent::RaceComplete { winner } => Some(winner),
            _ => None,
        })
        .collect();
    assert_eq!(complete.len(), 1);
    assert_eq!(complete[0].display_name, "B");
    assert_eq!(complete[0].color, Color::rgb(1, 0, 0));
    assert_eq!(complete[0].finish_time_secs.bits, 1.5f32.to_bits());
    assert_eq!(l.state.active.len(), 1);
    assert_eq!(l.state.active[0].body_id, BodyId(0));
    assert_eq!(l.state.finished.len(), 1);
    // A later finisher does not replace the winner.
    bodies[0].position_y = s(0.0);
    let ev = l.step(s(2.0), &bodies, false);
    assert!(!ev.iter().any(|e| matches!(e, RaceEvent::RaceComplete { .. })));
    assert_eq!(l.state.winner.as_ref().unwrap().body_id, BodyId(1));
    assert_eq!(l.state.finished[1].finish_rank, 2);
}

#[test]
fn elimination_removes_last_place() {
    let bodies = vec![
        snap(0, Some("A"), "racer", 5.0, true),
        snap(1, Some("B"), "racer", 9.0, true),
        snap(2, Some("C"), "racer", 7.0, true),
    ];
    let mut l = ledger(&bodies, vec![]);
    let ev = l.step(s(3.0), &bodies, true);
    match ev.last().unwrap() {
        RaceEvent::RacerEliminated { body_id, display_name, rank_at_elimination, elimination_number } => {
            assert_eq!(*body_id, BodyId(1));
            assert_eq!(display_name, "B");
            assert_eq!(*rank_at_elimination, 3);
            assert_eq!(*elimination_number, 1);
        }
        other => panic!("unexpected {other:?}"),
    }
    assert_eq!(l.elimination_count, 1);
    assert_eq!(l.finished_ids, vec![BodyId(1)]);
    assert!(l.state.active.iter().all(|r| r.body_id != BodyId(1)));
    assert!(l.state.winner.is_none());
}

#[test]
fn no_elimination_with_single_racer() {
    let bodies = vec![snap(0, Some("A"), "racer", 5.0, true)];
    let mut l = ledger(&bodies, vec![]);
    let ev = l.step(s(3.0), &bodies, true);
    assert!(!ev.iter().any(|e| matches!(e, RaceEvent::RacerEliminated { .. })));
    assert_eq!(l.elimination_count, 0);
}

#[test]
fn race_error_messages() {
    assert_eq!(RaceError::NoRaceConfig.message(), "Scene has no race configuration (missing 'race:' section)");
    assert_eq!(
        RaceError::Physics(PhysicsError::StepFailed("x".to_string())).message(),
        "Physics error: Physics step failed: x"
    );
}

#[test]
fn race_complete_is_announced_exactly_once_over_a_run() {
    let mut bodies = vec![snap(0, Some("A"), "racer", 4.0, true), snap(1, Some("B"), "racer", 6.0, true)];
    let mut l = ledger(&bodies, vec![]);
    let mut completes = 0;
    for step in 0..10 {
        bodies[0].position_y = s(4.0 - step as f32);
        bodies[1].position_y = s(6.0 - step as f32);
        let ev = l.step(s(step as f32 * 0.1), &bodies, false);
        completes += ev.iter().filter(|e| matches!(e, RaceEvent::RaceComplete { .. })).count();
    }
    assert_eq!(completes, 1);
    assert_eq!(l.state.winner.as_ref().unwrap().body_id, BodyId(0));
    assert_eq!(l.state.finished.iter().map(|f| f.finish_rank).collect::<Vec<_>>(), vec![1, 2]);
}
