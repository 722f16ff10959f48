use rphys::color::Color;
use rphys::physics::{BodyId, BodySnapshot};
use rphys::race::{RaceEvent, RaceLedger};
use rphys::scalar::Scalar;

fn s(v: f32) -> Scalar {
    Scalar { bits: v.to_bits() }
}

fn body(id: u32, name: Option<&str>, tag: &str, y: f32, color: Color) -> BodySnapshot {
    BodySnapshot {
        id: BodyId(id),
        name: name.map(|n| n.to_string()),
        tags: vec![tag.to_string()],
        position_y: s(y),
        color,
        is_alive: true,
    }
}

fn racer(id: u32, name: &str, y: f32, color: Color) -> BodySnapshot {
    body(id, Some(name), "racer", y, color)
}

fn ledger(bodies: &Vec<BodySnapshot>, finish_y: f32, checkpoints: Vec<f32>) -> RaceLedger {
    RaceLedger::new("racer".to_string(), s(finish_y), checkpoints.into_iter().map(s).collect(), bodies)
}

/// Let every body fall `dy` metres.
fn fall(bodies: &mut Vec<BodySnapshot>, dy: f32) {
    for b in bodies.iter_mut() {
        b.position_y = s(f32::from_bits(b.position_y.bits) - dy);
    }
}

/// Run the ledger from `t0` in steps of `dt`, falling `dy` per step, with an
/// elimination round every `interval` seconds (if any), until `t_end`.
fn run(
    l: &mut RaceLedger,
    bodies: &mut Vec<BodySnapshot>,
    dt: f32,
    dy: f32,
    interval: Option<f32>,
    t_end: f32,
) -> Vec<RaceEvent> {
    let mut all = Vec::new();
    let mut t = 0.0f32;
    let mut next = interval.unwrap_or(f32::MAX);
    while t < t_end {
        t += dt;
        fall(bodies, dy);
        let due = interval.is_some() && t >= next;
        if due {
            next += interval.unwrap();
        }
        all.extend(l.step(s(t), bodies, due));
        if l.state.winner.is_some() {
            break;
        }
    }
    all
}

#[test]
fn test_racers_identified_by_tag() {
    let bodies = vec![
        racer(0, "Red", 30.0, Color::rgb(255, 0, 0)),
        racer(1, "Blue", 30.0, Color::rgb(0, 0, 255)),
        body(2, Some("Spec"), "spectator", 20.0, Color::white()),
    ];
    let l = ledger(&bodies, 2.0, vec![]);
    let active = &l.state.active;
    assert_eq!(active.len(), 2, "expected 2 active racers, got {}", active.len());
    let names: Vec<&str> = active.iter().map(|r| r.display_name.as_str()).collect();
    assert!(names.contains(&"Red"), "Red should be in active racers");
    assert!(names.contains(&"Blue"), "Blue should be in active racers");
    assert!(!names.contains(&"Spec"), "Spec should not be a racer");
}

#[test]
fn test_unnamed_racer_gets_fallback_name() {
    let bodies = vec![body(0, None, "racer", 30.0, Color::rgb(255, 0, 0))];
    let l = ledger(&bodies, 2.0, vec![]);
    assert_eq!(l.state.active.len(), 1);
    assert!(
        l.state.active[0].display_name.starts_with("Racer "),
        "unnamed racer should get fallback name, got: {}",
        l.state.active[0].display_name
    );
}

#[test]
fn test_ranks_update_as_balls_fall() {
    let mut bodies = vec![racer(0, "Red", 35.0, Color::rgb(255, 0, 0)), racer(1, "Blue", 25.0, Color::rgb(0, 0, 255))];
    let mut l = ledger(&bodies, 2.0, vec![]);
    run(&mut l, &mut bodies, 0.05, 0.05, None, 0.1);
    let active = &l.state.active;
    assert!(!active.is_empty(), "should have active racers");
    let mut sorted_by_rank: Vec<_> = active.iter().collect();
    sorted_by_rank.sort_by_key(|r| r.rank);
    if sorted_by_rank.len() >= 2 {
        assert!(f32::from_bits(sorted_by_rank[0].position_y.bits) <= f32::from_bits(sorted_by_rank[1].position_y.bits));
    }
    let blue_status = active.iter().find(|r| r.display_name == "Blue").unwrap();
    assert_eq!(blue_status.rank, 1, "Blue (lower start Y) should be rank 1 initially");
}

#[test]
fn test_race_complete_fires_on_first_finisher() {
    let mut bodies = vec![racer(0, "Fast", 3.0, Color::rgb(0, 255, 0)), racer(1, "Slow", 35.0, Color::rgb(255, 0, 0))];
    let mut l = ledger(&bodies, 2.0, vec![]);
    let events = run(&mut l, &mut bodies, 0.1, 0.25, None, 10.0);
    assert!(events.iter().any(|e| matches!(e, RaceEvent::RaceComplete { .. })), "expected RaceComplete event");
    assert!(l.state.winner.is_some(), "tracker should report race complete");
}

#[test]
fn test_winner_info_correct_name_and_color() {
    let winning_color = Color::rgb(0, 200, 100);
    let mut bodies = vec![racer(0, "Champion", 3.0, winning_color), racer(1, "Loser", 38.0, Color::rgb(255, 0, 0))];
    let mut l = ledger(&bodies, 2.0, vec![]);
    run(&mut l, &mut bodies, 0.1, 0.25, None, 10.0);
    let winner = l.state.winner.as_ref().expect("race should have completed");
    assert_eq!(winner.display_name, "Champion", "winner should be Champion, got: {}", winner.display_name);
    assert_eq!(winner.color, winning_color, "winner color should match scene object color");
    assert!(f32::from_bits(winner.finish_time_secs.bits) > 0.0, "finish time should be positive");
}

#[test]
fn test_checkpoint_events_fire() {
    let mut bodies = vec![racer(0, "Runner", 30.0, Color::rgb(100, 100, 255))];
    let mut l = ledger(&bodies, 2.0, vec![20.0]);
    let events = run(&mut l, &mut bodies, 0.1, 0.5, None, 15.0);
    let checkpoint_events: Vec<&RaceEvent> =
        events.iter().filter(|e| matches!(e, RaceEvent::CheckpointCrossed { .. })).collect();
    assert!(!checkpoint_events.is_empty(), "expected at least one CheckpointCrossed event");
    if let RaceEvent::CheckpointCrossed { checkpoint_index, checkpoint_y, display_name, .. } = checkpoint_events[0] {
        assert_eq!(*checkpoint_index, 0);
        assert_eq!(f32::from_bits(checkpoint_y.bits), 20.0);
        assert_eq!(display_name, "Runner");
    } else {
        panic!("first checkpoint event has wrong type");
    }
    assert_eq!(checkpoint_events.len(), 1, "checkpoint should fire exactly once, fired {}", checkpoint_events.len());
}

#[test]
fn test_finished_racer_removed_from_active() {
    let mut bodies = vec![racer(0, "Sprinter", 3.0, Color::rgb(0, 255, 200))];
    let mut l = ledger(&bodies, 2.0, vec![]);
    run(&mut l, &mut bodies, 0.1, 0.25, None, 10.0);
    if l.state.winner.is_some() {
        assert_eq!(l.state.active.len(), 0, "finished racer should not be in active list");
        assert_eq!(l.state.finished.len(), 1, "finished racer should be in finished list");
    }
}

#[test]
fn test_elimination_last_place_removed_after_interval() {
    let mut bodies = vec![
        racer(0, "Red", 35.0, Color::rgb(255, 0, 0)),
        racer(1, "Blue", 30.0, Color::rgb(0, 0, 255)),
        racer(2, "Green", 25.0, Color::rgb(0, 200, 0)),
    ];
    let mut l = ledger(&bodies, 2.0, vec![]);
    // No gravity: nobody moves.
    let events = run(&mut l, &mut bodies, 0.25, 0.0, Some(3.0), 3.5);
    let eliminated: Vec<&RaceEvent> = events.iter().filter(|e| matches!(e, RaceEvent::RacerEliminated { .. })).collect();
    assert!(!eliminated.is_empty(), "expected at least one RacerEliminated event after 3 s");
    assert!(l.state.active.len() <= 2, "expected ≤2 active racers after elimination, got {}", l.state.active.len());
    assert!(l.state.finished.len() >= 1, "expected ≥1 in finished list after elimination");
}

#[test]
fn test_eliminated_racer_moves_to_finished() {
    let mut bodies = vec![racer(0, "Red", 35.0, Color::rgb(255, 0, 0)), racer(1, "Blue", 25.0, Color::rgb(0, 0, 255))];
    let mut l = ledger(&bodies, 2.0, vec![]);
    assert_eq!(l.state.active.len(), 2, "should start with 2 active racers");
    assert_eq!(l.state.finished.len(), 0, "should start with 0 finished");
    let events = run(&mut l, &mut bodies, 0.25, 0.0, Some(3.0), 4.0);
    assert!(events.iter().any(|e| matches!(e, RaceEvent::RacerEliminated { .. })), "expected an elimination to occur");
    assert!(l.state.finished.len() >= 1, "eliminated racer should be in finished list");
    assert_eq!(l.state.active.len() + l.state.finished.len(), 2, "total racers (active + finished) should still equal 2");
}

#[test]
fn test_no_elimination_with_single_racer() {
    let mut bodies = vec![racer(0, "Solo", 25.0, Color::rgb(200, 100, 0))];
    let mut l = ledger(&bodies, -100.0, vec![]);
    let events = run(&mut l, &mut bodies, 0.25, 0.1, Some(1.0), 5.0);
    let n = events.iter().filter(|e| matches!(e, RaceEvent::RacerEliminated { .. })).count();
    assert_eq!(n, 0, "should never eliminate when only 1 racer remains, but got {n} events");
}

#[test]
fn test_next_elimination_time_advances() {
    let mut bodies = vec![
        racer(0, "Red", 38.0, Color::rgb(255, 0, 0)),
        racer(1, "Blue", 30.0, Color::rgb(0, 0, 255)),
        racer(2, "Green", 20.0, Color::rgb(0, 200, 0)),
        racer(3, "Yellow", 10.0, Color::rgb(255, 220, 0)),
    ];
    let mut l = ledger(&bodies, -100.0, vec![]);
    let events = run(&mut l, &mut bodies, 0.25, 0.0, Some(2.0), 5.0);
    let mut elimination_count = 0usize;
    for e in &events {
        if let RaceEvent::RacerEliminated { elimination_number, .. } = e {
            elimination_count += 1;
            assert_eq!(*elimination_number, elimination_count, "elimination_number should be 1-based and match count");
        }
    }
    assert!(elimination_count >= 2, "expected ≥2 eliminations with 2s interval over 5s, got {elimination_count}");
}
