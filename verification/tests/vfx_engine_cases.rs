use rphys::color::Color;
use rphys::effects::{EffectAction, EffectPlanner, EffectSwitches, ImpactEvent};
use rphys::physics::BodyId;
use rphys::race::{RaceEvent, WinnerInfo};
use rphys::scalar::Scalar;

fn nothing_enabled(max_particles: usize) -> EffectSwitches {
    EffectSwitches {
        max_particles,
        impact_sparks: false,
        impact_count: 0,
        boost_flash: false,
        elimination_burst: false,
        elimination_count: 0,
        winner_pop: false,
        winner_count: 0,
    }
}

fn impact_switches() -> EffectSwitches {
    EffectSwitches { impact_sparks: true, impact_count: 8, ..nothing_enabled(500) }
}

fn collision(a: u32, b: u32) -> ImpactEvent {
    ImpactEvent::Collision { body_a: BodyId(a), body_b: BodyId(b) }
}

fn known(ids: &[u32]) -> Vec<(BodyId, Color)> {
    ids.iter().map(|&i| (BodyId(i), Color::rgb(255, 0, 0))).collect()
}

/// Particles the actions spawn.
fn spawned(actions: &[EffectAction]) -> usize {
    actions
        .iter()
        .map(|a| match a {
            EffectAction::Sparks { count, .. } => *count,
            EffectAction::WinnerPop { count, .. } => *count,
            EffectAction::Flash { .. } => 0,
        })
        .sum()
}

fn flashes(actions: &[EffectAction]) -> usize {
    actions.iter().filter(|a| matches!(a, EffectAction::Flash { .. })).count()
}

#[test]
fn test_engine_emits_sparks_on_collision() {
    let mut engine = EffectPlanner::new(impact_switches());
    engine.begin_frame(known(&[0, 1]));
    let acts = engine.feed_events(&vec![collision(0, 1)], &vec![], 0);
    assert_eq!(spawned(&acts), 8, "should emit config.count particles");
}

#[test]
fn test_engine_collision_dedup_per_frame() {
    let mut engine = EffectPlanner::new(impact_switches());
    engine.begin_frame(known(&[0, 1]));
    let acts = engine.feed_events(&vec![collision(0, 1), collision(0, 1)], &vec![], 0);
    assert_eq!(spawned(&acts), 8, "duplicate pair should be deduped");
}

#[test]
fn test_winner_pop_fires_once_only() {
    let mut engine = EffectPlanner::new(EffectSwitches { winner_pop: true, winner_count: 20, ..nothing_enabled(500) });
    engine.begin_frame(known(&[0]));
    let winner = || WinnerInfo {
        body_id: BodyId(0),
        display_name: "Red".to_string(),
        color: Color::rgb(255, 0, 0),
        finish_time_secs: Scalar { bits: 1.0f32.to_bits() },
    };
    let first = engine.feed_events(&vec![], &vec![RaceEvent::RaceComplete { winner: winner() }], 0);
    let count_after_first = spawned(&first);
    assert_eq!(count_after_first, 20);
    engine.begin_frame(known(&[0]));
    let second = engine.feed_events(&vec![], &vec![RaceEvent::RaceComplete { winner: winner() }], count_after_first);
    assert_eq!(count_after_first + spawned(&second), count_after_first, "winner pop must fire at most once");
}

#[test]
fn test_boost_flash_created_on_boost_event() {
    let mut engine = EffectPlanner::new(EffectSwitches { boost_flash: true, ..nothing_enabled(500) });
    engine.begin_frame(known(&[3]));
    let acts = engine.feed_events(&vec![ImpactEvent::BoostActivated { body: BodyId(3) }], &vec![], 0);
    assert_eq!(flashes(&acts), 1, "boost flash should be created");
}

#[test]
fn test_elimination_burst_emits_particles() {
    let mut engine =
        EffectPlanner::new(EffectSwitches { elimination_burst: true, elimination_count: 15, ..nothing_enabled(500) });
    engine.begin_frame(known(&[7]));
    let acts = engine.feed_events(
        &vec![],
        &vec![RaceEvent::RacerEliminated {
            body_id: BodyId(7),
            display_name: "Green".to_string(),
            rank_at_elimination: 5,
            elimination_number: 1,
        }],
        0,
    );
    assert_eq!(spawned(&acts), 15);
}

#[test]
fn test_max_particles_cap() {
    let mut engine =
        EffectPlanner::new(EffectSwitches { impact_sparks: true, impact_count: 100, ..nothing_enabled(5) });
    engine.begin_frame(known(&[0, 1]));
    let acts = engine.feed_events(&vec![collision(0, 1)], &vec![], 0);
    assert!(spawned(&acts) <= 5, "particle count {} must not exceed max_particles 5", spawned(&acts));
}
