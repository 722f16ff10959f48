use rphys::color::Color;
use rphys::effects::{EffectAction, EffectPlanner, EffectSwitches, ImpactEvent, PopSite, SparkKind, SparkSite};
use rphys::physics::BodyId;
use rphys::race::{RaceEvent, WinnerInfo};
use rphys::scalar::Scalar;
use rphys::scene::Vec2;

fn switches() -> EffectSwitches {
    EffectSwitches {
        max_particles: 20,
        impact_sparks: true,
        impact_count: 8,
        boost_flash: true,
        elimination_burst: true,
        elimination_count: 30,
        winner_pop: true,
        winner_count: 10,
    }
}

fn winner(id: u32) -> RaceEvent {
    RaceEvent::RaceComplete {
        winner: WinnerInfo {
            body_id: BodyId(id),
            display_name: "W".to_string(),
            color: Color::rgb(1, 2, 3),
            finish_time_secs: Scalar { bits: 0 },
        },
    }
}

#[test]
fn collision_sparks_once_per_pair_per_frame() {
    let mut p = EffectPlanner::new(switches());
    p.begin_frame(vec![(BodyId(1), Color::rgb(10, 0, 0)), (BodyId(2), Color::rgb(0, 20, 0))]);
    let ev = vec![
        ImpactEvent::Collision { body_a: BodyId(1), body_b: BodyId(2) },
        ImpactEvent::Collision { body_a: BodyId(2), body_b: BodyId(1) },
    ];
    let acts = p.feed_events(&ev, &vec![], 0);
    assert_eq!(acts.len(), 1);
    match acts[0] {
        EffectAction::Sparks { kind, site: SparkSite::Midpoint { a, b }, color, count } => {
            assert_eq!(kind, SparkKind::Impact);
            assert_eq!((a, b), (BodyId(1), BodyId(2)));
            assert_eq!(color, Color::rgb(0, 20, 0));
            assert_eq!(count, 8);
        }
        other => panic!("unexpected {other:?}"),
    }
    // A new frame forgets the pair.
    p.begin_frame(vec![(BodyId(1), Color::rgb(10, 0, 0))]);
    let acts = p.feed_events(&ev[..1].to_vec(), &vec![], 0);
    assert!(matches!(acts[0], EffectAction::Sparks { site: SparkSite::Body { body }, color, .. } if body == BodyId(1) && color == Color::rgb(10, 0, 0)));
}

#[test]
fn budget_cuts_bursts() {
    let mut p = EffectPlanner::new(switches());
    p.begin_frame(vec![(BodyId(1), Color::rgb(10, 0, 0))]);
    let ev = vec![
        ImpactEvent::BumperActivated { contact_point: Vec2 { x: Scalar { bits: 0 }, y: Scalar { bits: 0 } } },
        ImpactEvent::BumperActivated { contact_point: Vec2 { x: Scalar { bits: 0 }, y: Scalar { bits: 0 } } },
    ];
    let acts = p.feed_events(&ev, &vec![], 10);
    let counts: Vec<usize> = acts
        .iter()
        .map(|a| match a {
            EffectAction::Sparks { count, color, .. } => {
                assert_eq!(*color, Color::rgb(255, 200, 100));
                *count
            }
            _ => panic!(),
        })
        .collect();
    assert_eq!(counts, vec![8, 2]);
    // Over budget already: nothing is added.
    let acts = p.feed_events(&ev, &vec![], 25);
    assert!(acts.iter().all(|a| matches!(a, EffectAction::Sparks { count: 0, .. })));
}

#[test]
fn flashes_follow_sparks_and_winner_pop_fires_once() {
    let mut p = EffectPlanner::new(switches());
    let elim = RaceEvent::RacerEliminated {
        body_id: BodyId(1),
        display_name: "A".to_string(),
        rank_at_elimination: 2,
        elimination_number: 1,
    };
    // Before any frame the finish line is unknown: the pop goes to the winner.
    let race = vec![elim, winner(1)];
    let mut q = EffectPlanner::new(switches());
    q.known = vec![(BodyId(1), Color::rgb(9, 9, 9))];
    let acts = q.feed_events(&vec![ImpactEvent::BoostActivated { body: BodyId(1) }], &race, 0);
    assert_eq!(acts.len(), 3);
    assert!(matches!(acts[0], EffectAction::Sparks { kind: SparkKind::Elimination, count: 20, .. }));
    assert!(matches!(acts[1], EffectAction::Flash { body } if body == BodyId(1)));
    assert!(matches!(acts[2], EffectAction::WinnerPop { site: PopSite::Body { .. }, count: 0, .. }));
    p.begin_frame(vec![]);
    let acts = p.feed_events(&vec![], &vec![winner(4)], 0);
    assert!(matches!(acts[0], EffectAction::WinnerPop { site: PopSite::FinishLine, winner, winner_color, count: 10 } if winner == BodyId(4) && winner_color == Color::rgb(1, 2, 3)));
    assert!(p.winner_pop_fired);
    let again = p.feed_events(&vec![], &vec![winner(4)], 0);
    assert!(again.is_empty());
}

#[test]
fn disabled_effects_do_nothing() {
    let mut sw = switches();
    sw.impact_sparks = false;
    sw.boost_flash = false;
    sw.winner_pop = false;
    let mut p = EffectPlanner::new(sw);
    p.begin_frame(vec![(BodyId(1), Color::rgb(1, 1, 1)), (BodyId(2), Color::rgb(2, 2, 2))]);
    let acts = p.feed_events(
        &vec![
            ImpactEvent::Collision { body_a: BodyId(1), body_b: BodyId(2) },
            ImpactEvent::BoostActivated { body: BodyId(1) },
            ImpactEvent::Other,
        ],
        &vec![winner(1)],
        0,
    );
    assert!(acts.is_empty());
    assert!(p.pairs_this_frame.is_empty());
}

#[test]
fn a_frame_with_sparks_and_winner_pop_stays_within_budget() {
    let mut p = EffectPlanner::new(switches());
    p.begin_frame(vec![(BodyId(1), Color::rgb(10, 0, 0)), (BodyId(2), Color::rgb(0, 20, 0))]);
    let ev = vec![ImpactEvent::Collision { body_a: BodyId(1), body_b: BodyId(2) }];
    let live = 5;
    let acts = p.feed_events(&ev, &vec![winner(1)], live);
    let spawned: usize = acts
        .iter()
        .map(|a| match a {
            EffectAction::Sparks { count, .. } => *count,
            EffectAction::WinnerPop { count, .. } => *count,
            EffectAction::Flash { .. } => 0,
        })
        .sum();
    // 8 sparks fit, then the pop is cut from 10 to the 7 left.
    assert_eq!(spawned, 15);
    assert_eq!(live + spawned, 20);
    assert!(matches!(acts.last(), Some(EffectAction::WinnerPop { count: 7, .. })));
}
