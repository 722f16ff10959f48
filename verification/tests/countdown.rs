use rphys::countdown::{CountdownClock, CountdownEvent, CountdownManager, CountdownState};
use rphys::scalar::Scalar;

/// Advance the manager by `dt` seconds the way a caller keeping an f32 clock does.
fn step(m: &mut CountdownManager, dt: f32) -> Option<CountdownEvent> {
    let elapsed = f32::from_bits(m.elapsed_secs().bits) + dt;
    let total = m.total_secs as f32;
    let clock = CountdownClock {
        elapsed_secs: Scalar { bits: elapsed.to_bits() },
        whole_secs: elapsed.floor() as u32,
        reached_total: elapsed >= total,
        go_finished: elapsed >= total + 0.5,
    };
    m.step(clock)
}

#[test]
fn countdown_manager_new_disabled() {
    let mgr = CountdownManager::new(0);
    assert!(matches!(mgr.state(), CountdownState::Complete));
    assert!(!mgr.is_active());
}

#[test]
fn countdown_manager_new_enabled() {
    let mgr = CountdownManager::new(3);
    assert!(matches!(mgr.state(), CountdownState::Inactive));
    assert!(mgr.is_active());
}

#[test]
fn step_disabled_returns_none() {
    let mut mgr = CountdownManager::new(0);
    assert_eq!(step(&mut mgr, 1.0 / 60.0), None);
    assert!(!mgr.is_active());
}

#[test]
fn step_generates_correct_tick_numbers() {
    let mut mgr = CountdownManager::new(3);
    assert_eq!(step(&mut mgr, 0.0), Some(CountdownEvent::Tick { number: 3 }));
    assert_eq!(step(&mut mgr, 1.0), Some(CountdownEvent::Tick { number: 2 }));
    assert_eq!(step(&mut mgr, 1.0), Some(CountdownEvent::Tick { number: 1 }));
}

#[test]
fn go_display_after_counting() {
    let mut mgr = CountdownManager::new(3);
    step(&mut mgr, 0.0);
    step(&mut mgr, 1.0);
    step(&mut mgr, 1.0);
    let event = step(&mut mgr, 1.0);
    assert_eq!(event, Some(CountdownEvent::Go));
    assert!(matches!(mgr.state(), CountdownState::Go { .. }));
    assert!(mgr.is_active());
}

#[test]
fn go_display_lasts_half_second() {
    let mut mgr = CountdownManager::new(3);
    step(&mut mgr, 0.0);
    step(&mut mgr, 1.0);
    step(&mut mgr, 1.0);
    step(&mut mgr, 1.0);
    let event = step(&mut mgr, 0.4);
    assert_eq!(event, None);
    assert!(mgr.is_active());
    let event = step(&mut mgr, 0.2);
    assert_eq!(event, Some(CountdownEvent::Complete));
    assert!(!mgr.is_active());
    assert!(matches!(mgr.state(), CountdownState::Complete));
}

#[test]
fn countdown_complete_after_total_duration() {
    let mut mgr = CountdownManager::new(3);
    let mut events = Vec::new();
    let dt = 1.0 / 60.0;
    for _ in 0..300 {
        if let Some(event) = step(&mut mgr, dt) {
            events.push(event);
        }
        if !mgr.is_active() {
            break;
        }
    }
    assert!(!mgr.is_active());
    assert_eq!(events.len(), 5);
    assert_eq!(events[0], CountdownEvent::Tick { number: 3 });
    assert_eq!(events[1], CountdownEvent::Tick { number: 2 });
    assert_eq!(events[2], CountdownEvent::Tick { number: 1 });
    assert_eq!(events[3], CountdownEvent::Go);
    assert_eq!(events[4], CountdownEvent::Complete);
}

#[test]
fn is_active_reflects_state() {
    let mut mgr = CountdownManager::new(1);
    assert!(mgr.is_active());
    step(&mut mgr, 0.0);
    assert!(mgr.is_active());
    step(&mut mgr, 1.0);
    assert!(mgr.is_active());
    step(&mut mgr, 0.6);
    assert!(!mgr.is_active());
}

#[test]
fn elapsed_secs_tracks_time() {
    let mut mgr = CountdownManager::new(3);
    assert_eq!(f32::from_bits(mgr.elapsed_secs().bits), 0.0);
    step(&mut mgr, 0.0);
    step(&mut mgr, 1.5);
    let elapsed = f32::from_bits(mgr.elapsed_secs().bits);
    assert!((elapsed - 1.5).abs() < 0.01);
}

#[test]
fn display_text_returns_correct_values() {
    let mut mgr = CountdownManager::new(3);
    assert_eq!(mgr.display_text(), None);
    step(&mut mgr, 0.0);
    assert_eq!(mgr.display_text(), Some("3"));
    step(&mut mgr, 1.0);
    assert_eq!(mgr.display_text(), Some("2"));
    step(&mut mgr, 1.0);
    assert_eq!(mgr.display_text(), Some("1"));
    step(&mut mgr, 1.0);
    assert_eq!(mgr.display_text(), Some("GO!"));
    step(&mut mgr, 0.6);
    assert_eq!(mgr.display_text(), None);
}

#[test]
fn reset_restores_initial_state() {
    let mut mgr = CountdownManager::new(3);
    step(&mut mgr, 0.0);
    step(&mut mgr, 1.0);
    mgr.reset();
    assert!(matches!(mgr.state(), CountdownState::Inactive));
    assert!(mgr.is_active());
}

#[test]
fn reset_disabled_stays_complete() {
    let mut mgr = CountdownManager::new(0);
    mgr.reset();
    assert!(matches!(mgr.state(), CountdownState::Complete));
    assert!(!mgr.is_active());
}

#[test]
fn single_second_countdown() {
    let mut mgr = CountdownManager::new(1);
    let mut events = Vec::new();
    let dt = 1.0 / 60.0;
    for _ in 0..200 {
        if let Some(event) = step(&mut mgr, dt) {
            events.push(event);
        }
        if !mgr.is_active() {
            break;
        }
    }
    assert_eq!(events.len(), 3);
    assert_eq!(events[0], CountdownEvent::Tick { number: 1 });
    assert_eq!(events[1], CountdownEvent::Go);
    assert_eq!(events[2], CountdownEvent::Complete);
}

#[test]
fn no_duplicate_ticks_within_same_second() {
    let mut mgr = CountdownManager::new(3);
    let dt = 1.0 / 60.0;
    let event = step(&mut mgr, 0.0);
    assert!(matches!(event, Some(CountdownEvent::Tick { number: 3 })));
    let mut extra_ticks = 0;
    for _ in 0..50 {
        if let Some(CountdownEvent::Tick { .. }) = step(&mut mgr, dt) {
            extra_ticks += 1;
        }
    }
    assert_eq!(extra_ticks, 0, "should not emit duplicate ticks");
}

#[test]
fn go_then_complete_after_half_a_second() {
    let mut m = CountdownManager::new(1);
    assert_eq!(step(&mut m, 0.0), Some(CountdownEvent::Tick { number: 1 }));
    assert_eq!(step(&mut m, 0.5), None);
    assert_eq!(step(&mut m, 0.5), Some(CountdownEvent::Go));
    assert_eq!(m.display_text(), Some("GO!"));
    assert_eq!(step(&mut m, 0.25), None);
    assert!(m.is_active());
    assert_eq!(step(&mut m, 0.25), Some(CountdownEvent::Complete));
    assert!(!m.is_active());
    assert_eq!(m.display_text(), None);
    assert_eq!(m.elapsed_secs().bits, 0);
}

#[test]
fn display_text_follows_the_ticks() {
    let mut m = CountdownManager::new(12);
    assert_eq!(m.display_text(), None);
    step(&mut m, 0.0);
    assert_eq!(m.display_text(), Some("..."));
    step(&mut m, 3.5);
    assert_eq!(m.display_text(), Some("9"));
    step(&mut m, 8.0);
    assert_eq!(m.display_text(), Some("1"));
}

#[test]
fn a_full_run_emits_each_event_once_with_falling_ticks() {
    let mut m = CountdownManager::new(3);
    let mut events = Vec::new();
    for _ in 0..300 {
        if let Some(e) = step(&mut m, 1.0 / 60.0) {
            events.push(e);
        }
    }
    assert_eq!(
        events,
        vec![
            CountdownEvent::Tick { number: 3 },
            CountdownEvent::Tick { number: 2 },
            CountdownEvent::Tick { number: 1 },
            CountdownEvent::Go,
            CountdownEvent::Complete,
        ]
    );
}
