//! Pre-race countdown state machine ("3… 2… 1… GO!").
//!
//! During the countdown physics is frozen and the countdown text is shown
//! instead.  The caller keeps the clock: each frame it adds the frame time
//! to [`CountdownManager::elapsed_secs`] and hands the manager the new
//! reading ([`CountdownClock`]); the manager decides the transitions.
use vstd::prelude::*;
use crate::scalar::Scalar;

verus! {

/// State of the pre-race countdown.
#[derive(Clone, Copy, Debug)]
pub enum CountdownState {
    /// The countdown has not started.
    Inactive,
    /// Numbers are displayed (e.g. 3, 2, 1).
    Counting { elapsed_secs: Scalar },
    /// "GO!" is displayed, for half a second after the last number.
    Go { elapsed_secs: Scalar },
    /// The countdown finished; physics may advance.
    Complete,
}

/// Events emitted on countdown transitions.
#[derive(Clone, Copy, Debug, PartialEq, Eq, Structural)]
pub enum CountdownEvent {
    /// A tick: `number` seconds remain.
    Tick { number: u32 },
    /// The "GO!" phase started.
    Go,
    /// The countdown finished; the race may begin.
    Complete,
}

/// The countdown clock after one more frame.
#[derive(Clone, Copy, Debug)]
pub struct CountdownClock {
    /// Seconds since the countdown started.
    pub elapsed_secs: Scalar,
    /// Whole seconds elapsed: `elapsed_secs` rounded down (0 for a negative
    /// or NaN reading).
    pub whole_secs: u32,
    /// Whether `elapsed_secs` reached the countdown's length.
    pub reached_total: bool,
    /// Whether `elapsed_secs` reached the end of the "GO!" phase (half a
    /// second after the countdown's length).
    pub go_finished: bool,
}

/// Drives the pre-race countdown sequence.
#[derive(Clone, Copy, Debug)]
pub struct CountdownManager {
    /// Length of the countdown in seconds; 0 disables it.
    pub total_secs: u32,
    /// Current state.
    pub state: CountdownState,
    /// The last tick number emitted, so that no tick repeats.
    pub last_emitted_tick: Option<u32>,
}

/// The tick shown `whole` whole seconds into a countdown of `total`
/// seconds: the seconds remaining, kept within `1..=total`.
pub open spec fn tick_for(total: u32, whole: u32) -> u32 {
    let t = total - whole;
    if t > total {
        total
    } else if t < 1 {
        1
    } else {
        t as u32
    }
}

/// The text of a countdown tick.
pub open spec fn tick_text(tick: u32) -> Seq<char> {
    if tick == 1 {
        "1"@
    } else if tick == 2 {
        "2"@
    } else if tick == 3 {
        "3"@
    } else if tick == 4 {
        "4"@
    } else if tick == 5 {
        "5"@
    } else if tick == 6 {
        "6"@
    } else if tick == 7 {
        "7"@
    } else if tick == 8 {
        "8"@
    } else if tick == 9 {
        "9"@
    } else {
        "..."@
    }
}

/// What one step leaves: `m2` and `ev` are the manager and the event after
/// `m` takes the clock reading `clock`.
pub open spec fn countdown_steps_to(
    m: CountdownManager,
    clock: CountdownClock,
    m2: CountdownManager,
    ev: Option<CountdownEvent>,
) -> bool {
    &&& m2.wf()
    &&& m2.total_secs == m.total_secs
    &&& match m.state {
        CountdownState::Inactive => {
            &&& m2.state == (CountdownState::Counting { elapsed_secs: Scalar { bits: 0 } })
            &&& m2.last_emitted_tick == Some(m.total_secs)
            &&& ev == Some(CountdownEvent::Tick { number: m.total_secs })
        },
        CountdownState::Counting { .. } => if clock.reached_total {
            &&& m2.state == (CountdownState::Go { elapsed_secs: clock.elapsed_secs })
            &&& m2.last_emitted_tick == m.last_emitted_tick
            &&& ev == Some(CountdownEvent::Go)
        } else {
            let tick = tick_for(m.total_secs, clock.whole_secs);
            &&& m2.state == (CountdownState::Counting { elapsed_secs: clock.elapsed_secs })
            &&& m2.last_emitted_tick == Some(tick)
            &&& ev == (if m.last_emitted_tick == Some(tick) {
                None
            } else {
                Some(CountdownEvent::Tick { number: tick })
            })
        },
        CountdownState::Go { .. } => if clock.go_finished {
            &&& m2.state is Complete
            &&& m2.last_emitted_tick == m.last_emitted_tick
            &&& ev == Some(CountdownEvent::Complete)
        } else {
            &&& m2.state == (CountdownState::Go { elapsed_secs: clock.elapsed_secs })
            &&& m2.last_emitted_tick == m.last_emitted_tick
            &&& ev is None
        },
        CountdownState::Complete => m2 == m && ev is None,
    }
}

impl CountdownManager {
    /// Consistency: a disabled countdown is complete, and while counting
    /// the last tick is the one shown.
    pub open spec fn wf(&self) -> bool {
        &&& self.total_secs == 0 ==> self.state is Complete
        &&& self.state is Counting ==> self.last_emitted_tick is Some && 1 <= self.last_emitted_tick->0
            <= self.total_secs
    }

    /// A countdown of `countdown_secs` seconds; 0 disables it (it starts
    /// complete).
    pub fn new(countdown_secs: u32) -> (m: CountdownManager)
        ensures
            m.wf(),
            m.total_secs == countdown_secs,
            m.last_emitted_tick is None,
            countdown_secs == 0 ==> m.state is Complete,
            countdown_secs > 0 ==> m.state is Inactive,
    {
        if countdown_secs == 0 {
            return CountdownManager { total_secs: 0, state: CountdownState::Complete, last_emitted_tick: None };
        }
        CountdownManager { total_secs: countdown_secs, state: CountdownState::Inactive, last_emitted_tick: None }
    }

    /// Advance the countdown to the clock reading `clock`.
    ///
    /// The first step starts counting and emits the first tick; a counting
    /// step emits a tick when the number shown changes, or `Go` once the
    /// countdown's length is reached; the "GO!" phase ends with `Complete`.
    pub fn step(&mut self, clock: CountdownClock) -> (ev: Option<CountdownEvent>)
        requires
            old(self).wf(),
            old(self).state is Counting && !clock.reached_total ==> clock.whole_secs < old(self).total_secs,
        ensures
            countdown_steps_to(*old(self), clock, *final(self), ev),
    {
        match self.state {
            CountdownState::Inactive => {
                self.state = CountdownState::Counting { elapsed_secs: Scalar::zero() };
                let tick_number = self.total_secs;
                self.last_emitted_tick = Some(tick_number);
                Some(CountdownEvent::Tick { number: tick_number })
            },
            CountdownState::Counting { .. } => {
                if clock.reached_total {
                    self.state = CountdownState::Go { elapsed_secs: clock.elapsed_secs };
                    return Some(CountdownEvent::Go);
                }
                self.state = CountdownState::Counting { elapsed_secs: clock.elapsed_secs };
                let t = self.total_secs - clock.whole_secs;
                let current_tick = if t > self.total_secs {
                    self.total_secs
                } else if t < 1 {
                    1
                } else {
                    t
                };
                if self.last_emitted_tick != Some(current_tick) {
                    self.last_emitted_tick = Some(current_tick);
                    return Some(CountdownEvent::Tick { number: current_tick });
                }
                None
            },
            CountdownState::Go { .. } => {
                if clock.go_finished {
                    self.state = CountdownState::Complete;
                    return Some(CountdownEvent::Complete);
                }
                self.state = CountdownState::Go { elapsed_secs: clock.elapsed_secs };
                None
            },
            CountdownState::Complete => None,
        }
    }

    /// The current state.
    pub fn state(&self) -> (s: CountdownState)
        ensures
            s == self.state,
    {
        self.state
    }

    /// Whether the countdown is still running (not yet complete).
    pub fn is_active(&self) -> (r: bool)
        ensures
            r == !(self.state is Complete),
    {
        !matches!(self.state, CountdownState::Complete)
    }

    /// Seconds into the countdown; `+0.0` when inactive or complete.
    pub fn elapsed_secs(&self) -> (s: Scalar)
        ensures
            s == (match self.state {
                CountdownState::Counting { elapsed_secs } => elapsed_secs,
                CountdownState::Go { elapsed_secs } => elapsed_secs,
                _ => Scalar { bits: 0 },
            }),
    {
        match self.state {
            CountdownState::Counting { elapsed_secs } => elapsed_secs,
            CountdownState::Go { elapsed_secs } => elapsed_secs,
            _ => Scalar::zero(),
        }
    }

    /// The text to display: the tick number (`"..."` above nine) while
    /// counting, `"GO!"` in the go phase, nothing otherwise.
    pub fn display_text(&self) -> (t: Option<&'static str>)
        requires
            self.wf(),
        ensures
            match self.state {
                CountdownState::Counting { .. } => t matches Some(s) && s@ == tick_text(
                    self.last_emitted_tick->0,
                ),
                CountdownState::Go { .. } => t matches Some(s) && s@ == "GO!"@,
                _ => t is None,
            },
    {
        match self.state {
            CountdownState::Counting { .. } => {
                let tick = match self.last_emitted_tick {
                    Some(t) => t,
                    None => 0,
                };
                Some(tick_str(tick))
            },
            CountdownState::Go { .. } => Some("GO!"),
            _ => None,
        }
    }

    /// Return to the initial state.
    pub fn reset(&mut self)
        ensures
            final(self).total_secs == old(self).total_secs,
            final(self).last_emitted_tick is None,
            old(self).total_secs == 0 ==> final(self).state is Complete,
            old(self).total_secs > 0 ==> final(self).state is Inactive,
            final(self).wf(),
    {
        if self.total_secs == 0 {
            self.state = CountdownState::Complete;
        } else {
            self.state = CountdownState::Inactive;
        }
        self.last_emitted_tick = None;
    }
}

/// The number shown only counts down: a later clock reading (more whole
/// seconds elapsed) never shows a larger number, so over a run of readings
/// the ticks [`CountdownManager::step`] emits (it emits one only when the
/// number changes) strictly decrease and none repeats; every number shown
/// is between 1 and the countdown's length.
pub proof fn law_ticks_count_down(total: u32, w1: u32, w2: u32)
    requires
        w1 <= w2 < total,
    ensures
        tick_for(total, w2) <= tick_for(total, w1),
        tick_for(total, w2) != tick_for(total, w1) ==> tick_for(total, w2) < tick_for(total, w1),
        1 <= tick_for(total, w2) <= total,
        tick_for(total, w1) == total - w1,
{
}

fn tick_str(tick: u32) -> (s: &'static str)
    ensures
        s@ == tick_text(tick),
{
    if tick == 1 {
        "1"
    } else if tick == 2 {
        "2"
    } else if tick == 3 {
        "3"
    } else if tick == 4 {
        "4"
    } else if tick == 5 {
        "5"
    } else if tick == 6 {
        "6"
    } else if tick == 7 {
        "7"
    } else if tick == 8 {
        "8"
    } else if tick == 9 {
        "9"
    } else {
        "..."
    }
}


/// The tick number an event announces, if it is a tick.
pub open spec fn tick_of(ev: Option<CountdownEvent>) -> Option<u32> {
    match ev {
        Some(CountdownEvent::Tick { number }) => Some(number),
        _ => None,
    }
}

/// Step `k` of a run of clock readings: manager `ms[k]` takes reading
/// `cs[k]` (as the step asks, a counting manager is handed fewer whole
/// seconds than its length until the length is reached), leaving manager
/// `ms[k + 1]` and event `evs[k]`.
pub open spec fn countdown_run_step(
    ms: Seq<CountdownManager>,
    cs: Seq<CountdownClock>,
    evs: Seq<Option<CountdownEvent>>,
    k: int,
) -> bool {
    &&& (ms[k].state is Counting && !cs[k].reached_total ==> cs[k].whole_secs < ms[k].total_secs)
    &&& countdown_steps_to(ms[k], cs[k], ms[k + 1], evs[k])
}

/// A run of clock readings: every reading is taken by one step.
pub open spec fn is_countdown_run(
    ms: Seq<CountdownManager>,
    cs: Seq<CountdownClock>,
    evs: Seq<Option<CountdownEvent>>,
) -> bool {
    &&& ms.len() == cs.len() + 1
    &&& evs.len() == cs.len()
    &&& forall|k: int| 0 <= k < cs.len() ==> #[trigger] countdown_run_step(ms, cs, evs, k)
}

/// What a manager keeps after the events `past` on the readings `wholes`
/// (whole seconds of each reading so far).
spec fn run_inv(m: CountdownManager, total: u32, past: Seq<Option<CountdownEvent>>, wholes: Seq<u32>) -> bool {
    &&& m.wf()
    &&& m.total_secs == total
    &&& forall|i: int| 0 <= i < past.len() ==> (tick_of(#[trigger] past[i]) matches Some(a) ==> 1 <= a <= total)
    &&& (m.state is Inactive ==> forall|i: int| 0 <= i < past.len() ==> (#[trigger] past[i]) is None)
    &&& (m.state is Counting ==> {
        &&& (forall|i: int|
            0 <= i < past.len() ==> ((#[trigger] past[i]) is None || (tick_of(past[i]) matches Some(a)
                && a >= m.last_emitted_tick->0)))
        &&& (forall|c: u32|
            (forall|j: int| 0 <= j < wholes.len() ==> #[trigger] wholes[j] <= c) && c < total
                ==> #[trigger] tick_for(total, c) <= m.last_emitted_tick->0)
    })
    &&& (m.state is Go ==> forall|i: int| 0 <= i < past.len() ==> (#[trigger] past[i]) != Some(CountdownEvent::Complete))
}

proof fn lemma_countdown_run(ms: Seq<CountdownManager>, cs: Seq<CountdownClock>, evs: Seq<Option<CountdownEvent>>)
    requires
        is_countdown_run(ms, cs, evs),
        ms[0].wf(),
        ms[0].last_emitted_tick is None,
        !(ms[0].state is Counting),
        !(ms[0].state is Go),
        forall|i: int, j: int| 0 <= i < j < cs.len() ==> (#[trigger] cs[i]).whole_secs <= (#[trigger] cs[j]).whole_secs,
    ensures
        run_inv(ms.last(), ms[0].total_secs, evs, cs.map_values(|c: CountdownClock| c.whole_secs)),
        forall|i: int, j: int|
            0 <= i < j < evs.len() && (#[trigger] evs[i]) is Some ==> #[trigger] evs[j] != evs[i],
        forall|i: int, j: int|
            0 <= i < j < evs.len() && tick_of(#[trigger] evs[i]) is Some && tick_of(#[trigger] evs[j]) is Some
                ==> tick_of(evs[j])->0 < tick_of(evs[i])->0,
    decreases cs.len(),
{
    let n = cs.len() as int;
    let total = ms[0].total_secs;
    if n > 0 {
        let ms0 = ms.drop_last();
        let cs0 = cs.drop_last();
        let evs0 = evs.drop_last();
        assert forall|k: int| 0 <= k < cs0.len() implies #[trigger] countdown_run_step(ms0, cs0, evs0, k) by {
            assert(countdown_run_step(ms, cs, evs, k));
            assert(ms0[k] == ms[k] && ms0[k + 1] == ms[k + 1] && cs0[k] == cs[k] && evs0[k] == evs[k]);
        }
        assert forall|i: int, j: int| 0 <= i < j < cs0.len() implies (#[trigger] cs0[i]).whole_secs
            <= (#[trigger] cs0[j]).whole_secs by {
            assert(cs0[i] == cs[i] && cs0[j] == cs[j]);
        }
        lemma_countdown_run(ms0, cs0, evs0);
        let m = ms[n - 1];
        let m2 = ms[n];
        let c = cs[n - 1];
        let ev = evs[n - 1];
        assert(ms0.last() == m);
        assert(ms0[0] == ms[0]);
        assert(countdown_run_step(ms, cs, evs, n - 1));
        let w0 = cs0.map_values(|c: CountdownClock| c.whole_secs);
        let w = cs.map_values(|c: CountdownClock| c.whole_secs);
        assert(run_inv(m, total, evs0, w0));
        assert forall|i: int| 0 <= i < n - 1 implies evs[i] == #[trigger] evs0[i] && w[i] == #[trigger] w0[i] by {
            assert(evs0[i] == evs[i]);
        }
        assert(w[n - 1] == c.whole_secs);
        // earlier readings are all at most this one
        assert forall|j: int| 0 <= j < w0.len() implies #[trigger] w0[j] <= c.whole_secs by {
            assert(w0[j] == cs[j].whole_secs);
        }
        if m.state is Counting && !c.reached_total {
            law_ticks_count_down(total, c.whole_secs, c.whole_secs);
            assert(tick_for(total, c.whole_secs) <= m.last_emitted_tick->0);
        }
        if m.state is Inactive {
            assert(ev == Some(CountdownEvent::Tick { number: total }));
        }
        // the invariant for the new manager
        assert forall|i: int| 0 <= i < evs.len() implies (tick_of(#[trigger] evs[i]) matches Some(a) ==> 1 <= a <= total) by {
            if i < n - 1 {
                assert(evs0[i] == evs[i]);
            } else if m.state is Counting && !c.reached_total {
                law_ticks_count_down(total, c.whole_secs, c.whole_secs);
            }
        }
        if m2.state is Counting {
            assert forall|cc: u32|
                (forall|j: int| 0 <= j < w.len() ==> #[trigger] w[j] <= cc) && cc < total
                    implies #[trigger] tick_for(total, cc) <= m2.last_emitted_tick->0 by {
                assert(w[n - 1] <= cc);
                if m.state is Counting {
                    law_ticks_count_down(total, c.whole_secs, cc);
                    if !(m2.last_emitted_tick == Some(tick_for(total, c.whole_secs))) {
                        assert forall|j: int| 0 <= j < w0.len() implies #[trigger] w0[j] <= cc by {
                            assert(w0[j] == w[j]);
                        }
                    }
                } else {
                    law_ticks_count_down(total, 0, cc);
                }
            }
        }
        if m2.state is Counting {
            assert forall|i: int| 0 <= i < evs.len() implies ((#[trigger] evs[i]) is None || (tick_of(evs[i]) matches Some(
                a,
            ) && a >= m2.last_emitted_tick->0)) by {
                if i < n - 1 {
                    assert(evs0[i] == evs[i]);
                }
            }
        }
        if m2.state is Go {
            assert forall|i: int| 0 <= i < evs.len() implies (#[trigger] evs[i]) != Some(CountdownEvent::Complete) by {
                if i < n - 1 {
                    assert(evs0[i] == evs[i]);
                }
            }
        }
        assert(run_inv(m2, total, evs, w));
        assert forall|i: int, j: int| 0 <= i < j < evs.len() && (#[trigger] evs[i]) is Some implies #[trigger] evs[j]
            != evs[i] by {
            if j < n - 1 {
                assert(evs0[i] == evs[i] && evs0[j] == evs[j]);
            } else {
                assert(evs0[i] == evs[i]);
            }
        }
        assert forall|i: int, j: int|
            0 <= i < j < evs.len() && tick_of(#[trigger] evs[i]) is Some && tick_of(#[trigger] evs[j]) is Some
                implies tick_of(evs[j])->0 < tick_of(evs[i])->0 by {
            if j < n - 1 {
                assert(evs0[i] == evs[i] && evs0[j] == evs[j]);
            } else {
                assert(evs0[i] == evs[i]);
            }
        }
    }
}

/// Over a whole run of clock readings from a fresh manager, with the whole
/// seconds never going back: no event is emitted twice (one "GO!", one
/// completion, no repeated tick), every tick shows fewer seconds than every
/// tick before it, and every tick lies between 1 and the countdown's
/// length.
pub proof fn law_countdown_run(ms: Seq<CountdownManager>, cs: Seq<CountdownClock>, evs: Seq<Option<CountdownEvent>>)
    requires
        is_countdown_run(ms, cs, evs),
        ms[0].wf(),
        ms[0].last_emitted_tick is None,
        !(ms[0].state is Counting),
        !(ms[0].state is Go),
        forall|i: int, j: int| 0 <= i < j < cs.len() ==> (#[trigger] cs[i]).whole_secs <= (#[trigger] cs[j]).whole_secs,
    ensures
        forall|i: int, j: int|
            0 <= i < j < evs.len() && (#[trigger] evs[i]) is Some ==> #[trigger] evs[j] != evs[i],
        forall|i: int, j: int|
            0 <= i < j < evs.len() && tick_of(#[trigger] evs[i]) is Some && tick_of(#[trigger] evs[j]) is Some
                ==> tick_of(evs[j])->0 < tick_of(evs[i])->0,
        forall|i: int|
            0 <= i < evs.len() ==> (tick_of(#[trigger] evs[i]) matches Some(a) ==> 1 <= a <= ms[0].total_secs),
{
    lemma_countdown_run(ms, cs, evs);
}

/// What the phases of a manager say of the events `past` that led to it.
spec fn order_inv(m: CountdownManager, past: Seq<Option<CountdownEvent>>) -> bool {
    &&& (forall|i: int|
        0 <= i < past.len() && (#[trigger] past[i]) == Some(CountdownEvent::Go) ==> (m.state is Go
            || m.state is Complete))
    &&& (forall|i: int|
        0 <= i < past.len() && (#[trigger] past[i]) == Some(CountdownEvent::Complete) ==> m.state is Complete)
    &&& (m.state is Counting ==> exists|i: int| 0 <= i < past.len() && tick_of(#[trigger] past[i]) is Some)
    &&& (m.state is Go ==> exists|i: int| 0 <= i < past.len() && (#[trigger] past[i]) == Some(CountdownEvent::Go))
}

proof fn lemma_countdown_order(ms: Seq<CountdownManager>, cs: Seq<CountdownClock>, evs: Seq<Option<CountdownEvent>>)
    requires
        is_countdown_run(ms, cs, evs),
        ms[0].wf(),
        !(ms[0].state is Counting),
        !(ms[0].state is Go),
    ensures
        order_inv(ms.last(), evs),
        ms.last().wf(),
        ms.last().total_secs == ms[0].total_secs,
        forall|i: int, j: int|
            0 <= i < j < evs.len() && (#[trigger] evs[i]) == Some(CountdownEvent::Go) ==> tick_of(
                #[trigger] evs[j],
            ) is None,
        forall|i: int, j: int|
            0 <= i < j < evs.len() && (#[trigger] evs[i]) == Some(CountdownEvent::Complete) ==> (
            #[trigger] evs[j]) is None,
        forall|j: int|
            0 <= j < evs.len() && (#[trigger] evs[j]) == Some(CountdownEvent::Go) ==> exists|i: int|
                0 <= i < j && tick_of(#[trigger] evs[i]) is Some,
        forall|j: int|
            0 <= j < evs.len() && (#[trigger] evs[j]) == Some(CountdownEvent::Complete) ==> exists|i: int|
                0 <= i < j && (#[trigger] evs[i]) == Some(CountdownEvent::Go),
        ms[0].total_secs == 0 ==> forall|j: int| 0 <= j < evs.len() ==> (#[trigger] evs[j]) is None,
    decreases cs.len(),
{
    let n = cs.len() as int;
    if n > 0 {
        let ms0 = ms.drop_last();
        let cs0 = cs.drop_last();
        let evs0 = evs.drop_last();
        assert forall|k: int| 0 <= k < cs0.len() implies #[trigger] countdown_run_step(ms0, cs0, evs0, k) by {
            assert(countdown_run_step(ms, cs, evs, k));
            assert(ms0[k] == ms[k] && ms0[k + 1] == ms[k + 1] && cs0[k] == cs[k] && evs0[k] == evs[k]);
        }
        lemma_countdown_order(ms0, cs0, evs0);
        let m = ms[n - 1];
        let m2 = ms[n];
        let ev = evs[n - 1];
        assert(ms0.last() == m);
        assert(ms0[0] == ms[0]);
        assert(countdown_run_step(ms, cs, evs, n - 1));
        assert(order_inv(m, evs0));
        assert forall|i: int| 0 <= i < n - 1 implies evs[i] == #[trigger] evs0[i] by {}
        // the new manager's phase invariant
        assert forall|i: int|
            0 <= i < evs.len() && (#[trigger] evs[i]) == Some(CountdownEvent::Go) implies (m2.state is Go
                || m2.state is Complete) by {
            if i < n - 1 {
                assert(evs0[i] == evs[i]);
            }
        }
        assert forall|i: int|
            0 <= i < evs.len() && (#[trigger] evs[i]) == Some(CountdownEvent::Complete) implies m2.state is Complete by {
            if i < n - 1 {
                assert(evs0[i] == evs[i]);
            }
        }
        if m2.state is Counting {
            if m.state is Counting {
                let w = choose|i: int| 0 <= i < evs0.len() && tick_of(#[trigger] evs0[i]) is Some;
                assert(evs[w] == evs0[w]);
            } else {
                assert(tick_of(evs[n - 1]) is Some);
            }
        }
        if m2.state is Go {
            if m.state is Go {
                let w = choose|i: int| 0 <= i < evs0.len() && (#[trigger] evs0[i]) == Some(CountdownEvent::Go);
                assert(evs[w] == evs0[w]);
            } else {
                assert(evs[n - 1] == Some(CountdownEvent::Go));
            }
        }
        assert(order_inv(m2, evs));
        assert forall|i: int, j: int|
            0 <= i < j < evs.len() && (#[trigger] evs[i]) == Some(CountdownEvent::Go) implies tick_of(
                #[trigger] evs[j],
            ) is None by {
            assert(evs0[i] == evs[i]);
            if j < n - 1 {
                assert(evs0[j] == evs[j]);
            }
        }
        assert forall|i: int, j: int|
            0 <= i < j < evs.len() && (#[trigger] evs[i]) == Some(CountdownEvent::Complete) implies (
            #[trigger] evs[j]) is None by {
            assert(evs0[i] == evs[i]);
            if j < n - 1 {
                assert(evs0[j] == evs[j]);
            }
        }
        assert forall|j: int|
            0 <= j < evs.len() && (#[trigger] evs[j]) == Some(CountdownEvent::Go) implies exists|i: int|
                0 <= i < j && tick_of(#[trigger] evs[i]) is Some by {
            if j < n - 1 {
                assert(evs0[j] == evs[j]);
                let w = choose|i: int| 0 <= i < j && tick_of(#[trigger] evs0[i]) is Some;
                assert(evs[w] == evs0[w]);
            } else {
                let w = choose|i: int| 0 <= i < evs0.len() && tick_of(#[trigger] evs0[i]) is Some;
                assert(evs[w] == evs0[w]);
            }
        }
        assert forall|j: int|
            0 <= j < evs.len() && (#[trigger] evs[j]) == Some(CountdownEvent::Complete) implies exists|i: int|
                0 <= i < j && (#[trigger] evs[i]) == Some(CountdownEvent::Go) by {
            if j < n - 1 {
                assert(evs0[j] == evs[j]);
                let w = choose|i: int| 0 <= i < j && (#[trigger] evs0[i]) == Some(CountdownEvent::Go);
                assert(evs[w] == evs0[w]);
            } else {
                let w = choose|i: int| 0 <= i < evs0.len() && (#[trigger] evs0[i]) == Some(CountdownEvent::Go);
                assert(evs[w] == evs0[w]);
            }
        }
        if ms[0].total_secs == 0 {
            assert forall|j: int| 0 <= j < evs.len() implies (#[trigger] evs[j]) is None by {
                if j < n - 1 {
                    assert(evs0[j] == evs[j]);
                }
            }
        }
    }
}

/// The order of a countdown over a whole run of clock readings from a
/// fresh manager: the first reading of an enabled countdown announces its
/// full length; no tick comes after "GO!"; nothing comes after the
/// completion; "GO!" only comes after a tick and the completion only after
/// "GO!"; a disabled countdown announces nothing.
pub proof fn law_countdown_order(ms: Seq<CountdownManager>, cs: Seq<CountdownClock>, evs: Seq<Option<CountdownEvent>>)
    requires
        is_countdown_run(ms, cs, evs),
        ms[0].wf(),
        !(ms[0].state is Counting),
        !(ms[0].state is Go),
    ensures
        cs.len() > 0 && ms[0].state is Inactive ==> evs[0] == Some(CountdownEvent::Tick { number: ms[0].total_secs }),
        forall|i: int, j: int|
            0 <= i < j < evs.len() && (#[trigger] evs[i]) == Some(CountdownEvent::Go) ==> tick_of(
                #[trigger] evs[j],
            ) is None,
        forall|i: int, j: int|
            0 <= i < j < evs.len() && (#[trigger] evs[i]) == Some(CountdownEvent::Complete) ==> (
            #[trigger] evs[j]) is None,
        forall|j: int|
            0 <= j < evs.len() && (#[trigger] evs[j]) == Some(CountdownEvent::Go) ==> exists|i: int|
                0 <= i < j && tick_of(#[trigger] evs[i]) is Some,
        forall|j: int|
            0 <= j < evs.len() && (#[trigger] evs[j]) == Some(CountdownEvent::Complete) ==> exists|i: int|
                0 <= i < j && (#[trigger] evs[i]) == Some(CountdownEvent::Go),
        ms[0].total_secs == 0 ==> forall|j: int| 0 <= j < evs.len() ==> (#[trigger] evs[j]) is None,
{
    lemma_countdown_order(ms, cs, evs);
    if cs.len() > 0 {
        assert(countdown_run_step(ms, cs, evs, 0));
    }
}

} // verus!
