//! Which visual effects a frame's events trigger.
//!
//! Every rendered frame the caller tells the [`EffectPlanner`] which bodies
//! are on screen (their ids and colors; positions stay with the caller),
//! then hands it the frame's physics and race events.  The planner decides
//! which spark bursts, boost flashes and the one-time winner pop to spawn,
//! where, in which color, and how many particles each may add under the
//! particle budget.  Spawning (random directions and speeds) is the
//! caller's.
use vstd::prelude::*;
use crate::color::Color;
use crate::physics::BodyId;
use crate::race::RaceEvent;
use crate::scene::Vec2;
use crate::color::VfxConfigError;

verus! {

/// Visual style of a particle.
#[derive(Clone, Copy, Debug, PartialEq, Eq, Structural)]
pub enum ParticleKind {
    /// A round dot.
    Dot,
}

/// Errors of the effects engine.
#[derive(Debug)]
pub enum VfxError {
    /// The effects configuration is invalid.
    Config(VfxConfigError),
}

/// What effects read of a physics event.
#[derive(Clone, Copy, Debug)]
pub enum ImpactEvent {
    /// Two bodies started touching.
    Collision { body_a: BodyId, body_b: BodyId },
    /// A body touched a boost pad.
    BoostActivated { body: BodyId },
    /// A body hit a bumper at `contact_point`.
    BumperActivated { contact_point: Vec2 },
    /// An event that triggers no effect.
    Other,
}

/// Which effects are enabled, their particle counts, and the particle
/// budget.
#[derive(Clone, Copy, Debug)]
pub struct EffectSwitches {
    pub max_particles: usize,
    pub impact_sparks: bool,
    pub impact_count: usize,
    pub boost_flash: bool,
    pub elimination_burst: bool,
    pub elimination_count: usize,
    pub winner_pop: bool,
    pub winner_count: usize,
}

/// Which spark settings a burst uses.
#[derive(Clone, Copy, Debug, PartialEq, Eq, Structural)]
pub enum SparkKind {
    Impact,
    Elimination,
}

/// Where a spark burst starts.
#[derive(Clone, Copy, Debug)]
pub enum SparkSite {
    /// Halfway between two bodies.
    Midpoint { a: BodyId, b: BodyId },
    /// At a body.
    Body { body: BodyId },
    /// At a world point.
    Point { point: Vec2 },
}

/// Where the winner pop starts.
#[derive(Clone, Copy, Debug, PartialEq, Eq, Structural)]
pub enum PopSite {
    /// On the finish line.
    FinishLine,
    /// At the winning body.
    Body { body: BodyId },
    /// At the world origin.
    Origin,
}

/// A spark burst decided but not yet given a particle count.
#[derive(Clone, Copy, Debug)]
pub struct PendingSparks {
    pub kind: SparkKind,
    pub site: SparkSite,
    pub color: Color,
}

/// An effect to spawn.
#[derive(Clone, Copy, Debug)]
pub enum EffectAction {
    /// Spawn `count` spark particles.
    Sparks { kind: SparkKind, site: SparkSite, color: Color, count: usize },
    /// Start (or restart) the glow flash of a body.
    Flash { body: BodyId },
    /// Spawn `count` confetti particles for the winner.
    WinnerPop { site: PopSite, winner: BodyId, winner_color: Color, count: usize },
}

/// Color of the sparks a bumper throws.
pub open spec fn bumper_spark_color() -> Color {
    Color { r: 255, g: 200, b: 100, a: 255 }
}

/// The on-screen color of body `id`, if it is on screen.
pub open spec fn known_color(known: Seq<(BodyId, Color)>, id: BodyId) -> Option<Color>
    decreases known.len(),
{
    if known.len() == 0 {
        None
    } else {
        match known_color(known.drop_last(), id) {
            Some(c) => Some(c),
            None => if known.last().0 == id {
                Some(known.last().1)
            } else {
                None
            },
        }
    }
}

/// A collision pair as `(smaller id, larger id)`.
pub open spec fn pair_key(a: BodyId, b: BodyId) -> (u32, u32) {
    if a.0 <= b.0 {
        (a.0, b.0)
    } else {
        (b.0, a.0)
    }
}

/// What the first `n` physics events decide: spark bursts, flashes, and the
/// collision pairs seen this frame (each pair sparks once per frame).
pub open spec fn physics_pass(
    sw: EffectSwitches,
    known: Seq<(BodyId, Color)>,
    events: Seq<ImpactEvent>,
    pairs: Seq<(u32, u32)>,
    n: nat,
) -> (Seq<PendingSparks>, Seq<BodyId>, Seq<(u32, u32)>)
    decreases n,
{
    if n == 0 || n > events.len() {
        (Seq::empty(), Seq::empty(), pairs)
    } else {
        let prev = physics_pass(sw, known, events, pairs, (n - 1) as nat);
        match events[n - 1] {
            ImpactEvent::Collision { body_a, body_b } => if !sw.impact_sparks || prev.2.contains(
                pair_key(body_a, body_b),
            ) {
                prev
            } else {
                let seen = prev.2.push(pair_key(body_a, body_b));
                match (known_color(known, body_a), known_color(known, body_b)) {
                    (Some(_), Some(cb)) => (
                        prev.0.push(
                            PendingSparks {
                                kind: SparkKind::Impact,
                                site: SparkSite::Midpoint { a: body_a, b: body_b },
                                color: cb,
                            },
                        ),
                        prev.1,
                        seen,
                    ),
                    (Some(ca), None) => (
                        prev.0.push(
                            PendingSparks { kind: SparkKind::Impact, site: SparkSite::Body { body: body_a }, color: ca },
                        ),
                        prev.1,
                        seen,
                    ),
                    _ => (prev.0, prev.1, seen),
                }
            },
            ImpactEvent::BoostActivated { body } => if sw.boost_flash && known_color(known, body) is Some {
                (prev.0, prev.1.push(body), prev.2)
            } else {
                prev
            },
            ImpactEvent::BumperActivated { contact_point } => if sw.impact_sparks {
                (
                    prev.0.push(
                        PendingSparks {
                            kind: SparkKind::Impact,
                            site: SparkSite::Point { point: contact_point },
                            color: bumper_spark_color(),
                        },
                    ),
                    prev.1,
                    prev.2,
                )
            } else {
                prev
            },
            ImpactEvent::Other => prev,
        }
    }
}

/// Elimination bursts decided by the first `n` race events.
pub open spec fn race_sparks(
    sw: EffectSwitches,
    known: Seq<(BodyId, Color)>,
    events: Seq<RaceEvent>,
    n: nat,
) -> Seq<PendingSparks>
    decreases n,
{
    if n == 0 || n > events.len() {
        Seq::empty()
    } else {
        let prev = race_sparks(sw, known, events, (n - 1) as nat);
        match events[n - 1] {
            RaceEvent::RacerEliminated { body_id, .. } => if sw.elimination_burst && known_color(known, body_id) is Some {
                prev.push(
                    PendingSparks {
                        kind: SparkKind::Elimination,
                        site: SparkSite::Body { body: body_id },
                        color: known_color(known, body_id).unwrap(),
                    },
                )
            } else {
                prev
            },
            _ => prev,
        }
    }
}

/// The winner the first `n` race events announce (the last announcement
/// wins), as `(body, color)`.
pub open spec fn announced_winner(events: Seq<RaceEvent>, n: nat) -> Option<(BodyId, Color)>
    decreases n,
{
    if n == 0 || n > events.len() {
        None
    } else {
        match events[n - 1] {
            RaceEvent::RaceComplete { winner } => Some((winner.body_id, winner.color)),
            _ => announced_winner(events, (n - 1) as nat),
        }
    }
}

/// `a - b`, or 0 when `b > a`.
pub open spec fn saturating_sub(a: int, b: int) -> int {
    if a >= b {
        a - b
    } else {
        0
    }
}

/// Particle count of a spark burst's settings.
pub open spec fn burst_size(sw: EffectSwitches, kind: SparkKind) -> int {
    match kind {
        SparkKind::Impact => sw.impact_count as int,
        SparkKind::Elimination => sw.elimination_count as int,
    }
}

/// Number of live particles after the first `n` bursts, starting from
/// `live`: each burst adds its size, cut to what the budget has left.
pub open spec fn live_after(sw: EffectSwitches, sparks: Seq<PendingSparks>, live: int, n: nat) -> int
    decreases n,
{
    if n == 0 {
        live
    } else {
        let before = live_after(sw, sparks, live, (n - 1) as nat);
        before + min_int(burst_size(sw, sparks[n - 1].kind), saturating_sub(sw.max_particles as int, before))
    }
}

/// The smaller of two integers.
pub open spec fn min_int(a: int, b: int) -> int {
    if a <= b {
        a
    } else {
        b
    }
}

/// The spark action for burst `i`.
pub open spec fn spark_action(sw: EffectSwitches, sparks: Seq<PendingSparks>, live: int, i: int) -> EffectAction {
    let before = live_after(sw, sparks, live, i as nat);
    EffectAction::Sparks {
        kind: sparks[i].kind,
        site: sparks[i].site,
        color: sparks[i].color,
        count: min_int(burst_size(sw, sparks[i].kind), saturating_sub(sw.max_particles as int, before)) as usize,
    }
}

/// Plans visual effects frame by frame.
#[derive(Debug)]
pub struct EffectPlanner {
    pub switches: EffectSwitches,
    /// Bodies on screen this frame, with their colors.
    pub known: Vec<(BodyId, Color)>,
    /// Collision pairs that already sparked this frame.
    pub pairs_this_frame: Vec<(u32, u32)>,
    /// Whether the finish line's position has been given.
    pub finish_line_known: bool,
    /// Whether the winner pop has fired (it fires once).
    pub winner_pop_fired: bool,
}

impl EffectPlanner {
    /// A planner with the given switches; nothing on screen yet.
    pub fn new(switches: EffectSwitches) -> (p: EffectPlanner)
        ensures
            p.switches == switches,
            p.known@.len() == 0,
            p.pairs_this_frame@.len() == 0,
            !p.finish_line_known,
            !p.winner_pop_fired,
    {
        EffectPlanner {
            switches,
            known: Vec::new(),
            pairs_this_frame: Vec::new(),
            finish_line_known: false,
            winner_pop_fired: false,
        }
    }

    /// Start a frame: the bodies on screen now, and the finish line's
    /// position is known from here on.  Forgets the collision pairs of the
    /// previous frame.
    pub fn begin_frame(&mut self, known: Vec<(BodyId, Color)>)
        ensures
            final(self).switches == old(self).switches,
            final(self).known@ == known@,
            final(self).pairs_this_frame@.len() == 0,
            final(self).finish_line_known,
            final(self).winner_pop_fired == old(self).winner_pop_fired,
    {
        self.known = known;
        self.pairs_this_frame = Vec::new();
        self.finish_line_known = true;
    }

    /// Decide the effects of a frame's events, given `live` particles
    /// already alive.
    ///
    /// Collisions spark once per pair per frame: halfway between the bodies
    /// in the second body's color when both are on screen, at the first body
    /// in its color when only it is; bumpers spark golden at the contact
    /// point; boosts flash bodies on screen; eliminated bodies on screen
    /// burst.  The actions list the sparks (physics events first, then race
    /// events, in order, each cut to the particle budget left), then the
    /// flashes, then the winner pop, which fires once, for the last winner
    /// announced, at the finish line when its position is known, else at
    /// the winner if on screen, else at the origin.
    pub fn feed_events(&mut self, physics_events: &Vec<ImpactEvent>, race_events: &Vec<RaceEvent>, live: usize) -> (actions: Vec<EffectAction>)
        ensures
            ({
                let sw = old(self).switches;
                let known = old(self).known@;
                let ph = physics_pass(sw, known, physics_events@, old(self).pairs_this_frame@, physics_events@.len());
                let sparks = ph.0 + race_sparks(sw, known, race_events@, race_events@.len());
                let pop = sw.winner_pop && !old(self).winner_pop_fired && announced_winner(
                    race_events@,
                    race_events@.len(),
                ) is Some;
                let w = announced_winner(race_events@, race_events@.len()).unwrap();
                let after = live_after(sw, sparks, live as int, sparks.len());
                &&& actions@.len() == sparks.len() + ph.1.len() + (if pop { 1int } else { 0int })
                &&& forall|i: int| 0 <= i < sparks.len() ==> #[trigger] actions@[i] == spark_action(sw, sparks, live as int, i)
                &&& forall|i: int|
                    0 <= i < ph.1.len() ==> #[trigger] actions@[sparks.len() + i] == (EffectAction::Flash { body: ph.1[i] })
                &&& pop ==> actions@[(sparks.len() + ph.1.len()) as int] == (EffectAction::WinnerPop {
                    site: if old(self).finish_line_known {
                        PopSite::FinishLine
                    } else if known_color(known, w.0) is Some {
                        PopSite::Body { body: w.0 }
                    } else {
                        PopSite::Origin
                    },
                    winner: w.0,
                    winner_color: w.1,
                    count: min_int(sw.winner_count as int, saturating_sub(sw.max_particles as int, after)) as usize,
                })
                &&& final(self).pairs_this_frame@ == ph.2
                &&& final(self).winner_pop_fired == (old(self).winner_pop_fired || pop)
            }),
            forall|i: int|
                0 <= i < actions@.len() && (#[trigger] actions@[i]) is WinnerPop ==> i == actions@.len() - 1
                    && !old(self).winner_pop_fired && final(self).winner_pop_fired,
            live <= old(self).switches.max_particles ==> live + particles_spawned(actions@)
                <= old(self).switches.max_particles,
            final(self).switches == old(self).switches,
            final(self).known@ == old(self).known@,
            final(self).finish_line_known == old(self).finish_line_known,
            forall|i: int|
                0 <= i < actions@.len() ==> ((#[trigger] actions@[i]) matches EffectAction::Sparks {
                    kind: SparkKind::Elimination,
                    site,
                    color,
                    ..
                } ==> (site matches SparkSite::Body { body } && known_color(old(self).known@, body) == Some(color))),
    {
        let ghost sw = self.switches;
        let ghost known = self.known@;
        let ghost pairs0 = self.pairs_this_frame@;
        let ghost fl = self.finish_line_known;
        let ghost fired = self.winner_pop_fired;
        // ── physics events ────────────────────────────────────────────────
        let mut sparks: Vec<PendingSparks> = Vec::new();
        let mut flashes: Vec<BodyId> = Vec::new();
        let mut i: usize = 0;
        while i < physics_events.len()
            invariant
                0 <= i <= physics_events@.len(),
                self.switches == sw,
                self.known@ == known,
                self.finish_line_known == fl,
                self.winner_pop_fired == fired,
                (sparks@, flashes@, self.pairs_this_frame@) == physics_pass(sw, known, physics_events@, pairs0, i as nat),
            decreases physics_events.len() - i,
        {
            match physics_events[i] {
                ImpactEvent::Collision { body_a, body_b } => {
                    if self.switches.impact_sparks {
                        let key = if body_a.0 <= body_b.0 {
                            (body_a.0, body_b.0)
                        } else {
                            (body_b.0, body_a.0)
                        };
                        if !self.pair_seen(key) {
                            self.pairs_this_frame.push(key);
                            match (self.color_of(body_a), self.color_of(body_b)) {
                                (Some(_), Some(cb)) => {
                                    sparks.push(
                                        PendingSparks {
                                            kind: SparkKind::Impact,
                                            site: SparkSite::Midpoint { a: body_a, b: body_b },
                                            color: cb,
                                        },
                                    );
                                },
                                (Some(ca), None) => {
                                    sparks.push(
                                        PendingSparks {
                                            kind: SparkKind::Impact,
                                            site: SparkSite::Body { body: body_a },
                                            color: ca,
                                        },
                                    );
                                },
                                _ => {},
                            }
                        }
                    }
                },
                ImpactEvent::BoostActivated { body } => {
                    if self.switches.boost_flash && self.color_of(body).is_some() {
                        flashes.push(body);
                    }
                },
                ImpactEvent::BumperActivated { contact_point } => {
                    if self.switches.impact_sparks {
                        sparks.push(
                            PendingSparks {
                                kind: SparkKind::Impact,
                                site: SparkSite::Point { point: contact_point },
                                color: Color::rgb(255, 200, 100),
                            },
                        );
                    }
                },
                ImpactEvent::Other => {},
            }
            i = i + 1;
        }
        // ── race events ───────────────────────────────────────────────────
        let ghost phys_sparks = sparks@;
        let ghost ph = physics_pass(sw, known, physics_events@, pairs0, physics_events@.len());
        let mut winner: Option<(BodyId, Color)> = None;
        let mut k: usize = 0;
        while k < race_events.len()
            invariant
                0 <= k <= race_events@.len(),
                self.switches == sw,
                self.known@ == known,
                self.finish_line_known == fl,
                self.winner_pop_fired == fired,
                self.pairs_this_frame@ == ph.2,
                flashes@ == ph.1,
                phys_sparks == ph.0,
                sparks@ == phys_sparks + race_sparks(sw, known, race_events@, k as nat),
                winner == announced_winner(race_events@, k as nat),
            decreases race_events.len() - k,
        {
            match &race_events[k] {
                RaceEvent::RacerEliminated { body_id, .. } => {
                    if self.switches.elimination_burst {
                        match self.color_of(*body_id) {
                            Some(c) => {
                                sparks.push(
                                    PendingSparks {
                                        kind: SparkKind::Elimination,
                                        site: SparkSite::Body { body: *body_id },
                                        color: c,
                                    },
                                );
                            },
                            None => {},
                        }
                    }
                },
                RaceEvent::RaceComplete { winner: w } => {
                    winner = Some((w.body_id, w.color));
                },
                _ => {},
            }
            assert(sparks@ =~= phys_sparks + race_sparks(sw, known, race_events@, (k + 1) as nat));
            k = k + 1;
        }
        // ── spark counts under the particle budget ────────────────────────
        let ghost all = sparks@;
        let mut actions: Vec<EffectAction> = Vec::new();
        let mut count_live: usize = live;
        let mut j: usize = 0;
        while j < sparks.len()
            invariant
                0 <= j <= all.len(),
                sparks@ == all,
                self.switches == sw,
                self.known@ == known,
                self.finish_line_known == fl,
                self.winner_pop_fired == fired,
                self.pairs_this_frame@ == ph.2,
                flashes@ == ph.1,
                winner == announced_winner(race_events@, race_events@.len()),
                count_live as int == live_after(sw, all, live as int, j as nat),
                count_live <= live || count_live <= sw.max_particles,
                actions@.len() == j,
                forall|q: int| 0 <= q < j ==> #[trigger] actions@[q] == spark_action(sw, all, live as int, q),
            decreases sparks.len() - j,
        {
            let p = sparks[j];
            let size = match p.kind {
                SparkKind::Impact => self.switches.impact_count,
                SparkKind::Elimination => self.switches.elimination_count,
            };
            let room = if self.switches.max_particles >= count_live {
                self.switches.max_particles - count_live
            } else {
                0
            };
            let count = if size <= room {
                size
            } else {
                room
            };
            actions.push(EffectAction::Sparks { kind: p.kind, site: p.site, color: p.color, count });
            count_live = count_live + count;
            j = j + 1;
        }
        // ── flashes, then the winner pop ──────────────────────────────────
        let mut f: usize = 0;
        while f < flashes.len()
            invariant
                0 <= f <= flashes@.len(),
                self.switches == sw,
                self.known@ == known,
                self.finish_line_known == fl,
                self.winner_pop_fired == fired,
                self.pairs_this_frame@ == ph.2,
                flashes@ == ph.1,
                count_live as int == live_after(sw, all, live as int, all.len()),
                actions@.len() == all.len() + f,
                forall|q: int| 0 <= q < all.len() ==> #[trigger] actions@[q] == spark_action(sw, all, live as int, q),
                forall|q: int| 0 <= q < f ==> #[trigger] actions@[all.len() + q] == (EffectAction::Flash { body: flashes@[q] }),
            decreases flashes.len() - f,
        {
            actions.push(EffectAction::Flash { body: flashes[f] });
            f = f + 1;
        }
        assert forall|q: int| 0 <= q < actions@.len() implies !(#[trigger] actions@[q] is WinnerPop) by {
            if q < all.len() {
                assert(actions@[q] == spark_action(sw, all, live as int, q));
            } else {
                assert(actions@[all.len() + (q - all.len())] == (EffectAction::Flash { body: flashes@[q - all.len()] }));
            }
        }
        let ghost framed = actions@;
        if self.switches.winner_pop && !self.winner_pop_fired {
            if let Some((wid, wcolor)) = winner {
                self.winner_pop_fired = true;
                let site = if self.finish_line_known {
                    PopSite::FinishLine
                } else if self.color_of(wid).is_some() {
                    PopSite::Body { body: wid }
                } else {
                    PopSite::Origin
                };
                let room = if self.switches.max_particles >= count_live {
                    self.switches.max_particles - count_live
                } else {
                    0
                };
                let count = if self.switches.winner_count <= room {
                    self.switches.winner_count
                } else {
                    room
                };
                actions.push(EffectAction::WinnerPop { site, winner: wid, winner_color: wcolor, count });
            }
        }
        proof {
            assert forall|q: int| 0 <= q < framed.len() implies #[trigger] actions@[q] == framed[q] by {}
            assert forall|q: int| all.len() <= q < actions@.len() implies !((#[trigger] actions@[q]) is Sparks) by {
                if q < framed.len() {
                    assert(framed[all.len() + (q - all.len())] == (EffectAction::Flash { body: flashes@[q - all.len()] }));
                }
            }
            lemma_elimination_actions_colored(sw, known, physics_events@, pairs0, race_events@, live as int, actions@);
        }
        proof {
            if live <= sw.max_particles {
                let pop = actions@.len() > framed.len();
                assert forall|q: int| 0 <= q < framed.len() implies #[trigger] actions@[q] == framed[q] by {}
                assert forall|q: int| all.len() <= q < all.len() + flashes@.len() implies (#[trigger] actions@[q]) is Flash by {
                    assert(framed[all.len() + (q - all.len())] == (EffectAction::Flash { body: flashes@[q - all.len()] }));
                }
                lemma_frame_within_budget(sw, all, flashes@.len() as int, pop, live as int, actions@);
            }
        }
        actions
    }

    fn pair_seen(&self, key: (u32, u32)) -> (r: bool)
        ensures
            r == self.pairs_this_frame@.contains(key),
    {
        let mut i: usize = 0;
        while i < self.pairs_this_frame.len()
            invariant
                0 <= i <= self.pairs_this_frame@.len(),
                forall|j: int| 0 <= j < i ==> self.pairs_this_frame@[j] != key,
            decreases self.pairs_this_frame.len() - i,
        {
            let p = self.pairs_this_frame[i];
            if p.0 == key.0 && p.1 == key.1 {
                assert(self.pairs_this_frame@[i as int] == key);
                return true;
            }
            i = i + 1;
        }
        false
    }

    fn color_of(&self, id: BodyId) -> (r: Option<Color>)
        ensures
            r == known_color(self.known@, id),
    {
        let mut i: usize = 0;
        while i < self.known.len()
            invariant
                0 <= i <= self.known@.len(),
                known_color(self.known@.take(i as int), id) is None,
            decreases self.known.len() - i,
        {
            proof {
                assert(self.known@.take(i + 1).drop_last() =~= self.known@.take(i as int));
            }
            if self.known[i].0 == id {
                proof {
                    lemma_known_color_prefix(self.known@, id, i + 1);
                }
                return Some(self.known[i].1);
            }
            i = i + 1;
        }
        assert(self.known@.take(i as int) =~= self.known@);
        None
    }
}

/// The particle budget is never exceeded: starting at or under the
/// budget, the bursts of a frame keep the live particle count at or under
/// it, and the count never goes down.
pub proof fn law_particle_budget_respected(sw: EffectSwitches, sparks: Seq<PendingSparks>, live: int, n: nat)
    requires
        0 <= live <= sw.max_particles,
    ensures
        live <= live_after(sw, sparks, live, n) <= sw.max_particles,
    decreases n,
{
    if n > 0 {
        law_particle_budget_respected(sw, sparks, live, (n - 1) as nat);
    }
}

proof fn lemma_known_color_prefix(known: Seq<(BodyId, Color)>, id: BodyId, k: int)
    requires
        0 <= k <= known.len(),
        known_color(known.take(k), id) is Some,
    ensures
        known_color(known, id) == known_color(known.take(k), id),
    decreases known.len() - k,
{
    if k < known.len() {
        assert(known.take(k + 1).drop_last() =~= known.take(k));
        lemma_known_color_prefix(known, id, k + 1);
    } else {
        assert(known.take(k) =~= known);
    }
}


/// Number of particles the actions spawn: the spark counts and the winner
/// pop's count (a flash spawns none).
pub open spec fn particles_spawned(actions: Seq<EffectAction>) -> int
    decreases actions.len(),
{
    if actions.len() == 0 {
        0
    } else {
        particles_spawned(actions.drop_last()) + match actions.last() {
            EffectAction::Sparks { count, .. } => count as int,
            EffectAction::Flash { .. } => 0,
            EffectAction::WinnerPop { count, .. } => count as int,
        }
    }
}

/// The bursts, flashes and winner pop of a frame, laid out as
/// [`EffectPlanner::feed_events`] lays them out: the first `k` actions spawn
/// what the first bursts among them add to the live count.
proof fn lemma_spawned_prefix(
    sw: EffectSwitches,
    sparks: Seq<PendingSparks>,
    nflash: int,
    live: int,
    actions: Seq<EffectAction>,
    k: int,
)
    requires
        0 <= live <= sw.max_particles,
        0 <= k <= sparks.len() + nflash,
        k <= actions.len(),
        forall|i: int| 0 <= i < sparks.len() ==> #[trigger] actions[i] == spark_action(sw, sparks, live, i),
        forall|i: int| sparks.len() <= i < sparks.len() + nflash ==> (#[trigger] actions[i]) is Flash,
    ensures
        particles_spawned(actions.take(k)) == live_after(
            sw,
            sparks,
            live,
            (if k <= sparks.len() { k } else { sparks.len() as int }) as nat,
        ) - live,
    decreases k,
{
    if k == 0 {
        assert(actions.take(0) =~= Seq::<EffectAction>::empty());
    } else {
        lemma_spawned_prefix(sw, sparks, nflash, live, actions, k - 1);
        assert(actions.take(k).drop_last() =~= actions.take(k - 1));
        assert(actions.take(k).last() == actions[k - 1]);
        if k - 1 < sparks.len() {
            law_particle_budget_respected(sw, sparks, live, (k - 1) as nat);
            assert(actions[k - 1] == spark_action(sw, sparks, live, k - 1));
        } else {
            assert(actions[k - 1] is Flash);
        }
    }
}

/// The actions of a frame, laid out as [`EffectPlanner::feed_events`] lays
/// them out, spawn no more particles than the budget leaves.
proof fn lemma_frame_within_budget(
    sw: EffectSwitches,
    sparks: Seq<PendingSparks>,
    nflash: int,
    pop: bool,
    live: int,
    actions: Seq<EffectAction>,
)
    requires
        0 <= live <= sw.max_particles,
        0 <= nflash,
        actions.len() == sparks.len() + nflash + (if pop { 1int } else { 0int }),
        forall|i: int| 0 <= i < sparks.len() ==> #[trigger] actions[i] == spark_action(sw, sparks, live, i),
        forall|i: int| sparks.len() <= i < sparks.len() + nflash ==> (#[trigger] actions[i]) is Flash,
        pop ==> (actions[sparks.len() + nflash] matches EffectAction::WinnerPop { count, .. } && count as int
            <= saturating_sub(sw.max_particles as int, live_after(sw, sparks, live, sparks.len()))),
    ensures
        live + particles_spawned(actions) <= sw.max_particles,
{
    let k = sparks.len() + nflash;
    lemma_spawned_prefix(sw, sparks, nflash, live, actions, k);
    law_particle_budget_respected(sw, sparks, live, sparks.len());
    if pop {
        assert(actions.drop_last() =~= actions.take(k));
    } else {
        assert(actions.take(k) =~= actions);
    }
}


/// Elimination bursts are thrown in the eliminated ball's own color: every
/// burst the first `n` race events plan is an elimination burst at a body on
/// screen, in that body's on-screen color; and every elimination of a body
/// on screen, with bursts enabled, plans such a burst.
pub proof fn law_elimination_bursts_use_the_ball_color(
    sw: EffectSwitches,
    known: Seq<(BodyId, Color)>,
    events: Seq<RaceEvent>,
    n: nat,
)
    ensures
        forall|i: int|
            0 <= i < race_sparks(sw, known, events, n).len() ==> (#[trigger] race_sparks(sw, known, events, n)[i]).kind
                == SparkKind::Elimination && (race_sparks(sw, known, events, n)[i].site matches SparkSite::Body { body }
                && known_color(known, body) == Some(race_sparks(sw, known, events, n)[i].color)),
        forall|k: int|
            0 <= k < n && n <= events.len() && sw.elimination_burst && (#[trigger] events[k]) is RacerEliminated
                && known_color(known, events[k]->RacerEliminated_body_id) is Some
                ==> race_sparks(sw, known, events, n).contains(
                PendingSparks {
                    kind: SparkKind::Elimination,
                    site: SparkSite::Body { body: events[k]->RacerEliminated_body_id },
                    color: known_color(known, events[k]->RacerEliminated_body_id)->0,
                },
            ),
    decreases n,
{
    if n > 0 && n <= events.len() {
        law_elimination_bursts_use_the_ball_color(sw, known, events, (n - 1) as nat);
        let prev = race_sparks(sw, known, events, (n - 1) as nat);
        let cur = race_sparks(sw, known, events, n);
        assert forall|i: int| 0 <= i < prev.len() implies cur[i] == prev[i] by {}
        assert forall|k: int|
            0 <= k < n && n <= events.len() && sw.elimination_burst && (#[trigger] events[k]) is RacerEliminated
                && known_color(known, events[k]->RacerEliminated_body_id) is Some
                implies cur.contains(
                PendingSparks {
                    kind: SparkKind::Elimination,
                    site: SparkSite::Body { body: events[k]->RacerEliminated_body_id },
                    color: known_color(known, events[k]->RacerEliminated_body_id)->0,
                },
            ) by {
            if k < n - 1 {
                let x = PendingSparks {
                    kind: SparkKind::Elimination,
                    site: SparkSite::Body { body: events[k]->RacerEliminated_body_id },
                    color: known_color(known, events[k]->RacerEliminated_body_id)->0,
                };
                assert(prev.contains(x));
                let q = choose|q: int| 0 <= q < prev.len() && prev[q] == x;
                assert(cur[q] == x);
            } else {
                assert(cur[cur.len() - 1] == PendingSparks {
                    kind: SparkKind::Elimination,
                    site: SparkSite::Body { body: events[k]->RacerEliminated_body_id },
                    color: known_color(known, events[k]->RacerEliminated_body_id)->0,
                });
            }
        }
    } else if n > events.len() {
        assert(race_sparks(sw, known, events, n) =~= Seq::<PendingSparks>::empty());
    }
}


/// Every spark burst a physics event plans is an impact burst.
proof fn lemma_physics_sparks_are_impacts(
    sw: EffectSwitches,
    known: Seq<(BodyId, Color)>,
    events: Seq<ImpactEvent>,
    pairs: Seq<(u32, u32)>,
    n: nat,
)
    ensures
        forall|i: int|
            0 <= i < physics_pass(sw, known, events, pairs, n).0.len() ==> (#[trigger] physics_pass(
                sw,
                known,
                events,
                pairs,
                n,
            ).0[i]).kind == SparkKind::Impact,
    decreases n,
{
    if n > 0 && n <= events.len() {
        lemma_physics_sparks_are_impacts(sw, known, events, pairs, (n - 1) as nat);
        let prev = physics_pass(sw, known, events, pairs, (n - 1) as nat);
        let cur = physics_pass(sw, known, events, pairs, n);
        assert forall|i: int| 0 <= i < cur.0.len() implies (#[trigger] cur.0[i]).kind == SparkKind::Impact by {
            if i < prev.0.len() {
                assert(cur.0[i] == prev.0[i]);
            }
        }
    }
}

/// The spark actions of a frame carry the kind, site and color of the
/// bursts they were planned from, so elimination sparks carry the
/// eliminated ball's on-screen color.
proof fn lemma_elimination_actions_colored(
    sw: EffectSwitches,
    known: Seq<(BodyId, Color)>,
    physics: Seq<ImpactEvent>,
    pairs: Seq<(u32, u32)>,
    race: Seq<RaceEvent>,
    live: int,
    actions: Seq<EffectAction>,
)
    requires
        ({
            let all = physics_pass(sw, known, physics, pairs, physics.len()).0 + race_sparks(sw, known, race, race.len());
            &&& all.len() <= actions.len()
            &&& forall|q: int| 0 <= q < all.len() ==> #[trigger] actions[q] == spark_action(sw, all, live, q)
            &&& forall|q: int| all.len() <= q < actions.len() ==> !((#[trigger] actions[q]) is Sparks)
        }),
    ensures
        forall|i: int|
            0 <= i < actions.len() ==> ((#[trigger] actions[i]) matches EffectAction::Sparks {
                kind: SparkKind::Elimination,
                site,
                color,
                ..
            } ==> (site matches SparkSite::Body { body } && known_color(known, body) == Some(color))),
{
    let ph = physics_pass(sw, known, physics, pairs, physics.len()).0;
    let rs = race_sparks(sw, known, race, race.len());
    let all = ph + rs;
    lemma_physics_sparks_are_impacts(sw, known, physics, pairs, physics.len());
    law_elimination_bursts_use_the_ball_color(sw, known, race, race.len());
    assert forall|i: int| 0 <= i < actions.len() implies ((#[trigger] actions[i]) matches EffectAction::Sparks {
        kind: SparkKind::Elimination,
        site,
        color,
        ..
    } ==> (site matches SparkSite::Body { body } && known_color(known, body) == Some(color))) by {
        if i < all.len() {
            assert(actions[i] == spark_action(sw, all, live, i));
            if i < ph.len() {
                assert(all[i] == ph[i]);
            } else {
                assert(all[i] == rs[i - ph.len()]);
            }
        }
    }
}


/// Impact sparks take their color from what they hit: a spark burst
/// between two bodies on screen has the second body's color, a burst at a
/// body has that body's color, and a burst at a point (a bumper) is golden.
pub proof fn law_impact_sparks_take_body_colors(
    sw: EffectSwitches,
    known: Seq<(BodyId, Color)>,
    events: Seq<ImpactEvent>,
    pairs: Seq<(u32, u32)>,
    n: nat,
)
    ensures
        forall|i: int|
            0 <= i < physics_pass(sw, known, events, pairs, n).0.len() ==> {
                let p = #[trigger] physics_pass(sw, known, events, pairs, n).0[i];
                &&& p.site matches SparkSite::Midpoint { a, b } ==> known_color(known, a) is Some && known_color(
                    known,
                    b,
                ) == Some(p.color)
                &&& p.site matches SparkSite::Body { body } ==> known_color(known, body) == Some(p.color)
                &&& p.site is Point ==> p.color == (Color { r: 255, g: 200, b: 100, a: 255 })
            },
    decreases n,
{
    if n > 0 && n <= events.len() {
        law_impact_sparks_take_body_colors(sw, known, events, pairs, (n - 1) as nat);
        let prev = physics_pass(sw, known, events, pairs, (n - 1) as nat);
        let cur = physics_pass(sw, known, events, pairs, n);
        assert forall|i: int| 0 <= i < cur.0.len() implies {
            let p = #[trigger] cur.0[i];
            &&& p.site matches SparkSite::Midpoint { a, b } ==> known_color(known, a) is Some && known_color(
                known,
                b,
            ) == Some(p.color)
            &&& p.site matches SparkSite::Body { body } ==> known_color(known, body) == Some(p.color)
            &&& p.site is Point ==> p.color == (Color { r: 255, g: 200, b: 100, a: 255 })
        } by {
            if i < prev.0.len() {
                assert(cur.0[i] == prev.0[i]);
            }
        }
    }
}

} // verus!
