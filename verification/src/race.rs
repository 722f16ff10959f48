//! Race standings: ranks by height, checkpoint crossings, the finish line,
//! the winner and elimination rounds.
//!
//! [`RaceLedger`] holds everything the race logic decides.  Each physics
//! step the caller hands it a snapshot of the bodies; the ledger ranks the
//! racers still running (lowest Y = furthest along = rank 1), credits
//! checkpoints, moves racers that reached the finish line to the finished
//! list, optionally eliminates the last-placed racer, and reports what
//! happened as [`RaceEvent`]s.
use vstd::prelude::*;
use crate::color::Color;
use crate::order::{keys_sorted, lemma_sort_stable_sorted, sort_by_key_stable, sort_stable};
use crate::physics::{has_tag, tags_contain, BodyId, BodySnapshot, PhysicsError};
use crate::scalar::{is_nan_bits, rank, spec_le, spec_lt, Scalar};
use crate::text::{decimal, push_decimal};
use vstd::string::*;

verus! {

// ── Public race types ────────────────────────────────────────────────────────

/// Live status of one racer still running.
#[derive(Debug)]
pub struct RacerStatus {
    pub body_id: BodyId,
    pub display_name: String,
    pub color: Color,
    /// Current rank (1-based) from the most recent step; 0 before any step.
    pub rank: usize,
    pub position_y: Scalar,
    /// Index of the last checkpoint credited to this racer.
    pub last_checkpoint: Option<usize>,
}

/// A racer who crossed the finish line or was eliminated.
#[derive(Debug)]
pub struct FinishedEntry {
    pub body_id: BodyId,
    pub display_name: String,
    pub color: Color,
    /// Place in the finished list (1 = first to leave the race).
    pub finish_rank: usize,
    pub finish_time_secs: Scalar,
}

/// The first racer to cross the finish line.
#[derive(Debug)]
pub struct WinnerInfo {
    pub body_id: BodyId,
    pub display_name: String,
    pub color: Color,
    pub finish_time_secs: Scalar,
}

/// Snapshot of the race standings.
#[derive(Debug)]
pub struct RaceState {
    /// Racers still running, in rank order.
    pub active: Vec<RacerStatus>,
    /// Racers who left the race, in the order they left.
    pub finished: Vec<FinishedEntry>,
    /// Set once the first racer crosses the finish line.
    pub winner: Option<WinnerInfo>,
    /// Simulation time of the snapshot.
    pub elapsed_secs: Scalar,
}

/// Events reported by a race step.
#[derive(Debug)]
pub enum RaceEvent {
    /// The leaderboard order changed: `(body, rank)` pairs in rank order.
    RankChanged { new_rankings: Vec<(BodyId, usize)> },
    /// A racer reached a checkpoint it had not been credited with.
    CheckpointCrossed {
        body_id: BodyId,
        display_name: String,
        checkpoint_index: usize,
        checkpoint_y: Scalar,
        rank_at_crossing: usize,
    },
    /// A racer reached the finish line.
    RacerFinished {
        body_id: BodyId,
        display_name: String,
        finish_rank: usize,
        finish_time_secs: Scalar,
    },
    /// The first racer crossed the finish line.
    RaceComplete { winner: WinnerInfo },
    /// The last-placed racer was removed in an elimination round.
    RacerEliminated {
        body_id: BodyId,
        display_name: String,
        rank_at_elimination: usize,
        elimination_number: usize,
    },
}

/// Errors of race tracking.
#[derive(Debug)]
pub enum RaceError {
    /// The scene has no `race:` section.
    NoRaceConfig,
    /// The physics engine failed.
    Physics(PhysicsError),
}

/// How a race error reads.
pub open spec fn race_error_text(e: RaceError) -> Seq<char> {
    match e {
        RaceError::NoRaceConfig => "Scene has no race configuration (missing 'race:' section)"@,
        RaceError::Physics(p) => "Physics error: "@ + crate::physics::physics_error_text(p),
    }
}

impl RaceError {
    /// The error's text, as it is shown to the user.
    pub fn message(&self) -> (m: String)
        ensures
            m@ == race_error_text(*self),
    {
        match self {
            RaceError::NoRaceConfig => String::from_str("Scene has no race configuration (missing 'race:' section)"),
            RaceError::Physics(p) => {
                let mut m = String::from_str("Physics error: ");
                let inner = p.message();
                m.append(inner.as_str());
                m
            },
        }
    }
}

/// Stable metadata of one racer.
#[derive(Debug)]
pub struct RacerRecord {
    pub id: BodyId,
    pub display_name: String,
    pub color: Color,
    /// The checkpoint credited to this racer most recently.
    pub last_checkpoint: Option<usize>,
}

/// Everything the race logic decides, between physics steps.
#[derive(Debug)]
pub struct RaceLedger {
    /// Tag identifying racer bodies.
    pub racer_tag: String,
    /// World Y of the finish line; a racer finishes at or below it.
    pub finish_y: Scalar,
    /// World Y of each checkpoint, in configuration order.
    pub checkpoints: Vec<Scalar>,
    /// Racers discovered at construction, in snapshot order.
    pub racers: Vec<RacerRecord>,
    /// Ranking of the previous step: body ids in rank order.
    pub previous_rankings: Vec<BodyId>,
    /// Bodies that left the race (finished or eliminated), in leaving order.
    pub finished_ids: Vec<BodyId>,
    /// Current standings.
    pub state: RaceState,
    /// Number of elimination rounds that removed a racer.
    pub elimination_count: usize,
    /// Checkpoint crossings credited so far, as `(racer, checkpoint index)`
    /// pairs in the order they were credited.
    pub credited: Vec<(BodyId, usize)>,
}

// ── Specification of one step ───────────────────────────────────────────────

/// Position of the racer record for `id`, if any.
pub open spec fn find_racer(s: Seq<RacerRecord>, id: BodyId) -> Option<int>
    decreases s.len(),
{
    if s.len() == 0 {
        None
    } else if s.last().id == id {
        Some(s.len() - 1)
    } else {
        find_racer(s.drop_last(), id)
    }
}

/// Display name given to a racer: its object name, or `"Racer {id}"`.
pub open spec fn racer_display_name(name: Option<String>, id: BodyId) -> Seq<char> {
    match name {
        Some(n) => n@,
        None => "Racer "@ + decimal(id.0 as nat),
    }
}

/// Racer records discovered in `bodies`: every body carrying `tag`, in order.
pub open spec fn discovered(bodies: Seq<BodySnapshot>, tag: Seq<char>) -> Seq<(BodyId, Seq<char>, Color)>
    decreases bodies.len(),
{
    if bodies.len() == 0 {
        Seq::empty()
    } else {
        let rest = discovered(bodies.drop_last(), tag);
        let b = bodies.last();
        if has_tag(b.tags@, tag) {
            rest.push((b.id, racer_display_name(b.name, b.id), b.color))
        } else {
            rest
        }
    }
}

/// Racers still running in `bodies`, keyed by height for ranking: alive,
/// carrying `tag`, and not yet finished.
pub open spec fn candidates(bodies: Seq<BodySnapshot>, tag: Seq<char>, finished: Seq<BodyId>) -> Seq<
    (i64, (BodyId, Scalar)),
>
    decreases bodies.len(),
{
    if bodies.len() == 0 {
        Seq::empty()
    } else {
        let rest = candidates(bodies.drop_last(), tag, finished);
        let b = bodies.last();
        if b.is_alive && has_tag(b.tags@, tag) && !finished.contains(b.id) {
            rest.push((rank(b.position_y.bits) as i64, (b.id, b.position_y)))
        } else {
            rest
        }
    }
}

/// Body ids of a ranking, in rank order.
pub open spec fn ranked_ids(ranking: Seq<(i64, (BodyId, Scalar))>) -> Seq<BodyId> {
    ranking.map_values(|x: (i64, (BodyId, Scalar))| x.1.0)
}

/// `(body, rank)` pairs of a ranking.
pub open spec fn rank_pairs(ranking: Seq<(i64, (BodyId, Scalar))>) -> Seq<(BodyId, usize)> {
    ranking.map(|i: int, x: (i64, (BodyId, Scalar))| (x.1.0, (i + 1) as usize))
}

/// Checkpoint indices among the first `n` that the racer `id` at height
/// `y` crosses now: those at or above the racer that it has not been
/// credited with yet, in increasing order.  The checkpoints may come in any
/// order of height.
pub open spec fn crossings(cps: Seq<Scalar>, y: Scalar, id: BodyId, credited: Seq<(BodyId, usize)>, n: nat) -> Seq<
    usize,
>
    decreases n,
{
    if n == 0 {
        Seq::empty()
    } else {
        let r = crossings(cps, y, id, credited, (n - 1) as nat);
        let ci = n - 1;
        if !spec_lt(cps[ci], y) && !credited.contains((id, ci as usize)) {
            r.push(ci as usize)
        } else {
            r
        }
    }
}

/// The credit pairs of the racer `id` for the checkpoints `crossed`.
pub open spec fn credit_pairs(id: BodyId, crossed: Seq<usize>) -> Seq<(BodyId, usize)> {
    crossed.map_values(|ci: usize| (id, ci))
}

/// The checkpoint credited last after `crossed`.
pub open spec fn after_crossings(last: Option<usize>, crossed: Seq<usize>) -> Option<usize> {
    if crossed.len() == 0 {
        last
    } else {
        Some(crossed.last())
    }
}

/// Spec-level winner record.
pub open spec fn winner_of(id: BodyId, name: String, color: Color, t: Scalar) -> WinnerInfo {
    WinnerInfo { body_id: id, display_name: name, color, finish_time_secs: t }
}

/// What the pass over the ranking accumulates: events, racer records,
/// finished ids, finished entries, the winner and the checkpoint credits.
pub type PassState = (
    Seq<RaceEvent>,
    Seq<RacerRecord>,
    Seq<BodyId>,
    Seq<FinishedEntry>,
    Option<WinnerInfo>,
    Seq<(BodyId, usize)>,
);

/// Effect of visiting the racer `id` at height `y` with rank `rank`, when
/// `elims` of the racers that left did so by elimination: a racer reaching
/// the finish line places right after those who crossed it before.
pub open spec fn visit(
    st: PassState,
    cps: Seq<Scalar>,
    finish_y: Scalar,
    id: BodyId,
    y: Scalar,
    rank: usize,
    t: Scalar,
    elims: nat,
) -> PassState {
    let k = find_racer(st.1, id).unwrap();
    let rec = st.1[k];
    let crossed = crossings(cps, y, id, st.5, cps.len());
    let credits = st.5 + credit_pairs(id, crossed);
    let cp_events = crossed.map_values(
        |ci: usize|
            RaceEvent::CheckpointCrossed {
                body_id: id,
                display_name: rec.display_name,
                checkpoint_index: ci,
                checkpoint_y: cps[ci as int],
                rank_at_crossing: rank,
            },
    );
    let racers = st.1.update(
        k,
        RacerRecord { last_checkpoint: after_crossings(rec.last_checkpoint, crossed), ..rec },
    );
    if spec_le(y, finish_y) {
        let finish_rank = (st.2.len() - elims + 1) as usize;
        let finished_event = RaceEvent::RacerFinished {
            body_id: id,
            display_name: rec.display_name,
            finish_rank,
            finish_time_secs: t,
        };
        let entry = FinishedEntry {
            body_id: id,
            display_name: rec.display_name,
            color: rec.color,
            finish_rank,
            finish_time_secs: t,
        };
        let events = st.0 + cp_events + seq![finished_event];
        if st.4 is None {
            let w = winner_of(id, rec.display_name, rec.color, t);
            (
                events.push(RaceEvent::RaceComplete { winner: w }),
                racers,
                st.2.push(id),
                st.3.push(entry),
                Some(w),
                credits,
            )
        } else {
            (events, racers, st.2.push(id), st.3.push(entry), st.4, credits)
        }
    } else {
        (st.0 + cp_events, racers, st.2, st.3, st.4, credits)
    }
}

/// The pass over the first `n` racers of `ranking`.
pub open spec fn pass(
    st: PassState,
    cps: Seq<Scalar>,
    finish_y: Scalar,
    ranking: Seq<(i64, (BodyId, Scalar))>,
    t: Scalar,
    elims: nat,
    n: nat,
) -> PassState
    decreases n,
{
    if n == 0 {
        st
    } else {
        let prev = pass(st, cps, finish_y, ranking, t, elims, (n - 1) as nat);
        let x = ranking[n - 1];
        visit(prev, cps, finish_y, x.1.0, x.1.1, n as usize, t, elims)
    }
}

/// Positions (in `ranking`) of the racers not in `finished`, among the
/// first `n`.
pub open spec fn running_positions(ranking: Seq<(i64, (BodyId, Scalar))>, finished: Seq<BodyId>, n: nat) -> Seq<int>
    decreases n,
{
    if n == 0 {
        Seq::empty()
    } else {
        let r = running_positions(ranking, finished, (n - 1) as nat);
        if finished.contains(ranking[n - 1].1.0) {
            r
        } else {
            r.push(n - 1)
        }
    }
}

/// Rank of `id` in `ranking`, or 0 when it is not ranked.
pub open spec fn rank_in(ranking: Seq<(i64, (BodyId, Scalar))>, id: BodyId) -> usize
    decreases ranking.len(),
{
    if ranking.len() == 0 {
        0
    } else if ranking.last().1.0 == id {
        ranking.len() as usize
    } else {
        rank_in(ranking.drop_last(), id)
    }
}

/// Unsorted active list: live racers of `bodies` not in `finished`, in
/// snapshot order, keyed by their rank.
pub open spec fn active_unsorted(
    bodies: Seq<BodySnapshot>,
    racers: Seq<RacerRecord>,
    finished: Seq<BodyId>,
    ranking: Seq<(i64, (BodyId, Scalar))>,
) -> Seq<(i64, RacerStatus)>
    decreases bodies.len(),
{
    if bodies.len() == 0 {
        Seq::empty()
    } else {
        let rest = active_unsorted(bodies.drop_last(), racers, finished, ranking);
        let b = bodies.last();
        if b.is_alive && find_racer(racers, b.id) is Some && !finished.contains(b.id) {
            let rec = racers[find_racer(racers, b.id).unwrap()];
            let r = rank_in(ranking, b.id);
            rest.push(
                (
                    r as i64,
                    RacerStatus {
                        body_id: b.id,
                        display_name: rec.display_name,
                        color: rec.color,
                        rank: r,
                        position_y: b.position_y,
                        last_checkpoint: rec.last_checkpoint,
                    },
                ),
            )
        } else {
            rest
        }
    }
}

/// Statuses with ranks 1, 2, 3, … in list order.
pub open spec fn renumbered(s: Seq<RacerStatus>) -> Seq<RacerStatus> {
    s.map(|i: int, r: RacerStatus| RacerStatus { rank: (i + 1) as usize, ..r })
}

/// The active list: the running racers of `bodies` (alive racers not in
/// `finished`) in the order of `ranking`, that is by height, ranked 1, 2,
/// 3, … among themselves.
pub open spec fn active_list(
    bodies: Seq<BodySnapshot>,
    racers: Seq<RacerRecord>,
    finished: Seq<BodyId>,
    ranking: Seq<(i64, (BodyId, Scalar))>,
) -> Seq<RacerStatus> {
    renumbered(unkeyed(sort_stable(active_unsorted(bodies, racers, finished, ranking))))
}

/// Drop the keys of keyed items.
pub open spec fn unkeyed<T>(s: Seq<(i64, T)>) -> Seq<T> {
    s.map_values(|x: (i64, T)| x.1)
}

/// Ids of a snapshot.
pub open spec fn snapshot_ids(bodies: Seq<BodySnapshot>) -> Seq<BodyId> {
    bodies.map_values(|b: BodySnapshot| b.id)
}

/// Ids of the racer records.
pub open spec fn record_ids(racers: Seq<RacerRecord>) -> Seq<BodyId> {
    racers.map_values(|r: RacerRecord| r.id)
}

/// Appending the fresh, increasing crossings of one racer keeps the credit
/// pairs distinct.
pub(crate) proof fn lemma_credits_fresh(credited: Seq<(BodyId, usize)>, id: BodyId, crossed: Seq<usize>)
    requires
        credited.no_duplicates(),
        forall|i: int| 0 <= i < crossed.len() ==> !credited.contains((id, #[trigger] crossed[i])),
        forall|i: int, j: int| 0 <= i < j < crossed.len() ==> crossed[i] < crossed[j],
    ensures
        (credited + credit_pairs(id, crossed)).no_duplicates(),
{
    let all = credited + credit_pairs(id, crossed);
    let n = credited.len();
    assert forall|a: int, b: int| 0 <= a < all.len() && 0 <= b < all.len() && a != b implies all[a] != all[b] by {
        if a >= n && b >= n {
            if a < b {
                assert(crossed[a - n] < crossed[b - n]);
            } else {
                assert(crossed[b - n] < crossed[a - n]);
            }
        } else if a >= n {
            assert(all[a] == (id, crossed[a - n]));
            assert(!credited.contains((id, crossed[a - n])));
            assert(all[b] == credited[b]);
        } else if b >= n {
            assert(all[b] == (id, crossed[b - n]));
            assert(!credited.contains((id, crossed[b - n])));
            assert(all[a] == credited[a]);
        }
    }
}

impl RaceLedger {
    /// Internal consistency: racer ids are distinct, every finished body is
    /// a racer, finished ids are distinct and match the finished entries one
    /// for one (with ranks 1, 2, 3, … while nobody was eliminated), and the
    /// winner (if any) finished.
    pub open spec fn wf(&self) -> bool {
        &&& record_ids(self.racers@).no_duplicates()
        &&& self.finished_ids@.no_duplicates()
        &&& self.finished_ids@.len() == self.state.finished@.len()
        &&& (forall|i: int|
            0 <= i < self.finished_ids@.len() ==> {
                &&& (#[trigger] self.state.finished@[i]).body_id == self.finished_ids@[i]
                &&& (self.elimination_count == 0 ==> self.state.finished@[i].finish_rank == i + 1)
                &&& find_racer(self.racers@, self.finished_ids@[i]) is Some
            })
        &&& self.elimination_count <= self.finished_ids@.len()
        &&& self.credited@.no_duplicates()
        &&& (self.state.winner is Some ==> self.finished_ids@.contains(self.state.winner->0.body_id))
    }

    /// Every live body carrying the racer tag in `bodies` is a known racer
    /// with a height that is a number; ids in `bodies` are distinct.
    pub open spec fn accepts(&self, bodies: Seq<BodySnapshot>) -> bool {
        &&& snapshot_ids(bodies).no_duplicates()
        &&& forall|i: int|
            0 <= i < bodies.len() && bodies[i].is_alive && has_tag(
                bodies[i].tags@,
                self.racer_tag@,
            ) ==> find_racer(self.racers@, (#[trigger] bodies[i]).id) is Some && !is_nan_bits(
                bodies[i].position_y.bits,
            )
    }
}


// ── Executable building blocks ───────────────────────────────────────────────

/// Position of the racer record for `id`.
fn find_racer_exec(racers: &Vec<RacerRecord>, id: BodyId) -> (r: Option<usize>)
    ensures
        r matches Some(k) ==> find_racer(racers@, id) == Some(k as int),
        r is None ==> find_racer(racers@, id) is None,
{
    let mut n: usize = racers.len();
    assert(racers@.take(n as int) =~= racers@);
    while n > 0
        invariant
            n <= racers@.len(),
            find_racer(racers@, id) == find_racer(racers@.take(n as int), id),
        decreases n,
    {
        proof {
            assert(racers@.take(n as int).drop_last() =~= racers@.take(n - 1));
        }
        if racers[n - 1].id == id {
            return Some(n - 1);
        }
        n = n - 1;
    }
    None
}

/// Whether `ids` contains `id`.
fn ids_contain(ids: &Vec<BodyId>, id: BodyId) -> (r: bool)
    ensures
        r == ids@.contains(id),
{
    let mut i: usize = 0;
    while i < ids.len()
        invariant
            0 <= i <= ids@.len(),
            forall|j: int| 0 <= j < i ==> ids@[j] != id,
        decreases ids.len() - i,
    {
        if ids[i] == id {
            return true;
        }
        i = i + 1;
    }
    false
}

/// Whether two id sequences are equal.
fn ids_equal(a: &Vec<BodyId>, b: &Vec<BodyId>) -> (r: bool)
    ensures
        r == (a@ == b@),
{
    if a.len() != b.len() {
        return false;
    }
    let mut i: usize = 0;
    while i < a.len()
        invariant
            a@.len() == b@.len(),
            0 <= i <= a@.len(),
            forall|j: int| 0 <= j < i ==> a@[j] == b@[j],
        decreases a.len() - i,
    {
        if a[i] != b[i] {
            return false;
        }
        i = i + 1;
    }
    assert(a@ =~= b@);
    true
}

/// Height key of a scalar (its rank), as a machine integer.
fn height_key(y: Scalar) -> (k: i64)
    ensures
        k == rank(y.bits) as i64,
        k as int == rank(y.bits),
{
    if y.bits >= 0x8000_0000 {
        let m: u32 = y.bits - 0x8000_0000;
        -(m as i64)
    } else {
        y.bits as i64
    }
}

/// Whether the racer `id` has been credited with checkpoint `ci`.
fn is_credited(credited: &Vec<(BodyId, usize)>, id: BodyId, ci: usize) -> (r: bool)
    ensures
        r == credited@.contains((id, ci)),
{
    let mut i: usize = 0;
    while i < credited.len()
        invariant
            0 <= i <= credited@.len(),
            forall|j: int| 0 <= j < i ==> credited@[j] != (id, ci),
        decreases credited.len() - i,
    {
        let c = credited[i];
        if c.0 == id && c.1 == ci {
            assert(credited@[i as int] == (id, ci));
            return true;
        }
        i = i + 1;
    }
    false
}

/// Checkpoints the racer `id` at height `y` crosses now.
fn crossings_exec(cps: &Vec<Scalar>, y: Scalar, id: BodyId, credited: &Vec<(BodyId, usize)>) -> (r: Vec<usize>)
    ensures
        r@ == crossings(cps@, y, id, credited@, cps@.len() as nat),
{
    let mut out: Vec<usize> = Vec::new();
    let mut i: usize = 0;
    while i < cps.len()
        invariant
            0 <= i <= cps@.len(),
            out@ == crossings(cps@, y, id, credited@, i as nat),
        decreases cps.len() - i,
    {
        let reached = !cps[i].lt(&y);
        if reached && !is_credited(credited, id, i) {
            out.push(i);
        }
        i = i + 1;
    }
    out
}

/// What `find_racer` finds is a record with that id, and nothing is missed.
pub(crate) proof fn lemma_find_racer(s: Seq<RacerRecord>, id: BodyId)
    ensures
        match find_racer(s, id) {
            Some(k) => 0 <= k < s.len() && s[k].id == id,
            None => forall|k: int| 0 <= k < s.len() ==> s[k].id != id,
        },
        find_racer(s, id) is Some <==> record_ids(s).contains(id),
    decreases s.len(),
{
    if s.len() > 0 {
        let t = s.drop_last();
        lemma_find_racer(t, id);
        if s.last().id == id {
            assert(record_ids(s)[s.len() - 1] == id);
        } else {
            match find_racer(t, id) {
                Some(k) => {
                    assert(s[k] == t[k]);
                },
                None => {
                    assert forall|k: int| 0 <= k < s.len() implies s[k].id != id by {
                        if k < s.len() - 1 {
                            assert(s[k] == t[k]);
                        }
                    }
                },
            }
            if record_ids(s).contains(id) {
                let k = choose|k: int| 0 <= k < record_ids(s).len() && record_ids(s)[k] == id;
                assert(record_ids(t)[k] == id);
            }
            if record_ids(t).contains(id) {
                let k = choose|k: int| 0 <= k < record_ids(t).len() && record_ids(t)[k] == id;
                assert(record_ids(s)[k] == id);
            }
        }
    }
}

/// Replacing a record by one with the same id does not move any lookup.
pub(crate) proof fn lemma_find_racer_update(s: Seq<RacerRecord>, k: int, r: RacerRecord, id: BodyId)
    requires
        0 <= k < s.len(),
        r.id == s[k].id,
    ensures
        find_racer(s.update(k, r), id) == find_racer(s, id),
        record_ids(s.update(k, r)) == record_ids(s),
    decreases s.len(),
{
    assert(record_ids(s.update(k, r)) =~= record_ids(s));
    if k < s.len() - 1 {
        assert(s.update(k, r).drop_last() =~= s.drop_last().update(k, r));
        lemma_find_racer_update(s.drop_last(), k, r, id);
    } else {
        assert(s.update(k, r).drop_last() =~= s.drop_last());
    }
}

/// A body that is a racer but has not finished leaves room for one more
/// finisher: fewer bodies finished than there are racers.
proof fn lemma_room_for_finisher(finished: Seq<BodyId>, racers: Seq<RacerRecord>, id: BodyId)
    requires
        finished.no_duplicates(),
        forall|i: int| 0 <= i < finished.len() ==> find_racer(racers, #[trigger] finished[i]) is Some,
        find_racer(racers, id) is Some,
        !finished.contains(id),
    ensures
        finished.len() < racers.len(),
{
    let ids = record_ids(racers);
    let fs = finished.to_set().insert(id);
    assert forall|x: BodyId| fs.contains(x) implies ids.to_set().contains(x) by {
        if x == id {
            lemma_find_racer(racers, id);
        } else {
            assert(finished.contains(x));
            let i = choose|i: int| 0 <= i < finished.len() && finished[i] == x;
            lemma_find_racer(racers, finished[i]);
        }
    }
    finished.unique_seq_to_set();
    ids.lemma_cardinality_of_set();
    vstd::set_lib::lemma_len_subset(fs, ids.to_set());
}

/// What every candidate satisfies, given the snapshot facts that
/// [`RaceLedger::accepts`] guarantees.
pub open spec fn candidate_ok(c: (i64, (BodyId, Scalar)), racers: Seq<RacerRecord>, finished: Seq<BodyId>) -> bool {
    &&& find_racer(racers, c.1.0) is Some
    &&& !is_nan_bits(c.1.1.bits)
    &&& c.0 == rank(c.1.1.bits) as i64
    &&& !finished.contains(c.1.0)
}

/// Candidates are racers that have not finished, with numeric heights, and
/// their ids do not repeat.
pub(crate) proof fn lemma_candidates(
    bodies: Seq<BodySnapshot>,
    tag: Seq<char>,
    finished: Seq<BodyId>,
    racers: Seq<RacerRecord>,
)
    requires
        snapshot_ids(bodies).no_duplicates(),
        forall|j: int|
            0 <= j < bodies.len() && bodies[j].is_alive && has_tag(bodies[j].tags@, tag) ==> find_racer(
                racers,
                (#[trigger] bodies[j]).id,
            ) is Some && !is_nan_bits(bodies[j].position_y.bits),
    ensures
        ranked_ids(candidates(bodies, tag, finished)).no_duplicates(),
        forall|i: int|
            0 <= i < candidates(bodies, tag, finished).len() ==> candidate_ok(
                #[trigger] candidates(bodies, tag, finished)[i],
                racers,
                finished,
            ),
        forall|i: int|
            0 <= i < candidates(bodies, tag, finished).len() ==> snapshot_ids(bodies).contains(
                (#[trigger] candidates(bodies, tag, finished)[i]).1.0,
            ),
    decreases bodies.len(),
{
    if bodies.len() > 0 {
        let t = bodies.drop_last();
        assert(snapshot_ids(t) =~= snapshot_ids(bodies).drop_last());
        assert forall|j: int|
            0 <= j < t.len() && t[j].is_alive && has_tag(t[j].tags@, tag) implies find_racer(
            racers,
            (#[trigger] t[j]).id,
        ) is Some && !is_nan_bits(t[j].position_y.bits) by {
            assert(bodies[j] == t[j]);
        }
        lemma_candidates(t, tag, finished, racers);
        let c = candidates(bodies, tag, finished);
        let ct = candidates(t, tag, finished);
        let b = bodies.last();
        assert(bodies[bodies.len() - 1] == b);
        assert forall|i: int| 0 <= i < c.len() implies snapshot_ids(bodies).contains(
            (#[trigger] c[i]).1.0,
        ) by {
            if i < ct.len() {
                assert(c[i] == ct[i]);
                let j = choose|j: int| 0 <= j < snapshot_ids(t).len() && snapshot_ids(t)[j] == ct[i].1.0;
                assert(snapshot_ids(bodies)[j] == ct[i].1.0);
            } else {
                assert(snapshot_ids(bodies)[bodies.len() - 1] == b.id);
            }
        }
        if b.is_alive && has_tag(b.tags@, tag) && !finished.contains(b.id) {
            assert forall|i: int| 0 <= i < c.len() implies candidate_ok(#[trigger] c[i], racers, finished) by {
                if i < ct.len() {
                    assert(c[i] == ct[i]);
                }
            }
            assert forall|i: int, k: int|
                0 <= i < ranked_ids(c).len() && 0 <= k < ranked_ids(c).len() && i != k implies ranked_ids(
                c,
            )[i] != ranked_ids(c)[k] by {
                if i == c.len() - 1 || k == c.len() - 1 {
                    let o = if i == c.len() - 1 { k } else { i };
                    assert(c[o] == ct[o]);
                    assert(snapshot_ids(t).contains(ct[o].1.0));
                    let j = choose|j: int| 0 <= j < snapshot_ids(t).len() && snapshot_ids(t)[j] == ct[o].1.0;
                    assert(snapshot_ids(bodies)[j] == ct[o].1.0);
                    assert(snapshot_ids(bodies)[bodies.len() - 1] == b.id);
                } else {
                    assert(ranked_ids(c)[i] == ranked_ids(ct)[i]);
                    assert(ranked_ids(c)[k] == ranked_ids(ct)[k]);
                }
            }
        } else {
            assert(c == ct);
        }
    }
}

/// Sorting keeps the items, and so keeps ids distinct.
pub(crate) proof fn lemma_sort_keeps_distinct(s: Seq<(i64, (BodyId, Scalar))>)
    requires
        ranked_ids(s).no_duplicates(),
    ensures
        ranked_ids(sort_stable(s)).no_duplicates(),
        forall|e: (i64, (BodyId, Scalar))| sort_stable(s).contains(e) <==> s.contains(e),
    decreases s.len(),
{
    broadcast use vstd::seq_lib::group_to_multiset_ensures;

    lemma_sort_stable_sorted(s);
    assert forall|e: (i64, (BodyId, Scalar))| sort_stable(s).contains(e) <==> s.contains(e) by {
        assert(sort_stable(s).to_multiset().count(e) == s.to_multiset().count(e));
    }
    if s.len() > 0 {
        let t = s.drop_last();
        let x = s.last();
        assert(ranked_ids(t) =~= ranked_ids(s).drop_last());
        lemma_sort_keeps_distinct(t);
        let u = sort_stable(t);
        crate::order::lemma_insert_splice_public(u, x);
        let p = crate::order::insertion_point(u, x);
        let r = sort_stable(s);
        assert(r == u.take(p).push(x) + u.skip(p));
        assert forall|i: int, k: int|
            0 <= i < ranked_ids(r).len() && 0 <= k < ranked_ids(r).len() && i != k implies ranked_ids(
            r,
        )[i] != ranked_ids(r)[k] by {
            let ui = if i < p { i } else { i - 1 };
            let uk = if k < p { k } else { k - 1 };
            if i != p && k != p {
                assert(r[i] == u[ui]);
                assert(r[k] == u[uk]);
                assert(ranked_ids(u)[ui] == r[i].1.0);
                assert(ranked_ids(u)[uk] == r[k].1.0);
            } else {
                let other = if i == p { k } else { i };
                let uo = if other < p { other } else { other - 1 };
                assert(r[other] == u[uo]);
                assert(u.contains(u[uo]));
                assert(t.contains(u[uo]));
                let j = choose|j: int| 0 <= j < t.len() && t[j] == u[uo];
                assert(ranked_ids(s)[j] == t[j].1.0);
                assert(ranked_ids(s)[s.len() - 1] == x.1.0);
            }
        }
    }
}

/// Crossed checkpoint indices are below `n`, strictly increasing, and not
/// credited before.
pub(crate) proof fn lemma_crossings_bounds(
    cps: Seq<Scalar>,
    y: Scalar,
    id: BodyId,
    credited: Seq<(BodyId, usize)>,
    n: nat,
)
    requires
        n <= usize::MAX,
    ensures
        forall|i: int|
            0 <= i < crossings(cps, y, id, credited, n).len() ==> (#[trigger] crossings(cps, y, id, credited, n)[i])
                < n && !credited.contains((id, crossings(cps, y, id, credited, n)[i])),
        forall|i: int, j: int|
            0 <= i < j < crossings(cps, y, id, credited, n).len() ==> crossings(cps, y, id, credited, n)[i]
                < crossings(cps, y, id, credited, n)[j],
    decreases n,
{
    if n > 0 {
        lemma_crossings_bounds(cps, y, id, credited, (n - 1) as nat);
        let r = crossings(cps, y, id, credited, (n - 1) as nat);
        let c = crossings(cps, y, id, credited, n);
        let ci = n - 1;
        if !spec_lt(cps[ci], y) && !credited.contains((id, ci as usize)) {
            assert(c == r.push(ci as usize));
            assert forall|i: int| 0 <= i < c.len() implies (#[trigger] c[i]) < n && !credited.contains((id, c[i])) by {
                if i < r.len() {
                    assert(c[i] == r[i]);
                }
            }
            assert forall|i: int, j: int| 0 <= i < j < c.len() implies c[i] < c[j] by {
                if j < r.len() {
                    assert(c[i] == r[i] && c[j] == r[j]);
                } else {
                    assert(c[i] == r[i]);
                }
            }
        } else {
            assert(c == r);
        }
    }
}

/// Ranking candidates of a snapshot, keyed by height.
fn candidates_of(bodies: &Vec<BodySnapshot>, tag: &String, finished: &Vec<BodyId>) -> (r: Vec<(i64, (BodyId, Scalar))>)
    ensures
        r@ == candidates(bodies@, tag@, finished@),
{
    let mut out: Vec<(i64, (BodyId, Scalar))> = Vec::new();
    let mut i: usize = 0;
    while i < bodies.len()
        invariant
            0 <= i <= bodies@.len(),
            out@ == candidates(bodies@.take(i as int), tag@, finished@),
        decreases bodies.len() - i,
    {
        let b = &bodies[i];
        proof {
            assert(bodies@.take(i + 1).drop_last() =~= bodies@.take(i as int));
            assert(bodies@.take(i + 1).last() == bodies@[i as int]);
        }
        if b.is_alive && tags_contain(&b.tags, tag) && !ids_contain(finished, b.id) {
            out.push((height_key(b.position_y), (b.id, b.position_y)));
        }
        i = i + 1;
    }
    assert(bodies@.take(bodies@.len() as int) =~= bodies@);
    out
}

impl RaceLedger {
    /// Visit one ranked racer: credit checkpoints, and move it to the
    /// finished list when it reached the finish line.
    fn visit_racer(
        &mut self,
        events: &mut Vec<RaceEvent>,
        id: BodyId,
        y: Scalar,
        rnk: usize,
        t: Scalar,
    )
        requires
            old(self).wf(),
            find_racer(old(self).racers@, id) is Some,
            !old(self).finished_ids@.contains(id),
        ensures
            final(self).wf(),
            ({
                let st = visit(
                    (
                        old(events)@,
                        old(self).racers@,
                        old(self).finished_ids@,
                        old(self).state.finished@,
                        old(self).state.winner,
                        old(self).credited@,
                    ),
                    old(self).checkpoints@,
                    old(self).finish_y,
                    id,
                    y,
                    rnk,
                    t,
                    old(self).elimination_count as nat,
                );
                &&& final(events)@ == st.0
                &&& final(self).racers@ == st.1
                &&& final(self).finished_ids@ == st.2
                &&& final(self).state.finished@ == st.3
                &&& final(self).state.winner == st.4
                &&& final(self).credited@ == st.5
            }),
            record_ids(final(self).racers@) == record_ids(old(self).racers@),
            final(self).racer_tag == old(self).racer_tag,
            final(self).finish_y == old(self).finish_y,
            final(self).checkpoints == old(self).checkpoints,
            final(self).previous_rankings == old(self).previous_rankings,
            final(self).state.active == old(self).state.active,
            final(self).state.elapsed_secs == old(self).state.elapsed_secs,
            final(self).elimination_count == old(self).elimination_count,
    {
        let ghost racers0 = self.racers@;
        let ghost events0 = events@;
        proof {
            lemma_find_racer(racers0, id);
        }
        let k = match find_racer_exec(&self.racers, id) {
            Some(k) => k,
            None => {
                return;  // unreachable: `id` is a racer
            },
        };
        let last = self.racers[k].last_checkpoint;
        let n_checkpoints = self.checkpoints.len();
        let n_racers = self.racers.len();
        let crossed = crossings_exec(&self.checkpoints, y, id, &self.credited);
        let ghost credited0 = self.credited@;
        proof {
            lemma_crossings_bounds(self.checkpoints@, y, id, credited0, self.checkpoints@.len() as nat);
        }
        let ghost rec = racers0[k as int];
        let ghost cp_events = crossed@.map_values(
            |ci: usize|
                RaceEvent::CheckpointCrossed {
                    body_id: id,
                    display_name: rec.display_name,
                    checkpoint_index: ci,
                    checkpoint_y: self.checkpoints@[ci as int],
                    rank_at_crossing: rnk,
                },
        );
        let mut i: usize = 0;
        while i < crossed.len()
            invariant
                0 <= i <= crossed@.len(),
                k < self.racers@.len(),
                self.racers@ == racers0,
                rec == racers0[k as int],
                crossed@ == crossings(self.checkpoints@, y, id, credited0, self.checkpoints@.len() as nat),
                self.credited@ == credited0 + credit_pairs(id, crossed@).take(i as int),
                self.finished_ids@ == old(self).finished_ids@,
                self.state.finished@ == old(self).state.finished@,
                self.state.winner == old(self).state.winner,
                self.elimination_count == old(self).elimination_count,
                self.checkpoints == old(self).checkpoints,
                self.racer_tag == old(self).racer_tag,
                self.finish_y == old(self).finish_y,
                self.previous_rankings == old(self).previous_rankings,
                self.state.active == old(self).state.active,
                self.state.elapsed_secs == old(self).state.elapsed_secs,
                old(self).wf(),
                forall|j: int| 0 <= j < crossed@.len() ==> (#[trigger] crossed@[j]) < self.checkpoints@.len(),
                cp_events == crossed@.map_values(
                    |ci: usize|
                        RaceEvent::CheckpointCrossed {
                            body_id: id,
                            display_name: rec.display_name,
                            checkpoint_index: ci,
                            checkpoint_y: self.checkpoints@[ci as int],
                            rank_at_crossing: rnk,
                        },
                ),
                events@ == events0 + cp_events.take(i as int),
            decreases crossed.len() - i,
        {
            let ci = crossed[i];
            events.push(
                RaceEvent::CheckpointCrossed {
                    body_id: id,
                    display_name: self.racers[k].display_name.clone(),
                    checkpoint_index: ci,
                    checkpoint_y: self.checkpoints[ci],
                    rank_at_crossing: rnk,
                },
            );
            self.credited.push((id, ci));
            proof {
                assert(cp_events.take(i + 1) =~= cp_events.take(i as int).push(cp_events[i as int]));
                assert(credit_pairs(id, crossed@).take(i + 1) =~= credit_pairs(id, crossed@).take(i as int).push(
                    (id, ci),
                ));
            }
            i = i + 1;
        }
        assert(cp_events.take(crossed@.len() as int) =~= cp_events);
        assert(credit_pairs(id, crossed@).take(crossed@.len() as int) =~= credit_pairs(id, crossed@));
        proof {
            lemma_credits_fresh(credited0, id, crossed@);
        }
        let new_last = if crossed.len() == 0 {
            last
        } else {
            Some(crossed[crossed.len() - 1])
        };
        let updated = RacerRecord {
            id: self.racers[k].id,
            display_name: self.racers[k].display_name.clone(),
            color: self.racers[k].color,
            last_checkpoint: new_last,
        };
        assert(updated == (RacerRecord { last_checkpoint: after_crossings(rec.last_checkpoint, crossed@), ..rec }));
        proof {
            lemma_find_racer_update(racers0, k as int, updated, id);
            assert forall|f: BodyId| find_racer(racers0.update(k as int, updated), f) == find_racer(
                racers0,
                f,
            ) by {
                lemma_find_racer_update(racers0, k as int, updated, f);
            }
        }
        self.racers.set(k, updated);
        if y.le(&self.finish_y) {
            proof {
                assert forall|i: int| 0 <= i < self.finished_ids@.len() implies find_racer(
                    racers0,
                    #[trigger] self.finished_ids@[i],
                ) is Some by {
                    assert(old(self).state.finished@[i].body_id == old(self).finished_ids@[i]);
                }
                lemma_room_for_finisher(self.finished_ids@, racers0, id);
            }
            let finish_rank = self.finished_ids.len() - self.elimination_count + 1;
            self.finished_ids.push(id);
            events.push(
                RaceEvent::RacerFinished {
                    body_id: id,
                    display_name: self.racers[k].display_name.clone(),
                    finish_rank,
                    finish_time_secs: t,
                },
            );
            if self.state.winner.is_none() {
                self.state.winner = Some(
                    WinnerInfo {
                        body_id: id,
                        display_name: self.racers[k].display_name.clone(),
                        color: self.racers[k].color,
                        finish_time_secs: t,
                    },
                );
                events.push(
                    RaceEvent::RaceComplete {
                        winner: WinnerInfo {
                            body_id: id,
                            display_name: self.racers[k].display_name.clone(),
                            color: self.racers[k].color,
                            finish_time_secs: t,
                        },
                    },
                );
            }
            self.state.finished.push(
                FinishedEntry {
                    body_id: id,
                    display_name: self.racers[k].display_name.clone(),
                    color: self.racers[k].color,
                    finish_rank,
                    finish_time_secs: t,
                },
            );
            proof {
                let n = self.finished_ids@.len() - 1;
                assert(self.finished_ids@[n] == id);
                assert forall|a: int, b: int|
                    0 <= a < self.finished_ids@.len() && 0 <= b < self.finished_ids@.len() && a != b
                        implies self.finished_ids@[a] != self.finished_ids@[b] by {
                    if a == n {
                        assert(old(self).finished_ids@[b] == self.finished_ids@[b]);
                    } else if b == n {
                        assert(old(self).finished_ids@[a] == self.finished_ids@[a]);
                    } else {
                        assert(old(self).finished_ids@[a] == self.finished_ids@[a]);
                        assert(old(self).finished_ids@[b] == self.finished_ids@[b]);
                    }
                }
                assert forall|i: int| 0 <= i < self.finished_ids@.len() implies {
                    &&& (#[trigger] self.state.finished@[i]).body_id == self.finished_ids@[i]
                    &&& self.elimination_count == 0 ==> self.state.finished@[i].finish_rank == i + 1
                    &&& find_racer(self.racers@, self.finished_ids@[i]) is Some
                } by {
                    if i < n {
                        assert(self.state.finished@[i] == old(self).state.finished@[i]);
                        assert(self.finished_ids@[i] == old(self).finished_ids@[i]);
                    }
                }
                if self.state.winner is Some {
                    let w = self.state.winner->0;
                    if old(self).state.winner is Some {
                        let j = choose|j: int|
                            0 <= j < old(self).finished_ids@.len() && old(self).finished_ids@[j]
                                == w.body_id;
                        assert(self.finished_ids@[j] == w.body_id);
                    } else {
                        assert(self.finished_ids@[n] == w.body_id);
                    }
                }
            }
        } else {
            proof {
                assert forall|i: int| 0 <= i < self.finished_ids@.len() implies find_racer(
                    self.racers@,
                    #[trigger] self.finished_ids@[i],
                ) is Some by {
                    assert(self.state.finished@[i].body_id == self.finished_ids@[i]);
                }
            }
        }
    }
}

/// Rank of `id` in `ranking` (0 when absent).
fn rank_in_exec(ranking: &Vec<(i64, (BodyId, Scalar))>, id: BodyId) -> (r: usize)
    ensures
        r == rank_in(ranking@, id),
        r <= ranking@.len(),
{
    let mut n: usize = ranking.len();
    assert(ranking@.take(n as int) =~= ranking@);
    while n > 0
        invariant
            n <= ranking@.len(),
            rank_in(ranking@, id) == rank_in(ranking@.take(n as int), id),
        decreases n,
    {
        proof {
            assert(ranking@.take(n as int).drop_last() =~= ranking@.take(n - 1));
        }
        if ranking[n - 1].1.0 == id {
            return n;
        }
        n = n - 1;
    }
    0
}

/// Positions of the racers of `ranking` that are not in `finished`.
fn running_positions_exec(ranking: &Vec<(i64, (BodyId, Scalar))>, finished: &Vec<BodyId>) -> (r: Vec<usize>)
    ensures
        r@.len() == running_positions(ranking@, finished@, ranking@.len() as nat).len(),
        forall|i: int| 0 <= i < r@.len() ==> (#[trigger] r@[i]) as int == running_positions(
            ranking@,
            finished@,
            ranking@.len() as nat,
        )[i],
{
    let mut out: Vec<usize> = Vec::new();
    let mut i: usize = 0;
    while i < ranking.len()
        invariant
            0 <= i <= ranking@.len(),
            out@.len() == running_positions(ranking@, finished@, i as nat).len(),
            forall|j: int|
                0 <= j < out@.len() ==> (#[trigger] out@[j]) as int == running_positions(
                    ranking@,
                    finished@,
                    i as nat,
                )[j],
        decreases ranking.len() - i,
    {
        if !ids_contain(finished, ranking[i].1.0) {
            out.push(i);
        }
        i = i + 1;
    }
    out
}

/// Every running position indexes the ranking, and its body is not finished.
proof fn lemma_running_positions(ranking: Seq<(i64, (BodyId, Scalar))>, finished: Seq<BodyId>, n: nat)
    requires
        n <= ranking.len(),
    ensures
        forall|i: int|
            0 <= i < running_positions(ranking, finished, n).len() ==> 0 <= (
            #[trigger] running_positions(ranking, finished, n)[i]) < n && !finished.contains(
                ranking[running_positions(ranking, finished, n)[i]].1.0,
            ),
        forall|i: int, j: int|
            0 <= i < j < running_positions(ranking, finished, n).len() ==> running_positions(ranking, finished, n)[i]
                < running_positions(ranking, finished, n)[j],
    decreases n,
{
    if n > 0 {
        lemma_running_positions(ranking, finished, (n - 1) as nat);
        let r = running_positions(ranking, finished, (n - 1) as nat);
        let c = running_positions(ranking, finished, n);
        if finished.contains(ranking[n - 1].1.0) {
            assert(c == r);
        } else {
            assert(c == r.push(n - 1));
            assert forall|i: int| 0 <= i < c.len() implies 0 <= (#[trigger] c[i]) < n && !finished.contains(
                ranking[c[i]].1.0,
            ) by {
                if i < r.len() {
                    assert(c[i] == r[i]);
                }
            }
            assert forall|i: int, j: int| 0 <= i < j < c.len() implies c[i] < c[j] by {
                assert(c[i] == r[i]);
                if j < r.len() {
                    assert(c[j] == r[j]);
                }
            }
        }
    }
}

/// The racers that left and the racers still running are distinct racers,
/// so together they are no more than all racers.
proof fn lemma_room_for_running(
    finished: Seq<BodyId>,
    racers: Seq<RacerRecord>,
    ranking: Seq<(i64, (BodyId, Scalar))>,
    rp: Seq<usize>,
)
    requires
        finished.no_duplicates(),
        forall|i: int| 0 <= i < finished.len() ==> find_racer(racers, #[trigger] finished[i]) is Some,
        ranked_ids(ranking).no_duplicates(),
        forall|i: int| 0 <= i < ranking.len() ==> find_racer(racers, (#[trigger] ranking[i]).1.0) is Some,
        forall|i: int|
            0 <= i < rp.len() ==> (#[trigger] rp[i]) < ranking.len() && !finished.contains(ranking[rp[i] as int].1.0),
        forall|i: int, j: int| 0 <= i < j < rp.len() ==> rp[i] < rp[j],
    ensures
        finished.len() + rp.len() <= racers.len(),
{
    let run = rp.map_values(|p: usize| ranking[p as int].1.0);
    let all = finished + run;
    assert forall|a: int, b: int| 0 <= a < all.len() && 0 <= b < all.len() && a != b implies all[a] != all[b] by {
        if a < finished.len() && b < finished.len() {
        } else if a >= finished.len() && b >= finished.len() {
            let pa = rp[a - finished.len()] as int;
            let pb = rp[b - finished.len()] as int;
            assert(pa != pb) by {
                if a < b {
                    assert(rp[a - finished.len()] < rp[b - finished.len()]);
                } else {
                    assert(rp[b - finished.len()] < rp[a - finished.len()]);
                }
            }
            assert(ranked_ids(ranking)[pa] == ranking[pa].1.0);
            assert(ranked_ids(ranking)[pb] == ranking[pb].1.0);
        } else {
            let (f, r) = if a < finished.len() { (a, b) } else { (b, a) };
            assert(all[f] == finished[f]);
            assert(!finished.contains(ranking[rp[r - finished.len()] as int].1.0));
        }
    }
    let ids = record_ids(racers);
    assert forall|x: BodyId| all.to_set().contains(x) implies ids.to_set().contains(x) by {
        let q = choose|q: int| 0 <= q < all.len() && all[q] == x;
        if q < finished.len() {
            lemma_find_racer(racers, finished[q]);
        } else {
            let p = rp[q - finished.len()] as int;
            lemma_find_racer(racers, ranking[p].1.0);
        }
    }
    all.unique_seq_to_set();
    ids.lemma_cardinality_of_set();
    vstd::set_lib::lemma_len_subset(all.to_set(), ids.to_set());
}

/// Keyed active-list entries of a snapshot, in snapshot order.
fn active_unsorted_exec(
    bodies: &Vec<BodySnapshot>,
    racers: &Vec<RacerRecord>,
    finished: &Vec<BodyId>,
    ranking: &Vec<(i64, (BodyId, Scalar))>,
) -> (r: Vec<(i64, RacerStatus)>)
    ensures
        r@ == active_unsorted(bodies@, racers@, finished@, ranking@),
{
    let mut out: Vec<(i64, RacerStatus)> = Vec::new();
    let mut i: usize = 0;
    while i < bodies.len()
        invariant
            0 <= i <= bodies@.len(),
            out@ == active_unsorted(bodies@.take(i as int), racers@, finished@, ranking@),
        decreases bodies.len() - i,
    {
        let b = &bodies[i];
        proof {
            assert(bodies@.take(i + 1).drop_last() =~= bodies@.take(i as int));
            assert(bodies@.take(i + 1).last() == bodies@[i as int]);
        }
        proof {
            lemma_find_racer(racers@, b.id);
        }
        if b.is_alive {
            match find_racer_exec(racers, b.id) {
                Some(k) => {
                    if !ids_contain(finished, b.id) {
                        let r = rank_in_exec(ranking, b.id);
                        out.push(
                            (
                                r as i64,
                                RacerStatus {
                                    body_id: b.id,
                                    display_name: racers[k].display_name.clone(),
                                    color: racers[k].color,
                                    rank: r,
                                    position_y: b.position_y,
                                    last_checkpoint: racers[k].last_checkpoint,
                                },
                            ),
                        );
                    }
                },
                None => {},
            }
        }
        i = i + 1;
    }
    assert(bodies@.take(bodies@.len() as int) =~= bodies@);
    out
}

/// Drop the sort keys of an ordered active list and rank its entries
/// 1, 2, 3, … in order.
fn unkey_statuses(items: Vec<(i64, RacerStatus)>) -> (r: Vec<RacerStatus>)
    ensures
        r@ == renumbered(unkeyed(items@)),
{
    let ghost orig = items@;
    assert(orig.len() == items.len());
    let mut rest = items;
    let mut out: Vec<RacerStatus> = Vec::new();
    let ghost mut k: int = 0;
    while rest.len() > 0
        invariant
            0 <= k <= orig.len(),
            orig.len() <= usize::MAX,
            out@.len() == k,
            rest@ == orig.skip(k),
            out@ == renumbered(unkeyed(orig.take(k))),
        decreases rest.len(),
    {
        let x = rest.remove(0);
        let n = out.len();
        let st = x.1;
        out.push(
            RacerStatus {
                body_id: st.body_id,
                display_name: st.display_name,
                color: st.color,
                rank: n + 1,
                position_y: st.position_y,
                last_checkpoint: st.last_checkpoint,
            },
        );
        proof {
            assert(x == orig[k]);
            assert(renumbered(unkeyed(orig.take(k + 1))) =~= renumbered(unkeyed(orig.take(k))).push(
                RacerStatus { rank: (k + 1) as usize, ..orig[k].1 },
            ));
            k = k + 1;
            assert(rest@ =~= orig.skip(k));
        }
    }
    assert(orig.take(k) =~= orig);
    out
}

/// The active list of a snapshot: running racers by height, ranked from 1.
fn build_active(
    bodies: &Vec<BodySnapshot>,
    racers: &Vec<RacerRecord>,
    finished: &Vec<BodyId>,
    ranking: &Vec<(i64, (BodyId, Scalar))>,
) -> (r: Vec<RacerStatus>)
    ensures
        r@ == active_list(bodies@, racers@, finished@, ranking@),
{
    let unsorted = active_unsorted_exec(bodies, racers, finished, ranking);
    unkey_statuses(sort_by_key_stable(unsorted))
}

/// Discovered racer ids come from the snapshot, without repetition.
proof fn lemma_discovered_ids(bodies: Seq<BodySnapshot>, tag: Seq<char>)
    requires
        snapshot_ids(bodies).no_duplicates(),
    ensures
        discovered(bodies, tag).map_values(|d: (BodyId, Seq<char>, Color)| d.0).no_duplicates(),
        forall|i: int|
            0 <= i < discovered(bodies, tag).len() ==> snapshot_ids(bodies).contains(
                (#[trigger] discovered(bodies, tag)[i]).0,
            ),
    decreases bodies.len(),
{
    let f = |d: (BodyId, Seq<char>, Color)| d.0;
    if bodies.len() > 0 {
        let t = bodies.drop_last();
        assert(snapshot_ids(t) =~= snapshot_ids(bodies).drop_last());
        lemma_discovered_ids(t, tag);
        let c = discovered(bodies, tag);
        let ct = discovered(t, tag);
        let b = bodies.last();
        assert(snapshot_ids(bodies)[bodies.len() - 1] == b.id);
        assert forall|i: int| 0 <= i < c.len() implies snapshot_ids(bodies).contains((#[trigger] c[i]).0) by {
            if i < ct.len() {
                assert(c[i] == ct[i]);
                let j = choose|j: int| 0 <= j < snapshot_ids(t).len() && snapshot_ids(t)[j] == ct[i].0;
                assert(snapshot_ids(bodies)[j] == ct[i].0);
            }
        }
        if has_tag(b.tags@, tag) {
            assert forall|i: int, k: int|
                0 <= i < c.map_values(f).len() && 0 <= k < c.map_values(f).len() && i != k implies c.map_values(
                f,
            )[i] != c.map_values(f)[k] by {
                if i == c.len() - 1 || k == c.len() - 1 {
                    let o = if i == c.len() - 1 { k } else { i };
                    assert(c[o] == ct[o]);
                    assert(snapshot_ids(t).contains(ct[o].0));
                    let j = choose|j: int| 0 <= j < snapshot_ids(t).len() && snapshot_ids(t)[j] == ct[o].0;
                    assert(snapshot_ids(bodies)[j] == ct[o].0);
                } else {
                    assert(c.map_values(f)[i] == ct.map_values(f)[i]);
                    assert(c.map_values(f)[k] == ct.map_values(f)[k]);
                }
            }
        } else {
            assert(c == ct);
        }
    }
}

/// Records built from `discovered` entries, with no checkpoint credited.
pub open spec fn records_match(racers: Seq<RacerRecord>, disc: Seq<(BodyId, Seq<char>, Color)>) -> bool {
    &&& racers.len() == disc.len()
    &&& forall|i: int|
        0 <= i < racers.len() ==> {
            &&& (#[trigger] racers[i]).id == disc[i].0
            &&& racers[i].display_name@ == disc[i].1
            &&& racers[i].color == disc[i].2
            &&& racers[i].last_checkpoint is None
        }
}

/// Display name of a body used as a racer.
fn display_name_of(b: &BodySnapshot) -> (r: String)
    ensures
        r@ == racer_display_name(b.name, b.id),
{
    match &b.name {
        Some(n) => n.clone(),
        None => {
            let mut s = String::from_str("Racer ");
            push_decimal(&mut s, b.id.0 as u64);
            s
        },
    }
}

impl RaceLedger {
    /// Build the race ledger from the initial snapshot: every body carrying
    /// `racer_tag` becomes a racer; nothing has finished, and the active
    /// list holds the live racers by height, the leader (lowest) first with
    /// rank 1.
    pub fn new(racer_tag: String, finish_y: Scalar, checkpoints: Vec<Scalar>, bodies: &Vec<BodySnapshot>) -> (r: RaceLedger)
        requires
            snapshot_ids(bodies@).no_duplicates(),
        ensures
            r.wf(),
            r.racer_tag == racer_tag,
            r.finish_y == finish_y,
            r.checkpoints == checkpoints,
            records_match(r.racers@, discovered(bodies@, racer_tag@)),
            r.previous_rankings@.len() == 0,
            r.finished_ids@.len() == 0,
            r.state.finished@.len() == 0,
            r.state.winner is None,
            r.state.elapsed_secs.bits == 0,
            r.elimination_count == 0,
            r.credited@.len() == 0,
            r.state.active@ == active_list(
                bodies@,
                r.racers@,
                Seq::empty(),
                sort_stable(candidates(bodies@, racer_tag@, Seq::empty())),
            ),
    {
        let mut racers: Vec<RacerRecord> = Vec::new();
        let mut i: usize = 0;
        while i < bodies.len()
            invariant
                0 <= i <= bodies@.len(),
                records_match(racers@, discovered(bodies@.take(i as int), racer_tag@)),
            decreases bodies.len() - i,
        {
            let b = &bodies[i];
            proof {
                assert(bodies@.take(i + 1).drop_last() =~= bodies@.take(i as int));
                assert(bodies@.take(i + 1).last() == bodies@[i as int]);
            }
            if tags_contain(&b.tags, &racer_tag) {
                let name = display_name_of(b);
                racers.push(RacerRecord { id: b.id, display_name: name, color: b.color, last_checkpoint: None });
            }
            i = i + 1;
        }
        proof {
            assert(bodies@.take(bodies@.len() as int) =~= bodies@);
            lemma_discovered_ids(bodies@, racer_tag@);
            let disc = discovered(bodies@, racer_tag@);
            assert(record_ids(racers@) =~= disc.map_values(|d: (BodyId, Seq<char>, Color)| d.0));
        }
        let no_ids: Vec<BodyId> = Vec::new();
        let ranking = sort_by_key_stable(candidates_of(bodies, &racer_tag, &no_ids));
        let active = build_active(bodies, &racers, &no_ids, &ranking);
        assert(no_ids@ =~= Seq::<BodyId>::empty());
        RaceLedger {
            racer_tag,
            finish_y,
            checkpoints,
            racers,
            previous_rankings: Vec::new(),
            finished_ids: Vec::new(),
            state: RaceState { active, finished: Vec::new(), winner: None, elapsed_secs: Scalar::zero() },
            elimination_count: 0,
            credited: Vec::new(),
        }
    }
}

/// Starting point of the pass over the ranking for ledger `l`.
pub open spec fn pass_start(l: RaceLedger) -> PassState {
    (Seq::empty(), l.racers@, l.finished_ids@, l.state.finished@, l.state.winner, l.credited@)
}

/// The ranking a step computes for snapshot `bodies`.
pub open spec fn step_ranking(l: RaceLedger, bodies: Seq<BodySnapshot>) -> Seq<(i64, (BodyId, Scalar))> {
    sort_stable(candidates(bodies, l.racer_tag@, l.finished_ids@))
}

/// The pass state after visiting every ranked racer.
pub open spec fn step_pass(l: RaceLedger, bodies: Seq<BodySnapshot>, t: Scalar) -> PassState {
    let ranking = step_ranking(l, bodies);
    pass(pass_start(l), l.checkpoints@, l.finish_y, ranking, t, l.elimination_count as nat, ranking.len())
}

/// Whether the step eliminates a racer: the round is due and more than one
/// ranked racer is still running after the finish-line checks.
pub open spec fn step_eliminates(l: RaceLedger, bodies: Seq<BodySnapshot>, t: Scalar, due: bool) -> bool {
    let ranking = step_ranking(l, bodies);
    due && running_positions(ranking, step_pass(l, bodies, t).2, ranking.len()).len() > 1
}

/// Number of ranked racers still running after the finish-line checks.
pub open spec fn step_running(l: RaceLedger, bodies: Seq<BodySnapshot>, t: Scalar) -> nat {
    let ranking = step_ranking(l, bodies);
    running_positions(ranking, step_pass(l, bodies, t).2, ranking.len()).len()
}

/// Position in the ranking of the racer an elimination removes: the
/// last-placed racer still running.
pub open spec fn step_eliminated_position(l: RaceLedger, bodies: Seq<BodySnapshot>, t: Scalar) -> int {
    let ranking = step_ranking(l, bodies);
    running_positions(ranking, step_pass(l, bodies, t).2, ranking.len()).last()
}

/// A ledger whose records, finished lists, winner, elimination count and
/// credits are those of a well-formed ledger is well formed.
proof fn lemma_wf_same_records(p: RaceLedger, q: RaceLedger)
    requires
        p.wf(),
        q.racers@ == p.racers@,
        q.finished_ids@ == p.finished_ids@,
        q.state.finished@ == p.state.finished@,
        q.state.winner == p.state.winner,
        q.elimination_count == p.elimination_count,
        q.credited@ == p.credited@,
    ensures
        q.wf(),
{
}

/// What one step leaves: `l2` and `events` are the ledger and the events
/// after `l` takes a step at time `t` on snapshot `bodies`, with an
/// elimination round `due` or not.
pub open spec fn steps_to(
    l: RaceLedger,
    bodies: Seq<BodySnapshot>,
    t: Scalar,
    due: bool,
    l2: RaceLedger,
    events: Seq<RaceEvent>,
) -> bool {
    let ranking = step_ranking(l, bodies);
    let st = step_pass(l, bodies, t);
    let changed = ranked_ids(ranking) != l.previous_rankings@ && ranking.len() > 0;
    let head: int = if changed { 1 } else { 0 };
    let elim = step_eliminates(l, bodies, t, due);
    let j = step_eliminated_position(l, bodies, t);
    let eid = ranking[j].1.0;
    let erec = st.1[find_racer(st.1, eid).unwrap()];
    let fin_ids = if elim { st.2.push(eid) } else { st.2 };
    let elim_event = RaceEvent::RacerEliminated {
        body_id: eid,
        display_name: erec.display_name,
        rank_at_elimination: (j + 1) as usize,
        elimination_number: (l.elimination_count + 1) as usize,
    };
    let elim_entry = FinishedEntry {
        body_id: eid,
        display_name: erec.display_name,
        color: erec.color,
        finish_rank: (st.2.len() - l.elimination_count + step_running(l, bodies, t)) as usize,
        finish_time_secs: t,
    };
    &&& changed ==> (events[0] matches RaceEvent::RankChanged { new_rankings }
        && new_rankings@ == rank_pairs(ranking))
    &&& events.len() >= head
    &&& events.skip(head) == st.0 + (if elim { seq![elim_event] } else { Seq::empty() })
    &&& l2.racers@ == st.1
    &&& l2.previous_rankings@ == ranked_ids(ranking)
    &&& l2.finished_ids@ == fin_ids
    &&& l2.state.finished@ == (if elim { st.3.push(elim_entry) } else { st.3 })
    &&& l2.state.winner == st.4
    &&& l2.elimination_count == l.elimination_count + (if elim { 1int } else { 0int })
    &&& l2.state.active@ == active_list(bodies, st.1, fin_ids, ranking)
    &&& l2.credited@ == st.5
    &&& l2.state.elapsed_secs == t
    &&& l2.wf()
    &&& l2.racer_tag == l.racer_tag
    &&& l2.finish_y == l.finish_y
    &&& l2.checkpoints == l.checkpoints
}

impl RaceLedger {
    /// Advance the standings by one physics step.
    ///
    /// `t` is the simulation time after the step, `bodies` the snapshot of
    /// every body, and `elimination_due` whether the next elimination round
    /// is due at `t` (its timer is kept by the caller, who advances it when a
    /// [`RaceEvent::RacerEliminated`] is reported).
    ///
    /// The step ranks the racers still running by height (stable for equal
    /// heights, in snapshot order), reports a [`RaceEvent::RankChanged`]
    /// first when the order differs from the previous step's, visits the
    /// racers in rank order (checkpoints, then the finish line), and finally
    /// eliminates the last-placed running racer when due and more than one
    /// runs.  A racer reaching the finish line places right after those who
    /// crossed it before (1 = winner); an eliminated racer places last among
    /// the racers not yet placed.  Each checkpoint is credited to a racer
    /// once, the first step it is at or below it, whatever the order of the
    /// checkpoints.  The active list then holds the running racers by height,
    /// ranked 1, 2, 3, … among themselves.
    pub fn step(&mut self, t: Scalar, bodies: &Vec<BodySnapshot>, elimination_due: bool) -> (events: Vec<RaceEvent>)
        requires
            old(self).wf(),
            old(self).accepts(bodies@),
        ensures
            steps_to(*old(self), bodies@, t, elimination_due, *final(self), events@),
    {
        let ghost l = *self;
        let ghost racers0 = self.racers@;
        let cand = candidates_of(bodies, &self.racer_tag, &self.finished_ids);
        proof {
            lemma_candidates(bodies@, self.racer_tag@, self.finished_ids@, racers0);
            lemma_sort_keeps_distinct(cand@);
        }
        let ranking = sort_by_key_stable(cand);
        proof {
            assert forall|e: (i64, (BodyId, Scalar))| ranking@.contains(e) implies candidate_ok(
                e,
                racers0,
                l.finished_ids@,
            ) by {
                assert(cand@.contains(e));
                let q = choose|q: int| 0 <= q < cand@.len() && cand@[q] == e;
                assert(candidate_ok(cand@[q], racers0, l.finished_ids@));
            }
            assert forall|j: int| 0 <= j < ranking@.len() implies !self.finished_ids@.contains(
                (#[trigger] ranking@[j]).1.0,
            ) by {
                assert(ranking@.contains(ranking@[j]));
            }
        }
        let mut events: Vec<RaceEvent> = Vec::new();
        // ── 1. leaderboard order ──────────────────────────────────────────
        let mut ids: Vec<BodyId> = Vec::new();
        let mut pairs: Vec<(BodyId, usize)> = Vec::new();
        let mut i: usize = 0;
        while i < ranking.len()
            invariant
                0 <= i <= ranking@.len(),
                ids@ == ranked_ids(ranking@).take(i as int),
                pairs@ == rank_pairs(ranking@).take(i as int),
            decreases ranking.len() - i,
        {
            ids.push(ranking[i].1.0);
            pairs.push((ranking[i].1.0, i + 1));
            proof {
                assert(ranked_ids(ranking@).take(i + 1) =~= ranked_ids(ranking@).take(i as int).push(
                    ranking@[i as int].1.0,
                ));
                assert(rank_pairs(ranking@).take(i + 1) =~= rank_pairs(ranking@).take(i as int).push(
                    (ranking@[i as int].1.0, (i + 1) as usize),
                ));
            }
            i = i + 1;
        }
        assert(ranked_ids(ranking@).take(ranking@.len() as int) =~= ranked_ids(ranking@));
        assert(rank_pairs(ranking@).take(ranking@.len() as int) =~= rank_pairs(ranking@));
        let changed = !ids_equal(&ids, &self.previous_rankings) && ranking.len() > 0;
        if changed {
            events.push(RaceEvent::RankChanged { new_rankings: pairs });
        }
        let ghost events_head = events@;
        let ghost head: int = if changed { 1 } else { 0 };
        // ── 2. checkpoints and the finish line, in rank order ────────────
        let mut pass_events: Vec<RaceEvent> = Vec::new();
        let mut k: usize = 0;
        assert(pass_events@ =~= Seq::<RaceEvent>::empty());
        while k < ranking.len()
            invariant
                0 <= k <= ranking@.len(),
                self.wf(),
                ranking@ == step_ranking(l, bodies@),
                ranked_ids(ranking@).no_duplicates(),
                forall|e: (i64, (BodyId, Scalar))|
                    ranking@.contains(e) ==> candidate_ok(e, racers0, l.finished_ids@),
                record_ids(self.racers@) == record_ids(racers0),
                forall|j: int|
                    k <= j < ranking@.len() ==> !self.finished_ids@.contains(
                        (#[trigger] ranking@[j]).1.0,
                    ),
                (
                    pass_events@,
                    self.racers@,
                    self.finished_ids@,
                    self.state.finished@,
                    self.state.winner,
                    self.credited@,
                ) == pass(pass_start(l), l.checkpoints@, l.finish_y, ranking@, t, l.elimination_count as nat, k as nat),
                self.racer_tag == l.racer_tag,
                self.finish_y == l.finish_y,
                self.checkpoints == l.checkpoints,
                self.elimination_count == l.elimination_count,
                self.previous_rankings == l.previous_rankings,
                events@ == events_head,
            decreases ranking.len() - k,
        {
            let id = ranking[k].1.0;
            let y = ranking[k].1.1;
            proof {
                assert(ranking@.contains(ranking@[k as int]));
                lemma_find_racer(racers0, id);
                lemma_find_racer(self.racers@, id);
            }
            let ghost before = self.finished_ids@;
            self.visit_racer(&mut pass_events, id, y, k + 1, t);
            proof {
                assert forall|j: int| k + 1 <= j < ranking@.len() implies !self.finished_ids@.contains(
                    (#[trigger] ranking@[j]).1.0,
                ) by {
                    assert(ranked_ids(ranking@)[j] != ranked_ids(ranking@)[k as int]);
                    if self.finished_ids@.len() > before.len() {
                        assert(self.finished_ids@ == before.push(id));
                    } else {
                        assert(self.finished_ids@ == before);
                    }
                }
            }
            k = k + 1;
        }
        let ghost before_assign = *self;
        self.previous_rankings = ids;
        proof {
            let p = before_assign;
            lemma_wf_same_records(p, *self);
        }
        let ghost st = step_pass(l, bodies@, t);
        // ── 3. elimination round ──────────────────────────────────────────
        let running = running_positions_exec(&ranking, &self.finished_ids);
        proof {
            lemma_running_positions(ranking@, self.finished_ids@, ranking@.len() as nat);
        }
        if elimination_due && running.len() > 1 {
            let j = running[running.len() - 1];
            let eid = ranking[j].1.0;
            proof {
                assert(ranking@.contains(ranking@[j as int]));
                lemma_find_racer(racers0, eid);
                lemma_find_racer(self.racers@, eid);
                assert forall|i: int| 0 <= i < self.finished_ids@.len() implies find_racer(
                    self.racers@,
                    #[trigger] self.finished_ids@[i],
                ) is Some by {
                    assert(self.state.finished@[i].body_id == self.finished_ids@[i]);
                }
                lemma_room_for_finisher(self.finished_ids@, self.racers@, eid);
            }
            let n_racers = self.racers.len();
            let kk = match find_racer_exec(&self.racers, eid) {
                Some(kk) => kk,
                None => {
                    return events;  // unreachable: ranked bodies are racers
                },
            };
            proof {
                assert forall|i: int| 0 <= i < ranking@.len() implies find_racer(
                    self.racers@,
                    (#[trigger] ranking@[i]).1.0,
                ) is Some by {
                    assert(ranking@.contains(ranking@[i]));
                    assert(candidate_ok(ranking@[i], racers0, l.finished_ids@));
                    lemma_find_racer(racers0, ranking@[i].1.0);
                    lemma_find_racer(self.racers@, ranking@[i].1.0);
                }
                assert forall|i: int| 0 <= i < running@.len() implies (#[trigger] running@[i]) < ranking@.len()
                    && !self.finished_ids@.contains(ranking@[running@[i] as int].1.0) by {
                    assert(running@[i] as int == running_positions(ranking@, self.finished_ids@, ranking@.len() as nat)[i]);
                }
                assert forall|i: int, j2: int| 0 <= i < j2 < running@.len() implies running@[i] < running@[j2] by {
                    assert(running@[i] as int == running_positions(ranking@, self.finished_ids@, ranking@.len() as nat)[i]);
                    assert(running@[j2] as int == running_positions(ranking@, self.finished_ids@, ranking@.len() as nat)[j2]);
                }
                lemma_room_for_running(self.finished_ids@, self.racers@, ranking@, running@);
            }
            let ghost before = self.finished_ids@;
            let crossers = self.finished_ids.len() - self.elimination_count;
            let finish_rank = crossers + running.len();
            self.finished_ids.push(eid);
            self.state.finished.push(
                FinishedEntry {
                    body_id: eid,
                    display_name: self.racers[kk].display_name.clone(),
                    color: self.racers[kk].color,
                    finish_rank,
                    finish_time_secs: t,
                },
            );
            self.elimination_count = self.elimination_count + 1;
            pass_events.push(
                RaceEvent::RacerEliminated {
                    body_id: eid,
                    display_name: self.racers[kk].display_name.clone(),
                    rank_at_elimination: j + 1,
                    elimination_number: self.elimination_count,
                },
            );
            proof {
                let n = before.len() as int;
                assert forall|a: int, b: int|
                    0 <= a < self.finished_ids@.len() && 0 <= b < self.finished_ids@.len() && a != b
                        implies self.finished_ids@[a] != self.finished_ids@[b] by {
                    if a == n {
                        assert(before[b] == self.finished_ids@[b]);
                    } else if b == n {
                        assert(before[a] == self.finished_ids@[a]);
                    } else {
                        assert(before[a] == self.finished_ids@[a]);
                        assert(before[b] == self.finished_ids@[b]);
                    }
                }
                assert forall|i: int| 0 <= i < self.finished_ids@.len() implies {
                    &&& (#[trigger] self.state.finished@[i]).body_id == self.finished_ids@[i]
                    &&& self.elimination_count == 0 ==> self.state.finished@[i].finish_rank == i + 1
                    &&& find_racer(self.racers@, self.finished_ids@[i]) is Some
                } by {
                    if i < n {
                        assert(self.finished_ids@[i] == before[i]);
                    }
                }
                if self.state.winner is Some {
                    let w = self.state.winner->0;
                    let q = choose|q: int| 0 <= q < before.len() && before[q] == w.body_id;
                    assert(self.finished_ids@[q] == w.body_id);
                }
                assert(self.wf());
            }
        }
        assert(self.wf());
        // ── 4. active list, in rank order ─────────────────────────────────
        let ghost before_active = *self;
        self.state.active = build_active(bodies, &self.racers, &self.finished_ids, &ranking);
        self.state.elapsed_secs = t;
        proof {
            let p = before_active;
            assert(self.state.finished@ == p.state.finished@);
            assert(self.state.winner == p.state.winner);
            assert(self.racers@ == p.racers@);
            assert(self.elimination_count == p.elimination_count);
            lemma_wf_same_records(p, *self);
        }
        let ghost tail = pass_events@;
        assert(events@.len() == head);
        events.append(&mut pass_events);
        proof {
            assert(events@.skip(head) =~= tail);
            let ranking_s = step_ranking(l, bodies@);
            assert(ranking@ == ranking_s);
            let elim = step_eliminates(l, bodies@, t, elimination_due);
            assert(st.2 == (if elim { self.finished_ids@.drop_last() } else { self.finished_ids@ })) ;
            assert(self.racers@ == st.1);
            assert(self.state.winner == st.4);
            assert(self.previous_rankings@ == ranked_ids(ranking_s));
            let j = step_eliminated_position(l, bodies@, t);
            let eid = ranking_s[j].1.0;
            let erec = st.1[find_racer(st.1, eid).unwrap()];
            let elim_event = RaceEvent::RacerEliminated {
                body_id: eid,
                display_name: erec.display_name,
                rank_at_elimination: (j + 1) as usize,
                elimination_number: (l.elimination_count + 1) as usize,
            };
            assert(events@.skip(head) == st.0 + (if elim { seq![elim_event] } else { Seq::empty() }));
        }
        events
    }
}
} // verus!
