//! What every race step keeps: the ranking follows height, the winner is the
//! first finisher and never changes, checkpoint credit is kept and never
//! given twice, the finished list only grows, racers who left the race are
//! never listed as running, and the running racers are ranked 1, 2, 3, …
//! by height, each named once.  Over a whole run of steps the race is
//! announced complete once, the winner never changes, finish times never
//! go back and, with no eliminations, the finish places run 1, 2, 3, …
//! with the first finisher as winner.
use vstd::prelude::*;
use crate::order::{keys_sorted, lemma_sort_stable_sorted, sort_stable};
use crate::physics::BodySnapshot;
use crate::race::{
    active_list, active_unsorted, candidates, credit_pairs, crossings, find_racer, lemma_candidates,
    lemma_credits_fresh, lemma_crossings_bounds, lemma_find_racer, lemma_find_racer_update,
    lemma_sort_keeps_distinct, pass, record_ids, renumbered, step_pass, step_ranking, unkeyed, PassState,
    RaceLedger, RacerStatus,
};
use crate::race::{RaceEvent, visit, steps_to, step_eliminates};
use crate::scalar::{is_nan_bits, rank, spec_le, Scalar};
use crate::race::{rank_in, ranked_ids, candidate_ok, rank_pairs};
use crate::physics::has_tag;
use crate::physics::BodyId;

verus! {

/// What a pass over the first `n` ranked racers keeps, when every one of
/// them is a known racer.
proof fn lemma_pass_keeps(
    st: PassState,
    cps: Seq<Scalar>,
    finish_y: Scalar,
    ranking: Seq<(i64, (BodyId, Scalar))>,
    t: Scalar,
    elims: nat,
    n: nat,
)
    requires
        n <= ranking.len(),
        cps.len() <= usize::MAX,
        forall|i: int| 0 <= i < n ==> find_racer(st.1, (#[trigger] ranking[i]).1.0) is Some,
        st.5.no_duplicates(),
    ensures
        ({
            let r = pass(st, cps, finish_y, ranking, t, elims, n);
            &&& r.1.len() == st.1.len()
            &&& record_ids(r.1) == record_ids(st.1)
            &&& forall|k: int| 0 <= k < st.1.len() ==> (#[trigger] r.1[k]).id == st.1[k].id
            &&& r.5.len() >= st.5.len()
            &&& r.5.take(st.5.len() as int) == st.5
            &&& r.5.no_duplicates()
            &&& r.2.len() >= st.2.len()
            &&& r.2.take(st.2.len() as int) == st.2
            &&& r.3.len() - st.3.len() == r.2.len() - st.2.len()
            &&& r.3.take(st.3.len() as int) == st.3
            &&& forall|q: int| st.3.len() <= q < r.3.len() ==> (#[trigger] r.3[q]).finish_time_secs == t
            &&& st.4 is Some ==> r.4 == st.4
            &&& st.4 is None ==> (r.4 is Some <==> r.2.len() > st.2.len())
            &&& st.4 is None ==> (r.4 matches Some(w) ==> w.body_id == r.2[st.2.len() as int]
                && w.finish_time_secs == t)
        }),
    decreases n,
{
    if n == 0 {
        assert(st.2.take(st.2.len() as int) =~= st.2);
        assert(st.5.take(st.5.len() as int) =~= st.5);
        assert(st.3.take(st.3.len() as int) =~= st.3);
    } else {
        let prev = pass(st, cps, finish_y, ranking, t, elims, (n - 1) as nat);
        lemma_pass_keeps(st, cps, finish_y, ranking, t, elims, (n - 1) as nat);
        let x = ranking[n - 1];
        let id = x.1.0;
        let y = x.1.1;
        lemma_find_racer(st.1, id);
        lemma_find_racer(prev.1, id);
        let k = find_racer(prev.1, id).unwrap();
        let rec = prev.1[k];
        let crossed = crossings(cps, y, id, prev.5, cps.len());
        lemma_crossings_bounds(cps, y, id, prev.5, cps.len());
        lemma_credits_fresh(prev.5, id, crossed);
        let new_rec = crate::race::RacerRecord {
            last_checkpoint: crate::race::after_crossings(rec.last_checkpoint, crossed),
            ..rec
        };
        lemma_find_racer_update(prev.1, k, new_rec, id);
        let r = pass(st, cps, finish_y, ranking, t, elims, n);
        assert(r.1 == prev.1.update(k, new_rec));
        assert(r.5 == prev.5 + credit_pairs(id, crossed));
        assert forall|q: int| 0 <= q < st.1.len() implies (#[trigger] r.1[q]).id == st.1[q].id by {
            assert(prev.1[q].id == st.1[q].id);
        }
        assert(r.5.take(st.5.len() as int) =~= st.5) by {
            assert(prev.5.take(st.5.len() as int) == st.5);
            assert forall|q: int| 0 <= q < st.5.len() implies r.5[q] == prev.5[q] by {}
        }
        assert(r.2.take(st.2.len() as int) =~= st.2) by {
            assert(prev.2.take(st.2.len() as int) == st.2);
            if r.2.len() > prev.2.len() {
                assert(r.2 == prev.2.push(id));
            } else {
                assert(r.2 == prev.2);
            }
        }
        assert(r.3.take(st.3.len() as int) =~= st.3) by {
            assert(prev.3.take(st.3.len() as int) == st.3);
            if r.2.len() > prev.2.len() {
                assert(r.3.len() == prev.3.len() + 1);
                assert forall|q: int| 0 <= q < st.3.len() implies r.3[q] == prev.3[q] by {}
            } else {
                assert(r.3 == prev.3);
            }
        }
        assert forall|q: int| st.3.len() <= q < r.3.len() implies (#[trigger] r.3[q]).finish_time_secs == t by {
            if r.2.len() > prev.2.len() && q == prev.3.len() {
            } else {
                assert(r.3[q] == prev.3[q]);
            }
        }
        if st.4 is None && prev.4 is Some {
            if r.2.len() > prev.2.len() {
                assert(r.2 == prev.2.push(id));
                assert(r.2[st.2.len() as int] == prev.2[st.2.len() as int]);
            }
        }
    }
}

/// Every racer the step ranks is a known racer, keyed by a numeric height,
/// and has not left the race.
proof fn lemma_ranking_members(l: RaceLedger, bodies: Seq<BodySnapshot>)
    requires
        l.wf(),
        l.accepts(bodies),
    ensures
        forall|i: int|
            0 <= i < step_ranking(l, bodies).len() ==> crate::race::candidate_ok(
                #[trigger] step_ranking(l, bodies)[i],
                l.racers@,
                l.finished_ids@,
            ),
{
    let cand = candidates(bodies, l.racer_tag@, l.finished_ids@);
    lemma_candidates(bodies, l.racer_tag@, l.finished_ids@, l.racers@);
    lemma_sort_keeps_distinct(cand);
    let ranking = step_ranking(l, bodies);
    assert forall|i: int| 0 <= i < ranking.len() implies crate::race::candidate_ok(
        #[trigger] ranking[i],
        l.racers@,
        l.finished_ids@,
    ) by {
        assert(ranking.contains(ranking[i]));
        assert(cand.contains(ranking[i]));
        let q = choose|q: int| 0 <= q < cand.len() && cand[q] == ranking[i];
        assert(crate::race::candidate_ok(cand[q], l.racers@, l.finished_ids@));
    }
}

/// A step ranks the racers still running by height: a racer ranked ahead of
/// another is at or below it (lower Y is further along), and no racer that
/// already left the race is ranked.
pub proof fn law_ranking_follows_height(l: RaceLedger, bodies: Seq<BodySnapshot>)
    requires
        l.wf(),
        l.accepts(bodies),
    ensures
        forall|i: int, j: int|
            0 <= i < j < step_ranking(l, bodies).len() ==> spec_le(
                (#[trigger] step_ranking(l, bodies)[i]).1.1,
                (#[trigger] step_ranking(l, bodies)[j]).1.1,
            ),
        forall|i: int|
            0 <= i < step_ranking(l, bodies).len() ==> !l.finished_ids@.contains(
                (#[trigger] step_ranking(l, bodies)[i]).1.0,
            ),
{
    let cand = candidates(bodies, l.racer_tag@, l.finished_ids@);
    lemma_sort_stable_sorted(cand);
    lemma_ranking_members(l, bodies);
    let ranking = step_ranking(l, bodies);
    assert forall|i: int, j: int| 0 <= i < j < ranking.len() implies spec_le(
        (#[trigger] ranking[i]).1.1,
        (#[trigger] ranking[j]).1.1,
    ) by {
        assert(crate::race::candidate_ok(ranking[i], l.racers@, l.finished_ids@));
        assert(crate::race::candidate_ok(ranking[j], l.racers@, l.finished_ids@));
        assert(ranking[i].0 <= ranking[j].0);
    }
}

/// Every ranked racer of a step is a known racer.
proof fn lemma_ranked_are_racers(l: RaceLedger, bodies: Seq<BodySnapshot>)
    requires
        l.wf(),
        l.accepts(bodies),
    ensures
        forall|i: int|
            0 <= i < step_ranking(l, bodies).len() ==> find_racer(
                l.racers@,
                (#[trigger] step_ranking(l, bodies)[i]).1.0,
            ) is Some,
        l.checkpoints@.len() <= usize::MAX,
{
    lemma_ranking_members(l, bodies);
    let ranking = step_ranking(l, bodies);
    assert forall|i: int| 0 <= i < ranking.len() implies find_racer(
        l.racers@,
        (#[trigger] ranking[i]).1.0,
    ) is Some by {
        assert(crate::race::candidate_ok(ranking[i], l.racers@, l.finished_ids@));
    }
    assert(l.checkpoints.len() == l.checkpoints@.len());
}

/// Once a winner is declared, no later step changes it.
pub proof fn law_winner_is_permanent(l: RaceLedger, bodies: Seq<BodySnapshot>, t: Scalar)
    requires
        l.wf(),
        l.accepts(bodies),
        l.state.winner is Some,
    ensures
        step_pass(l, bodies, t).4 == l.state.winner,
{
    lemma_ranked_are_racers(l, bodies);
    let ranking = step_ranking(l, bodies);
    lemma_pass_keeps(
        crate::race::pass_start(l),
        l.checkpoints@,
        l.finish_y,
        ranking,
        t,
        l.elimination_count as nat,
        ranking.len(),
    );
}

/// The winner is the first racer to reach the finish line: a step declares
/// one exactly when some racer finishes during it, and then it is the first
/// racer that step appends to the finished list, with the step's time.
pub proof fn law_winner_is_first_finisher(l: RaceLedger, bodies: Seq<BodySnapshot>, t: Scalar)
    requires
        l.wf(),
        l.accepts(bodies),
        l.state.winner is None,
    ensures
        step_pass(l, bodies, t).4 is Some <==> step_pass(l, bodies, t).2.len() > l.finished_ids@.len(),
        step_pass(l, bodies, t).4 matches Some(w) ==> w.body_id == step_pass(l, bodies, t).2[l.finished_ids@.len() as int]
            && w.finish_time_secs == t,
{
    lemma_ranked_are_racers(l, bodies);
    let ranking = step_ranking(l, bodies);
    lemma_pass_keeps(
        crate::race::pass_start(l),
        l.checkpoints@,
        l.finish_y,
        ranking,
        t,
        l.elimination_count as nat,
        ranking.len(),
    );
}

/// Checkpoint credit never goes backwards and is never given twice: after
/// a step every racer keeps its place among the records, every crossing
/// credited before is still credited, in the same order, and no racer is
/// credited with one checkpoint twice.
pub proof fn law_checkpoint_credit_never_regresses(l: RaceLedger, bodies: Seq<BodySnapshot>, t: Scalar)
    requires
        l.wf(),
        l.accepts(bodies),
    ensures
        step_pass(l, bodies, t).1.len() == l.racers@.len(),
        forall|k: int|
            0 <= k < l.racers@.len() ==> (#[trigger] step_pass(l, bodies, t).1[k]).id == l.racers@[k].id,
        step_pass(l, bodies, t).5.take(l.credited@.len() as int) == l.credited@,
        step_pass(l, bodies, t).5.no_duplicates(),
{
    lemma_ranked_are_racers(l, bodies);
    let ranking = step_ranking(l, bodies);
    lemma_pass_keeps(
        crate::race::pass_start(l),
        l.checkpoints@,
        l.finish_y,
        ranking,
        t,
        l.elimination_count as nat,
        ranking.len(),
    );
}

/// The finished list only grows: every racer that had left the race keeps
/// its place.
pub proof fn law_finished_list_only_grows(l: RaceLedger, bodies: Seq<BodySnapshot>, t: Scalar)
    requires
        l.wf(),
        l.accepts(bodies),
    ensures
        step_pass(l, bodies, t).2.len() >= l.finished_ids@.len(),
        step_pass(l, bodies, t).2.take(l.finished_ids@.len() as int) == l.finished_ids@,
{
    lemma_ranked_are_racers(l, bodies);
    let ranking = step_ranking(l, bodies);
    lemma_pass_keeps(
        crate::race::pass_start(l),
        l.checkpoints@,
        l.finish_y,
        ranking,
        t,
        l.elimination_count as nat,
        ranking.len(),
    );
}

/// Entries of the unsorted active list are racers that have not left.
proof fn lemma_active_unsorted_running(
    bodies: Seq<BodySnapshot>,
    racers: Seq<crate::race::RacerRecord>,
    finished: Seq<BodyId>,
    ranking: Seq<(i64, (BodyId, Scalar))>,
)
    ensures
        forall|i: int|
            0 <= i < active_unsorted(bodies, racers, finished, ranking).len() ==> !finished.contains(
                (#[trigger] active_unsorted(bodies, racers, finished, ranking)[i]).1.body_id,
            ),
    decreases bodies.len(),
{
    if bodies.len() > 0 {
        lemma_active_unsorted_running(bodies.drop_last(), racers, finished, ranking);
        let a = active_unsorted(bodies, racers, finished, ranking);
        let p = active_unsorted(bodies.drop_last(), racers, finished, ranking);
        assert forall|i: int| 0 <= i < a.len() implies !finished.contains((#[trigger] a[i]).1.body_id) by {
            if i < p.len() {
                assert(a[i] == p[i]);
            }
        }
    }
}

/// A racer that has left the race (finished or eliminated) is never listed
/// among the running racers.
pub proof fn law_left_racers_are_not_active(
    bodies: Seq<BodySnapshot>,
    racers: Seq<crate::race::RacerRecord>,
    finished: Seq<BodyId>,
    ranking: Seq<(i64, (BodyId, Scalar))>,
)
    ensures
        forall|i: int|
            0 <= i < active_list(bodies, racers, finished, ranking).len() ==> !finished.contains(
                (#[trigger] active_list(bodies, racers, finished, ranking)[i]).body_id,
            ),
        forall|i: int|
            0 <= i < active_list(bodies, racers, finished, ranking).len() ==> (#[trigger] active_list(
                bodies,
                racers,
                finished,
                ranking,
            )[i]).rank == (i + 1) as usize,
{
    let a = active_unsorted(bodies, racers, finished, ranking);
    lemma_active_unsorted_running(bodies, racers, finished, ranking);
    lemma_sort_stable_sorted(a);
    let s = sort_stable(a);
    assert forall|i: int| 0 <= i < unkeyed(s).len() implies !finished.contains(
        (#[trigger] unkeyed(s)[i]).body_id,
    ) by {
        assert(unkeyed(s)[i] == s[i].1);
        s.to_multiset_ensures();
        a.to_multiset_ensures();
        assert(s.contains(s[i]));
        assert(s.to_multiset().count(s[i]) > 0);
        assert(a.to_multiset().count(s[i]) > 0);
        assert(a.contains(s[i]));
        let q = choose|q: int| 0 <= q < a.len() && a[q] == s[i];
        assert(!finished.contains(a[q].1.body_id));
    }
    let al = active_list(bodies, racers, finished, ranking);
    assert(al == renumbered(unkeyed(s)));
    assert(al.len() == unkeyed(s).len());
    assert forall|i: int| 0 <= i < al.len() implies !finished.contains((#[trigger] al[i]).body_id) && al[i].rank
        == (i + 1) as usize by {
        assert(al[i] == (RacerStatus { rank: (i + 1) as usize, ..unkeyed(s)[i] }));
        assert(!finished.contains(unkeyed(s)[i].body_id));
    }
}

/// While no racer has been eliminated, finish places are 1, 2, 3, … in the
/// order racers crossed the finish line.
pub proof fn law_finish_places_are_consecutive(l: RaceLedger)
    requires
        l.wf(),
        l.elimination_count == 0,
    ensures
        forall|i: int|
            0 <= i < l.state.finished@.len() ==> (#[trigger] l.state.finished@[i]).finish_rank == i + 1
                && l.state.finished@[i].body_id == l.finished_ids@[i],
{
}

/// Number of race-complete announcements among `events`.
pub open spec fn completions(events: Seq<RaceEvent>) -> nat
    decreases events.len(),
{
    if events.len() == 0 {
        0
    } else {
        completions(events.drop_last()) + (if events.last() is RaceComplete { 1nat } else { 0nat })
    }
}

proof fn lemma_completions_concat(a: Seq<RaceEvent>, b: Seq<RaceEvent>)
    ensures
        completions(a + b) == completions(a) + completions(b),
    decreases b.len(),
{
    if b.len() > 0 {
        assert((a + b).drop_last() =~= a + b.drop_last());
        lemma_completions_concat(a, b.drop_last());
    } else {
        assert(a + b =~= a);
    }
}

proof fn lemma_no_completions(events: Seq<RaceEvent>)
    requires
        forall|i: int| 0 <= i < events.len() ==> !((#[trigger] events[i]) is RaceComplete),
    ensures
        completions(events) == 0,
    decreases events.len(),
{
    if events.len() > 0 {
        lemma_no_completions(events.drop_last());
    }
}

/// A pass announces the race complete once, when it sets the winner, and
/// never otherwise.
proof fn lemma_pass_completions(
    st: PassState,
    cps: Seq<Scalar>,
    finish_y: Scalar,
    ranking: Seq<(i64, (BodyId, Scalar))>,
    t: Scalar,
    elims: nat,
    n: nat,
)
    requires
        n <= ranking.len(),
    ensures
        completions(pass(st, cps, finish_y, ranking, t, elims, n).0) == completions(st.0) + (if st.4 is None
            && pass(st, cps, finish_y, ranking, t, elims, n).4 is Some { 1nat } else { 0nat }),
        st.4 is Some ==> pass(st, cps, finish_y, ranking, t, elims, n).4 == st.4,
    decreases n,
{
    if n > 0 {
        lemma_pass_completions(st, cps, finish_y, ranking, t, elims, (n - 1) as nat);
        let prev = pass(st, cps, finish_y, ranking, t, elims, (n - 1) as nat);
        let x = ranking[n - 1];
        let id = x.1.0;
        let k = find_racer(prev.1, id).unwrap();
        let rec = prev.1[k];
        let crossed = crossings(cps, x.1.1, id, prev.5, cps.len());
        let cp_events = crossed.map_values(
            |ci: usize|
                RaceEvent::CheckpointCrossed {
                    body_id: id,
                    display_name: rec.display_name,
                    checkpoint_index: ci,
                    checkpoint_y: cps[ci as int],
                    rank_at_crossing: n as usize,
                },
        );
        lemma_no_completions(cp_events);
        lemma_completions_concat(prev.0, cp_events);
        let r = pass(st, cps, finish_y, ranking, t, elims, n);
        assert(r == visit(prev, cps, finish_y, id, x.1.1, n as usize, t, elims));
        if spec_le(x.1.1, finish_y) {
            let fin = r.0;
            let base = prev.0 + cp_events;
            let with_finish = base + seq![fin[base.len() as int]];
            assert(with_finish.drop_last() =~= base);
            assert(fin[base.len() as int] is RacerFinished);
            assert(with_finish.last() is RacerFinished);
            assert(completions(with_finish) == completions(base));
            if prev.4 is None {
                assert(fin.drop_last() =~= with_finish);
                assert(fin.last() is RaceComplete);
                assert(completions(fin) == completions(with_finish) + 1);
                assert(r.4 is Some);
            } else {
                assert(fin =~= with_finish);
                assert(r.4 == prev.4);
            }
        } else {
            assert(r.0 == prev.0 + cp_events);
        }
    }
}

/// The race is announced complete exactly once: a step's pass announces it
/// once when the step sets the winner, and never in any other step.
pub proof fn law_race_complete_announced_once(l: RaceLedger, bodies: Seq<BodySnapshot>, t: Scalar)
    requires
        l.wf(),
        l.accepts(bodies),
    ensures
        completions(step_pass(l, bodies, t).0) == (if l.state.winner is None && step_pass(l, bodies, t).4 is Some {
            1nat
        } else {
            0nat
        }),
{
    let ranking = step_ranking(l, bodies);
    lemma_pass_completions(
        crate::race::pass_start(l),
        l.checkpoints@,
        l.finish_y,
        ranking,
        t,
        l.elimination_count as nat,
        ranking.len(),
    );
}

/// The rank of a ranked racer is its position in the ranking, plus one.
proof fn lemma_rank_in_position(ranking: Seq<(i64, (BodyId, Scalar))>, p: int)
    requires
        ranked_ids(ranking).no_duplicates(),
        0 <= p < ranking.len(),
        ranking.len() <= usize::MAX,
    ensures
        rank_in(ranking, ranking[p].1.0) == p + 1,
    decreases ranking.len(),
{
    if p < ranking.len() - 1 {
        let t = ranking.drop_last();
        assert(ranked_ids(t) =~= ranked_ids(ranking).drop_last());
        assert(ranked_ids(ranking)[p] != ranked_ids(ranking)[ranking.len() - 1]);
        assert(t[p] == ranking[p]);
        lemma_rank_in_position(t, p);
    }
}

/// Every entry of the unsorted active list is a live racer of the
/// snapshot that has not left, keyed by its rank, at its snapshot height.
proof fn lemma_active_entries(
    bodies: Seq<BodySnapshot>,
    racers: Seq<crate::race::RacerRecord>,
    finished: Seq<BodyId>,
    ranking: Seq<(i64, (BodyId, Scalar))>,
)
    ensures
        forall|k: int|
            0 <= k < active_unsorted(bodies, racers, finished, ranking).len() ==> {
                let e = #[trigger] active_unsorted(bodies, racers, finished, ranking)[k];
                &&& e.0 == rank_in(ranking, e.1.body_id) as i64
                &&& exists|j: int|
                    0 <= j < bodies.len() && bodies[j].id == e.1.body_id && bodies[j].position_y == e.1.position_y
                        && bodies[j].is_alive && find_racer(racers, bodies[j].id) is Some && !finished.contains(
                        bodies[j].id,
                    )
            },
    decreases bodies.len(),
{
    if bodies.len() > 0 {
        let t = bodies.drop_last();
        lemma_active_entries(t, racers, finished, ranking);
        let a = active_unsorted(bodies, racers, finished, ranking);
        let at = active_unsorted(t, racers, finished, ranking);
        let b = bodies.last();
        assert forall|k: int| 0 <= k < a.len() implies {
            let e = #[trigger] a[k];
            &&& e.0 == rank_in(ranking, e.1.body_id) as i64
            &&& exists|j: int|
                0 <= j < bodies.len() && bodies[j].id == e.1.body_id && bodies[j].position_y == e.1.position_y
                    && bodies[j].is_alive && find_racer(racers, bodies[j].id) is Some && !finished.contains(
                    bodies[j].id,
                )
        } by {
            if k < at.len() {
                assert(a[k] == at[k]);
                let e = at[k];
                let j = choose|j: int|
                    0 <= j < t.len() && t[j].id == e.1.body_id && t[j].position_y == e.1.position_y && t[j].is_alive
                        && find_racer(racers, t[j].id) is Some && !finished.contains(t[j].id);
                assert(bodies[j] == t[j]);
            } else {
                assert(bodies[bodies.len() - 1] == b);
            }
        }
    }
}

/// The running racers are listed by height: in the active list built from
/// a ranking sorted by height, in which every live racer that has not left
/// stands at its snapshot height, each racer is at or below (lower Y,
/// further along) the racers listed after it.
pub proof fn law_active_list_follows_height(
    bodies: Seq<BodySnapshot>,
    racers: Seq<crate::race::RacerRecord>,
    finished: Seq<BodyId>,
    ranking: Seq<(i64, (BodyId, Scalar))>,
)
    requires
        ranking.len() < i64::MAX,
        ranking.len() <= usize::MAX,
        keys_sorted(ranking),
        ranked_ids(ranking).no_duplicates(),
        forall|p: int|
            0 <= p < ranking.len() ==> (#[trigger] ranking[p]).0 as int == rank(ranking[p].1.1.bits) && !is_nan_bits(
                ranking[p].1.1.bits,
            ),
        forall|j: int|
            0 <= j < bodies.len() && (#[trigger] bodies[j]).is_alive && find_racer(racers, bodies[j].id) is Some
                && !finished.contains(bodies[j].id) ==> exists|p: int|
                0 <= p < ranking.len() && ranking[p].1.0 == bodies[j].id && ranking[p].1.1 == bodies[j].position_y,
    ensures
        forall|i: int, j: int|
            0 <= i < j < active_list(bodies, racers, finished, ranking).len() ==> spec_le(
                (#[trigger] active_list(bodies, racers, finished, ranking)[i]).position_y,
                (#[trigger] active_list(bodies, racers, finished, ranking)[j]).position_y,
            ),
{
    broadcast use vstd::seq_lib::group_to_multiset_ensures;

    let u = active_unsorted(bodies, racers, finished, ranking);
    let srt = sort_stable(u);
    lemma_active_entries(bodies, racers, finished, ranking);
    lemma_sort_stable_sorted(u);
    // Each sorted entry sits at some ranking position at its own height.
    assert forall|i: int| 0 <= i < srt.len() implies exists|p: int|
        0 <= p < ranking.len() && (#[trigger] srt[i]).0 == (p + 1) as i64 && ranking[p].1.1 == srt[i].1.position_y by {
        assert(srt.to_multiset().count(srt[i]) > 0);
        assert(u.to_multiset().count(srt[i]) > 0);
        assert(u.contains(srt[i]));
        let k = choose|k: int| 0 <= k < u.len() && u[k] == srt[i];
        let e = u[k];
        let j = choose|j: int|
            0 <= j < bodies.len() && bodies[j].id == e.1.body_id && bodies[j].position_y == e.1.position_y
                && bodies[j].is_alive && find_racer(racers, bodies[j].id) is Some && !finished.contains(bodies[j].id);
        assert(bodies[j].is_alive);
        let p = choose|p: int|
            0 <= p < ranking.len() && ranking[p].1.0 == bodies[j].id && ranking[p].1.1 == bodies[j].position_y;
        lemma_rank_in_position(ranking, p);
    }
    let al = active_list(bodies, racers, finished, ranking);
    assert forall|i: int, j: int| 0 <= i < j < al.len() implies spec_le(
        (#[trigger] al[i]).position_y,
        (#[trigger] al[j]).position_y,
    ) by {
        assert(al[i].position_y == srt[i].1.position_y);
        assert(al[j].position_y == srt[j].1.position_y);
        let pi = choose|p: int|
            0 <= p < ranking.len() && srt[i].0 == (p + 1) as i64 && ranking[p].1.1 == srt[i].1.position_y;
        let pj = choose|p: int|
            0 <= p < ranking.len() && srt[j].0 == (p + 1) as i64 && ranking[p].1.1 == srt[j].1.position_y;
        assert(srt[i].0 <= srt[j].0);
        assert(pi <= pj);
        assert(ranking[pi].0 <= ranking[pj].0);
    }
}

/// A live body carrying the tag that has not left the race is a ranking
/// candidate at its own height.
proof fn lemma_in_candidates(bodies: Seq<BodySnapshot>, tag: Seq<char>, finished: Seq<BodyId>, j: int)
    requires
        0 <= j < bodies.len(),
        bodies[j].is_alive,
        has_tag(bodies[j].tags@, tag),
        !finished.contains(bodies[j].id),
    ensures
        candidates(bodies, tag, finished).contains(
            (rank(bodies[j].position_y.bits) as i64, (bodies[j].id, bodies[j].position_y)),
        ),
    decreases bodies.len(),
{
    let c = candidates(bodies, tag, finished);
    let x = (rank(bodies[j].position_y.bits) as i64, (bodies[j].id, bodies[j].position_y));
    if j == bodies.len() - 1 {
        assert(c.last() == x);
        assert(c[c.len() - 1] == x);
    } else {
        let t = bodies.drop_last();
        assert(t[j] == bodies[j]);
        lemma_in_candidates(t, tag, finished, j);
        let ct = candidates(t, tag, finished);
        let q = choose|q: int| 0 <= q < ct.len() && ct[q] == x;
        assert(c[q] == ct[q]);
    }
}

/// After a step the running racers are listed by height, provided every
/// live racer still carries the racer tag: for any list of racers that
/// left which includes those that had left before the step (as the step's
/// own does), each listed racer is at or below the racers after it.
pub proof fn law_step_active_list_follows_height(
    l: RaceLedger,
    bodies: Seq<BodySnapshot>,
    t: Scalar,
    finished: Seq<BodyId>,
)
    requires
        l.wf(),
        l.accepts(bodies),
        forall|j: int|
            0 <= j < bodies.len() && (#[trigger] bodies[j]).is_alive && find_racer(l.racers@, bodies[j].id) is Some
                ==> has_tag(bodies[j].tags@, l.racer_tag@),
        forall|x: BodyId| l.finished_ids@.contains(x) ==> finished.contains(x),
        step_ranking(l, bodies).len() < i64::MAX,
        step_ranking(l, bodies).len() <= usize::MAX,
    ensures
        forall|i: int, j: int|
            0 <= i < j < active_list(bodies, step_pass(l, bodies, t).1, finished, step_ranking(l, bodies)).len()
                ==> spec_le(
                (#[trigger] active_list(bodies, step_pass(l, bodies, t).1, finished, step_ranking(l, bodies))[i]).position_y,
                (#[trigger] active_list(bodies, step_pass(l, bodies, t).1, finished, step_ranking(l, bodies))[j]).position_y,
            ),
{
    broadcast use vstd::seq_lib::group_to_multiset_ensures;

    let ranking = step_ranking(l, bodies);
    let cand = candidates(bodies, l.racer_tag@, l.finished_ids@);
    let racers = step_pass(l, bodies, t).1;
    lemma_ranked_are_racers(l, bodies);
    lemma_ranking_members(l, bodies);
    lemma_pass_keeps(
        crate::race::pass_start(l),
        l.checkpoints@,
        l.finish_y,
        ranking,
        t,
        l.elimination_count as nat,
        ranking.len(),
    );
    lemma_candidates(bodies, l.racer_tag@, l.finished_ids@, l.racers@);
    lemma_sort_keeps_distinct(cand);
    lemma_sort_stable_sorted(cand);
    assert forall|p: int| 0 <= p < ranking.len() implies (#[trigger] ranking[p]).0 as int == rank(
        ranking[p].1.1.bits,
    ) && !is_nan_bits(ranking[p].1.1.bits) by {
        assert(candidate_ok(ranking[p], l.racers@, l.finished_ids@));
    }
    assert forall|j: int|
        0 <= j < bodies.len() && (#[trigger] bodies[j]).is_alive && find_racer(racers, bodies[j].id) is Some
            && !finished.contains(bodies[j].id) implies exists|p: int|
        0 <= p < ranking.len() && ranking[p].1.0 == bodies[j].id && ranking[p].1.1 == bodies[j].position_y by {
        lemma_find_racer(racers, bodies[j].id);
        lemma_find_racer(l.racers@, bodies[j].id);
        assert(!l.finished_ids@.contains(bodies[j].id));
        lemma_in_candidates(bodies, l.racer_tag@, l.finished_ids@, j);
        let x = (rank(bodies[j].position_y.bits) as i64, (bodies[j].id, bodies[j].position_y));
        assert(cand.to_multiset().count(x) > 0);
        assert(ranking.to_multiset().count(x) > 0);
        assert(ranking.contains(x));
        let p = choose|p: int| 0 <= p < ranking.len() && ranking[p] == x;
        assert(ranking[p].1.0 == bodies[j].id);
    }
    law_active_list_follows_height(bodies, racers, finished, ranking);
}


/// What one step keeps, read off the step's own contract.
proof fn lemma_step_keeps(
    l: RaceLedger,
    bodies: Seq<BodySnapshot>,
    t: Scalar,
    due: bool,
    l2: RaceLedger,
    events: Seq<RaceEvent>,
)
    requires
        l.wf(),
        l.accepts(bodies),
        steps_to(l, bodies, t, due, l2, events),
    ensures
        completions(events) == (if l.state.winner is None && l2.state.winner is Some { 1nat } else { 0nat }),
        l.state.winner is Some ==> l2.state.winner == l.state.winner,
        l2.state.finished@.len() >= l.state.finished@.len(),
        l2.state.finished@.take(l.state.finished@.len() as int) == l.state.finished@,
        forall|q: int|
            l.state.finished@.len() <= q < l2.state.finished@.len()
                ==> (#[trigger] l2.state.finished@[q]).finish_time_secs == t,
        !due ==> l2.elimination_count == l.elimination_count,
        (!due && l.state.winner is None && l.finished_ids@.len() == 0) ==> (l2.state.winner is Some
            <==> l2.finished_ids@.len() > 0),
        (!due && l.state.winner is None && l.finished_ids@.len() == 0) ==> (l2.state.winner matches Some(w)
            ==> w.body_id == l2.finished_ids@[0]),
        l.finished_ids@.len() > 0 ==> l2.finished_ids@[0] == l.finished_ids@[0],
{
    lemma_ranked_are_racers(l, bodies);
    let ranking = step_ranking(l, bodies);
    let st = step_pass(l, bodies, t);
    lemma_pass_keeps(
        crate::race::pass_start(l),
        l.checkpoints@,
        l.finish_y,
        ranking,
        t,
        l.elimination_count as nat,
        ranking.len(),
    );
    law_race_complete_announced_once(l, bodies, t);
    let changed = ranked_ids(ranking) != l.previous_rankings@ && ranking.len() > 0;
    let head: int = if changed { 1 } else { 0 };
    let elim = step_eliminates(l, bodies, t, due);
    let rest = events.skip(head);
    assert(events =~= events.take(head) + rest);
    lemma_completions_concat(events.take(head), rest);
    if changed {
        assert(events.take(head) =~= seq![events[0]]);
        assert(seq![events[0]].drop_last() =~= Seq::<RaceEvent>::empty());
        assert(completions(Seq::<RaceEvent>::empty()) == 0);
        assert(events[0] is RankChanged);
        assert(seq![events[0]].last() == events[0]);
        assert(completions(events.take(head)) == 0);
    } else {
        assert(events.take(head) =~= Seq::<RaceEvent>::empty());
    }
    if elim {
        let tail = rest.subrange(st.0.len() as int, rest.len() as int);
        assert(rest =~= st.0 + tail);
        lemma_completions_concat(st.0, tail);
        assert(tail.drop_last() =~= Seq::<RaceEvent>::empty());
        assert(tail.last() is RacerEliminated);
    } else {
        assert(rest =~= st.0);
    }
    assert(l.finished_ids@.len() == l.state.finished@.len());
    assert(l2.state.finished@.take(l.state.finished@.len() as int) =~= l.state.finished@) by {
        assert(st.3.take(l.state.finished@.len() as int) == l.state.finished@);
        if elim {
            assert forall|q: int| 0 <= q < l.state.finished@.len() implies l2.state.finished@[q] == st.3[q] by {}
        }
    }
    if l.finished_ids@.len() > 0 {
        assert(st.2.take(l.finished_ids@.len() as int)[0] == l.finished_ids@[0]);
        if elim {
            assert(l2.finished_ids@[0] == st.2[0]);
        }
    }
}

/// Number of race-complete announcements over the events of a run of steps.
pub open spec fn run_completions(es: Seq<Seq<RaceEvent>>) -> nat
    decreases es.len(),
{
    if es.len() == 0 {
        0
    } else {
        run_completions(es.drop_last()) + completions(es.last())
    }
}

/// A run of steps: ledger `ls[k + 1]` and events `es[k]` are what step `k`
/// leaves from ledger `ls[k]`, at time `ts[k]`, on snapshot `bs[k]`, with an
/// elimination round `dues[k]` or not.
pub open spec fn is_run(
    ls: Seq<RaceLedger>,
    bs: Seq<Seq<BodySnapshot>>,
    ts: Seq<Scalar>,
    dues: Seq<bool>,
    es: Seq<Seq<RaceEvent>>,
) -> bool {
    &&& ls.len() == es.len() + 1
    &&& bs.len() == es.len()
    &&& ts.len() == es.len()
    &&& dues.len() == es.len()
    &&& forall|k: int| 0 <= k < es.len() ==> #[trigger] run_step(ls, bs, ts, dues, es, k)
}

/// Step `k` of a run: ledger `ls[k]` accepts snapshot `bs[k]`, and the step
/// leaves ledger `ls[k + 1]` and events `es[k]`.
pub open spec fn run_step(
    ls: Seq<RaceLedger>,
    bs: Seq<Seq<BodySnapshot>>,
    ts: Seq<Scalar>,
    dues: Seq<bool>,
    es: Seq<Seq<RaceEvent>>,
    k: int,
) -> bool {
    ls[k].accepts(bs[k]) && steps_to(ls[k], bs[k], ts[k], dues[k], ls[k + 1], es[k])
}

/// Over any run of steps from a ledger with no winner: the race is
/// announced complete exactly once if a winner was declared by the end, and
/// never otherwise; once declared, the winner never changes; every place in
/// the finished list is kept by all later steps, and a racer that leaves
/// the race in step `k` is listed with that step's time.
pub proof fn law_run_announces_completion_once(
    ls: Seq<RaceLedger>,
    bs: Seq<Seq<BodySnapshot>>,
    ts: Seq<Scalar>,
    dues: Seq<bool>,
    es: Seq<Seq<RaceEvent>>,
)
    requires
        is_run(ls, bs, ts, dues, es),
        ls[0].wf(),
        ls[0].state.winner is None,
    ensures
        forall|k: int| 0 <= k < ls.len() ==> (#[trigger] ls[k]).wf(),
        run_completions(es) == (if ls.last().state.winner is Some { 1nat } else { 0nat }),
        forall|i: int, j: int|
            0 <= i <= j < ls.len() && (#[trigger] ls[i]).state.winner is Some ==> (#[trigger] ls[j]).state.winner
                == ls[i].state.winner,
        forall|i: int, j: int|
            0 <= i <= j < ls.len() ==> (#[trigger] ls[j]).state.finished@.len() >= (#[trigger] ls[i]).state.finished@.len()
                && ls[j].state.finished@.take(ls[i].state.finished@.len() as int) == ls[i].state.finished@,
        forall|k: int, q: int|
            0 <= k < es.len() && ls[k].state.finished@.len() <= q < ls[k + 1].state.finished@.len()
                ==> (#[trigger] ls.last().state.finished@[q]).finish_time_secs == #[trigger] ts[k],
    decreases es.len(),
{
    let n = es.len() as int;
    if n == 0 {
        assert forall|i: int, j: int| 0 <= i <= j < ls.len() implies (#[trigger] ls[j]).state.finished@.take(
            (#[trigger] ls[i]).state.finished@.len() as int,
        ) == ls[i].state.finished@ by {
            assert(ls[i].state.finished@.take(ls[i].state.finished@.len() as int) =~= ls[i].state.finished@);
        }
    } else {
        let ls0 = ls.drop_last();
        let bs0 = bs.drop_last();
        let ts0 = ts.drop_last();
        let d0 = dues.drop_last();
        let es0 = es.drop_last();
        assert forall|k: int| 0 <= k < es0.len() implies #[trigger] run_step(ls0, bs0, ts0, d0, es0, k) by {
            assert(run_step(ls, bs, ts, dues, es, k));
            assert(es0[k] == es[k]);
            assert(ls0[k] == ls[k] && ls0[k + 1] == ls[k + 1] && bs0[k] == bs[k]);
            assert(ts0[k] == ts[k] && d0[k] == dues[k]);
        }
        law_run_announces_completion_once(ls0, bs0, ts0, d0, es0);
        let a = ls[n - 1];
        let b = ls[n];
        let e = es[n - 1];
        assert(run_step(ls, bs, ts, dues, es, n - 1));
        assert(ls0.last() == a);
        assert(a.wf());
        assert(a.accepts(bs[n - 1]) && steps_to(a, bs[n - 1], ts[n - 1], dues[n - 1], b, es[n - 1]));
        lemma_step_keeps(a, bs[n - 1], ts[n - 1], dues[n - 1], b, es[n - 1]);
        assert(es0 =~= es.drop_last());
        assert(run_completions(es) == run_completions(es0) + completions(es[n - 1]));
        assert forall|k: int| 0 <= k < ls.len() implies (#[trigger] ls[k]).wf() by {
            if k < n {
                assert(ls0[k] == ls[k]);
            }
        }
        assert forall|i: int, j: int|
            0 <= i <= j < ls.len() && (#[trigger] ls[i]).state.winner is Some implies (#[trigger] ls[j]).state.winner
                == ls[i].state.winner by {
            if j < n {
                assert(ls0[i] == ls[i] && ls0[j] == ls[j]);
            } else if i < n {
                assert(ls0[i] == ls[i] && ls0[n - 1] == ls[n - 1]);
            }
        }
        assert forall|i: int, j: int| 0 <= i <= j < ls.len() implies (#[trigger] ls[j]).state.finished@.len()
            >= (#[trigger] ls[i]).state.finished@.len() && ls[j].state.finished@.take(
            ls[i].state.finished@.len() as int,
        ) == ls[i].state.finished@ by {
            if j < n {
                assert(ls0[i] == ls[i] && ls0[j] == ls[j]);
            } else if i < n {
                assert(ls0[i] == ls[i] && ls0[n - 1] == ls[n - 1]);
                let fi = ls[i].state.finished@;
                let fa = a.state.finished@;
                assert(fa.take(fi.len() as int) == fi);
                assert(b.state.finished@.take(fi.len() as int) =~= fi) by {
                    assert forall|q: int| 0 <= q < fi.len() implies b.state.finished@[q] == fi[q] by {
                        assert(b.state.finished@.take(fa.len() as int)[q] == fa[q]);
                        assert(fa.take(fi.len() as int)[q] == fi[q]);
                    }
                }
            } else {
                assert(b.state.finished@.take(b.state.finished@.len() as int) =~= b.state.finished@);
            }
        }
        assert forall|k: int, q: int|
            0 <= k < es.len() && ls[k].state.finished@.len() <= q < ls[k + 1].state.finished@.len()
                implies (#[trigger] ls.last().state.finished@[q]).finish_time_secs == #[trigger] ts[k] by {
            if k < n - 1 {
                assert(ls0[k] == ls[k] && ls0[k + 1] == ls[k + 1] && ts0[k] == ts[k]);
                assert(ls0.last().state.finished@[q].finish_time_secs == ts0[k]);
                assert(b.state.finished@.take(a.state.finished@.len() as int)[q] == a.state.finished@[q]);
            }
        }
    }
}

/// Over any run of steps from a fresh ledger in which no elimination round
/// falls due: at every point the finished racers are placed 1, 2, 3, … in
/// the order they crossed the line, a winner is declared exactly when
/// someone has finished, and the winner is the first racer who finished.
pub proof fn law_run_without_eliminations(
    ls: Seq<RaceLedger>,
    bs: Seq<Seq<BodySnapshot>>,
    ts: Seq<Scalar>,
    dues: Seq<bool>,
    es: Seq<Seq<RaceEvent>>,
)
    requires
        is_run(ls, bs, ts, dues, es),
        ls[0].wf(),
        ls[0].state.winner is None,
        ls[0].finished_ids@.len() == 0,
        ls[0].elimination_count == 0,
        forall|k: int| 0 <= k < dues.len() ==> !(#[trigger] dues[k]),
    ensures
        forall|k: int, i: int|
            0 <= k < ls.len() && 0 <= i < (#[trigger] ls[k]).state.finished@.len()
                ==> (#[trigger] ls[k].state.finished@[i]).finish_rank == i + 1,
        forall|k: int|
            0 <= k < ls.len() ==> ((#[trigger] ls[k]).state.winner is Some <==> ls[k].state.finished@.len() > 0),
        forall|k: int|
            0 <= k < ls.len() ==> ((#[trigger] ls[k]).state.winner matches Some(w)
                ==> w.body_id == ls[k].state.finished@[0].body_id),
    decreases es.len(),
{
    let n = es.len() as int;
    if n > 0 {
        let ls0 = ls.drop_last();
        let bs0 = bs.drop_last();
        let ts0 = ts.drop_last();
        let d0 = dues.drop_last();
        let es0 = es.drop_last();
        assert forall|k: int| 0 <= k < es0.len() implies #[trigger] run_step(ls0, bs0, ts0, d0, es0, k) by {
            assert(run_step(ls, bs, ts, dues, es, k));
            assert(es0[k] == es[k]);
            assert(ls0[k] == ls[k] && ls0[k + 1] == ls[k + 1] && bs0[k] == bs[k]);
            assert(ts0[k] == ts[k] && d0[k] == dues[k]);
        }
        assert forall|k: int| 0 <= k < d0.len() implies !(#[trigger] d0[k]) by {
            assert(d0[k] == dues[k]);
        }
        law_run_without_eliminations(ls0, bs0, ts0, d0, es0);
        law_run_announces_completion_once(ls0, bs0, ts0, d0, es0);
        let a = ls[n - 1];
        let b = ls[n];
        assert(ls0[n - 1] == a);
        assert(a.wf());
        assert(run_step(ls, bs, ts, dues, es, n - 1));
        assert(!dues[n - 1]);
        lemma_step_keeps(a, bs[n - 1], ts[n - 1], dues[n - 1], b, es[n - 1]);
        assert(a.elimination_count == 0) by {
            lemma_eliminations_stay_zero(ls0, bs0, ts0, d0, es0);
        }
        assert(b.wf());
        assert forall|k: int, i: int|
            0 <= k < ls.len() && 0 <= i < (#[trigger] ls[k]).state.finished@.len()
                implies (#[trigger] ls[k].state.finished@[i]).finish_rank == i + 1 by {
            if k < n {
                assert(ls0[k] == ls[k]);
            } else {
                assert(b.state.finished@[i].body_id == b.finished_ids@[i]);
            }
        }
        assert forall|k: int| 0 <= k < ls.len() implies ((#[trigger] ls[k]).state.winner is Some
            <==> ls[k].state.finished@.len() > 0) by {
            if k < n {
                assert(ls0[k] == ls[k]);
            }
        }
        assert forall|k: int| 0 <= k < ls.len() implies ((#[trigger] ls[k]).state.winner matches Some(w)
            ==> w.body_id == ls[k].state.finished@[0].body_id) by {
            if k < n {
                assert(ls0[k] == ls[k]);
            } else if b.state.winner is Some {
                assert(b.state.finished@[0].body_id == b.finished_ids@[0]);
                if a.state.winner is Some {
                    assert(a.state.finished@[0].body_id == a.finished_ids@[0]);
                }
            }
        }
    }
}

/// With no elimination round due, the elimination count stays zero.
proof fn lemma_eliminations_stay_zero(
    ls: Seq<RaceLedger>,
    bs: Seq<Seq<BodySnapshot>>,
    ts: Seq<Scalar>,
    dues: Seq<bool>,
    es: Seq<Seq<RaceEvent>>,
)
    requires
        is_run(ls, bs, ts, dues, es),
        ls[0].wf(),
        ls[0].elimination_count == 0,
        forall|k: int| 0 <= k < dues.len() ==> !(#[trigger] dues[k]),
    ensures
        forall|k: int| 0 <= k < ls.len() ==> (#[trigger] ls[k]).elimination_count == 0 && ls[k].wf(),
    decreases es.len(),
{
    let n = es.len() as int;
    if n > 0 {
        let ls0 = ls.drop_last();
        let bs0 = bs.drop_last();
        let ts0 = ts.drop_last();
        let d0 = dues.drop_last();
        let es0 = es.drop_last();
        assert forall|k: int| 0 <= k < es0.len() implies #[trigger] run_step(ls0, bs0, ts0, d0, es0, k) by {
            assert(run_step(ls, bs, ts, dues, es, k));
            assert(es0[k] == es[k]);
            assert(ls0[k] == ls[k] && ls0[k + 1] == ls[k + 1] && bs0[k] == bs[k]);
            assert(ts0[k] == ts[k] && d0[k] == dues[k]);
        }
        assert forall|k: int| 0 <= k < d0.len() implies !(#[trigger] d0[k]) by {
            assert(d0[k] == dues[k]);
        }
        lemma_eliminations_stay_zero(ls0, bs0, ts0, d0, es0);
        assert(ls0[n - 1] == ls[n - 1]);
        assert(run_step(ls, bs, ts, dues, es, n - 1));
        assert(!dues[n - 1]);
        lemma_step_keeps(ls[n - 1], bs[n - 1], ts[n - 1], dues[n - 1], ls[n], es[n - 1]);
        assert forall|k: int| 0 <= k < ls.len() implies (#[trigger] ls[k]).elimination_count == 0 && ls[k].wf() by {
            if k < n {
                assert(ls0[k] == ls[k]);
            }
        }
    }
}

/// Body ids of keyed racer statuses, in order.
pub open spec fn status_ids(s: Seq<(i64, RacerStatus)>) -> Seq<BodyId> {
    s.map_values(|x: (i64, RacerStatus)| x.1.body_id)
}

/// The statuses of the running racers come one per body, in snapshot order.
proof fn lemma_active_unsorted_ids(
    bodies: Seq<BodySnapshot>,
    racers: Seq<crate::race::RacerRecord>,
    finished: Seq<BodyId>,
    ranking: Seq<(i64, (BodyId, Scalar))>,
)
    requires
        crate::race::snapshot_ids(bodies).no_duplicates(),
    ensures
        status_ids(active_unsorted(bodies, racers, finished, ranking)).no_duplicates(),
        forall|i: int|
            0 <= i < active_unsorted(bodies, racers, finished, ranking).len() ==> crate::race::snapshot_ids(
                bodies,
            ).contains((#[trigger] active_unsorted(bodies, racers, finished, ranking)[i]).1.body_id),
    decreases bodies.len(),
{
    if bodies.len() > 0 {
        let ids = crate::race::snapshot_ids(bodies);
        let t = bodies.drop_last();
        assert(crate::race::snapshot_ids(t) =~= ids.drop_last());
        lemma_active_unsorted_ids(t, racers, finished, ranking);
        let a = active_unsorted(bodies, racers, finished, ranking);
        let p = active_unsorted(t, racers, finished, ranking);
        let last_id = bodies.last().id;
        assert(ids[ids.len() - 1] == last_id);
        assert forall|i: int| 0 <= i < p.len() implies p[i].1.body_id != last_id by {
            assert(crate::race::snapshot_ids(t).contains(p[i].1.body_id));
            let q = choose|q: int| 0 <= q < t.len() && crate::race::snapshot_ids(t)[q] == p[i].1.body_id;
            assert(ids[q] == p[i].1.body_id);
        }
        assert forall|i: int| 0 <= i < a.len() implies ids.contains((#[trigger] a[i]).1.body_id) by {
            if i < p.len() {
                assert(a[i] == p[i]);
                let q = choose|q: int| 0 <= q < t.len() && crate::race::snapshot_ids(t)[q] == p[i].1.body_id;
                assert(ids[q] == p[i].1.body_id);
            } else {
                assert(ids[ids.len() - 1] == a[i].1.body_id);
            }
        }
        assert forall|i: int, j: int|
            0 <= i < status_ids(a).len() && 0 <= j < status_ids(a).len() && i != j implies status_ids(a)[i]
            != status_ids(a)[j] by {
            if i < p.len() && j < p.len() {
                assert(a[i] == p[i] && a[j] == p[j]);
                assert(status_ids(p)[i] == p[i].1.body_id && status_ids(p)[j] == p[j].1.body_id);
            } else if i < p.len() {
                assert(a[i] == p[i]);
            } else {
                assert(a[j] == p[j]);
            }
        }
    }
}

/// Sorting keyed statuses keeps their ids distinct, and keeps the same items.
proof fn lemma_sort_keeps_distinct_statuses(s: Seq<(i64, RacerStatus)>)
    requires
        status_ids(s).no_duplicates(),
    ensures
        status_ids(sort_stable(s)).no_duplicates(),
        forall|e: (i64, RacerStatus)| sort_stable(s).contains(e) <==> s.contains(e),
    decreases s.len(),
{
    broadcast use vstd::seq_lib::group_to_multiset_ensures;

    lemma_sort_stable_sorted(s);
    assert forall|e: (i64, RacerStatus)| sort_stable(s).contains(e) <==> s.contains(e) by {
        assert(sort_stable(s).to_multiset().count(e) == s.to_multiset().count(e));
    }
    if s.len() > 0 {
        let t = s.drop_last();
        let x = s.last();
        assert(status_ids(t) =~= status_ids(s).drop_last());
        lemma_sort_keeps_distinct_statuses(t);
        let u = sort_stable(t);
        crate::order::lemma_insert_splice_public(u, x);
        let p = crate::order::insertion_point(u, x);
        let r = sort_stable(s);
        assert(r == u.take(p).push(x) + u.skip(p));
        assert forall|i: int, k: int|
            0 <= i < status_ids(r).len() && 0 <= k < status_ids(r).len() && i != k implies status_ids(r)[i]
            != status_ids(r)[k] by {
            let ui = if i < p { i } else { i - 1 };
            let uk = if k < p { k } else { k - 1 };
            if i != p && k != p {
                assert(r[i] == u[ui]);
                assert(r[k] == u[uk]);
                assert(status_ids(u)[ui] == r[i].1.body_id);
                assert(status_ids(u)[uk] == r[k].1.body_id);
            } else {
                let other = if i == p { k } else { i };
                let uo = if other < p { other } else { other - 1 };
                assert(r[other] == u[uo]);
                assert(u.contains(u[uo]));
                assert(t.contains(u[uo]));
                let j = choose|j: int| 0 <= j < t.len() && t[j] == u[uo];
                assert(status_ids(s)[j] == t[j].1.body_id);
                assert(status_ids(s)[s.len() - 1] == x.1.body_id);
            }
        }
    }
}

/// The active list names each running racer once: when the snapshot's ids
/// are distinct, no two entries of the active list share a body, and none
/// of them has left the race.
pub proof fn law_active_list_names_each_racer_once(
    bodies: Seq<BodySnapshot>,
    racers: Seq<crate::race::RacerRecord>,
    finished: Seq<BodyId>,
    ranking: Seq<(i64, (BodyId, Scalar))>,
)
    requires
        crate::race::snapshot_ids(bodies).no_duplicates(),
    ensures
        forall|i: int, j: int|
            0 <= i < j < active_list(bodies, racers, finished, ranking).len() ==> (#[trigger] active_list(
                bodies,
                racers,
                finished,
                ranking,
            )[i]).body_id != (#[trigger] active_list(bodies, racers, finished, ranking)[j]).body_id,
        forall|i: int|
            0 <= i < active_list(bodies, racers, finished, ranking).len() ==> !finished.contains(
                (#[trigger] active_list(bodies, racers, finished, ranking)[i]).body_id,
            ),
{
    law_left_racers_are_not_active(bodies, racers, finished, ranking);
    let a = active_unsorted(bodies, racers, finished, ranking);
    lemma_active_unsorted_ids(bodies, racers, finished, ranking);
    lemma_sort_keeps_distinct_statuses(a);
    let s = sort_stable(a);
    let al = active_list(bodies, racers, finished, ranking);
    assert(al == renumbered(unkeyed(s)));
    assert forall|i: int, j: int| 0 <= i < j < al.len() implies (#[trigger] al[i]).body_id
        != (#[trigger] al[j]).body_id by {
        assert(al[i].body_id == unkeyed(s)[i].body_id);
        assert(al[j].body_id == unkeyed(s)[j].body_id);
        assert(status_ids(s)[i] == s[i].1.body_id);
        assert(status_ids(s)[j] == s[j].1.body_id);
    }
}


/// After a step the active list names each running racer once, and none of
/// them appears among the racers who left the race.
pub proof fn law_step_active_list_is_distinct(
    l: RaceLedger,
    bodies: Seq<BodySnapshot>,
    t: Scalar,
    due: bool,
    l2: RaceLedger,
    events: Seq<RaceEvent>,
)
    requires
        l.wf(),
        l.accepts(bodies),
        steps_to(l, bodies, t, due, l2, events),
    ensures
        forall|i: int, j: int|
            0 <= i < j < l2.state.active@.len() ==> (#[trigger] l2.state.active@[i]).body_id
                != (#[trigger] l2.state.active@[j]).body_id,
        forall|i: int, k: int|
            0 <= i < l2.state.active@.len() && 0 <= k < l2.state.finished@.len() ==> (
            #[trigger] l2.state.active@[i]).body_id != (#[trigger] l2.state.finished@[k]).body_id,
{
    let ranking = step_ranking(l, bodies);
    let st = step_pass(l, bodies, t);
    law_active_list_names_each_racer_once(bodies, st.1, l2.finished_ids@, ranking);
    assert forall|i: int, k: int|
        0 <= i < l2.state.active@.len() && 0 <= k < l2.state.finished@.len() implies (
        #[trigger] l2.state.active@[i]).body_id != (#[trigger] l2.state.finished@[k]).body_id by {
        assert(l2.state.finished@[k].body_id == l2.finished_ids@[k]);
        assert(l2.finished_ids@.contains(l2.finished_ids@[k]));
    }
}


/// Every ledger of a run from a well-formed ledger is well formed.
proof fn lemma_run_wf(
    ls: Seq<RaceLedger>,
    bs: Seq<Seq<BodySnapshot>>,
    ts: Seq<Scalar>,
    dues: Seq<bool>,
    es: Seq<Seq<RaceEvent>>,
)
    requires
        is_run(ls, bs, ts, dues, es),
        ls[0].wf(),
    ensures
        forall|k: int| 0 <= k < ls.len() ==> (#[trigger] ls[k]).wf(),
{
    assert forall|k: int| 0 <= k < ls.len() implies (#[trigger] ls[k]).wf() by {
        if k > 0 {
            assert(run_step(ls, bs, ts, dues, es, k - 1));
        }
    }
}

/// Over a run from a ledger with nobody placed, whose step times never go
/// back: the racers who left the race are listed with times that never go
/// back either, and each no later than the last step's time.
pub proof fn law_run_finish_times_in_order(
    ls: Seq<RaceLedger>,
    bs: Seq<Seq<BodySnapshot>>,
    ts: Seq<Scalar>,
    dues: Seq<bool>,
    es: Seq<Seq<RaceEvent>>,
)
    requires
        is_run(ls, bs, ts, dues, es),
        ls[0].wf(),
        ls[0].state.finished@.len() == 0,
        forall|i: int, j: int| 0 <= i <= j < ts.len() ==> spec_le(#[trigger] ts[i], #[trigger] ts[j]),
    ensures
        forall|i: int, j: int|
            0 <= i < j < ls.last().state.finished@.len() ==> spec_le(
                (#[trigger] ls.last().state.finished@[i]).finish_time_secs,
                (#[trigger] ls.last().state.finished@[j]).finish_time_secs,
            ),
        es.len() > 0 ==> forall|i: int|
            0 <= i < ls.last().state.finished@.len() ==> spec_le(
                (#[trigger] ls.last().state.finished@[i]).finish_time_secs,
                ts[es.len() - 1],
            ),
    decreases es.len(),
{
    let n = es.len() as int;
    if n > 0 {
        let ls0 = ls.drop_last();
        let bs0 = bs.drop_last();
        let ts0 = ts.drop_last();
        let d0 = dues.drop_last();
        let es0 = es.drop_last();
        assert forall|k: int| 0 <= k < es0.len() implies #[trigger] run_step(ls0, bs0, ts0, d0, es0, k) by {
            assert(run_step(ls, bs, ts, dues, es, k));
            assert(es0[k] == es[k]);
            assert(ls0[k] == ls[k] && ls0[k + 1] == ls[k + 1] && bs0[k] == bs[k]);
            assert(ts0[k] == ts[k] && d0[k] == dues[k]);
        }
        assert forall|i: int, j: int| 0 <= i <= j < ts0.len() implies spec_le(#[trigger] ts0[i], #[trigger] ts0[j]) by {
            assert(ts0[i] == ts[i] && ts0[j] == ts[j]);
        }
        assert(ls0[0] == ls[0]);
        law_run_finish_times_in_order(ls0, bs0, ts0, d0, es0);
        lemma_run_wf(ls, bs, ts, dues, es);
        let a = ls[n - 1];
        let b = ls[n];
        assert(ls0.last() == a);
        assert(a.wf());
        assert(run_step(ls, bs, ts, dues, es, n - 1));
        lemma_step_keeps(a, bs[n - 1], ts[n - 1], dues[n - 1], b, es[n - 1]);
        let fa = a.state.finished@;
        let fb = b.state.finished@;
        let t = ts[n - 1];
        assert(spec_le(t, t));
        assert forall|q: int| 0 <= q < fa.len() implies fb[q] == fa[q] by {
            assert(fb.take(fa.len() as int)[q] == fa[q]);
        }
        assert forall|q: int| 0 <= q < fb.len() implies spec_le((#[trigger] fb[q]).finish_time_secs, t) by {
            if q < fa.len() {
                assert(fb[q] == fa[q]);
                if n > 1 {
                    assert(spec_le(fa[q].finish_time_secs, ts0[n - 2]));
                    assert(ts0[n - 2] == ts[n - 2]);
                    assert(spec_le(ts[n - 2], ts[n - 1]));
                }
            }
        }
        assert forall|i: int, j: int| 0 <= i < j < fb.len() implies spec_le(
            (#[trigger] fb[i]).finish_time_secs,
            (#[trigger] fb[j]).finish_time_secs,
        ) by {
            if j < fa.len() {
                assert(fb[i] == fa[i] && fb[j] == fa[j]);
            } else {
                assert(fb[j].finish_time_secs == t);
                assert(spec_le(fb[i].finish_time_secs, t));
            }
        }
    }
}


/// A pass over the ranking reports checkpoints, finishes and the race's
/// completion, never a leaderboard change.
proof fn lemma_pass_reports_no_reorder(
    st: PassState,
    cps: Seq<Scalar>,
    finish_y: Scalar,
    ranking: Seq<(i64, (BodyId, Scalar))>,
    t: Scalar,
    elims: nat,
    n: nat,
)
    requires
        n <= ranking.len(),
        forall|i: int| 0 <= i < st.0.len() ==> !((#[trigger] st.0[i]) is RankChanged),
    ensures
        forall|i: int|
            0 <= i < pass(st, cps, finish_y, ranking, t, elims, n).0.len() ==> !((#[trigger] pass(
                st,
                cps,
                finish_y,
                ranking,
                t,
                elims,
                n,
            ).0[i]) is RankChanged),
    decreases n,
{
    if n > 0 {
        lemma_pass_reports_no_reorder(st, cps, finish_y, ranking, t, elims, (n - 1) as nat);
        let prev = pass(st, cps, finish_y, ranking, t, elims, (n - 1) as nat);
        let x = ranking[n - 1];
        let r = pass(st, cps, finish_y, ranking, t, elims, n);
        assert(r == visit(prev, cps, finish_y, x.1.0, x.1.1, n as usize, t, elims));
        assert forall|i: int| 0 <= i < r.0.len() implies !((#[trigger] r.0[i]) is RankChanged) by {
            if i < prev.0.len() {
                assert(r.0[i] == prev.0[i]);
            }
        }
    }
}

/// A step reports a leaderboard change exactly when it ranks somebody and
/// its order of racers differs from the previous step's in any place (or in
/// length): the report comes first, lists every ranked racer with its place
/// 1, 2, 3, …, and no other event of the step is one.
pub proof fn law_step_reports_any_reorder(
    l: RaceLedger,
    bodies: Seq<BodySnapshot>,
    t: Scalar,
    due: bool,
    l2: RaceLedger,
    events: Seq<RaceEvent>,
)
    requires
        l.wf(),
        l.accepts(bodies),
        steps_to(l, bodies, t, due, l2, events),
    ensures
        (events.len() > 0 && events[0] is RankChanged) <==> (step_ranking(l, bodies).len() > 0 && !(
        step_ranking(l, bodies).len() == l.previous_rankings@.len() && forall|k: int|
            0 <= k < l.previous_rankings@.len() ==> (#[trigger] step_ranking(l, bodies)[k]).1.0
                == l.previous_rankings@[k])),
        events.len() > 0 ==> (events[0] matches RaceEvent::RankChanged { new_rankings } ==> (
        new_rankings@.len() == step_ranking(l, bodies).len() && forall|k: int|
            0 <= k < new_rankings@.len() ==> (#[trigger] new_rankings@[k]) == (
            step_ranking(l, bodies)[k].1.0,
            (k + 1) as usize,
        ))),
        forall|i: int| 0 < i < events.len() ==> !((#[trigger] events[i]) is RankChanged),
        forall|k: int|
            0 <= k < step_ranking(l, bodies).len() ==> l2.previous_rankings@[k] == (#[trigger] step_ranking(
                l,
                bodies,
            )[k]).1.0,
        l2.previous_rankings@.len() == step_ranking(l, bodies).len(),
{
    let ranking = step_ranking(l, bodies);
    let st = step_pass(l, bodies, t);
    let prev = l.previous_rankings@;
    let ids = ranked_ids(ranking);
    lemma_pass_reports_no_reorder(
        crate::race::pass_start(l),
        l.checkpoints@,
        l.finish_y,
        ranking,
        t,
        l.elimination_count as nat,
        ranking.len(),
    );
    let same = ranking.len() == prev.len() && forall|k: int|
        0 <= k < prev.len() ==> (#[trigger] ranking[k]).1.0 == prev[k];
    if same {
        assert(ids =~= prev) by {
            assert forall|k: int| 0 <= k < ids.len() implies ids[k] == prev[k] by {
                assert(ranking[k].1.0 == prev[k]);
            }
        }
    } else if ids =~= prev {
        assert forall|k: int| 0 <= k < prev.len() implies (#[trigger] ranking[k]).1.0 == prev[k] by {
            assert(ids[k] == ranking[k].1.0);
        }
    }
    let reordered = ids != prev && ranking.len() > 0;
    let head: int = if reordered { 1 } else { 0 };
    let elim = step_eliminates(l, bodies, t, due);
    let rest = events.skip(head);
    assert forall|i: int| 0 <= i < rest.len() implies !((#[trigger] rest[i]) is RankChanged) by {
        if i < st.0.len() {
            assert(rest[i] == st.0[i]);
        }
    }
    assert forall|i: int| 0 < i < events.len() implies !((#[trigger] events[i]) is RankChanged) by {
        assert(events[i] == rest[i - head]);
    }
    if !reordered && events.len() > 0 {
        assert(events[0] == rest[0]);
    }
    if reordered {
        assert forall|k: int| 0 <= k < rank_pairs(ranking).len() implies #[trigger] rank_pairs(ranking)[k] == (
            ranking[k].1.0,
            (k + 1) as usize,
        ) by {}
    }
    assert forall|k: int| 0 <= k < ranking.len() implies l2.previous_rankings@[k] == (#[trigger] ranking[k]).1.0 by {
        assert(ids[k] == ranking[k].1.0);
    }
}

} // verus!
