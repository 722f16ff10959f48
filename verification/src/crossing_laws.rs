//! Checkpoint reports: each crossing a race reports is a credit the ledger
//! gains, so over a whole run every racer is told of every checkpoint at
//! most once, and in the first step it is at or below it.
use vstd::prelude::*;
use crate::physics::{BodyId, BodySnapshot};
use crate::race::{
    credit_pairs, crossings, pass, pass_start, step_pass, step_ranking, steps_to, visit, PassState, RaceEvent,
    RaceLedger,
};
use crate::scalar::{spec_lt, Scalar};
use crate::race_laws::{is_run, run_step};

verus! {

/// The `(racer, checkpoint)` pairs of the checkpoint crossings among
/// `events`, in order.
pub open spec fn crossing_pairs(events: Seq<RaceEvent>) -> Seq<(BodyId, usize)>
    decreases events.len(),
{
    if events.len() == 0 {
        Seq::empty()
    } else {
        crossing_pairs(events.drop_last()) + match events.last() {
            RaceEvent::CheckpointCrossed { body_id, checkpoint_index, .. } => seq![(body_id, checkpoint_index)],
            _ => Seq::<(BodyId, usize)>::empty(),
        }
    }
}

proof fn lemma_crossing_pairs_concat(a: Seq<RaceEvent>, b: Seq<RaceEvent>)
    ensures
        crossing_pairs(a + b) == crossing_pairs(a) + crossing_pairs(b),
    decreases b.len(),
{
    if b.len() > 0 {
        assert((a + b).drop_last() =~= a + b.drop_last());
        lemma_crossing_pairs_concat(a, b.drop_last());
        assert(crossing_pairs(a + b) =~= crossing_pairs(a) + crossing_pairs(b));
    } else {
        assert(a + b =~= a);
        assert(crossing_pairs(a) + crossing_pairs(b) =~= crossing_pairs(a));
    }
}

proof fn lemma_no_crossings(events: Seq<RaceEvent>)
    requires
        forall|i: int| 0 <= i < events.len() ==> !((#[trigger] events[i]) is CheckpointCrossed),
    ensures
        crossing_pairs(events) == Seq::<(BodyId, usize)>::empty(),
    decreases events.len(),
{
    if events.len() > 0 {
        lemma_no_crossings(events.drop_last());
        assert(crossing_pairs(events) =~= Seq::<(BodyId, usize)>::empty());
    }
}

/// Reports of the crossings `crossed` of the racer `id` name exactly the
/// credit pairs of those crossings.
proof fn lemma_reports_are_credits(events: Seq<RaceEvent>, id: BodyId, crossed: Seq<usize>)
    requires
        events.len() == crossed.len(),
        forall|i: int|
            0 <= i < events.len() ==> (#[trigger] events[i] matches RaceEvent::CheckpointCrossed {
                body_id,
                checkpoint_index,
                ..
            } && body_id == id && checkpoint_index == crossed[i]),
    ensures
        crossing_pairs(events) == credit_pairs(id, crossed),
    decreases events.len(),
{
    if events.len() > 0 {
        let e = events.drop_last();
        let c = crossed.drop_last();
        assert forall|i: int| 0 <= i < e.len() implies (#[trigger] e[i] matches RaceEvent::CheckpointCrossed {
            body_id,
            checkpoint_index,
            ..
        } && body_id == id && checkpoint_index == c[i]) by {
            assert(e[i] == events[i]);
        }
        lemma_reports_are_credits(e, id, c);
        assert(credit_pairs(id, crossed) =~= credit_pairs(id, c).push((id, crossed.last())));
        assert(events.last() == events[events.len() - 1]);
        assert(crossing_pairs(events) =~= credit_pairs(id, crossed));
    }
}

/// A pass reports exactly the credits it adds, in order.
proof fn lemma_pass_reports(
    st: PassState,
    cps: Seq<Scalar>,
    finish_y: Scalar,
    ranking: Seq<(i64, (BodyId, Scalar))>,
    t: Scalar,
    elims: nat,
    n: nat,
)
    requires
        n <= ranking.len(),
    ensures
        pass(st, cps, finish_y, ranking, t, elims, n).5.len() >= st.5.len(),
        pass(st, cps, finish_y, ranking, t, elims, n).5.take(st.5.len() as int) == st.5,
        crossing_pairs(pass(st, cps, finish_y, ranking, t, elims, n).0) == crossing_pairs(st.0) + pass(
            st,
            cps,
            finish_y,
            ranking,
            t,
            elims,
            n,
        ).5.skip(st.5.len() as int),
    decreases n,
{
    if n == 0 {
        assert(st.5.take(st.5.len() as int) =~= st.5);
        assert(st.5.skip(st.5.len() as int) =~= Seq::<(BodyId, usize)>::empty());
        assert(crossing_pairs(st.0) + Seq::<(BodyId, usize)>::empty() =~= crossing_pairs(st.0));
    } else {
        lemma_pass_reports(st, cps, finish_y, ranking, t, elims, (n - 1) as nat);
        let prev = pass(st, cps, finish_y, ranking, t, elims, (n - 1) as nat);
        let x = ranking[n - 1];
        let id = x.1.0;
        let k = crate::race::find_racer(prev.1, id).unwrap();
        let rec = prev.1[k];
        let crossed = crossings(cps, x.1.1, id, prev.5, cps.len());
        let cp_events = crossed.map_values(
            |ci: usize|
                RaceEvent::CheckpointCrossed {
                    body_id: id,
                    display_name: rec.display_name,
                    checkpoint_index: ci,
                    checkpoint_y: cps[ci as int],
                    rank_at_crossing: n as usize,
                },
        );
        lemma_reports_are_credits(cp_events, id, crossed);
        lemma_crossing_pairs_concat(prev.0, cp_events);
        let r = pass(st, cps, finish_y, ranking, t, elims, n);
        assert(r == visit(prev, cps, finish_y, id, x.1.1, n as usize, t, elims));
        assert(r.5 == prev.5 + credit_pairs(id, crossed));
        let base = prev.0 + cp_events;
        if crate::scalar::spec_le(x.1.1, finish_y) {
            let extra = r.0.skip(base.len() as int);
            assert(r.0 =~= base + extra);
            assert forall|i: int| 0 <= i < extra.len() implies !((#[trigger] extra[i]) is CheckpointCrossed) by {}
            lemma_no_crossings(extra);
            lemma_crossing_pairs_concat(base, extra);
        } else {
            assert(r.0 == base);
        }
        let l = st.5.len() as int;
        assert(r.5.take(l) =~= st.5) by {
            assert forall|q: int| 0 <= q < l implies r.5[q] == st.5[q] by {
                assert(prev.5.take(l)[q] == st.5[q]);
            }
        }
        assert(r.5.skip(l) =~= prev.5.skip(l) + credit_pairs(id, crossed));
    }
}



proof fn lemma_concat_contains<T>(a: Seq<T>, b: Seq<T>, x: T)
    ensures
        (a + b).contains(x) <==> (a.contains(x) || b.contains(x)),
{
    if (a + b).contains(x) {
        let q = choose|q: int| 0 <= q < (a + b).len() && (a + b)[q] == x;
        if q < a.len() {
            assert(a[q] == x);
        } else {
            assert(b[q - a.len()] == x);
        }
    }
    if a.contains(x) {
        let q = choose|q: int| 0 <= q < a.len() && a[q] == x;
        assert((a + b)[q] == x);
    }
    if b.contains(x) {
        let q = choose|q: int| 0 <= q < b.len() && b[q] == x;
        assert((a + b)[q + a.len()] == x);
    }
}

/// The racer `id` at height `y` crosses checkpoint `j` (among the first
/// `n`) exactly when it is at or below it and was not credited with it.
proof fn lemma_crossings_members(cps: Seq<Scalar>, y: Scalar, id: BodyId, credited: Seq<(BodyId, usize)>, n: nat, j: usize)
    requires
        n <= usize::MAX + 1,
    ensures
        crossings(cps, y, id, credited, n).contains(j) <==> (j < n && !spec_lt(cps[j as int], y)
            && !credited.contains((id, j))),
    decreases n,
{
    if n > 0 {
        lemma_crossings_members(cps, y, id, credited, (n - 1) as nat, j);
        let r = crossings(cps, y, id, credited, (n - 1) as nat);
        let c = crossings(cps, y, id, credited, n);
        let ci = n - 1;
        if !spec_lt(cps[ci], y) && !credited.contains((id, ci as usize)) {
            assert(c == r.push(ci as usize));
            if c.contains(j) {
                let q = choose|q: int| 0 <= q < c.len() && c[q] == j;
                if q < r.len() {
                    assert(r[q] == j);
                    assert(r.contains(j));
                }
            }
            if r.contains(j) {
                let q = choose|q: int| 0 <= q < r.len() && r[q] == j;
                assert(c[q] == j);
            }
            if j == ci {
                assert(c[r.len() as int] == j);
            }
        } else {
            assert(c == r);
        }
    }
}

proof fn lemma_credit_pairs_members(id: BodyId, crossed: Seq<usize>, p: (BodyId, usize))
    ensures
        credit_pairs(id, crossed).contains(p) <==> (p.0 == id && crossed.contains(p.1)),
{
    let c = credit_pairs(id, crossed);
    if c.contains(p) {
        let q = choose|q: int| 0 <= q < c.len() && c[q] == p;
        assert(crossed[q] == p.1);
    }
    if p.0 == id && crossed.contains(p.1) {
        let q = choose|q: int| 0 <= q < crossed.len() && crossed[q] == p.1;
        assert(c[q] == p);
    }
}

/// Whether the racer `id` is among the first `n` of `ranking` at or below
/// checkpoint height `cy`.
pub open spec fn ranked_at_or_below(ranking: Seq<(i64, (BodyId, Scalar))>, n: int, id: BodyId, cy: Scalar) -> bool {
    exists|p: int| 0 <= p < n && (#[trigger] ranking[p]).1.0 == id && !spec_lt(cy, ranking[p].1.1)
}

/// A pass credits the racer `id` with checkpoint `j` exactly when the racer
/// is ranked at or below it and had no credit for it.
proof fn lemma_pass_credits_members(
    st: PassState,
    cps: Seq<Scalar>,
    finish_y: Scalar,
    ranking: Seq<(i64, (BodyId, Scalar))>,
    t: Scalar,
    elims: nat,
    n: nat,
    id: BodyId,
    j: usize,
)
    requires
        n <= ranking.len(),
        cps.len() <= usize::MAX,
        crate::race::ranked_ids(ranking).no_duplicates(),
    ensures
        pass(st, cps, finish_y, ranking, t, elims, n).5.skip(st.5.len() as int).contains((id, j)) <==> (j
            < cps.len() && !st.5.contains((id, j)) && ranked_at_or_below(ranking, n as int, id, cps[j as int])),
    decreases n,
{
    lemma_pass_reports(st, cps, finish_y, ranking, t, elims, n);
    let l = st.5.len() as int;
    if n == 0 {
        assert(st.5.skip(l) =~= Seq::<(BodyId, usize)>::empty());
    } else {
        lemma_pass_credits_members(st, cps, finish_y, ranking, t, elims, (n - 1) as nat, id, j);
        lemma_pass_reports(st, cps, finish_y, ranking, t, elims, (n - 1) as nat);
        let prev = pass(st, cps, finish_y, ranking, t, elims, (n - 1) as nat);
        let x = ranking[n - 1];
        let xid = x.1.0;
        let y = x.1.1;
        let crossed = crossings(cps, y, xid, prev.5, cps.len());
        let r = pass(st, cps, finish_y, ranking, t, elims, n);
        assert(r == visit(prev, cps, finish_y, xid, y, n as usize, t, elims));
        assert(r.5 == prev.5 + credit_pairs(xid, crossed));
        assert(r.5.skip(l) =~= prev.5.skip(l) + credit_pairs(xid, crossed));
        lemma_crossings_members(cps, y, xid, prev.5, cps.len(), j);
        lemma_credit_pairs_members(xid, crossed, (id, j));
        assert(prev.5 =~= st.5 + prev.5.skip(l)) by {
            assert(prev.5.take(l) == st.5);
        }
        let old_part = prev.5.skip(l);
        let new_part = credit_pairs(xid, crossed);
        lemma_concat_contains(old_part, new_part, (id, j));
        lemma_concat_contains(st.5, old_part, (id, j));
        // prev credits of (id, j): either from before the pass or earlier in it
        if ranked_at_or_below(ranking, n as int, id, cps[j as int]) {
            let p = choose|p: int| 0 <= p < n && (#[trigger] ranking[p]).1.0 == id && !spec_lt(cps[j as int], ranking[p].1.1);
            if p < n - 1 {
                assert(ranked_at_or_below(ranking, n - 1, id, cps[j as int]));
            }
        }
        if id == xid && old_part.contains((id, j)) {
            // an earlier racer of the pass would share the id
            let p = choose|p: int| 0 <= p < n - 1 && (#[trigger] ranking[p]).1.0 == id && !spec_lt(cps[j as int], ranking[p].1.1);
            assert(crate::race::ranked_ids(ranking)[p] == id);
            assert(crate::race::ranked_ids(ranking)[n - 1] == id);
        }
        if ranked_at_or_below(ranking, n - 1, id, cps[j as int]) {
            let p = choose|p: int| 0 <= p < n - 1 && (#[trigger] ranking[p]).1.0 == id && !spec_lt(cps[j as int], ranking[p].1.1);
            assert(0 <= p < n && ranking[p].1.0 == id);
        }
    }
}


/// The checkpoint crossings a step reports are exactly the credits the
/// ledger gains in that step, each once: the racer `id` is told of
/// checkpoint `j` exactly when it is ranked at or below the checkpoint and
/// had not been told of it before.
pub proof fn law_step_reports_crossings_once(
    l: RaceLedger,
    bodies: Seq<BodySnapshot>,
    t: Scalar,
    due: bool,
    l2: RaceLedger,
    events: Seq<RaceEvent>,
)
    requires
        l.wf(),
        l.accepts(bodies),
        steps_to(l, bodies, t, due, l2, events),
    ensures
        l2.credited@.len() >= l.credited@.len(),
        l2.credited@.take(l.credited@.len() as int) == l.credited@,
        crossing_pairs(events) == l2.credited@.skip(l.credited@.len() as int),
        crossing_pairs(events).no_duplicates(),
        forall|id: BodyId, j: usize|
            #[trigger] crossing_pairs(events).contains((id, j)) <==> (j < l.checkpoints@.len()
                && !l.credited@.contains((id, j)) && ranked_at_or_below(
                step_ranking(l, bodies),
                step_ranking(l, bodies).len() as int,
                id,
                l.checkpoints@[j as int],
            )),
{
    let ranking = step_ranking(l, bodies);
    let st = step_pass(l, bodies, t);
    let st0 = pass_start(l);
    let cps = l.checkpoints@;
    assert(l.checkpoints.len() == cps.len());
    crate::race::lemma_candidates(bodies, l.racer_tag@, l.finished_ids@, l.racers@);
    crate::race::lemma_sort_keeps_distinct(crate::race::candidates(bodies, l.racer_tag@, l.finished_ids@));
    lemma_pass_reports(st0, cps, l.finish_y, ranking, t, l.elimination_count as nat, ranking.len());
    assert(crossing_pairs(st0.0) =~= Seq::<(BodyId, usize)>::empty());
    let changed = crate::race::ranked_ids(ranking) != l.previous_rankings@ && ranking.len() > 0;
    let head: int = if changed { 1 } else { 0 };
    let elim = crate::race::step_eliminates(l, bodies, t, due);
    let rest = events.skip(head);
    assert(events =~= events.take(head) + rest);
    lemma_crossing_pairs_concat(events.take(head), rest);
    if changed {
        assert(events.take(head) =~= seq![events[0]]);
        assert(seq![events[0]].drop_last() =~= Seq::<RaceEvent>::empty());
        assert(events[0] is RankChanged);
        assert(seq![events[0]].last() == events[0]);
        assert(crossing_pairs(events.take(head)) =~= Seq::<(BodyId, usize)>::empty());
    } else {
        assert(events.take(head) =~= Seq::<RaceEvent>::empty());
    }
    if elim {
        let tail = rest.subrange(st.0.len() as int, rest.len() as int);
        assert(rest =~= st.0 + tail);
        lemma_crossing_pairs_concat(st.0, tail);
        assert(tail.drop_last() =~= Seq::<RaceEvent>::empty());
        assert(tail.last() is RacerEliminated);
        assert(crossing_pairs(tail) =~= Seq::<(BodyId, usize)>::empty());
    } else {
        assert(rest =~= st.0);
    }
    assert(crossing_pairs(events) =~= l2.credited@.skip(l.credited@.len() as int));
    assert(l2.credited@ =~= l.credited@ + l2.credited@.skip(l.credited@.len() as int));
    assert(crossing_pairs(events).no_duplicates()) by {
        let c = l2.credited@;
        let k = l.credited@.len() as int;
        assert forall|a: int, b: int|
            0 <= a < c.skip(k).len() && 0 <= b < c.skip(k).len() && a != b implies c.skip(k)[a] != c.skip(k)[b] by {
            assert(c.skip(k)[a] == c[a + k] && c.skip(k)[b] == c[b + k]);
        }
    }
    assert forall|id: BodyId, j: usize|
        #[trigger] crossing_pairs(events).contains((id, j)) <==> (j < cps.len() && !l.credited@.contains((id, j))
            && ranked_at_or_below(ranking, ranking.len() as int, id, cps[j as int])) by {
        lemma_pass_credits_members(st0, cps, l.finish_y, ranking, t, l.elimination_count as nat, ranking.len(), id, j);
    }
}


/// The checkpoint crossings reported over the events of a run of steps, in
/// order.
pub open spec fn run_crossing_pairs(es: Seq<Seq<RaceEvent>>) -> Seq<(BodyId, usize)>
    decreases es.len(),
{
    if es.len() == 0 {
        Seq::empty()
    } else {
        run_crossing_pairs(es.drop_last()) + crossing_pairs(es.last())
    }
}

/// Over a run the ledgers stay well formed with the same checkpoints, keep
/// every credit they had, and the reports of the run are the credits
/// gained.
proof fn lemma_run_credits(
    ls: Seq<RaceLedger>,
    bs: Seq<Seq<BodySnapshot>>,
    ts: Seq<Scalar>,
    dues: Seq<bool>,
    es: Seq<Seq<RaceEvent>>,
)
    requires
        is_run(ls, bs, ts, dues, es),
        ls[0].wf(),
    ensures
        forall|k: int| 0 <= k < ls.len() ==> (#[trigger] ls[k]).wf() && ls[k].checkpoints == ls[0].checkpoints,
        forall|i: int, j: int|
            0 <= i <= j < ls.len() ==> (#[trigger] ls[j]).credited@.len() >= (#[trigger] ls[i]).credited@.len()
                && ls[j].credited@.take(ls[i].credited@.len() as int) == ls[i].credited@,
        run_crossing_pairs(es) == ls.last().credited@.skip(ls[0].credited@.len() as int),
    decreases es.len(),
{
    let n = es.len() as int;
    if n == 0 {
        assert forall|i: int, j: int| 0 <= i <= j < ls.len() implies (#[trigger] ls[j]).credited@.len()
            >= (#[trigger] ls[i]).credited@.len() && ls[j].credited@.take(ls[i].credited@.len() as int)
            == ls[i].credited@ by {
            assert(ls[i].credited@.take(ls[i].credited@.len() as int) =~= ls[i].credited@);
        }
        assert(ls[0].credited@.skip(ls[0].credited@.len() as int) =~= Seq::<(BodyId, usize)>::empty());
    } else {
        let ls0 = ls.drop_last();
        let bs0 = bs.drop_last();
        let ts0 = ts.drop_last();
        let d0 = dues.drop_last();
        let es0 = es.drop_last();
        assert forall|k: int| 0 <= k < es0.len() implies #[trigger] run_step(ls0, bs0, ts0, d0, es0, k) by {
            assert(run_step(ls, bs, ts, dues, es, k));
            assert(es0[k] == es[k]);
            assert(ls0[k] == ls[k] && ls0[k + 1] == ls[k + 1] && bs0[k] == bs[k]);
            assert(ts0[k] == ts[k] && d0[k] == dues[k]);
        }
        assert(ls0[0] == ls[0]);
        lemma_run_credits(ls0, bs0, ts0, d0, es0);
        let a = ls[n - 1];
        let b = ls[n];
        assert(ls0.last() == a);
        assert(ls0[n - 1] == a);
        assert(a.wf());
        assert(run_step(ls, bs, ts, dues, es, n - 1));
        law_step_reports_crossings_once(a, bs[n - 1], ts[n - 1], dues[n - 1], b, es[n - 1]);
        assert forall|k: int| 0 <= k < ls.len() implies (#[trigger] ls[k]).wf() && ls[k].checkpoints
            == ls[0].checkpoints by {
            if k < n {
                assert(ls0[k] == ls[k]);
            }
        }
        let ca = a.credited@;
        let cb = b.credited@;
        assert forall|i: int, j: int| 0 <= i <= j < ls.len() implies (#[trigger] ls[j]).credited@.len()
            >= (#[trigger] ls[i]).credited@.len() && ls[j].credited@.take(ls[i].credited@.len() as int)
            == ls[i].credited@ by {
            if j < n {
                assert(ls0[i] == ls[i] && ls0[j] == ls[j]);
            } else if i < n {
                assert(ls0[i] == ls[i]);
                let ci = ls[i].credited@;
                assert(ca.take(ci.len() as int) == ci);
                assert(cb.take(ci.len() as int) =~= ci) by {
                    assert forall|q: int| 0 <= q < ci.len() implies cb[q] == ci[q] by {
                        assert(cb.take(ca.len() as int)[q] == ca[q]);
                        assert(ca.take(ci.len() as int)[q] == ci[q]);
                    }
                }
            } else {
                assert(cb.take(cb.len() as int) =~= cb);
            }
        }
        let l0 = ls[0].credited@.len() as int;
        assert(es0 =~= es.drop_last());
        assert(run_crossing_pairs(es) == run_crossing_pairs(es0) + crossing_pairs(es[n - 1]));
        assert(ca.take(l0) == ls[0].credited@);
        assert(cb.skip(l0) =~= ca.skip(l0) + cb.skip(ca.len() as int)) by {
            assert forall|q: int| 0 <= q < ca.len() implies cb[q] == ca[q] by {
                assert(cb.take(ca.len() as int)[q] == ca[q]);
            }
        }
    }
}

/// Over a whole run of steps, every checkpoint crossing is reported once
/// and in the first step it happens: the reports of the run are exactly
/// the credits the ledger gains, with no `(racer, checkpoint)` pair twice;
/// and a racer told of a checkpoint in some step was, in every earlier
/// step, not ranked at or below it.
pub proof fn law_run_reports_each_crossing_once(
    ls: Seq<RaceLedger>,
    bs: Seq<Seq<BodySnapshot>>,
    ts: Seq<Scalar>,
    dues: Seq<bool>,
    es: Seq<Seq<RaceEvent>>,
)
    requires
        is_run(ls, bs, ts, dues, es),
        ls[0].wf(),
    ensures
        run_crossing_pairs(es) == ls.last().credited@.skip(ls[0].credited@.len() as int),
        run_crossing_pairs(es).no_duplicates(),
        forall|k: int, k2: int, id: BodyId, j: usize|
            0 <= k < k2 < es.len() && #[trigger] crossing_pairs(es[k2]).contains((id, j)) ==> !ranked_at_or_below(
                #[trigger] step_ranking(ls[k], bs[k]),
                step_ranking(ls[k], bs[k]).len() as int,
                id,
                ls[0].checkpoints@[j as int],
            ),
        forall|k: int, id: BodyId, j: usize|
            0 <= k < es.len() && j < ls[0].checkpoints@.len() && ranked_at_or_below(
                #[trigger] step_ranking(ls[k], bs[k]),
                step_ranking(ls[k], bs[k]).len() as int,
                id,
                ls[0].checkpoints@[j as int],
            ) ==> #[trigger] ls[k + 1].credited@.contains((id, j)),
{
    lemma_run_credits(ls, bs, ts, dues, es);
    assert forall|k: int, id: BodyId, j: usize|
        0 <= k < es.len() && j < ls[0].checkpoints@.len() && ranked_at_or_below(
            #[trigger] step_ranking(ls[k], bs[k]),
            step_ranking(ls[k], bs[k]).len() as int,
            id,
            ls[0].checkpoints@[j as int],
        ) implies #[trigger] ls[k + 1].credited@.contains((id, j)) by {
        assert(run_step(ls, bs, ts, dues, es, k));
        law_step_reports_crossings_once(ls[k], bs[k], ts[k], dues[k], ls[k + 1], es[k]);
        assert(ls[k].checkpoints == ls[0].checkpoints);
        let ck = ls[k].credited@;
        let ck1 = ls[k + 1].credited@;
        if ck.contains((id, j)) {
            let q = choose|q: int| 0 <= q < ck.len() && ck[q] == (id, j);
            assert(ck1.take(ck.len() as int)[q] == ck[q]);
            assert(ck1[q] == (id, j));
        } else {
            assert(crossing_pairs(es[k]).contains((id, j)));
            let q = choose|q: int| 0 <= q < ck1.skip(ck.len() as int).len() && ck1.skip(ck.len() as int)[q] == (id, j);
            assert(ck1[q + ck.len()] == (id, j));
        }
    }
    let c = ls.last().credited@;
    let l0 = ls[0].credited@.len() as int;
    assert(ls.last() == ls[ls.len() - 1]);
    assert(ls.last().wf());
    assert(run_crossing_pairs(es).no_duplicates()) by {
        assert forall|a: int, b: int|
            0 <= a < c.skip(l0).len() && 0 <= b < c.skip(l0).len() && a != b implies c.skip(l0)[a] != c.skip(l0)[b] by {
            assert(c.skip(l0)[a] == c[a + l0] && c.skip(l0)[b] == c[b + l0]);
        }
    }
    assert forall|k: int, k2: int, id: BodyId, j: usize|
        0 <= k < k2 < es.len() && #[trigger] crossing_pairs(es[k2]).contains((id, j)) implies !ranked_at_or_below(
        #[trigger] step_ranking(ls[k], bs[k]),
        step_ranking(ls[k], bs[k]).len() as int,
        id,
        ls[0].checkpoints@[j as int],
    ) by {
        assert(run_step(ls, bs, ts, dues, es, k));
        assert(run_step(ls, bs, ts, dues, es, k2));
        law_step_reports_crossings_once(ls[k], bs[k], ts[k], dues[k], ls[k + 1], es[k]);
        law_step_reports_crossings_once(ls[k2], bs[k2], ts[k2], dues[k2], ls[k2 + 1], es[k2]);
        assert(crossing_pairs(es[k2]).contains((id, j)));
        assert(!ls[k2].credited@.contains((id, j)));
        let ranking = step_ranking(ls[k], bs[k]);
        if ranked_at_or_below(ranking, ranking.len() as int, id, ls[0].checkpoints@[j as int]) {
            assert(ls[k].checkpoints == ls[0].checkpoints);
            let ck = ls[k].credited@;
            let ck1 = ls[k + 1].credited@;
            let ck2 = ls[k2].credited@;
            if ck.contains((id, j)) {
                let q = choose|q: int| 0 <= q < ck.len() && ck[q] == (id, j);
                assert(ck2.take(ck.len() as int)[q] == ck[q]);
                assert(ck2[q] == (id, j));
            } else {
                assert(crossing_pairs(es[k]).contains((id, j)));
                assert(ck1.skip(ck.len() as int).contains((id, j)));
                let q = choose|q: int| 0 <= q < ck1.skip(ck.len() as int).len() && ck1.skip(ck.len() as int)[q] == (id, j);
                let q1 = q + ck.len();
                assert(ck1[q1] == (id, j));
                assert(ck2.take(ck1.len() as int)[q1] == ck1[q1]);
                assert(ck2[q1] == (id, j));
            }
            assert(ck2.contains((id, j)));
        }
    }
}

} // verus!
