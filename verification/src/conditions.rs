//! End conditions: when the simulation stops, and why.
//!
//! [`EndConditionMonitor`] remembers which pairs of bodies have collided and
//! whether the simulation already completed.  After each physics step the
//! caller hands it the elapsed time and a record of every body ever created;
//! the monitor evaluates the scene's end condition and reports the
//! [`CompletionReason`] once.
use vstd::prelude::*;
use crate::physics::{has_tag, normalise_pair, tags_contain, BodyId, CompletionReason};
use crate::scalar::{spec_le, spec_lt, Scalar};
use crate::scene::{EndCondition, Vec2, WorldBounds};

verus! {

/// What end conditions read of one body (alive or destroyed).
#[derive(Clone, Debug)]
pub struct BodyRecord {
    pub id: BodyId,
    pub name: Option<String>,
    pub tags: Vec<String>,
    /// `true` while the body is still in the simulation.
    pub alive: bool,
    /// World position; meaningful while the body is alive.
    pub position: Vec2,
}

/// `true` when the body's name is `name`.
pub open spec fn named(b: BodyRecord, name: Seq<char>) -> bool {
    b.name matches Some(n) && n@ == name
}

/// `true` when a position lies outside the world rectangle
/// `[0, width] × [0, height]` (comparisons as IEEE-754 does them).
pub open spec fn outside_bounds(p: Vec2, bounds: WorldBounds) -> bool {
    let zero = Scalar { bits: 0 };
    spec_lt(p.x, zero) || spec_lt(bounds.width, p.x) || spec_lt(p.y, zero) || spec_lt(bounds.height, p.y)
}

/// The first body named `name`, in record order.
pub open spec fn first_named(bodies: Seq<BodyRecord>, name: Seq<char>) -> Option<BodyId>
    decreases bodies.len(),
{
    if bodies.len() == 0 {
        None
    } else {
        match first_named(bodies.drop_last(), name) {
            Some(id) => Some(id),
            None => if named(bodies.last(), name) {
                Some(bodies.last().id)
            } else {
                None
            },
        }
    }
}

/// The first record of body `id`, in record order.
pub open spec fn record_of(bodies: Seq<BodyRecord>, id: BodyId) -> Option<BodyRecord>
    decreases bodies.len(),
{
    if bodies.len() == 0 {
        None
    } else {
        match record_of(bodies.drop_last(), id) {
            Some(r) => Some(r),
            None => if bodies.last().id == id {
                Some(bodies.last())
            } else {
                None
            },
        }
    }
}

/// `true` when the collision of bodies `a` and `b` pairs a body tagged
/// `tag_a` with one tagged `tag_b`, either way round.
pub open spec fn pair_has_tags(
    bodies: Seq<BodyRecord>,
    pair: (BodyId, BodyId),
    tag_a: Seq<char>,
    tag_b: Seq<char>,
) -> bool {
    match (record_of(bodies, pair.0), record_of(bodies, pair.1)) {
        (Some(da), Some(db)) => (has_tag(da.tags@, tag_a) && has_tag(db.tags@, tag_b)) || (has_tag(
            da.tags@,
            tag_b,
        ) && has_tag(db.tags@, tag_a)),
        _ => false,
    }
}

/// Outcome of an end condition: `Some(reason)` when it is met.
///
/// `And` is met when it has at least one part and every part is met; it
/// reports the reason of its last part.  `Or` reports the first part that is
/// met.  `FirstToReach` is decided by the race logic, never here.
pub open spec fn outcome(
    c: EndCondition,
    elapsed: Scalar,
    bodies: Seq<BodyRecord>,
    collisions: Seq<(BodyId, BodyId)>,
    bounds: WorldBounds,
) -> Option<CompletionReason>
    decreases c, 0nat,
{
    match c {
        EndCondition::TimeLimit { seconds } => if spec_le(seconds, elapsed) {
            Some(CompletionReason::TimeLimitReached)
        } else {
            None
        },
        EndCondition::AllTaggedDestroyed { tag } => {
            let any_exist = exists|i: int| 0 <= i < bodies.len() && has_tag((#[trigger] bodies[i]).tags@, tag@);
            let any_alive = exists|i: int|
                0 <= i < bodies.len() && has_tag((#[trigger] bodies[i]).tags@, tag@) && bodies[i].alive;
            if any_exist && !any_alive {
                Some(CompletionReason::AllTaggedDestroyed { tag })
            } else {
                None
            }
        },
        EndCondition::ObjectEscaped { name } => {
            let escaped = exists|i: int|
                0 <= i < bodies.len() && named(#[trigger] bodies[i], name@) && bodies[i].alive
                    && outside_bounds(bodies[i].position, bounds);
            if escaped {
                Some(CompletionReason::ObjectEscaped { name })
            } else {
                None
            }
        },
        EndCondition::ObjectsCollided { name_a, name_b } => {
            match (first_named(bodies, name_a@), first_named(bodies, name_b@)) {
                (Some(a), Some(b)) => if collisions.contains(normalise_pair_spec(a, b)) {
                    Some(CompletionReason::ObjectsCollided { name_a, name_b })
                } else {
                    None
                },
                _ => None,
            }
        },
        EndCondition::TagsCollided { tag_a, tag_b } => {
            let hit = exists|k: int|
                0 <= k < collisions.len() && pair_has_tags(bodies, #[trigger] collisions[k], tag_a@, tag_b@);
            if hit {
                Some(CompletionReason::TagsCollided { tag_a, tag_b })
            } else {
                None
            }
        },
        EndCondition::And { conditions } => {
            let n = conditions@.len();
            if n > 0 && all_met(conditions@, n, elapsed, bodies, collisions, bounds) {
                outcome(conditions@[n - 1], elapsed, bodies, collisions, bounds)
            } else {
                None
            }
        },
        EndCondition::Or { conditions } => first_met(
            conditions@,
            conditions@.len(),
            elapsed,
            bodies,
            collisions,
            bounds,
        ),
        EndCondition::FirstToReach { .. } => None,
    }
}

/// `true` when each of the first `n` conditions is met.
pub open spec fn all_met(
    cs: Seq<EndCondition>,
    n: nat,
    elapsed: Scalar,
    bodies: Seq<BodyRecord>,
    collisions: Seq<(BodyId, BodyId)>,
    bounds: WorldBounds,
) -> bool
    decreases cs, n,
{
    if n == 0 || n > cs.len() {
        true
    } else {
        all_met(cs, (n - 1) as nat, elapsed, bodies, collisions, bounds) && outcome(
            cs[n - 1],
            elapsed,
            bodies,
            collisions,
            bounds,
        ) is Some
    }
}

/// The reason of the first condition met among the first `n`.
pub open spec fn first_met(
    cs: Seq<EndCondition>,
    n: nat,
    elapsed: Scalar,
    bodies: Seq<BodyRecord>,
    collisions: Seq<(BodyId, BodyId)>,
    bounds: WorldBounds,
) -> Option<CompletionReason>
    decreases cs, n,
{
    if n == 0 || n > cs.len() {
        None
    } else {
        match first_met(cs, (n - 1) as nat, elapsed, bodies, collisions, bounds) {
            Some(r) => Some(r),
            None => outcome(cs[n - 1], elapsed, bodies, collisions, bounds),
        }
    }
}

/// Spec form of [`normalise_pair`].
pub open spec fn normalise_pair_spec(a: BodyId, b: BodyId) -> (BodyId, BodyId) {
    if a.0 <= b.0 {
        (a, b)
    } else {
        (b, a)
    }
}

/// Whether a position lies outside the world rectangle.
pub fn is_outside_bounds(p: Vec2, bounds: WorldBounds) -> (r: bool)
    ensures
        r == outside_bounds(p, bounds),
{
    let zero = Scalar::zero();
    p.x.lt(&zero) || bounds.width.lt(&p.x) || p.y.lt(&zero) || bounds.height.lt(&p.y)
}

fn name_is(b: &BodyRecord, name: &String) -> (r: bool)
    ensures
        r == named(*b, name@),
{
    match &b.name {
        Some(n) => *n == *name,
        None => false,
    }
}

/// The first body named `name`, in record order.
pub fn find_body_by_name(bodies: &Vec<BodyRecord>, name: &String) -> (r: Option<BodyId>)
    ensures
        r == first_named(bodies@, name@),
{
    let mut i: usize = 0;
    while i < bodies.len()
        invariant
            0 <= i <= bodies@.len(),
            first_named(bodies@.take(i as int), name@) is None,
        decreases bodies.len() - i,
    {
        proof {
            assert(bodies@.take(i + 1).drop_last() =~= bodies@.take(i as int));
        }
        if name_is(&bodies[i], name) {
            proof {
                lemma_first_named_prefix(bodies@, name@, i + 1);
            }
            return Some(bodies[i].id);
        }
        i = i + 1;
    }
    assert(bodies@.take(i as int) =~= bodies@);
    None
}

/// Once a prefix names a body, the whole sequence names the same one.
proof fn lemma_first_named_prefix(bodies: Seq<BodyRecord>, name: Seq<char>, k: int)
    requires
        0 <= k <= bodies.len(),
        first_named(bodies.take(k), name) is Some,
    ensures
        first_named(bodies, name) == first_named(bodies.take(k), name),
    decreases bodies.len() - k,
{
    if k < bodies.len() {
        assert(bodies.take(k + 1).drop_last() =~= bodies.take(k));
        lemma_first_named_prefix(bodies, name, k + 1);
    } else {
        assert(bodies.take(k) =~= bodies);
    }
}

/// Once a prefix has a record of `id`, the whole sequence gives the same one.
proof fn lemma_record_of_prefix(bodies: Seq<BodyRecord>, id: BodyId, k: int)
    requires
        0 <= k <= bodies.len(),
        record_of(bodies.take(k), id) is Some,
    ensures
        record_of(bodies, id) == record_of(bodies.take(k), id),
    decreases bodies.len() - k,
{
    if k < bodies.len() {
        assert(bodies.take(k + 1).drop_last() =~= bodies.take(k));
        lemma_record_of_prefix(bodies, id, k + 1);
    } else {
        assert(bodies.take(k) =~= bodies);
    }
}

/// The first record of body `id`.
fn record_index(bodies: &Vec<BodyRecord>, id: BodyId) -> (r: Option<usize>)
    ensures
        match r {
            Some(k) => k < bodies@.len() && record_of(bodies@, id) == Some(bodies@[k as int]),
            None => record_of(bodies@, id) is None,
        },
{
    let mut i: usize = 0;
    while i < bodies.len()
        invariant
            0 <= i <= bodies@.len(),
            record_of(bodies@.take(i as int), id) is None,
        decreases bodies.len() - i,
    {
        proof {
            assert(bodies@.take(i + 1).drop_last() =~= bodies@.take(i as int));
        }
        if bodies[i].id == id {
            proof {
                lemma_record_of_prefix(bodies@, id, i + 1);
            }
            return Some(i);
        }
        i = i + 1;
    }
    assert(bodies@.take(i as int) =~= bodies@);
    None
}

/// Decides end conditions as the simulation runs.
#[derive(Debug)]
pub struct EndConditionMonitor {
    /// The scene's end condition, if any.
    pub condition: Option<EndCondition>,
    /// Body pairs that have collided, normalised to id order, each once.
    pub collisions: Vec<(BodyId, BodyId)>,
    /// `true` once a completion has been reported.
    pub complete: bool,
}

impl EndConditionMonitor {
    /// A monitor for `condition`, with no collisions seen and not complete.
    pub fn new(condition: Option<EndCondition>) -> (m: EndConditionMonitor)
        ensures
            m.condition == condition,
            m.collisions@.len() == 0,
            !m.complete,
    {
        EndConditionMonitor { condition, collisions: Vec::new(), complete: false }
    }

    /// Remember that bodies `a` and `b` collided.
    pub fn record_collision(&mut self, a: BodyId, b: BodyId)
        ensures
            final(self).condition == old(self).condition,
            final(self).complete == old(self).complete,
            final(self).collisions@ == (if old(self).collisions@.contains(normalise_pair_spec(a, b)) {
                old(self).collisions@
            } else {
                old(self).collisions@.push(normalise_pair_spec(a, b))
            }),
    {
        let p = normalise_pair(a, b);
        let mut i: usize = 0;
        while i < self.collisions.len()
            invariant
                0 <= i <= self.collisions@.len(),
                p == normalise_pair_spec(a, b),
                forall|j: int| 0 <= j < i ==> self.collisions@[j] != p,
            decreases self.collisions.len() - i,
        {
            let q = self.collisions[i];
            if q.0 == p.0 && q.1 == p.1 {
                assert(self.collisions@[i as int] == p);
                return;
            }
            i = i + 1;
        }
        self.collisions.push(p);
    }

    /// Evaluate `cond` against the current state of the world.
    pub fn evaluate(
        &self,
        cond: &EndCondition,
        elapsed: Scalar,
        bodies: &Vec<BodyRecord>,
        bounds: WorldBounds,
    ) -> (r: Option<CompletionReason>)
        ensures
            r == outcome(*cond, elapsed, bodies@, self.collisions@, bounds),
        decreases cond,
    {
        match cond {
            EndCondition::TimeLimit { seconds } => {
                if seconds.le(&elapsed) {
                    Some(CompletionReason::TimeLimitReached)
                } else {
                    None
                }
            },
            EndCondition::AllTaggedDestroyed { tag } => {
                let mut any_exist = false;
                let mut any_alive = false;
                let mut i: usize = 0;
                while i < bodies.len()
                    invariant
                        0 <= i <= bodies@.len(),
                        any_exist == exists|j: int| 0 <= j < i && has_tag((#[trigger] bodies@[j]).tags@, tag@),
                        any_alive == exists|j: int|
                            0 <= j < i && has_tag((#[trigger] bodies@[j]).tags@, tag@) && bodies@[j].alive,
                    decreases bodies.len() - i,
                {
                    if tags_contain(&bodies[i].tags, tag) {
                        any_exist = true;
                        if bodies[i].alive {
                            any_alive = true;
                        }
                    }
                    i = i + 1;
                }
                if any_exist && !any_alive {
                    Some(CompletionReason::AllTaggedDestroyed { tag: tag.clone() })
                } else {
                    None
                }
            },
            EndCondition::ObjectEscaped { name } => {
                let mut escaped = false;
                let mut i: usize = 0;
                while i < bodies.len()
                    invariant
                        0 <= i <= bodies@.len(),
                        escaped == exists|j: int|
                            0 <= j < i && named(#[trigger] bodies@[j], name@) && bodies@[j].alive
                                && outside_bounds(bodies@[j].position, bounds),
                    decreases bodies.len() - i,
                {
                    if name_is(&bodies[i], name) && bodies[i].alive && is_outside_bounds(
                        bodies[i].position,
                        bounds,
                    ) {
                        escaped = true;
                    }
                    i = i + 1;
                }
                if escaped {
                    Some(CompletionReason::ObjectEscaped { name: name.clone() })
                } else {
                    None
                }
            },
            EndCondition::ObjectsCollided { name_a, name_b } => {
                let ida = find_body_by_name(bodies, name_a);
                let idb = find_body_by_name(bodies, name_b);
                match (ida, idb) {
                    (Some(a), Some(b)) => {
                        let p = normalise_pair(a, b);
                        let mut found = false;
                        let mut i: usize = 0;
                        while i < self.collisions.len()
                            invariant
                                0 <= i <= self.collisions@.len(),
                                p == normalise_pair_spec(a, b),
                                found == exists|j: int| 0 <= j < i && self.collisions@[j] == p,
                            decreases self.collisions.len() - i,
                        {
                            let q = self.collisions[i];
                            if q.0 == p.0 && q.1 == p.1 {
                                found = true;
                            }
                            i = i + 1;
                        }
                        if found {
                            Some(CompletionReason::ObjectsCollided { name_a: name_a.clone(), name_b: name_b.clone() })
                        } else {
                            None
                        }
                    },
                    _ => None,
                }
            },
            EndCondition::TagsCollided { tag_a, tag_b } => {
                let mut hit = false;
                let mut k: usize = 0;
                while k < self.collisions.len()
                    invariant
                        0 <= k <= self.collisions@.len(),
                        hit == exists|j: int|
                            0 <= j < k && pair_has_tags(bodies@, #[trigger] self.collisions@[j], tag_a@, tag_b@),
                    decreases self.collisions.len() - k,
                {
                    let pair = self.collisions[k];
                    let this = match (record_index(bodies, pair.0), record_index(bodies, pair.1)) {
                        (Some(ia), Some(ib)) => {
                            let a_ta = tags_contain(&bodies[ia].tags, tag_a);
                            let b_tb = tags_contain(&bodies[ib].tags, tag_b);
                            let a_tb = tags_contain(&bodies[ia].tags, tag_b);
                            let b_ta = tags_contain(&bodies[ib].tags, tag_a);
                            (a_ta && b_tb) || (a_tb && b_ta)
                        },
                        _ => false,
                    };
                    assert(this == pair_has_tags(bodies@, self.collisions@[k as int], tag_a@, tag_b@));
                    if this {
                        hit = true;
                    }
                    k = k + 1;
                }
                if hit {
                    Some(CompletionReason::TagsCollided { tag_a: tag_a.clone(), tag_b: tag_b.clone() })
                } else {
                    None
                }
            },
            EndCondition::And { conditions } => {
                let mut last: Option<CompletionReason> = None;
                let mut i: usize = 0;
                while i < conditions.len()
                    invariant
                        0 <= i <= conditions@.len(),
                        *cond == (EndCondition::And { conditions: *conditions }),
                        all_met(conditions@, i as nat, elapsed, bodies@, self.collisions@, bounds),
                        i > 0 ==> last == outcome(conditions@[i - 1], elapsed, bodies@, self.collisions@, bounds),
                        i == 0 ==> last is None,
                    decreases conditions.len() - i,
                {
                    proof {
                        lemma_part_decreases(cond, conditions, i as int);
                    }
                    match self.evaluate(&conditions[i], elapsed, bodies, bounds) {
                        Some(r) => {
                            last = Some(r);
                        },
                        None => {
                            proof {
                                if all_met(conditions@, conditions@.len(), elapsed, bodies@, self.collisions@, bounds) {
                                lemma_all_met_prefix(
                                    conditions@,
                                    elapsed,
                                    bodies@,
                                    self.collisions@,
                                    bounds,
                                    conditions@.len(),
                                    (i + 1) as nat,
                                );
                                }
                            }
                            return None;
                        },
                    }
                    i = i + 1;
                }
                last
            },
            EndCondition::Or { conditions } => {
                let mut i: usize = 0;
                while i < conditions.len()
                    invariant
                        0 <= i <= conditions@.len(),
                        *cond == (EndCondition::Or { conditions: *conditions }),
                        first_met(conditions@, i as nat, elapsed, bodies@, self.collisions@, bounds) is None,
                    decreases conditions.len() - i,
                {
                    proof {
                        lemma_part_decreases(cond, conditions, i as int);
                    }
                    let r = self.evaluate(&conditions[i], elapsed, bodies, bounds);
                    if r.is_some() {
                        proof {
                            lemma_first_met_prefix(conditions@, elapsed, bodies@, self.collisions@, bounds, (i + 1) as nat);
                        }
                        return r;
                    }
                    i = i + 1;
                }
                None
            },
            EndCondition::FirstToReach { .. } => None,
        }
    }

    /// After a physics step: evaluate the end condition unless completion
    /// was already reported; report it once, the first time it is met.
    pub fn check(&mut self, elapsed: Scalar, bodies: &Vec<BodyRecord>, bounds: WorldBounds) -> (r: Option<
        CompletionReason,
    >)
        ensures
            final(self).condition == old(self).condition,
            final(self).collisions@ == old(self).collisions@,
            r == (if old(self).complete {
                None
            } else {
                match old(self).condition {
                    Some(c) => outcome(c, elapsed, bodies@, old(self).collisions@, bounds),
                    None => None,
                }
            }),
            final(self).complete == (old(self).complete || r is Some),
    {
        if self.complete {
            return None;
        }
        let r = match &self.condition {
            Some(c) => self.evaluate(c, elapsed, bodies, bounds),
            None => None,
        };
        if r.is_some() {
            self.complete = true;
        }
        r
    }
}

/// A part of a composite condition is smaller than the composite.
proof fn lemma_part_decreases(cond: &EndCondition, conditions: &Vec<EndCondition>, i: int)
    requires
        0 <= i < conditions@.len(),
        *cond == (EndCondition::And { conditions: *conditions }) || *cond == (EndCondition::Or {
            conditions: *conditions,
        }),
    ensures
        decreases_to!(*cond => conditions@[i]),
{
    if cond is And {
        assert(decreases_to!(*cond => cond->And_conditions));
    } else {
        assert(decreases_to!(*cond => cond->Or_conditions));
    }
    assert(decreases_to!(*conditions => conditions@));
    assert(decreases_to!(conditions@ => conditions@[i]));
}

/// When all of the first `n` parts are met, so are all of the first `k`.
proof fn lemma_all_met_prefix(
    cs: Seq<EndCondition>,
    elapsed: Scalar,
    bodies: Seq<BodyRecord>,
    collisions: Seq<(BodyId, BodyId)>,
    bounds: WorldBounds,
    n: nat,
    k: nat,
)
    requires
        k <= n <= cs.len(),
        all_met(cs, n, elapsed, bodies, collisions, bounds),
    ensures
        all_met(cs, k, elapsed, bodies, collisions, bounds),
    decreases n - k,
{
    if k < n {
        lemma_all_met_prefix(cs, elapsed, bodies, collisions, bounds, (n - 1) as nat, k);
    }
}

/// Once a prefix of the parts has a met condition, the whole list reports
/// the same one.
proof fn lemma_first_met_prefix(
    cs: Seq<EndCondition>,
    elapsed: Scalar,
    bodies: Seq<BodyRecord>,
    collisions: Seq<(BodyId, BodyId)>,
    bounds: WorldBounds,
    k: nat,
)
    requires
        k <= cs.len(),
        first_met(cs, k, elapsed, bodies, collisions, bounds) is Some,
    ensures
        first_met(cs, cs.len(), elapsed, bodies, collisions, bounds) == first_met(
            cs,
            k,
            elapsed,
            bodies,
            collisions,
            bounds,
        ),
    decreases cs.len() - k,
{
    if k < cs.len() {
        lemma_first_met_prefix(cs, elapsed, bodies, collisions, bounds, k + 1);
    }
}

/// The time limit of an end condition: the first `TimeLimit` met in a
/// depth-first, left-to-right walk through `And` and `Or` parts.
pub open spec fn time_limit_of(c: EndCondition) -> Option<Scalar>
    decreases c, 0nat,
{
    match c {
        EndCondition::TimeLimit { seconds } => Some(seconds),
        EndCondition::And { conditions } => first_time_limit(conditions@, conditions@.len()),
        EndCondition::Or { conditions } => first_time_limit(conditions@, conditions@.len()),
        _ => None,
    }
}

/// The first time limit among the first `n` conditions.
pub open spec fn first_time_limit(cs: Seq<EndCondition>, n: nat) -> Option<Scalar>
    decreases cs, n,
{
    if n == 0 || n > cs.len() {
        None
    } else {
        match first_time_limit(cs, (n - 1) as nat) {
            Some(s) => Some(s),
            None => time_limit_of(cs[n - 1]),
        }
    }
}

proof fn lemma_first_time_limit_prefix(cs: Seq<EndCondition>, k: nat)
    requires
        k <= cs.len(),
        first_time_limit(cs, k) is Some,
    ensures
        first_time_limit(cs, cs.len()) == first_time_limit(cs, k),
    decreases cs.len() - k,
{
    if k < cs.len() {
        lemma_first_time_limit_prefix(cs, k + 1);
    }
}

/// Recursively extract the first `TimeLimit` seconds from an end condition.
pub fn extract_time_limit(cond: &EndCondition) -> (r: Option<Scalar>)
    ensures
        r == time_limit_of(*cond),
    decreases cond,
{
    match cond {
        EndCondition::TimeLimit { seconds } => Some(*seconds),
        EndCondition::And { conditions } | EndCondition::Or { conditions } => {
            let mut i: usize = 0;
            while i < conditions.len()
                invariant
                    0 <= i <= conditions@.len(),
                    *cond == (EndCondition::And { conditions: *conditions }) || *cond == (EndCondition::Or {
                        conditions: *conditions,
                    }),
                    first_time_limit(conditions@, i as nat) is None,
                    time_limit_of(*cond) == first_time_limit(conditions@, conditions@.len()),
                decreases conditions.len() - i,
            {
                proof {
                    lemma_part_decreases(cond, conditions, i as int);
                }
                let r = extract_time_limit(&conditions[i]);
                if r.is_some() {
                    proof {
                        lemma_first_time_limit_prefix(conditions@, (i + 1) as nat);
                    }
                    return r;
                }
                i = i + 1;
            }
            None
        },
        _ => None,
    }
}


/// An object has escaped exactly when a live body of that name lies outside
/// the world rectangle on either axis: left of 0, right of the width, below
/// 0 or above the height.
pub proof fn law_escape_on_either_axis(
    name: String,
    elapsed: Scalar,
    bodies: Seq<BodyRecord>,
    collisions: Seq<(BodyId, BodyId)>,
    bounds: WorldBounds,
)
    ensures
        outcome(EndCondition::ObjectEscaped { name }, elapsed, bodies, collisions, bounds) is Some <==> exists|i: int|
            0 <= i < bodies.len() && named(#[trigger] bodies[i], name@) && bodies[i].alive
                && (spec_lt(bodies[i].position.x, Scalar { bits: 0 }) || spec_lt(bounds.width, bodies[i].position.x)
                || spec_lt(bodies[i].position.y, Scalar { bits: 0 }) || spec_lt(bounds.height, bodies[i].position.y)),
        outcome(EndCondition::ObjectEscaped { name }, elapsed, bodies, collisions, bounds) matches Some(r) ==> r
            == (CompletionReason::ObjectEscaped { name }),
{
    let c = EndCondition::ObjectEscaped { name };
    let o = outcome(c, elapsed, bodies, collisions, bounds);
    if o is Some {
        let i = choose|i: int|
            0 <= i < bodies.len() && named(#[trigger] bodies[i], name@) && bodies[i].alive
                && outside_bounds(bodies[i].position, bounds);
        assert(bodies[i].alive);
    }
    if exists|i: int|
        0 <= i < bodies.len() && named(#[trigger] bodies[i], name@) && bodies[i].alive
            && (spec_lt(bodies[i].position.x, Scalar { bits: 0 }) || spec_lt(bounds.width, bodies[i].position.x)
            || spec_lt(bodies[i].position.y, Scalar { bits: 0 }) || spec_lt(bounds.height, bodies[i].position.y)) {
        let i = choose|i: int|
            0 <= i < bodies.len() && named(#[trigger] bodies[i], name@) && bodies[i].alive
                && (spec_lt(bodies[i].position.x, Scalar { bits: 0 }) || spec_lt(bounds.width, bodies[i].position.x)
                || spec_lt(bodies[i].position.y, Scalar { bits: 0 }) || spec_lt(bounds.height, bodies[i].position.y));
        assert(named(bodies[i], name@));
    }
}


proof fn lemma_first_met_is_first(
    cs: Seq<EndCondition>,
    n: nat,
    elapsed: Scalar,
    bodies: Seq<BodyRecord>,
    collisions: Seq<(BodyId, BodyId)>,
    bounds: WorldBounds,
)
    requires
        n <= cs.len(),
    ensures
        first_met(cs, n, elapsed, bodies, collisions, bounds) is Some <==> exists|k: int|
            0 <= k < n && (#[trigger] outcome(cs[k], elapsed, bodies, collisions, bounds)) is Some,
        first_met(cs, n, elapsed, bodies, collisions, bounds) is Some ==> exists|k: int|
            0 <= k < n && first_met(cs, n, elapsed, bodies, collisions, bounds) == #[trigger] outcome(
                cs[k],
                elapsed,
                bodies,
                collisions,
                bounds,
            ) && forall|j: int| 0 <= j < k ==> (#[trigger] outcome(cs[j], elapsed, bodies, collisions, bounds)) is None,
    decreases n,
{
    if n > 0 {
        lemma_first_met_is_first(cs, (n - 1) as nat, elapsed, bodies, collisions, bounds);
        let prev = first_met(cs, (n - 1) as nat, elapsed, bodies, collisions, bounds);
        if prev is None {
            assert forall|j: int| 0 <= j < n - 1 implies (#[trigger] outcome(cs[j], elapsed, bodies, collisions, bounds)) is None by {}
            if outcome(cs[n - 1], elapsed, bodies, collisions, bounds) is Some {
                assert(outcome(cs[n - 1], elapsed, bodies, collisions, bounds) is Some);
            }
        }
    }
}

proof fn lemma_all_met_is_every(
    cs: Seq<EndCondition>,
    n: nat,
    elapsed: Scalar,
    bodies: Seq<BodyRecord>,
    collisions: Seq<(BodyId, BodyId)>,
    bounds: WorldBounds,
)
    requires
        n <= cs.len(),
    ensures
        all_met(cs, n, elapsed, bodies, collisions, bounds) <==> forall|k: int|
            0 <= k < n ==> (#[trigger] outcome(cs[k], elapsed, bodies, collisions, bounds)) is Some,
    decreases n,
{
    if n > 0 {
        lemma_all_met_is_every(cs, (n - 1) as nat, elapsed, bodies, collisions, bounds);
        if forall|k: int| 0 <= k < n ==> (#[trigger] outcome(cs[k], elapsed, bodies, collisions, bounds)) is Some {
            assert(outcome(cs[n - 1], elapsed, bodies, collisions, bounds) is Some);
        }
    }
}

/// How composite end conditions decide: `Or` is met exactly when one of its
/// parts is met, and reports the first part met; `And` is met exactly when
/// it has parts and every part is met, and reports its last part's reason.
pub proof fn law_composite_conditions(
    conditions: Vec<EndCondition>,
    elapsed: Scalar,
    bodies: Seq<BodyRecord>,
    collisions: Seq<(BodyId, BodyId)>,
    bounds: WorldBounds,
)
    ensures
        outcome(EndCondition::Or { conditions }, elapsed, bodies, collisions, bounds) is Some <==> exists|k: int|
            0 <= k < conditions@.len() && (#[trigger] outcome(conditions@[k], elapsed, bodies, collisions, bounds)) is Some,
        outcome(EndCondition::Or { conditions }, elapsed, bodies, collisions, bounds) is Some ==> exists|k: int|
            0 <= k < conditions@.len() && outcome(EndCondition::Or { conditions }, elapsed, bodies, collisions, bounds)
                == #[trigger] outcome(conditions@[k], elapsed, bodies, collisions, bounds) && forall|j: int|
                0 <= j < k ==> (#[trigger] outcome(conditions@[j], elapsed, bodies, collisions, bounds)) is None,
        outcome(EndCondition::And { conditions }, elapsed, bodies, collisions, bounds) is Some <==> (conditions@.len() > 0
            && forall|k: int|
            0 <= k < conditions@.len() ==> (#[trigger] outcome(conditions@[k], elapsed, bodies, collisions, bounds)) is Some),
        outcome(EndCondition::And { conditions }, elapsed, bodies, collisions, bounds) is Some ==> outcome(
            EndCondition::And { conditions },
            elapsed,
            bodies,
            collisions,
            bounds,
        ) == outcome(conditions@[conditions@.len() - 1], elapsed, bodies, collisions, bounds),
{
    let cs = conditions@;
    lemma_first_met_is_first(cs, cs.len(), elapsed, bodies, collisions, bounds);
    lemma_all_met_is_every(cs, cs.len(), elapsed, bodies, collisions, bounds);
    if cs.len() > 0 && forall|k: int| 0 <= k < cs.len() ==> (#[trigger] outcome(cs[k], elapsed, bodies, collisions, bounds)) is Some {
        assert(outcome(cs[cs.len() - 1], elapsed, bodies, collisions, bounds) is Some);
    }
}

/// A time limit, once reached, stays reached: when it is met at some time,
/// it is met at every later (not smaller) time.
pub proof fn law_time_limit_stays_reached(
    seconds: Scalar,
    e1: Scalar,
    e2: Scalar,
    bodies: Seq<BodyRecord>,
    collisions: Seq<(BodyId, BodyId)>,
    bounds: WorldBounds,
)
    requires
        outcome(EndCondition::TimeLimit { seconds }, e1, bodies, collisions, bounds) is Some,
        spec_le(e1, e2),
    ensures
        outcome(EndCondition::TimeLimit { seconds }, e2, bodies, collisions, bounds)
            == Some(CompletionReason::TimeLimitReached),
{
}

} // verus!
