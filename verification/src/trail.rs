//! Motion trails: a bounded history of where racers were, and compositing
//! the current frame over the drawn ghosts.
use vstd::prelude::*;
use crate::color::Color;
use crate::frame::Frame;
use crate::physics::{has_tag, BodyId};
use crate::scalar::Scalar;
use crate::scene::{BodyType, Vec2};

verus! {

/// What a trail records of one body in one frame.
#[derive(Clone, Copy, Debug)]
pub struct GhostMark {
    pub id: BodyId,
    pub position: Vec2,
    /// Radius of the body's bounding circle (meters).
    pub radius: Scalar,
    pub color: Color,
}

/// A body as the trail sees it in a frame.
#[derive(Clone, Debug)]
pub struct TrailBody {
    pub id: BodyId,
    pub tags: Vec<String>,
    pub alive: bool,
    /// How the body is simulated.
    pub body_type: BodyType,
    pub position: Vec2,
    pub radius: Scalar,
    pub color: Color,
}

/// `true` when some tag of `tags` is in `filter`.
pub open spec fn any_tag_in(tags: Seq<String>, filter: Seq<String>) -> bool {
    exists|i: int| 0 <= i < tags.len() && has_tag(filter, (#[trigger] tags[i])@)
}

/// Whether a body leaves a ghost: it is alive and carries one of the
/// filter's tags, or, when the filter is empty, it is a dynamic body.
pub open spec fn leaves_ghost(b: TrailBody, filter: Seq<String>) -> bool {
    b.alive && (if filter.len() == 0 {
        b.body_type == BodyType::Dynamic
    } else {
        any_tag_in(b.tags@, filter)
    })
}

/// The ghosts of the first `n` bodies, in order.
pub open spec fn ghosts(bodies: Seq<TrailBody>, filter: Seq<String>, n: nat) -> Seq<GhostMark>
    decreases n,
{
    if n == 0 || n > bodies.len() {
        Seq::empty()
    } else {
        let rest = ghosts(bodies, filter, (n - 1) as nat);
        let b = bodies[n - 1];
        if leaves_ghost(b, filter) {
            rest.push(GhostMark { id: b.id, position: b.position, radius: b.radius, color: b.color })
        } else {
            rest
        }
    }
}

/// The last `length` items of `s` (all of them when there are fewer).
pub open spec fn keep_last<T>(s: Seq<T>, length: nat) -> Seq<T> {
    if s.len() > length {
        s.skip(s.len() - length)
    } else {
        s
    }
}

/// The ghost lists of recorded frames.
pub open spec fn frame_views(frames: Seq<Vec<GhostMark>>) -> Seq<Seq<GhostMark>> {
    frames.map_values(|f: Vec<GhostMark>| f@)
}

/// The recent history of racer positions, oldest frame first.
#[derive(Debug)]
pub struct TrailHistory {
    /// Frames kept.
    pub length: usize,
    /// Tags whose bodies leave ghosts; every dynamic body when empty.
    pub tags_filter: Vec<String>,
    pub frames: Vec<Vec<GhostMark>>,
}

fn any_tag_in_exec(tags: &Vec<String>, filter: &Vec<String>) -> (r: bool)
    ensures
        r == any_tag_in(tags@, filter@),
{
    let mut i: usize = 0;
    while i < tags.len()
        invariant
            0 <= i <= tags@.len(),
            forall|j: int| 0 <= j < i ==> !has_tag(filter@, (#[trigger] tags@[j])@),
        decreases tags.len() - i,
    {
        if crate::physics::tags_contain(filter, &tags[i]) {
            return true;
        }
        i = i + 1;
    }
    false
}

impl TrailHistory {
    /// An empty history keeping `length` frames of the bodies tagged with
    /// one of `tags_filter` (of every dynamic body when it is empty).
    pub fn new(length: usize, tags_filter: Vec<String>) -> (t: TrailHistory)
        ensures
            t.length == length,
            t.tags_filter@ == tags_filter@,
            t.frames@.len() == 0,
    {
        TrailHistory { length, tags_filter, frames: Vec::new() }
    }

    /// Record a frame: the ghosts of the bodies that leave one, then drop
    /// the oldest frames beyond the history length, so that the history
    /// never holds more than `length` frames.
    pub fn push_frame(&mut self, bodies: &Vec<TrailBody>)
        ensures
            final(self).length == old(self).length,
            final(self).tags_filter@ == old(self).tags_filter@,
            frame_views(final(self).frames@) == keep_last(
                frame_views(old(self).frames@).push(ghosts(bodies@, old(self).tags_filter@, bodies@.len())),
                old(self).length as nat,
            ),
            final(self).frames@.len() <= old(self).length,
    {
        let ghost filter = self.tags_filter@;
        let ghost old_views = frame_views(self.frames@);
        let mut snapshot: Vec<GhostMark> = Vec::new();
        let mut i: usize = 0;
        while i < bodies.len()
            invariant
                0 <= i <= bodies@.len(),
                self.tags_filter@ == filter,
                snapshot@ == ghosts(bodies@, filter, i as nat),
            decreases bodies.len() - i,
        {
            let b = &bodies[i];
            let keep = b.alive && if self.tags_filter.len() == 0 {
                matches!(b.body_type, BodyType::Dynamic)
            } else {
                any_tag_in_exec(&b.tags, &self.tags_filter)
            };
            if keep {
                snapshot.push(GhostMark { id: b.id, position: b.position, radius: b.radius, color: b.color });
            }
            i = i + 1;
        }
        let ghost all = old_views.push(snapshot@);
        self.frames.push(snapshot);
        assert(frame_views(self.frames@) =~= all);
        if self.frames.len() > self.length {
            let drop = self.frames.len() - self.length;
            let ghost whole = self.frames@;
            let kept = self.frames.split_off(drop);
            self.frames = kept;
            assert(self.frames@ =~= whole.skip(drop as int));
            assert(frame_views(self.frames@) =~= keep_last(all, self.length as nat));
        }
    }
}

/// A byte of `src` composited over a byte `d` of the background, with the
/// source pixel's (premultiplied) alpha `sa`: opaque sources replace,
/// transparent ones leave the background, others add the background scaled
/// by `255 - sa` (rounded), saturating at 255.
pub open spec fn over_byte(s: u8, sa: u8, d: u8) -> u8 {
    if sa == 255 {
        s
    } else if sa == 0 {
        d
    } else {
        let v = s + (d * (255 - sa) + 127) / 255;
        if v > 255 {
            255
        } else {
            v as u8
        }
    }
}

/// Composite `src` over `dst` pixel by pixel (premultiplied RGBA, both of
/// the same size).
pub fn composite_over(dst: &mut Frame, src: &Frame)
    requires
        old(dst).pixels@.len() == src.pixels@.len(),
        src.pixels@.len() % 4 == 0,
    ensures
        final(dst).width == old(dst).width,
        final(dst).height == old(dst).height,
        final(dst).pixels@.len() == old(dst).pixels@.len(),
        forall|i: int|
            0 <= i < src.pixels@.len() ==> #[trigger] final(dst).pixels@[i] == over_byte(
                src.pixels@[i],
                src.pixels@[i - i % 4 + 3],
                old(dst).pixels@[i],
            ),
{
    let ghost before = dst.pixels@;
    let n = src.pixels.len();
    let mut i: usize = 0;
    while i < n
        invariant
            n == src.pixels@.len(),
            n % 4 == 0,
            i % 4 == 0,
            0 <= i <= n,
            dst.pixels@.len() == n,
            dst.width == old(dst).width,
            dst.height == old(dst).height,
            before == old(dst).pixels@,
            forall|j: int|
                0 <= j < i ==> #[trigger] dst.pixels@[j] == over_byte(
                    src.pixels@[j],
                    src.pixels@[j - j % 4 + 3],
                    before[j],
                ),
            forall|j: int| i <= j < n ==> #[trigger] dst.pixels@[j] == before[j],
        decreases n - i,
    {
        let sa = src.pixels[i + 3];
        let mut c: usize = 0;
        while c < 4
            invariant
                n == src.pixels@.len(),
                n % 4 == 0,
                i % 4 == 0,
                0 <= i < n,
                0 <= c <= 4,
                sa == src.pixels@[i + 3],
                dst.pixels@.len() == n,
                dst.width == old(dst).width,
                dst.height == old(dst).height,
                forall|j: int|
                    0 <= j < i + c ==> #[trigger] dst.pixels@[j] == over_byte(
                        src.pixels@[j],
                        src.pixels@[j - j % 4 + 3],
                        before[j],
                    ),
                forall|j: int| i + c <= j < n ==> #[trigger] dst.pixels@[j] == before[j],
            decreases 4 - c,
        {
            let k = i + c;
            let s = src.pixels[k];
            let d = dst.pixels[k];
            let v: u8 = if sa == 255 {
                s
            } else if sa == 0 {
                d
            } else {
                let inv: u32 = 255 - sa as u32;
                assert(d as u32 * inv <= 65025) by (nonlinear_arith)
                    requires
                        d <= 255,
                        inv <= 255,
                ;
                let t: u32 = s as u32 + (d as u32 * inv + 127) / 255;
                if t > 255 {
                    255
                } else {
                    t as u8
                }
            };
            assert(k - k % 4 + 3 == i + 3) by (nonlinear_arith)
                requires
                    i % 4 == 0,
                    k == i + c,
                    0 <= c < 4,
            ;
            dst.pixels.set(k, v);
            c = c + 1;
        }
        i = i + 4;
    }
}

} // verus!
