//! The bounded trail of points that records the history of detected pitch.

use vstd::prelude::*;

verus! {

/// A point in space. Coordinates are fixed-point numbers in display units.
#[derive(Clone, Copy, Debug, PartialEq, Eq, Structural)]
pub struct Point3 {
    /// The horizontal coordinate, which follows the detected pitch.
    pub x: i64,
    /// The first forward coordinate.
    pub y: i64,
    /// The second forward coordinate.
    pub z: i64,
}

/// The origin.
pub open spec fn origin() -> Point3 {
    Point3 { x: 0, y: 0, z: 0 }
}

/// What a full trail does with one more point.
#[derive(Clone, Copy, Debug, PartialEq, Eq, Structural)]
pub enum FullPolicy {
    /// Drop the oldest point and append the new one: a streaming trail.
    EvictOldest,
    /// Drop every point and start again with the new one alone.
    ResetOnFull,
}

/// How full a trail is.
#[derive(Clone, Copy, Debug, PartialEq, Eq, Structural)]
pub enum TrailState {
    /// No point yet.
    Empty,
    /// Some points, and room for more.
    Filling,
    /// As many points as the trail may hold.
    Full,
}

/// What one push did to the trail.
#[derive(Clone, Copy, Debug, PartialEq, Eq, Structural)]
pub enum PushOutcome {
    /// There was room: the point was appended.
    Appended,
    /// The trail was full: this oldest point made way for the new one.
    Evicted(Point3),
    /// The trail was full: it was cleared and holds the new point alone.
    Reset,
}

/// The state of a trail of `len` points out of at most `limit`.
pub open spec fn state_of(len: nat, limit: nat) -> TrailState {
    if len == 0 {
        TrailState::Empty
    } else if len < limit {
        TrailState::Filling
    } else {
        TrailState::Full
    }
}

/// The trail `trail` of at most `limit` points after `p` has been pushed.
pub open spec fn pushed(trail: Seq<Point3>, limit: nat, policy: FullPolicy, p: Point3) -> Seq<
    Point3,
> {
    if trail.len() < limit {
        trail.push(p)
    } else {
        match policy {
            FullPolicy::EvictOldest => trail.drop_first().push(p),
            FullPolicy::ResetOnFull => seq![p],
        }
    }
}

/// What a push onto `trail` reports.
pub open spec fn outcome_of(trail: Seq<Point3>, limit: nat, policy: FullPolicy) -> PushOutcome {
    if trail.len() < limit {
        PushOutcome::Appended
    } else {
        match policy {
            FullPolicy::EvictOldest => PushOutcome::Evicted(trail[0]),
            FullPolicy::ResetOnFull => PushOutcome::Reset,
        }
    }
}

/// The trail after every point of `ps` has been pushed in order.
pub open spec fn pushed_all(
    trail: Seq<Point3>,
    limit: nat,
    policy: FullPolicy,
    ps: Seq<Point3>,
) -> Seq<Point3>
    decreases ps.len(),
{
    if ps.len() == 0 {
        trail
    } else {
        pushed_all(pushed(trail, limit, policy, ps[0]), limit, policy, ps.drop_first())
    }
}

/// The last `limit` elements of `all`, or all of it if it is shorter.
pub open spec fn newest(all: Seq<Point3>, limit: nat) -> Seq<Point3> {
    if all.len() <= limit {
        all
    } else {
        all.subrange(all.len() - limit, all.len() as int)
    }
}

/// Under the evict-oldest policy a trail always holds the newest points that
/// were pushed, as many as fit, in the order in which they were pushed. After
/// more pushes than the limit its length stays exactly at the limit.
pub proof fn lemma_evicting_trail_holds_newest(trail: Seq<Point3>, limit: nat, ps: Seq<Point3>)
    requires
        1 <= limit,
        trail.len() <= limit,
    ensures
        pushed_all(trail, limit, FullPolicy::EvictOldest, ps) == newest(trail + ps, limit),
        trail.len() + ps.len() >= limit ==> pushed_all(
            trail,
            limit,
            FullPolicy::EvictOldest,
            ps,
        ).len() == limit,
    decreases ps.len(),
{
    if ps.len() == 0 {
        assert(trail + ps =~= trail);
    } else {
        let next = pushed(trail, limit, FullPolicy::EvictOldest, ps[0]);
        let rest = ps.drop_first();
        lemma_evicting_trail_holds_newest(next, limit, rest);
        assert(newest(next + rest, limit) =~= newest(trail + ps, limit));
    }
}

/// Under the evict-oldest policy an empty trail onto which `limit + k` points
/// have been pushed holds the last `limit` of them, in order.
pub proof fn lemma_evicting_trail_after_overflow(limit: nat, ps: Seq<Point3>, k: nat)
    requires
        1 <= limit,
        ps.len() == limit + k,
    ensures
        pushed_all(Seq::empty(), limit, FullPolicy::EvictOldest, ps) == ps.subrange(
            k as int,
            (limit + k) as int,
        ),
        pushed_all(Seq::empty(), limit, FullPolicy::EvictOldest, ps).len() == limit,
{
    lemma_evicting_trail_holds_newest(Seq::empty(), limit, ps);
    assert(Seq::<Point3>::empty() + ps =~= ps);
    assert(newest(ps, limit) =~= ps.subrange(k as int, (limit + k) as int));
}

/// Under the reset-on-full policy the push that finds the trail full leaves
/// the new point alone in it: starting from an empty trail, that is the push
/// after `limit` pushes.
pub proof fn lemma_resetting_trail_restarts(limit: nat, ps: Seq<Point3>, p: Point3)
    requires
        1 <= limit,
        ps.len() == limit,
    ensures
        pushed_all(Seq::empty(), limit, FullPolicy::ResetOnFull, ps) == ps,
        pushed_all(Seq::empty(), limit, FullPolicy::ResetOnFull, ps.push(p)) == seq![p],
{
    lemma_resetting_trail_fills(Seq::empty(), limit, ps);
    assert(Seq::<Point3>::empty() + ps =~= ps);
    lemma_pushed_all_push(Seq::empty(), limit, FullPolicy::ResetOnFull, ps, p);
}

/// While there is room, pushes append under either policy.
pub proof fn lemma_resetting_trail_fills(trail: Seq<Point3>, limit: nat, ps: Seq<Point3>)
    requires
        trail.len() + ps.len() <= limit,
    ensures
        pushed_all(trail, limit, FullPolicy::ResetOnFull, ps) == trail + ps,
    decreases ps.len(),
{
    if ps.len() == 0 {
        assert(trail + ps =~= trail);
    } else {
        let next = pushed(trail, limit, FullPolicy::ResetOnFull, ps[0]);
        let rest = ps.drop_first();
        lemma_resetting_trail_fills(next, limit, rest);
        assert(next + rest =~= trail + ps);
    }
}

/// Pushing a run of points and then one more is pushing the longer run.
pub proof fn lemma_pushed_all_push(
    trail: Seq<Point3>,
    limit: nat,
    policy: FullPolicy,
    ps: Seq<Point3>,
    p: Point3,
)
    ensures
        pushed_all(trail, limit, policy, ps.push(p)) == pushed(
            pushed_all(trail, limit, policy, ps),
            limit,
            policy,
            p,
        ),
    decreases ps.len(),
{
    if ps.len() == 0 {
        assert(ps.push(p).drop_first() =~= ps);
        assert(pushed_all(pushed(trail, limit, policy, p), limit, policy, ps) == pushed(
            trail,
            limit,
            policy,
            p,
        ));
    } else {
        let next = pushed(trail, limit, policy, ps[0]);
        lemma_pushed_all_push(next, limit, policy, ps.drop_first(), p);
        assert(ps.push(p).drop_first() =~= ps.drop_first().push(p));
    }
}

/// A sequence of points with a fixed maximum length.
pub struct TrajectoryBuffer {
    points: Vec<Point3>,
    limit: usize,
    policy: FullPolicy,
}

impl View for TrajectoryBuffer {
    type V = Seq<Point3>;

    /// The points, oldest first.
    closed spec fn view(&self) -> Seq<Point3> {
        self.points@
    }
}

impl TrajectoryBuffer {
    /// The trail holds at least one point when full and never more than its
    /// limit.
    pub closed spec fn wf(&self) -> bool {
        &&& 1 <= self.limit
        &&& self.points@.len() <= self.limit
    }

    /// The greatest number of points the trail holds.
    pub closed spec fn spec_limit(&self) -> nat {
        self.limit as nat
    }

    /// What the trail does when a point is pushed onto it while it is full.
    pub closed spec fn spec_policy(&self) -> FullPolicy {
        self.policy
    }

    /// An empty trail of at most `limit` points.
    pub fn new(limit: usize, policy: FullPolicy) -> (trail: Self)
        requires
            1 <= limit,
        ensures
            trail.wf(),
            trail@ == Seq::<Point3>::empty(),
            trail.spec_limit() == limit,
            trail.spec_policy() == policy,
    {
        TrajectoryBuffer { points: Vec::new(), limit, policy }
    }

    /// The greatest number of points the trail holds.
    pub fn limit(&self) -> (m: usize)
        ensures
            m == self.spec_limit(),
    {
        self.limit
    }

    /// The policy the trail was made with.
    pub fn policy(&self) -> (policy: FullPolicy)
        ensures
            policy == self.spec_policy(),
    {
        self.policy
    }

    /// The number of points in the trail.
    pub fn len(&self) -> (n: usize)
        requires
            self.wf(),
        ensures
            n == self@.len(),
            n <= self.spec_limit(),
    {
        self.points.len()
    }

    /// Whether the trail is empty, filling or full.
    pub fn state(&self) -> (st: TrailState)
        requires
            self.wf(),
        ensures
            st == state_of(self@.len(), self.spec_limit()),
    {
        let n = self.points.len();
        if n == 0 {
            TrailState::Empty
        } else if n < self.limit {
            TrailState::Filling
        } else {
            TrailState::Full
        }
    }

    /// The `i`-th point, counted from the oldest.
    pub fn get(&self, i: usize) -> (p: Option<Point3>)
        ensures
            p == (if i < self@.len() {
                Some(self@[i as int])
            } else {
                None
            }),
    {
        if i < self.points.len() {
            Some(self.points[i])
        } else {
            None
        }
    }

    /// The newest point.
    pub fn last(&self) -> (p: Option<Point3>)
        ensures
            p == (if self@.len() > 0 {
                Some(self@.last())
            } else {
                None
            }),
    {
        let n = self.points.len();
        if n > 0 {
            Some(self.points[n - 1])
        } else {
            None
        }
    }

    /// The points, oldest first.
    pub fn points(&self) -> (ps: &[Point3])
        ensures
            ps@ == self@,
    {
        self.points.as_slice()
    }

    /// Pushes one point. While there is room the point is appended. On a full
    /// trail the policy decides: the oldest point makes way, or the trail
    /// starts again with the new point alone.
    pub fn push_point(&mut self, p: Point3) -> (outcome: PushOutcome)
        requires
            old(self).wf(),
        ensures
            final(self).wf(),
            final(self).spec_limit() == old(self).spec_limit(),
            final(self).spec_policy() == old(self).spec_policy(),
            final(self)@ == pushed(old(self)@, old(self).spec_limit(), old(self).spec_policy(), p),
            outcome == outcome_of(old(self)@, old(self).spec_limit(), old(self).spec_policy()),
    {
        if self.points.len() < self.limit {
            self.points.push(p);
            PushOutcome::Appended
        } else {
            match self.policy {
                FullPolicy::EvictOldest => {
                    let oldest = self.points.remove(0);
                    self.points.push(p);
                    assert(self.points@ =~= old(self).points@.drop_first().push(p));
                    PushOutcome::Evicted(oldest)
                },
                FullPolicy::ResetOnFull => {
                    self.points.clear();
                    self.points.push(p);
                    assert(self.points@ =~= seq![p]);
                    PushOutcome::Reset
                },
            }
        }
    }
}

} // verus!
