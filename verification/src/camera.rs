//! The viewpoint that follows the newest point of the trail.
//!
//! Each tick moves the camera a fixed fraction of the way to its target. The
//! step is rounded away from zero, so a camera that has not arrived always
//! moves by at least one unit and a stationary target is reached after
//! finitely many ticks.

use crate::trajectory::Point3;
use vstd::prelude::*;

verus! {

/// The fraction `numerator / denominator` of the remaining distance that the
/// camera covers in one tick.
#[derive(Clone, Copy, Debug, PartialEq, Eq, Structural)]
pub struct Smoothing {
    pub numerator: u32,
    pub denominator: u32,
}

impl Smoothing {
    /// The fraction lies in (0, 1].
    pub open spec fn wf(&self) -> bool {
        0 < self.numerator <= self.denominator
    }

    /// Whether the fraction lies in (0, 1].
    pub fn is_valid(&self) -> (valid: bool)
        ensures
            valid == self.wf(),
    {
        0 < self.numerator && self.numerator <= self.denominator
    }
}

/// The axes along which the camera follows its target. Along an axis that is
/// switched off the camera stays where it is.
#[derive(Clone, Copy, Debug, PartialEq, Eq, Structural)]
pub struct AxisMask {
    pub x: bool,
    pub y: bool,
    pub z: bool,
}

/// The length of the step over a remaining distance of `distance >= 0`:
/// `numerator * distance / denominator`, rounded up.
pub open spec fn stride(distance: int, numerator: int, denominator: int) -> int {
    (numerator * distance + denominator - 1) / denominator
}

/// The coordinate after one tick from `from` toward `to`.
pub open spec fn approach(from: int, to: int, numerator: int, denominator: int) -> int {
    if to >= from {
        from + stride(to - from, numerator, denominator)
    } else {
        from - stride(from - to, numerator, denominator)
    }
}

/// The coordinate after `ticks` ticks from `from` toward a target that stays
/// at `to`.
pub open spec fn approach_repeated(
    from: int,
    to: int,
    numerator: int,
    denominator: int,
    ticks: nat,
) -> int
    decreases ticks,
{
    if ticks == 0 {
        from
    } else {
        approach_repeated(
            approach(from, to, numerator, denominator),
            to,
            numerator,
            denominator,
            (ticks - 1) as nat,
        )
    }
}

/// The distance between two coordinates.
pub open spec fn distance(a: int, b: int) -> int {
    if a >= b {
        a - b
    } else {
        b - a
    }
}

/// The position after one tick from `from` toward `to`.
pub open spec fn followed(from: Point3, to: Point3, smoothing: Smoothing, mask: AxisMask) -> Point3 {
    Point3 {
        x: if mask.x {
            approach(
                from.x as int,
                to.x as int,
                smoothing.numerator as int,
                smoothing.denominator as int,
            ) as i64
        } else {
            from.x
        },
        y: if mask.y {
            approach(
                from.y as int,
                to.y as int,
                smoothing.numerator as int,
                smoothing.denominator as int,
            ) as i64
        } else {
            from.y
        },
        z: if mask.z {
            approach(
                from.z as int,
                to.z as int,
                smoothing.numerator as int,
                smoothing.denominator as int,
            ) as i64
        } else {
            from.z
        },
    }
}

/// A step is never longer than the remaining distance, and it is at least one
/// unit long while any distance remains.
pub proof fn lemma_stride_bounds(d: int, numerator: int, denominator: int)
    requires
        0 <= d,
        0 < numerator <= denominator,
    ensures
        0 <= stride(d, numerator, denominator) <= d,
        d > 0 ==> stride(d, numerator, denominator) >= 1,
{
    assert(0 <= (numerator * d + denominator - 1) / denominator <= d && (d > 0 ==> (numerator * d
        + denominator - 1) / denominator >= 1)) by (nonlinear_arith)
        requires
            0 <= d,
            0 < numerator <= denominator,
    ;
}

/// The camera never overshoots: after a tick it lies between where it was and
/// its target, and it is strictly closer to the target unless it had arrived.
pub proof fn lemma_approach_never_overshoots(from: int, to: int, numerator: int, denominator: int)
    requires
        0 < numerator <= denominator,
    ensures
        from <= to ==> from <= approach(from, to, numerator, denominator) <= to,
        to <= from ==> to <= approach(from, to, numerator, denominator) <= from,
        distance(approach(from, to, numerator, denominator), to) <= distance(from, to),
        from != to ==> distance(approach(from, to, numerator, denominator), to) < distance(
            from,
            to,
        ),
        from == to ==> approach(from, to, numerator, denominator) == to,
{
    lemma_stride_bounds(distance(from, to), numerator, denominator);
}

/// The camera converges monotonically on a stationary target: the distance
/// never grows from one tick to the next, the camera stays on its side of the
/// target, and after as many ticks as the initial distance has units it has
/// arrived.
pub proof fn lemma_approach_converges(
    from: int,
    to: int,
    numerator: int,
    denominator: int,
    ticks: nat,
)
    requires
        0 < numerator <= denominator,
    ensures
        distance(approach_repeated(from, to, numerator, denominator, ticks), to) <= distance(
            from,
            to,
        ),
        distance(approach_repeated(from, to, numerator, denominator, ticks + 1), to) <= distance(
            approach_repeated(from, to, numerator, denominator, ticks),
            to,
        ),
        from <= to ==> from <= approach_repeated(from, to, numerator, denominator, ticks) <= to,
        to <= from ==> to <= approach_repeated(from, to, numerator, denominator, ticks) <= from,
        distance(approach_repeated(from, to, numerator, denominator, ticks), to) <= distance(
            from,
            to,
        ) - ticks || approach_repeated(from, to, numerator, denominator, ticks) == to,
        ticks >= distance(from, to) ==> approach_repeated(from, to, numerator, denominator, ticks)
            == to,
    decreases ticks,
{
    lemma_approach_never_overshoots(from, to, numerator, denominator);
    let next = approach(from, to, numerator, denominator);
    if ticks == 0 {
        assert(approach_repeated(from, to, numerator, denominator, 1) == approach_repeated(
            next,
            to,
            numerator,
            denominator,
            0,
        ));
    } else {
        lemma_approach_converges(next, to, numerator, denominator, (ticks - 1) as nat);
        assert(approach_repeated(from, to, numerator, denominator, ticks + 1)
            == approach_repeated(next, to, numerator, denominator, ticks));
    }
}

/// The viewpoint.
#[derive(Clone, Copy, Debug)]
pub struct Camera {
    /// Where the camera is.
    pub position: Point3,
}

/// Moves one coordinate one tick toward its target.
pub fn approach_coordinate(from: i64, to: i64, smoothing: Smoothing) -> (next: i64)
    requires
        smoothing.wf(),
    ensures
        next == approach(
            from as int,
            to as int,
            smoothing.numerator as int,
            smoothing.denominator as int,
        ),
{
    let num = smoothing.numerator as i128;
    let den = smoothing.denominator as i128;
    proof {
        lemma_approach_never_overshoots(from as int, to as int, num as int, den as int);
    }
    if to >= from {
        let d: i128 = to as i128 - from as i128;
        assert(0 <= num * d <= 4294967295 * 18446744073709551615) by (nonlinear_arith)
            requires
                0 <= num <= 4294967295,
                0 <= d <= 18446744073709551615,
        ;
        let step: i128 = (num * d + den - 1) / den;
        (from as i128 + step) as i64
    } else {
        let d: i128 = from as i128 - to as i128;
        assert(0 <= num * d <= 4294967295 * 18446744073709551615) by (nonlinear_arith)
            requires
                0 <= num <= 4294967295,
                0 <= d <= 18446744073709551615,
        ;
        let step: i128 = (num * d + den - 1) / den;
        (from as i128 - step) as i64
    }
}

impl Camera {
    /// A camera at the origin.
    pub fn new() -> (cam: Self)
        ensures
            cam.position == crate::trajectory::origin(),
    {
        Camera { position: Point3 { x: 0, y: 0, z: 0 } }
    }

    /// Puts the camera back at the origin.
    pub fn reset(&mut self)
        ensures
            final(self).position == crate::trajectory::origin(),
    {
        self.position = Point3 { x: 0, y: 0, z: 0 };
    }

    /// Moves the camera one tick toward `target`: along every axis that `mask`
    /// switches on it covers the fraction `smoothing` of the remaining
    /// distance, rounded away from zero.
    pub fn follow(&mut self, target: Point3, smoothing: Smoothing, mask: AxisMask)
        requires
            smoothing.wf(),
        ensures
            final(self).position == followed(old(self).position, target, smoothing, mask),
    {
        let from = self.position;
        let x = if mask.x {
            approach_coordinate(from.x, target.x, smoothing)
        } else {
            from.x
        };
        let y = if mask.y {
            approach_coordinate(from.y, target.y, smoothing)
        } else {
            from.y
        };
        let z = if mask.z {
            approach_coordinate(from.z, target.z, smoothing)
        } else {
            from.z
        };
        self.position = Point3 { x, y, z };
    }
}

} // verus!
