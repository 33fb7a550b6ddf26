//! A particle that falls under gravity and bounces off the walls of a box.
use crate::scalar::make_ratio;
use crate::scalar::one;
use crate::scalar::ratio;
use crate::scalar::zero;
use crate::scalar::Scalar;
use vstd::prelude::*;

verus! {

/// A point or a direction in the plane.
#[derive(Debug, PartialEq)]
pub struct Vec2<S> {
    pub x: S,
    pub y: S,
}

impl<S: Copy> Copy for Vec2<S> {

}

impl<S: Copy> Clone for Vec2<S> {
    fn clone(&self) -> (r: Self)
        ensures
            r == *self,
    {
        *self
    }
}

/// A box with its corner at `(x, y)`.
#[derive(Debug, PartialEq)]
pub struct Rect<S> {
    pub x: S,
    pub y: S,
    pub width: S,
    pub height: S,
}

impl<S: Copy> Copy for Rect<S> {

}

impl<S: Copy> Clone for Rect<S> {
    fn clone(&self) -> (r: Self)
        ensures
            r == *self,
    {
        *self
    }
}

/// The downward acceleration 981/100 that every update adds to the speed.
pub open spec fn gravity_spec<S: Scalar>() -> S {
    ratio::<S>(981, 100)
}

/// The downward acceleration that every update adds to the speed.
pub fn gravity<S: Scalar>() -> (r: S)
    ensures
        r == gravity_spec::<S>(),
{
    make_ratio(981, 100)
}

/// One for a number above zero, minus one for a number below, else zero.
pub open spec fn sign_spec<S: Scalar>(number: S) -> S {
    if zero::<S>().less_than_spec(number) {
        one::<S>()
    } else if number.less_than_spec(zero::<S>()) {
        S::from_int_spec(-1i64)
    } else {
        zero::<S>()
    }
}

/// One for a number above zero, minus one for a number below, else zero.
pub fn get_sign<S: Scalar>(number: S) -> (r: S)
    ensures
        r == sign_spec(number),
{
    let origin: S = S::from_int(0);
    if origin.less_than(number) {
        S::from_int(1)
    } else if number.less_than(origin) {
        S::from_int(-1)
    } else {
        origin
    }
}

/// The factor `-1 * damping` that a wall applies to the speed.
pub open spec fn rebound<S: Scalar>(damping: S) -> S {
    S::from_int_spec(-1i64).times_spec(damping)
}

/// The farthest that a particle of the given radius may go along an axis on
/// which the box starts at `start` and is `extent` long.
pub open spec fn far_limit<S: Scalar>(start: S, extent: S, radius: S) -> S {
    start.plus_spec(extent).minus_spec(one::<S>().times_spec(radius))
}

/// Position along one axis after the far wall at `limit` was applied.
pub open spec fn bounced_position<S: Scalar>(pos: S, limit: S) -> S {
    if limit.less_than_spec(pos) {
        limit.times_spec(sign_spec(pos))
    } else {
        pos
    }
}

/// Speed along one axis after the far wall at `limit` was applied.
pub open spec fn bounced_speed<S: Scalar>(pos: S, speed: S, limit: S, damping: S) -> S {
    if limit.less_than_spec(pos) {
        speed.times_spec(rebound(damping))
    } else {
        speed
    }
}

/// Half of the length by which two discs of radius `first` and `second`
/// overlap when their centres are `distance` apart.
pub open spec fn half_overlap<S: Scalar>(first: S, second: S, distance: S) -> S {
    first.plus_spec(second).minus_spec(distance).over_spec(S::from_int_spec(2))
}

/// A disc that moves in the plane.
#[derive(Debug)]
pub struct Particle<S: Scalar> {
    pub pos: Vec2<S>,
    pub vel: Vec2<S>,
    pub radius: S,
    /// The share of its speed that the particle keeps when it hits a wall.
    pub collision_damping: S,
}

impl<S: Scalar> Copy for Particle<S> {

}

impl<S: Scalar> Clone for Particle<S> {
    fn clone(&self) -> (r: Self)
        ensures
            r == *self,
    {
        *self
    }
}

impl<S: Scalar> Particle<S> {
    /// The particle after the far walls of `bounds` were applied: on each
    /// axis on which it lies beyond the limit it is put back onto the limit
    /// and its speed is turned round and damped.
    pub open spec fn collided(self, bounds: Rect<S>) -> Self {
        let limit_x = far_limit(bounds.x, bounds.width, self.radius);
        let limit_y = far_limit(bounds.y, bounds.height, self.radius);
        Particle {
            pos: Vec2 {
                x: bounced_position(self.pos.x, limit_x),
                y: bounced_position(self.pos.y, limit_y),
            },
            vel: Vec2 {
                x: bounced_speed(self.pos.x, self.vel.x, limit_x, self.collision_damping),
                y: bounced_speed(self.pos.y, self.vel.y, limit_y, self.collision_damping),
            },
            ..self
        }
    }

    /// The particle after gravity acted on its speed and it moved for
    /// `frame_time`, before any wall is applied.
    pub open spec fn moved(self, frame_time: S) -> Self {
        let fall = self.vel.y.plus_spec(gravity_spec::<S>());
        Particle {
            pos: Vec2 {
                x: self.pos.x.plus_spec(self.vel.x.times_spec(frame_time)),
                y: self.pos.y.plus_spec(fall.times_spec(frame_time)),
            },
            vel: Vec2 { x: self.vel.x, y: fall },
            ..self
        }
    }

    /// The centre lies strictly inside the span that the cell `cell` of a
    /// lattice with cells `width` wide and `height` high takes up: between
    /// `width * cell.0` and that plus `width` along the first axis, and
    /// between `width * cell.1 + height` and `width * cell.1` along the
    /// second.
    pub open spec fn within_cell(self, width: i32, height: i32, cell: (i32, i32)) -> bool {
        &&& S::from_int_spec((width * cell.0) as i64).less_than_spec(self.pos.x)
        &&& self.pos.x.less_than_spec(S::from_int_spec((width * cell.0 + width) as i64))
        &&& S::from_int_spec((width * cell.1 + height) as i64).less_than_spec(self.pos.y)
        &&& self.pos.y.less_than_spec(S::from_int_spec((width * cell.1) as i64))
    }

    /// Row and column of the cell that holds the centre in a lattice with
    /// cells `width` wide and `height` high: the floors of `pos.y / height`
    /// and of `pos.x / width`.
    pub open spec fn home_cell(self, width: i32, height: i32) -> (i64, i64) {
        (
            self.pos.y.over_spec(S::from_int_spec(height as i64)).floor_spec(),
            self.pos.x.over_spec(S::from_int_spec(width as i64)).floor_spec(),
        )
    }

    /// The particle with `by` taken off both coordinates of its position.
    pub open spec fn drawn_back(self, by: S) -> Self {
        Particle {
            pos: Vec2 { x: self.pos.x.minus_spec(by), y: self.pos.y.minus_spec(by) },
            ..self
        }
    }

    /// The particle with `by` added to both coordinates of its position.
    pub open spec fn drawn_on(self, by: S) -> Self {
        Particle {
            pos: Vec2 { x: self.pos.x.plus_spec(by), y: self.pos.y.plus_spec(by) },
            ..self
        }
    }

    /// A particle that keeps 8/10 of its speed when it hits a wall.
    pub fn new(start_pos: Vec2<S>, vel: Vec2<S>, radius: S) -> (r: Self)
        ensures
            r.pos == start_pos,
            r.vel == vel,
            r.radius == radius,
            r.collision_damping == ratio::<S>(8, 10),
    {
        Particle { pos: start_pos, vel, radius, collision_damping: make_ratio(8, 10) }
    }

    /// Whether the centre of the particle lies in the given cell of a
    /// lattice with cells `width` wide and `height` high.
    pub fn in_cell(&self, width: i32, height: i32, cell: (i32, i32)) -> (r: bool)
        ensures
            r == self.within_cell(width, height, cell),
    {
        assert(-0x4000_0000_0000_0000 <= width * cell.0 <= 0x4000_0000_0000_0000
            && -0x4000_0000_0000_0000 <= width * cell.1 <= 0x4000_0000_0000_0000)
            by (nonlinear_arith)
            requires
                -0x8000_0000 <= width <= 0x7fff_ffff,
                -0x8000_0000 <= cell.0 <= 0x7fff_ffff,
                -0x8000_0000 <= cell.1 <= 0x7fff_ffff,
        ;
        let left = width as i64 * cell.0 as i64;
        let top = width as i64 * cell.1 as i64;
        S::from_int(left).less_than(self.pos.x) && self.pos.x.less_than(
            S::from_int(left + width as i64),
        ) && S::from_int(top + height as i64).less_than(self.pos.y) && self.pos.y.less_than(
            S::from_int(top),
        )
    }

    /// Row and column of the cell that holds the centre of the particle in
    /// a lattice with cells `width` wide and `height` high.
    pub fn cell(&self, width: i32, height: i32) -> (r: (i64, i64))
        ensures
            r == self.home_cell(width, height),
    {
        let row = self.pos.y.over(S::from_int(height as i64)).floor();
        let column = self.pos.x.over(S::from_int(width as i64)).floor();
        (row, column)
    }

    /// Keeps the particle inside the far walls of `bounds`.
    pub fn collision(&mut self, bounds: &Rect<S>)
        ensures
            *final(self) == old(self).collided(*bounds),
    {
        let unit: S = S::from_int(1);
        let limit_x = bounds.x.plus(bounds.width).minus(unit.times(self.radius));
        let limit_y = bounds.y.plus(bounds.height).minus(unit.times(self.radius));
        let turn = S::from_int(-1).times(self.collision_damping);
        if limit_x.less_than(self.pos.x) {
            self.pos.x = limit_x.times(get_sign(self.pos.x));
            self.vel.x = self.vel.x.times(turn);
        }
        if limit_y.less_than(self.pos.y) {
            self.pos.y = limit_y.times(get_sign(self.pos.y));
            self.vel.y = self.vel.y.times(turn);
        }
    }

    /// Parts two overlapping particles whose centres are `distance` apart:
    /// half of the overlap is taken off both coordinates of this one and
    /// added to both coordinates of the other.
    pub fn separate(&mut self, other: &mut Self, distance: S)
        ensures
            *final(self) == old(self).drawn_back(
                half_overlap(old(self).radius, old(other).radius, distance),
            ),
            *final(other) == old(other).drawn_on(
                half_overlap(old(self).radius, old(other).radius, distance),
            ),
    {
        let compensation_length = self.radius.plus(other.radius).minus(distance);
        let by = compensation_length.over(S::from_int(2));
        self.pos.x = self.pos.x.minus(by);
        self.pos.y = self.pos.y.minus(by);
        other.pos.x = other.pos.x.plus(by);
        other.pos.y = other.pos.y.plus(by);
    }

    /// Advances the particle by one frame of length `frame_time`: gravity
    /// acts on the speed, the particle moves, and the walls of `bounds` are
    /// applied.
    pub fn update(&mut self, frame_time: S, bounds: &Rect<S>)
        ensures
            *final(self) == old(self).moved(frame_time).collided(*bounds),
    {
        self.vel.y = self.vel.y.plus(gravity());
        self.pos.x = self.pos.x.plus(self.vel.x.times(frame_time));
        self.pos.y = self.pos.y.plus(self.vel.y.times(frame_time));
        self.collision(bounds);
    }
}

} // verus!
