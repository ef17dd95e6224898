//! The ball: its position and velocity, the putt that sets it rolling, and
//! the tick that moves it, bounces it off walls and slows it down.

use vstd::prelude::*;
use vstd::string::StringExecFns;
use crate::constants::{
    CONTACT_DEN,
    CONTACT_NUM,
    FALLING_SPEED,
    FIELD_MAX,
    FRICTION_DEN,
    FRICTION_NUM,
    REACH_MAX,
    STOP_THRESHOLD,
    WALL_THICKNESS,
};
use crate::decimal::{push_units, units_text};
use crate::fixed::{abs, quot, Point, Vec2};
use crate::wall::{Wall, WallType};

verus! {

/// Velocity along one axis that a putt gives for the aim offset `d`.
pub open spec fn launched(d: int) -> int {
    quot(d * CONTACT_NUM, CONTACT_DEN as int)
}

/// Velocity along one axis after friction: `FRICTION_NUM / FRICTION_DEN` of
/// `v` rounded toward zero, and rest once that is under `STOP_THRESHOLD`.
pub open spec fn slowed(v: int) -> int {
    let f = quot(v * FRICTION_NUM, FRICTION_DEN as int);
    if abs(f) < STOP_THRESHOLD {
        0
    } else {
        f
    }
}

/// Half of `v`, rounded toward zero.
pub open spec fn halved(v: int) -> int {
    quot(v, 2)
}

/// A ball at `p` with velocity `v` along one axis stays within reach however
/// long it rolls: friction lets it travel less than `FRICTION_DEN` times its
/// speed.
pub open spec fn in_budget(p: int, v: int) -> bool {
    abs(p) + FRICTION_DEN * abs(v) <= REACH_MAX
}

/// The same between the move and the friction of one tick, when one step
/// of the roll is already taken.
pub open spec fn in_mid_budget(p: int, v: int) -> bool {
    &&& abs(p) + FRICTION_NUM * abs(v) <= REACH_MAX
    &&& FRICTION_DEN * abs(v) <= REACH_MAX
}

/// What a `Ball` stands for in contracts: its state over the integers.
pub struct BallState {
    pub pos: Point,
    pub vel: Point,
    pub radius: int,
    pub start: Point,
}

impl BallState {
    /// The ball has a radius, started in the field and stays within reach.
    pub open spec fn wf(self) -> bool {
        &&& 0 < self.radius <= FIELD_MAX
        &&& self.start.in_field()
        &&& in_budget(self.pos.x, self.vel.x)
        &&& in_budget(self.pos.y, self.vel.y)
    }

    /// Validity between the move and the friction of one tick.
    pub open spec fn mid_wf(self) -> bool {
        &&& 0 < self.radius <= FIELD_MAX
        &&& self.start.in_field()
        &&& in_mid_budget(self.pos.x, self.vel.x)
        &&& in_mid_budget(self.pos.y, self.vel.y)
    }

    pub open spec fn moving(self) -> bool {
        self.vel.x != 0 || self.vel.y != 0
    }

    /// Square of the speed.
    pub open spec fn speed_sq(self) -> int {
        self.vel.x * self.vel.x + self.vel.y * self.vel.y
    }

    /// The ball is slower than `FALLING_SPEED`.
    pub open spec fn can_fall(self) -> bool {
        self.speed_sq() < FALLING_SPEED * FALLING_SPEED
    }

    /// Sum of the speeds along the two axes: what every tick of a moving
    /// ball makes smaller.
    pub open spec fn pace(self) -> nat {
        (abs(self.vel.x) + abs(self.vel.y)) as nat
    }

    /// The ball at rest where it is.
    pub open spec fn stopped(self) -> BallState {
        BallState { vel: Point { x: 0, y: 0 }, ..self }
    }

    /// The ball at rest where it started.
    pub open spec fn restarted(self) -> BallState {
        BallState { pos: self.start, vel: Point { x: 0, y: 0 }, ..self }
    }

    /// The ball after a putt aimed at `target`.
    pub open spec fn struck(self, target: Point) -> BallState {
        BallState {
            vel: Point {
                x: launched(target.x - self.pos.x),
                y: launched(target.y - self.pos.y),
            },
            ..self
        }
    }

    /// The ball moved by its velocity.
    pub open spec fn advanced(self) -> BallState {
        BallState {
            pos: Point { x: self.pos.x + self.vel.x, y: self.pos.y + self.vel.y },
            ..self
        }
    }

    /// The point half a step further on.
    pub open spec fn probe(self) -> Point {
        Point { x: self.pos.x + halved(self.vel.x), y: self.pos.y + halved(self.vel.y) }
    }

    /// The ball, or the point half a step ahead of it, is closer to the face
    /// of `w` than the ball's radius.
    pub open spec fn touches(self, w: Wall) -> bool {
        w.gap(self.pos) < self.radius || w.gap(self.probe()) < self.radius
    }

    /// The ball thrown back by `w`: the velocity across the wall turns round,
    /// and the ball is put down on the side it now moves to with its edge on
    /// the face of the wall, `HALF_WALL_THICKNESS` and a radius from the
    /// centre line. A ball with no velocity across the wall stays where it is, and a
    /// slanted wall throws nothing back.
    pub open spec fn bounced(self, w: Wall) -> BallState {
        match w.wall_type {
            WallType::HORIZONTAL => {
                let vy = -self.vel.y;
                let py = if vy > 0 {
                    w.top_left.y + WALL_THICKNESS + self.radius
                } else if vy < 0 {
                    w.top_left.y - self.radius
                } else {
                    self.pos.y
                };
                BallState {
                    pos: Point { x: self.pos.x, y: py },
                    vel: Point { x: self.vel.x, y: vy },
                    ..self
                }
            },
            WallType::VERTICAL => {
                let vx = -self.vel.x;
                let px = if vx > 0 {
                    w.top_left.x + WALL_THICKNESS + self.radius
                } else if vx < 0 {
                    w.top_left.x - self.radius
                } else {
                    self.pos.x
                };
                BallState {
                    pos: Point { x: px, y: self.pos.y },
                    vel: Point { x: vx, y: self.vel.y },
                    ..self
                }
            },
            WallType::SLANTED => self,
        }
    }

    /// The ball after meeting `w`: thrown back where it touches.
    pub open spec fn resolved(self, w: Wall) -> BallState {
        if self.touches(w) {
            self.bounced(w)
        } else {
            self
        }
    }

    /// The ball after meeting each of `walls` in turn.
    pub open spec fn resolved_all(self, walls: Seq<Wall>) -> BallState
        decreases walls.len(),
    {
        if walls.len() == 0 {
            self
        } else {
            self.resolved_all(walls.drop_last()).resolved(walls.last())
        }
    }

    /// The ball after friction.
    pub open spec fn settled(self) -> BallState {
        BallState { vel: Point { x: slowed(self.vel.x), y: slowed(self.vel.y) }, ..self }
    }

    /// The ball one tick later: moved, thrown back by the walls it touches,
    /// then slowed.
    pub open spec fn ticked(self, walls: Seq<Wall>) -> BallState {
        self.advanced().resolved_all(walls).settled()
    }

    /// The place the ball starts from, as it stands in a layout file: `x`,
    /// a blank, `y`.
    pub open spec fn text(self) -> Seq<char> {
        units_text(self.start.x) + " "@ + units_text(self.start.y)
    }

    /// The ball lies clear of the body of `w`, by its radius or more, on the
    /// axis across the wall.
    pub open spec fn clear_of(self, w: Wall) -> bool {
        match w.wall_type {
            WallType::HORIZONTAL => {
                ||| self.pos.y <= w.top_left.y - self.radius
                ||| self.pos.y >= w.top_left.y + w.dimensions.y + self.radius
            },
            WallType::VERTICAL => {
                ||| self.pos.x <= w.top_left.x - self.radius
                ||| self.pos.x >= w.top_left.x + w.dimensions.x + self.radius
            },
            WallType::SLANTED => true,
        }
    }
}

/// Every wall of `walls` is valid.
pub open spec fn walls_wf(walls: Seq<Wall>) -> bool {
    forall|i: int| 0 <= i < walls.len() ==> (#[trigger] walls[i]).wf()
}

/// A ball, or a cup: a centre, a velocity, a radius and the place to start
/// again from.
#[derive(Clone, Copy, Debug, PartialEq, Eq, Structural)]
pub struct Ball {
    pub pos: Vec2,
    pub vel: Vec2,
    pub radius: i64,
    pub starting_pos: Vec2,
}

impl View for Ball {
    type V = BallState;

    open spec fn view(&self) -> BallState {
        BallState {
            pos: self.pos@,
            vel: self.vel@,
            radius: self.radius as int,
            start: self.starting_pos@,
        }
    }
}

impl Ball {
    /// A ball of radius `r` at rest at `(x_start, y_start)`, a point of the
    /// field. A radius of 0 marks a ball that is not placed yet; such a ball
    /// is not valid.
    pub fn new(x_start: i64, y_start: i64, r: i64) -> (b: Ball)
        requires
            abs(x_start as int) <= FIELD_MAX,
            abs(y_start as int) <= FIELD_MAX,
            0 <= r <= FIELD_MAX,
        ensures
            b == (Ball {
                pos: Vec2 { x: x_start, y: y_start },
                vel: Vec2 { x: 0, y: 0 },
                radius: r,
                starting_pos: Vec2 { x: x_start, y: y_start },
            }),
            b@.wf() <==> r != 0,
    {
        Ball {
            pos: Vec2::new(x_start, y_start),
            vel: Vec2::new(0, 0),
            radius: r,
            starting_pos: Vec2::new(x_start, y_start),
        }
    }

    /// Whether the ball is valid: it has a radius, started in the field and
    /// stays within reach.
    pub fn is_valid(&self) -> (b: bool)
        ensures
            b == self@.wf(),
    {
        0 < self.radius && self.radius <= FIELD_MAX && self.starting_pos.is_in_field()
            && axis_in_budget(self.pos.x, self.vel.x) && axis_in_budget(self.pos.y, self.vel.y)
    }

    /// Puts the ball back where it started, at rest.
    pub fn reset(&mut self)
        ensures
            final(self)@ == old(self)@.restarted(),
            old(self)@.wf() ==> final(self)@.wf(),
    {
        self.pos = self.starting_pos;
        self.stop();
    }

    /// Brings the ball to rest where it is.
    pub fn stop(&mut self)
        ensures
            final(self)@ == old(self)@.stopped(),
            old(self)@.wf() ==> final(self)@.wf(),
    {
        self.vel.x = 0;
        self.vel.y = 0;
    }

    /// Whether the ball has any velocity.
    pub fn is_moving(&self) -> (m: bool)
        ensures
            m == self@.moving(),
    {
        self.vel.x != 0 || self.vel.y != 0
    }

    /// Whether the ball is slow enough to drop into a cup.
    pub fn is_able_to_fall_in_hole(&self) -> (f: bool)
        ensures
            f == self@.can_fall(),
    {
        let vx = self.vel.x;
        let vy = self.vel.y;
        if vx <= -FALLING_SPEED || vx >= FALLING_SPEED || vy <= -FALLING_SPEED || vy
            >= FALLING_SPEED {
            proof {
                lemma_square_bounds(vx as int, FALLING_SPEED as int);
                lemma_square_bounds(vy as int, FALLING_SPEED as int);
            }
            return false;
        }
        proof {
            lemma_square_bounds(vx as int, FALLING_SPEED as int);
            lemma_square_bounds(vy as int, FALLING_SPEED as int);
        }
        vx * vx + vy * vy < FALLING_SPEED * FALLING_SPEED
    }

    /// The place the ball starts from, as it stands in a layout file.
    pub fn to_string(&self) -> (s: String)
        ensures
            s@ == self@.text(),
    {
        let mut s = String::new();
        push_units(&mut s, self.starting_pos.x);
        s.append(" ");
        push_units(&mut s, self.starting_pos.y);
        assert(s@ =~= self@.text());
        s
    }

    /// Putts the ball toward `(x, y)`: the velocity becomes
    /// `CONTACT_NUM / CONTACT_DEN` of the way there per tick, rounded toward
    /// zero. A putt is struck in the field at a target in the field, which
    /// keeps every place that the ball can roll to within reach.
    pub fn hit(&mut self, x: i64, y: i64)
        requires
            old(self)@.wf(),
            old(self)@.pos.in_field(),
            abs(x as int) <= FIELD_MAX,
            abs(y as int) <= FIELD_MAX,
        ensures
            final(self)@ == old(self)@.struck(Point { x: x as int, y: y as int }),
            final(self)@.wf(),
    {
        self.vel.x = (x - self.pos.x) * CONTACT_NUM / CONTACT_DEN;
        self.vel.y = (y - self.pos.y) * CONTACT_NUM / CONTACT_DEN;
    }

    /// One tick: moves the ball by its velocity, throws it back from every
    /// wall that it, or the point half a step ahead, touches, then applies
    /// friction.
    pub fn move_ball_and_collide(&mut self, walls: &Vec<Wall>)
        requires
            old(self)@.wf(),
            walls_wf(walls@),
        ensures
            final(self)@ == old(self)@.ticked(walls@),
            final(self)@.wf(),
    {
        let ghost entry = self@;
        self.pos.x = self.pos.x + self.vel.x;
        self.pos.y = self.pos.y + self.vel.y;
        assert(self@ == entry.advanced());

        let n = walls.len();
        let mut i: usize = 0;
        assert(walls@.take(0) =~= Seq::<Wall>::empty());
        while i < n
            invariant
                i <= n,
                n == walls@.len(),
                walls_wf(walls@),
                self@ == entry.advanced().resolved_all(walls@.take(i as int)),
                self@.mid_wf(),
            decreases n - i,
        {
            let w = walls[i];
            let ghost before = self@;
            proof {
                assert(w.wf());
                assert(walls@.take(i + 1).drop_last() =~= walls@.take(i as int));
                assert(walls@.take(i + 1).last() == w);
                lemma_resolved_mid_wf(before, w);
            }
            // Check at the current position and at half a step for contact.
            let probe = Vec2::new(self.pos.x + self.vel.x / 2, self.pos.y + self.vel.y / 2);
            if w.distance_to_wall(self.pos) < self.radius || w.distance_to_wall(probe)
                < self.radius {
                match w.wall_type {
                    WallType::HORIZONTAL => {
                        self.vel.y = -self.vel.y;
                        if self.vel.y > 0 {
                            self.pos.y = w.top_left.y + WALL_THICKNESS + self.radius;
                        }
                        if self.vel.y < 0 {
                            self.pos.y = w.top_left.y - self.radius;
                        }
                    },
                    WallType::VERTICAL => {
                        self.vel.x = -self.vel.x;
                        if self.vel.x > 0 {
                            self.pos.x = w.top_left.x + WALL_THICKNESS + self.radius;
                        }
                        if self.vel.x < 0 {
                            self.pos.x = w.top_left.x - self.radius;
                        }
                    },
                    WallType::SLANTED => {},
                };
            }
            assert(self@ == before.resolved(w));
            i += 1;
        }
        assert(walls@.take(n as int) =~= walls@);

        // Slow down.
        self.vel.x = self.vel.x * FRICTION_NUM / FRICTION_DEN;
        self.vel.y = self.vel.y * FRICTION_NUM / FRICTION_DEN;

        // No rolling forever.
        if self.vel.x != 0 && -STOP_THRESHOLD < self.vel.x && self.vel.x < STOP_THRESHOLD {
            self.vel.x = 0;
        }
        if self.vel.y != 0 && -STOP_THRESHOLD < self.vel.y && self.vel.y < STOP_THRESHOLD {
            self.vel.y = 0;
        }
    }
}

/// Whether a ball at `p` with velocity `v` along one axis stays within
/// reach.
fn axis_in_budget(p: i64, v: i64) -> (b: bool)
    ensures
        b == in_budget(p as int, v as int),
{
    if p < -REACH_MAX || p > REACH_MAX || v < -REACH_MAX || v > REACH_MAX {
        return false;
    }
    let reach = if p >= 0 {
        p
    } else {
        -p
    };
    let speed = if v >= 0 {
        v
    } else {
        -v
    };
    reach + FRICTION_DEN * speed <= REACH_MAX
}

/// A number of magnitude under `bound` has a square under `bound` squared,
/// and one of magnitude `bound` or more has a square that is not.
pub proof fn lemma_square_bounds(v: int, bound: int)
    requires
        bound >= 0,
    ensures
        v * v >= 0,
        abs(v) < bound ==> v * v < bound * bound,
        abs(v) >= bound ==> v * v >= bound * bound,
{
    assert(v * v >= 0) by (nonlinear_arith);
    if abs(v) < bound {
        assert(v * v < bound * bound) by (nonlinear_arith)
            requires
                -bound < v < bound,
        ;
    } else {
        assert(v * v >= bound * bound) by (nonlinear_arith)
            requires
                v >= bound || v <= -bound,
                bound >= 0,
        ;
    }
}

/// Meeting a wall keeps a valid ball valid and changes no speed along
/// either axis: a bounce turns a velocity round and nothing more.
pub proof fn lemma_resolved_mid_wf(s: BallState, w: Wall)
    requires
        s.mid_wf(),
        w.wf(),
    ensures
        s.resolved(w).mid_wf(),
        abs(s.resolved(w).vel.x) == abs(s.vel.x),
        abs(s.resolved(w).vel.y) == abs(s.vel.y),
        s.resolved(w).radius == s.radius,
        s.resolved(w).start == s.start,
{
}

} // verus!
