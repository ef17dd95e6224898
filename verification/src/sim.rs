//! One putt played to its end: struck from the tee, ticked until the ball
//! rests or drops into the cup.

use vstd::prelude::*;
use crate::ball::{Ball, BallState};
use crate::ball_laws::lemma_tick_slows;
use crate::constants::FIELD_MAX;
use crate::fixed::{abs, lemma_floor_sqrt, lemma_floor_sqrt_is, Point, Vec2};
use crate::hole::{Hole, HoleModel};
use crate::wall::Wall;

verus! {

/// The ball is over the cup and slow enough to drop in.
pub open spec fn holed(s: BallState, cup: BallState) -> bool {
    s.pos.dist_sq(cup.pos) < cup.radius * cup.radius && s.can_fall()
}

/// The ball at rest in the cup.
pub open spec fn sunk(s: BallState, cup: BallState) -> BallState {
    BallState { pos: cup.pos, vel: Point { x: 0, y: 0 }, ..s }
}

/// The ball when its roll has ended: ticked until it rests, or until the
/// end of the first tick that finds it holed, which puts it in the cup.
pub open spec fn rolled_out(s: BallState, walls: Seq<Wall>, cup: BallState) -> BallState
    decreases s.pace(),
    via rolled_out_decreases
{
    if !s.moving() {
        s
    } else if holed(s.ticked(walls), cup) {
        sunk(s.ticked(walls), cup)
    } else {
        rolled_out(s.ticked(walls), walls, cup)
    }
}

#[via_fn]
proof fn rolled_out_decreases(s: BallState, walls: Seq<Wall>, cup: BallState) {
    if s.moving() {
        lemma_tick_slows(s, walls);
    }
}

/// A new ball on the tee of `h`, at rest.
pub open spec fn teed(h: HoleModel) -> BallState {
    BallState { pos: h.ball.pos, vel: Point { x: 0, y: 0 }, radius: h.ball.radius, start: h.ball.pos }
}

/// Where a putt from the tee of `h` aimed at `target` ends.
pub open spec fn putt(h: HoleModel, target: Point) -> Point {
    rolled_out(teed(h).struck(target), h.walls, h.cup).pos
}

/// How far from the cup that putt ends, rounded down; 0 for a putt that is
/// holed.
pub open spec fn outcome(h: HoleModel, target: Point) -> int {
    putt(h, target).dist(h.cup.pos)
}

/// Whether `ball` is over `cup` and slow enough to drop in.
pub fn is_holed(ball: &Ball, cup: &Ball) -> (b: bool)
    requires
        ball@.pos.in_reach(),
        cup@.pos.in_reach(),
        0 <= cup.radius <= FIELD_MAX,
    ensures
        b == holed(ball@, cup@),
{
    let r: u128 = cup.radius as u128;
    assert(r * r <= 1_000_000_000_000_000 * 1_000_000_000_000_000) by (nonlinear_arith)
        requires
            0 <= r <= 1_000_000_000_000_000,
    ;
    ball.pos.distance_squared(&cup.pos) < r * r && ball.is_able_to_fall_in_hole()
}

/// Plays one putt from the tee of `hole` toward `(x, y)` to its end and
/// returns where the ball comes to rest.
pub fn simulate_putt(hole: &Hole, x: i64, y: i64) -> (rest: Vec2)
    requires
        hole@.wf(),
        abs(x as int) <= FIELD_MAX,
        abs(y as int) <= FIELD_MAX,
    ensures
        rest@ == putt(hole@, Point { x: x as int, y: y as int }),
        rest@.in_reach(),
{
    let mut ball = Ball::new(hole.ball.pos.x, hole.ball.pos.y, hole.ball.radius);
    ball.hit(x, y);
    let ghost walls = hole.walls@;
    let ghost cup = hole.cup@;
    let ghost end = rolled_out(ball@, walls, cup);
    while ball.is_moving()
        invariant_except_break
            rolled_out(ball@, walls, cup) == end,
        invariant
            ball@.wf(),
            hole@.wf(),
            walls == hole.walls@,
            cup == hole.cup@,
        ensures
            ball@ == end,
        decreases ball@.pace(),
    {
        proof {
            lemma_tick_slows(ball@, walls);
        }
        ball.move_ball_and_collide(&hole.walls);
        if is_holed(&ball, &hole.cup) {
            ball.pos = hole.cup.pos;
            ball.stop();
            break ;
        }
    }
    ball.pos
}

/// Plays one putt from the tee of `hole` toward `(x, y)` and returns how far
/// from the cup it ends, rounded down to a whole unit.
pub fn putt_outcome(hole: &Hole, x: i64, y: i64) -> (d: i64)
    requires
        hole@.wf(),
        abs(x as int) <= FIELD_MAX,
        abs(y as int) <= FIELD_MAX,
    ensures
        d == outcome(hole@, Point { x: x as int, y: y as int }),
{
    let rest = simulate_putt(hole, x, y);
    rest.distance(&hole.cup.pos)
}

/// The outcome is 0 for the putts that end on the cup's centre, and for
/// no others.
pub proof fn lemma_outcome_zero(h: HoleModel, target: Point)
    ensures
        outcome(h, target) == 0 <==> putt(h, target) == h.cup.pos,
{
    let rest = putt(h, target);
    let dx = rest.x - h.cup.pos.x;
    let dy = rest.y - h.cup.pos.y;
    let sq = rest.dist_sq(h.cup.pos);
    assert(dx * dx >= 0 && dy * dy >= 0) by (nonlinear_arith);
    lemma_floor_sqrt(sq);
    if rest == h.cup.pos {
        lemma_floor_sqrt_is(0, 0);
    }
    if outcome(h, target) == 0 {
        assert(dx == 0) by (nonlinear_arith)
            requires
                dx * dx < 1,
        ;
        assert(dy == 0) by (nonlinear_arith)
            requires
                dy * dy < 1,
        ;
    }
}

} // verus!
