//! What holds of every tick: a ball never gains speed, a moving ball loses
//! some, so every roll ends; and a bounce leaves the ball clear of the wall.

use vstd::prelude::*;
use crate::ball::{slowed, walls_wf, BallState};
use crate::constants::{FIELD_MAX, HALF_WALL_THICKNESS};
use crate::fixed::abs;
use crate::wall::{lemma_gap_of_axis_wall, Wall, WallType};

verus! {

/// Friction never turns a velocity round, never raises a speed, and lowers
/// every speed that is not zero.
pub proof fn lemma_slowed(v: int)
    ensures
        abs(slowed(v)) <= abs(v),
        v != 0 ==> abs(slowed(v)) < abs(v),
        v >= 0 ==> slowed(v) >= 0,
        v <= 0 ==> slowed(v) <= 0,
{
}

/// A bounce keeps the speed along each axis: it turns one velocity round
/// and changes neither magnitude.
pub proof fn lemma_bounce_keeps_speed(s: BallState, w: Wall)
    ensures
        abs(s.bounced(w).vel.x) == abs(s.vel.x),
        abs(s.bounced(w).vel.y) == abs(s.vel.y),
        s.bounced(w).speed_sq() == s.speed_sq(),
{
    let t = s.bounced(w);
    assert(t.vel.x * t.vel.x == s.vel.x * s.vel.x) by (nonlinear_arith)
        requires
            t.vel.x == s.vel.x || t.vel.x == -s.vel.x,
    ;
    assert(t.vel.y * t.vel.y == s.vel.y * s.vel.y) by (nonlinear_arith)
        requires
            t.vel.y == s.vel.y || t.vel.y == -s.vel.y,
    ;
}

/// Meeting any number of walls keeps the speed along each axis.
pub proof fn lemma_walls_keep_speed(s: BallState, walls: Seq<Wall>)
    ensures
        abs(s.resolved_all(walls).vel.x) == abs(s.vel.x),
        abs(s.resolved_all(walls).vel.y) == abs(s.vel.y),
        s.resolved_all(walls).radius == s.radius,
        s.resolved_all(walls).start == s.start,
    decreases walls.len(),
{
    if walls.len() > 0 {
        lemma_walls_keep_speed(s, walls.drop_last());
        lemma_bounce_keeps_speed(s.resolved_all(walls.drop_last()), walls.last());
    }
}

/// A larger magnitude has a larger square.
proof fn lemma_square_monotone(a: int, b: int)
    requires
        abs(a) <= abs(b),
    ensures
        a * a <= b * b,
{
    assert(a * a <= b * b) by (nonlinear_arith)
        requires
            abs(a) <= abs(b),
            abs(a) == a || abs(a) == -a,
            abs(b) == b || abs(b) == -b,
            abs(a) >= 0,
    ;
}

/// Over one tick the speed along each axis does not grow, whatever walls the
/// ball meets, and so neither does the speed.
pub proof fn lemma_tick_never_speeds_up(s: BallState, walls: Seq<Wall>)
    ensures
        abs(s.ticked(walls).vel.x) <= abs(s.vel.x),
        abs(s.ticked(walls).vel.y) <= abs(s.vel.y),
        s.ticked(walls).speed_sq() <= s.speed_sq(),
        s.ticked(walls).radius == s.radius,
        s.ticked(walls).start == s.start,
{
    let r = s.advanced().resolved_all(walls);
    lemma_walls_keep_speed(s.advanced(), walls);
    lemma_slowed(r.vel.x);
    lemma_slowed(r.vel.y);
    lemma_square_monotone(s.ticked(walls).vel.x, s.vel.x);
    lemma_square_monotone(s.ticked(walls).vel.y, s.vel.y);
}

/// A tick of a moving ball lowers its pace.
pub proof fn lemma_tick_slows(s: BallState, walls: Seq<Wall>)
    requires
        s.moving(),
    ensures
        s.ticked(walls).pace() < s.pace(),
{
    let r = s.advanced().resolved_all(walls);
    lemma_walls_keep_speed(s.advanced(), walls);
    lemma_slowed(r.vel.x);
    lemma_slowed(r.vel.y);
}

/// A tick leaves a resting ball as it is.
pub proof fn lemma_rest_is_stable(s: BallState, walls: Seq<Wall>)
    requires
        !s.moving(),
    ensures
        s.ticked(walls) == s,
{
    lemma_walls_leave_resting(s.advanced(), walls);
}

/// Walls do nothing to a ball with no velocity.
proof fn lemma_walls_leave_resting(s: BallState, walls: Seq<Wall>)
    requires
        !s.moving(),
    ensures
        s.resolved_all(walls) == s,
    decreases walls.len(),
{
    if walls.len() > 0 {
        lemma_walls_leave_resting(s, walls.drop_last());
    }
}

/// The ball after `n` ticks.
pub open spec fn rolled(s: BallState, walls: Seq<Wall>, n: nat) -> BallState
    decreases n,
{
    if n == 0 {
        s
    } else {
        rolled(s, walls, (n - 1) as nat).ticked(walls)
    }
}

/// Every roll ends: after as many ticks as the pace it set out with, and
/// after any number beyond, the ball is at rest.
pub proof fn lemma_comes_to_rest(s: BallState, walls: Seq<Wall>, n: nat)
    requires
        n >= s.pace(),
    ensures
        !rolled(s, walls, n).moving(),
{
    lemma_pace_after(s, walls, n);
}

/// After `n` ticks the pace is down by `n` or the ball is at rest.
proof fn lemma_pace_after(s: BallState, walls: Seq<Wall>, n: nat)
    ensures
        !rolled(s, walls, n).moving() || rolled(s, walls, n).pace() + n <= s.pace(),
    decreases n,
{
    if n > 0 {
        let prev = rolled(s, walls, (n - 1) as nat);
        lemma_pace_after(s, walls, (n - 1) as nat);
        if prev.moving() {
            lemma_tick_slows(prev, walls);
        } else {
            lemma_rest_is_stable(prev, walls);
        }
    }
}

/// The ball has some velocity across `w`.
pub open spec fn crossing(s: BallState, w: Wall) -> bool {
    match w.wall_type {
        WallType::HORIZONTAL => s.vel.y != 0,
        WallType::VERTICAL => s.vel.x != 0,
        WallType::SLANTED => true,
    }
}

/// A ball thrown back by a wall that it was moving across lies clear of the
/// wall's body by at least its radius.
pub proof fn lemma_bounce_clears_wall(s: BallState, w: Wall)
    requires
        w.wf(),
        s.radius >= 0,
        crossing(s, w),
    ensures
        s.bounced(w).clear_of(w),
{
}

/// The ball as it meets wall `i` of a tick: moved, and thrown back by the
/// walls before `i`.
pub open spec fn arriving(s: BallState, walls: Seq<Wall>, i: int) -> BallState {
    s.advanced().resolved_all(walls.take(i))
}

/// The tick throws the ball back from wall `i`.
pub open spec fn hits(s: BallState, walls: Seq<Wall>, i: int) -> bool {
    arriving(s, walls, i).touches(walls[i])
}

/// After a tick the ball lies clear of every wall that threw it back while
/// it was moving across, unless a later wall along the same axis threw it
/// back again.
pub proof fn lemma_tick_clears_wall(s: BallState, walls: Seq<Wall>, i: int)
    requires
        walls_wf(walls),
        s.radius >= 0,
        0 <= i < walls.len(),
        hits(s, walls, i),
        crossing(arriving(s, walls, i), walls[i]),
        forall|j: int|
            i < j < walls.len() && walls[j].wall_type == walls[i].wall_type ==> !hits(
                s,
                walls,
                j,
            ),
    ensures
        s.ticked(walls).clear_of(walls[i]),
{
    lemma_clear_until(s, walls, i, walls.len() as int);
    assert(walls.take(walls.len() as int) =~= walls);
}

/// Induction behind `lemma_tick_clears_wall`: the ball is clear of wall `i`
/// when it meets wall `k`.
proof fn lemma_clear_until(s: BallState, walls: Seq<Wall>, i: int, k: int)
    requires
        walls_wf(walls),
        s.radius >= 0,
        0 <= i < k <= walls.len(),
        hits(s, walls, i),
        crossing(arriving(s, walls, i), walls[i]),
        forall|j: int|
            i < j < walls.len() && walls[j].wall_type == walls[i].wall_type ==> !hits(
                s,
                walls,
                j,
            ),
    ensures
        arriving(s, walls, k).clear_of(walls[i]),
        arriving(s, walls, k).radius == s.radius,
    decreases k - i,
{
    let before = arriving(s, walls, k - 1);
    let w = walls[k - 1];
    assert(walls.take(k).drop_last() =~= walls.take(k - 1));
    assert(walls.take(k).last() == w);
    assert(arriving(s, walls, k) == before.resolved(w));
    lemma_walls_keep_speed(s.advanced(), walls.take(k - 1));
    if k == i + 1 {
        assert(w.wf());
        lemma_bounce_clears_wall(before, w);
    } else {
        lemma_clear_until(s, walls, i, k - 1);
        if w.wall_type == walls[i].wall_type {
            assert(!hits(s, walls, k - 1));
        }
    }
}

/// The ball's coordinate across `w`, less that of the wall's centre line.
pub open spec fn beside(s: BallState, w: Wall) -> int {
    match w.wall_type {
        WallType::HORIZONTAL => s.pos.y - w.a.y,
        WallType::VERTICAL => s.pos.x - w.a.x,
        WallType::SLANTED => 0,
    }
}

/// The ball's velocity across `w`.
pub open spec fn across(s: BallState, w: Wall) -> int {
    match w.wall_type {
        WallType::HORIZONTAL => s.vel.y,
        WallType::VERTICAL => s.vel.x,
        WallType::SLANTED => 0,
    }
}

/// The ball lies clear of the body of `w` by its radius or more, on the
/// side of the greater coordinates where `high`, else on the other.
pub open spec fn clear_on(s: BallState, w: Wall, high: bool) -> bool {
    if high {
        beside(s, w) >= HALF_WALL_THICKNESS + s.radius
    } else {
        beside(s, w) <= -(HALF_WALL_THICKNESS + s.radius)
    }
}

/// The ball is slow enough for `w`: in one tick it moves no further across
/// the wall than from the wall's centre line to where a ball touches it.
pub open spec fn slow_for(s: BallState, w: Wall) -> bool {
    abs(across(s, w)) <= HALF_WALL_THICKNESS + s.radius
}

/// A ball that meets a wall beside its run, not yet past its centre line,
/// and either coming toward it or clear of it, leaves the meeting clear of
/// the wall on the side it came from.
pub proof fn lemma_wall_turns_ball_back(t: BallState, w: Wall, high: bool)
    requires
        w.wf(),
        w.wall_type != WallType::SLANTED,
        w.length != 0,
        0 <= t.radius <= FIELD_MAX,
        w.in_band(t.pos),
        if high {
            beside(t, w) >= 0 && (across(t, w) < 0 || clear_on(t, w, high))
        } else {
            beside(t, w) <= 0 && (across(t, w) > 0 || clear_on(t, w, high))
        },
    ensures
        clear_on(t.resolved(w), w, high),
        t.resolved(w).radius == t.radius,
        abs(across(t.resolved(w), w)) == abs(across(t, w)),
        match w.wall_type {
            WallType::HORIZONTAL => t.resolved(w).pos.x == t.pos.x && t.resolved(w).vel.x
                == t.vel.x,
            _ => t.resolved(w).pos.y == t.pos.y && t.resolved(w).vel.y == t.vel.y,
        },
{
    lemma_gap_of_axis_wall(w, t.pos);
    if w.in_band(t.probe()) {
        lemma_gap_of_axis_wall(w, t.probe());
    }
}

/// A slow ball does not pass a wall: one that lies clear of a wall and is
/// slow enough for it lies clear of it on the same side after a tick in
/// which that wall is the only one, if the move leaves it beside the wall's
/// run.
pub proof fn lemma_wall_holds_slow_ball(s: BallState, w: Wall, high: bool)
    requires
        w.wf(),
        w.wall_type != WallType::SLANTED,
        w.length != 0,
        0 <= s.radius <= FIELD_MAX,
        clear_on(s, w, high),
        slow_for(s, w),
        w.in_band(s.advanced().pos),
    ensures
        clear_on(s.ticked(seq![w]), w, high),
        slow_for(s.ticked(seq![w]), w),
{
    let t = s.advanced();
    let walls = seq![w];
    assert(walls.drop_last() =~= Seq::<Wall>::empty());
    assert(t.resolved_all(walls.drop_last()) == t);
    assert(walls.last() == w);
    lemma_wall_turns_ball_back(t, w, high);
    lemma_slowed(t.resolved(w).vel.x);
    lemma_slowed(t.resolved(w).vel.y);
}

/// A slow ball does not pass through a corner: one that lies clear of a
/// horizontal and a vertical wall and is slow enough for both lies clear of
/// both, each on the same side, after a tick in which it meets first the
/// one and then the other, if it is beside the run of each as it meets it.
pub proof fn lemma_corner_holds_slow_ball(
    s: BallState,
    first: Wall,
    second: Wall,
    high_first: bool,
    high_second: bool,
)
    requires
        first.wf(),
        second.wf(),
        first.wall_type != WallType::SLANTED,
        second.wall_type != WallType::SLANTED,
        first.wall_type != second.wall_type,
        first.length != 0,
        second.length != 0,
        0 <= s.radius <= FIELD_MAX,
        clear_on(s, first, high_first),
        clear_on(s, second, high_second),
        slow_for(s, first),
        slow_for(s, second),
        first.in_band(s.advanced().pos),
        second.in_band(s.advanced().resolved(first).pos),
    ensures
        clear_on(s.ticked(seq![first, second]), first, high_first),
        clear_on(s.ticked(seq![first, second]), second, high_second),
        slow_for(s.ticked(seq![first, second]), first),
        slow_for(s.ticked(seq![first, second]), second),
{
    let t = s.advanced();
    let walls = seq![first, second];
    let one = seq![first];
    assert(walls.drop_last() =~= one);
    assert(one.drop_last() =~= Seq::<Wall>::empty());
    assert(t.resolved_all(one.drop_last()) == t);
    assert(one.last() == first);
    assert(t.resolved_all(one) == t.resolved(first));
    assert(walls.last() == second);
    let u = t.resolved(first);
    lemma_wall_turns_ball_back(t, first, high_first);
    lemma_wall_turns_ball_back(u, second, high_second);
    let v = u.resolved(second);
    assert(t.resolved_all(walls) == v);
    lemma_slowed(v.vel.x);
    lemma_slowed(v.vel.y);
}

} // verus!
