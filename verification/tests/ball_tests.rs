use hole::ball::Ball;
use hole::constants::{BALL_RADIUS, NO_CONTACT};
use hole::fixed::Vec2;
use hole::wall::Wall;

/// Pixels in units.
const PX: i64 = 1_000_000;

fn at(x: i64, y: i64) -> Vec2 {
    Vec2::new(x * PX, y * PX)
}

fn rolling(x: i64, y: i64, vx: i64, vy: i64) -> Ball {
    let mut b = Ball::new(x, y, BALL_RADIUS);
    b.vel = Vec2::new(vx, vy);
    b
}

fn floor_wall() -> Wall {
    Wall::new(at(0, 150), at(200, 150))
}

#[test]
fn new_ball_rests_at_its_start() {
    let mut b = Ball::new(3 * PX, -4 * PX, 8 * PX);
    assert_eq!(b.pos, at(3, -4));
    assert_eq!(b.starting_pos, at(3, -4));
    assert_eq!(b.vel, Vec2::new(0, 0));
    assert_eq!(b.radius, 8 * PX);
    assert!(!b.is_moving());
    b.stop();
    assert!(!b.is_moving());
}

#[test]
fn hit_takes_two_twenty_fifths_of_the_aim_vector() {
    let mut b = Ball::new(300 * PX, 500 * PX, BALL_RADIUS);
    b.hit(300 * PX, 100 * PX);
    assert_eq!(b.vel, at(0, -32));
    assert_eq!(b.pos, at(300, 500));
    assert!(b.is_moving());

    let mut b = Ball::new(100 * PX, 400 * PX, BALL_RADIUS);
    b.hit(160 * PX, 180 * PX);
    assert_eq!(b.vel, Vec2::new(4_800_000, -17_600_000));
}

#[test]
fn hit_rounds_toward_zero() {
    let mut b = Ball::new(0, 0, BALL_RADIUS);
    b.hit(12, -12);
    assert_eq!(b.vel, Vec2::new(0, 0));
    b.hit(13, -13);
    assert_eq!(b.vel, Vec2::new(1, -1));
    b.hit(24, -24);
    assert_eq!(b.vel, Vec2::new(1, -1));
    b.hit(25, -25);
    assert_eq!(b.vel, Vec2::new(2, -2));
}

#[test]
fn hit_at_own_position_leaves_the_ball_at_rest() {
    let mut b = Ball::new(5 * PX, 5 * PX, BALL_RADIUS);
    b.hit(5 * PX, 5 * PX);
    assert!(!b.is_moving());
}

#[test]
fn stop_and_reset() {
    let mut b = Ball::new(10 * PX, 20 * PX, BALL_RADIUS);
    b.hit(300 * PX, 100 * PX);
    b.move_ball_and_collide(&Vec::new());
    assert!(b.is_moving());
    assert_eq!(b.pos, Vec2::new(33_200_000, 26_400_000));
    b.stop();
    assert!(!b.is_moving());
    assert_eq!(b.pos, Vec2::new(33_200_000, 26_400_000));
    b.hit(300 * PX, 100 * PX);
    b.reset();
    assert_eq!(b, Ball::new(10 * PX, 20 * PX, BALL_RADIUS));
}

#[test]
fn falling_speed_is_three_pixels_a_tick() {
    assert!(rolling(0, 0, 0, 0).is_able_to_fall_in_hole());
    assert!(rolling(0, 0, 2_999_999, 0).is_able_to_fall_in_hole());
    assert!(!rolling(0, 0, 3_000_000, 0).is_able_to_fall_in_hole());
    assert!(!rolling(0, 0, 0, -3_000_000).is_able_to_fall_in_hole());
    assert!(rolling(0, 0, 2_121_320, -2_121_320).is_able_to_fall_in_hole());
    assert!(!rolling(0, 0, 2_121_321, -2_121_321).is_able_to_fall_in_hole());
    assert!(!rolling(0, 0, i64::MAX, i64::MIN).is_able_to_fall_in_hole());
}

#[test]
fn tick_moves_then_keeps_nineteen_twentieths() {
    let mut b = Ball::new(300 * PX, 500 * PX, BALL_RADIUS);
    b.hit(300 * PX, 100 * PX);
    b.move_ball_and_collide(&Vec::new());
    assert_eq!(b.pos, at(300, 468));
    assert_eq!(b.vel, Vec2::new(0, -30_400_000));
    assert_eq!(b.starting_pos, at(300, 500));
    assert_eq!(b.radius, BALL_RADIUS);
}

#[test]
fn friction_rounds_toward_zero_and_stops_under_the_threshold() {
    let mut b = rolling(0, 0, -30_401_001, 262_000);
    b.move_ball_and_collide(&Vec::new());
    assert_eq!(b.pos, Vec2::new(-30_401_001, 262_000));
    assert_eq!(b.vel, Vec2::new(-28_880_950, 0));

    let mut b = rolling(0, 0, 263_157, -263_158);
    b.move_ball_and_collide(&Vec::new());
    assert_eq!(b.vel, Vec2::new(0, -250_000));
}

#[test]
fn a_putt_of_a_hundred_pixels_rolls_sixty_eight_ticks() {
    let mut b = Ball::new(0, 0, 5 * PX);
    b.hit(100 * PX, 0);
    let mut ticks = 0;
    while b.is_moving() {
        assert!(ticks < 68);
        b.move_ball_and_collide(&Vec::new());
        ticks += 1;
    }
    assert_eq!(ticks, 68);
    assert_eq!(b.pos, Vec2::new(155_109_413, 0));
    b.move_ball_and_collide(&Vec::new());
    assert!(!b.is_moving());
    assert_eq!(b.pos, Vec2::new(155_109_413, 0));
}

#[test]
fn tick_leaves_a_resting_ball_alone() {
    let mut b = Ball::new(100 * PX, 155 * PX, BALL_RADIUS);
    let before = b;
    b.move_ball_and_collide(&vec![floor_wall()]);
    assert_eq!(b, before);
}

#[test]
fn horizontal_wall_turns_a_ball_from_below() {
    let walls = vec![floor_wall()];
    let mut b = Ball::new(100 * PX, 300 * PX, BALL_RADIUS);
    b.hit(100 * PX, 100 * PX);
    assert_eq!(b.vel, at(0, -16));
    let mut turned = false;
    while b.is_moving() {
        let before = b.vel.y;
        b.move_ball_and_collide(&walls);
        if before < 0 && b.vel.y > 0 {
            turned = true;
            // Put down with its edge on the lower face of the body.
            assert_eq!(b.pos.y, 160 * PX);
            assert_eq!(b.vel.y, 9_100_799);
        }
        // Never inside the body, which spans 148 to 152 pixels.
        assert!(b.pos.y >= 152 * PX + BALL_RADIUS);
    }
    assert!(turned);
    assert_eq!(b.pos, Vec2::new(100 * PX, 337_245_845));
}

#[test]
fn horizontal_wall_turns_a_ball_from_above() {
    let walls = vec![floor_wall()];
    let mut b = rolling(100 * PX, 100 * PX, 0, 16 * PX);
    b.move_ball_and_collide(&walls);
    assert_eq!((b.pos, b.vel), (at(100, 116), Vec2::new(0, 15_200_000)));
    b.move_ball_and_collide(&walls);
    assert_eq!((b.pos, b.vel), (Vec2::new(100 * PX, 131_200_000), Vec2::new(0, 14_440_000)));
    b.move_ball_and_collide(&walls);
    // Thrown back, and put down with its edge on the upper face of the body:
    // half a thickness and a radius above the wall's line.
    assert_eq!((b.pos, b.vel), (at(100, 140), Vec2::new(0, -13_718_000)));
    assert_eq!(b.pos.y, 150 * PX - 2 * PX - BALL_RADIUS);
}

#[test]
fn vertical_wall_turns_the_x_velocity() {
    let walls = vec![Wall::new(at(200, 0), at(200, 300))];
    let mut b = Ball::new(100 * PX, 100 * PX, BALL_RADIUS);
    b.hit(300 * PX, 100 * PX);
    for _ in 0..5 {
        b.move_ball_and_collide(&walls);
    }
    assert_eq!((b.pos, b.vel), (Vec2::new(172_390_100, 100 * PX), Vec2::new(12_380_495, 0)));
    b.move_ball_and_collide(&walls);
    assert_eq!((b.pos, b.vel), (at(190, 100), Vec2::new(-11_761_470, 0)));
    b.move_ball_and_collide(&walls);
    assert_eq!((b.pos, b.vel), (Vec2::new(178_238_530, 100 * PX), Vec2::new(-11_173_396, 0)));
}

#[test]
fn ball_of_radius_five_is_put_down_seven_pixels_from_the_line() {
    let walls = vec![Wall::new(at(150, 0), at(150, 200))];
    let mut b = Ball::new(133 * PX, 100 * PX, 5 * PX);
    b.hit(233 * PX, 100 * PX);
    assert_eq!(b.vel, at(8, 0));
    b.move_ball_and_collide(&walls);
    assert_eq!(b.pos, at(143, 100));
    assert_eq!(b.vel, Vec2::new(-7_600_000, 0));
    // And from the other side.
    let mut b = Ball::new(167 * PX, 100 * PX, 5 * PX);
    b.hit(67 * PX, 100 * PX);
    b.move_ball_and_collide(&walls);
    assert_eq!(b.pos, at(157, 100));
    assert_eq!(b.vel, Vec2::new(7_600_000, 0));
}

#[test]
fn half_step_ahead_is_tested_too() {
    let walls = vec![floor_wall()];
    // After the move the ball is 12 pixels from the face, more than its
    // radius; half a step further on it would be 4 pixels from it.
    let mut b = rolling(100 * PX, 180 * PX, 0, -16 * PX);
    assert_eq!(walls[0].distance_to_wall(at(100, 164)), 12 * PX);
    assert_eq!(walls[0].distance_to_wall(at(100, 156)), 4 * PX);
    b.move_ball_and_collide(&walls);
    assert_eq!((b.pos, b.vel), (at(100, 160), Vec2::new(0, 15_200_000)));

    let mut free = rolling(100 * PX, 180 * PX, 0, -16 * PX);
    free.move_ball_and_collide(&Vec::new());
    assert_eq!((free.pos, free.vel), (at(100, 164), Vec2::new(0, -15_200_000)));
}

#[test]
fn a_very_fast_ball_can_still_jump_a_wall() {
    let walls = vec![floor_wall()];
    let mut b = rolling(100 * PX, 180 * PX, 0, -45 * PX);
    b.move_ball_and_collide(&walls);
    assert_eq!((b.pos, b.vel), (at(100, 135), Vec2::new(0, -42_750_000)));
}

#[test]
fn slanted_wall_lets_the_ball_through() {
    let walls = vec![Wall::new(at(0, 0), at(200, 200))];
    assert_eq!(walls[0].distance_to_wall(at(100, 104)), NO_CONTACT);
    let mut b = rolling(100 * PX, 120 * PX, 0, -16 * PX);
    b.move_ball_and_collide(&walls);
    assert_eq!((b.pos, b.vel), (at(100, 104), Vec2::new(0, -15_200_000)));
}

#[test]
fn a_ball_sliding_along_a_wall_is_not_moved_off_it() {
    let walls = vec![floor_wall()];
    let mut b = rolling(100 * PX, 155 * PX, 5 * PX, 0);
    b.move_ball_and_collide(&walls);
    assert_eq!((b.pos, b.vel), (at(105, 155), Vec2::new(4_750_000, 0)));
}

#[test]
fn corner_turns_the_ball_on_both_axes() {
    let walls = vec![Wall::new(at(50, 180), at(160, 180)), Wall::new(at(160, 180), at(160, 400))];
    let mut b = Ball::new(100 * PX, 400 * PX, BALL_RADIUS);
    b.hit(160 * PX, 180 * PX);
    for _ in 0..13 {
        b.move_ball_and_collide(&walls);
    }
    assert_eq!(
        (b.pos, b.vel),
        (Vec2::new(146_719_151, 228_696_427), Vec2::new(2_464_040, -9_034_818))
    );
    b.move_ball_and_collide(&walls);
    assert_eq!(
        (b.pos, b.vel),
        (Vec2::new(150 * PX, 219_661_609), Vec2::new(-2_340_838, -8_583_077))
    );
    while b.is_moving() {
        b.move_ball_and_collide(&walls);
        assert!(b.pos.x <= 158 * PX - BALL_RADIUS);
        assert!(b.pos.y >= 182 * PX + BALL_RADIUS);
    }
}

#[test]
fn speed_never_grows_from_tick_to_tick() {
    let walls = vec![Wall::new(at(50, 180), at(160, 180)), Wall::new(at(160, 180), at(160, 400))];
    let mut b = Ball::new(100 * PX, 400 * PX, BALL_RADIUS);
    b.hit(160 * PX, 180 * PX);
    while b.is_moving() {
        let (vx, vy) = (b.vel.x.abs(), b.vel.y.abs());
        b.move_ball_and_collide(&walls);
        assert!(b.vel.x.abs() < vx || (vx == 0 && b.vel.x == 0));
        assert!(b.vel.y.abs() < vy || (vy == 0 && b.vel.y == 0));
    }
}

#[test]
fn every_roll_ends_within_its_pace() {
    let walls = vec![floor_wall()];
    let mut b = Ball::new(100 * PX, 300 * PX, BALL_RADIUS);
    b.hit(100 * PX, 100 * PX);
    let pace = b.vel.x.abs() + b.vel.y.abs();
    let mut ticks: i64 = 0;
    while b.is_moving() {
        b.move_ball_and_collide(&walls);
        ticks += 1;
    }
    assert_eq!(ticks, 82);
    assert!(ticks <= pace);
}

#[test]
fn ball_to_string_is_its_start() {
    let mut b = Ball::new(100 * PX, 400_500_000, BALL_RADIUS);
    assert_eq!(b.to_string(), "100 400.5");
    b.hit(0, 0);
    b.move_ball_and_collide(&Vec::new());
    assert_eq!(b.to_string(), "100 400.5");
    assert_eq!(Ball::new(-1, 0, 0).to_string(), "-0.000001 0");
}

#[test]
fn a_slow_ball_stays_in_the_corner() {
    // No faster across either wall than half a thickness and a radius, 10
    // pixels, a tick: at every tick the ball lies clear of both walls.
    let walls = vec![Wall::new(at(50, 180), at(160, 180)), Wall::new(at(160, 180), at(160, 400))];
    let mut b = Ball::new(110 * PX, 230 * PX, BALL_RADIUS);
    b.hit(160 * PX, 180 * PX);
    assert_eq!(b.vel, at(4, -4));
    while b.is_moving() {
        b.move_ball_and_collide(&walls);
        assert!(b.pos.x <= 150 * PX);
        assert!(b.pos.y >= 190 * PX);
    }
    let mut free = Ball::new(110 * PX, 230 * PX, BALL_RADIUS);
    free.hit(160 * PX, 180 * PX);
    while free.is_moving() {
        free.move_ball_and_collide(&Vec::new());
    }
    assert!(free.pos.x > 160 * PX && free.pos.y < 180 * PX);
}
