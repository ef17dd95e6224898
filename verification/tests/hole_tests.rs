use hole::ball::Ball;
use hole::constants::{BALL_RADIUS, CUP_RADIUS};
use hole::fixed::Vec2;
use hole::hole::{read_entry, Entry, Hole, LayoutError};
use hole::wall::{Wall, WallType};

/// A horizontal and a vertical wall that meet in a corner at (160, 180),
/// the ball below the horizontal one and left of the vertical one.
const TEST_HOLE: &str = "ball 100 400\ncup 100 300\nwall 50 180 160 180\nwall 160 180 160 400\n";

#[test]
fn test_wall_collision_on_100_180() {
    let mut h = Hole::from_file(TEST_HOLE).unwrap();

    h.ball.hit(100_000_000, 180_000_000);

    while h.ball.is_moving() {
        h.ball.move_ball_and_collide(&h.walls);
    }

    assert!(
        h.ball.pos.distance(&h.cup.pos) < 180_000_000,
        "Ball did not collide with wall properly! Distance={}",
        h.ball.pos.distance(&h.cup.pos)
    );
}

#[test]
fn test_wall_collision_on_corner() {
    let mut h = Hole::from_file(TEST_HOLE).unwrap();

    h.ball.hit(160_000_000, 180_000_000);

    let mut counter: usize = 0;
    while h.ball.is_moving() {
        counter += 1;
        println!("Frame {}", counter);
        h.ball.move_ball_and_collide(&h.walls);
    }

    assert!(
        h.ball.pos.distance(&h.cup.pos) < 200_000_000,
        "Ball did not collide with wall properly! Distance={}",
        h.ball.pos.distance(&h.cup.pos)
    );
}

#[test]
fn test_wall_phasing() {
    let mut h = Hole::from_file(TEST_HOLE).unwrap();

    h.ball.hit(85_000_000, 10_000_000);

    let mut counter: usize = 0;
    while h.ball.is_moving() {
        counter += 1;
        println!("Frame {}", counter);
        h.ball.move_ball_and_collide(&h.walls);
    }

    assert!(
        h.ball.pos.distance(&h.cup.pos) < 400_000_000,
        "Ball did not collide with wall properly! Distance={}",
        h.ball.pos.distance(&h.cup.pos)
    );
}

#[test]
fn corner_layout_rest_positions_are_exact() {
    let mut h = Hole::from_file(TEST_HOLE).unwrap();
    h.ball.hit(160_000_000, 180_000_000);
    let mut ticks = 0;
    while h.ball.is_moving() {
        h.ball.move_ball_and_collide(&h.walls);
        ticks += 1;
    }
    assert_eq!(h.ball.pos, Vec2::new(108_083_984, 324_834_655));
    assert_eq!(ticks, 83);
    assert_eq!(h.ball.pos.distance(&h.cup.pos), 26_117_252);

    h.ball.reset();
    h.ball.hit(85_000_000, 10_000_000);
    while h.ball.is_moving() {
        h.ball.move_ball_and_collide(&h.walls);
    }
    assert_eq!(h.ball.pos, Vec2::new(80_893_900, 599_199_183));
}

#[test]
fn without_the_walls_the_same_putts_run_past() {
    let mut h = Hole::from_file("ball 100 400\ncup 100 300\n").unwrap();
    h.ball.hit(100_000_000, 180_000_000);
    while h.ball.is_moving() {
        h.ball.move_ball_and_collide(&h.walls);
    }
    assert_eq!(h.ball.pos, Vec2::new(100_000_000, 52_984_814));
    assert_eq!(h.ball.pos.distance(&h.cup.pos), 247_015_186);
}

#[test]
fn new_hole_is_the_empty_default() {
    let h = Hole::new();
    assert_eq!(h.ball, Ball::new(300_000_000, 500_000_000, BALL_RADIUS));
    assert_eq!(h.cup, Ball::new(300_000_000, 100_000_000, CUP_RADIUS));
    assert!(h.walls.is_empty());
}

#[test]
fn from_file_reads_ball_cup_and_walls_in_order() {
    let h = Hole::from_file(TEST_HOLE).unwrap();
    assert_eq!(h.ball, Ball::new(100_000_000, 400_000_000, BALL_RADIUS));
    assert_eq!(h.cup, Ball::new(100_000_000, 300_000_000, CUP_RADIUS));
    assert_eq!(h.walls.len(), 2);
    assert_eq!(h.walls[0], Wall::new(Vec2::new(50_000_000, 180_000_000), Vec2::new(160_000_000, 180_000_000)));
    assert_eq!(h.walls[1], Wall::new(Vec2::new(160_000_000, 180_000_000), Vec2::new(160_000_000, 400_000_000)));
    assert_eq!(h.walls[0].wall_type, WallType::HORIZONTAL);
    assert_eq!(h.walls[1].wall_type, WallType::VERTICAL);
}

#[test]
fn from_file_trims_skips_and_lets_the_last_line_win() {
    let text = "\n  ball 1 2  \r\n# a remark\n\tcup -3.5 4.25\n\u{a0}ball 10.125 +20\u{3000}\n\n";
    let h = Hole::from_file(text).unwrap();
    assert_eq!(h.ball.pos, Vec2::new(10_125_000, 20_000_000));
    assert_eq!(h.ball.starting_pos, Vec2::new(10_125_000, 20_000_000));
    assert_eq!(h.cup.pos, Vec2::new(-3_500_000, 4_250_000));
    assert!(h.walls.is_empty());
}

#[test]
fn from_file_keeps_slanted_walls() {
    let h = Hole::from_file("ball 1 1\ncup 2 2\nwall 0 0 10 10\n").unwrap();
    assert_eq!(h.walls.len(), 1);
    assert_eq!(h.walls[0].wall_type, WallType::SLANTED);
    assert_eq!(h.walls[0].length, 0);
}

#[test]
fn from_file_names_what_is_missing() {
    assert_eq!(Hole::from_file("").err(), Some(LayoutError::MissingBall));
    assert_eq!(Hole::from_file("cup 1 2\n").err(), Some(LayoutError::MissingBall));
    assert_eq!(Hole::from_file("ball 1 2\n").err(), Some(LayoutError::MissingCup));
    assert_eq!(Hole::from_file("wall 1 2 3 4\n").err(), Some(LayoutError::MissingBall));
}

#[test]
fn from_file_names_the_wrong_line() {
    assert_eq!(
        Hole::from_file("ball 1 2\ncup 1\n").err(),
        Some(LayoutError::InvalidCup { line: 1 })
    );
    assert_eq!(Hole::from_file("ball 1 2 3\n").err(), Some(LayoutError::InvalidBall { line: 0 }));
    assert_eq!(Hole::from_file("ball 1  2\n").err(), Some(LayoutError::InvalidBall { line: 0 }));
    assert_eq!(Hole::from_file("ball x 2\n").err(), Some(LayoutError::InvalidBall { line: 0 }));
    assert_eq!(
        Hole::from_file("ball 1 2\ncup 3 4\n\nwall 1 2 3\n").err(),
        Some(LayoutError::InvalidWall { line: 3 })
    );
    assert_eq!(
        Hole::from_file("ball inf 2\ncup 3 4\n").err(),
        Some(LayoutError::InvalidBall { line: 0 })
    );
    assert_eq!(
        Hole::from_file("ball 1 2\ncup 3 4\nwall 1 2 3 1000000001\n").err(),
        Some(LayoutError::InvalidWall { line: 2 })
    );
    // The first wrong line is the one that is named.
    assert_eq!(
        Hole::from_file("cup\nball\n").err(),
        Some(LayoutError::InvalidCup { line: 0 })
    );
}

#[test]
fn a_line_is_judged_by_the_word_it_starts_with() {
    let line: Vec<char> = "ballast 1 2".chars().collect();
    assert_eq!(read_entry(&line), Entry::Ball(Vec2::new(1_000_000, 2_000_000)));
    let line: Vec<char> = "bal 1 2".chars().collect();
    assert_eq!(read_entry(&line), Entry::Skip);
    let line: Vec<char> = "   ".chars().collect();
    assert_eq!(read_entry(&line), Entry::Skip);
    let line: Vec<char> = "wall 1 2 3 4 ".chars().collect();
    assert_eq!(
        read_entry(&line),
        Entry::Wall(Vec2::new(1_000_000, 2_000_000), Vec2::new(3_000_000, 4_000_000))
    );
    let line: Vec<char> = "cup 1,5 2".chars().collect();
    assert_eq!(read_entry(&line), Entry::BadCup);
}

#[test]
fn layout_error_to_string_names_line_and_field() {
    assert_eq!(LayoutError::InvalidBall { line: 0 }.to_string(), "line 0: expected 'ball x y'");
    assert_eq!(LayoutError::InvalidCup { line: 12 }.to_string(), "line 12: expected 'cup x y'");
    assert_eq!(
        LayoutError::InvalidWall { line: 305 }.to_string(),
        "line 305: expected 'wall x1 y1 x2 y2'"
    );
    assert_eq!(LayoutError::MissingBall.to_string(), "ball not defined in file!");
    assert_eq!(LayoutError::MissingCup.to_string(), "cup not defined in file!");
    assert_eq!(LayoutError::UnwritableBall.to_string(), "ball outside the field");
    assert_eq!(LayoutError::UnwritableCup.to_string(), "cup outside the field");
    assert_eq!(
        LayoutError::UnwritableWall { wall: 7 }.to_string(),
        "wall 7 outside the field"
    );
}

#[test]
fn save_to_file_writes_ball_cup_and_walls() {
    let h = Hole::from_file(TEST_HOLE).unwrap();
    assert_eq!(
        h.save_to_file().unwrap(),
        "ball 100 400\ncup 100 300\nwall 50 178 160 178\nwall 158 180 158 400\n"
    );
    let empty = Hole::new();
    assert_eq!(empty.save_to_file().unwrap(), "ball 300 500\ncup 300 100\n");
}

#[test]
fn save_to_file_writes_an_empty_line_for_a_slanted_wall() {
    let h = Hole::from_file("ball 1.5 -2\ncup 0.000001 0\nwall 0 0 10 10\n").unwrap();
    assert_eq!(h.save_to_file().unwrap(), "ball 1.5 -2\ncup 0.000001 0\n\n");
}

#[test]
fn saved_ball_and_cup_read_back() {
    let h = Hole::from_file("ball 12.345 -0.5\ncup 600 0.25\n").unwrap();
    let again = Hole::from_file(&h.save_to_file().unwrap()).unwrap();
    assert_eq!(again.ball, h.ball);
    assert_eq!(again.cup, h.cup);
}

#[test]
fn saved_walls_read_back_from_the_corner_of_their_bodies() {
    let h = Hole::from_file(TEST_HOLE).unwrap();
    let again = Hole::from_file(&h.save_to_file().unwrap()).unwrap();
    assert_eq!(again.walls.len(), 2);
    assert_eq!(
        again.walls[0],
        Wall::new(Vec2::new(50_000_000, 178_000_000), Vec2::new(160_000_000, 178_000_000))
    );
    assert_eq!(
        again.walls[1],
        Wall::new(Vec2::new(158_000_000, 180_000_000), Vec2::new(158_000_000, 400_000_000))
    );
    // A slanted wall is written as an empty line and is gone when read.
    let s = Hole::from_file("ball 1 1\ncup 2 2\nwall 0 0 10 10\nwall 0 5 9 5\n").unwrap();
    let again = Hole::from_file(&s.save_to_file().unwrap()).unwrap();
    assert_eq!(again.walls.len(), 1);
    assert_eq!(again.walls[0], Wall::new(Vec2::new(0, 3_000_000), Vec2::new(9_000_000, 3_000_000)));
}

#[test]
fn validity_is_checked_field_by_field() {
    let mut h = Hole::from_file(TEST_HOLE).unwrap();
    assert!(h.is_valid());
    assert!(h.ball.is_valid());
    assert!(h.walls[0].is_valid());
    h.walls[0].length = 1;
    assert!(!h.walls[0].is_valid());
    assert!(!h.is_valid());
    let mut h = Hole::new();
    h.cup.radius = 0;
    assert!(!h.cup.is_valid());
    assert!(!h.is_valid());
    let mut h = Hole::new();
    // From x = 300 pixels a ball may roll at up to a twentieth of what is
    // left of its reach.
    h.ball.vel = Vec2::new(4_999_999_985_000_001, 0);
    assert!(!h.ball.is_valid());
    h.ball.vel = Vec2::new(-4_999_999_985_000_000, 0);
    assert!(h.ball.is_valid());
    assert!(!Ball::new(0, 0, 0).is_valid());
}

#[test]
fn from_file_reads_numbers_with_exponents() {
    let h = Hole::from_file("ball 1e2 5\ncup 1 1\nwall 2.5E1 -1e-3 .5e+1 -1e-3\n").unwrap();
    assert_eq!(h.ball.pos, Vec2::new(100_000_000, 5_000_000));
    assert_eq!(h.cup.pos, Vec2::new(1_000_000, 1_000_000));
    assert_eq!(h.walls[0], Wall::new(Vec2::new(25_000_000, -1_000), Vec2::new(5_000_000, -1_000)));
}

#[test]
fn save_to_file_refuses_what_could_not_be_read_again() {
    // A wall on the lower edge of the field: the corner of its body, which
    // is what a layout file holds, lies two pixels outside.
    let text = "ball 1 1\ncup 2 2\nwall 0 5 9 5\nwall 0 -1e9 10 -1e9\nwall 0 -1e9 0 7\n";
    let h = Hole::from_file(text).unwrap();
    assert!(h.is_valid());
    assert_eq!(h.save_to_file().err(), Some(LayoutError::UnwritableWall { wall: 1 }));
    // Two pixels further in it can be saved, and read again.
    let h = Hole::from_file("ball 1 1\ncup 2 2\nwall 0 -999999998 10 -999999998\n").unwrap();
    let text = h.save_to_file().unwrap();
    assert_eq!(text, "ball 1 1\ncup 2 2\nwall 0 -1000000000 10 -1000000000\n");
    assert!(Hole::from_file(&text).is_ok());

    let mut h = Hole::new();
    h.ball.starting_pos = Vec2::new(1_000_000_000_000_001, 0);
    assert_eq!(h.save_to_file().err(), Some(LayoutError::UnwritableBall));
    let mut h = Hole::new();
    h.cup.starting_pos = Vec2::new(0, -1_000_000_000_000_001);
    assert_eq!(h.save_to_file().err(), Some(LayoutError::UnwritableCup));
    let mut h = Hole::from_file(TEST_HOLE).unwrap();
    h.walls[1].length = 5;
    assert_eq!(h.save_to_file().err(), Some(LayoutError::UnwritableWall { wall: 1 }));
}
