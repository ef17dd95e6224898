use hole::ball::Ball;
use hole::constants::{BALL_RADIUS, CUP_RADIUS, SCREEN_SIZE};
use hole::fixed::{isqrt, Vec2};
use hole::heat::{heat_color, heat_hue};
use hole::hole::Hole;
use hole::sim::{is_holed, putt_outcome, simulate_putt};
use hole::sweep::{band_count, band_height, grid_cols, grid_lines, merge_bands, sweep, sweep_band};

const TEST_HOLE: &str = "ball 100 400\ncup 100 300\nwall 50 180 160 180\nwall 160 180 160 400\n";

#[test]
fn straight_shot_at_the_cup_rolls_over_it() {
    // Ball at (300, 500), cup of radius 20 at (300, 100), no walls, aimed
    // exactly at the cup: a putt rolls 1.6 times as far as it is aimed, so
    // this one crosses the cup at about 12 pixels a tick, too fast to drop.
    let h = Hole::new();
    assert_eq!(h.cup.radius, 20_000_000);
    let rest = simulate_putt(&h, 300_000_000, 100_000_000);
    assert_eq!(rest, Vec2::new(300_000_000, -135_102_373));
    assert_eq!(putt_outcome(&h, 300_000_000, 100_000_000), 235_102_373);
}

#[test]
fn shot_that_dies_at_the_cup_is_holed() {
    let h = Hole::new();
    assert_eq!(simulate_putt(&h, 300_000_000, 250_000_000), Vec2::new(300_000_000, 100_000_000));
    assert_eq!(putt_outcome(&h, 300_000_000, 250_000_000), 0);
    assert_eq!(putt_outcome(&h, 300_000_000, 245_000_000), 0);
}

#[test]
fn putt_aimed_at_the_tee_stays_there() {
    let h = Hole::new();
    assert_eq!(simulate_putt(&h, 300_000_000, 500_000_000), Vec2::new(300_000_000, 500_000_000));
    assert_eq!(putt_outcome(&h, 300_000_000, 500_000_000), 400_000_000);
}

#[test]
fn putt_does_not_move_the_hole() {
    let h = Hole::from_file(TEST_HOLE).unwrap();
    let _ = simulate_putt(&h, 160_000_000, 180_000_000);
    assert_eq!(h.ball, Ball::new(100_000_000, 400_000_000, BALL_RADIUS));
    assert_eq!(
        simulate_putt(&h, 160_000_000, 180_000_000),
        simulate_putt(&h, 160_000_000, 180_000_000)
    );
}

#[test]
fn holed_needs_the_cup_and_a_slow_ball() {
    let cup = Ball::new(300_000_000, 100_000_000, CUP_RADIUS);
    let mut b = Ball::new(300_000_000, 119_999_999, BALL_RADIUS);
    assert!(is_holed(&b, &cup));
    b.pos = Vec2::new(300_000_000, 120_000_000);
    assert!(!is_holed(&b, &cup));
    b.pos = Vec2::new(312_000_000, 116_000_000);
    assert!(!is_holed(&b, &cup));
    b.pos = Vec2::new(312_000_000, 115_999_999);
    assert!(is_holed(&b, &cup));
    b.vel = Vec2::new(0, 3_000_000);
    assert!(!is_holed(&b, &cup));
    b.vel = Vec2::new(0, -2_999_999);
    assert!(is_holed(&b, &cup));
}

#[test]
fn isqrt_rounds_down() {
    assert_eq!(isqrt(0), 0);
    assert_eq!(isqrt(1), 1);
    assert_eq!(isqrt(3), 1);
    assert_eq!(isqrt(4), 2);
    assert_eq!(isqrt(24), 4);
    assert_eq!(isqrt(25), 5);
    assert_eq!(isqrt(1_000_000_000_000), 1_000_000);
    assert_eq!(isqrt(999_999_999_999), 999_999);
    assert_eq!(isqrt(u128::MAX), u64::MAX);
}

#[test]
fn distance_is_euclidean_rounded_down() {
    let a = Vec2::new(0, 0);
    assert_eq!(a.distance(&Vec2::new(3_000, 4_000)), 5_000);
    assert_eq!(a.distance(&Vec2::new(-3_000, 4_000)), 5_000);
    assert_eq!(a.distance(&Vec2::new(1, 1)), 1);
    assert_eq!(a.distance(&a), 0);
    assert_eq!(a.distance_squared(&Vec2::new(-3, 4)), 25);
    assert!(Vec2::new(1_000_000_000_000_000, -1_000_000_000_000_000).is_in_field());
    assert!(!Vec2::new(1_000_000_000_000_001, 0).is_in_field());
    assert!(!Vec2::new(0, -1_000_000_000_000_001).is_in_field());
}

#[test]
fn one_band_for_every_hundred_pixels() {
    assert_eq!(band_count(SCREEN_SIZE), 6);
    assert_eq!(band_height(SCREEN_SIZE), 100_000_000);
    assert_eq!(band_count(99_999_999), 1);
    assert_eq!(band_height(99_999_999), 99_999_999);
    assert_eq!(band_count(1), 1);
    assert_eq!(band_count(199_999_999), 1);
    assert_eq!(band_count(200_000_000), 2);
    assert_eq!(band_count(650_000_000), 6);
    assert_eq!(band_height(650_000_000), 108_333_333);
}

#[test]
fn grid_lines_are_counted_below_the_extent() {
    assert_eq!(grid_lines(0, 10), 0);
    assert_eq!(grid_lines(1, 10), 1);
    assert_eq!(grid_lines(10, 10), 1);
    assert_eq!(grid_lines(11, 10), 2);
    assert_eq!(grid_cols(SCREEN_SIZE, 100_000_000), 6);
    assert_eq!(grid_cols(SCREEN_SIZE, 25_800_000), 24);
    assert_eq!(grid_cols(SCREEN_SIZE, 1_000_000_000), 1);
}

fn assert_row_major(h: &Hole, size: i64, step: i64) -> Vec<i64> {
    let out = sweep(h, size, step);
    let n = grid_cols(size, step) as usize;
    assert_eq!(out.len(), n * n);
    for index in 0..out.len() {
        let row = (index / n) as i64;
        let col = (index % n) as i64;
        assert_eq!(out[index], putt_outcome(h, col * step, row * step));
    }
    out
}

#[test]
fn sweep_is_row_major_over_the_grid() {
    let h = Hole::from_file(TEST_HOLE).unwrap();
    let out = assert_row_major(&h, SCREEN_SIZE, 100_000_000);
    let expected: Vec<i64> = vec![
        346_363_572, 309_691_450, 314_864_993, 379_642_567, 655_264_966, 748_032_298,
        405_815_593, 158_027_212, 167_939_780, 270_540_725, 532_602_096, 643_307_964,
        265_297_570, 0, 57_137_546, 307_479_358, 435_156_865, 565_280_144, 164_608_558, 0,
        79_172_075, 226_399_496, 382_197_166, 525_599_484, 184_550_616, 100_000_000,
        115_026_823, 241_287_555, 391_200_238, 532_182_084, 298_562_795, 255_109_413,
        298_562_795, 405_525_148, 539_174_192, 684_423_726,
    ];
    assert_eq!(out, expected);
}

#[test]
fn sweep_is_row_major_whatever_the_step() {
    // Steps that do not divide the band height: the rows stay the rows of
    // the grid, dealt out to the bands they lie in.
    let h = Hole::new();
    let out = assert_row_major(&h, SCREEN_SIZE, 150_000_000);
    let expected: Vec<i64> = vec![
        617_789_430, 459_699_247, 395_013_650, 459_699_247, 499_653_436, 281_625_946,
        155_001_804, 281_625_946, 482_508_012, 249_947_194, 84_770_190, 249_947_194,
        575_412_252, 400_947_475, 324_763_396, 400_947_475,
    ];
    assert_eq!(out, expected);
    assert_eq!(assert_row_major(&h, SCREEN_SIZE, 130_000_000).len(), 25);
    // A surface that the bands do not tile: the last band runs to its end.
    assert_eq!(assert_row_major(&h, 650_000_000, 100_000_000).len(), 49);
}

#[test]
fn sweep_with_a_step_of_twenty_five_point_eight_pixels() {
    let h = Hole::from_file("ball 0 100\ncup 0 300\n").unwrap();
    let step = 25_800_000;
    let out = sweep(&h, SCREEN_SIZE, step);
    assert_eq!(out.len(), 24 * 24);
    // Row 4 of the grid lies at y = 103.2 pixels.
    assert_eq!(out[96], putt_outcome(&h, 0, 103_200_000));
    assert_eq!(out[96], 199_744_000);
}

#[test]
fn sweep_is_its_bands_in_order() {
    let h = Hole::from_file(TEST_HOLE).unwrap();
    let step = 30_000_000;
    let mut parts: Vec<Vec<i64>> = Vec::new();
    // Played out of order, joined in order.
    for k in [5, 3, 1, 0, 2, 4] {
        parts.push(sweep_band(&h, SCREEN_SIZE, step, k));
    }
    let ordered: Vec<Vec<i64>> = vec![
        parts[3].clone(),
        parts[2].clone(),
        parts[4].clone(),
        parts[1].clone(),
        parts[5].clone(),
        parts[0].clone(),
    ];
    // Rows 0 to 90, 120 to 180, 210 to 270, 300 to 390, 420 to 480, 510 to 570.
    let rows: Vec<usize> = ordered.iter().map(|part| part.len() / 20).collect();
    assert_eq!(rows, vec![4, 3, 3, 4, 3, 3]);
    assert_eq!(merge_bands(&ordered), sweep(&h, SCREEN_SIZE, step));
    assert_eq!(ordered[1][21], putt_outcome(&h, 30_000_000, 150_000_000));
}

#[test]
fn a_step_wider_than_the_surface_gives_one_putt() {
    let h = Hole::new();
    let out = sweep(&h, SCREEN_SIZE, 1_000_000_000);
    assert_eq!(out, vec![617_789_430]);
    let small = sweep(&h, 50_000_000, 30_000_000);
    assert_eq!(small, vec![617_789_430, 581_703_780, 588_288_032, 550_271_129]);
}

#[test]
fn merge_bands_keeps_every_part_in_place() {
    let parts: Vec<Vec<i64>> = vec![vec![1, 2], vec![], vec![3], vec![4, 5, 6]];
    assert_eq!(merge_bands(&parts), vec![1, 2, 3, 4, 5, 6]);
    assert_eq!(merge_bands(&Vec::new()), Vec::<i64>::new());
}

#[test]
fn heat_hue_turns_with_the_distance() {
    assert_eq!(heat_hue(0), 0);
    assert_eq!(heat_hue(1_999), 0);
    assert_eq!(heat_hue(2_000), 1);
    assert_eq!(heat_hue(235_102_373), 117_551);
    assert_eq!(heat_hue(599_999_999), 299_999);
    assert_eq!(heat_hue(600_000_000), 300_000);
    assert_eq!(heat_hue(i64::MAX), 300_000);
}

#[test]
fn heat_color_is_white_in_the_cup_and_a_hue_elsewhere() {
    assert_eq!(heat_color(0), (255, 255, 255));
    // Hue 0: red.
    assert_eq!(heat_color(1), (255, 0, 0));
    // Hue 120: green.
    assert_eq!(heat_color(240_000_000), (0, 255, 0));
    // Hue 150: between green and cyan.
    assert_eq!(heat_color(300_000_000), (0, 255, 127));
    // Hue 240: blue.
    assert_eq!(heat_color(480_000_000), (0, 0, 255));
    // From the farthest distance on, the last hue.
    assert_eq!(heat_color(600_000_000), heat_color(i64::MAX));
    let far = heat_color(600_000_000);
    assert!(far.0 >= 254 && far.1 == 0 && far.2 >= 254);
}
