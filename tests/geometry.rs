use raycaster::geometry::{isqrt, march, Point, DIR_ONE, ONE, PRECISION};

fn bordered(n: usize) -> Vec<Vec<i32>> {
    (0..n)
        .map(|r| (0..n).map(|c| if r == 0 || c == 0 || r == n - 1 || c == n - 1 { 1 } else { 0 }).collect())
        .collect()
}

#[test]
fn isqrt_rounds_down() {
    assert_eq!(isqrt(0), 0);
    assert_eq!(isqrt(1), 1);
    assert_eq!(isqrt(15), 3);
    assert_eq!(isqrt(16), 4);
    assert_eq!(isqrt(17), 4);
    assert_eq!(isqrt(u64::MAX), 4294967295);
}

#[test]
fn march_along_x_stops_at_the_border() {
    let m = bordered(10);
    let hit = march(&m, 2 * ONE, 2 * ONE, DIR_ONE, 0);
    assert_eq!(hit.steps, 7 * PRECISION as u64);
    assert_eq!(hit.x, 9 * ONE);
    assert_eq!(hit.y, 2 * ONE);
    assert_eq!(hit.tile, 1);
}

#[test]
fn march_backwards_stops_inside_the_border_tile() {
    let m = bordered(10);
    let hit = march(&m, 2 * ONE, 2 * ONE + ONE / 2, -DIR_ONE, 0);
    assert_eq!(hit.x / ONE, 0);
    assert_eq!(hit.steps, 64 + 1);
    assert_eq!(hit.tile, 1);
}

#[test]
fn axis_march_finishes_within_precision_times_size() {
    let m = bordered(20);
    let dirs = [(DIR_ONE, 0), (-DIR_ONE, 0), (0, DIR_ONE), (0, -DIR_ONE)];
    for &(dx, dy) in dirs.iter() {
        for &(x, y) in [(ONE, ONE), (18 * ONE + ONE - 1, 18 * ONE + ONE - 1), (7 * ONE + 3, 11 * ONE)].iter() {
            let hit = march(&m, x, y, dx, dy);
            assert!(hit.steps >= 1);
            assert!(hit.steps <= (PRECISION as u64) * 20);
            assert_eq!(hit.tile, 1);
        }
    }
}

#[test]
fn diagonal_march_finds_the_first_wall() {
    let mut m = bordered(10);
    m[5][5] = 3;
    let hit = march(&m, 2 * ONE + ONE / 2, 2 * ONE + ONE / 2, 11585, 11585);
    assert_eq!(hit.tile, 3);
    assert_eq!((hit.x / ONE, hit.y / ONE), (5, 5));
}

#[test]
fn point_arithmetic() {
    let a = Point { x: 3 * ONE + 5, y: 7 };
    let b = Point { x: ONE, y: -2 };
    assert_eq!(a.add(b), Point { x: 4 * ONE + 5, y: 5 });
    assert_eq!(a.sub(b), Point { x: 2 * ONE + 5, y: 9 });
    assert_eq!(a.floor(), (3, 0));
    assert_eq!(Point { x: 0, y: 0 }.dist(&Point { x: 3 * ONE, y: 4 * ONE }), 5 * ONE);
    assert_eq!(Point { x: 0, y: 0 }.dist(&Point { x: 1, y: 1 }), 1);
}

#[test]
fn diagonal_march_can_take_more_than_precision_times_size() {
    let m = bordered(20);
    let hit = march(&m, ONE, ONE, 11585, 11585);
    assert!(hit.steps > (PRECISION as u64) * 20);
    assert!(hit.steps <= (20 * ONE / 11585) as u64);
    assert_eq!(hit.tile, 1);
}
