use raycaster::geometry::{Point, DIR_ONE, ONE};
use raycaster::movement::{move_player, speed_component, turn, Player, FULL_TURN};

fn bordered(n: usize) -> Vec<Vec<i32>> {
    (0..n)
        .map(|r| (0..n).map(|c| if r == 0 || c == 0 || r == n - 1 || c == n - 1 { 1 } else { 0 }).collect())
        .collect()
}

#[test]
fn speed_is_a_tenth_of_a_tile_per_unit_direction() {
    assert_eq!(speed_component(DIR_ONE), 104857);
    assert_eq!(speed_component(-DIR_ONE), -104857);
    assert_eq!(speed_component(0), 0);
    assert_eq!(speed_component(7), 44);
    assert_eq!(speed_component(-7), -44);
}

#[test]
fn turning_wraps_around() {
    let p = Player { pos: Point { x: 0, y: 0 }, angle: 10 };
    assert_eq!(turn(p, -96).angle, FULL_TURN - 86);
    let q = Player { pos: Point { x: 0, y: 0 }, angle: FULL_TURN - 1 };
    assert_eq!(turn(q, 96).angle, 95);
    assert_eq!(turn(p, 96).angle, 106);
}

#[test]
fn open_floor_lets_the_player_move() {
    let m = bordered(6);
    let p = Player { pos: Point { x: 2 * ONE, y: 2 * ONE }, angle: 0 };
    let q = move_player(&m, p, 1000, -2000);
    assert_eq!((q.pos.x, q.pos.y), (2 * ONE + 1000, 2 * ONE - 2000));
}

#[test]
fn player_facing_a_wall_from_a_tile_centre_stays() {
    let mut m = bordered(6);
    m[2][3] = 2;
    let p = Player { pos: Point { x: 2 * ONE + ONE / 2, y: 2 * ONE + ONE / 2 }, angle: 0 };
    let step = speed_component(DIR_ONE);
    let q = move_player(&m, p, step, 0);
    assert_eq!(q, p);
    let up = move_player(&m, p, 0, -step);
    assert_eq!(up.pos.y, p.pos.y - step);
}

#[test]
fn player_slides_along_a_wall() {
    let mut m = bordered(6);
    m[2][3] = 2;
    let p = Player { pos: Point { x: 2 * ONE + ONE / 2, y: 2 * ONE + ONE / 2 }, angle: 0 };
    let q = move_player(&m, p, 90000, 50000);
    assert_eq!(q.pos.x, p.pos.x);
    assert_eq!(q.pos.y, p.pos.y + 50000);
}

#[test]
fn backing_into_the_border_is_blocked() {
    let m = bordered(6);
    let p = Player { pos: Point { x: ONE + ONE / 2, y: 3 * ONE }, angle: 0 };
    let q = move_player(&m, p, -104857, 0);
    assert_eq!(q, p);
}
