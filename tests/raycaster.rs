use raycaster::canvas::Canvas;
use raycaster::geometry::{DIR_ONE, ONE};
use raycaster::movement::{speed_component, FULL_TURN, PLAYER_ROTATION};
use raycaster::raycaster::{InputEvent, Intent, Raycaster, SetupError};
use raycaster::texture::{Color, Texture};
use raycaster::tilemap::MapError;

fn directions() -> Vec<(i64, i64)> {
    (0..FULL_TURN)
        .map(|a| {
            let rad = (a as f64 / 32.0).to_radians();
            ((rad.cos() * DIR_ONE as f64).round() as i64, (rad.sin() * DIR_ONE as f64).round() as i64)
        })
        .collect()
}

fn bordered(n: usize) -> Vec<Vec<i32>> {
    (0..n)
        .map(|r| (0..n).map(|c| if r == 0 || c == 0 || r == n - 1 || c == n - 1 { 1 } else { 0 }).collect())
        .collect()
}

fn scene(map: Vec<Vec<i32>>) -> Raycaster {
    Raycaster::new(map, Texture::flat(), vec![Texture::brick(), Texture::flat()], directions(), 60).unwrap()
}

fn pixel(c: &Canvas, x: usize, y: usize) -> (u8, u8, u8) {
    let i = (c.width as usize * y + x) * 3;
    (c.pixels[i], c.pixels[i + 1], c.pixels[i + 2])
}

#[test]
fn centre_ray_hits_the_nearest_wall_along_x() {
    let mut map = bordered(10);
    map[2][6] = 2;
    let rc = scene(map);
    let cast = rc.cast_column(640, 320);
    assert_eq!(cast.hit.tile, 2);
    assert_eq!((cast.hit.x / ONE, cast.hit.y / ONE), (6, 2));
    let expected = 4 * ONE;
    let tolerance = DIR_ONE;
    assert!((cast.hypotenuse - expected).abs() <= tolerance);
    assert!((cast.distance - expected).abs() <= tolerance);
}

#[test]
fn centre_ray_distance_is_its_hypotenuse() {
    let mut map = bordered(12);
    map[4][7] = 1;
    let mut rc = scene(map);
    for angle in [0i64, 100, 2880, 5000, 11000].iter() {
        rc.player.angle = *angle;
        let cast = rc.cast_column(640, 320);
        assert_eq!(cast.distance, cast.hypotenuse);
    }
}

#[test]
fn side_rays_are_shortened_by_the_cosine() {
    let rc = scene(bordered(10));
    let cast = rc.cast_column(640, 0);
    assert!(cast.distance < cast.hypotenuse);
    assert!(cast.distance >= 1);
}

#[test]
fn setup_rejects_bad_parts() {
    let dirs = directions();
    let open = vec![vec![1, 1, 1], vec![0, 0, 1], vec![1, 1, 1]];
    let r = Raycaster::new(open, Texture::flat(), vec![Texture::brick()], dirs.clone(), 60);
    assert_eq!(r.err(), Some(SetupError::InvalidMap(MapError::OpenBorder)));

    let mut map = bordered(6);
    map[3][3] = 3;
    let r = Raycaster::new(map, Texture::flat(), vec![Texture::brick(), Texture::flat()], dirs.clone(), 60);
    assert_eq!(r.err(), Some(SetupError::UnknownTexture));

    let broken = Texture::new(vec![vec![0, 5]], vec![Color(0, 0, 0)]);
    let r = Raycaster::new(bordered(6), broken, vec![Texture::brick()], dirs.clone(), 60);
    assert_eq!(r.err(), Some(SetupError::BadTexture));

    let mut skewed = dirs.clone();
    skewed[100] = (10, 10);
    let r = Raycaster::new(bordered(6), Texture::flat(), vec![Texture::brick()], skewed, 60);
    assert_eq!(r.err(), Some(SetupError::BadDirections));

    let r = Raycaster::new(bordered(6), Texture::flat(), vec![Texture::brick()], dirs.clone(), 180);
    assert_eq!(r.err(), Some(SetupError::BadFieldOfView));

    let mut blocked = bordered(6);
    blocked[2][2] = 1;
    let r = Raycaster::new(blocked, Texture::flat(), vec![Texture::brick()], dirs.clone(), 60);
    assert_eq!(r.err(), Some(SetupError::SpawnBlocked));

    let r = Raycaster::new(bordered(6), Texture::flat(), vec![Texture::brick()], dirs, 60).unwrap();
    assert_eq!((r.player.pos.x, r.player.pos.y, r.player.angle), (2 * ONE, 2 * ONE, 0));
    assert_eq!(r.fov, 60 * 32);
}

#[test]
fn quit_stops_before_moving() {
    let mut rc = scene(bordered(10));
    let before = rc.player;
    let go = rc.update(vec![InputEvent::Press(Intent::MoveForward), InputEvent::Quit]);
    assert!(!go);
    assert!(rc.held.forward);
    assert_eq!(rc.player, before);
}

#[test]
fn held_forward_moves_every_tick_until_released() {
    let mut rc = scene(bordered(10));
    assert!(rc.update(vec![InputEvent::Press(Intent::MoveForward)]));
    let step = speed_component(DIR_ONE);
    assert_eq!(rc.player.pos.x, 2 * ONE + step);
    assert!(rc.update(vec![]));
    assert_eq!(rc.player.pos.x, 2 * ONE + 2 * step);
    assert!(rc.update(vec![InputEvent::Release(Intent::MoveForward)]));
    assert_eq!(rc.player.pos.x, 2 * ONE + 2 * step);
    assert_eq!(rc.player.pos.y, 2 * ONE);
}

#[test]
fn turning_keys_combine() {
    let mut rc = scene(bordered(10));
    assert!(rc.update(vec![InputEvent::Press(Intent::TurnLeft)]));
    assert_eq!(rc.player.angle, FULL_TURN - PLAYER_ROTATION);
    assert!(rc.update(vec![InputEvent::Press(Intent::TurnRight)]));
    assert_eq!(rc.player.angle, FULL_TURN - PLAYER_ROTATION);
    assert!(rc.update(vec![InputEvent::Release(Intent::TurnLeft)]));
    assert_eq!(rc.player.angle, 0);
}

#[test]
fn draw_fills_background_wall_and_floor() {
    let mut map = bordered(10);
    map[2][6] = 1;
    let rc = scene(map);
    let mut canvas = Canvas::new(64, 48);
    rc.draw(&mut canvas);
    for x in 0..64 {
        assert_eq!(pixel(&canvas, x, 47), (128, 128, 128));
        assert_eq!(pixel(&canvas, x, 0), (255, 0, 0));
    }
    let mid = pixel(&canvas, 32, 24);
    assert!(mid == (0, 0, 0) || mid == (255, 255, 255));
}

#[test]
fn close_wall_covers_the_whole_column() {
    let mut map = bordered(6);
    map[2][3] = 2;
    let mut rc = scene(map);
    rc.player.pos.x = 3 * ONE - 1000;
    rc.player.pos.y = 2 * ONE + ONE / 2;
    let mut canvas = Canvas::new(16, 20);
    rc.draw(&mut canvas);
    for y in 0..20 {
        assert_eq!(pixel(&canvas, 8, y), (255, 0, 0));
    }
}

#[test]
fn centre_column_rows_follow_the_projection() {
    let mut map = bordered(10);
    map[2][6] = 1;
    let rc = scene(map);
    let mut canvas = Canvas::new(8, 40);
    rc.draw(&mut canvas);
    let white = (255, 255, 255);
    let black = (0, 0, 0);
    let red = (255, 0, 0);
    let grey = (128, 128, 128);
    let mut expected = vec![red; 15];
    expected.extend(vec![white, black, white, black, black, white, black, white, black, black]);
    expected.extend(vec![grey; 15]);
    let column: Vec<(u8, u8, u8)> = (0..40).map(|y| pixel(&canvas, 4, y)).collect();
    assert_eq!(column, expected);
}
