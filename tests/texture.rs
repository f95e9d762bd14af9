use raycaster::texture::{Color, Texture};

fn image(colors: &[(u8, u8, u8)]) -> Vec<u8> {
    colors.iter().flat_map(|&(r, g, b)| vec![r, g, b]).collect()
}

#[test]
fn two_colour_image_round_trips_through_its_palette() {
    let a = (200, 10, 10);
    let b = (0, 0, 255);
    let pixels = vec![a, b, b, a, a, a, b, b, b, a, b, a];
    let t = Texture::from_rgb(&image(&pixels), 4);
    assert_eq!(t.colors.len(), 2);
    assert_eq!(t.width, 4);
    assert_eq!(t.height, 3);
    for (i, &p) in pixels.iter().enumerate() {
        let idx = t.map[i / 4][i % 4] as usize;
        let c = t.colors[idx];
        assert_eq!((c.0, c.1, c.2), p);
    }
}

#[test]
fn palette_follows_first_occurrence() {
    let pixels = vec![(5, 5, 5), (1, 1, 1), (5, 5, 5), (9, 9, 9)];
    let t = Texture::from_rgb(&image(&pixels), 2);
    assert_eq!(t.colors, vec![Color(5, 5, 5), Color(1, 1, 1), Color(9, 9, 9)]);
    assert_eq!(t.map, vec![vec![0, 1], vec![0, 2]]);
}

#[test]
fn short_last_row_is_kept() {
    let pixels = vec![(1, 2, 3); 5];
    let t = Texture::from_rgb(&image(&pixels), 3);
    assert_eq!(t.map, vec![vec![0, 0, 0], vec![0, 0]]);
    assert_eq!(t.width, 3);
    assert_eq!(t.height, 2);
}

#[test]
fn empty_image_gives_one_empty_row() {
    let t = Texture::from_rgb(&Vec::new(), 4);
    assert_eq!(t.map, vec![Vec::<i32>::new()]);
    assert!(t.colors.is_empty());
    assert_eq!(t.width, 0);
    assert_eq!(t.height, 1);
    assert!(!t.is_valid());
}

#[test]
fn new_takes_size_from_grid() {
    let t = Texture::new(vec![vec![0, 1, 0], vec![1, 0, 1]], vec![Color(0, 0, 0), Color(1, 1, 1)]);
    assert_eq!(t.width, 3);
    assert_eq!(t.height, 2);
    assert!(t.is_valid());
}

#[test]
fn index_beyond_palette_is_invalid() {
    let t = Texture::new(vec![vec![0, 2]], vec![Color(0, 0, 0), Color(1, 1, 1)]);
    assert!(!t.is_valid());
}

#[test]
fn ragged_texture_is_invalid() {
    let t = Texture::new(vec![vec![0, 0], vec![0]], vec![Color(0, 0, 0)]);
    assert!(!t.is_valid());
}

#[test]
fn builtin_textures() {
    let b = Texture::brick();
    assert!(b.is_valid());
    assert_eq!(b.map[1], vec![0, 0, 0, 1, 0, 0, 0, 1]);
    assert_eq!(b.colors, vec![Color(0, 0, 0), Color(255, 255, 255)]);
    let f = Texture::flat();
    assert!(f.is_valid());
    assert!(f.map.iter().all(|row| row.iter().all(|&v| v == 1)));
    assert_eq!(f.colors[1], Color(255, 0, 0));
}
