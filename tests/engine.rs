use raycaster::color::Color;
use raycaster::frame::render;
use raycaster::map::{material_of, parse_map, parse_row, Material};
use raycaster::shade::{calculate_vline, shade};
use raycaster::texture::{clamp_index, Texture};
use raycaster::trace::{nearest_hit, wall_hit, Camera, Hit, FIX};
use raycaster::walls::{create_walls, wall_color, Wall};

fn camera(px: i64, py: i64, nx: i64, ny: i64, width: u32, height: u32) -> Camera {
    Camera { pos_x: px, pos_y: py, normal_x: nx, normal_y: ny, width, height }
}

fn lines(rows: &[&str]) -> Vec<String> {
    rows.iter().map(|r| r.to_string()).collect()
}

/// A 2 x 3 texture whose pixel (x, y) is (10 x + y, 100 + 10 x + y, 200 + y).
fn small_texture() -> Texture {
    let (w, h) = (2u32, 3u32);
    let mut raw = Vec::new();
    for y in 0..h {
        for x in 0..w {
            raw.push((10 * x + y) as u8);
            raw.push((100 + 10 * x + y) as u8);
            raw.push((200 + y) as u8);
        }
    }
    Texture::from_row_major(&raw, w, h)
}

fn flat_texture(c: Color) -> Texture {
    Texture::from_row_major(&vec![c.r, c.g, c.b], 1, 1)
}

fn depth(h: &Hit) -> f64 {
    h.dist_num as f64 / h.dist_den as f64
}

#[test]
fn material_table() {
    assert_eq!(material_of('R'), Material::R);
    assert_eq!(material_of('G'), Material::G);
    assert_eq!(material_of('B'), Material::B);
    assert_eq!(material_of('E'), Material::Empty);
    assert_eq!(material_of('X'), Material::Empty);
    assert_eq!(material_of(' '), Material::Empty);
    assert_eq!(material_of('r'), Material::Empty);
}

#[test]
fn unknown_characters_read_as_empty() {
    assert_eq!(parse_row("RXB"), parse_row("REB"));
    assert_eq!(parse_row("RXB"), vec![Material::R, Material::Empty, Material::B]);
    let a = create_walls(&parse_map(&lines(&["RXB"])));
    let b = create_walls(&parse_map(&lines(&["REB"])));
    assert_eq!(a, b);
    assert_eq!(a.len(), 8);
    // every wall of cell 0 lies within [-1, 1] half units, of cell 2 within [3, 5]
    assert!(a[..4].iter().all(|w| w.pos_x >= -1 && w.pos_x <= 1));
    assert!(a[4..].iter().all(|w| w.pos_x >= 3 && w.pos_x <= 5));
    let spaced = create_walls(&parse_map(&lines(&["RE B"])));
    assert_eq!(spaced.len(), 8);
    assert!(spaced[..4].iter().all(|w| w.pos_x >= -1 && w.pos_x <= 1));
    assert!(spaced[4..].iter().all(|w| w.pos_x >= 5 && w.pos_x <= 7));
}

#[test]
fn parse_map_keeps_ragged_rows() {
    let grid = parse_map(&lines(&["RG", "", "EEB"]));
    assert_eq!(grid.len(), 3);
    assert_eq!(grid[0], vec![Material::R, Material::G]);
    assert!(grid[1].is_empty());
    assert_eq!(grid[2], vec![Material::Empty, Material::Empty, Material::B]);
}

#[test]
fn empty_map_has_no_walls() {
    assert!(create_walls(&parse_map(&Vec::new())).is_empty());
    assert!(create_walls(&parse_map(&lines(&["EEE", "E"]))).is_empty());
}

#[test]
fn four_walls_around_each_cell() {
    let walls = create_walls(&parse_map(&lines(&["E", "ER"])));
    let red = Color::red();
    let expected = vec![
        Wall { pos_x: 1, pos_y: 1, side_x: 1, side_y: 0, color: red },
        Wall { pos_x: 3, pos_y: 1, side_x: 0, side_y: 1, color: red },
        Wall { pos_x: 3, pos_y: 3, side_x: -1, side_y: 0, color: red },
        Wall { pos_x: 1, pos_y: 3, side_x: 0, side_y: -1, color: red },
    ];
    assert_eq!(walls, expected);
    assert_eq!(wall_color(Material::G), Some(Color::rgb(0, 255, 0)));
    assert_eq!(wall_color(Material::B), Some(Color::rgb(0, 0, 255)));
    assert_eq!(wall_color(Material::Empty), None);
}

#[test]
fn camera_at_cell_center_sees_near_wall_at_half_unit() {
    let walls = create_walls(&parse_map(&lines(&["G"])));
    let cam = camera(0, 0, 0, FIX, 800, 800);
    let hit = nearest_hit(&cam, 400, &walls).expect("a hit");
    assert_eq!(hit.color, Color::green());
    assert_eq!(2 * hit.dist_num, hit.dist_den);
    assert_eq!(2 * hit.a_num, hit.a_den);
    for (nx, ny) in [(FIX, 0), (0, -FIX), (-FIX, 0)] {
        let cam = camera(0, 0, nx, ny, 800, 800);
        let hit = nearest_hit(&cam, 400, &walls).expect("a hit");
        assert_eq!(hit.color, Color::green());
        assert_eq!(2 * hit.dist_num, hit.dist_den);
    }
}

#[test]
fn depth_is_perpendicular_not_ray_length() {
    // a red cell two units ahead; the camera looks along +y
    let walls = create_walls(&parse_map(&lines(&["E", "E", "R"])));
    let cam = camera(0, 0, 0, FIX, 800, 600);
    let centre = nearest_hit(&cam, 400, &walls).expect("centre hit");
    let side = nearest_hit(&cam, 450, &walls).expect("side hit");
    assert!((depth(&centre) - 1.5).abs() < 1e-12);
    assert_eq!(centre.dist_num * side.dist_den, side.dist_num * centre.dist_den);
    // the rays themselves have different lengths to the wall
    let centre_a = centre.a_num as f64 / centre.a_den as f64;
    let side_a = side.a_num as f64 / side.a_den as f64;
    assert!((centre_a - 0.5).abs() < 1e-12);
    assert!((side_a - 0.5).abs() > 1e-3);
    let side_len = ((0.5 - side_a).powi(2) + 1.5f64.powi(2)).sqrt();
    assert!(side_len > 1.5 + 1e-6);
}

#[test]
fn nearest_wall_wins() {
    let walls = create_walls(&parse_map(&lines(&["E", "B", "R"])));
    let cam = camera(0, 0, 0, FIX, 100, 100);
    let hit = nearest_hit(&cam, 50, &walls).expect("a hit");
    assert_eq!(hit.color, Color::blue());
    assert!((depth(&hit) - 0.5).abs() < 1e-12);
    let mut reversed = walls.clone();
    reversed.reverse();
    let hit = nearest_hit(&cam, 50, &reversed).expect("a hit");
    assert_eq!(hit.color, Color::blue());
}

#[test]
fn parallel_and_behind_rays_miss() {
    let cam = camera(0, 0, 0, FIX, 100, 100);
    // a wall along the view direction: the centre ray is parallel to it
    let along = Wall { pos_x: 1, pos_y: 1, side_x: 0, side_y: 1, color: Color::red() };
    assert_eq!(wall_hit(&cam, 50, &along), None);
    // a wall behind the camera
    let behind = Wall { pos_x: 1, pos_y: -3, side_x: -1, side_y: 0, color: Color::red() };
    assert_eq!(wall_hit(&cam, 50, &behind), None);
    // a wall ahead but off to the side of the segment
    let aside = Wall { pos_x: 7, pos_y: 3, side_x: -1, side_y: 0, color: Color::red() };
    assert_eq!(wall_hit(&cam, 50, &aside), None);
    assert_eq!(nearest_hit(&cam, 50, &Vec::new()), None);
}

#[test]
fn empty_scene_is_floor_and_sky() {
    let tex = flat_texture(Color::red());
    let cam = camera(0, 0, FIX, 0, 4, 4);
    let vline = calculate_vline(1, &cam, &Vec::new(), Some(&tex));
    assert_eq!(vline, vec![Color::sky(), Color::sky(), Color::sky(), Color::floor()]);
    assert_eq!(shade(4, 2, &None, Some(&tex)), Color::sky());
    assert_eq!(shade(4, 3, &None, Some(&tex)), Color::floor());
}

#[test]
fn far_wall_is_a_band_at_the_horizon() {
    // a wall 4.5 units ahead is 2/9 of the screen tall
    let walls = create_walls(&parse_map(&lines(&["E", "E", "E", "E", "E", "G"])));
    let tex = flat_texture(Color::rgb(1, 2, 3));
    let cam = camera(0, 0, 0, FIX, 9, 18);
    let vline = calculate_vline(4, &cam, &walls, Some(&tex));
    assert_eq!(vline.len(), 18);
    let wall: Vec<usize> = (0..18).filter(|&i| vline[i] == Color::rgb(1, 2, 3)).collect();
    assert_eq!(wall, vec![7, 8, 9, 10, 11]);
    assert!(vline[..7].iter().all(|&c| c == Color::sky()));
    assert!(vline[12..].iter().all(|&c| c == Color::floor()));
}

#[test]
fn texture_is_stored_by_column() {
    let tex = small_texture();
    assert_eq!(tex.width, 2);
    assert_eq!(tex.height, 3);
    assert_eq!(tex.data.len(), 18);
    assert_eq!(tex.get_vline(0), &[0, 100, 200, 1, 101, 201, 2, 102, 202][..]);
    assert_eq!(tex.get_vline(1), &[10, 110, 200, 11, 111, 201, 12, 112, 202][..]);
    assert_eq!(tex.sample(1, 2), Color::rgb(12, 112, 202));
}

#[test]
fn texture_sampling_is_clamped() {
    let tex = small_texture();
    assert_eq!(clamp_index(0, 2), 0);
    assert_eq!(clamp_index(2, 2), 1);
    assert_eq!(clamp_index(usize::MAX, 2), 1);
    assert_eq!(tex.sample(2, 0), tex.sample(1, 0));
    assert_eq!(tex.sample(0, 3), tex.sample(0, 2));
    assert_eq!(tex.sample(usize::MAX, usize::MAX), Color::rgb(12, 112, 202));
    // a hit at the far end of a wall samples the last texture column
    let hit = Hit { t_num: 1, t_den: 1, a_num: 999, a_den: 1000, dist_num: 1, dist_den: 1, color: Color::red() };
    assert_eq!(shade(4, 2, &Some(hit), Some(&tex)), tex.sample(1, 1));
    let hit = Hit { a_num: 1, ..hit };
    assert_eq!(shade(4, 2, &Some(hit), Some(&tex)), tex.sample(0, 1));
}

#[test]
fn wall_at_distance_zero_fills_the_column() {
    let tex = flat_texture(Color::rgb(7, 8, 9));
    let hit = Hit { t_num: 0, t_den: 1, a_num: 1, a_den: 2, dist_num: 0, dist_den: 1, color: Color::red() };
    for row in 0..5 {
        assert_eq!(shade(5, row, &Some(hit), Some(&tex)), Color::rgb(7, 8, 9));
    }
}

#[test]
fn render_writes_bgr_and_keeps_padding() {
    let tex = flat_texture(Color::rgb(10, 20, 30));
    let cam = camera(0, 0, FIX, 0, 2, 2);
    let mut buf = vec![9u8; 16];
    render(&mut buf, &cam, &Vec::new(), Some(&tex));
    assert_eq!(buf, vec![255, 255, 255, 9, 255, 255, 255, 9, 255, 255, 255, 9, 255, 255, 255, 9]);
    let cam = camera(0, 0, FIX, 0, 1, 3);
    let mut buf = vec![9u8; 12];
    render(&mut buf, &cam, &Vec::new(), Some(&tex));
    assert_eq!(buf, vec![255, 255, 255, 9, 255, 255, 255, 9, 0, 0, 0, 9]);
}

#[test]
fn render_twice_is_byte_identical() {
    let walls = create_walls(&parse_map(&lines(&["RGB", "EEE", "BER"])));
    let tex = small_texture();
    let cam = camera(FIX, 3 * FIX / 2, 20000, -61000, 32, 24);
    let mut buf = vec![0u8; 32 * 24 * 4];
    render(&mut buf, &cam, &walls, Some(&tex));
    let first = buf.clone();
    render(&mut buf, &cam, &walls, Some(&tex));
    assert_eq!(buf, first);
    let mut other = vec![0u8; 32 * 24 * 4];
    render(&mut other, &cam, &walls, Some(&tex));
    assert_eq!(other, first);
    assert!(first.iter().any(|&b| b != 0 && b != 255));
}

#[test]
fn camera_validity() {
    assert!(camera(0, 0, 0, FIX, 800, 800).is_valid());
    assert!(!camera(0, 0, 0, 0, 800, 800).is_valid());
    assert!(!camera(0, 0, 0, FIX, 0, 800).is_valid());
    assert!(!camera(i64::MAX, 0, 0, FIX, 8, 8).is_valid());
}

fn norm_sq(cam: &Camera) -> i64 {
    cam.normal_x * cam.normal_x + cam.normal_y * cam.normal_y
}

#[test]
fn quarter_turn_is_exact() {
    let mut cam = camera(0, 0, 0, FIX, 8, 8);
    cam.rotate(0, FIX);
    assert_eq!((cam.normal_x, cam.normal_y), (-FIX, 0));
    cam.rotate(0, -FIX);
    assert_eq!((cam.normal_x, cam.normal_y), (0, FIX));
    assert_eq!((cam.pos_x, cam.pos_y, cam.width, cam.height), (0, 0, 8, 8));
}

#[test]
fn rotation_keeps_the_normal_unit_length() {
    let (c, s) = ((0.1f64.cos() * FIX as f64).round() as i64, (0.1f64.sin() * FIX as f64).round() as i64);
    let mut cam = camera(0, 0, 0, FIX, 8, 8);
    for i in 0..1000 {
        if i % 3 == 2 {
            cam.rotate(c, -s);
        } else {
            cam.rotate(c, s);
        }
        let n = norm_sq(&cam);
        assert!(n >= FIX * FIX - 8 * FIX && n <= FIX * FIX + 12, "turn {i}: {n}");
    }
    // a turn given by a short (cos, sin) is brought back to unit length too
    cam.rotate(c / 2, s / 2);
    let n = norm_sq(&cam);
    assert!(n >= FIX * FIX - 8 * FIX && n <= FIX * FIX + 12);
    let angle = (cam.normal_y as f64).atan2(cam.normal_x as f64);
    let expected = std::f64::consts::FRAC_PI_2 + 0.1 * (667.0 - 333.0 + 1.0);
    let diff = (angle - expected).rem_euclid(std::f64::consts::TAU);
    assert!(diff < 1e-2 || diff > std::f64::consts::TAU - 1e-2, "angle {angle}");
}

#[test]
fn translate_moves_along_the_normal() {
    let mut cam = camera(0, 0, 0, FIX, 8, 8);
    assert!(cam.translate(FIX / 5));
    assert_eq!((cam.pos_x, cam.pos_y), (0, 13107));
    assert!(cam.translate(-FIX / 5));
    assert_eq!((cam.pos_x, cam.pos_y), (0, 0));
    let mut cam = camera(0, 0, -FIX, 0, 8, 8);
    assert!(cam.translate(3));
    assert_eq!((cam.pos_x, cam.pos_y), (-3, 0));
    let mut far = camera(0, 0x100_0000_0000 - 10, 0, FIX, 8, 8);
    assert!(!far.translate(FIX));
    assert_eq!((far.pos_x, far.pos_y), (0, 0x100_0000_0000 - 10));
}

#[test]
fn flat_shading_uses_the_wall_color() {
    let walls = create_walls(&parse_map(&lines(&["E", "E", "E", "E", "E", "G"])));
    let cam = camera(0, 0, 0, FIX, 9, 18);
    let vline = calculate_vline(4, &cam, &walls, None);
    let wall: Vec<usize> = (0..18).filter(|&i| vline[i] == Color::green()).collect();
    assert_eq!(wall, vec![7, 8, 9, 10, 11]);
    let hit = Hit { t_num: 1, t_den: 1, a_num: 1, a_den: 2, dist_num: 1, dist_den: 1, color: Color::blue() };
    assert_eq!(shade(4, 2, &Some(hit), None), Color::blue());
    assert_eq!(shade(4, 3, &None, None), Color::floor());
    let mut buf = vec![0u8; 9 * 18 * 4];
    render(&mut buf, &cam, &walls, None);
    let px = (4 + 9 * 9) * 4;
    assert_eq!(&buf[px..px + 4], &[0, 255, 0, 0]);
}
