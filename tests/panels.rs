use raycaster::color::Color;
use raycaster::frame::render_panels;
use raycaster::map::parse_map;
use raycaster::panels::{create_panels, nearest_panel, panel_hit, panel_pixel, Panel, PanelCamera};
use raycaster::trace::FIX;
use raycaster::walls::create_walls;

fn panels_of(rows: &[&str]) -> Vec<Panel> {
    let lines: Vec<String> = rows.iter().map(|r| r.to_string()).collect();
    create_panels(&create_walls(&parse_map(&lines)))
}

fn cam3(px: i64, py: i64, pz: i64, nx: i64, ny: i64, width: u32, height: u32) -> PanelCamera {
    PanelCamera { pos_x: px, pos_y: py, pos_z: pz, normal_x: nx, normal_y: ny, width, height }
}

#[test]
fn panels_stand_on_walls() {
    let panels = panels_of(&["B"]);
    assert_eq!(panels.len(), 4);
    assert_eq!(
        panels[0],
        Panel { pos_x: -1, pos_y: -1, pos_z: 0, s1_x: 1, s1_y: 0, color: Color::blue() }
    );
    assert!(panels.iter().all(|p| p.pos_z == 0 && p.color == Color::blue()));
}

#[test]
fn centre_pixel_sees_the_facing_panel() {
    let panels = panels_of(&["G"]);
    // two units in front of the cell's near face, at half height, looking +y
    let cam = cam3(0, -2 * FIX, FIX / 2, 0, FIX, 8, 8);
    let hit = nearest_panel(&cam, 4, 4, &panels).expect("a hit");
    assert_eq!(hit.color, Color::green());
    // t = 1.5 units along a ray scaled by 4 * width * height * FIX
    assert_eq!(hit.t_num, 3 * FIX as i128 / 2);
    assert_eq!(hit.t_den, (4 * 8 * 8) as i128 * FIX as i128);
    assert_eq!(panel_pixel(&cam, &panels, 4, 4), Color::green());
    // the top row looks over the panel, the bottom row under it
    assert_eq!(panel_pixel(&cam, &panels, 4, 0), Color::sky());
    assert_eq!(panel_pixel(&cam, &panels, 4, 7), Color::floor());
}

#[test]
fn ray_parallel_to_panel_never_hits() {
    let panels = panels_of(&["R"]);
    // standing on the plane of the near face, looking along it
    let cam = cam3(-3 * FIX, -FIX / 2, FIX / 2, FIX, 0, 8, 8);
    assert_eq!(panel_hit(&cam, 4, 4, &panels[0]), None);
    assert_eq!(panel_hit(&cam, 4, 3, &panels[0]), None);
}

#[test]
fn back_faces_are_culled() {
    let panels = panels_of(&["R"]);
    // inside the cell every face turns its back
    let cam = cam3(0, 0, FIX / 2, 0, FIX, 8, 8);
    for px in 0..8 {
        for py in 0..8 {
            assert_eq!(nearest_panel(&cam, px, py, &panels), None);
        }
    }
    assert_eq!(panel_pixel(&cam, &panels, 4, 6), Color::floor());
    assert_eq!(panel_pixel(&cam, &panels, 4, 4), Color::sky());
}

#[test]
fn nearer_panel_wins() {
    let panels = panels_of(&["R", "E", "B"]);
    // looking -y from beyond the blue cell: blue is nearer than red
    let cam = cam3(0, 4 * FIX, FIX / 2, 0, -FIX, 8, 8);
    assert_eq!(nearest_panel(&cam, 4, 4, &panels).map(|h| h.color), Some(Color::blue()));
}

#[test]
fn panel_render_is_repeatable() {
    let panels = panels_of(&["RGB", "EEE", "BEG"]);
    let cam = cam3(FIX, 3 * FIX / 2, FIX / 2, 30000, -58000, 16, 12);
    let mut buf = vec![7u8; 16 * 12 * 4];
    render_panels(&mut buf, &cam, &panels);
    let first = buf.clone();
    render_panels(&mut buf, &cam, &panels);
    assert_eq!(buf, first);
    assert!(first.chunks(4).all(|px| px[3] == 7));
    assert!(first.chunks(4).any(|px| px[..3] != [255, 255, 255] && px[..3] != [0, 0, 0]));
}
