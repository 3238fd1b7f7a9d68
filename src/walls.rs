use vstd::prelude::*;

use crate::color::{Color, red_spec, green_spec, blue_spec};
use crate::map::Material;
use crate::trace::walls_bounded;

verus! {

/// One edge of an occupied grid cell.
///
/// The anchor `(pos_x, pos_y)` is given in half grid units: the cell with
/// integer coordinates `(x, y)` spans `[x - 0.5, x + 0.5] x [y - 0.5, y + 0.5]`,
/// whose corners are `(2x +- 1, 2y +- 1)` in half units. The span
/// `(side_x, side_y)` is a unit vector along one axis, in whole grid units.
#[derive(Debug, Clone, Copy, PartialEq, Eq, Structural)]
pub struct Wall {
    pub pos_x: i64,
    pub pos_y: i64,
    pub side_x: i64,
    pub side_y: i64,
    pub color: Color,
}

/// The span is one of the four axis-aligned unit vectors.
pub open spec fn unit_axis(sx: int, sy: int) -> bool {
    (sx == 0 && (sy == 1 || sy == -1)) || (sy == 0 && (sx == 1 || sx == -1))
}

impl Wall {
    pub open spec fn wf(&self) -> bool {
        unit_axis(self.side_x as int, self.side_y as int)
    }
}

/// The wall color of a material; an empty cell has none.
pub open spec fn wall_color_spec(m: Material) -> Option<Color> {
    match m {
        Material::R => Some(red_spec()),
        Material::G => Some(green_spec()),
        Material::B => Some(blue_spec()),
        Material::Empty => None,
    }
}

pub open spec fn wall_at(px: int, py: int, sx: int, sy: int, c: Color) -> Wall {
    Wall { pos_x: px as i64, pos_y: py as i64, side_x: sx as i64, side_y: sy as i64, color: c }
}

/// The four edges of the cell at `(x, y)`, going round it: top, right,
/// bottom, left, each span continuing where the previous one ended.
pub open spec fn cell_walls(x: int, y: int, c: Color) -> Seq<Wall> {
    seq![
        wall_at(2 * x - 1, 2 * y - 1, 1, 0, c),
        wall_at(2 * x + 1, 2 * y - 1, 0, 1, c),
        wall_at(2 * x + 1, 2 * y + 1, -1, 0, c),
        wall_at(2 * x - 1, 2 * y + 1, 0, -1, c),
    ]
}

/// The walls of one row of cells, in increasing column order.
pub open spec fn row_walls(row: Seq<Material>, y: int) -> Seq<Wall>
    decreases row.len(),
{
    if row.len() == 0 {
        Seq::empty()
    } else {
        let x = row.len() - 1;
        let prev = row_walls(row.drop_last(), y);
        match wall_color_spec(row[x]) {
            Some(c) => prev + cell_walls(x, y, c),
            None => prev,
        }
    }
}

/// The walls of a whole grid, row after row.
pub open spec fn grid_walls(grid: Seq<Vec<Material>>) -> Seq<Wall>
    decreases grid.len(),
{
    if grid.len() == 0 {
        Seq::empty()
    } else {
        grid_walls(grid.drop_last()) + row_walls(grid.last()@, grid.len() - 1)
    }
}

/// Largest number of rows, and of cells in a row, that a map may have: the
/// tracer carries coordinates as 16-bit fixed point in 64-bit integers.
pub const MAX_EXTENT: usize = 16_777_216;

/// Gives the wall color of a material.
pub fn wall_color(m: Material) -> (c: Option<Color>)
    ensures
        c == wall_color_spec(m),
{
    match m {
        Material::R => Some(Color::red()),
        Material::G => Some(Color::green()),
        Material::B => Some(Color::blue()),
        Material::Empty => None,
    }
}

/// Builds the wall list of a map: four edges for each occupied cell, cells in
/// row-major order.
pub fn create_walls(map: &Vec<Vec<Material>>) -> (walls: Vec<Wall>)
    requires
        map@.len() <= MAX_EXTENT,
        forall|y: int| 0 <= y < map@.len() ==> (#[trigger] map@[y])@.len() <= MAX_EXTENT,
    ensures
        walls@ == grid_walls(map@),
        walls_bounded(walls@),
{
    let mut walls: Vec<Wall> = Vec::new();
    let mut y: usize = 0;
    while y < map.len()
        invariant
            y <= map@.len(),
            map@.len() <= MAX_EXTENT,
            forall|j: int| 0 <= j < map@.len() ==> (#[trigger] map@[j])@.len() <= MAX_EXTENT,
            walls@ == grid_walls(map@.take(y as int)),
            walls_bounded(walls@),
        decreases map@.len() - y,
    {
        let row = &map[y];
        let ghost before = walls@;
        let mut x: usize = 0;
        while x < row.len()
            invariant
                y < map@.len(),
                row == map@[y as int],
                x <= row@.len(),
                row@.len() <= MAX_EXTENT,
                y < MAX_EXTENT,
                walls@ == before + row_walls(row@.take(x as int), y as int),
                walls_bounded(walls@),
            decreases row@.len() - x,
        {
            assert(row@.take(x as int + 1).drop_last() == row@.take(x as int));
            let cx = 2 * (x as i64);
            let cy = 2 * (y as i64);
            match wall_color(row[x]) {
                Some(c) => {
                    walls.push(Wall { pos_x: cx - 1, pos_y: cy - 1, side_x: 1, side_y: 0, color: c });
                    walls.push(Wall { pos_x: cx + 1, pos_y: cy - 1, side_x: 0, side_y: 1, color: c });
                    walls.push(Wall { pos_x: cx + 1, pos_y: cy + 1, side_x: -1, side_y: 0, color: c });
                    walls.push(Wall { pos_x: cx - 1, pos_y: cy + 1, side_x: 0, side_y: -1, color: c });
                    assert(walls@ == before + row_walls(row@.take(x as int + 1), y as int));
                },
                None => {},
            }
            x = x + 1;
        }
        assert(row@.take(row@.len() as int) == row@);
        assert(map@.take(y as int + 1).drop_last() == map@.take(y as int));
        y = y + 1;
    }
    assert(map@.take(map@.len() as int) == map@);
    walls
}

} // verus!
