use vstd::prelude::*;

use crate::color::{Color, floor_spec, sky_spec};
use crate::trace::{FIX, HALF, abs_le, lemma_mul_bound, walls_bounded};
use crate::walls::{Wall, unit_axis};

verus! {

/// Bound on the panel camera's position, in fixed-point steps.
pub const POS3_BOUND: i64 = 0x100_0000_0000;

/// Bound on each component of the panel camera's normal, in fixed-point steps.
pub const NORMAL3_BOUND: i64 = 0x2_0000;

/// Bound on the panel camera's picture width and height, in pixels.
pub const VIEW3_BOUND: u32 = 4096;

/// One vertical face of an occupied cell's unit column, one unit tall.
///
/// Its corner `(pos_x, pos_y)` is in half grid units at height `pos_z` (whole
/// units); it spans the horizontal unit vector `(s1_x, s1_y, 0)` and the
/// vertical unit vector `(0, 0, 1)`. Its front faces along `s1 x s2`.
#[derive(Debug, Clone, Copy, PartialEq, Eq, Structural)]
pub struct Panel {
    pub pos_x: i64,
    pub pos_y: i64,
    pub pos_z: i64,
    pub s1_x: i64,
    pub s1_y: i64,
    pub color: Color,
}

pub open spec fn panel_bounded(p: Panel) -> bool {
    &&& unit_axis(p.s1_x as int, p.s1_y as int)
    &&& abs_le(p.pos_x as int, 0x400_0000)
    &&& abs_le(p.pos_y as int, 0x400_0000)
    &&& abs_le(p.pos_z as int, 0x400_0000)
}

pub open spec fn panels_bounded(ps: Seq<Panel>) -> bool {
    forall|i: int| 0 <= i < ps.len() ==> panel_bounded(#[trigger] ps[i])
}

/// The panel standing on a wall: same corner and span, on the ground.
pub open spec fn panel_of(w: Wall) -> Panel {
    Panel { pos_x: w.pos_x, pos_y: w.pos_y, pos_z: 0, s1_x: w.side_x, s1_y: w.side_y, color: w.color }
}

/// A viewer that looks horizontally along `(normal_x, normal_y)` from a point
/// at height `pos_z`, all in fixed point, at a picture of `width x height`.
#[derive(Debug, Clone, Copy, PartialEq, Eq, Structural)]
pub struct PanelCamera {
    pub pos_x: i64,
    pub pos_y: i64,
    pub pos_z: i64,
    pub normal_x: i64,
    pub normal_y: i64,
    pub width: u32,
    pub height: u32,
}

impl PanelCamera {
    pub open spec fn wf(&self) -> bool {
        &&& abs_le(self.pos_x as int, POS3_BOUND as int)
        &&& abs_le(self.pos_y as int, POS3_BOUND as int)
        &&& abs_le(self.pos_z as int, POS3_BOUND as int)
        &&& abs_le(self.normal_x as int, NORMAL3_BOUND as int)
        &&& abs_le(self.normal_y as int, NORMAL3_BOUND as int)
        &&& 1 <= self.width <= VIEW3_BOUND
        &&& 1 <= self.height <= VIEW3_BOUND
    }
}

/// Direction of the ray through pixel `(px, py)`, scaled by `4 * width * height`:
/// the normal, plus `px / width - 1/2` of the right vector `normal x up`,
/// plus `1/2 - py / height` of the up vector (length `FIX`).
pub open spec fn dir_x(c: PanelCamera, px: int, py: int) -> int {
    4 * c.width * c.height * c.normal_x + 2 * c.height * (2 * px - c.width) * c.normal_y
}

pub open spec fn dir_y(c: PanelCamera, px: int, py: int) -> int {
    4 * c.width * c.height * c.normal_y - 2 * c.height * (2 * px - c.width) * c.normal_x
}

pub open spec fn dir_z(c: PanelCamera, px: int, py: int) -> int {
    2 * c.width * (c.height - 2 * py) * FIX
}

/// The front normal of a panel, `s1 x (0, 0, 1)`; it has no vertical part.
pub open spec fn front_x(p: Panel) -> int {
    p.s1_y as int
}

pub open spec fn front_y(p: Panel) -> int {
    -(p.s1_x as int)
}

/// `dot(ray, front)`: negative when the ray strikes the panel's front.
pub open spec fn incidence(c: PanelCamera, px: int, py: int, p: Panel) -> int {
    dir_x(c, px, py) * front_x(p) + dir_y(c, px, py) * front_y(p)
}

/// Camera minus panel corner, in fixed point.
pub open spec fn rel_x(c: PanelCamera, p: Panel) -> int {
    c.pos_x - p.pos_x * HALF
}

pub open spec fn rel_y(c: PanelCamera, p: Panel) -> int {
    c.pos_y - p.pos_y * HALF
}

pub open spec fn rel_z(c: PanelCamera, p: Panel) -> int {
    c.pos_z - p.pos_z * FIX
}

/// A ray met a panel at parameter `t_num / t_den` along the scaled ray.
#[derive(Debug, Clone, Copy, PartialEq, Eq, Structural)]
pub struct PanelHit {
    pub t_num: i128,
    pub t_den: i128,
    pub color: Color,
}

/// Where the ray through pixel `(px, py)` meets the front of a panel, if it
/// does inside the panel, strictly between its edges, at `t > 0`.
pub open spec fn panel_hit_spec(c: PanelCamera, px: int, py: int, p: Panel) -> Option<PanelHit> {
    let den = -incidence(c, px, py, p);
    if den <= 0 {
        None
    } else {
        // t = dot(corner - cam, front) / dot(ray, front)
        let tn = rel_x(c, p) * front_x(p) + rel_y(c, p) * front_y(p);
        // place along s1 and s2, times `den`, in fixed point
        let q1 = (rel_x(c, p) * p.s1_x + rel_y(c, p) * p.s1_y) * den + tn * (dir_x(c, px, py)
            * p.s1_x + dir_y(c, px, py) * p.s1_y);
        let q2 = rel_z(c, p) * den + tn * dir_z(c, px, py);
        if tn > 0 && 0 < q1 && q1 < FIX * den && 0 < q2 && q2 < FIX * den {
            Some(PanelHit { t_num: tn as i128, t_den: den as i128, color: p.color })
        } else {
            None
        }
    }
}

/// The ray is scaled by `4 * width * height`: its point on the view plane
/// lies at `t = 1 / view_scale`.
pub open spec fn view_scale(c: PanelCamera) -> int {
    4 * c.width * c.height
}

/// Distance of a hit from the ray's point on the view plane, as a multiple
/// of the scaled ray's length times `view_scale / t_den`.
pub open spec fn deviation(c: PanelCamera, h: PanelHit) -> int {
    let d = view_scale(c) * h.t_num - h.t_den;
    if d >= 0 { d } else { -d }
}

pub open spec fn closer(c: PanelCamera, h: PanelHit, g: PanelHit) -> bool {
    deviation(c, h) * (g.t_den as int) < deviation(c, g) * (h.t_den as int)
}

/// The hit closest to the view plane; of equal ones the first in the list.
pub open spec fn nearest_panel_spec(c: PanelCamera, px: int, py: int, ps: Seq<Panel>) -> Option<PanelHit>
    decreases ps.len(),
{
    if ps.len() == 0 {
        None
    } else {
        let best = nearest_panel_spec(c, px, py, ps.drop_last());
        match panel_hit_spec(c, px, py, ps.last()) {
            None => best,
            Some(h) => match best {
                None => Some(h),
                Some(b) => if closer(c, h, b) {
                    Some(h)
                } else {
                    best
                },
            },
        }
    }
}

/// The color of pixel `(px, py)`: the nearest panel's, or else the floor
/// below the horizon and the sky above it.
pub open spec fn panel_pixel_spec(c: PanelCamera, ps: Seq<Panel>, px: int, py: int) -> Color {
    match nearest_panel_spec(c, px, py, ps) {
        Some(h) => h.color,
        None => if dir_z(c, px, py) < 0 {
            floor_spec()
        } else {
            sky_spec()
        },
    }
}

/// A ray that runs parallel to a panel's plane never hits it.
pub proof fn lemma_parallel_ray_misses(c: PanelCamera, px: int, py: int, p: Panel)
    requires
        incidence(c, px, py, p) == 0,
    ensures
        panel_hit_spec(c, px, py, p) is None,
{
}

pub open spec fn panel_hit_bounded(h: PanelHit) -> bool {
    &&& 0 < h.t_num <= 0x1000_0000_0000
    &&& 0 < h.t_den <= 0x4000_0000_0000
}

/// Finds where the ray through pixel `(px, py)` meets the front of a panel.
pub fn panel_hit(c: &PanelCamera, px: u32, py: u32, p: &Panel) -> (r: Option<PanelHit>)
    requires
        c.wf(),
        px < c.width,
        py < c.height,
        panel_bounded(*p),
    ensures
        r == panel_hit_spec(*c, px as int, py as int, *p),
        r matches Some(h) ==> panel_hit_bounded(h),
{
    let w = c.width as i128;
    let h = c.height as i128;
    let x = px as i128;
    let y = py as i128;
    let nx = c.normal_x as i128;
    let ny = c.normal_y as i128;
    proof {
        lemma_mul_bound(4 * w, h as int, 0x4000, 0x1000);
        lemma_mul_bound(2 * h, 2 * x - w, 0x2000, 0x1000);
        lemma_mul_bound(2 * w, h - 2 * y, 0x2000, 0x1000);
        lemma_mul_bound(4 * w * h, nx as int, 0x400_0000, 0x2_0000);
        lemma_mul_bound(4 * w * h, ny as int, 0x400_0000, 0x2_0000);
        lemma_mul_bound(2 * h * (2 * x - w), nx as int, 0x200_0000, 0x2_0000);
        lemma_mul_bound(2 * h * (2 * x - w), ny as int, 0x200_0000, 0x2_0000);
        lemma_mul_bound(2 * w * (h - 2 * y), FIX as int, 0x200_0000, 0x1_0000);
        lemma_mul_bound(p.pos_x as int, HALF as int, 0x400_0000, 0x8000);
        lemma_mul_bound(p.pos_y as int, HALF as int, 0x400_0000, 0x8000);
        lemma_mul_bound(p.pos_z as int, FIX as int, 0x400_0000, 0x1_0000);
    }
    let dx = 4 * w * h * nx + 2 * h * (2 * x - w) * ny;
    let dy = 4 * w * h * ny - 2 * h * (2 * x - w) * nx;
    let dz = 2 * w * (h - 2 * y) * (FIX as i128);
    let fx = p.s1_y as i128;
    let fy = -(p.s1_x as i128);
    let s1x = p.s1_x as i128;
    let s1y = p.s1_y as i128;
    let rx = c.pos_x as i128 - (p.pos_x as i128) * (HALF as i128);
    let ry = c.pos_y as i128 - (p.pos_y as i128) * (HALF as i128);
    let rz = c.pos_z as i128 - (p.pos_z as i128) * (FIX as i128);
    proof {
        lemma_mul_bound(dx as int, fx as int, 0x1000_0000_0000, 1);
        lemma_mul_bound(dy as int, fy as int, 0x1000_0000_0000, 1);
        lemma_mul_bound(dx as int, s1x as int, 0x1000_0000_0000, 1);
        lemma_mul_bound(dy as int, s1y as int, 0x1000_0000_0000, 1);
        lemma_mul_bound(rx as int, fx as int, 0x800_0000_0000, 1);
        lemma_mul_bound(ry as int, fy as int, 0x800_0000_0000, 1);
        lemma_mul_bound(rx as int, s1x as int, 0x800_0000_0000, 1);
        lemma_mul_bound(ry as int, s1y as int, 0x800_0000_0000, 1);
        assert(dx == dir_x(*c, px as int, py as int));
        assert(dy == dir_y(*c, px as int, py as int));
        assert(dz == dir_z(*c, px as int, py as int));
    }
    let den = -(dx * fx + dy * fy);
    if den <= 0 {
        return None;
    }
    let tn = rx * fx + ry * fy;
    let along1 = rx * s1x + ry * s1y;
    let dir1 = dx * s1x + dy * s1y;
    proof {
        lemma_mul_bound(along1 as int, den as int, 0x1000_0000_0000, 0x2000_0000_0000);
        lemma_mul_bound(tn as int, dir1 as int, 0x1000_0000_0000, 0x2000_0000_0000);
        lemma_mul_bound(rz as int, den as int, 0x1000_0000_0000, 0x2000_0000_0000);
        lemma_mul_bound(tn as int, dz as int, 0x1000_0000_0000, 0x1000_0000_0000);
    }
    let q1 = along1 * den + tn * dir1;
    let q2 = rz * den + tn * dz;
    let full = (FIX as i128) * den;
    if tn > 0 && 0 < q1 && q1 < full && 0 < q2 && q2 < full {
        Some(PanelHit { t_num: tn, t_den: den, color: p.color })
    } else {
        None
    }
}

/// Finds the panel hit nearest to the view plane for pixel `(px, py)`; of
/// equally near ones, the first in the list.
pub fn nearest_panel(c: &PanelCamera, px: u32, py: u32, panels: &Vec<Panel>) -> (r: Option<PanelHit>)
    requires
        c.wf(),
        px < c.width,
        py < c.height,
        panels_bounded(panels@),
    ensures
        r == nearest_panel_spec(*c, px as int, py as int, panels@),
        r matches Some(h) ==> panel_hit_bounded(h),
{
    proof {
        lemma_mul_bound(4 * (c.width as int), c.height as int, 0x4000, 0x1000);
        assert(0 < 4 * (c.width as int) * (c.height as int)) by (nonlinear_arith)
            requires
                c.width >= 1,
                c.height >= 1,
        ;
    }
    let k = 4 * (c.width as i128) * (c.height as i128);
    let mut best: Option<PanelHit> = None;
    let mut i: usize = 0;
    while i < panels.len()
        invariant
            c.wf(),
            px < c.width,
            py < c.height,
            panels_bounded(panels@),
            k == view_scale(*c),
            0 < k <= 0x400_0000,
            i <= panels@.len(),
            best == nearest_panel_spec(*c, px as int, py as int, panels@.take(i as int)),
            best matches Some(h) ==> panel_hit_bounded(h),
        decreases panels@.len() - i,
    {
        assert(panels@.take(i as int + 1).drop_last() == panels@.take(i as int));
        assert(panels@.take(i as int + 1).last() == panels@[i as int]);
        match panel_hit(c, px, py, &panels[i]) {
            Some(h) => {
                match best {
                    None => {
                        best = Some(h);
                    },
                    Some(b) => {
                        proof {
                            lemma_mul_bound(k as int, h.t_num as int, 0x400_0000, 0x1000_0000_0000);
                            lemma_mul_bound(k as int, b.t_num as int, 0x400_0000, 0x1000_0000_0000);
                        }
                        let dh = k * h.t_num - h.t_den;
                        let db = k * b.t_num - b.t_den;
                        let ah = if dh >= 0 { dh } else { -dh };
                        let ab = if db >= 0 { db } else { -db };
                        proof {
                            lemma_mul_bound(ah as int, b.t_den as int, 0x80_0000_0000_0000_0000, 0x4000_0000_0000);
                            lemma_mul_bound(ab as int, h.t_den as int, 0x80_0000_0000_0000_0000, 0x4000_0000_0000);
                        }
                        if ah * b.t_den < ab * h.t_den {
                            best = Some(h);
                        }
                    },
                }
            },
            None => {},
        }
        i = i + 1;
    }
    assert(panels@.take(panels@.len() as int) == panels@);
    best
}

/// Colors pixel `(px, py)` of the panel view.
pub fn panel_pixel(c: &PanelCamera, panels: &Vec<Panel>, px: u32, py: u32) -> (color: Color)
    requires
        c.wf(),
        px < c.width,
        py < c.height,
        panels_bounded(panels@),
    ensures
        color == panel_pixel_spec(*c, panels@, px as int, py as int),
{
    match nearest_panel(c, px, py, panels) {
        Some(h) => h.color,
        None => {
            if py * 2 > c.height {
                proof {
                    lemma_mul_bound(2 * (c.width as int), c.height - 2 * py, 0x2000, 0x1000);
                    assert(dir_z(*c, px as int, py as int) < 0) by (nonlinear_arith)
                        requires
                            c.width >= 1,
                            c.height - 2 * py < 0,
                            dir_z(*c, px as int, py as int) == 2 * c.width * (c.height - 2 * py) * FIX,
                    ;
                }
                Color::floor()
            } else {
                proof {
                    assert(dir_z(*c, px as int, py as int) >= 0) by (nonlinear_arith)
                        requires
                            c.width >= 1,
                            c.height - 2 * py >= 0,
                            dir_z(*c, px as int, py as int) == 2 * c.width * (c.height - 2 * py) * FIX,
                    ;
                }
                Color::sky()
            }
        },
    }
}

/// Stands a panel on each wall, in the same order.
pub fn create_panels(walls: &Vec<Wall>) -> (panels: Vec<Panel>)
    ensures
        panels@.len() == walls@.len(),
        forall|i: int| 0 <= i < walls@.len() ==> (#[trigger] panels@[i]) == panel_of(walls@[i]),
        walls_bounded(walls@) ==> panels_bounded(panels@),
{
    let mut panels: Vec<Panel> = Vec::new();
    let mut i: usize = 0;
    while i < walls.len()
        invariant
            i <= walls@.len(),
            panels@.len() == i,
            forall|j: int| 0 <= j < i ==> (#[trigger] panels@[j]) == panel_of(walls@[j]),
        decreases walls@.len() - i,
    {
        let w = walls[i];
        panels.push(Panel { pos_x: w.pos_x, pos_y: w.pos_y, pos_z: 0, s1_x: w.side_x, s1_y: w.side_y, color: w.color });
        i = i + 1;
    }
    assert(walls_bounded(walls@) ==> panels_bounded(panels@)) by {
        if walls_bounded(walls@) {
            assert forall|j: int| 0 <= j < panels@.len() implies panel_bounded(#[trigger] panels@[j]) by {
                assert(panels@[j] == panel_of(walls@[j]));
            }
        }
    }
    panels
}

} // verus!
