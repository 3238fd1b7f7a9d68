use vstd::prelude::*;

use crate::color::Color;
use crate::walls::{Wall, unit_axis};

verus! {

/// Fixed-point scale of camera coordinates: one grid unit is `FIX` steps.
pub const FIX: i64 = 65536;

/// One half grid unit in fixed-point steps; wall anchors are in half units.
pub const HALF: i64 = 32768;

/// Bound on the camera position, in fixed-point steps.
pub const POS_BOUND: i64 = 0x100_0000_0000;

/// Bound on each component of the camera normal, in fixed-point steps.
pub const NORMAL_BOUND: i64 = 0x10_0000;

/// Bound on the viewport width and height, in pixels.
pub const VIEW_BOUND: u32 = 65536;

/// Bound on a wall anchor, in half grid units.
pub const WALL_BOUND: i64 = 0x400_0000;

/// The viewer: a position and a forward vector in fixed point (`FIX` steps per
/// grid unit), and the size of the picture in pixels.
#[derive(Debug, Clone, Copy, PartialEq, Eq, Structural)]
pub struct Camera {
    pub pos_x: i64,
    pub pos_y: i64,
    pub normal_x: i64,
    pub normal_y: i64,
    pub width: u32,
    pub height: u32,
}

pub open spec fn abs_le(v: int, b: int) -> bool {
    -b <= v <= b
}

impl Camera {
    /// Tells whether the camera is within the bounds that the tracer takes.
    pub fn is_valid(&self) -> (r: bool)
        ensures
            r == self.wf(),
    {
        -POS_BOUND <= self.pos_x && self.pos_x <= POS_BOUND && -POS_BOUND <= self.pos_y
            && self.pos_y <= POS_BOUND && -NORMAL_BOUND <= self.normal_x && self.normal_x
            <= NORMAL_BOUND && -NORMAL_BOUND <= self.normal_y && self.normal_y <= NORMAL_BOUND
            && (self.normal_x != 0 || self.normal_y != 0) && 1 <= self.width && self.width
            <= VIEW_BOUND && 1 <= self.height && self.height <= VIEW_BOUND
    }

    pub open spec fn wf(&self) -> bool {
        &&& abs_le(self.pos_x as int, POS_BOUND as int)
        &&& abs_le(self.pos_y as int, POS_BOUND as int)
        &&& abs_le(self.normal_x as int, NORMAL_BOUND as int)
        &&& abs_le(self.normal_y as int, NORMAL_BOUND as int)
        &&& (self.normal_x != 0 || self.normal_y != 0)
        &&& 1 <= self.width <= VIEW_BOUND
        &&& 1 <= self.height <= VIEW_BOUND
    }
}

/// A wall that the tracer can take: a unit span and an anchor within bounds.
pub open spec fn wall_bounded(wall: Wall) -> bool {
    &&& wall.wf()
    &&& abs_le(wall.pos_x as int, WALL_BOUND as int)
    &&& abs_le(wall.pos_y as int, WALL_BOUND as int)
}

pub open spec fn walls_bounded(walls: Seq<Wall>) -> bool {
    forall|i: int| 0 <= i < walls.len() ==> wall_bounded(#[trigger] walls[i])
}

/// Direction of the ray through screen column `col`, up to a positive factor:
/// the point of the view plane one unit ahead, offset sideways by
/// `col / width - 1/2`, scaled by `2 * width`.
pub open spec fn ray_x(cam: Camera, col: int) -> int {
    2 * cam.width * cam.normal_x - (2 * col - cam.width) * cam.normal_y
}

pub open spec fn ray_y(cam: Camera, col: int) -> int {
    2 * cam.width * cam.normal_y + (2 * col - cam.width) * cam.normal_x
}

/// Camera position minus wall anchor, in fixed-point steps.
pub open spec fn offset_x(cam: Camera, wall: Wall) -> int {
    cam.pos_x - wall.pos_x * HALF
}

pub open spec fn offset_y(cam: Camera, wall: Wall) -> int {
    cam.pos_y - wall.pos_y * HALF
}

/// `cross(side, ray)`: zero when the ray runs parallel to the wall.
pub open spec fn facing(cam: Camera, col: int, wall: Wall) -> int {
    wall.side_x * ray_y(cam, col) - wall.side_y * ray_x(cam, col)
}

/// `cross(cam - anchor, ray)`: the crossing's place along the wall, times `FIX * facing`.
pub open spec fn along(cam: Camera, col: int, wall: Wall) -> int {
    offset_x(cam, wall) * ray_y(cam, col) - offset_y(cam, wall) * ray_x(cam, col)
}

/// `cross(cam - anchor, side)`: the ray parameter of the crossing, times `facing`.
pub open spec fn reach(cam: Camera, wall: Wall) -> int {
    offset_x(cam, wall) * wall.side_y - offset_y(cam, wall) * wall.side_x
}

/// `dot(ray, normal)`.
pub open spec fn forward(cam: Camera, col: int) -> int {
    ray_x(cam, col) * cam.normal_x + ray_y(cam, col) * cam.normal_y
}

/// Where a ray met a wall, as exact fractions with positive denominators:
/// the ray parameter `t`, the place `a` along the wall (strictly between 0
/// and 1), and the depth along the camera's forward axis in grid units.
#[derive(Debug, Clone, Copy, PartialEq, Eq, Structural)]
pub struct Hit {
    pub t_num: i128,
    pub t_den: i128,
    pub a_num: i128,
    pub a_den: i128,
    pub dist_num: i128,
    pub dist_den: i128,
    pub color: Color,
}

/// The crossing of the ray through column `col` with one wall, if the ray
/// meets the open segment at a parameter `t >= 0`.
pub open spec fn hit_spec(cam: Camera, col: int, wall: Wall) -> Option<Hit> {
    let den = facing(cam, col, wall);
    if den == 0 {
        None
    } else {
        let an = if den > 0 { along(cam, col, wall) } else { -along(cam, col, wall) };
        let tn = if den > 0 { reach(cam, wall) } else { -reach(cam, wall) };
        let td = if den > 0 { den } else { -den };
        let ad = FIX * td;
        if 0 < an && an < ad && tn >= 0 {
            Some(
                Hit {
                    t_num: tn as i128,
                    t_den: td as i128,
                    a_num: an as i128,
                    a_den: ad as i128,
                    dist_num: (tn * forward(cam, col)) as i128,
                    dist_den: (td * FIX * FIX) as i128,
                    color: wall.color,
                },
            )
        } else {
            None
        }
    }
}

/// The first hit is nearer than the second: a smaller ray parameter.
pub open spec fn nearer(h: Hit, g: Hit) -> bool {
    (h.t_num as int) * (g.t_den as int) < (g.t_num as int) * (h.t_den as int)
}

/// The nearest hit among the walls; of equally near ones the first in the list.
pub open spec fn nearest_spec(cam: Camera, col: int, walls: Seq<Wall>) -> Option<Hit>
    decreases walls.len(),
{
    if walls.len() == 0 {
        None
    } else {
        let best = nearest_spec(cam, col, walls.drop_last());
        match hit_spec(cam, col, walls.last()) {
            None => best,
            Some(h) => match best {
                None => Some(h),
                Some(b) => if nearer(h, b) {
                    Some(h)
                } else {
                    best
                },
            },
        }
    }
}

/// Size limits that every hit obeys.
pub open spec fn hit_bounded(h: Hit) -> bool {
    &&& 0 <= h.t_num <= 0x1000_0000_0000
    &&& 0 < h.t_den <= 0x100_0000_0000
    &&& 0 < h.a_num < h.a_den <= 0x100_0000_0000_0000
    &&& abs_le(h.dist_num as int, 0x100_0000_0000_0000_0000_0000_0000)
    &&& 0 < h.dist_den <= 0x100_0000_0000_0000_0000
}

pub(crate) proof fn lemma_mul_bound(a: int, b: int, x: int, y: int)
    requires
        abs_le(a, x),
        abs_le(b, y),
    ensures
        abs_le(a * b, x * y),
{
    assert(-(x * y) <= a * b <= x * y) by (nonlinear_arith)
        requires
            -x <= a <= x,
            -y <= b <= y,
    ;
}

/// Finds where the ray through column `col` crosses one wall, if it does.
pub fn wall_hit(cam: &Camera, col: u32, wall: &Wall) -> (r: Option<Hit>)
    requires
        cam.wf(),
        col < cam.width,
        wall_bounded(*wall),
    ensures
        r == hit_spec(*cam, col as int, *wall),
        r matches Some(h) ==> hit_bounded(h),
{
    let w = cam.width as i128;
    let c = col as i128;
    let nx = cam.normal_x as i128;
    let ny = cam.normal_y as i128;
    let sx = wall.side_x as i128;
    let sy = wall.side_y as i128;
    proof {
        lemma_mul_bound(2 * w, nx as int, 0x2_0000, 0x10_0000);
        lemma_mul_bound(2 * w, ny as int, 0x2_0000, 0x10_0000);
        lemma_mul_bound(2 * c - w, nx as int, 0x1_0000, 0x10_0000);
        lemma_mul_bound(2 * c - w, ny as int, 0x1_0000, 0x10_0000);
        lemma_mul_bound(wall.pos_x as int, HALF as int, 0x400_0000, 0x8000);
        lemma_mul_bound(wall.pos_y as int, HALF as int, 0x400_0000, 0x8000);
    }
    let rx = 2 * w * nx - (2 * c - w) * ny;
    let ry = 2 * w * ny + (2 * c - w) * nx;
    let ox = cam.pos_x as i128 - (wall.pos_x as i128) * (HALF as i128);
    let oy = cam.pos_y as i128 - (wall.pos_y as i128) * (HALF as i128);
    proof {
        lemma_mul_bound(sx as int, ry as int, 1, 0x40_0000_0000);
        lemma_mul_bound(sy as int, rx as int, 1, 0x40_0000_0000);
        lemma_mul_bound(ox as int, ry as int, 0x400_0000_0000, 0x40_0000_0000);
        lemma_mul_bound(oy as int, rx as int, 0x400_0000_0000, 0x40_0000_0000);
        lemma_mul_bound(ox as int, sy as int, 0x400_0000_0000, 1);
        lemma_mul_bound(oy as int, sx as int, 0x400_0000_0000, 1);
        lemma_mul_bound(rx as int, nx as int, 0x40_0000_0000, 0x10_0000);
        lemma_mul_bound(ry as int, ny as int, 0x40_0000_0000, 0x10_0000);
    }
    let den = sx * ry - sy * rx;
    if den == 0 {
        return None;
    }
    let cross_a = ox * ry - oy * rx;
    let cross_t = ox * sy - oy * sx;
    let fwd = rx * nx + ry * ny;
    let (an, td, tn) = if den > 0 {
        (cross_a, den, cross_t)
    } else {
        (-cross_a, -den, -cross_t)
    };
    let ad = (FIX as i128) * td;
    proof {
        assert(rx == ray_x(*cam, col as int));
        assert(ry == ray_y(*cam, col as int));
        assert(den == facing(*cam, col as int, *wall));
        assert(cross_a == along(*cam, col as int, *wall));
        assert(cross_t == reach(*cam, *wall));
        assert(fwd == forward(*cam, col as int));
        assert(ad == FIX * td);
    }
    if 0 < an && an < ad && tn >= 0 {
        proof {
            lemma_mul_bound(tn as int, fwd as int, 0x800_0000_0000, 0x1000_0000_0000_0000);
            lemma_mul_bound(td as int, (FIX * FIX) as int, 0x100_0000_0000, 0x1_0000_0000);
        }
        let dist_num = tn * fwd;
        let dist_den = td * ((FIX as i128) * (FIX as i128));
        proof {
            assert(td * FIX * FIX == td * (FIX * FIX)) by (nonlinear_arith);
        }
        Some(
            Hit {
                t_num: tn,
                t_den: td,
                a_num: an,
                a_den: ad,
                dist_num,
                dist_den,
                color: wall.color,
            },
        )
    } else {
        None
    }
}

/// Finds the nearest wall that the ray through column `col` meets; of equally
/// near walls, the first in the list.
pub fn nearest_hit(cam: &Camera, col: u32, walls: &Vec<Wall>) -> (r: Option<Hit>)
    requires
        cam.wf(),
        col < cam.width,
        walls_bounded(walls@),
    ensures
        r == nearest_spec(*cam, col as int, walls@),
        r matches Some(h) ==> hit_bounded(h),
{
    let mut best: Option<Hit> = None;
    let mut i: usize = 0;
    while i < walls.len()
        invariant
            cam.wf(),
            col < cam.width,
            walls_bounded(walls@),
            i <= walls@.len(),
            best == nearest_spec(*cam, col as int, walls@.take(i as int)),
            best matches Some(h) ==> hit_bounded(h),
        decreases walls@.len() - i,
    {
        assert(walls@.take(i as int + 1).drop_last() == walls@.take(i as int));
        assert(walls@.take(i as int + 1).last() == walls@[i as int]);
        let found = wall_hit(cam, col, &walls[i]);
        match found {
            Some(h) => {
                match best {
                    None => {
                        best = Some(h);
                    },
                    Some(b) => {
                        proof {
                            lemma_mul_bound(h.t_num as int, b.t_den as int, 0x1000_0000_0000, 0x100_0000_0000);
                            lemma_mul_bound(b.t_num as int, h.t_den as int, 0x1000_0000_0000, 0x100_0000_0000);
                        }
                        if h.t_num * b.t_den < b.t_num * h.t_den {
                            best = Some(h);
                        }
                    },
                }
            },
            None => {},
        }
        i = i + 1;
    }
    assert(walls@.take(walls@.len() as int) == walls@);
    best
}

/// `dot(anchor - cam, normal)`: how far ahead of the camera a wall's line
/// lies, times `FIX * FIX`, when the wall runs across the view direction.
pub open spec fn wall_depth(cam: Camera, wall: Wall) -> int {
    -(offset_x(cam, wall) * cam.normal_x + offset_y(cam, wall) * cam.normal_y)
}

/// A hit's depth is measured along the camera's forward axis, not along the
/// ray: on a wall square to the view direction, every column that meets it
/// sees it at the depth of its line, so two rays at different angles give
/// the same depth.
pub proof fn lemma_depth_is_perpendicular(cam: Camera, wall: Wall, c1: int, c2: int)
    requires
        cam.wf(),
        wall_bounded(wall),
        wall.side_x * cam.normal_x + wall.side_y * cam.normal_y == 0,
        0 <= c1 < cam.width,
        0 <= c2 < cam.width,
        hit_spec(cam, c1, wall) is Some,
        hit_spec(cam, c2, wall) is Some,
    ensures
        ({
            let h1 = hit_spec(cam, c1, wall).unwrap();
            let h2 = hit_spec(cam, c2, wall).unwrap();
            &&& (h1.dist_num as int) * (FIX * FIX) == (h1.dist_den as int) * wall_depth(cam, wall)
            &&& (h1.dist_num as int) * (h2.dist_den as int) == (h2.dist_num as int) * (h1.dist_den as int)
        }),
{
    lemma_hit_depth(cam, wall, c1);
    lemma_hit_depth(cam, wall, c2);
    let h1 = hit_spec(cam, c1, wall).unwrap();
    let h2 = hit_spec(cam, c2, wall).unwrap();
    let n1 = h1.dist_num as int;
    let d1 = h1.dist_den as int;
    let n2 = h2.dist_num as int;
    let d2 = h2.dist_den as int;
    let dep = wall_depth(cam, wall);
    let ff = FIX * FIX;
    assert(n1 * d2 == n2 * d1) by (nonlinear_arith)
        requires
            n1 * ff == d1 * dep,
            n2 * ff == d2 * dep,
            ff > 0,
    ;
}

proof fn lemma_hit_depth(cam: Camera, wall: Wall, col: int)
    requires
        cam.wf(),
        wall_bounded(wall),
        wall.side_x * cam.normal_x + wall.side_y * cam.normal_y == 0,
        0 <= col < cam.width,
        hit_spec(cam, col, wall) is Some,
    ensures
        ({
            let h = hit_spec(cam, col, wall).unwrap();
            (h.dist_num as int) * (FIX * FIX) == (h.dist_den as int) * wall_depth(cam, wall)
        }),
{
    let den = facing(cam, col, wall);
    let rx = ray_x(cam, col);
    let ry = ray_y(cam, col);
    let ox = offset_x(cam, wall);
    let oy = offset_y(cam, wall);
    let nx = cam.normal_x as int;
    let ny = cam.normal_y as int;
    let sx = wall.side_x as int;
    let sy = wall.side_y as int;
    let cs = reach(cam, wall);
    let fw = forward(cam, col);
    assert(cs * fw == den * wall_depth(cam, wall)) by (nonlinear_arith)
        requires
            cs == ox * sy - oy * sx,
            fw == rx * nx + ry * ny,
            den == sx * ry - sy * rx,
            wall_depth(cam, wall) == -(ox * nx + oy * ny),
            (sx == 0 && (sy == 1 || sy == -1)) || (sy == 0 && (sx == 1 || sx == -1)),
            sx * nx + sy * ny == 0,
    ;
    let tn: int = if den > 0 { cs } else { -cs };
    let td: int = if den > 0 { den } else { -den };
    assert(tn * fw == td * wall_depth(cam, wall)) by (nonlinear_arith)
        requires
            cs * fw == den * wall_depth(cam, wall),
            tn == (if den > 0 { cs } else { -cs }),
            td == (if den > 0 { den } else { -den }),
    ;
    lemma_ray_bounds(cam, col, wall);
    lemma_mul_bound(tn, fw, 0x800_0000_0000, 0x1000_0000_0000_0000);
    let h = hit_spec(cam, col, wall).unwrap();
    assert(h.dist_num as int == tn * fw);
    assert(h.dist_den as int == td * FIX * FIX);
    assert(tn * fw * (FIX * FIX) == td * FIX * FIX * wall_depth(cam, wall)) by (nonlinear_arith)
        requires
            tn * fw == td * wall_depth(cam, wall),
    ;
}

proof fn lemma_ray_bounds(cam: Camera, col: int, wall: Wall)
    requires
        cam.wf(),
        wall_bounded(wall),
        0 <= col < cam.width,
    ensures
        abs_le(ray_x(cam, col), 0x40_0000_0000),
        abs_le(ray_y(cam, col), 0x40_0000_0000),
        abs_le(reach(cam, wall), 0x800_0000_0000),
        abs_le(facing(cam, col, wall), 0x100_0000_0000),
        abs_le(forward(cam, col), 0x1000_0000_0000_0000),
{
    let w = cam.width as int;
    let nx = cam.normal_x as int;
    let ny = cam.normal_y as int;
    lemma_mul_bound(2 * w, nx, 0x2_0000, 0x10_0000);
    lemma_mul_bound(2 * w, ny, 0x2_0000, 0x10_0000);
    lemma_mul_bound(2 * col - w, nx, 0x1_0000, 0x10_0000);
    lemma_mul_bound(2 * col - w, ny, 0x1_0000, 0x10_0000);
    lemma_mul_bound(wall.pos_x as int, HALF as int, 0x400_0000, 0x8000);
    lemma_mul_bound(wall.pos_y as int, HALF as int, 0x400_0000, 0x8000);
    let rx = ray_x(cam, col);
    let ry = ray_y(cam, col);
    let ox = offset_x(cam, wall);
    let oy = offset_y(cam, wall);
    lemma_mul_bound(wall.side_x as int, ry, 1, 0x40_0000_0000);
    lemma_mul_bound(wall.side_y as int, rx, 1, 0x40_0000_0000);
    lemma_mul_bound(ox, wall.side_y as int, 0x400_0000_0000, 1);
    lemma_mul_bound(oy, wall.side_x as int, 0x400_0000_0000, 1);
    lemma_mul_bound(rx, nx, 0x40_0000_0000, 0x10_0000);
    lemma_mul_bound(ry, ny, 0x40_0000_0000, 0x10_0000);
}

} // verus!
