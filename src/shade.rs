use vstd::prelude::*;

use crate::color::{Color, floor_spec, sky_spec};
use crate::texture::{Texture, clamp_spec, clamp_index};
use crate::trace::{Camera, Hit, hit_bounded, lemma_mul_bound, nearest_hit, nearest_spec, walls_bounded};
use crate::walls::Wall;

verus! {

/// Twice the height of screen row `row` above the horizon, in units of
/// `1 / height`: `y = (height - row) / height - 1/2` equals `level / (2 * height)`.
pub open spec fn level(height: int, row: int) -> int {
    height - 2 * row
}

/// Texture row for screen row `row` inside the band of a wall at depth
/// `dn / dd`: `(1/2 - y * depth) * texture height`, rounded down.
pub open spec fn texel_row(height: int, row: int, dn: int, dd: int, th: int) -> int {
    th * (height * dd - level(height, row) * dn) / (2 * height * dd)
}

/// Texture column for a hit at place `an / ad` along its wall.
pub open spec fn texel_column(an: int, ad: int, tw: int) -> int {
    an * tw / ad
}

/// The color of screen row `row` in a column whose nearest hit is `hit`.
///
/// The wall appears `1 / depth` tall, centred on the horizon: rows below its
/// band show the floor, rows above it the sky, rows on it the texture, or the
/// wall's own color where there is no texture.
pub open spec fn shade_spec(height: int, row: int, hit: Option<Hit>, tex: Option<&Texture>) -> Color {
    let y = level(height, row);
    match hit {
        None => if y < 0 {
            floor_spec()
        } else {
            sky_spec()
        },
        Some(h) => {
            let dn = h.dist_num as int;
            let dd = h.dist_den as int;
            if y * dn < -(height * dd) {
                floor_spec()
            } else if y * dn > height * dd {
                sky_spec()
            } else {
                match tex {
                    Some(t) => t.texel(
                        clamp_spec(texel_column(h.a_num as int, h.a_den as int, t.width as int), t.width as int),
                        clamp_spec(texel_row(height, row, dn, dd, t.height as int), t.height as int),
                    ),
                    None => h.color,
                }
            }
        },
    }
}

/// The color of pixel `(col, row)` of the picture.
pub open spec fn pixel_spec(cam: Camera, walls: Seq<Wall>, tex: Option<&Texture>, col: int, row: int) -> Color {
    shade_spec(cam.height as int, row, nearest_spec(cam, col, walls), tex)
}

/// Brings a wide index into `[0, n)`.
fn clamp_wide(i: u128, n: u32) -> (r: usize)
    requires
        n >= 1,
    ensures
        r == clamp_spec(i as int, n as int),
{
    if i < n as u128 {
        i as usize
    } else {
        (n - 1) as usize
    }
}

/// Colors one screen row of a column whose nearest hit is `hit`.
pub fn shade(height: u32, row: u32, hit: &Option<Hit>, texture: Option<&Texture>) -> (c: Color)
    requires
        1 <= height <= 65536,
        row < height,
        texture matches Some(t) ==> t.wf(),
        *hit matches Some(h) ==> hit_bounded(h),
    ensures
        c == shade_spec(height as int, row as int, *hit, texture),
{
    let y = height as i128 - 2 * (row as i128);
    match hit {
        None => {
            if y < 0 {
                Color::floor()
            } else {
                Color::sky()
            }
        },
        Some(h) => {
            let hi = height as i128;
            proof {
                lemma_mul_bound(y as int, h.dist_num as int, 0x1_0000, 0x100_0000_0000_0000_0000_0000_0000);
                lemma_mul_bound(hi as int, h.dist_den as int, 0x1_0000, 0x100_0000_0000_0000_0000);
            }
            let yd = y * h.dist_num;
            let hd = hi * h.dist_den;
            if yd < -hd {
                Color::floor()
            } else if yd > hd {
                Color::sky()
            } else if texture.is_none() {
                h.color
            } else {
                let tex = texture.unwrap();
                let th = tex.height as i128;
                let tw = tex.width as i128;
                proof {
                    lemma_mul_bound(th as int, hd - yd, 0x1_0000_0000, 0x200_0000_0000_0000_0000_0000);
                    lemma_mul_bound(h.a_num as int, tw as int, 0x100_0000_0000_0000, 0x1_0000_0000);
                    assert(0 <= th * (hd - yd)) by (nonlinear_arith)
                        requires
                            0 <= th,
                            0 <= hd - yd,
                    ;
                    assert(0 <= h.a_num * tw) by (nonlinear_arith)
                        requires
                            0 <= h.a_num,
                            0 <= tw,
                    ;
                    assert(hd > 0) by (nonlinear_arith)
                        requires
                            hi >= 1,
                            h.dist_den > 0,
                            hd == hi * h.dist_den,
                    ;
                    assert(2 * hi * h.dist_den == 2 * hd) by (nonlinear_arith)
                        requires
                            hd == hi * h.dist_den,
                    ;
                }
                let row_q = ((th * (hd - yd)) as u128) / ((2 * hd) as u128);
                let col_q = ((h.a_num * tw) as u128) / (h.a_den as u128);
                let cy = clamp_wide(row_q, tex.height);
                let cx = clamp_wide(col_q, tex.width);
                tex.sample(cx, cy)
            }
        },
    }
}

/// Computes the colors of one screen column, top row first.
pub fn calculate_vline(x: u32, cam: &Camera, walls: &Vec<Wall>, texture: Option<&Texture>) -> (vline: Vec<Color>)
    requires
        cam.wf(),
        x < cam.width,
        walls_bounded(walls@),
        texture matches Some(t) ==> t.wf(),
    ensures
        vline@.len() == cam.height,
        forall|row: int|
            0 <= row < cam.height ==> vline@[row] == pixel_spec(*cam, walls@, texture, x as int, row),
{
    let hit = nearest_hit(cam, x, walls);
    let mut vline: Vec<Color> = Vec::new();
    let mut i: u32 = 0;
    while i < cam.height
        invariant
            cam.wf(),
            texture matches Some(t) ==> t.wf(),
            hit == nearest_spec(*cam, x as int, walls@),
            hit matches Some(h) ==> hit_bounded(h),
            i <= cam.height,
            vline@.len() == i,
            forall|row: int|
                0 <= row < i ==> vline@[row] == pixel_spec(*cam, walls@, texture, x as int, row),
        decreases cam.height - i,
    {
        vline.push(shade(cam.height, i, &hit, texture));
        i = i + 1;
    }
    vline
}

} // verus!
