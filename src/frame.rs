use vstd::prelude::*;
use vstd::arithmetic::div_mod::{
    lemma_div_pos_is_pos,
    lemma_fundamental_div_mod,
    lemma_fundamental_div_mod_converse,
    lemma_mod_pos_bound,
};

use crate::color::Color;
use crate::panels::{Panel, PanelCamera, panel_pixel, panel_pixel_spec, panels_bounded};
use crate::shade::{calculate_vline, pixel_spec};
use crate::texture::Texture;
use crate::trace::{Camera, walls_bounded};
use crate::walls::Wall;

verus! {

/// Bytes per pixel of the frame buffer: blue, green, red and one left alone.
pub const BYTES_PER_PIXEL: usize = 4;

/// Channel `k` of a pixel in blue, green, red order.
pub open spec fn channel(c: Color, k: int) -> u8 {
    if k == 0 {
        c.b
    } else if k == 1 {
        c.g
    } else {
        c.r
    }
}

/// Byte `k` of the frame drawn over `old`: pixels are laid out row by row,
/// `x` increasing within a row; the fourth byte of each pixel keeps its value.
pub open spec fn frame_byte(old: Seq<u8>, cam: Camera, walls: Seq<Wall>, tex: Option<&Texture>, k: int) -> u8 {
    let p = k / 4;
    let w = cam.width as int;
    if k % 4 == 3 {
        old[k]
    } else {
        channel(pixel_spec(cam, walls, tex, p % w, p / w), k % 4)
    }
}

/// The whole frame drawn over the buffer `old`.
pub open spec fn frame_spec(old: Seq<u8>, cam: Camera, walls: Seq<Wall>, tex: Option<&Texture>) -> Seq<u8> {
    Seq::new(old.len(), |k: int| frame_byte(old, cam, walls, tex, k))
}

proof fn lemma_pixel_coords(p: int, w: int, h: int)
    requires
        0 <= p < w * h,
        1 <= w,
    ensures
        0 <= p % w < w,
        0 <= p / w < h,
{
    lemma_mod_pos_bound(p, w);
    lemma_div_pos_is_pos(p, w);
    lemma_fundamental_div_mod(p, w);
    assert(p / w < h) by (nonlinear_arith)
        requires
            p == w * (p / w) + p % w,
            0 <= p % w,
            p < w * h,
            1 <= w,
    ;
}

proof fn lemma_byte_of_pixel(p: int, c: int)
    requires
        0 <= c < 4,
    ensures
        (4 * p + c) / 4 == p,
        (4 * p + c) % 4 == c,
{
    lemma_fundamental_div_mod_converse(4 * p + c, 4, p, c);
}

/// Draws the picture that `camera` sees of `walls` into `buffer`, the walls
/// textured with `texture` or, without one, in their own colors.
pub fn render(buffer: &mut Vec<u8>, camera: &Camera, walls: &Vec<Wall>, texture: Option<&Texture>)
    requires
        camera.wf(),
        walls_bounded(walls@),
        texture matches Some(t) ==> t.wf(),
        old(buffer)@.len() == 4 * (camera.width as int) * (camera.height as int),
    ensures
        final(buffer)@ == frame_spec(old(buffer)@, *camera, walls@, texture),
{
    let w = camera.width;
    let h = camera.height;
    let mut columns: Vec<Vec<Color>> = Vec::new();
    let mut x: u32 = 0;
    while x < w
        invariant
            w == camera.width,
            h == camera.height,
            camera.wf(),
            walls_bounded(walls@),
            texture matches Some(t) ==> t.wf(),
            x <= w,
            columns@.len() == x,
            forall|cx: int|
                0 <= cx < x ==> (#[trigger] columns@[cx])@.len() == h,
            forall|cx: int, row: int|
                0 <= cx < x && 0 <= row < h ==> #[trigger] columns@[cx]@[row] == pixel_spec(
                    *camera,
                    walls@,
                    texture,
                    cx,
                    row,
                ),
        decreases w - x,
    {
        columns.push(calculate_vline(x, camera, walls, texture));
        x = x + 1;
    }
    let ghost start = buffer@;
    let len = buffer.len();
    assert(4 * (w as int) * (h as int) == 4 * ((w as int) * (h as int))) by (nonlinear_arith);
    assert(0 <= (w as int) * (h as int)) by (nonlinear_arith);
    let n = (w as usize) * (h as usize);
    let mut p: usize = 0;
    while p < n
        invariant
            w == camera.width,
            h == camera.height,
            1 <= w,
            n == w * h,
            start.len() == 4 * n,
            buffer@.len() == 4 * n,
            len == 4 * n,
            p <= n,
            columns@.len() == w,
            forall|cx: int|
                0 <= cx < w ==> (#[trigger] columns@[cx])@.len() == h,
            forall|cx: int, row: int|
                0 <= cx < w && 0 <= row < h ==> #[trigger] columns@[cx]@[row] == pixel_spec(
                    *camera,
                    walls@,
                    texture,
                    cx,
                    row,
                ),
            forall|k: int| 0 <= k < 4 * p ==> buffer@[k] == frame_byte(start, *camera, walls@, texture, k),
            forall|k: int| 4 * p <= k < 4 * n ==> buffer@[k] == start[k],
        decreases n - p,
    {
        proof {
            lemma_pixel_coords(p as int, w as int, h as int);
        }
        let cx = p % (w as usize);
        let cy = p / (w as usize);
        let color = columns[cx][cy];
        assert(4 * p + 3 < len);
        let base = 4 * p;
        buffer.set(base, color.b);
        buffer.set(base + 1, color.g);
        buffer.set(base + 2, color.r);
        proof {
            assert forall|k: int| 0 <= k < 4 * (p + 1) implies buffer@[k] == frame_byte(start, *camera, walls@, texture, k) by {
                if k >= 4 * p {
                    lemma_byte_of_pixel(p as int, k - 4 * p);
                }
            }
        }
        p = p + 1;
    }
    assert(buffer@ == frame_spec(start, *camera, walls@, texture));
}

/// Drawing is a function of the camera, the walls and the texture alone: a
/// frame drawn over any buffer, drawn again, comes out byte for byte the same.
pub proof fn lemma_render_idempotent(buf: Seq<u8>, cam: Camera, walls: Seq<Wall>, tex: Option<&Texture>)
    ensures
        frame_spec(frame_spec(buf, cam, walls, tex), cam, walls, tex) == frame_spec(buf, cam, walls, tex),
{
    assert(frame_spec(frame_spec(buf, cam, walls, tex), cam, walls, tex) =~= frame_spec(buf, cam, walls, tex));
}

/// Byte `k` of the panel view drawn over `old`, laid out as `frame_byte` does.
pub open spec fn panel_frame_byte(old: Seq<u8>, cam: PanelCamera, panels: Seq<Panel>, k: int) -> u8 {
    let p = k / 4;
    let w = cam.width as int;
    if k % 4 == 3 {
        old[k]
    } else {
        channel(panel_pixel_spec(cam, panels, p % w, p / w), k % 4)
    }
}

pub open spec fn panel_frame_spec(old: Seq<u8>, cam: PanelCamera, panels: Seq<Panel>) -> Seq<u8> {
    Seq::new(old.len(), |k: int| panel_frame_byte(old, cam, panels, k))
}

/// Draws the panel view, one traced ray per pixel, into `buffer`.
pub fn render_panels(buffer: &mut Vec<u8>, camera: &PanelCamera, panels: &Vec<Panel>)
    requires
        camera.wf(),
        panels_bounded(panels@),
        old(buffer)@.len() == 4 * (camera.width as int) * (camera.height as int),
    ensures
        final(buffer)@ == panel_frame_spec(old(buffer)@, *camera, panels@),
{
    let w = camera.width;
    let h = camera.height;
    let ghost start = buffer@;
    let len = buffer.len();
    assert(4 * (w as int) * (h as int) == 4 * ((w as int) * (h as int))) by (nonlinear_arith);
    assert(0 <= (w as int) * (h as int)) by (nonlinear_arith);
    let n = (w as usize) * (h as usize);
    let mut p: usize = 0;
    while p < n
        invariant
            camera.wf(),
            panels_bounded(panels@),
            w == camera.width,
            h == camera.height,
            1 <= w,
            n == w * h,
            start.len() == 4 * n,
            buffer@.len() == 4 * n,
            len == 4 * n,
            p <= n,
            forall|k: int| 0 <= k < 4 * p ==> buffer@[k] == panel_frame_byte(start, *camera, panels@, k),
            forall|k: int| 4 * p <= k < 4 * n ==> buffer@[k] == start[k],
        decreases n - p,
    {
        proof {
            lemma_pixel_coords(p as int, w as int, h as int);
        }
        let cx = p % (w as usize);
        let cy = p / (w as usize);
        let color = panel_pixel(camera, panels, cx as u32, cy as u32);
        assert(4 * p + 3 < len);
        let base = 4 * p;
        buffer.set(base, color.b);
        buffer.set(base + 1, color.g);
        buffer.set(base + 2, color.r);
        proof {
            assert forall|k: int| 0 <= k < 4 * (p + 1) implies buffer@[k] == panel_frame_byte(start, *camera, panels@, k) by {
                if k >= 4 * p {
                    lemma_byte_of_pixel(p as int, k - 4 * p);
                }
            }
        }
        p = p + 1;
    }
    assert(buffer@ == panel_frame_spec(start, *camera, panels@));
}

/// The panel view, like the column view, comes out byte for byte the same
/// when drawn again over its own output.
pub proof fn lemma_render_panels_idempotent(buf: Seq<u8>, cam: PanelCamera, panels: Seq<Panel>)
    ensures
        panel_frame_spec(panel_frame_spec(buf, cam, panels), cam, panels) == panel_frame_spec(buf, cam, panels),
{
    assert(panel_frame_spec(panel_frame_spec(buf, cam, panels), cam, panels) =~= panel_frame_spec(buf, cam, panels));
}

} // verus!
