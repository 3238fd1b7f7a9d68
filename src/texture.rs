use vstd::prelude::*;
use vstd::slice::slice_subrange;

use crate::color::Color;

verus! {

/// An RGB image stored column by column, so that one vertical line of it is a
/// contiguous run of bytes: pixel `(x, y)` starts at byte `3 * (x * height + y)`.
pub struct Texture {
    pub data: Vec<u8>,
    pub width: u32,
    pub height: u32,
}

/// Byte offset of channel `c` of pixel `(x, y)` in a column-major buffer.
pub open spec fn column_major_index(x: int, y: int, c: int, height: int) -> int {
    (x * height + y) * 3 + c
}

/// Byte offset of channel `c` of pixel `(x, y)` in a row-major buffer.
pub open spec fn row_major_index(x: int, y: int, c: int, width: int) -> int {
    (y * width + x) * 3 + c
}

/// Brings an index into `[0, n)`: indices past the end go to the last one.
pub open spec fn clamp_spec(i: int, n: int) -> int {
    if i < n { i } else { n - 1 }
}

impl Texture {
    pub open spec fn wf(&self) -> bool {
        &&& self.width >= 1
        &&& self.height >= 1
        &&& self.data@.len() == 3 * (self.width as int) * (self.height as int)
    }

    /// The color at pixel `(x, y)`.
    pub open spec fn texel(&self, x: int, y: int) -> Color {
        let h = self.height as int;
        Color {
            r: self.data@[column_major_index(x, y, 0, h)],
            g: self.data@[column_major_index(x, y, 1, h)],
            b: self.data@[column_major_index(x, y, 2, h)],
        }
    }

    /// Builds a texture from an image given row by row, three bytes per pixel.
    pub fn from_row_major(raw: &Vec<u8>, width: u32, height: u32) -> (t: Texture)
        requires
            width >= 1,
            height >= 1,
            raw@.len() == 3 * (width as int) * (height as int),
            3 * (width as int) * (height as int) <= usize::MAX,
        ensures
            t.wf(),
            t.width == width,
            t.height == height,
            forall|x: int, y: int, c: int|
                0 <= x < width && 0 <= y < height && 0 <= c < 3 ==> t.data@[column_major_index(
                    x,
                    y,
                    c,
                    height as int,
                )] == raw@[row_major_index(x, y, c, width as int)],
    {
        let w = width as usize;
        let h = height as usize;
        assert(3 * w <= 3 * (w as int) * (h as int)) by (nonlinear_arith)
            requires
                h >= 1,
        ;
        let n = 3 * w * h;
        let mut data: Vec<u8> = Vec::new();
        let mut k: usize = 0;
        while k < n
            invariant
                k <= n,
                data@.len() == k,
                forall|i: int| 0 <= i < k ==> data@[i] == 0,
            decreases n - k,
        {
            data.push(0);
            k = k + 1;
        }
        let mut x: usize = 0;
        while x < w
            invariant
                w == width,
                h == height,
                n == 3 * w * h,
                raw@.len() == n,
                data@.len() == n,
                x <= w,
                forall|px: int, py: int, c: int|
                    0 <= px < x && 0 <= py < h && 0 <= c < 3 ==> data@[column_major_index(
                        px,
                        py,
                        c,
                        h as int,
                    )] == raw@[row_major_index(px, py, c, w as int)],
            decreases w - x,
        {
            let mut y: usize = 0;
            while y < h
                invariant
                    w == width,
                    h == height,
                    n == 3 * w * h,
                    raw@.len() == n,
                    data@.len() == n,
                    x < w,
                    y <= h,
                    forall|px: int, py: int, c: int|
                        0 <= px < x && 0 <= py < h && 0 <= c < 3 ==> data@[column_major_index(
                            px,
                            py,
                            c,
                            h as int,
                        )] == raw@[row_major_index(px, py, c, w as int)],
                    forall|py: int, c: int|
                        0 <= py < y && 0 <= c < 3 ==> data@[column_major_index(
                            x as int,
                            py,
                            c,
                            h as int,
                        )] == raw@[row_major_index(x as int, py, c, w as int)],
                decreases h - y,
            {
                proof {
                    lemma_index_in_range(x as int, y as int, w as int, h as int);
                }
                let dst = (x * h + y) * 3;
                let src = (y * w + x) * 3;
                let ghost prev = data@;
                data.set(dst, raw[src]);
                data.set(dst + 1, raw[src + 1]);
                data.set(dst + 2, raw[src + 2]);
                proof {
                    assert forall|px: int, py: int, c: int|
                        0 <= px < w && 0 <= py < h && 0 <= c < 3 && (px != x || py != y) implies
                        data@[column_major_index(px, py, c, h as int)] == prev[column_major_index(px, py, c, h as int)] by {
                        lemma_distinct_pixels(px, py, x as int, y as int, c, h as int);
                        lemma_index_in_range(px, py, w as int, h as int);
                    }
                    assert forall|px: int, py: int, c: int|
                        0 <= px < x && 0 <= py < h && 0 <= c < 3 implies data@[column_major_index(
                            px,
                            py,
                            c,
                            h as int,
                        )] == raw@[row_major_index(px, py, c, w as int)] by {
                        assert(px != x);
                    }
                    assert forall|py: int, c: int|
                        0 <= py < y + 1 && 0 <= c < 3 implies data@[column_major_index(
                            x as int,
                            py,
                            c,
                            h as int,
                        )] == raw@[row_major_index(x as int, py, c, w as int)] by {
                        if py < y {
                            assert(py != y);
                        }
                    }
                }
                y = y + 1;
            }
            x = x + 1;
        }
        Texture { data, width, height }
    }

    /// The bytes of column `x`, top to bottom, three per pixel.
    pub fn get_vline(&self, x: usize) -> (line: &[u8])
        requires
            self.wf(),
            x < self.width,
        ensures
            line@ == self.data@.subrange(
                3 * (self.height as int) * (x as int),
                3 * (self.height as int) * (x as int) + 3 * (self.height as int),
            ),
    {
        proof {
            lemma_column_end(x as int, self.width as int, self.height as int);
        }
        let len = self.data.len();
        assert(3 * (self.height as int) <= 3 * (self.height as int) * (x as int) + 3 * (self.height as int));
        let offset = 3 * self.height as usize * x;
        slice_subrange(self.data.as_slice(), offset, offset + (self.height as usize) * 3)
    }

    /// The color of pixel `(x, y)`, each coordinate clamped to the image.
    pub fn sample(&self, x: usize, y: usize) -> (c: Color)
        requires
            self.wf(),
        ensures
            c == self.texel(
                clamp_spec(x as int, self.width as int),
                clamp_spec(y as int, self.height as int),
            ),
    {
        let cx = clamp_index(x, self.width as usize);
        let cy = clamp_index(y, self.height as usize);
        let line = self.get_vline(cx);
        proof {
            lemma_index_in_range(cx as int, cy as int, self.width as int, self.height as int);
            let h = self.height as int;
            assert(3 * h * (cx as int) + 3 * (cy as int) == column_major_index(cx as int, cy as int, 0, h))
                by (nonlinear_arith);
            lemma_column_end(cx as int, self.width as int, h);
            let base = 3 * h * (cx as int);
            assert(line@.len() == 3 * h);
            assert(forall|k: int| 0 <= k < 3 * h ==> line@[k] == self.data@[base + k]);
            assert(cy * 3 == 3 * cy);
            assert(line@[cy * 3] == self.data@[column_major_index(cx as int, cy as int, 0, h)]);
            assert(line@[cy * 3 + 1] == self.data@[column_major_index(cx as int, cy as int, 1, h)]);
            assert(line@[cy * 3 + 2] == self.data@[column_major_index(cx as int, cy as int, 2, h)]);
        }
        let ll = line.len();
        assert(cy * 3 + 2 < ll);
        Color { r: line[cy * 3], g: line[cy * 3 + 1], b: line[cy * 3 + 2] }
    }
}

/// Brings an index into `[0, n)`.
pub fn clamp_index(i: usize, n: usize) -> (r: usize)
    requires
        n >= 1,
    ensures
        r == clamp_spec(i as int, n as int),
        r < n,
{
    if i < n {
        i
    } else {
        n - 1
    }
}

proof fn lemma_index_in_range(x: int, y: int, w: int, h: int)
    requires
        0 <= x < w,
        0 <= y < h,
    ensures
        0 <= (x * h + y) * 3,
        (x * h + y) * 3 + 2 < 3 * w * h,
        0 <= (y * w + x) * 3,
        (y * w + x) * 3 + 2 < 3 * w * h,
{
    assert(x * h + y < w * h) by (nonlinear_arith)
        requires
            0 <= x < w,
            0 <= y < h,
    ;
    assert(y * w + x < w * h) by (nonlinear_arith)
        requires
            0 <= x < w,
            0 <= y < h,
    ;
    assert(0 <= x * h) by (nonlinear_arith)
        requires
            0 <= x,
            0 <= h,
    ;
    assert(0 <= y * w) by (nonlinear_arith)
        requires
            0 <= y,
            0 <= w,
    ;
    assert(3 * w * h == 3 * (w * h)) by (nonlinear_arith);
}

proof fn lemma_distinct_pixels(px: int, py: int, x: int, y: int, c: int, h: int)
    requires
        0 <= py < h,
        0 <= y < h,
        0 <= c < 3,
        px != x || py != y,
    ensures
        (px * h + py) * 3 + c != (x * h + y) * 3,
        (px * h + py) * 3 + c != (x * h + y) * 3 + 1,
        (px * h + py) * 3 + c != (x * h + y) * 3 + 2,
{
    assert(px * h + py != x * h + y) by (nonlinear_arith)
        requires
            0 <= py < h,
            0 <= y < h,
            px != x || py != y,
    ;
}

proof fn lemma_column_end(x: int, w: int, h: int)
    requires
        0 <= x < w,
        1 <= h,
    ensures
        3 * h * x + 3 * h <= 3 * w * h,
        0 <= 3 * h * x,
{
    assert(3 * h * x + 3 * h <= 3 * w * h) by (nonlinear_arith)
        requires
            0 <= x < w,
            1 <= h,
    ;
    assert(0 <= 3 * h * x) by (nonlinear_arith)
        requires
            0 <= x,
            1 <= h,
    ;
}

} // verus!
