use vstd::prelude::*;

use crate::trace::{Camera, FIX, NORMAL_BOUND, POS_BOUND, abs_le, lemma_mul_bound};

verus! {

/// `l` is the integer square root of `q`.
pub open spec fn is_root(l: int, q: int) -> bool {
    0 <= l && l * l <= q < (l + 1) * (l + 1)
}

/// The integer square root of `q`, rounded down.
pub open spec fn sqrt_floor(q: int) -> int {
    choose|l: int| is_root(l, q)
}

/// `v * FIX / l`, rounded toward zero.
pub open spec fn scale_spec(v: int, l: int) -> int {
    if v >= 0 {
        v * FIX / l
    } else {
        -((-v) * FIX / l)
    }
}

/// The normal turned by the angle whose cosine and sine are `cos / FIX` and
/// `sin / FIX`, before it is brought back to length `FIX`.
pub open spec fn turned_x(nx: int, ny: int, cos: int, sin: int) -> int {
    cos * nx - sin * ny
}

pub open spec fn turned_y(nx: int, ny: int, cos: int, sin: int) -> int {
    sin * nx + cos * ny
}

pub open spec fn norm_sq(x: int, y: int) -> int {
    x * x + y * y
}

/// The rotation `(cos, sin)` is close enough to a unit one to turn by.
pub open spec fn turn_ok(cos: int, sin: int) -> bool {
    &&& abs_le(cos, FIX as int)
    &&& abs_le(sin, FIX as int)
    &&& 4 * norm_sq(cos, sin) >= FIX * FIX
}

/// The normal after turning and bringing it back to length `FIX`.
pub open spec fn rotated_x(nx: int, ny: int, cos: int, sin: int) -> int {
    let tx = turned_x(nx, ny, cos, sin);
    let ty = turned_y(nx, ny, cos, sin);
    scale_spec(tx, sqrt_floor(norm_sq(tx, ty)))
}

pub open spec fn rotated_y(nx: int, ny: int, cos: int, sin: int) -> int {
    let tx = turned_x(nx, ny, cos, sin);
    let ty = turned_y(nx, ny, cos, sin);
    scale_spec(ty, sqrt_floor(norm_sq(tx, ty)))
}

proof fn lemma_root_unique(a: int, b: int, q: int)
    requires
        is_root(a, q),
        is_root(b, q),
    ensures
        a == b,
{
    if a < b {
        assert((a + 1) * (a + 1) <= b * b) by (nonlinear_arith)
            requires
                0 <= a < b,
        ;
    } else if b < a {
        assert((b + 1) * (b + 1) <= a * a) by (nonlinear_arith)
            requires
                0 <= b < a,
        ;
    }
}

/// The integer square root of `q`, rounded down.
pub fn isqrt(q: u128) -> (l: u128)
    requires
        q < 0x1_0000_0000_0000_0000_0000,
    ensures
        is_root(l as int, q as int),
        l as int == sqrt_floor(q as int),
{
    let mut lo: u128 = 0;
    let mut hi: u128 = 0x100_0000_0000;
    assert(hi * hi > q);
    while hi - lo > 1
        invariant
            lo < hi <= 0x100_0000_0000,
            lo * lo <= q,
            q < hi * hi,
        decreases hi - lo,
    {
        let mid = lo + (hi - lo) / 2;
        assert(mid * mid <= 0x100_0000_0000 * 0x100_0000_0000) by (nonlinear_arith)
            requires
                mid <= 0x100_0000_0000,
        ;
        if mid * mid <= q {
            lo = mid;
        } else {
            hi = mid;
        }
    }
    proof {
        assert(hi == lo + 1);
        assert(is_root(lo as int, q as int));
        lemma_root_unique(lo as int, sqrt_floor(q as int), q as int);
    }
    lo
}

proof fn lemma_turn_norm(nx: int, ny: int, cos: int, sin: int)
    ensures
        norm_sq(turned_x(nx, ny, cos, sin), turned_y(nx, ny, cos, sin)) == norm_sq(cos, sin)
            * norm_sq(nx, ny),
{
    let p = cos * nx;
    let q = sin * ny;
    let r = sin * nx;
    let t = cos * ny;
    assert((p - q) * (p - q) == p * p - 2 * (p * q) + q * q) by (nonlinear_arith);
    assert((r + t) * (r + t) == r * r + 2 * (r * t) + t * t) by (nonlinear_arith);
    assert(p * q == r * t) by (nonlinear_arith)
        requires
            p == cos * nx,
            q == sin * ny,
            r == sin * nx,
            t == cos * ny,
    ;
    assert(p * p + r * r == (cos * cos + sin * sin) * (nx * nx)) by (nonlinear_arith)
        requires
            p == cos * nx,
            r == sin * nx,
    ;
    assert(q * q + t * t == (cos * cos + sin * sin) * (ny * ny)) by (nonlinear_arith)
        requires
            q == sin * ny,
            t == cos * ny,
    ;
    assert((cos * cos + sin * sin) * (nx * nx) + (cos * cos + sin * sin) * (ny * ny) == (cos * cos
        + sin * sin) * (nx * nx + ny * ny)) by (nonlinear_arith);
}

/// `a` is `u * FIX / l` rounded down, and `u <= l`.
proof fn lemma_scaled_le(u: int, a: int, l: int)
    requires
        0 <= u,
        1 <= l,
        u * u < (l + 1) * (l + 1),
        a == u * FIX / l,
    ensures
        0 <= a <= FIX,
        a * l <= u * FIX < (a + 1) * l,
{
    assert(u <= l) by (nonlinear_arith)
        requires
            0 <= u,
            1 <= l,
            u * u < (l + 1) * (l + 1),
    ;
    let f = FIX as int;
    assert(0 <= u * f <= l * f) by (nonlinear_arith)
        requires
            0 <= u <= l,
            f == 65536,
    ;
    vstd::arithmetic::div_mod::lemma_fundamental_div_mod(u * f, l);
    vstd::arithmetic::div_mod::lemma_mod_pos_bound(u * f, l);
    vstd::arithmetic::div_mod::lemma_div_pos_is_pos(u * f, l);
    assert(a * l <= u * f < (a + 1) * l) by (nonlinear_arith)
        requires
            u * f == l * a + (u * f) % l,
            0 <= (u * f) % l < l,
    ;
    assert(a <= f) by (nonlinear_arith)
        requires
            a * l <= l * f,
            1 <= l,
    ;
}

/// Bringing a vector of squared length `q` back to length `FIX` by its
/// integer square root `l` leaves a squared length close to `FIX * FIX`.
proof fn lemma_renormalised(u: int, v: int, a: int, b: int, l: int)
    requires
        0 <= u,
        0 <= v,
        0 <= a <= FIX,
        0 <= b <= FIX,
        is_root(l, u * u + v * v),
        4 * l >= FIX * FIX,
        a * l <= u * FIX < (a + 1) * l,
        b * l <= v * FIX < (b + 1) * l,
    ensures
        FIX * FIX - 8 * FIX <= norm_sq(a, b) <= FIX * FIX + 12,
{
    let f = FIX as int;
    let q = u * u + v * v;
    assert(a * a * (l * l) <= u * u * (f * f)) by (nonlinear_arith)
        requires
            0 <= a * l <= u * f,
    ;
    assert(b * b * (l * l) <= v * v * (f * f)) by (nonlinear_arith)
        requires
            0 <= b * l <= v * f,
    ;
    assert(u * u * (f * f) < (a + 1) * (a + 1) * (l * l)) by (nonlinear_arith)
        requires
            0 <= u * f < (a + 1) * l,
    ;
    assert(v * v * (f * f) < (b + 1) * (b + 1) * (l * l)) by (nonlinear_arith)
        requires
            0 <= v * f < (b + 1) * l,
    ;
    assert((u * u + v * v) * (f * f) < (l + 1) * (l + 1) * (f * f)) by (nonlinear_arith)
        requires
            u * u + v * v < (l + 1) * (l + 1),
            f == 65536,
    ;
    assert((a * a + b * b) * (l * l) == a * a * (l * l) + b * b * (l * l)) by (nonlinear_arith);
    assert((u * u + v * v) * (f * f) == u * u * (f * f) + v * v * (f * f)) by (nonlinear_arith);
    assert((a * a + b * b) * (l * l) < (l + 1) * (l + 1) * (f * f));
    assert(a * a + b * b <= f * f + 12) by (nonlinear_arith)
        requires
            (a * a + b * b) * (l * l) < (l + 1) * (l + 1) * (f * f),
            4 * l >= f * f,
            f == 65536,
    ;
    assert(l * l * (f * f) < ((a + 1) * (a + 1) + (b + 1) * (b + 1)) * (l * l)) by (nonlinear_arith)
        requires
            u * u * (f * f) < (a + 1) * (a + 1) * (l * l),
            v * v * (f * f) < (b + 1) * (b + 1) * (l * l),
            l * l <= u * u + v * v,
            0 <= f,
    ;
    assert(f * f < (a + 1) * (a + 1) + (b + 1) * (b + 1)) by (nonlinear_arith)
        requires
            l * l * (f * f) < ((a + 1) * (a + 1) + (b + 1) * (b + 1)) * (l * l),
            1 <= l,
    ;
    assert((a + 1) * (a + 1) + (b + 1) * (b + 1) == a * a + b * b + 2 * a + 2 * b + 2) by (nonlinear_arith);
    assert(norm_sq(a, b) == a * a + b * b);
    assert(f * f - 8 * f <= a * a + b * b);
}

/// `v * FIX / l` rounded toward zero.
fn scale(v: i128, l: u128) -> (r: i128)
    requires
        1 <= l,
        abs_le(v as int, 0x40_0000_0000),
        (v as int) * (v as int) < (l + 1) * (l + 1),
    ensures
        r == scale_spec(v as int, l as int),
        abs_le(r as int, FIX as int),
{
    if v >= 0 {
        proof {
            lemma_scaled_le(v as int, (v as int) * FIX / (l as int), l as int);
        }
        ((v as u128) * (FIX as u128) / l) as i128
    } else {
        proof {
            assert((-v) * (-v) == (v as int) * (v as int)) by (nonlinear_arith);
            lemma_scaled_le(-v, (-v) * FIX / (l as int), l as int);
        }
        let m = ((-v) as u128) * (FIX as u128) / l;
        -(m as i128)
    }
}

/// How far a step of `step / FIX` grid units along a normal component `n`
/// moves, in fixed point, rounded toward zero.
pub open spec fn shift_spec(n: int, step: int) -> int {
    if n * step >= 0 {
        n * step / (FIX as int)
    } else {
        -((-(n * step)) / (FIX as int))
    }
}

/// `n * step / FIX`, rounded toward zero.
fn shift(n: i64, step: i64) -> (r: i64)
    requires
        abs_le(n as int, NORMAL_BOUND as int),
        abs_le(step as int, NORMAL_BOUND as int),
    ensures
        r == shift_spec(n as int, step as int),
        abs_le(r as int, 0x1000_0000),
{
    proof {
        lemma_mul_bound(n as int, step as int, 0x10_0000, 0x10_0000);
    }
    let p = (n as i128) * (step as i128);
    if p >= 0 {
        (p / (FIX as i128)) as i64
    } else {
        let m = (-p) / (FIX as i128);
        -(m as i64)
    }
}

impl Camera {
    /// Moves the camera along its normal by `step / FIX` normal lengths
    /// (backwards for a negative step). A move that would leave the range
    /// the tracer takes is not made; the result says whether it was.
    pub fn translate(&mut self, step: i64) -> (moved: bool)
        requires
            old(self).wf(),
            abs_le(step as int, NORMAL_BOUND as int),
        ensures
            final(self).wf(),
            ({
                let x = old(self).pos_x + shift_spec(old(self).normal_x as int, step as int);
                let y = old(self).pos_y + shift_spec(old(self).normal_y as int, step as int);
                &&& moved == (abs_le(x, POS_BOUND as int) && abs_le(y, POS_BOUND as int))
                &&& moved ==> final(self).pos_x == x && final(self).pos_y == y
                &&& !moved ==> final(self).pos_x == old(self).pos_x && final(self).pos_y == old(self).pos_y
            }),
            final(self).normal_x == old(self).normal_x,
            final(self).normal_y == old(self).normal_y,
            final(self).width == old(self).width,
            final(self).height == old(self).height,
    {
        let x = self.pos_x + shift(self.normal_x, step);
        let y = self.pos_y + shift(self.normal_y, step);
        if -POS_BOUND <= x && x <= POS_BOUND && -POS_BOUND <= y && y <= POS_BOUND {
            self.pos_x = x;
            self.pos_y = y;
            true
        } else {
            false
        }
    }

    /// Turns the view by the angle whose cosine and sine are `cos / FIX` and
    /// `sin / FIX`, then brings the normal back to length `FIX` so that
    /// rounding does not pile up from turn to turn.
    pub fn rotate(&mut self, cos: i64, sin: i64)
        requires
            old(self).wf(),
            turn_ok(cos as int, sin as int),
        ensures
            final(self).wf(),
            final(self).normal_x == rotated_x(
                old(self).normal_x as int,
                old(self).normal_y as int,
                cos as int,
                sin as int,
            ),
            final(self).normal_y == rotated_y(
                old(self).normal_x as int,
                old(self).normal_y as int,
                cos as int,
                sin as int,
            ),
            final(self).pos_x == old(self).pos_x,
            final(self).pos_y == old(self).pos_y,
            final(self).width == old(self).width,
            final(self).height == old(self).height,
            4 * norm_sq(old(self).normal_x as int, old(self).normal_y as int) >= FIX * FIX ==> {
                let n = norm_sq(final(self).normal_x as int, final(self).normal_y as int);
                FIX * FIX - 8 * FIX <= n <= FIX * FIX + 12
            },
    {
        let nx = self.normal_x as i128;
        let ny = self.normal_y as i128;
        let c = cos as i128;
        let s = sin as i128;
        proof {
            lemma_mul_bound(c as int, nx as int, 0x1_0000, 0x10_0000);
            lemma_mul_bound(s as int, ny as int, 0x1_0000, 0x10_0000);
            lemma_mul_bound(s as int, nx as int, 0x1_0000, 0x10_0000);
            lemma_mul_bound(c as int, ny as int, 0x1_0000, 0x10_0000);
        }
        let tx = c * nx - s * ny;
        let ty = s * nx + c * ny;
        proof {
            lemma_mul_bound(tx as int, tx as int, 0x40_0000_0000, 0x40_0000_0000);
            lemma_mul_bound(ty as int, ty as int, 0x40_0000_0000, 0x40_0000_0000);
            assert(0 <= tx * tx && 0 <= ty * ty) by (nonlinear_arith);
            lemma_turn_norm(nx as int, ny as int, c as int, s as int);
            assert(norm_sq(nx as int, ny as int) >= 1) by (nonlinear_arith)
                requires
                    nx != 0 || ny != 0,
            ;
            assert(norm_sq(c as int, s as int) * norm_sq(nx as int, ny as int) >= 1) by (nonlinear_arith)
                requires
                    4 * norm_sq(c as int, s as int) >= 0x1_0000_0000,
                    norm_sq(nx as int, ny as int) >= 1,
            ;
        }
        let q = (tx * tx + ty * ty) as u128;
        let l = isqrt(q);
        proof {
            assert(l >= 1) by (nonlinear_arith)
                requires
                    q >= 1,
                    (l + 1) * (l + 1) > q,
                    l >= 0,
            ;
        }
        let x = scale(tx, l);
        let y = scale(ty, l);
        proof {
            lemma_rotated(nx as int, ny as int, c as int, s as int);
        }
        self.normal_x = x as i64;
        self.normal_y = y as i64;
    }
}

proof fn lemma_root_exists(q: int)
    requires
        0 <= q,
    ensures
        is_root(sqrt_floor(q), q),
    decreases q,
{
    if q == 0 {
        assert(is_root(0, 0));
    } else {
        lemma_root_exists(q - 1);
        let l = sqrt_floor(q - 1);
        if (l + 1) * (l + 1) <= q {
            assert(q < (l + 2) * (l + 2)) by (nonlinear_arith)
                requires
                    q - 1 < (l + 1) * (l + 1),
                    0 <= l,
            ;
            assert(is_root(l + 1, q));
        } else {
            assert(is_root(l, q));
        }
    }
}

/// What one turn does to a normal: its components stay within `FIX`, it
/// does not vanish, and where it was at least half of `FIX` long its squared
/// length comes out within `8 * FIX` of `FIX * FIX`.
proof fn lemma_rotated(nx: int, ny: int, c: int, s: int)
    requires
        abs_le(nx, NORMAL_BOUND as int),
        abs_le(ny, NORMAL_BOUND as int),
        nx != 0 || ny != 0,
        turn_ok(c, s),
    ensures
        abs_le(rotated_x(nx, ny, c, s), FIX as int),
        abs_le(rotated_y(nx, ny, c, s), FIX as int),
        rotated_x(nx, ny, c, s) != 0 || rotated_y(nx, ny, c, s) != 0,
        4 * norm_sq(nx, ny) >= FIX * FIX ==> FIX * FIX - 8 * FIX <= norm_sq(
            rotated_x(nx, ny, c, s),
            rotated_y(nx, ny, c, s),
        ) <= FIX * FIX + 12,
{
    let tx = turned_x(nx, ny, c, s);
    let ty = turned_y(nx, ny, c, s);
    let q = norm_sq(tx, ty);
    lemma_turn_norm(nx, ny, c, s);
    assert(norm_sq(nx, ny) >= 1) by (nonlinear_arith)
        requires
            nx != 0 || ny != 0,
    ;
    assert(norm_sq(c, s) * norm_sq(nx, ny) >= 1) by (nonlinear_arith)
        requires
            4 * norm_sq(c, s) >= 0x1_0000_0000,
            norm_sq(nx, ny) >= 1,
    ;
    lemma_root_exists(q);
    let l = sqrt_floor(q);
    assert(l >= 1) by (nonlinear_arith)
        requires
            q >= 1,
            (l + 1) * (l + 1) > q,
            l >= 0,
    ;
    let x = rotated_x(nx, ny, c, s);
    let y = rotated_y(nx, ny, c, s);
    let u = if tx >= 0 { tx } else { -tx };
    let v = if ty >= 0 { ty } else { -ty };
    let a = u * FIX / l;
    let b = v * FIX / l;
    assert(u * u + v * v == q) by (nonlinear_arith)
        requires
            u == tx || u == -tx,
            v == ty || v == -ty,
            q == tx * tx + ty * ty,
    ;
    assert(0 <= v * v && 0 <= u * u) by (nonlinear_arith);
    lemma_scaled_le(u, a, l);
    lemma_scaled_le(v, b, l);
    assert(x == a || x == -a);
    assert(y == b || y == -b);
    assert(norm_sq(a, b) == norm_sq(x, y)) by (nonlinear_arith)
        requires
            x == a || x == -a,
            y == b || y == -b,
    ;
    if 4 * norm_sq(nx, ny) >= FIX * FIX {
        assert(16 * q >= (FIX * FIX) * (FIX * FIX)) by (nonlinear_arith)
            requires
                4 * norm_sq(nx, ny) >= FIX * FIX,
                4 * norm_sq(c, s) >= FIX * FIX,
                q == norm_sq(c, s) * norm_sq(nx, ny),
        ;
        assert(4 * l >= FIX * FIX) by (nonlinear_arith)
            requires
                16 * q >= (FIX * FIX) * (FIX * FIX),
                q < (l + 1) * (l + 1),
                l >= 0,
        ;
        lemma_renormalised(u, v, a, b, l);
    }
    assert(a != 0 || b != 0) by (nonlinear_arith)
        requires
            a * l <= u * FIX < (a + 1) * l,
            b * l <= v * FIX < (b + 1) * l,
            l * l <= u * u + v * v,
            l >= 1,
            0 <= u,
            0 <= v,
            0 <= a,
            0 <= b,
            FIX == 65536,
    ;
}

/// The normal after a sequence of turns, each given as `(cos, sin)` in fixed point.
pub open spec fn turn_all(nx: int, ny: int, turns: Seq<(int, int)>) -> (int, int)
    decreases turns.len(),
{
    if turns.len() == 0 {
        (nx, ny)
    } else {
        let (x, y) = turn_all(nx, ny, turns.drop_last());
        let (c, s) = turns.last();
        (rotated_x(x, y, c, s), rotated_y(x, y, c, s))
    }
}

/// Turning keeps the normal's length: starting from a normal of length
/// `FIX`, after any nonempty sequence of turns its squared length lies within
/// `8 * FIX` of `FIX * FIX`, a relative error below `8 / FIX`.
pub proof fn lemma_rotation_keeps_length(nx: int, ny: int, turns: Seq<(int, int)>)
    requires
        abs_le(nx, NORMAL_BOUND as int),
        abs_le(ny, NORMAL_BOUND as int),
        FIX * FIX - 8 * FIX <= norm_sq(nx, ny) <= FIX * FIX + 12,
        forall|i: int| 0 <= i < turns.len() ==> turn_ok((#[trigger] turns[i]).0, turns[i].1),
    ensures
        ({
            let (x, y) = turn_all(nx, ny, turns);
            &&& FIX * FIX - 8 * FIX <= norm_sq(x, y) <= FIX * FIX + 12
            &&& abs_le(x, NORMAL_BOUND as int)
            &&& abs_le(y, NORMAL_BOUND as int)
        }),
    decreases turns.len(),
{
    if turns.len() > 0 {
        let prefix = turns.drop_last();
        assert forall|i: int| 0 <= i < prefix.len() implies turn_ok((#[trigger] prefix[i]).0, prefix[i].1) by {
            assert(prefix[i] == turns[i]);
        }
        lemma_rotation_keeps_length(nx, ny, prefix);
        let (x, y) = turn_all(nx, ny, prefix);
        let (c, s) = turns.last();
        assert(turn_ok(c, s));
        assert(x != 0 || y != 0) by (nonlinear_arith)
            requires
                FIX * FIX - 8 * FIX <= x * x + y * y,
                FIX == 65536,
        ;
        lemma_rotated(x, y, c, s);
    }
}

} // verus!
