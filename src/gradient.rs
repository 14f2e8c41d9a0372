use vstd::prelude::*;

use crate::image::{widen_i16, widen_u8};

verus! {

/// Replaces a coordinate outside `[0, n)` by the nearest one inside it.
pub open spec fn clamp_coord(i: int, n: int) -> int {
    if i < 0 {
        0
    } else if i >= n {
        n - 1
    } else {
        i
    }
}

/// The sample at column `x`, row `y` of a row-major `w` by `h` map, with
/// both coordinates clamped to the image (edge replication).
pub open spec fn sample(v: Seq<int>, w: int, h: int, x: int, y: int) -> int {
    v[clamp_coord(y, h) * w + clamp_coord(x, w)]
}

/// Horizontal Sobel response of the neighbourhood
/// `a b c / d . e / f g h`.
pub open spec fn sobel_x(a: int, b: int, c: int, d: int, e: int, f: int, g: int, h: int) -> int {
    -a + c - 2 * d + 2 * e - f + h
}

/// Vertical Sobel response of the neighbourhood
/// `a b c / d . e / f g h`.
pub open spec fn sobel_y(a: int, b: int, c: int, d: int, e: int, f: int, g: int, h: int) -> int {
    -a - 2 * b - c + f + 2 * g + h
}

/// `r` is the integer nearest to the square root of `n`. The square root of
/// an integer is never exactly halfway between two integers, so there is
/// no tie to break.
pub open spec fn is_rounded_sqrt(n: int, r: int) -> bool {
    &&& 0 <= r
    &&& (r == 0 || (2 * r - 1) * (2 * r - 1) < 4 * n)
    &&& 4 * n < (2 * r + 1) * (2 * r + 1)
}

/// The square root of `n` rounded to the nearest integer.
pub open spec fn rounded_sqrt(n: int) -> int {
    choose|r: int| is_rounded_sqrt(n, r)
}

/// Gradient magnitude `sqrt(gx^2 + gy^2)`, rounded to the nearest integer.
pub open spec fn magnitude(gx: int, gy: int) -> int {
    rounded_sqrt(gx * gx + gy * gy)
}

/// Horizontal gradient at `(x, y)` of the clamped 3x3 window.
pub open spec fn grad_x_at(v: Seq<int>, w: int, h: int, x: int, y: int) -> int {
    sobel_x(
        sample(v, w, h, x - 1, y - 1),
        sample(v, w, h, x, y - 1),
        sample(v, w, h, x + 1, y - 1),
        sample(v, w, h, x - 1, y),
        sample(v, w, h, x + 1, y),
        sample(v, w, h, x - 1, y + 1),
        sample(v, w, h, x, y + 1),
        sample(v, w, h, x + 1, y + 1),
    )
}

/// Vertical gradient at `(x, y)` of the clamped 3x3 window.
pub open spec fn grad_y_at(v: Seq<int>, w: int, h: int, x: int, y: int) -> int {
    sobel_y(
        sample(v, w, h, x - 1, y - 1),
        sample(v, w, h, x, y - 1),
        sample(v, w, h, x + 1, y - 1),
        sample(v, w, h, x - 1, y),
        sample(v, w, h, x + 1, y),
        sample(v, w, h, x - 1, y + 1),
        sample(v, w, h, x, y + 1),
        sample(v, w, h, x + 1, y + 1),
    )
}

/// Sobel gradient magnitude at `(x, y)`.
pub open spec fn edge_at(v: Seq<int>, w: int, h: int, x: int, y: int) -> int {
    magnitude(grad_x_at(v, w, h, x, y), grad_y_at(v, w, h, x, y))
}

/// The edge map of a row-major `w` by `h` intensity map: the Sobel gradient
/// magnitude of every pixel, with edge-clamped neighbourhoods.
pub open spec fn edge_map(v: Seq<int>, w: int, h: int) -> Seq<int> {
    Seq::new((w * h) as nat, |i: int| edge_at(v, w, h, i % w, i / w))
}

/// There is exactly one nearest integer to the square root of `n`.
pub proof fn lemma_rounded_sqrt_unique(n: int, r: int)
    requires
        is_rounded_sqrt(n, r),
    ensures
        rounded_sqrt(n) == r,
{
    let s = rounded_sqrt(n);
    assert(is_rounded_sqrt(n, s));
    if s < r {
        assert(2 * s + 1 <= 2 * r - 1);
        assert((2 * s + 1) * (2 * s + 1) <= (2 * r - 1) * (2 * r - 1)) by (nonlinear_arith)
            requires
                0 <= 2 * s + 1 <= 2 * r - 1,
        ;
    } else if r < s {
        assert((2 * r + 1) * (2 * r + 1) <= (2 * s - 1) * (2 * s - 1)) by (nonlinear_arith)
            requires
                0 <= 2 * r + 1 <= 2 * s - 1,
        ;
    }
}

/// Square root of `n`, rounded to the nearest integer, in integer arithmetic.
pub fn round_sqrt(n: u32) -> (r: u32)
    ensures
        r == rounded_sqrt(n as int),
        r * r <= n + r,
{
    // Binary search for the floor of the square root.
    let n: u64 = n as u64;
    let mut lo: u64 = 0;
    let mut hi: u64 = 65536;
    assert(65536 * 65536 > u32::MAX);
    while hi - lo > 1
        invariant
            lo < hi <= 65536,
            n <= u32::MAX,
            lo * lo <= n,
            n < hi * hi,
        decreases hi - lo,
    {
        let mid: u64 = lo + (hi - lo) / 2;
        assert(mid * mid <= 65536 * 65536) by (nonlinear_arith)
            requires
                mid <= 65536,
        ;
        if mid * mid <= n {
            lo = mid;
        } else {
            hi = mid;
        }
    }
    assert(hi == lo + 1);
    assert(lo * lo <= 65535 * 65535) by (nonlinear_arith)
        requires
            lo < 65536,
    ;
    let r: u64 = if n - lo * lo > lo {
        assert(is_rounded_sqrt(n as int, lo + 1)) by (nonlinear_arith)
            requires
                lo * lo + lo < n,
                n < (lo + 1) * (lo + 1),
        ;
        lo + 1
    } else {
        assert(is_rounded_sqrt(n as int, lo as int)) by (nonlinear_arith)
            requires
                lo * lo <= n <= lo * lo + lo,
        ;
        lo
    };
    assert(r * r <= n + r) by (nonlinear_arith)
        requires
            is_rounded_sqrt(n as int, r as int),
    ;
    proof {
        lemma_rounded_sqrt_unique(n as int, r as int);
    }
    r as u32
}

/// Is `v` a byte-range sample?
pub open spec fn in_byte_range(v: int) -> bool {
    0 <= v <= 255
}

/// Sobel gradient magnitude of the neighbourhood `a b c / d . e / f g h`
/// of byte-range samples, rounded to the nearest integer.
pub fn sobel(a: i16, b: i16, c: i16, d: i16, e: i16, f: i16, g: i16, h: i16) -> (r: i16)
    requires
        in_byte_range(a as int),
        in_byte_range(b as int),
        in_byte_range(c as int),
        in_byte_range(d as int),
        in_byte_range(e as int),
        in_byte_range(f as int),
        in_byte_range(g as int),
        in_byte_range(h as int),
    ensures
        r == magnitude(
            sobel_x(a as int, b as int, c as int, d as int, e as int, f as int, g as int, h as int),
            sobel_y(a as int, b as int, c as int, d as int, e as int, f as int, g as int, h as int),
        ),
        0 <= r <= 2001,
{
    let (a, b, c, d, e, f, g, h) = (
        a as i32,
        b as i32,
        c as i32,
        d as i32,
        e as i32,
        f as i32,
        g as i32,
        h as i32,
    );
    let v_x: i32 = -a + c - 2 * d + 2 * e - f + h;
    let v_y: i32 = -a - 2 * b - c + f + 2 * g + h;
    assert(0 <= v_x * v_x <= 1020 * 1020) by (nonlinear_arith)
        requires
            -1020 <= v_x <= 1020,
    ;
    assert(0 <= v_y * v_y <= 1020 * 1020) by (nonlinear_arith)
        requires
            -1020 <= v_y <= 1020,
    ;
    let squared: u32 = (v_x * v_x + v_y * v_y) as u32;
    let r: u32 = round_sqrt(squared);
    assert(r <= 2001) by (nonlinear_arith)
        requires
            r * r <= squared + r,
            squared <= 2 * 1020 * 1020,
    ;
    r as i16
}

/// The edge map has one sample per pixel of every shape; an empty image
/// has an empty edge map, and a lone pixel has no gradient.
pub proof fn lemma_edge_map_shape(v: Seq<int>, w: int, h: int)
    requires
        0 <= w,
        0 <= h,
        v.len() == w * h,
    ensures
        edge_map(v, w, h).len() == v.len(),
        w * h == 0 ==> edge_map(v, w, h) == Seq::<int>::empty(),
        w * h == 1 ==> edge_map(v, w, h) == seq![0int],
{
    if w * h == 0 {
        assert(edge_map(v, w, h) =~= Seq::<int>::empty());
    }
    if w * h == 1 {
        assert(w == 1 && h == 1) by (nonlinear_arith)
            requires
                0 <= w,
                0 <= h,
                w * h == 1,
        ;
        assert(is_rounded_sqrt(0, 0));
        lemma_rounded_sqrt_unique(0, 0);
        assert(grad_x_at(v, w, h, 0, 0) == 0);
        assert(grad_y_at(v, w, h, 0, 0) == 0);
        assert(edge_map(v, w, h) =~= seq![0int]);
    }
}

/// The sample at in-image pixel `(px, py)`.
pub open spec fn pixel(v: Seq<int>, w: int, px: int, py: int) -> int {
    v[py * w + px]
}

/// Is in-image pixel `(px, py)` inside the 3x3 window centred on `(x, y)`?
pub open spec fn in_window(w: int, h: int, x: int, y: int, px: int, py: int) -> bool {
    &&& 0 <= px < w
    &&& 0 <= py < h
    &&& x - 1 <= px <= x + 1
    &&& y - 1 <= py <= y + 1
}

/// Edge clamping reads nothing outside the window: two maps that agree on
/// the in-image pixels of the 3x3 window centred on `(x, y)` have the same
/// gradient there, whatever the rest of the image holds.
pub proof fn lemma_edge_depends_on_window(v1: Seq<int>, v2: Seq<int>, w: int, h: int, x: int, y: int)
    requires
        0 <= x < w,
        0 <= y < h,
        forall|px: int, py: int|
            in_window(w, h, x, y, px, py) ==> #[trigger] pixel(v1, w, px, py) == pixel(v2, w, px, py),
    ensures
        edge_at(v1, w, h, x, y) == edge_at(v2, w, h, x, y),
{
    assert forall|sx: int, sy: int|
        x - 1 <= sx <= x + 1 && y - 1 <= sy <= y + 1 implies #[trigger] sample(v1, w, h, sx, sy)
        == sample(v2, w, h, sx, sy) by {
        let (px, py) = (clamp_coord(sx, w), clamp_coord(sy, h));
        assert(in_window(w, h, x, y, px, py));
        assert(pixel(v1, w, px, py) == pixel(v2, w, px, py));
    }
}

} // verus!
