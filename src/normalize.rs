use vstd::prelude::*;

use crate::image::widen_i16;

verus! {

/// Smallest sample of `s` (zero for an empty map).
pub open spec fn seq_min(s: Seq<int>) -> int
    decreases s.len(),
{
    if s.len() == 0 {
        0
    } else if s.len() == 1 {
        s[0]
    } else {
        let m = seq_min(s.drop_last());
        if s.last() < m {
            s.last()
        } else {
            m
        }
    }
}

/// Largest sample of `s` (zero for an empty map).
pub open spec fn seq_max(s: Seq<int>) -> int
    decreases s.len(),
{
    if s.len() == 0 {
        0
    } else if s.len() == 1 {
        s[0]
    } else {
        let m = seq_max(s.drop_last());
        if s.last() > m {
            s.last()
        } else {
            m
        }
    }
}

/// The divisor of the rescaling: the spread of the samples, or one when
/// they are all equal (no division by zero on a uniform map).
pub open spec fn spread(lo: int, hi: int) -> int {
    if hi - lo > 0 {
        hi - lo
    } else {
        1
    }
}

/// `255 * (v - lo) / range`, rounded to the nearest integer with halves
/// going up.
pub open spec fn scaled_byte(v: int, lo: int, range: int) -> int {
    (510 * (v - lo) + range) / (2 * range)
}

/// The display byte of every sample: min-max rescaled onto `[0, 255]`.
pub open spec fn normalized_bytes(s: Seq<int>) -> Seq<u8> {
    Seq::new(
        s.len(),
        |i: int| scaled_byte(s[i], seq_min(s), spread(seq_min(s), seq_max(s))) as u8,
    )
}

/// Opaque gray RGBA pixels: each byte `b` becomes `(b, b, b, 255)`.
pub open spec fn gray_rgba(bytes: Seq<u8>) -> Seq<u8> {
    Seq::new(4 * bytes.len(), |j: int| if j % 4 == 3 { 255u8 } else { bytes[j / 4] })
}

/// The minimum and the maximum are samples, and bound all the others.
pub proof fn lemma_min_max(s: Seq<int>)
    requires
        s.len() > 0,
    ensures
        forall|i: int| 0 <= i < s.len() ==> seq_min(s) <= #[trigger] s[i] <= seq_max(s),
        exists|i: int| 0 <= i < s.len() && #[trigger] s[i] == seq_min(s),
        exists|i: int| 0 <= i < s.len() && #[trigger] s[i] == seq_max(s),
    decreases s.len(),
{
    if s.len() == 1 {
        assert(s[0] == seq_min(s));
        assert(s[0] == seq_max(s));
    } else {
        let t = s.drop_last();
        lemma_min_max(t);
        assert forall|i: int| 0 <= i < s.len() implies seq_min(s) <= #[trigger] s[i] <= seq_max(s) by {
            if i < t.len() {
                assert(t[i] == s[i]);
            }
        }
        if s.last() < seq_min(t) {
            assert(s[s.len() - 1] == seq_min(s));
        } else {
            let k = choose|k: int| 0 <= k < t.len() && t[k] == seq_min(t);
            assert(s[k] == seq_min(s));
        }
        if s.last() > seq_max(t) {
            assert(s[s.len() - 1] == seq_max(s));
        } else {
            let k = choose|k: int| 0 <= k < t.len() && t[k] == seq_max(t);
            assert(s[k] == seq_max(s));
        }
    }
}

/// The rescaled value of a sample between the bounds is a byte; the lower
/// bound maps to 0 and, when the bounds differ, the upper one to 255.
pub proof fn lemma_scaled_byte_range(v: int, lo: int, hi: int)
    requires
        lo <= v <= hi,
    ensures
        0 <= scaled_byte(v, lo, spread(lo, hi)) <= 255,
        scaled_byte(lo, lo, spread(lo, hi)) == 0,
        lo < hi ==> scaled_byte(hi, lo, spread(lo, hi)) == 255,
{
    let range = spread(lo, hi);
    assert(0 <= 510 * (v - lo) + range);
    assert(510 * (v - lo) + range <= 510 * range + range) by (nonlinear_arith)
        requires
            0 <= v - lo <= range,
    ;
    assert((510 * range + range) / (2 * range) == 255) by (nonlinear_arith)
        requires
            range > 0,
    ;
    assert(0 <= (510 * (v - lo) + range) / (2 * range) <= (510 * range + range) / (2 * range)) by (nonlinear_arith)
        requires
            range > 0,
            0 <= 510 * (v - lo) + range <= 510 * range + range,
    ;
    assert(range / (2 * range) == 0) by (nonlinear_arith)
        requires
            range > 0,
    ;
    if lo < hi {
        assert((510 * (hi - lo) + range) / (2 * range) == 255) by (nonlinear_arith)
            requires
                range == hi - lo,
                range > 0,
        ;
    }
}

/// Smallest and largest sample of a non-empty map, in one pass.
pub fn min_max(data: &[i16]) -> (r: (i16, i16))
    requires
        data@.len() > 0,
    ensures
        r.0 == seq_min(widen_i16(data@)),
        r.1 == seq_max(widen_i16(data@)),
{
    let ghost s = widen_i16(data@);
    let mut lo: i16 = data[0];
    let mut hi: i16 = data[0];
    let mut i: usize = 1;
    assert(s.take(1).drop_last() =~= Seq::<int>::empty());
    while i < data.len()
        invariant
            s == widen_i16(data@),
            1 <= i <= data@.len(),
            lo == seq_min(s.take(i as int)),
            hi == seq_max(s.take(i as int)),
        decreases data@.len() - i,
    {
        assert(s.take(i + 1).drop_last() =~= s.take(i as int));
        let v: i16 = data[i];
        if v < lo {
            lo = v;
        }
        if v > hi {
            hi = v;
        }
        i = i + 1;
    }
    assert(s.take(data@.len() as int) =~= s);
    (lo, hi)
}

/// Expands one byte per pixel into opaque gray RGBA pixels.
pub fn vec_to_grayscale_rgba(bytes: &[u8]) -> (r: Vec<u8>)
    requires
        4 * bytes@.len() <= usize::MAX,
    ensures
        r@ == gray_rgba(bytes@),
{
    let n: usize = bytes.len();
    let mut out: Vec<u8> = Vec::with_capacity(4 * n);
    let mut i: usize = 0;
    while i < n
        invariant
            n == bytes@.len(),
            4 * n <= usize::MAX,
            i <= n,
            out@.len() == 4 * i,
            forall|j: int| 0 <= j < out@.len() ==> out@[j] == gray_rgba(bytes@)[j],
        decreases n - i,
    {
        let byte: u8 = bytes[i];
        out.push(byte);
        out.push(byte);
        out.push(byte);
        out.push(255);
        i = i + 1;
    }
    assert(out@ =~= gray_rgba(bytes@));
    out
}

/// Min-max rescales a map onto display bytes; an empty map gives no bytes.
pub fn normalize(data: &[i16]) -> (r: Vec<u8>)
    ensures
        r@ == normalized_bytes(widen_i16(data@)),
{
    let ghost s = widen_i16(data@);
    let n: usize = data.len();
    let mut out: Vec<u8> = Vec::with_capacity(n);
    if n == 0 {
        assert(out@ =~= normalized_bytes(s));
        return out;
    }
    let (lo, hi) = min_max(data);
    proof {
        lemma_min_max(s);
    }
    let range: i64 = if hi > lo {
        hi as i64 - lo as i64
    } else {
        1
    };
    let mut i: usize = 0;
    while i < n
        invariant
            s == widen_i16(data@),
            n == data@.len() > 0,
            lo == seq_min(s),
            hi == seq_max(s),
            range == spread(lo as int, hi as int),
            forall|k: int| 0 <= k < s.len() ==> seq_min(s) <= #[trigger] s[k] <= seq_max(s),
            i <= n,
            out@.len() == i,
            forall|k: int| 0 <= k < i ==> out@[k] == normalized_bytes(s)[k],
        decreases n - i,
    {
        let v: i16 = data[i];
        assert(s[i as int] == v);
        proof {
            lemma_scaled_byte_range(v as int, lo as int, hi as int);
        }
        let scaled: i64 = (510 * (v as i64 - lo as i64) + range) / (2 * range);
        out.push(scaled as u8);
        i = i + 1;
    }
    assert(out@ =~= normalized_bytes(s));
    out
}

/// The display bytes of a non-empty map always reach 0, and reach 255 as
/// soon as the map is not uniform; a uniform map is all 0.
pub proof fn lemma_normalized_extremes(s: Seq<int>)
    requires
        s.len() > 0,
    ensures
        normalized_bytes(s).len() == s.len(),
        exists|i: int| 0 <= i < s.len() && #[trigger] normalized_bytes(s)[i] == 0,
        seq_max(s) > seq_min(s) ==> exists|i: int|
            0 <= i < s.len() && #[trigger] normalized_bytes(s)[i] == 255,
        seq_max(s) == seq_min(s) ==> forall|i: int|
            0 <= i < s.len() ==> #[trigger] normalized_bytes(s)[i] == 0,
{
    let (lo, hi) = (seq_min(s), seq_max(s));
    let out = normalized_bytes(s);
    lemma_min_max(s);
    lemma_scaled_byte_range(lo, lo, hi);
    let i = choose|i: int| 0 <= i < s.len() && s[i] == lo;
    assert(out[i] == 0);
    if hi > lo {
        lemma_scaled_byte_range(hi, lo, hi);
        let j = choose|j: int| 0 <= j < s.len() && s[j] == hi;
        assert(out[j] == 255);
    }
    if hi == lo {
        assert forall|k: int| 0 <= k < s.len() implies #[trigger] out[k] == 0 by {
            assert(s[k] == lo);
        }
    }
}

/// Each sample becomes one opaque gray pixel carrying its display byte.
pub proof fn lemma_gray_pixel(bytes: Seq<u8>, i: int)
    requires
        0 <= i < bytes.len(),
    ensures
        gray_rgba(bytes)[4 * i] == bytes[i],
        gray_rgba(bytes)[4 * i + 1] == bytes[i],
        gray_rgba(bytes)[4 * i + 2] == bytes[i],
        gray_rgba(bytes)[4 * i + 3] == 255,
{
}

/// The gray display of a non-empty map has a black pixel, a white one as
/// soon as the map is not uniform, and only black pixels when it is
/// uniform; every pixel is opaque.
pub proof fn lemma_display_extremes(s: Seq<int>)
    requires
        s.len() > 0,
    ensures
        gray_rgba(normalized_bytes(s)).len() == 4 * s.len(),
        forall|i: int|
            0 <= i < s.len() ==> #[trigger] gray_rgba(normalized_bytes(s))[4 * i + 3] == 255,
        exists|i: int| 0 <= i < s.len() && #[trigger] gray_rgba(normalized_bytes(s))[4 * i] == 0,
        seq_max(s) > seq_min(s) ==> exists|i: int|
            0 <= i < s.len() && #[trigger] gray_rgba(normalized_bytes(s))[4 * i] == 255,
        seq_max(s) == seq_min(s) ==> forall|j: int|
            0 <= j < 4 * s.len() && j % 4 != 3 ==> #[trigger] gray_rgba(normalized_bytes(s))[j]
                == 0,
{
    let bytes = normalized_bytes(s);
    let o = gray_rgba(bytes);
    lemma_normalized_extremes(s);
    assert forall|i: int| 0 <= i < s.len() implies #[trigger] o[4 * i + 3] == 255 by {
        lemma_gray_pixel(bytes, i);
    }
    let i = choose|i: int| 0 <= i < s.len() && bytes[i] == 0;
    lemma_gray_pixel(bytes, i);
    assert(o[4 * i] == 0);
    if seq_max(s) > seq_min(s) {
        let j = choose|j: int| 0 <= j < s.len() && bytes[j] == 255;
        lemma_gray_pixel(bytes, j);
        assert(o[4 * j] == 255);
    }
    if seq_max(s) == seq_min(s) {
        assert forall|j: int| 0 <= j < 4 * s.len() && j % 4 != 3 implies #[trigger] o[j] == 0 by {
            assert(bytes[j / 4] == 0);
        }
    }
}

} // verus!
