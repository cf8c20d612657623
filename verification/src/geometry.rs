use vstd::prelude::*;
use vstd::arithmetic::div_mod::{
    lemma_div_pos_is_pos, lemma_div_nonincreasing, lemma_div_is_ordered,
    lemma_div_multiples_vanish, lemma_basic_div, lemma_div_plus_one,
};

verus! {

/// Largest magnitude a coordinate component may take. Keeping every
/// component within this bound lets squared distances fit in `i64`.
pub const COORD_LIMIT: i64 = 1_000_000_000;

/// A 2D point with integer coordinates. The unit is chosen by the caller;
/// all geometry in this crate is exact integer arithmetic.
#[derive(Clone, Copy, PartialEq, Eq, Structural, Debug)]
pub struct Point {
    pub x: i64,
    pub y: i64,
}

/// Whether both components of a point lie within the coordinate bound.
pub open spec fn in_bounds(p: Point) -> bool {
    -COORD_LIMIT <= p.x <= COORD_LIMIT && -COORD_LIMIT <= p.y <= COORD_LIMIT
}

/// The coordinates of a point as a pair of unbounded integers.
pub open spec fn coords(p: Point) -> (int, int) {
    (p.x as int, p.y as int)
}

/// Squared Euclidean distance between two coordinate pairs.
pub open spec fn dist2(a: (int, int), b: (int, int)) -> int {
    (a.0 - b.0) * (a.0 - b.0) + (a.1 - b.1) * (a.1 - b.1)
}

/// Integer division truncating toward zero, the rounding used by all
/// coordinate arithmetic here (defined for positive divisors).
pub open spec fn div_trunc(a: int, b: int) -> int {
    if a >= 0 {
        a / b
    } else {
        -((-a) / b)
    }
}

/// The floor of the square root of a non-negative integer.
pub open spec fn sqrt_floor(n: int) -> int {
    choose|r: int| 0 <= r && #[trigger] (r * r) <= n && n < (r + 1) * (r + 1)
}

/// Every non-negative integer has a floor square root.
pub proof fn lemma_sqrt_exists(n: int)
    requires
        n >= 0,
    ensures
        exists|r: int| 0 <= r && #[trigger] (r * r) <= n && n < (r + 1) * (r + 1),
    decreases n,
{
    if n == 0 {
        let w: int = 0;
        assert(0 <= w && w * w <= n && n < (w + 1) * (w + 1));
    } else {
        lemma_sqrt_exists(n - 1);
        let r = choose|r: int| 0 <= r && #[trigger] (r * r) <= n - 1 && n - 1 < (r + 1) * (r + 1);
        if n < (r + 1) * (r + 1) {
            assert(0 <= r && r * r <= n && n < (r + 1) * (r + 1));
        } else {
            assert(n == (r + 1) * (r + 1));
            let s = r + 1;
            assert(s * s <= n);
            assert((s + 1) * (s + 1) == s * s + 2 * s + 1) by (nonlinear_arith);
            assert(n < (s + 1) * (s + 1));
            assert(0 <= s && s * s <= n && n < (s + 1) * (s + 1));
        }
    }
}

/// The defining property of `sqrt_floor`.
pub proof fn lemma_sqrt_floor(n: int)
    requires
        n >= 0,
    ensures
        0 <= sqrt_floor(n),
        sqrt_floor(n) * sqrt_floor(n) <= n,
        n < (sqrt_floor(n) + 1) * (sqrt_floor(n) + 1),
{
    lemma_sqrt_exists(n);
}

/// Any integer satisfying the floor-square-root property equals `sqrt_floor`.
pub proof fn lemma_sqrt_unique(n: int, r: int)
    requires
        n >= 0,
        0 <= r,
        r * r <= n,
        n < (r + 1) * (r + 1),
    ensures
        r == sqrt_floor(n),
{
    lemma_sqrt_floor(n);
    let s = sqrt_floor(n);
    if r < s {
        assert((r + 1) * (r + 1) <= s * s) by (nonlinear_arith)
            requires
                0 <= r,
                r + 1 <= s,
        ;
    }
    if s < r {
        assert((s + 1) * (s + 1) <= r * r) by (nonlinear_arith)
            requires
                0 <= s,
                s + 1 <= r,
        ;
    }
}

/// The floor square root of a 64-bit value, by binary search.
pub fn isqrt64(n: u64) -> (r: u64)
    ensures
        r * r <= n,
        n < (r + 1) * (r + 1),
        r as int == sqrt_floor(n as int),
{
    let mut lo: u64 = 0;
    let mut hi: u64 = 4_294_967_296;
    assert(n < hi * hi) by (nonlinear_arith)
        requires
            n <= u64::MAX,
            hi == 4_294_967_296u64,
    ;
    while hi - lo > 1
        invariant
            lo < hi,
            hi <= 4_294_967_296,
            lo * lo <= n,
            n < hi * hi,
        decreases hi - lo,
    {
        let mid: u64 = lo + (hi - lo) / 2;
        proof {
            assert(mid as int * mid as int <= 0x1_0000_0000 * 0x1_0000_0000)
                by (nonlinear_arith)
                requires
                    0 <= mid as int <= 0x1_0000_0000,
            ;
        }
        let sq: u128 = (mid as u128) * (mid as u128);
        if sq <= n as u128 {
            lo = mid;
        } else {
            hi = mid;
        }
    }
    assert(hi == lo + 1);
    proof {
        lemma_sqrt_unique(n as int, lo as int);
    }
    lo
}

/// Ceiling division of non-negative 64-bit values.
pub fn ceil_div(a: u64, b: u64) -> (r: u64)
    requires
        1 <= b,
    ensures
        r as int == (a as int + b as int - 1) / (b as int),
        a == 0 ==> r == 0,
        a > 0 ==> r >= 1,
{
    if a == 0 {
        proof {
            lemma_basic_div(b as int - 1, b as int);
        }
        0
    } else {
        proof {
            lemma_div_pos_is_pos(a as int - 1, b as int);
            lemma_div_nonincreasing(a as int - 1, b as int);
        }
        let r = (a - 1) / b + 1;
        proof {
            lemma_div_plus_one(a as int - 1, b as int);
        }
        r
    }
}

/// `div_trunc(delta * t, norm)`: a displacement component scaled by the
/// ratio `t / norm`, truncated toward zero. The result never overshoots
/// the displacement itself.
pub fn scale_component(delta: i64, t: i64, norm: i64) -> (r: i64)
    requires
        0 <= t <= norm,
        1 <= norm <= 4_000_000_000,
        -2 * COORD_LIMIT <= delta <= 2 * COORD_LIMIT,
    ensures
        r as int == div_trunc(delta as int * t as int, norm as int),
        delta >= 0 ==> 0 <= r <= delta,
        delta < 0 ==> delta <= r <= 0,
{
    let mag: u64 = if delta >= 0 {
        delta as u64
    } else {
        (-delta) as u64
    };
    assert(mag * t <= mag * norm) by (nonlinear_arith)
        requires
            0 <= t <= norm,
            mag >= 0,
    ;
    assert(mag as int * norm as int <= 2_000_000_000 * 4_000_000_000) by (nonlinear_arith)
        requires
            0 <= mag <= 2_000_000_000,
            0 <= norm <= 4_000_000_000,
    ;
    let prod: u64 = mag * (t as u64);
    let q: u64 = prod / (norm as u64);
    proof {
        let m: int = mag as int;
        let nn: int = norm as int;
        assert(prod as int == m * (t as int));
        assert(q as int == (prod as int) / nn);
        lemma_div_pos_is_pos(prod as int, nn);
        lemma_div_is_ordered(prod as int, m * nn, nn);
        lemma_div_multiples_vanish(m, nn);
        assert((nn * m) / nn == m);
        assert(m * nn == nn * m) by (nonlinear_arith);
        assert(q <= mag);
        if delta < 0 {
            assert(delta as int * t as int == -(mag as int * t as int)) by (nonlinear_arith)
                requires
                    mag as int == -(delta as int),
            ;
        }
    }
    if delta >= 0 {
        q as i64
    } else {
        -(q as i64)
    }
}

impl Point {
    pub fn new(x: i64, y: i64) -> (r: Point)
        ensures
            r.x == x,
            r.y == y,
    {
        Point { x, y }
    }
}

} // verus!
