use vstd::arithmetic::div_mod::{
    lemma_div_is_ordered, lemma_div_multiples_vanish, lemma_fundamental_div_mod,
};
use vstd::prelude::*;

verus! {

/// Fixed-point scale: one unit (one unit of length, one unit per second)
/// is `ONE` integer steps.
pub const ONE: i64 = 1_000_000;

/// A 3D vector in fixed point (`ONE` per unit); `z` is the vertical axis.
#[derive(Clone, Copy, Debug, PartialEq, Eq, Structural)]
pub struct Vec3 {
    pub x: i64,
    pub y: i64,
    pub z: i64,
}

/// Integer division rounding toward zero, as Rust's `/` does.
pub open spec fn tdiv(a: int, b: int) -> int {
    if a >= 0 {
        a / b
    } else {
        -((-a) / b)
    }
}

/// Clamp into the range of `i64`.
pub open spec fn sat64(a: int) -> int {
    if a < i64::MIN {
        i64::MIN as int
    } else if a > i64::MAX {
        i64::MAX as int
    } else {
        a
    }
}

/// `r` is the integer square root of `n`, rounded down.
pub open spec fn is_floor_sqrt(r: int, n: int) -> bool {
    0 <= r && r * r <= n && n < (r + 1) * (r + 1)
}

/// The integer square root of `n`, rounded down.
pub open spec fn floor_sqrt(n: int) -> int {
    choose|r: int| is_floor_sqrt(r, n)
}

/// The integer square root of `n`, rounded up.
pub open spec fn ceil_sqrt(n: int) -> int {
    let r = floor_sqrt(n);
    if r * r == n {
        r
    } else {
        r + 1
    }
}

/// Squared length below which normalization takes the root at `ONE` times the
/// vector's own resolution.
pub const FINE_LIMIT: u128 = 0x1_0000_0000_0000_0000_0000;

/// The factor a vector of squared length `l` is refined by before normalizing.
pub open spec fn refinement(l: int) -> int {
    if l <= FINE_LIMIT {
        ONE as int
    } else {
        1
    }
}

/// `c` scaled by `m / n`, rounded toward zero.
pub open spec fn rescale(c: int, m: int, n: int) -> int {
    tdiv(c * m, n)
}

pub open spec fn sq3(a: int, b: int, c: int) -> int {
    a * a + b * b + c * c
}

pub proof fn lemma_floor_sqrt_unique(a: int, b: int, n: int)
    requires
        is_floor_sqrt(a, n),
        is_floor_sqrt(b, n),
    ensures
        a == b,
{
    if a < b {
        assert((a + 1) * (a + 1) <= b * b) by (nonlinear_arith)
            requires
                0 <= a + 1 <= b,
        ;
    } else if b < a {
        assert((b + 1) * (b + 1) <= a * a) by (nonlinear_arith)
            requires
                0 <= b + 1 <= a,
        ;
    }
}

/// Every non-negative integer has a floor square root.
pub proof fn lemma_floor_sqrt(n: int)
    requires
        0 <= n,
    ensures
        is_floor_sqrt(floor_sqrt(n), n),
    decreases n,
{
    if n == 0 {
        assert(is_floor_sqrt(0, 0));
    } else {
        lemma_floor_sqrt(n - 1);
        let r = floor_sqrt(n - 1);
        if (r + 1) * (r + 1) <= n {
            assert(n < (r + 2) * (r + 2)) by (nonlinear_arith)
                requires
                    n - 1 < (r + 1) * (r + 1),
                    0 <= r,
            ;
            assert(is_floor_sqrt(r + 1, n));
        } else {
            assert(is_floor_sqrt(r, n));
        }
    }
}

/// The rounded-up root is at least the true root and positive for positive `n`.
pub proof fn lemma_ceil_sqrt(n: int)
    requires
        0 <= n,
    ensures
        0 <= ceil_sqrt(n) <= floor_sqrt(n) + 1,
        n <= ceil_sqrt(n) * ceil_sqrt(n),
        0 < n ==> 0 < ceil_sqrt(n),
        0 < n ==> (ceil_sqrt(n) - 1) * (ceil_sqrt(n) - 1) < n,
{
    lemma_floor_sqrt(n);
    let r = floor_sqrt(n);
    if r == 0 {
        assert(r * r == 0) by (nonlinear_arith)
            requires
                r == 0,
        ;
    }
    if 0 < n && r * r == n {
        assert((r - 1) * (r - 1) < r * r) by (nonlinear_arith)
            requires
                r >= 1,
        ;
    }
}

proof fn lemma_abs_le_root(c: int, n: int, l: int)
    requires
        c * c <= l,
        l <= n * n,
        0 <= n,
    ensures
        -n <= c <= n,
{
    if c > n {
        assert(n * n < c * c) by (nonlinear_arith)
            requires
                0 <= n < c,
        ;
    } else if c < -n {
        assert(n * n < c * c) by (nonlinear_arith)
            requires
                0 <= n < -c,
        ;
    }
}

proof fn lemma_rescale_bounded(c: int, m: int, n: int)
    requires
        -n <= c <= n,
        0 <= m,
        0 < n,
    ensures
        -m <= rescale(c, m, n) <= m,
{
    let a = if c >= 0 { c } else { -c };
    assert(a * m <= n * m) by (nonlinear_arith)
        requires
            0 <= a <= n,
            0 <= m,
    ;
    assert(0 <= a * m) by (nonlinear_arith)
        requires
            0 <= a,
            0 <= m,
    ;
    lemma_div_is_ordered(a * m, n * m, n);
    lemma_div_multiples_vanish(m, n);
    if c < 0 {
        assert(c * m == -(a * m)) by (nonlinear_arith)
            requires
                a == -c,
        ;
    }
    assert((a * m) / n >= 0) by (nonlinear_arith)
        requires
            a * m >= 0,
            n > 0,
    ;
}

/// Rounding toward zero never makes a rescaled component larger:
/// `rescale(c, m, n)^2 * n^2 <= c^2 * m^2`.
proof fn lemma_rescale_sq(c: int, m: int, n: int)
    requires
        0 <= m,
        0 < n,
    ensures
        rescale(c, m, n) * rescale(c, m, n) * (n * n) <= (c * c) * (m * m),
{
    let a = if c >= 0 { c } else { -c };
    assert(0 <= a * m) by (nonlinear_arith)
        requires
            0 <= a,
            0 <= m,
    ;
    let q = (a * m) / n;
    lemma_fundamental_div_mod(a * m, n);
    assert(0 <= q * n <= a * m) by (nonlinear_arith)
        requires
            a * m == n * q + (a * m) % n,
            0 <= (a * m) % n,
            0 <= a * m,
            0 < n,
    ;
    assert((q * n) * (q * n) <= (a * m) * (a * m)) by (nonlinear_arith)
        requires
            0 <= q * n <= a * m,
    ;
    if c < 0 {
        assert(c * m == -(a * m)) by (nonlinear_arith)
            requires
                a == -c,
        ;
    }
    assert(rescale(c, m, n) == q || rescale(c, m, n) == -q);
    let t = rescale(c, m, n);
    if t == q {
        assert(t * t * (n * n) == (q * n) * (q * n)) by (nonlinear_arith)
            requires
                t == q,
        ;
    } else {
        assert(t * t * (n * n) == (q * n) * (q * n)) by (nonlinear_arith)
            requires
                t == -q,
        ;
    }
    assert((a * m) * (a * m) == (c * c) * (m * m)) by (nonlinear_arith)
        requires
            a == c || a == -c,
    ;
}

/// A vector rescaled by `m / n`, with `n` at least its length, has length at most `m`.
pub proof fn lemma_rescaled_length(a: int, b: int, c: int, m: int, n: int)
    requires
        0 <= m,
        0 < n,
        sq3(a, b, c) <= n * n,
    ensures
        sq3(rescale(a, m, n), rescale(b, m, n), rescale(c, m, n)) <= m * m,
        -m <= rescale(a, m, n) <= m,
        -m <= rescale(b, m, n) <= m,
        -m <= rescale(c, m, n) <= m,
{
    lemma_rescale_sq(a, m, n);
    lemma_rescale_sq(b, m, n);
    lemma_rescale_sq(c, m, n);
    let (x, y, z) = (rescale(a, m, n), rescale(b, m, n), rescale(c, m, n));
    assert(sq3(x, y, z) * (n * n) <= sq3(a, b, c) * (m * m)) by (nonlinear_arith)
        requires
            x * x * (n * n) <= (a * a) * (m * m),
            y * y * (n * n) <= (b * b) * (m * m),
            z * z * (n * n) <= (c * c) * (m * m),
    ;
    assert(sq3(a, b, c) * (m * m) <= (n * n) * (m * m)) by (nonlinear_arith)
        requires
            sq3(a, b, c) <= n * n,
    ;
    assert(sq3(x, y, z) <= m * m) by (nonlinear_arith)
        requires
            sq3(x, y, z) * (n * n) <= (n * n) * (m * m),
            0 < n,
    ;
    assert(a * a >= 0 && b * b >= 0 && c * c >= 0) by (nonlinear_arith);
    lemma_abs_le_root(a, n, n * n);
    lemma_abs_le_root(b, n, n * n);
    lemma_abs_le_root(c, n, n * n);
    lemma_rescale_bounded(a, m, n);
    lemma_rescale_bounded(b, m, n);
    lemma_rescale_bounded(c, m, n);
}

pub open spec fn abs(a: int) -> int {
    if a < 0 {
        -a
    } else {
        a
    }
}

/// Rounding toward zero loses less than one step: `(|rescale(c, m, n)| + 1) * n > |c| * m`.
proof fn lemma_rescale_short(c: int, m: int, n: int)
    requires
        0 <= m,
        0 < n,
    ensures
        (abs(rescale(c, m, n)) + 1) * (abs(rescale(c, m, n)) + 1) * (n * n) > (c * c) * (m * m),
{
    let a = abs(c);
    assert(0 <= a * m) by (nonlinear_arith)
        requires
            0 <= a,
            0 <= m,
    ;
    let q = (a * m) / n;
    lemma_fundamental_div_mod(a * m, n);
    assert(0 <= q) by (nonlinear_arith)
        requires
            a * m == n * q + (a * m) % n,
            (a * m) % n < n,
            0 <= a * m,
            0 < n,
    ;
    assert((q + 1) * n > a * m) by (nonlinear_arith)
        requires
            a * m == n * q + (a * m) % n,
            (a * m) % n < n,
    ;
    if c < 0 {
        assert(c * m == -(a * m)) by (nonlinear_arith)
            requires
                a == -c,
        ;
    }
    assert(abs(rescale(c, m, n)) == q);
    assert((q + 1) * (q + 1) * (n * n) > (a * m) * (a * m)) by (nonlinear_arith)
        requires
            (q + 1) * n > a * m,
            a * m >= 0,
    ;
    assert((a * m) * (a * m) == (c * c) * (m * m)) by (nonlinear_arith)
        requires
            a == c || a == -c,
    ;
}

proof fn lemma_root_margin(n: int, l: int, o: int)
    requires
        1 <= n,
        (n - 1) * (n - 1) < l,
        o * o <= l,
        2 <= o,
    ensures
        2 * (o - 1) * (o - 1) * n <= (2 * o - 1) * l,
{
    if n <= o {
        assert(2 * (o - 1) * (o - 1) * n <= 2 * (o - 1) * (o - 1) * o) by (nonlinear_arith)
            requires
                1 <= n <= o,
                2 <= o,
        ;
        assert(2 * (o - 1) * (o - 1) * o <= (2 * o - 1) * (o * o)) by (nonlinear_arith)
            requires
                2 <= o,
        ;
        assert((2 * o - 1) * (o * o) <= (2 * o - 1) * l) by (nonlinear_arith)
            requires
                o * o <= l,
                2 <= o,
        ;
    } else {
        assert((n - 1) * (n - 1) >= o * (n - 1)) by (nonlinear_arith)
            requires
                n - 1 >= o,
                o >= 2,
        ;
        assert((2 * o - 1) * ((n - 1) * (n - 1)) >= (2 * o - 1) * (o * (n - 1))) by (nonlinear_arith)
            requires
                (n - 1) * (n - 1) >= o * (n - 1),
                o >= 2,
        ;
        assert((2 * o - 1) * (o * (n - 1)) + (2 * o - 1) >= 2 * (o - 1) * (o - 1) * n) by (
        nonlinear_arith)
            requires
                n >= o + 1,
                o >= 2,
        ;
        assert((2 * o - 1) * ((n - 1) * (n - 1)) + (2 * o - 1) <= (2 * o - 1) * l) by (
        nonlinear_arith)
            requires
                (n - 1) * (n - 1) + 1 <= l,
                o >= 2,
        ;
    }
}

/// A vector of squared length `l >= o * o`, rescaled by `o` over its length
/// rounded up, comes out at most one step short in each component.
proof fn lemma_rescaled_near(a: int, b: int, c: int, o: int, n: int)
    requires
        2 <= o,
        o * o <= sq3(a, b, c),
        n == ceil_sqrt(sq3(a, b, c)),
    ensures
        sq3(abs(rescale(a, o, n)) + 1, abs(rescale(b, o, n)) + 1, abs(rescale(c, o, n)) + 1) >= (o
            - 1) * (o - 1),
{
    let l = sq3(a, b, c);
    assert(o * o >= 4) by (nonlinear_arith)
        requires
            o >= 2,
    ;
    lemma_ceil_sqrt(l);
    lemma_rescale_short(a, o, n);
    lemma_rescale_short(b, o, n);
    lemma_rescale_short(c, o, n);
    let (x, y, z) = (abs(rescale(a, o, n)) + 1, abs(rescale(b, o, n)) + 1, abs(rescale(c, o, n)) + 1);
    let s = sq3(x, y, z);
    assert(s * (n * n) > l * (o * o)) by (nonlinear_arith)
        requires
            x * x * (n * n) > (a * a) * (o * o),
            y * y * (n * n) > (b * b) * (o * o),
            z * z * (n * n) > (c * c) * (o * o),
            s == x * x + y * y + z * z,
            l == a * a + b * b + c * c,
    ;
    lemma_root_margin(n, l, o);
    assert(n * n < l + 2 * n) by (nonlinear_arith)
        requires
            (n - 1) * (n - 1) < l,
    ;
    if s < (o - 1) * (o - 1) {
        assert(s * (n * n) <= (o - 1) * (o - 1) * (n * n)) by (nonlinear_arith)
            requires
                s < (o - 1) * (o - 1),
        ;
        assert((o - 1) * (o - 1) * (n * n) <= (o - 1) * (o - 1) * (l + 2 * n)) by (nonlinear_arith)
            requires
                n * n < l + 2 * n,
        ;
        assert((o - 1) * (o - 1) * (l + 2 * n) <= l * (o * o)) by (nonlinear_arith)
            requires
                2 * (o - 1) * (o - 1) * n <= (2 * o - 1) * l,
        ;
    }
}

/// Integer square root, rounded down.
fn floor_sqrt_u128(n: u128) -> (r: u128)
    ensures
        is_floor_sqrt(r as int, n as int),
        r <= u64::MAX,
{
    let mut lo: u128 = 0;
    let mut hi: u128 = 0x1_0000_0000_0000_0000;
    assert((0x1_0000_0000_0000_0000int) * (0x1_0000_0000_0000_0000int) > u128::MAX);
    while lo + 1 < hi
        invariant
            lo < hi <= 0x1_0000_0000_0000_0000,
            lo * lo <= n,
            n < hi * hi,
        decreases hi - lo,
    {
        let mid = lo + (hi - lo) / 2;
        assert(mid * mid <= u128::MAX) by (nonlinear_arith)
            requires
                0 <= mid < 0x1_0000_0000_0000_0000int,
        ;
        if mid * mid <= n {
            lo = mid;
        } else {
            hi = mid;
        }
    }
    lo
}

/// `floor_sqrt` computed.
fn floor_sqrt_exec(n: u128) -> (r: u128)
    ensures
        r == floor_sqrt(n as int),
        is_floor_sqrt(r as int, n as int),
        r <= u64::MAX,
{
    let r = floor_sqrt_u128(n);
    proof {
        lemma_floor_sqrt(n as int);
        lemma_floor_sqrt_unique(floor_sqrt(n as int), r as int, n as int);
    }
    r
}

/// `ceil_sqrt` computed.
fn ceil_sqrt_exec(n: u128) -> (r: u128)
    ensures
        r == ceil_sqrt(n as int),
        r <= 0x1_0000_0000_0000_0000,
{
    let f = floor_sqrt_exec(n);
    if f * f == n {
        f
    } else {
        f + 1
    }
}

/// `c * m / n` rounded toward zero, for `|c| <= n`: the result lies within `[-m, m]`.
fn rescale_exec(c: i128, m: i64, n: u128) -> (r: i64)
    requires
        0 <= m,
        0 < n <= 0x1_0000_0000_0000_0000,
        -(n as int) <= c <= n,
        -0x4000_0000_0000_0000_0000_0000_0000_0000int <= c * m
            <= 0x4000_0000_0000_0000_0000_0000_0000_0000int,
    ensures
        r == rescale(c as int, m as int, n as int),
        -m <= r <= m,
{
    proof {
        lemma_rescale_bounded(c as int, m as int, n as int);
    }
    let nn = n as i128;
    let p: i128 = c * (m as i128);
    let q: i128 = if p >= 0 {
        p / nn
    } else {
        -((-p) / nn)
    };
    q as i64
}

impl Vec3 {
    pub open spec fn len_sq(self) -> int {
        sq3(self.x as int, self.y as int, self.z as int)
    }

    pub open spec fn is_zero(self) -> bool {
        self.x == 0 && self.y == 0 && self.z == 0
    }

    /// The vector scaled by `m` over its length rounded up, each component rounded
    /// toward zero: the result is never longer than `m`.
    pub open spec fn shrunk_to(self, m: int) -> Vec3 {
        let n = ceil_sqrt(self.len_sq());
        Vec3 {
            x: rescale(self.x as int, m, n) as i64,
            y: rescale(self.y as int, m, n) as i64,
            z: rescale(self.z as int, m, n) as i64,
        }
    }

    /// Normalize-or-zero: the zero vector stays zero; any other is refined by
    /// `refinement` and then scaled by `ONE` over its length rounded up.
    pub open spec fn normalized_or_zero(self) -> Vec3 {
        let l = self.len_sq();
        if l == 0 {
            self
        } else {
            let k = refinement(l);
            let n = ceil_sqrt(l * k * k);
            Vec3 {
                x: rescale(self.x * k, ONE as int, n) as i64,
                y: rescale(self.y * k, ONE as int, n) as i64,
                z: rescale(self.z * k, ONE as int, n) as i64,
            }
        }
    }

    pub fn new(x: i64, y: i64, z: i64) -> (r: Vec3)
        ensures
            r == (Vec3 { x, y, z }),
    {
        Vec3 { x, y, z }
    }

    pub fn zero() -> (r: Vec3)
        ensures
            r.is_zero(),
    {
        Vec3 { x: 0, y: 0, z: 0 }
    }

    /// The squared length.
    pub fn length_squared(&self) -> (r: u128)
        ensures
            r == self.len_sq(),
    {
        let ax: u128 = if self.x >= 0 { self.x as u128 } else { (-(self.x as i128)) as u128 };
        let ay: u128 = if self.y >= 0 { self.y as u128 } else { (-(self.y as i128)) as u128 };
        let az: u128 = if self.z >= 0 { self.z as u128 } else { (-(self.z as i128)) as u128 };
        assert(ax * ax + ay * ay + az * az <= u128::MAX) by (nonlinear_arith)
            requires
                ax <= 0x8000_0000_0000_0000int,
                ay <= 0x8000_0000_0000_0000int,
                az <= 0x8000_0000_0000_0000int,
        ;
        assert(ax * ax == self.x * self.x) by (nonlinear_arith)
            requires
                ax == self.x || ax == -self.x,
        ;
        assert(ay * ay == self.y * self.y) by (nonlinear_arith)
            requires
                ay == self.y || ay == -self.y,
        ;
        assert(az * az == self.z * self.z) by (nonlinear_arith)
            requires
                az == self.z || az == -self.z,
        ;
        ax * ax + ay * ay + az * az
    }

    /// Scale a non-zero vector down to length `m`: no component exceeds `m` and
    /// the squared length does not exceed `m * m`.
    pub fn shrink_to(&self, m: i64) -> (r: Vec3)
        requires
            0 <= m,
            self.len_sq() > 0,
        ensures
            r == self.shrunk_to(m as int),
            r.len_sq() <= m * m,
            -m <= r.x <= m,
            -m <= r.y <= m,
            -m <= r.z <= m,
    {
        let l = self.length_squared();
        let n = ceil_sqrt_exec(l);
        proof {
            let (a, b, c) = (self.x as int, self.y as int, self.z as int);
            lemma_ceil_sqrt(l as int);
            lemma_rescaled_length(a, b, c, m as int, n as int);
            assert(a * a >= 0 && b * b >= 0 && c * c >= 0) by (nonlinear_arith);
            lemma_abs_le_root(a, n as int, l as int);
            lemma_abs_le_root(b, n as int, l as int);
            lemma_abs_le_root(c, n as int, l as int);
            assert(-0x4000_0000_0000_0000_0000_0000_0000_0000int <= a * m
                <= 0x4000_0000_0000_0000_0000_0000_0000_0000int) by (nonlinear_arith)
                requires
                    -0x8000_0000_0000_0000int <= a <= 0x8000_0000_0000_0000int,
                    0 <= m <= 0x8000_0000_0000_0000int,
            ;
            assert(-0x4000_0000_0000_0000_0000_0000_0000_0000int <= b * m
                <= 0x4000_0000_0000_0000_0000_0000_0000_0000int) by (nonlinear_arith)
                requires
                    -0x8000_0000_0000_0000int <= b <= 0x8000_0000_0000_0000int,
                    0 <= m <= 0x8000_0000_0000_0000int,
            ;
            assert(-0x4000_0000_0000_0000_0000_0000_0000_0000int <= c * m
                <= 0x4000_0000_0000_0000_0000_0000_0000_0000int) by (nonlinear_arith)
                requires
                    -0x8000_0000_0000_0000int <= c <= 0x8000_0000_0000_0000int,
                    0 <= m <= 0x8000_0000_0000_0000int,
            ;
        }
        let x = rescale_exec(self.x as i128, m, n);
        let y = rescale_exec(self.y as i128, m, n);
        let z = rescale_exec(self.z as i128, m, n);
        Vec3 { x, y, z }
    }

    /// Normalize-or-zero: a zero vector is returned unchanged; any other is
    /// scaled to length `ONE`, rounding down, so its length never exceeds `ONE`.
    pub fn normalize_or_zero(&self) -> (r: Vec3)
        ensures
            r == self.normalized_or_zero(),
            self.is_zero() ==> r.is_zero(),
            r.len_sq() <= ONE * ONE,
            !self.is_zero() ==> sq3(abs(r.x as int) + 1, abs(r.y as int) + 1, abs(r.z as int) + 1)
                >= (ONE - 1) * (ONE - 1),
    {
        let l = self.length_squared();
        proof {
            assert(self.x * self.x >= 0 && self.y * self.y >= 0 && self.z * self.z >= 0)
                by (nonlinear_arith);
            if self.len_sq() == 0 {
                assert(self.is_zero()) by (nonlinear_arith)
                    requires
                        self.x * self.x >= 0,
                        self.y * self.y >= 0,
                        self.z * self.z >= 0,
                        self.x * self.x + self.y * self.y + self.z * self.z == 0,
                ;
            }
        }
        if l == 0 {
            return *self;
        }
        let k: i128 = if l <= FINE_LIMIT {
            ONE as i128
        } else {
            1
        };
        proof {
            assert(l * k <= u128::MAX) by (nonlinear_arith)
                requires
                    (l <= FINE_LIMIT && k == ONE) || (k == 1 && l <= u128::MAX),
            ;
            assert(l * k * k <= u128::MAX) by (nonlinear_arith)
                requires
                    (l <= FINE_LIMIT && k == ONE) || (k == 1 && l <= u128::MAX),
            ;
        }
        let fine: u128 = l * (k as u128) * (k as u128);
        let n = ceil_sqrt_exec(fine);
        let ghost (a, b, c) = (self.x * k, self.y * k, self.z * k);
        proof {
            let fl = fine as int;
            lemma_ceil_sqrt(fl);
            let (x, y, w, kk) = (self.x as int, self.y as int, self.z as int, k as int);
            assert(a * a == x * x * (kk * kk)) by (nonlinear_arith)
                requires
                    a == x * kk,
            ;
            assert(b * b == y * y * (kk * kk)) by (nonlinear_arith)
                requires
                    b == y * kk,
            ;
            assert(c * c == w * w * (kk * kk)) by (nonlinear_arith)
                requires
                    c == w * kk,
            ;
            assert(fl == (x * x + y * y + w * w) * (kk * kk)) by (nonlinear_arith)
                requires
                    fl == (l as int) * kk * kk,
                    l as int == x * x + y * y + w * w,
            ;
            assert((x * x + y * y + w * w) * (kk * kk) == x * x * (kk * kk) + y * y * (kk * kk) + w
                * w * (kk * kk)) by (nonlinear_arith);
            assert(sq3(a, b, c) == fl);
            assert(fl > 0) by (nonlinear_arith)
                requires
                    fl == l * k * k,
                    l > 0,
                    k >= 1,
            ;
            lemma_rescaled_length(a, b, c, ONE as int, n as int);
            assert(ONE * ONE <= fl) by (nonlinear_arith)
                requires
                    fl == (l as int) * kk * kk,
                    l >= 1,
                    (l <= FINE_LIMIT && kk == ONE) || (kk == 1 && l > FINE_LIMIT),
            ;
            lemma_rescaled_near(a, b, c, ONE as int, n as int);
            assert(a * a >= 0 && b * b >= 0 && c * c >= 0) by (nonlinear_arith);
            lemma_abs_le_root(a, n as int, fl);
            lemma_abs_le_root(b, n as int, fl);
            lemma_abs_le_root(c, n as int, fl);
            assert(forall|t: int|
                -(n as int) <= t <= n ==> -0x4000_0000_0000_0000_0000_0000_0000_0000int <= #[trigger] (
                t * ONE) <= 0x4000_0000_0000_0000_0000_0000_0000_0000int) by {
                assert forall|t: int| -(n as int) <= t <= n implies
                    -0x4000_0000_0000_0000_0000_0000_0000_0000int <= #[trigger] (t * ONE)
                        <= 0x4000_0000_0000_0000_0000_0000_0000_0000int by {
                    assert(-0x4000_0000_0000_0000_0000_0000_0000_0000int <= t * ONE
                        <= 0x4000_0000_0000_0000_0000_0000_0000_0000int) by (nonlinear_arith)
                        requires
                            -0x1_0000_0000_0000_0000int <= t <= 0x1_0000_0000_0000_0000int,
                    ;
                }
            }
        }
        let x = rescale_exec((self.x as i128) * k, ONE, n);
        let y = rescale_exec((self.y as i128) * k, ONE, n);
        let z = rescale_exec((self.z as i128) * k, ONE, n);
        Vec3 { x, y, z }
    }
}

} // verus!
