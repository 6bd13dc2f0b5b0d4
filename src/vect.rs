//! Three-component vectors of fixed-point reals, with the algebra the
//! renderer needs. All operations are pure and saturate instead of
//! overflowing.
use vstd::prelude::*;
use crate::fixed::{
    clamp, in_range, mul_spec, div_spec, root, saturate, div_floor, fmul, fdiv, isqrt,
    lemma_mul_bound, ONE, LIMIT, EPSILON,
};

verus! {

/// A vector `(x, y, z)`; each component is a fixed-point value.
#[derive(Clone, Copy, PartialEq, Eq, Structural, Debug)]
pub struct Vect(pub i64, pub i64, pub i64);

impl Vect {
    /// Every component lies in the representable range.
    pub open spec fn wf(self) -> bool {
        in_range(self.0 as int) && in_range(self.1 as int) && in_range(self.2 as int)
    }

    /// The vector `(x, y, z)` given in whole units.
    pub fn units(x: i64, y: i64, z: i64) -> (r: Vect)
        requires
            -0x100_0000 <= x <= 0x100_0000,
            -0x100_0000 <= y <= 0x100_0000,
            -0x100_0000 <= z <= 0x100_0000,
        ensures
            r == Vect((x * ONE) as i64, (y * ONE) as i64, (z * ONE) as i64),
            r.wf(),
    {
        Vect(x * ONE, y * ONE, z * ONE)
    }
}

/// Builds a vector from three saturated components.
pub open spec fn vec3(x: int, y: int, z: int) -> Vect {
    Vect(clamp(x) as i64, clamp(y) as i64, clamp(z) as i64)
}

/// The exact dot product, at scale `ONE * ONE`.
pub open spec fn dot_raw(a: Vect, b: Vect) -> int {
    a.0 * b.0 + a.1 * b.1 + a.2 * b.2
}

pub open spec fn vadd(a: Vect, b: Vect) -> Vect {
    vec3(a.0 + b.0, a.1 + b.1, a.2 + b.2)
}

pub open spec fn vsub(a: Vect, b: Vect) -> Vect {
    vec3(a.0 - b.0, a.1 - b.1, a.2 - b.2)
}

pub open spec fn vscale(v: Vect, s: int) -> Vect {
    Vect(mul_spec(v.0 as int, s) as i64, mul_spec(v.1 as int, s) as i64, mul_spec(v.2 as int, s) as i64)
}

pub open spec fn vdiv(v: Vect, s: int) -> Vect {
    Vect(div_spec(v.0 as int, s) as i64, div_spec(v.1 as int, s) as i64, div_spec(v.2 as int, s) as i64)
}

pub open spec fn vpointwise(a: Vect, b: Vect) -> Vect {
    Vect(
        mul_spec(a.0 as int, b.0 as int) as i64,
        mul_spec(a.1 as int, b.1 as int) as i64,
        mul_spec(a.2 as int, b.2 as int) as i64,
    )
}

/// The fixed-point dot product: the exact one rounded down and saturated.
pub open spec fn vdot(a: Vect, b: Vect) -> int {
    clamp(dot_raw(a, b) / (ONE as int))
}

pub open spec fn vcross(a: Vect, b: Vect) -> Vect {
    vec3(
        (a.1 * b.2 - a.2 * b.1) / (ONE as int),
        (a.2 * b.0 - a.0 * b.2) / (ONE as int),
        (a.0 * b.1 - a.1 * b.0) / (ONE as int),
    )
}

/// The length of `v`, rounded down to the grid and saturated.
pub open spec fn vnorm(v: Vect) -> int {
    clamp(root(dot_raw(v, v)))
}

/// `s` is too small to divide by.
pub open spec fn near_zero(s: int) -> bool {
    -EPSILON < s < EPSILON
}

pub open spec fn vscalar_div(v: Vect, s: int) -> Option<Vect> {
    if near_zero(s) {
        None
    } else {
        Some(vdiv(v, s))
    }
}

/// `v` scaled to unit length, or `v` itself where its length is below `EPSILON`.
pub open spec fn vnormalise(v: Vect) -> Vect {
    if near_zero(vnorm(v)) {
        v
    } else {
        vdiv(v, vnorm(v))
    }
}

pub proof fn lemma_dot_raw_bound(a: Vect, b: Vect)
    requires
        a.wf(),
        b.wf(),
    ensures
        -3 * (LIMIT * LIMIT) <= dot_raw(a, b) <= 3 * (LIMIT * LIMIT),
{
    lemma_mul_bound(a.0 as int, b.0 as int, LIMIT as int, LIMIT as int);
    lemma_mul_bound(a.1 as int, b.1 as int, LIMIT as int, LIMIT as int);
    lemma_mul_bound(a.2 as int, b.2 as int, LIMIT as int, LIMIT as int);
}

/// Subtracting `b` undoes adding it, where the sum needs no saturation.
pub proof fn lemma_add_sub_inverse(a: Vect, b: Vect)
    requires
        a.wf(),
        b.wf(),
        in_range(a.0 + b.0),
        in_range(a.1 + b.1),
        in_range(a.2 + b.2),
    ensures
        vsub(vadd(a, b), b) == a,
{
}

/// Adding `b` undoes subtracting it, where the difference needs no saturation.
pub proof fn lemma_sub_add_inverse(a: Vect, b: Vect)
    requires
        a.wf(),
        b.wf(),
        in_range(a.0 - b.0),
        in_range(a.1 - b.1),
        in_range(a.2 - b.2),
    ensures
        vadd(vsub(a, b), b) == a,
{
}

/// The dot product is symmetric.
pub proof fn lemma_dot_symmetric(a: Vect, b: Vect)
    ensures
        dot_raw(a, b) == dot_raw(b, a),
        vdot(a, b) == vdot(b, a),
{
    assert(dot_raw(a, b) == dot_raw(b, a)) by (nonlinear_arith);
}

/// The dot product is additive in its first argument (and so, by symmetry,
/// in its second), where the sum needs no saturation.
pub proof fn lemma_dot_additive(a: Vect, b: Vect, c: Vect)
    requires
        a.wf(),
        b.wf(),
        in_range(a.0 + b.0),
        in_range(a.1 + b.1),
        in_range(a.2 + b.2),
    ensures
        dot_raw(vadd(a, b), c) == dot_raw(a, c) + dot_raw(b, c),
        dot_raw(c, vadd(a, b)) == dot_raw(c, a) + dot_raw(c, b),
{
    let s = vadd(a, b);
    assert(s.0 == a.0 + b.0 && s.1 == a.1 + b.1 && s.2 == a.2 + b.2);
    assert(dot_raw(s, c) == dot_raw(a, c) + dot_raw(b, c)) by (nonlinear_arith)
        requires
            s.0 == a.0 + b.0,
            s.1 == a.1 + b.1,
            s.2 == a.2 + b.2,
    ;
    lemma_dot_symmetric(c, s);
    lemma_dot_symmetric(c, a);
    lemma_dot_symmetric(c, b);
}

pub proof fn lemma_scale_whole(x: int, k: int)
    ensures
        (x * (k * ONE)) / (ONE as int) == x * k,
{
    assert(x * (k * ONE) == ONE * (x * k)) by (nonlinear_arith);
    vstd::arithmetic::div_mod::lemma_div_multiples_vanish(x * k, ONE as int);
}

/// The dot product is homogeneous: scaling an argument by a whole number `k`
/// scales the product by `k`, where the scaled vector needs no saturation.
pub proof fn lemma_dot_homogeneous(a: Vect, b: Vect, k: int)
    requires
        a.wf(),
        in_range(k * ONE),
        in_range(a.0 * k),
        in_range(a.1 * k),
        in_range(a.2 * k),
    ensures
        dot_raw(vscale(a, k * ONE), b) == k * dot_raw(a, b),
{
    let s = vscale(a, k * ONE);
    lemma_scale_whole(a.0 as int, k);
    lemma_scale_whole(a.1 as int, k);
    lemma_scale_whole(a.2 as int, k);
    assert(s.0 == a.0 * k && s.1 == a.1 * k && s.2 == a.2 * k);
    let (x0, x1, x2) = (a.0 * b.0, a.1 * b.1, a.2 * b.2);
    assert((a.0 * k) * b.0 == k * x0) by (nonlinear_arith)
        requires
            x0 == a.0 * b.0,
    ;
    assert((a.1 * k) * b.1 == k * x1) by (nonlinear_arith)
        requires
            x1 == a.1 * b.1,
    ;
    assert((a.2 * k) * b.2 == k * x2) by (nonlinear_arith)
        requires
            x2 == a.2 * b.2,
    ;
    assert(k * (x0 + x1 + x2) == k * x0 + k * x1 + k * x2) by (nonlinear_arith);
}

/// A vector crossed with itself is the zero vector.
pub proof fn lemma_cross_self_zero(v: Vect)
    ensures
        vcross(v, v) == Vect(0, 0, 0),
{
    assert(v.1 * v.2 - v.2 * v.1 == 0) by (nonlinear_arith);
    assert(v.2 * v.0 - v.0 * v.2 == 0) by (nonlinear_arith);
    assert(v.0 * v.1 - v.1 * v.0 == 0) by (nonlinear_arith);
}

/// A vector shorter than `EPSILON` is left as it is by normalisation.
pub proof fn lemma_normalise_short(v: Vect)
    requires
        near_zero(vnorm(v)),
    ensures
        vnormalise(v) == v,
{
}

proof fn lemma_div_component(v: int, n: int) -> (u: int)
    requires
        n > 0,
        -n <= v <= n,
    ensures
        u == div_spec(v, n),
        n * u <= v * ONE < n * u + n,
        v * v * (ONE * ONE) - 2 * ONE * (n * n) <= (n * u) * (n * u),
        (n * u) * (n * u) < v * v * (ONE * ONE) + 2 * ONE * (n * n) + n * n,
{
    let x = v * ONE;
    let q = x / n;
    vstd::arithmetic::div_mod::lemma_fundamental_div_mod(x, n);
    assert(n * q <= x < n * q + n);
    assert(-n * ONE <= x <= n * ONE) by (nonlinear_arith)
        requires
            -n <= v <= n,
            x == v * ONE,
            n > 0,
    ;
    assert(-ONE <= q <= ONE) by (nonlinear_arith)
        requires
            n * q <= x < n * q + n,
            -n * ONE <= x <= n * ONE,
            n > 0,
    ;
    let e = x - n * q;
    assert(0 <= e < n);
    let a = (n * q) * (n * q);
    let xx = x * x;
    let xe = x * e;
    let ee = e * e;
    let nn = n * n;
    assert(a == xx - 2 * xe + ee) by (nonlinear_arith)
        requires
            e == x - n * q,
            a == (n * q) * (n * q),
            xx == x * x,
            xe == x * e,
            ee == e * e,
    ;
    assert(xx == v * v * (ONE * ONE)) by (nonlinear_arith)
        requires
            x == v * ONE,
            xx == x * x,
    ;
    assert(-(ONE * nn) <= xe <= ONE * nn) by (nonlinear_arith)
        requires
            x == v * ONE,
            -n <= v <= n,
            0 <= e < n,
            xe == x * e,
            nn == n * n,
    ;
    assert(0 <= ee < nn) by (nonlinear_arith)
        requires
            0 <= e < n,
            ee == e * e,
            nn == n * n,
    ;
    assert(xx - 2 * ONE * nn <= a < xx + 2 * ONE * nn + nn) by (nonlinear_arith)
        requires
            a == xx - 2 * xe + ee,
            -(ONE * nn) <= xe <= ONE * nn,
            0 <= ee < nn,
    ;
    q
}

/// Normalising a vector that is not near zero gives unit length up to
/// rounding: with `n` the vector's length on the grid, the squared length
/// `s` of the result (at scale `ONE * ONE`) obeys `s >= ONE^2 - 6 ONE` and
/// `n^2 s < ONE^2 (n + 1)^2 + (6 ONE + 3) n^2`.
pub proof fn lemma_normalise_unit(v: Vect)
    requires
        v.wf(),
        !near_zero(vnorm(v)),
        root(dot_raw(v, v)) <= LIMIT,
    ensures
        ONE * ONE - 6 * ONE <= dot_raw(vnormalise(v), vnormalise(v)),
        vnorm(v) * vnorm(v) * dot_raw(vnormalise(v), vnormalise(v))
            < ONE * ONE * ((vnorm(v) + 1) * (vnorm(v) + 1)) + (6 * ONE + 3) * (vnorm(v) * vnorm(v)),
{
    let s = dot_raw(v, v);
    assert(s >= 0) by (nonlinear_arith)
        requires
            s == v.0 * v.0 + v.1 * v.1 + v.2 * v.2,
    ;
    crate::fixed::lemma_root(s);
    let n = vnorm(v);
    assert(n == root(s));
    assert(n >= EPSILON);
    assert(-n <= v.0 <= n && -n <= v.1 <= n && -n <= v.2 <= n) by (nonlinear_arith)
        requires
            s == v.0 * v.0 + v.1 * v.1 + v.2 * v.2,
            s < (n + 1) * (n + 1),
            n >= 0,
    ;
    let u0 = lemma_div_component(v.0 as int, n);
    let u1 = lemma_div_component(v.1 as int, n);
    let u2 = lemma_div_component(v.2 as int, n);
    let u = vnormalise(v);
    assert(u.0 == u0 && u.1 == u1 && u.2 == u2);
    let t = dot_raw(u, u);
    let nn = n * n;
    assert((n * u0) * (n * u0) == nn * (u0 * u0)) by (nonlinear_arith)
        requires
            nn == n * n,
    ;
    assert((n * u1) * (n * u1) == nn * (u1 * u1)) by (nonlinear_arith)
        requires
            nn == n * n,
    ;
    assert((n * u2) * (n * u2) == nn * (u2 * u2)) by (nonlinear_arith)
        requires
            nn == n * n,
    ;
    assert(nn * t == nn * (u0 * u0) + nn * (u1 * u1) + nn * (u2 * u2)) by (nonlinear_arith)
        requires
            t == u0 * u0 + u1 * u1 + u2 * u2,
    ;
    assert(n * n * t == nn * t);
    assert(s * (ONE * ONE) == v.0 * v.0 * (ONE * ONE) + v.1 * v.1 * (ONE * ONE) + v.2 * v.2 * (ONE * ONE)) by (nonlinear_arith)
        requires
            s == v.0 * v.0 + v.1 * v.1 + v.2 * v.2,
    ;
    let (w0, w1, w2) = (v.0 as int, v.1 as int, v.2 as int);
    assert(s * (ONE * ONE) == w0 * w0 * (ONE * ONE) + w1 * w1 * (ONE * ONE) + w2 * w2 * (ONE * ONE));
    assert(nn * t >= w0 * w0 * (ONE * ONE) + w1 * w1 * (ONE * ONE) + w2 * w2 * (ONE * ONE) - 6 * ONE * nn) by (nonlinear_arith)
        requires
            nn * t == (n * u0) * (n * u0) + (n * u1) * (n * u1) + (n * u2) * (n * u2),
            w0 * w0 * (ONE * ONE) - 2 * ONE * (n * n) <= (n * u0) * (n * u0),
            w1 * w1 * (ONE * ONE) - 2 * ONE * (n * n) <= (n * u1) * (n * u1),
            w2 * w2 * (ONE * ONE) - 2 * ONE * (n * n) <= (n * u2) * (n * u2),
            nn == n * n,
    ;
    assert(n * n * t >= s * (ONE * ONE) - 6 * ONE * (n * n));
    assert(nn * t < w0 * w0 * (ONE * ONE) + w1 * w1 * (ONE * ONE) + w2 * w2 * (ONE * ONE) + 6 * ONE * nn + 3 * nn) by (nonlinear_arith)
        requires
            nn * t == (n * u0) * (n * u0) + (n * u1) * (n * u1) + (n * u2) * (n * u2),
            (n * u0) * (n * u0) < w0 * w0 * (ONE * ONE) + 2 * ONE * (n * n) + n * n,
            (n * u1) * (n * u1) < w1 * w1 * (ONE * ONE) + 2 * ONE * (n * n) + n * n,
            (n * u2) * (n * u2) < w2 * w2 * (ONE * ONE) + 2 * ONE * (n * n) + n * n,
            nn == n * n,
    ;
    assert(n * n * t < s * (ONE * ONE) + 6 * ONE * (n * n) + 3 * (n * n));
    assert(n * n * t >= n * n * (ONE * ONE - 6 * ONE)) by (nonlinear_arith)
        requires
            n * n * t >= s * (ONE * ONE) - 6 * ONE * (n * n),
            n * n <= s,
    ;
    assert(t >= ONE * ONE - 6 * ONE) by (nonlinear_arith)
        requires
            n * n * t >= n * n * (ONE * ONE - 6 * ONE),
            n > 0,
    ;
    assert(n * n * t < ONE * ONE * ((n + 1) * (n + 1)) + (6 * ONE + 3) * (n * n)) by (nonlinear_arith)
        requires
            n * n * t < s * (ONE * ONE) + 6 * ONE * (n * n) + 3 * (n * n),
            s < (n + 1) * (n + 1),
    ;
}

/// The zero vector.
pub fn zero() -> (r: Vect)
    ensures
        r == Vect(0, 0, 0),
        r.wf(),
{
    Vect(0, 0, 0)
}

/// The exact dot product of two well-formed vectors, at scale `ONE * ONE`.
pub fn dot_wide(a: &Vect, b: &Vect) -> (r: i128)
    requires
        a.wf(),
        b.wf(),
    ensures
        r == dot_raw(*a, *b),
        -3 * (LIMIT * LIMIT) <= r <= 3 * (LIMIT * LIMIT),
{
    proof {
        lemma_dot_raw_bound(*a, *b);
        lemma_mul_bound(a.0 as int, b.0 as int, LIMIT as int, LIMIT as int);
        lemma_mul_bound(a.1 as int, b.1 as int, LIMIT as int, LIMIT as int);
        lemma_mul_bound(a.2 as int, b.2 as int, LIMIT as int, LIMIT as int);
    }
    (a.0 as i128) * (b.0 as i128) + (a.1 as i128) * (b.1 as i128) + (a.2 as i128) * (b.2 as i128)
}

/// `a * b - c * d` for in-range components, exactly.
fn cross_term(a: i64, b: i64, c: i64, d: i64) -> (r: i128)
    requires
        in_range(a as int),
        in_range(b as int),
        in_range(c as int),
        in_range(d as int),
    ensures
        r == a * b - c * d,
        -2 * (LIMIT * LIMIT) <= r <= 2 * (LIMIT * LIMIT),
{
    proof {
        lemma_mul_bound(a as int, b as int, LIMIT as int, LIMIT as int);
        lemma_mul_bound(c as int, d as int, LIMIT as int, LIMIT as int);
    }
    (a as i128) * (b as i128) - (c as i128) * (d as i128)
}

impl Vect {
    /// Vector addition.
    pub fn add(&self, v2: &Vect) -> (r: Vect)
        requires
            self.wf(),
            v2.wf(),
        ensures
            r == vadd(*self, *v2),
            r.wf(),
    {
        Vect(
            saturate(self.0 as i128 + v2.0 as i128),
            saturate(self.1 as i128 + v2.1 as i128),
            saturate(self.2 as i128 + v2.2 as i128),
        )
    }

    /// Vector subtraction.
    pub fn sub(&self, v2: &Vect) -> (r: Vect)
        requires
            self.wf(),
            v2.wf(),
        ensures
            r == vsub(*self, *v2),
            r.wf(),
    {
        Vect(
            saturate(self.0 as i128 - v2.0 as i128),
            saturate(self.1 as i128 - v2.1 as i128),
            saturate(self.2 as i128 - v2.2 as i128),
        )
    }

    /// Scalar multiplication by a fixed-point `s`.
    pub fn scalar_mul(&self, s: &i64) -> (r: Vect)
        requires
            self.wf(),
            in_range(*s as int),
        ensures
            r == vscale(*self, *s as int),
            r.wf(),
    {
        Vect(fmul(self.0, *s), fmul(self.1, *s), fmul(self.2, *s))
    }

    /// Scalar division; no result where `|s| < EPSILON`.
    pub fn scalar_div(&self, s: &i64) -> (r: Option<Vect>)
        requires
            self.wf(),
            in_range(*s as int),
        ensures
            r == vscalar_div(*self, *s as int),
            r matches Some(u) ==> u.wf(),
    {
        if -EPSILON < *s && *s < EPSILON {
            None
        } else {
            Some(Vect(fdiv(self.0, *s), fdiv(self.1, *s), fdiv(self.2, *s)))
        }
    }

    /// Pointwise multiplication.
    pub fn pointwise_mul(&self, v2: &Vect) -> (r: Vect)
        requires
            self.wf(),
            v2.wf(),
        ensures
            r == vpointwise(*self, *v2),
            r.wf(),
    {
        Vect(fmul(self.0, v2.0), fmul(self.1, v2.1), fmul(self.2, v2.2))
    }

    /// Dot product.
    pub fn dot(&self, v2: &Vect) -> (r: i64)
        requires
            self.wf(),
            v2.wf(),
        ensures
            r == vdot(*self, *v2),
            in_range(r as int),
    {
        saturate(div_floor(dot_wide(self, v2), ONE as i128))
    }

    /// Cross product.
    pub fn cross(&self, v2: &Vect) -> (r: Vect)
        requires
            self.wf(),
            v2.wf(),
        ensures
            r == vcross(*self, *v2),
            r.wf(),
    {
        let x = cross_term(self.1, v2.2, self.2, v2.1);
        let y = cross_term(self.2, v2.0, self.0, v2.2);
        let z = cross_term(self.0, v2.1, self.1, v2.0);
        Vect(
            saturate(div_floor(x, ONE as i128)),
            saturate(div_floor(y, ONE as i128)),
            saturate(div_floor(z, ONE as i128)),
        )
    }

    /// Squared norm.
    pub fn norm_sq(&self) -> (r: i64)
        requires
            self.wf(),
        ensures
            r == vdot(*self, *self),
            in_range(r as int),
    {
        self.dot(self)
    }

    /// Norm, computed from the exact squared length.
    pub fn norm(&self) -> (r: i64)
        requires
            self.wf(),
        ensures
            r == vnorm(*self),
            0 <= r <= LIMIT,
    {
        let n = dot_wide(self, self);
        proof {
            assert(n >= 0) by (nonlinear_arith)
                requires
                    n == self.0 * self.0 + self.1 * self.1 + self.2 * self.2,
            ;
        }
        let s = isqrt(n as u128);
        proof {
            crate::fixed::lemma_root(n as int);
        }
        saturate(s as i128)
    }

    /// The same direction with norm 1; `self` unchanged where its norm is below `EPSILON`.
    pub fn normalise(&self) -> (r: Vect)
        requires
            self.wf(),
        ensures
            r == vnormalise(*self),
            r.wf(),
    {
        match self.scalar_div(&self.norm()) {
            None => *self,
            Some(u) => u,
        }
    }
}

} // verus!
