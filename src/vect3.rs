//! The same vector algebra on plain triples `(x, y, z)` of fixed-point values.
use vstd::prelude::*;
use crate::fixed::in_range;
use crate::vect::{Vect, vadd, vsub, vscale, vscalar_div, vdot, vcross, vnorm, vnormalise};

verus! {

/// A vector as a plain triple.
pub type Vect3 = (i64, i64, i64);

pub open spec fn as_vect(v: Vect3) -> Vect {
    Vect(v.0, v.1, v.2)
}

pub open spec fn as_triple(v: Vect) -> Vect3 {
    (v.0, v.1, v.2)
}

/// Vector addition.
pub fn add(v1: &Vect3, v2: &Vect3) -> (r: Vect3)
    requires
        as_vect(*v1).wf(),
        as_vect(*v2).wf(),
    ensures
        r == as_triple(vadd(as_vect(*v1), as_vect(*v2))),
{
    let r = Vect(v1.0, v1.1, v1.2).add(&Vect(v2.0, v2.1, v2.2));
    (r.0, r.1, r.2)
}

/// Vector subtraction.
pub fn sub(v1: &Vect3, v2: &Vect3) -> (r: Vect3)
    requires
        as_vect(*v1).wf(),
        as_vect(*v2).wf(),
    ensures
        r == as_triple(vsub(as_vect(*v1), as_vect(*v2))),
{
    let r = Vect(v1.0, v1.1, v1.2).sub(&Vect(v2.0, v2.1, v2.2));
    (r.0, r.1, r.2)
}

/// Scalar multiplication.
pub fn scalar_mul(s: &i64, v: &Vect3) -> (r: Vect3)
    requires
        in_range(*s as int),
        as_vect(*v).wf(),
    ensures
        r == as_triple(vscale(as_vect(*v), *s as int)),
{
    let r = Vect(v.0, v.1, v.2).scalar_mul(s);
    (r.0, r.1, r.2)
}

/// Scalar division; no result where `|s| < EPSILON`.
pub fn scalar_div(s: &i64, v: &Vect3) -> (r: Option<Vect3>)
    requires
        in_range(*s as int),
        as_vect(*v).wf(),
    ensures
        r == (match vscalar_div(as_vect(*v), *s as int) {
            None => None,
            Some(u) => Some(as_triple(u)),
        }),
{
    match Vect(v.0, v.1, v.2).scalar_div(s) {
        None => None,
        Some(u) => Some((u.0, u.1, u.2)),
    }
}

/// Dot product.
pub fn dot(v1: &Vect3, v2: &Vect3) -> (r: i64)
    requires
        as_vect(*v1).wf(),
        as_vect(*v2).wf(),
    ensures
        r == vdot(as_vect(*v1), as_vect(*v2)),
{
    Vect(v1.0, v1.1, v1.2).dot(&Vect(v2.0, v2.1, v2.2))
}

/// Cross product.
pub fn cross(v1: &Vect3, v2: &Vect3) -> (r: Vect3)
    requires
        as_vect(*v1).wf(),
        as_vect(*v2).wf(),
    ensures
        r == as_triple(vcross(as_vect(*v1), as_vect(*v2))),
{
    let r = Vect(v1.0, v1.1, v1.2).cross(&Vect(v2.0, v2.1, v2.2));
    (r.0, r.1, r.2)
}

/// Squared norm.
pub fn norm_sq(v: &Vect3) -> (r: i64)
    requires
        as_vect(*v).wf(),
    ensures
        r == vdot(as_vect(*v), as_vect(*v)),
{
    dot(v, v)
}

/// Norm.
pub fn norm(v: &Vect3) -> (r: i64)
    requires
        as_vect(*v).wf(),
    ensures
        r == vnorm(as_vect(*v)),
{
    Vect(v.0, v.1, v.2).norm()
}

/// Unit vector in the direction of `v`; `v` itself where its norm is below `EPSILON`.
pub fn normalise(v: &Vect3) -> (r: Vect3)
    requires
        as_vect(*v).wf(),
    ensures
        r == as_triple(vnormalise(as_vect(*v))),
{
    let r = Vect(v.0, v.1, v.2).normalise();
    (r.0, r.1, r.2)
}

} // verus!
