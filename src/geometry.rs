//! Rays, intersections, materials and the two primitive shapes.
use vstd::prelude::*;
use crate::fixed::{clamp, in_range, mul_spec, div_spec, root, saturate, fmul, fdiv, fsqrt, ONE, LIMIT};
use crate::vect::{
    dot_raw,Vect, zero, vadd, vsub, vscale, vdot, vnormalise};

verus! {

/// A half-line `origin + t * direction`, `t >= 0`.
#[derive(Clone, Copy, PartialEq, Eq, Structural, Debug)]
pub struct Ray(pub Vect, pub Vect);

impl Ray {
    pub open spec fn wf(self) -> bool {
        self.0.wf() && self.1.wf()
    }
}

/// A hit position and the surface normal there. A zero normal means "no hit".
#[derive(Clone, Copy, PartialEq, Eq, Structural, Debug)]
pub struct Intersection {
    pub pos: Vect,
    pub normal: Vect,
}

impl Intersection {
    pub open spec fn wf(self) -> bool {
        self.pos.wf() && self.normal.wf()
    }

    pub open spec fn is_hit(self) -> bool {
        self.normal != Vect(0, 0, 0)
    }
}

/// The scattering law of a surface.
#[derive(Clone, Copy, PartialEq, Eq, Structural, Debug)]
pub enum Material {
    /// Diffuse reflection, weighted by the surface's albedo.
    Lambertian,
    /// Perfect specular reflection.
    Mirror,
}

pub open spec fn miss() -> Intersection {
    Intersection { pos: Vect(0, 0, 0), normal: Vect(0, 0, 0) }
}

/// The point `ray.origin + t * ray.direction`.
pub open spec fn ray_at(ray: Ray, t: int) -> Vect {
    vadd(ray.0, vscale(ray.1, t))
}

/// A hit at `pos` with normal `normal`; a zero normal (degenerate hit) is a miss.
pub open spec fn hit_with(pos: Vect, normal: Vect) -> Intersection {
    if normal == Vect(0, 0, 0) {
        miss()
    } else {
        Intersection { pos, normal }
    }
}

fn miss_exec() -> (r: Intersection)
    ensures
        r == miss(),
        r.wf(),
{
    Intersection { pos: zero(), normal: zero() }
}

/// A sphere with its centre, radius, material and albedo.
#[derive(Clone, Copy, PartialEq, Eq, Structural, Debug)]
pub struct Sphere {
    pub pos: Vect,
    pub radius: i64,
    pub material: Material,
    pub albedo: Vect,
}

impl Sphere {
    pub open spec fn wf(self) -> bool {
        self.pos.wf() && in_range(self.radius as int) && self.albedo.wf()
    }

    /// `p = dir . (origin - centre)`.
    pub open spec fn half_b(self, ray: Ray) -> int {
        vdot(ray.1, vsub(ray.0, self.pos))
    }

    /// The reduced discriminant `p^2 - (|origin - centre|^2 - r^2)`.
    pub open spec fn discr(self, ray: Ray) -> int {
        let oc = vsub(ray.0, self.pos);
        clamp(mul_spec(self.half_b(ray), self.half_b(ray)) - clamp(vdot(oc, oc) - mul_spec(self.radius as int, self.radius as int)))
    }

    /// The ray parameter of the hit: the nearer root in front of the origin,
    /// else the farther one, else none.
    pub open spec fn hit_param(self, ray: Ray) -> Option<int> {
        let p = self.half_b(ray);
        let d = self.discr(ray);
        if d < 0 {
            None
        } else if d == 0 {
            if -p >= 0 { Some(-p) } else { None }
        } else {
            let s = root(d * ONE);
            if clamp(-p - s) >= 0 {
                Some(clamp(-p - s))
            } else if clamp(-p + s) >= 0 {
                Some(clamp(-p + s))
            } else {
                None
            }
        }
    }

    pub open spec fn hit_spec(self, ray: Ray) -> Intersection {
        match self.hit_param(ray) {
            None => miss(),
            Some(t) => hit_with(ray_at(ray, t), vnormalise(vsub(ray_at(ray, t), self.pos))),
        }
    }

    fn hit_at(&self, ray: &Ray, t: i64) -> (r: Intersection)
        requires
            self.wf(),
            ray.wf(),
            in_range(t as int),
        ensures
            r == hit_with(ray_at(*ray, t as int), vnormalise(vsub(ray_at(*ray, t as int), self.pos))),
            r.wf(),
    {
        let pos = ray.0.add(&ray.1.scalar_mul(&t));
        let normal = pos.sub(&self.pos).normalise();
        if normal == zero() {
            miss_exec()
        } else {
            Intersection { pos, normal }
        }
    }

    /// Intersects `ray` with the sphere.
    pub fn intersect(&self, ray: &Ray) -> (r: Intersection)
        requires
            self.wf(),
            ray.wf(),
        ensures
            r == self.hit_spec(*ray),
            r.wf(),
    {
        let oc = ray.0.sub(&self.pos);
        let p = ray.1.dot(&oc);
        let rr = fmul(self.radius, self.radius);
        let c = saturate(oc.norm_sq() as i128 - rr as i128);
        let discr = saturate(fmul(p, p) as i128 - c as i128);
        if discr < 0 {
            return miss_exec();
        }
        if discr == 0 {
            let sol = -p;
            if sol >= 0 {
                return self.hit_at(ray, sol);
            }
            return miss_exec();
        }
        let s = fsqrt(discr);
        proof {
            crate::fixed::lemma_root_unique(s as int, discr * ONE);
        }
        let sol1 = saturate(-(p as i128) - s as i128);
        let sol2 = saturate(-(p as i128) + s as i128);
        if sol1 >= 0 {
            return self.hit_at(ray, sol1);
        }
        if sol2 >= 0 {
            return self.hit_at(ray, sol2);
        }
        miss_exec()
    }

    /// The surface colour at `point` (uniform over the sphere).
    pub fn get_albedo(&self, _point: &Vect) -> (r: Vect)
        ensures
            r == self.albedo,
    {
        self.albedo
    }

    pub fn get_material(&self) -> (r: Material)
        ensures
            r == self.material,
    {
        self.material
    }
}

/// A two-sided plane through `point` with unit `normal`.
#[derive(Clone, Copy, PartialEq, Eq, Structural, Debug)]
pub struct Plane {
    pub point: Vect,
    pub normal: Vect,
    pub albedo: Vect,
    pub material: Material,
}

impl Plane {
    pub open spec fn wf(self) -> bool {
        self.point.wf() && self.normal.wf() && self.albedo.wf()
    }

    /// `t = -((origin - point) . normal) / (dir . normal)`, where `dir . normal != 0`.
    pub open spec fn hit_param(self, ray: Ray) -> int {
        div_spec(-vdot(vsub(ray.0, self.point), self.normal), vdot(ray.1, self.normal))
    }

    /// The normal facing the incoming ray.
    pub open spec fn facing_normal(self, ray: Ray) -> Vect {
        if vdot(ray.1, self.normal) < 0 {
            self.normal
        } else {
            vscale(self.normal, -ONE)
        }
    }

    pub open spec fn hit_spec(self, ray: Ray) -> Intersection {
        if vdot(ray.1, self.normal) == 0 {
            miss()
        } else if self.hit_param(ray) < 0 {
            miss()
        } else {
            hit_with(ray_at(ray, self.hit_param(ray)), self.facing_normal(ray))
        }
    }

    /// Intersects `ray` with the plane; a ray parallel to it never hits.
    pub fn intersect(&self, ray: &Ray) -> (r: Intersection)
        requires
            self.wf(),
            ray.wf(),
        ensures
            r == self.hit_spec(*ray),
            r.wf(),
    {
        let dn = ray.1.dot(&self.normal);
        if dn == 0 {
            return miss_exec();
        }
        let t = fdiv(-ray.0.sub(&self.point).dot(&self.normal), dn);
        if t < 0 {
            return miss_exec();
        }
        let pos = ray.0.add(&ray.1.scalar_mul(&t));
        let normal = if dn < 0 {
            self.normal
        } else {
            self.normal.scalar_mul(&-ONE)
        };
        if normal == zero() {
            miss_exec()
        } else {
            Intersection { pos, normal }
        }
    }

    /// The surface colour at `point` (uniform over the plane).
    pub fn get_albedo(&self, _point: &Vect) -> (r: Vect)
        ensures
            r == self.albedo,
    {
        self.albedo
    }

    pub fn get_material(&self) -> (r: Material)
        ensures
            r == self.material,
    {
        self.material
    }
}

/// A ray aimed away from a sphere whose origin lies outside it never hits.
pub proof fn lemma_sphere_aimed_away_misses(s: Sphere, ray: Ray)
    requires
        s.wf(),
        ray.wf(),
        s.half_b(ray) >= 0,
        clamp(vdot(vsub(ray.0, s.pos), vsub(ray.0, s.pos)) - mul_spec(s.radius as int, s.radius as int)) > 0,
    ensures
        s.hit_param(ray) is None,
        s.hit_spec(ray) == miss(),
{
    let p = s.half_b(ray);
    let d = s.discr(ray);
    let oc = vsub(ray.0, s.pos);
    let c = clamp(vdot(oc, oc) - mul_spec(s.radius as int, s.radius as int));
    assert(d == clamp(mul_spec(p, p) - c));
    vstd::arithmetic::div_mod::lemma_fundamental_div_mod(p * p, ONE as int);
    vstd::arithmetic::div_mod::lemma_mod_pos_bound(p * p, ONE as int);
    assert(p * p >= 0) by (nonlinear_arith);
    assert(mul_spec(p, p) <= (p * p) / (ONE as int));
    assert(d <= mul_spec(p, p) - 1);
    if p == 0 {
        assert(p * p == 0) by (nonlinear_arith)
            requires
                p == 0,
        ;
        assert(mul_spec(p, p) == 0);
        assert(d < 0);
    }
    if d > 0 {
        let r = root(d * ONE);
        crate::fixed::lemma_root(d * ONE);
        assert(d * ONE <= ((p * p) / (ONE as int)) * ONE - ONE) by (nonlinear_arith)
            requires
                d <= (p * p) / (ONE as int) - 1,
        ;
        assert(d * ONE < p * p);
        assert(r < p) by (nonlinear_arith)
            requires
                0 <= r,
                r * r <= d * ONE,
                d * ONE < p * p,
                p >= 0,
        ;
    }
}

/// A ray along the x axis aimed at the centre of a sphere that lies a whole
/// number `k` of units ahead, with a whole radius `m < k`, hits it
/// `k - m` units ahead: the distance to the centre less the radius.
pub proof fn lemma_sphere_head_on(s: Sphere, ray: Ray, k: int, m: int)
    requires
        s.wf(),
        ray.wf(),
        ray.1 == Vect(ONE, 0, 0),
        s.pos == Vect((ray.0.0 + k * ONE) as i64, ray.0.1, ray.0.2),
        s.radius == m * ONE,
        0 < m < k <= 4096,
    ensures
        s.hit_param(ray) == Some((k - m) * ONE),
{
    let kk = k * ONE;
    let mm = m * ONE;
    assert(0 < mm < kk <= 4096 * ONE) by (nonlinear_arith)
        requires
            kk == k * ONE,
            mm == m * ONE,
            0 < m < k <= 4096,
    ;
    let oc = vsub(ray.0, s.pos);
    assert(oc == Vect((-kk) as i64, 0, 0));
    crate::vect::lemma_scale_whole(1, -k);
    assert(s.half_b(ray) == -kk);
    assert(dot_raw(oc, oc) == kk * kk) by (nonlinear_arith)
        requires
            oc.0 == -kk,
            oc.1 == 0,
            oc.2 == 0,
    ;
    crate::vect::lemma_scale_whole(k, k);
    assert(kk * kk == k * (k * ONE) * ONE) by (nonlinear_arith)
        requires
            kk == k * ONE,
    ;
    assert((kk * kk) / (ONE as int) == k * (k * ONE));
    assert(k * (k * ONE) <= LIMIT) by (nonlinear_arith)
        requires
            0 < k <= 4096,
    ;
    assert(vdot(oc, oc) == k * (k * ONE));
    crate::vect::lemma_scale_whole(m, m);
    assert(mm * mm == m * (m * ONE) * ONE) by (nonlinear_arith)
        requires
            mm == m * ONE,
    ;
    assert(m * (m * ONE) <= LIMIT) by (nonlinear_arith)
        requires
            0 < m <= 4096,
    ;
    assert(mul_spec(s.radius as int, s.radius as int) == m * (m * ONE));
    assert(mul_spec(-kk, -kk) == k * (k * ONE)) by {
        assert((-kk) * (-kk) == kk * kk) by (nonlinear_arith);
    }
    let d = s.discr(ray);
    assert(d == m * (m * ONE));
    assert(d * ONE == mm * mm) by (nonlinear_arith)
        requires
            d == m * (m * ONE),
            mm == m * ONE,
    ;
    assert(mm * mm <= mm * mm < (mm + 1) * (mm + 1)) by (nonlinear_arith)
        requires
            mm > 0,
    ;
    crate::fixed::lemma_root_unique(mm, d * ONE);
    assert(kk - mm == (k - m) * ONE) by (nonlinear_arith)
        requires
            kk == k * ONE,
            mm == m * ONE,
    ;
}

/// A ray parallel to a plane never hits it, even when it lies in the plane.
pub proof fn lemma_plane_parallel_misses(pl: Plane, ray: Ray)
    requires
        vdot(ray.1, pl.normal) == 0,
    ensures
        pl.hit_spec(ray) == miss(),
{
}

/// A hit on a plane carries the stored normal when the ray comes from the
/// front, and its negation when it comes from the back.
pub proof fn lemma_plane_normal_faces_ray(pl: Plane, ray: Ray)
    requires
        pl.wf(),
        pl.hit_spec(ray).is_hit(),
    ensures
        vdot(ray.1, pl.normal) < 0 ==> pl.hit_spec(ray).normal == pl.normal,
        vdot(ray.1, pl.normal) > 0 ==> pl.hit_spec(ray).normal == Vect(
            (-pl.normal.0) as i64,
            (-pl.normal.1) as i64,
            (-pl.normal.2) as i64,
        ),
{
    crate::vect::lemma_scale_whole(pl.normal.0 as int, -1);
    crate::vect::lemma_scale_whole(pl.normal.1 as int, -1);
    crate::vect::lemma_scale_whole(pl.normal.2 as int, -1);
}

/// A primitive of the scene.
#[derive(Clone, Copy, PartialEq, Eq, Structural, Debug)]
pub enum Geometry {
    Sphere(Sphere),
    Plane(Plane),
}

impl Geometry {
    pub open spec fn wf(self) -> bool {
        match self {
            Geometry::Sphere(s) => s.wf(),
            Geometry::Plane(p) => p.wf(),
        }
    }

    pub open spec fn hit_spec(self, ray: Ray) -> Intersection {
        match self {
            Geometry::Sphere(s) => s.hit_spec(ray),
            Geometry::Plane(p) => p.hit_spec(ray),
        }
    }

    pub open spec fn material_spec(self) -> Material {
        match self {
            Geometry::Sphere(s) => s.material,
            Geometry::Plane(p) => p.material,
        }
    }

    pub open spec fn albedo_spec(self) -> Vect {
        match self {
            Geometry::Sphere(s) => s.albedo,
            Geometry::Plane(p) => p.albedo,
        }
    }

    pub fn intersect(&self, ray: &Ray) -> (r: Intersection)
        requires
            self.wf(),
            ray.wf(),
        ensures
            r == self.hit_spec(*ray),
            r.wf(),
    {
        match self {
            Geometry::Sphere(s) => s.intersect(ray),
            Geometry::Plane(p) => p.intersect(ray),
        }
    }

    pub fn get_material(&self) -> (r: Material)
        ensures
            r == self.material_spec(),
    {
        match self {
            Geometry::Sphere(s) => s.get_material(),
            Geometry::Plane(p) => p.get_material(),
        }
    }

    pub fn get_albedo(&self, point: &Vect) -> (r: Vect)
        ensures
            r == self.albedo_spec(),
    {
        match self {
            Geometry::Sphere(s) => s.get_albedo(point),
            Geometry::Plane(p) => p.get_albedo(point),
        }
    }
}

} // verus!
