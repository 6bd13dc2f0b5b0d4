//! Point lights with hard shadows, and the scene that holds the primitives
//! and lights.
use vstd::prelude::*;
use crate::fixed::{clamp, in_range, saturate, div_floor, ONE, LIMIT, EPSILON};
use crate::vect::{Vect, zero, dot_raw, vadd, vsub, vscale, vdiv, vdot, vnorm, near_zero};
use crate::geometry::{Geometry, Intersection, Ray};

verus! {

/// `4 * pi^2` as a fixed-point value.
pub const FOUR_PI_SQ: i64 = 2587258;

/// An ordered list of primitives and an ordered list of lights, read-only
/// while rendering.
pub struct Scene(pub Vec<Geometry>, pub Vec<Light>);

impl Scene {
    pub open spec fn wf(&self) -> bool {
        &&& forall|j: int| 0 <= j < self.0@.len() ==> (#[trigger] self.0@[j]).wf()
        &&& forall|j: int| 0 <= j < self.1@.len() ==> (#[trigger] self.1@[j]).wf()
    }
}

/// A light at a point, radiating `intensity` in every direction.
#[derive(Clone, Copy, PartialEq, Eq, Structural, Debug)]
pub struct Pointlight {
    pub pos: Vect,
    pub intensity: i64,
}

/// A light source of the scene.
#[derive(Clone, Copy, PartialEq, Eq, Structural, Debug)]
pub enum Light {
    Point(Pointlight),
}

/// `g` reports a hit on `ray` closer to `from` than `d`.
pub open spec fn blocks(g: Geometry, ray: Ray, from: Vect, d: int) -> bool {
    g.hit_spec(ray).is_hit() && vnorm(vsub(g.hit_spec(ray).pos, from)) < d
}

/// Some primitive lies on `ray` within distance `d` of `from`.
pub open spec fn occluded(geos: Seq<Geometry>, ray: Ray, from: Vect, d: int) -> bool {
    exists|j: int| 0 <= j < geos.len() && blocks(#[trigger] geos[j], ray, from, d)
}

/// The shading point moved off the surface along its normal.
pub open spec fn shifted(ip: Intersection) -> Vect {
    vadd(ip.pos, vscale(ip.normal, EPSILON as int))
}

impl Pointlight {
    pub open spec fn wf(self) -> bool {
        self.pos.wf() && in_range(self.intensity as int)
    }

    /// The unobstructed light reaching `ip`: `intensity * cos / (4 pi^2 d^2)`,
    /// zero where that is negative (the light is behind the surface).
    pub open spec fn falloff(self, ip: Intersection) -> int {
        let dv = vsub(self.pos, ip.pos);
        let cos = vdot(ip.normal, vdiv(dv, vnorm(dv)));
        let v = clamp((self.intensity * cos * (ONE * ONE)) / (FOUR_PI_SQ * dot_raw(dv, dv)));
        if cos <= 0 || v < 0 {
            0
        } else {
            v
        }
    }

    /// The light reaching `ip` among `geos`: zero where the light sits on the
    /// point or a primitive stands between them.
    pub open spec fn contribution(self, ip: Intersection, geos: Seq<Geometry>) -> int {
        let dv = vsub(self.pos, ip.pos);
        let d = vnorm(dv);
        if near_zero(d) {
            0
        } else if occluded(geos, Ray(shifted(ip), vdiv(dv, d)), shifted(ip), d) {
            0
        } else {
            self.falloff(ip)
        }
    }

    pub fn get_contribution(&self, intersection: &Intersection, scene: &Scene) -> (r: i64)
        requires
            self.wf(),
            intersection.wf(),
            scene.wf(),
        ensures
            r == self.contribution(*intersection, scene.0@),
            0 <= r <= LIMIT,
    {
        let d_vec = self.pos.sub(&intersection.pos);
        let d = d_vec.norm();
        let dir = match d_vec.scalar_div(&d) {
            None => return 0,
            Some(u) => u,
        };
        let from = intersection.pos.add(&intersection.normal.scalar_mul(&EPSILON));
        let shadow_ray = Ray(from, dir);
        let geos = &scene.0;
        let mut i: usize = 0;
        while i < geos.len()
            invariant
                scene.wf(),
                geos == &scene.0,
                shadow_ray.wf(),
                shadow_ray == Ray(from, dir),
                from.wf(),
                from == shifted(*intersection),
                d_vec == vsub(self.pos, intersection.pos),
                d_vec.wf(),
                d == vnorm(d_vec),
                !near_zero(d as int),
                dir == vdiv(d_vec, d as int),
                forall|k: int| 0 <= k < i ==> !blocks(#[trigger] geos@[k], shadow_ray, from, d as int),
            decreases geos.len() - i,
        {
            let hit = geos[i].intersect(&shadow_ray);
            if hit.normal != zero() {
                if hit.pos.sub(&from).norm() < d {
                    assert(blocks(geos@[i as int], shadow_ray, from, d as int));
                    assert(occluded(scene.0@, shadow_ray, from, d as int));
                    assert(self.contribution(*intersection, scene.0@) == 0);
                    return 0;
                }
            }
            i = i + 1;
        }
        let cos = intersection.normal.dot(&dir);
        if cos <= 0 {
            return 0;
        }
        let dsq = crate::vect::dot_wide(&d_vec, &d_vec);
        proof {
            crate::fixed::lemma_root(dsq as int);
            crate::fixed::lemma_mul_bound(self.intensity as int, cos as int, LIMIT as int, LIMIT as int);
            assert(dsq >= 4096) by (nonlinear_arith)
                requires
                    crate::fixed::root(dsq as int) * crate::fixed::root(dsq as int) <= dsq,
                    crate::fixed::root(dsq as int) >= 64 || d == LIMIT,
                    d as int == clamp(crate::fixed::root(dsq as int)),
            ;
        }
        proof {
            let ic = self.intensity * cos;
            crate::fixed::lemma_mul_bound(ic, (ONE * ONE) as int, LIMIT * LIMIT, (ONE * ONE) as int);
            crate::fixed::lemma_mul_bound(FOUR_PI_SQ as int, dsq as int, FOUR_PI_SQ as int, 3 * (LIMIT * LIMIT));
        }
        let num: i128 = (self.intensity as i128) * (cos as i128) * ((ONE as i128) * (ONE as i128));
        let den: i128 = (FOUR_PI_SQ as i128) * dsq;
        let q = div_floor(num, den);
        let r = saturate(q);
        if r < 0 { 0 } else { r }
    }
}

/// A point light with a primitive standing between it and the shading
/// point contributes exactly nothing.
pub proof fn lemma_occluded_light_is_dark(l: Pointlight, ip: Intersection, geos: Seq<Geometry>)
    requires
        occluded(
            geos,
            Ray(shifted(ip), vdiv(vsub(l.pos, ip.pos), vnorm(vsub(l.pos, ip.pos)))),
            shifted(ip),
            vnorm(vsub(l.pos, ip.pos)),
        ),
    ensures
        l.contribution(ip, geos) == 0,
{
}

/// With no primitive in the scene nothing occludes: a light away from the
/// point contributes its unobstructed falloff.
pub proof fn lemma_unoccluded_light(l: Pointlight, ip: Intersection)
    requires
        !near_zero(vnorm(vsub(l.pos, ip.pos))),
    ensures
        l.contribution(ip, Seq::<Geometry>::empty()) == l.falloff(ip),
{
}

impl Light {
    pub open spec fn wf(self) -> bool {
        match self {
            Light::Point(p) => p.wf(),
        }
    }

    pub open spec fn contribution(self, ip: Intersection, geos: Seq<Geometry>) -> int {
        match self {
            Light::Point(p) => p.contribution(ip, geos),
        }
    }

    pub fn get_contribution(&self, intersection: &Intersection, scene: &Scene) -> (r: i64)
        requires
            self.wf(),
            intersection.wf(),
            scene.wf(),
        ensures
            r == self.contribution(*intersection, scene.0@),
            0 <= r <= LIMIT,
    {
        match self {
            Light::Point(p) => p.get_contribution(intersection, scene),
        }
    }
}

} // verus!
