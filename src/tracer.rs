//! The recursive radiance estimator: nearest-hit search, direct light,
//! cosine-weighted diffuse bounces and mirror reflection.
use vstd::prelude::*;
use crate::fixed::{clamp, root, saturate, isqrt, ONE, LIMIT, EPSILON};
use crate::vect::{Vect, zero, vadd, vsub, vscale, vdot, vpointwise, vnormalise, vcross};
use crate::geometry::{Geometry, Intersection, Material, Ray};
use crate::scene::{Light, Scene};

verus! {

/// Total incident light at or below which a diffuse hit is not followed further (0.1).
pub const LIGHT_THRESHOLD: i64 = 6553;

/// Draws of a disk point made before falling back to the normal direction.
pub const SAMPLE_TRIES: u32 = 16;

/// The colour of a ray that leaves the scene: `(50, 0, 0)`.
pub open spec fn background() -> Vect {
    Vect(3276800, 0, 0)
}

/// The colour of a diffuse hit that receives too little light: `(255, 0, 250)`.
pub open spec fn unlit() -> Vect {
    Vect(16711680, 0, 16384000)
}

/// Squared distance from the ray's origin to a hit.
pub open spec fn sq_dist(ray: Ray, hit: Intersection) -> int {
    vdot(vsub(ray.0, hit.pos), vsub(ray.0, hit.pos))
}

/// Index of the nearest primitive hit among the first `n` of `geos`; the
/// first one wins among equally near ones.
pub open spec fn nearest(geos: Seq<Geometry>, ray: Ray, n: int) -> Option<int>
    decreases n,
{
    if n <= 0 {
        None
    } else {
        let prev = nearest(geos, ray, n - 1);
        let h = geos[n - 1].hit_spec(ray);
        if h.is_hit() && (prev is None || sq_dist(ray, h) < sq_dist(ray, geos[prev->0].hit_spec(ray))) {
            Some(n - 1)
        } else {
            prev
        }
    }
}

/// Saturated sum of the first `n` lights' contributions at `ip`.
pub open spec fn total_light(lights: Seq<Light>, ip: Intersection, geos: Seq<Geometry>, n: int) -> int
    decreases n,
{
    if n <= 0 {
        0
    } else {
        clamp(total_light(lights, ip, geos, n - 1) + lights[n - 1].contribution(ip, geos))
    }
}

/// The hit moved off the surface along its normal.
pub open spec fn offset(hit: Intersection) -> Intersection {
    Intersection { pos: vadd(hit.pos, vscale(hit.normal, EPSILON as int)), normal: hit.normal }
}

/// Reflection of `ray`'s direction about the hyperplane through `h.0` with normal `h.1`.
pub open spec fn reflect_spec(ray: Ray, h: Ray) -> Ray {
    Ray(h.0, vadd(ray.1, vscale(h.1, clamp(-2 * vdot(ray.1, h.1)))))
}

/// Direct light plus the albedo-weighted indirect estimate.
pub open spec fn lambertian_spec(albedo: Vect, light: int, indirect: Vect) -> Vect {
    vadd(vscale(albedo, light), vpointwise(albedo, indirect))
}

/// What tracing `ray` through `depth` bounces may yield: black at depth
/// zero; otherwise the background on a miss; on a diffuse hit the unlit
/// colour where too little light arrives, else direct light plus the
/// albedo-weighted result of tracing some cosine-weighted bounce; on a
/// mirror hit, the result of tracing the reflected ray.
pub open spec fn traced(ray: Ray, geos: Seq<Geometry>, lights: Seq<Light>, depth: nat, r: Vect) -> bool
    decreases depth,
{
    if depth == 0 {
        r == Vect(0, 0, 0)
    } else {
        match nearest(geos, ray, geos.len() as int) {
            None => r == background(),
            Some(j) => {
                let g = geos[j];
                let ip = offset(g.hit_spec(ray));
                match g.material_spec() {
                    Material::Lambertian => {
                        let light = total_light(lights, ip, geos, lights.len() as int);
                        if light <= LIGHT_THRESHOLD {
                            r == unlit()
                        } else {
                            exists|indirect: Vect, x: int, y: int|
                                #![trigger lambertian_spec(g.albedo_spec(), light, indirect), scatter_spec(ip.normal, x, y)]
                                in_disk(x, y) && indirect.wf()
                                && traced(Ray(ip.pos, scatter_spec(ip.normal, x, y)), geos, lights, (depth - 1) as nat, indirect)
                                && r == lambertian_spec(g.albedo_spec(), light, indirect)
                        }
                    },
                    Material::Mirror => traced(reflect_spec(ray, Ray(ip.pos, ip.normal)), geos, lights, (depth - 1) as nat, r),
                }
            },
        }
    }
}

/// The point `(u, v)` (in `[-ONE, ONE)^2`) lies strictly inside the unit disk.
pub open spec fn in_disk(u: int, v: int) -> bool {
    -ONE <= u < ONE && -ONE <= v < ONE && u * u + v * v < ONE * ONE
}

/// A unit tangent to `n`, built against the axis on which `n` is smallest.
pub open spec fn tangent_spec(n: Vect) -> Vect {
    let (ax, ay, az) = (
        if n.0 < 0 { -n.0 } else { n.0 as int },
        if n.1 < 0 { -n.1 } else { n.1 as int },
        if n.2 < 0 { -n.2 } else { n.2 as int },
    );
    if ax <= ay && ax <= az {
        vnormalise(Vect(0, (-n.2) as i64, n.1))
    } else if ay <= ax && ay <= az {
        vnormalise(Vect((-n.2) as i64, 0, n.0))
    } else {
        vnormalise(Vect((-n.1) as i64, n.0, 0))
    }
}

/// The world direction `x * t1 + y * t2 + z * normal` for the disk point
/// `(x, y)` lifted to the hemisphere, `z = sqrt(1 - x^2 - y^2)`, in the
/// frame `(t1, t2 = t1 x normal, normal)`.
pub open spec fn scatter_spec(normal: Vect, x: int, y: int) -> Vect {
    let z = root(ONE * ONE - x * x - y * y);
    let t1 = tangent_spec(normal);
    let t2 = vcross(t1, normal);
    vadd(vadd(vscale(t1, x), vscale(t2, y)), vscale(normal, z))
}

proof fn lemma_reflect_axis_once(d: Vect, h: Ray)
    requires
        d.wf(),
        h.1 == Vect(ONE, 0, 0) || h.1 == Vect(0, ONE, 0) || h.1 == Vect(0, 0, ONE),
        -LIMIT / 2 <= d.0 <= LIMIT / 2,
        -LIMIT / 2 <= d.1 <= LIMIT / 2,
        -LIMIT / 2 <= d.2 <= LIMIT / 2,
    ensures
        h.1 == Vect(ONE, 0, 0) ==> reflect_spec(Ray(h.0, d), h).1 == Vect((-d.0) as i64, d.1, d.2),
        h.1 == Vect(0, ONE, 0) ==> reflect_spec(Ray(h.0, d), h).1 == Vect(d.0, (-d.1) as i64, d.2),
        h.1 == Vect(0, 0, ONE) ==> reflect_spec(Ray(h.0, d), h).1 == Vect(d.0, d.1, (-d.2) as i64),
{
    crate::vect::lemma_scale_whole(d.0 as int, 1);
    crate::vect::lemma_scale_whole(d.1 as int, 1);
    crate::vect::lemma_scale_whole(d.2 as int, 1);
    crate::vect::lemma_scale_whole(1, -2 * d.0);
    crate::vect::lemma_scale_whole(1, -2 * d.1);
    crate::vect::lemma_scale_whole(1, -2 * d.2);
    crate::vect::lemma_scale_whole(1, 1);
}

/// Reflecting a direction twice about a hyperplane whose normal is a
/// coordinate axis gives the direction back, where no value saturates.
pub proof fn lemma_reflect_axis_involution(ray: Ray, h: Ray)
    requires
        ray.wf(),
        h.1 == Vect(ONE, 0, 0) || h.1 == Vect(0, ONE, 0) || h.1 == Vect(0, 0, ONE),
        -LIMIT / 2 <= ray.1.0 <= LIMIT / 2,
        -LIMIT / 2 <= ray.1.1 <= LIMIT / 2,
        -LIMIT / 2 <= ray.1.2 <= LIMIT / 2,
    ensures
        reflect_spec(reflect_spec(ray, h), h).1 == ray.1,
{
    let d = ray.1;
    lemma_reflect_axis_once(d, h);
    assert(reflect_spec(ray, h).1 == reflect_spec(Ray(h.0, d), h).1);
    let e = reflect_spec(ray, h).1;
    lemma_reflect_axis_once(e, h);
    assert(reflect_spec(reflect_spec(ray, h), h).1 == reflect_spec(Ray(h.0, e), h).1);
}

/// Relies on rand::random: a value drawn from the thread-local generator.
#[verifier::external_body]
fn random_u32() -> (r: u32) {
    rand::random::<u32>()
}

/// Maps two uniform draws to a point of `[-ONE, ONE)^2`, kept only inside the unit disk.
pub fn disk_point(a: u32, b: u32) -> (r: Option<(i64, i64)>)
    ensures
        r == (if in_disk((a / 0x8000) as int - ONE, (b / 0x8000) as int - ONE) {
            Some((((a / 0x8000) as int - ONE) as i64, ((b / 0x8000) as int - ONE) as i64))
        } else {
            None
        }),
{
    let u: i64 = (a / 0x8000) as i64 - ONE;
    let v: i64 = (b / 0x8000) as i64 - ONE;
    proof {
        crate::fixed::lemma_mul_bound(u as int, u as int, ONE as int, ONE as int);
        crate::fixed::lemma_mul_bound(v as int, v as int, ONE as int, ONE as int);
    }
    if u * u + v * v < ONE * ONE {
        Some((u, v))
    } else {
        None
    }
}

/// A unit tangent to `n`.
pub fn tangent(n: &Vect) -> (r: Vect)
    requires
        n.wf(),
    ensures
        r == tangent_spec(*n),
        r.wf(),
{
    let ax = if n.0 < 0 { -n.0 } else { n.0 };
    let ay = if n.1 < 0 { -n.1 } else { n.1 };
    let az = if n.2 < 0 { -n.2 } else { n.2 };
    if ax <= ay && ax <= az {
        Vect(0, -n.2, n.1).normalise()
    } else if ay <= ax && ay <= az {
        Vect(-n.2, 0, n.0).normalise()
    } else {
        Vect(-n.1, n.0, 0).normalise()
    }
}

/// A direction over the hemisphere around `normal` for the disk point `(x, y)`.
pub fn scatter(normal: &Vect, x: i64, y: i64) -> (r: Vect)
    requires
        normal.wf(),
        in_disk(x as int, y as int),
    ensures
        r == scatter_spec(*normal, x as int, y as int),
        r.wf(),
{
    proof {
        crate::fixed::lemma_mul_bound(x as int, x as int, ONE as int, ONE as int);
        crate::fixed::lemma_mul_bound(y as int, y as int, ONE as int, ONE as int);
        assert(x * x + y * y >= 0) by (nonlinear_arith);
    }
    let zz = isqrt((ONE * ONE - x * x - y * y) as u128);
    let z = zz as i64;
    proof {
        assert(zz <= ONE) by (nonlinear_arith)
            requires
                zz * zz <= ONE * ONE - x * x - y * y,
                0 <= zz,
                x * x + y * y >= 0,
        ;
    }
    let t1 = tangent(normal);
    let t2 = t1.cross(normal);
    t1.scalar_mul(&x).add(&t2.scalar_mul(&y)).add(&normal.scalar_mul(&z))
}

/// A cosine-weighted random direction over the hemisphere around `normal`:
/// a uniform point of the unit disk lifted to the hemisphere. After
/// `SAMPLE_TRIES` draws outside the disk the normal direction is taken.
pub fn random_scatter(normal: &Vect) -> (r: Vect)
    requires
        normal.wf(),
    ensures
        exists|x: int, y: int| in_disk(x, y) && r == scatter_spec(*normal, x, y),
        r.wf(),
{
    let mut tries: u32 = 0;
    while tries < SAMPLE_TRIES
        invariant
            normal.wf(),
        decreases SAMPLE_TRIES - tries,
    {
        let a = random_u32();
        let b = random_u32();
        match disk_point(a, b) {
            Some((x, y)) => {
                return scatter(normal, x, y);
            },
            None => {},
        }
        tries = tries + 1;
    }
    let r = scatter(normal, 0, 0);
    proof {
        assert(in_disk(0, 0) && r == scatter_spec(*normal, 0, 0));
    }
    r
}

impl Ray {
    pub open spec fn closest_spec(self, geos: Seq<Geometry>) -> Option<int> {
        nearest(geos, self, geos.len() as int)
    }

    /// Reflects the ray about the hyperplane through `hyperplane.0` whose
    /// normal is `hyperplane.1`: `(p, d - 2 (d . n) n)`.
    pub fn reflect(&self, hyperplane: &Ray) -> (r: Ray)
        requires
            self.wf(),
            hyperplane.wf(),
        ensures
            r == reflect_spec(*self, *hyperplane),
            r.wf(),
    {
        let l = saturate(-2 * (self.1.dot(&hyperplane.1) as i128));
        Ray(hyperplane.0, self.1.add(&hyperplane.1.scalar_mul(&l)))
    }

    /// The nearest primitive the ray hits, with its index.
    pub fn closest(&self, scene: &Scene) -> (r: Option<(usize, Intersection)>)
        requires
            self.wf(),
            scene.wf(),
        ensures
            match r {
                None => self.closest_spec(scene.0@) is None,
                Some((j, hit)) => self.closest_spec(scene.0@) == Some(j as int) && j < scene.0@.len()
                    && hit == scene.0@[j as int].hit_spec(*self) && hit.wf() && hit.is_hit(),
            },
    {
        let geos = &scene.0;
        let mut best: Option<(usize, Intersection)> = None;
        let mut best_dsq: i64 = 0;
        let mut i: usize = 0;
        while i < geos.len()
            invariant
                self.wf(),
                scene.wf(),
                geos == &scene.0,
                i <= geos.len(),
                match best {
                    None => nearest(geos@, *self, i as int) is None,
                    Some((j, hit)) => nearest(geos@, *self, i as int) == Some(j as int) && j < i
                        && hit == geos@[j as int].hit_spec(*self) && hit.wf() && hit.is_hit()
                        && best_dsq == sq_dist(*self, hit),
                },
            decreases geos.len() - i,
        {
            let hit = geos[i].intersect(self);
            if hit.normal != zero() {
                let d = self.0.sub(&hit.pos);
                let dsq = d.norm_sq();
                let closer = match best {
                    None => true,
                    Some(_) => dsq < best_dsq,
                };
                if closer {
                    best = Some((i, hit));
                    best_dsq = dsq;
                }
            }
            i = i + 1;
        }
        best
    }

    /// Sum of all lights' contributions at `ip`, saturated.
    pub fn light_at(scene: &Scene, ip: &Intersection) -> (r: i64)
        requires
            scene.wf(),
            ip.wf(),
        ensures
            r == total_light(scene.1@, *ip, scene.0@, scene.1@.len() as int),
            0 <= r <= LIMIT,
    {
        let lights = &scene.1;
        let mut tot: i64 = 0;
        let mut i: usize = 0;
        while i < lights.len()
            invariant
                scene.wf(),
                ip.wf(),
                lights == &scene.1,
                i <= lights.len(),
                tot == total_light(lights@, *ip, scene.0@, i as int),
                0 <= tot <= LIMIT,
            decreases lights.len() - i,
        {
            let c = lights[i].get_contribution(ip, scene);
            tot = saturate(tot as i128 + c as i128);
            i = i + 1;
        }
        tot
    }

    /// Radiance carried back along the ray, following at most `depth` bounces.
    pub fn colour(&self, scene: &Scene, depth: u8) -> (r: Vect)
        requires
            self.wf(),
            scene.wf(),
        ensures
            r.wf(),
            depth == 0 ==> r == Vect(0, 0, 0),
            traced(*self, scene.0@, scene.1@, depth as nat, r),
        decreases depth,
    {
        if depth == 0 {
            return zero();
        }
        let (j, hit) = match self.closest(scene) {
            None => return Vect(50 * ONE, 0, 0),
            Some(found) => found,
        };
        let ip = Intersection { pos: hit.pos.add(&hit.normal.scalar_mul(&EPSILON)), normal: hit.normal };
        let geo = &scene.0[j];
        match geo.get_material() {
            Material::Lambertian => {
                let albedo = geo.get_albedo(&hit.pos);
                let light = Ray::light_at(scene, &ip);
                if light <= LIGHT_THRESHOLD {
                    return Vect(255 * ONE, 0, 250 * ONE);
                }
                let direct = albedo.scalar_mul(&light);
                let dir = random_scatter(&ip.normal);
                let indirect = Ray(ip.pos, dir).colour(scene, depth - 1);
                let r = direct.add(&albedo.pointwise_mul(&indirect));
                proof {
                    let (x, y) = choose|x: int, y: int| in_disk(x, y) && dir == scatter_spec(ip.normal, x, y);
                    assert(in_disk(x, y) && indirect.wf()
                        && traced(Ray(ip.pos, scatter_spec(ip.normal, x, y)), scene.0@, scene.1@, (depth - 1) as nat, indirect)
                        && r == lambertian_spec(albedo, light as int, indirect));
                }
                r
            },
            Material::Mirror => {
                self.reflect(&Ray(ip.pos, ip.normal)).colour(scene, depth - 1)
            },
        }
    }
}

} // verus!
