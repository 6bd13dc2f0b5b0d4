use raytracer::fixed::ONE;
use raytracer::geometry::{Geometry, Material, Plane, Ray, Sphere};
use raytracer::vect::{zero, Vect};

fn v(x: i64, y: i64, z: i64) -> Vect {
    Vect::units(x, y, z)
}

fn sphere_at(x: i64, y: i64, z: i64, radius: i64) -> Sphere {
    Sphere {
        pos: v(x, y, z),
        radius: radius * ONE,
        material: Material::Lambertian,
        albedo: v(0, 0, 0),
    }
}

#[test]
fn sphere_intersection_test() {
    let r1 = Ray(zero(), Vect::units(1, 0, 0));
    let r2 = Ray(zero(), Vect::units(0, 1, 0));
    let s = sphere_at(10, 0, 0, 5);
    assert_ne!(s.intersect(&r1).normal, zero());
    assert_eq!(s.intersect(&r2).normal, zero());
}

#[test]
fn sphere_hit_aimed_at_centre_is_distance_minus_radius() {
    let s = sphere_at(10, 0, 0, 5);
    let hit = s.intersect(&Ray(zero(), v(1, 0, 0)));
    assert_eq!(hit.pos, v(5, 0, 0));
    assert_eq!(hit.normal, v(-1, 0, 0));
    assert_eq!(hit.pos.sub(&zero()).norm(), 5 * ONE);
}

#[test]
fn sphere_tangent_ray_touches_once() {
    let s = sphere_at(10, 5, 0, 5);
    let hit = s.intersect(&Ray(zero(), v(1, 0, 0)));
    assert_eq!(hit.pos, v(10, 0, 0));
    assert_eq!(hit.normal, v(0, -1, 0));
}

#[test]
fn sphere_aimed_away_misses() {
    let s = sphere_at(10, 0, 0, 5);
    assert_eq!(s.intersect(&Ray(zero(), v(-1, 0, 0))).normal, zero());
}

#[test]
fn sphere_hit_from_inside_uses_far_root() {
    let s = sphere_at(0, 0, 0, 5);
    let hit = s.intersect(&Ray(zero(), v(0, 0, 1)));
    assert_eq!(hit.pos, v(0, 0, 5));
    assert_eq!(hit.normal, v(0, 0, 1));
}

fn ground() -> Plane {
    Plane { point: zero(), normal: v(0, 1, 0), albedo: v(1, 1, 1), material: Material::Lambertian }
}

#[test]
fn plane_parallel_ray_never_hits() {
    let p = ground();
    assert_eq!(p.intersect(&Ray(v(0, 3, 0), v(1, 0, 0))).normal, zero());
    assert_eq!(p.intersect(&Ray(zero(), v(1, 0, 0))).normal, zero());
}

#[test]
fn plane_normal_faces_the_ray() {
    let p = ground();
    let front = p.intersect(&Ray(v(2, 5, 0), v(0, -1, 0)));
    assert_eq!(front.pos, v(2, 0, 0));
    assert_eq!(front.normal, v(0, 1, 0));
    let back = p.intersect(&Ray(v(2, -5, 0), v(0, 1, 0)));
    assert_eq!(back.pos, v(2, 0, 0));
    assert_eq!(back.normal, v(0, -1, 0));
}

#[test]
fn plane_behind_the_ray_misses() {
    let p = ground();
    assert_eq!(p.intersect(&Ray(v(0, 5, 0), v(0, 1, 0))).normal, zero());
}

#[test]
fn geometry_dispatch() {
    let g = Geometry::Sphere(sphere_at(10, 0, 0, 5));
    assert_eq!(g.get_material(), Material::Lambertian);
    assert_eq!(g.get_albedo(&zero()), v(0, 0, 0));
    assert_eq!(g.intersect(&Ray(zero(), v(1, 0, 0))).pos, v(5, 0, 0));
    let p = Geometry::Plane(ground());
    assert_eq!(p.get_albedo(&zero()), v(1, 1, 1));
}
