use raytracer::camera::{self, Frame};
use raytracer::fixed::{EPSILON, ONE};
use raytracer::geometry::{Geometry, Intersection, Material, Plane, Ray, Sphere};
use raytracer::scene::{Light, Pointlight, Scene};
use raytracer::tracer::{disk_point, scatter};
use raytracer::vect::{zero, Vect};

fn v(x: i64, y: i64, z: i64) -> Vect {
    Vect::units(x, y, z)
}

fn ball(x: i64, y: i64, z: i64, radius: i64, material: Material) -> Geometry {
    Geometry::Sphere(Sphere { pos: v(x, y, z), radius: radius * ONE, material, albedo: Vect(ONE / 2, ONE / 2, ONE / 2) })
}

fn lamp(x: i64, y: i64, z: i64, intensity: i64) -> Light {
    Light::Point(Pointlight { pos: v(x, y, z), intensity: intensity * ONE })
}

fn ground(material: Material) -> Geometry {
    Geometry::Plane(Plane { point: zero(), normal: v(0, 1, 0), albedo: Vect(ONE / 2, ONE / 2, ONE / 2), material })
}

fn floor_point() -> Intersection {
    Intersection { pos: zero(), normal: v(0, 1, 0) }
}

#[test]
fn occluded_light_contributes_nothing() {
    let scene = Scene(vec![ball(0, 5, 0, 1, Material::Lambertian)], vec![lamp(0, 10, 0, 1000)]);
    assert_eq!(scene.1[0].get_contribution(&floor_point(), &scene), 0);
}

#[test]
fn unoccluded_light_follows_inverse_square() {
    let scene = Scene(vec![], vec![lamp(0, 10, 0, 1000)]);
    // 1000 / (4 pi^2 * 100) = 0.2533
    assert_eq!(scene.1[0].get_contribution(&floor_point(), &scene), 16_600);
    let nearer = Scene(vec![], vec![lamp(0, 5, 0, 1000)]);
    assert_eq!(nearer.1[0].get_contribution(&floor_point(), &nearer), 66_401);
}

#[test]
fn light_behind_the_surface_contributes_nothing() {
    let scene = Scene(vec![], vec![lamp(0, -10, 0, 1000)]);
    assert_eq!(scene.1[0].get_contribution(&floor_point(), &scene), 0);
}

#[test]
fn light_on_the_point_contributes_nothing() {
    let scene = Scene(vec![], vec![lamp(0, 0, 0, 1000)]);
    assert_eq!(scene.1[0].get_contribution(&floor_point(), &scene), 0);
}

#[test]
fn lights_add_up() {
    let scene = Scene(vec![], vec![lamp(0, 10, 0, 1000), lamp(0, 10, 0, 1000)]);
    assert_eq!(Ray::light_at(&scene, &floor_point()), 33_200);
}

#[test]
fn depth_zero_is_black() {
    let scene = Scene(vec![ground(Material::Lambertian)], vec![lamp(0, 10, 0, 1000)]);
    for dir in [v(0, -1, 0), v(1, 0, 0), v(0, 1, 0)] {
        assert_eq!(Ray(v(0, 1, 0), dir).colour(&scene, 0), zero());
    }
}

#[test]
fn escaping_ray_sees_background() {
    let scene = Scene(vec![ground(Material::Lambertian)], vec![lamp(0, 10, 0, 1000)]);
    assert_eq!(Ray(v(0, 1, 0), v(0, 1, 0)).colour(&scene, 3), v(50, 0, 0));
}

#[test]
fn dim_surface_gets_unlit_colour() {
    let scene = Scene(vec![ground(Material::Lambertian)], vec![lamp(0, 10, 0, 1)]);
    assert_eq!(Ray(v(0, 1, 0), v(0, -1, 0)).colour(&scene, 3), v(255, 0, 250));
}

#[test]
fn lit_surface_at_depth_one_is_direct_light_only() {
    let scene = Scene(vec![ground(Material::Lambertian)], vec![lamp(0, 10, 0, 10_000)]);
    let c = Ray(v(0, 1, 0), v(0, -1, 0)).colour(&scene, 1);
    let ip = Intersection { pos: zero().add(&v(0, 1, 0).scalar_mul(&EPSILON)), normal: v(0, 1, 0) };
    let light = Ray::light_at(&scene, &ip);
    assert!(light > 0);
    assert_eq!(c, Vect(ONE / 2, ONE / 2, ONE / 2).scalar_mul(&light));
}

#[test]
fn lit_surface_with_bounces_stays_above_direct_light() {
    let scene = Scene(vec![ground(Material::Lambertian)], vec![lamp(0, 10, 0, 10_000)]);
    let direct = Ray(v(0, 1, 0), v(0, -1, 0)).colour(&scene, 1);
    let c = Ray(v(0, 1, 0), v(0, -1, 0)).colour(&scene, 4);
    assert!(c.0 >= direct.0 && c.1 >= direct.1 && c.2 >= direct.2);
}

#[test]
fn mirror_passes_on_the_reflected_colour() {
    let scene = Scene(vec![ground(Material::Mirror)], vec![]);
    let down = Ray(v(0, 5, 0), v(0, -1, 0));
    assert_eq!(down.colour(&scene, 1), zero());
    assert_eq!(down.colour(&scene, 2), v(50, 0, 0));
}

#[test]
fn reflect_about_axis_twice_is_identity() {
    let r = Ray(v(1, 2, 3), Vect(12_345, -54_321, 777));
    let h = Ray(zero(), v(0, 1, 0));
    let once = r.reflect(&h);
    assert_eq!(once, Ray(zero(), Vect(12_345, 54_321, 777)));
    assert_eq!(once.reflect(&h).1, r.1);
}

#[test]
fn reflect_about_slanted_plane_twice_is_close() {
    let r = Ray(zero(), v(1, -2, 3).normalise());
    let h = Ray(zero(), v(1, 1, 0).normalise());
    let back = r.reflect(&h).reflect(&h).1;
    assert!((back.0 - r.1 .0).abs() <= 16);
    assert!((back.1 - r.1 .1).abs() <= 16);
    assert!((back.2 - r.1 .2).abs() <= 16);
}

#[test]
fn nearest_hit_wins() {
    let scene = Scene(
        vec![ball(0, 0, 20, 1, Material::Lambertian), ball(0, 0, 10, 1, Material::Mirror)],
        vec![],
    );
    let (j, hit) = Ray(zero(), v(0, 0, 1)).closest(&scene).unwrap();
    assert_eq!(j, 1);
    assert_eq!(hit.pos, v(0, 0, 9));
    assert!(Ray(zero(), v(0, 0, -1)).closest(&scene).is_none());
}

#[test]
fn disk_points_and_scatter() {
    assert_eq!(disk_point(0x8000_0000, 0x8000_0000), Some((0, 0)));
    assert_eq!(disk_point(0, 0), None);
    assert_eq!(disk_point(0xC000_0000, 0x8000_0000), Some((ONE / 2, 0)));
    // The centre of the disk lifts to the pole of the hemisphere.
    assert_eq!(scatter(&v(0, 1, 0), 0, 0), v(0, 1, 0));
    let d = scatter(&v(0, 0, 1), ONE / 2, ONE / 2);
    let n = d.norm();
    assert!(n >= ONE - 4 && n <= ONE + 4);
}

#[test]
fn random_scatter_is_unit_length() {
    for _ in 0..50 {
        let d = raytracer::tracer::random_scatter(&v(0, 1, 0));
        let n = d.norm();
        assert!(n >= ONE - 8 && n <= ONE + 8);
    }
}

#[test]
fn camera_centre_ray_looks_forward() {
    let cam = camera::new(v(0, 2, 0), v(0, 0, 1), v(0, 1, 0), ONE, 128, 128);
    assert_eq!(cam.ray(&64, &64), Ray(v(0, 2, 0), v(0, 0, 1)));
    let corner = cam.ray(&0, &0).1;
    assert!(corner.1 > 0 && corner.0 < 0 && corner.2 > 0);
}

#[test]
fn end_to_end_centre_pixel_is_deterministic() {
    let cam = camera::new(v(0, 2, 0), v(0, 0, 1), v(0, 1, 0), ONE, 128, 128);
    let scene = Scene(
        vec![ball(0, 2, 10, 2, Material::Lambertian), ground(Material::Lambertian)],
        vec![lamp(0, 10, 0, 10_000)],
    );
    let first = cam.render_pixel(&scene, 64, 64, 4, 1);
    let second = cam.render_pixel(&scene, 64, 64, 4, 1);
    assert_eq!(first, second);
    let ray = cam.ray(&64, &64);
    let (_, hit) = ray.closest(&scene).unwrap();
    assert_eq!(hit.pos, v(0, 2, 8));
    let ip = Intersection { pos: hit.pos.add(&hit.normal.scalar_mul(&EPSILON)), normal: hit.normal };
    let light = Ray::light_at(&scene, &ip);
    assert!(light > 6553);
    assert_eq!(first, Vect(ONE / 2, ONE / 2, ONE / 2).scalar_mul(&light));
}

#[test]
fn average_rounds_down() {
    let samples = vec![v(1, 2, 3), v(2, 2, 2), Vect(0, 1, -1)];
    assert_eq!(camera::average(&samples), Vect(65_536, 87_381, 109_226));
}

#[test]
fn frame_is_row_major() {
    let mut f = Frame::new(2, 2);
    assert_eq!(f.data.len(), 12);
    f.put_pixel(1, 0, (1, 2, 3));
    assert_eq!(&f.data[6..9], &[1, 2, 3]);
    assert_eq!(f.get_pixel(1, 0), (1, 2, 3));
    assert_eq!(f.get_pixel(0, 1), (0, 0, 0));
}

fn spread(cam: &camera::Camera, scene: &Scene, nrays: u32) -> f64 {
    let runs: Vec<f64> = (0..30).map(|_| cam.render_pixel(scene, 64, 64, nrays, 3).0 as f64).collect();
    let mean = runs.iter().sum::<f64>() / runs.len() as f64;
    (runs.iter().map(|x| (x - mean) * (x - mean)).sum::<f64>() / runs.len() as f64).sqrt()
}

#[test]
fn more_samples_per_pixel_reduce_spread() {
    let cam = camera::new(v(0, 2, 0), v(0, -1, 0), v(0, 0, 1), ONE, 128, 128);
    let scene = Scene(
        vec![ground(Material::Lambertian), ball(3, 2, 0, 2, Material::Lambertian)],
        vec![lamp(0, 10, 0, 10_000)],
    );
    let few = spread(&cam, &scene, 1);
    let many = spread(&cam, &scene, 32);
    assert!(few > 0.0);
    assert!(many < few);
}
