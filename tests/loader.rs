use raytracer::fixed::ONE;
use raytracer::geometry::{Geometry, Material};
use raytracer::loader::{build_scene, surface, LoadError, PlaneRecord, SphereRecord};
use raytracer::scene::{Light, Pointlight};
use raytracer::vect::Vect;

fn sphere(material: &str, colour: Option<Vect>) -> SphereRecord {
    SphereRecord { position: Vect::units(0, 1, 5), radius: ONE, material: material.to_string(), colour }
}

fn plane(material: &str, colour: Option<Vect>) -> PlaneRecord {
    PlaneRecord { point: Vect::units(0, 0, 0), normal: Vect::units(0, 1, 0), material: material.to_string(), colour }
}

#[test]
fn surface_checks_material_and_colour() {
    let c = Vect::units(1, 0, 0);
    assert_eq!(surface(&"Lambertian".to_string(), Some(c)), Ok(c));
    assert_eq!(surface(&"Lambertian".to_string(), None), Err(LoadError::MissingColour));
    assert_eq!(surface(&"Mirror".to_string(), Some(c)), Err(LoadError::InvalidMaterial));
    assert_eq!(surface(&"lambertian".to_string(), Some(c)), Err(LoadError::InvalidMaterial));
}

#[test]
fn scene_keeps_record_order() {
    let red = Vect::units(1, 0, 0);
    let grey = Vect(ONE / 2, ONE / 2, ONE / 2);
    let light = Pointlight { pos: Vect::units(0, 10, 0), intensity: 1000 * ONE };
    let scene = build_scene(&vec![sphere("Lambertian", Some(red))], &vec![plane("Lambertian", Some(grey))], &vec![light])
        .unwrap();
    assert_eq!(scene.0.len(), 2);
    match scene.0[0] {
        Geometry::Sphere(s) => {
            assert_eq!(s.albedo, red);
            assert_eq!(s.radius, ONE);
            assert_eq!(s.material, Material::Lambertian);
        }
        _ => panic!("a sphere comes first"),
    }
    match scene.0[1] {
        Geometry::Plane(p) => assert_eq!(p.albedo, grey),
        _ => panic!("the plane comes second"),
    }
    assert_eq!(scene.1, vec![Light::Point(light)]);
}

#[test]
fn scene_refused_with_first_error() {
    let c = Some(Vect::units(1, 1, 1));
    let e = build_scene(&vec![sphere("Lambertian", None), sphere("Glass", c)], &vec![], &vec![]).err();
    assert_eq!(e, Some(LoadError::MissingColour));
    let e = build_scene(&vec![sphere("Lambertian", c)], &vec![plane("Glass", c), plane("Lambertian", None)], &vec![]).err();
    assert_eq!(e, Some(LoadError::InvalidMaterial));
    assert_eq!(LoadError::MissingColour.message(), "Lambertian materials must also specify colour");
    assert_eq!(LoadError::InvalidMaterial.message(), "Invalid material type");
}

#[test]
fn empty_description_gives_empty_scene() {
    let scene = build_scene(&vec![], &vec![], &vec![]).unwrap();
    assert!(scene.0.is_empty() && scene.1.is_empty());
}
