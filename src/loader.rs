//! Builds a scene from the records of a scene description, checking each
//! record's material before any rendering starts.
use vstd::prelude::*;
use crate::vect::Vect;
use crate::geometry::{Geometry, Material, Plane, Sphere};
use crate::scene::{Light, Pointlight, Scene};

verus! {

/// Why a scene description was refused.
#[derive(Clone, Copy, PartialEq, Eq, Structural, Debug)]
pub enum LoadError {
    /// A Lambertian surface without a colour.
    MissingColour,
    /// A material name other than "Lambertian".
    InvalidMaterial,
}

impl LoadError {
    /// The description of the error shown to the user.
    pub fn message(&self) -> (r: String)
        ensures
            r@ == (match self {
                LoadError::MissingColour => "Lambertian materials must also specify colour"@,
                LoadError::InvalidMaterial => "Invalid material type"@,
            }),
    {
        match self {
            LoadError::MissingColour => String::from_str("Lambertian materials must also specify colour"),
            LoadError::InvalidMaterial => String::from_str("Invalid material type"),
        }
    }
}

/// A sphere as the description gives it.
pub struct SphereRecord {
    pub position: Vect,
    pub radius: i64,
    pub material: String,
    pub colour: Option<Vect>,
}

/// A plane as the description gives it.
pub struct PlaneRecord {
    pub point: Vect,
    pub normal: Vect,
    pub material: String,
    pub colour: Option<Vect>,
}

/// The albedo a surface record stands for, or why it is refused.
pub open spec fn surface_spec(material: Seq<char>, colour: Option<Vect>) -> Result<Vect, LoadError> {
    if material != "Lambertian"@ {
        Err(LoadError::InvalidMaterial)
    } else {
        match colour {
            None => Err(LoadError::MissingColour),
            Some(c) => Ok(c),
        }
    }
}

pub open spec fn sphere_of(r: SphereRecord, albedo: Vect) -> Geometry {
    Geometry::Sphere(Sphere { pos: r.position, radius: r.radius, material: Material::Lambertian, albedo })
}

pub open spec fn plane_of(r: PlaneRecord, albedo: Vect) -> Geometry {
    Geometry::Plane(Plane { point: r.point, normal: r.normal, albedo, material: Material::Lambertian })
}

/// The first error among the first `n` sphere records, if any.
pub open spec fn sphere_error(s: Seq<SphereRecord>, n: int) -> Option<LoadError>
    decreases n,
{
    if n <= 0 {
        None
    } else {
        match sphere_error(s, n - 1) {
            Some(e) => Some(e),
            None => match surface_spec(s[n - 1].material@, s[n - 1].colour) {
                Err(e) => Some(e),
                Ok(_) => None,
            },
        }
    }
}

/// The first error among the first `n` plane records, if any.
pub open spec fn plane_error(p: Seq<PlaneRecord>, n: int) -> Option<LoadError>
    decreases n,
{
    if n <= 0 {
        None
    } else {
        match plane_error(p, n - 1) {
            Some(e) => Some(e),
            None => match surface_spec(p[n - 1].material@, p[n - 1].colour) {
                Err(e) => Some(e),
                Ok(_) => None,
            },
        }
    }
}

/// The albedo of a surface record: its colour where the material is
/// "Lambertian" and a colour is given.
pub fn surface(material: &String, colour: Option<Vect>) -> (r: Result<Vect, LoadError>)
    ensures
        r == surface_spec(material@, colour),
{
    let lambertian = String::from_str("Lambertian");
    proof {
        reveal_strlit("Lambertian");
    }
    if *material != lambertian {
        return Err(LoadError::InvalidMaterial);
    }
    match colour {
        None => Err(LoadError::MissingColour),
        Some(c) => Ok(c),
    }
}

/// The scene the records describe: spheres, then planes, then lights, each
/// in order. Refused with the first error in that order.
pub fn build_scene(spheres: &Vec<SphereRecord>, planes: &Vec<PlaneRecord>, lights: &Vec<Pointlight>) -> (r: Result<Scene, LoadError>)
    ensures
        match r {
            Ok(scene) => {
                &&& sphere_error(spheres@, spheres@.len() as int) is None
                &&& plane_error(planes@, planes@.len() as int) is None
                &&& scene.0@.len() == spheres@.len() + planes@.len()
                &&& forall|i: int| 0 <= i < spheres@.len() ==> #[trigger] scene.0@[i] == sphere_of(spheres@[i], spheres@[i].colour->0)
                &&& forall|i: int| 0 <= i < planes@.len() ==> #[trigger] scene.0@[spheres@.len() + i] == plane_of(planes@[i], planes@[i].colour->0)
                &&& scene.1@.len() == lights@.len()
                &&& forall|i: int| 0 <= i < lights@.len() ==> #[trigger] scene.1@[i] == Light::Point(lights@[i])
            },
            Err(e) => match sphere_error(spheres@, spheres@.len() as int) {
                Some(se) => e == se,
                None => plane_error(planes@, planes@.len() as int) == Some(e),
            },
        },
{
    let mut geos: Vec<Geometry> = Vec::new();
    let mut i: usize = 0;
    while i < spheres.len()
        invariant
            i <= spheres@.len(),
            sphere_error(spheres@, i as int) is None,
            geos@.len() == i,
            forall|k: int| 0 <= k < i ==> #[trigger] geos@[k] == sphere_of(spheres@[k], spheres@[k].colour->0),
        decreases spheres.len() - i,
    {
        let s = &spheres[i];
        match surface(&s.material, s.colour) {
            Err(e) => {
                proof {
                    lemma_sphere_error_stays(spheres@, i as int + 1, spheres@.len() as int);
                }
                return Err(e);
            },
            Ok(c) => {
                geos.push(Geometry::Sphere(Sphere { pos: s.position, radius: s.radius, material: Material::Lambertian, albedo: c }));
            },
        }
        i = i + 1;
    }
    let mut j: usize = 0;
    while j < planes.len()
        invariant
            i == spheres@.len(),
            sphere_error(spheres@, spheres@.len() as int) is None,
            j <= planes@.len(),
            plane_error(planes@, j as int) is None,
            geos@.len() == i + j,
            forall|k: int| 0 <= k < i ==> #[trigger] geos@[k] == sphere_of(spheres@[k], spheres@[k].colour->0),
            forall|k: int| 0 <= k < j ==> #[trigger] geos@[i + k] == plane_of(planes@[k], planes@[k].colour->0),
        decreases planes.len() - j,
    {
        let p = &planes[j];
        match surface(&p.material, p.colour) {
            Err(e) => {
                proof {
                    lemma_plane_error_stays(planes@, j as int + 1, planes@.len() as int);
                }
                return Err(e);
            },
            Ok(c) => {
                geos.push(Geometry::Plane(Plane { point: p.point, normal: p.normal, albedo: c, material: Material::Lambertian }));
                proof {
                    assert(geos@[i + j as int] == plane_of(planes@[j as int], planes@[j as int].colour->0));
                }
            },
        }
        j = j + 1;
    }
    let mut ls: Vec<Light> = Vec::new();
    let mut k: usize = 0;
    while k < lights.len()
        invariant
            k <= lights@.len(),
            ls@.len() == k,
            forall|m: int| 0 <= m < k ==> #[trigger] ls@[m] == Light::Point(lights@[m]),
        decreases lights.len() - k,
    {
        ls.push(Light::Point(lights[k]));
        k = k + 1;
    }
    Ok(Scene(geos, ls))
}

proof fn lemma_sphere_error_stays(s: Seq<SphereRecord>, n: int, m: int)
    requires
        n <= m,
        sphere_error(s, n) is Some,
    ensures
        sphere_error(s, m) == sphere_error(s, n),
    decreases m - n,
{
    if n < m {
        lemma_sphere_error_stays(s, n, m - 1);
    }
}

proof fn lemma_plane_error_stays(p: Seq<PlaneRecord>, n: int, m: int)
    requires
        n <= m,
        plane_error(p, n) is Some,
    ensures
        plane_error(p, m) == plane_error(p, n),
    decreases m - n,
{
    if n < m {
        lemma_plane_error_stays(p, n, m - 1);
    }
}

} // verus!
