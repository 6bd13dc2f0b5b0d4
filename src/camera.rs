//! The pinhole camera: primary rays per pixel, per-pixel sample averaging,
//! and the RGB buffer that collects the finished pixels.
use vstd::prelude::*;
use crate::fixed::{clamp, in_range, saturate, div_floor, ONE, LIMIT};
use crate::vect::{Vect, zero, vadd, vsub, vscale, vdot, vnormalise, vcross};
use crate::geometry::Ray;
use crate::scene::Scene;
use crate::tracer::traced;

verus! {

/// Position, top-left corner of the screen, step to the next column and
/// step to the next row.
#[derive(Clone, Copy, PartialEq, Eq, Structural, Debug)]
pub struct Camera(pub Vect, pub Vect, pub Vect, pub Vect);

impl Camera {
    pub open spec fn wf(self) -> bool {
        self.0.wf() && self.1.wf() && self.2.wf() && self.3.wf()
    }
}

/// The largest image side, in pixels.
pub const MAX_SIDE: u32 = 0x100_0000;

/// The camera at `pos` looking along `dir` with `up` upwards, whose screen,
/// at unit distance, has half-width `half_width` (the tangent of half the
/// field of view) and the aspect ratio of a `width` x `height` image.
pub open spec fn camera_spec(pos: Vect, dir: Vect, up: Vect, half_width: int, width: int, height: int) -> Camera {
    let d = vnormalise(dir);
    let u = vnormalise(up);
    let sw = clamp(2 * half_width);
    let sh = clamp((sw * height) / width);
    let left = vnormalise(vcross(d, u));
    Camera(
        pos,
        vadd(vadd(vadd(pos, d), vscale(u, sh / 2)), vscale(left, sw / 2)),
        vscale(vscale(left, -ONE), sw / width),
        vscale(vscale(u, -ONE), sh / height),
    )
}

/// Creates a camera; `dir` and `up` must be perpendicular.
pub fn new(pos: Vect, dir: Vect, up: Vect, half_width: i64, width: u32, height: u32) -> (r: Camera)
    requires
        pos.wf(),
        dir.wf(),
        up.wf(),
        vdot(dir, up) == 0,
        0 <= half_width <= LIMIT,
        0 < width <= MAX_SIDE,
        0 < height <= MAX_SIDE,
    ensures
        r == camera_spec(pos, dir, up, half_width as int, width as int, height as int),
        r.wf(),
{
    let d = dir.normalise();
    let u = up.normalise();
    let sw = saturate(2 * half_width as i128);
    proof {
        crate::fixed::lemma_mul_bound(sw as int, height as int, LIMIT as int, MAX_SIDE as int);
    }
    let sh = saturate(div_floor(sw as i128 * height as i128, width as i128));
    let left = d.cross(&u).normalise();
    let top_left = pos.add(&d).add(&u.scalar_mul(&(sh / 2))).add(&left.scalar_mul(&(sw / 2)));
    let step_right = left.scalar_mul(&-ONE).scalar_mul(&(sw / width as i64));
    let step_down = u.scalar_mul(&-ONE).scalar_mul(&(sh / height as i64));
    Camera(pos, top_left, step_right, step_down)
}

/// The primary ray through pixel `(row, col)`.
pub open spec fn ray_spec(cam: Camera, row: int, col: int) -> Ray {
    Ray(cam.0, vnormalise(vsub(vadd(vadd(cam.1, vscale(cam.3, row * ONE)), vscale(cam.2, col * ONE)), cam.0)))
}

/// Saturated sum of the first `n` samples.
pub open spec fn sum_spec(s: Seq<Vect>, n: int) -> Vect
    decreases n,
{
    if n <= 0 {
        Vect(0, 0, 0)
    } else {
        vadd(sum_spec(s, n - 1), s[n - 1])
    }
}

/// The mean of the samples, each channel rounded down.
pub open spec fn average_spec(s: Seq<Vect>) -> Vect {
    let t = sum_spec(s, s.len() as int);
    let n = s.len() as int;
    Vect((t.0 as int / n) as i64, (t.1 as int / n) as i64, (t.2 as int / n) as i64)
}

pub proof fn lemma_sum_wf(s: Seq<Vect>, n: int)
    ensures
        sum_spec(s, n).wf(),
    decreases n,
{
    if n > 0 {
        lemma_sum_wf(s, n - 1);
    }
}

/// The mean of `samples`.
pub fn average(samples: &Vec<Vect>) -> (r: Vect)
    requires
        0 < samples@.len() <= u32::MAX,
        forall|i: int| 0 <= i < samples@.len() ==> (#[trigger] samples@[i]).wf(),
    ensures
        r == average_spec(samples@),
        r.wf(),
{
    let mut t = zero();
    let mut i: usize = 0;
    while i < samples.len()
        invariant
            i <= samples@.len(),
            forall|k: int| 0 <= k < samples@.len() ==> (#[trigger] samples@[k]).wf(),
            t == sum_spec(samples@, i as int),
            t.wf(),
        decreases samples.len() - i,
    {
        t = t.add(&samples[i]);
        i = i + 1;
    }
    let n = samples.len() as i128;
    let r = Vect(
        div_floor(t.0 as i128, n) as i64,
        div_floor(t.1 as i128, n) as i64,
        div_floor(t.2 as i128, n) as i64,
    );
    proof {
        assert(t == sum_spec(samples@, samples@.len() as int));
        lemma_div_shrinks(t.0 as int, n as int);
        lemma_div_shrinks(t.1 as int, n as int);
        lemma_div_shrinks(t.2 as int, n as int);
    }
    r
}

proof fn lemma_div_shrinks(x: int, n: int)
    requires
        in_range(x),
        n >= 1,
    ensures
        in_range(x / n),
{
    vstd::arithmetic::div_mod::lemma_fundamental_div_mod(x, n);
    if x >= 0 {
        vstd::arithmetic::div_mod::lemma_div_pos_is_pos(x, n);
        vstd::arithmetic::div_mod::lemma_div_is_ordered_by_denominator(x, 1, n);
    } else {
        assert(n * (x / n) <= x);
        assert(x / n >= x) by (nonlinear_arith)
            requires
                n * (x / n) <= x,
                x < 0,
                n >= 1,
                n * (x / n) > x - n,
        ;
    }
}

impl Camera {
    /// The primary ray through pixel `(row, col)`.
    pub fn ray(&self, row: &u32, col: &u32) -> (r: Ray)
        requires
            self.wf(),
            *row <= MAX_SIDE,
            *col <= MAX_SIDE,
        ensures
            r == ray_spec(*self, *row as int, *col as int),
            r.wf(),
    {
        let target = self.1.add(&self.3.scalar_mul(&(*row as i64 * ONE))).add(&self.2.scalar_mul(&(*col as i64 * ONE)));
        Ray(self.0, target.sub(&self.0).normalise())
    }

    /// The mean colour of `nrays` independent samples through pixel `(row, col)`.
    pub fn render_pixel(&self, scene: &Scene, row: u32, col: u32, nrays: u32, depth: u8) -> (r: Vect)
        requires
            self.wf(),
            scene.wf(),
            row <= MAX_SIDE,
            col <= MAX_SIDE,
            nrays > 0,
        ensures
            r.wf(),
            exists|s: Seq<Vect>| #![trigger average_spec(s)]
                s.len() == nrays && r == average_spec(s)
                && forall|k: int| 0 <= k < s.len() ==> {
                    &&& (#[trigger] s[k]).wf()
                    &&& traced(ray_spec(*self, row as int, col as int), scene.0@, scene.1@, depth as nat, s[k])
                },
    {
        let ray = self.ray(&row, &col);
        let mut samples: Vec<Vect> = Vec::new();
        let mut i: u32 = 0;
        while i < nrays
            invariant
                self.wf(),
                scene.wf(),
                ray == ray_spec(*self, row as int, col as int),
                ray.wf(),
                i <= nrays,
                samples@.len() == i,
                forall|k: int| 0 <= k < samples@.len() ==> {
                    &&& (#[trigger] samples@[k]).wf()
                    &&& traced(ray, scene.0@, scene.1@, depth as nat, samples@[k])
                },
            decreases nrays - i,
        {
            let c = ray.colour(scene, depth);
            samples.push(c);
            i = i + 1;
        }
        average(&samples)
    }
}

/// An RGB image, row-major, three bytes per pixel.
pub struct Frame {
    pub width: u32,
    pub height: u32,
    pub data: Vec<u8>,
}

/// Offset of the first byte of pixel `(row, col)` in a row-major buffer.
pub open spec fn pixel_index(width: int, row: int, col: int) -> int {
    3 * (row * width + col)
}

impl Frame {
    pub open spec fn wf(&self) -> bool {
        self.data@.len() == 3 * (self.width * self.height)
    }

    /// A black image of the given size.
    pub fn new(width: u32, height: u32) -> (r: Frame)
        requires
            width <= MAX_SIDE,
            height <= MAX_SIDE,
            3 * (width * height) <= usize::MAX,
        ensures
            r.wf(),
            r.width == width,
            r.height == height,
            forall|i: int| 0 <= i < r.data@.len() ==> r.data@[i] == 0,
    {
        let n: usize = 3 * (width as usize * height as usize);
        let mut data: Vec<u8> = Vec::new();
        let mut i: usize = 0;
        while i < n
            invariant
                i <= n,
                data@.len() == i,
                forall|k: int| 0 <= k < i ==> data@[k] == 0,
            decreases n - i,
        {
            data.push(0);
            i = i + 1;
        }
        Frame { width, height, data }
    }

    /// Writes the colour of pixel `(row, col)`.
    pub fn put_pixel(&mut self, row: u32, col: u32, rgb: (u8, u8, u8))
        requires
            old(self).wf(),
            row < old(self).height,
            col < old(self).width,
        ensures
            final(self).wf(),
            final(self).width == old(self).width,
            final(self).height == old(self).height,
            final(self).data@ == old(self).data@
                .update(pixel_index(old(self).width as int, row as int, col as int), rgb.0)
                .update(pixel_index(old(self).width as int, row as int, col as int) + 1, rgb.1)
                .update(pixel_index(old(self).width as int, row as int, col as int) + 2, rgb.2),
    {
        let len = self.data.len();
        proof {
            assert(row * self.width + col < self.width * self.height) by (nonlinear_arith)
                requires
                    row < self.height,
                    col < self.width,
            ;
            assert(row * self.width <= row * self.width + col);
        }
        let i: usize = 3 * (row as usize * self.width as usize + col as usize);
        self.data.set(i, rgb.0);
        self.data.set(i + 1, rgb.1);
        self.data.set(i + 2, rgb.2);
    }

    /// The colour of pixel `(row, col)`.
    pub fn get_pixel(&self, row: u32, col: u32) -> (r: (u8, u8, u8))
        requires
            self.wf(),
            row < self.height,
            col < self.width,
        ensures
            r == (
                self.data@[pixel_index(self.width as int, row as int, col as int)],
                self.data@[pixel_index(self.width as int, row as int, col as int) + 1],
                self.data@[pixel_index(self.width as int, row as int, col as int) + 2],
            ),
    {
        let len = self.data.len();
        proof {
            assert(row * self.width + col < self.width * self.height) by (nonlinear_arith)
                requires
                    row < self.height,
                    col < self.width,
            ;
            assert(row * self.width <= row * self.width + col);
        }
        let i: usize = 3 * (row as usize * self.width as usize + col as usize);
        (self.data[i], self.data[i + 1], self.data[i + 2])
    }
}

} // verus!
