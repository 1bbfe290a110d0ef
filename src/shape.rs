use vstd::prelude::*;

use crate::box_shape::{box_entry, box_hit, BoxShape};
use crate::plane_shape::{plane_denom, plane_hit, plane_num, PlaneShape};
use crate::ray::{small_param, Ratio, Ray};
use crate::triangle_shape::{tri_denom, tri_num, triangle_hit, TriangleShape};

verus! {

/// One of the shapes a scene is made of.
#[derive(Clone, Copy, Debug)]
pub enum Shape {
    Box(BoxShape),
    Plane(PlaneShape),
    Triangle(TriangleShape),
}

impl Shape {
    pub open spec fn bounded(&self) -> bool {
        match *self {
            Shape::Box(b) => b.bounded(),
            Shape::Plane(p) => p.bounded(),
            Shape::Triangle(t) => t.bounded(),
        }
    }

    /// Whether the ray from `o` along `d` meets the shape.
    pub open spec fn hit_spec(&self, o: (int, int, int), d: (int, int, int)) -> bool {
        match *self {
            Shape::Box(b) => box_hit(b.start_spec()@, b.end_spec()@, o, d),
            Shape::Plane(p) => plane_hit(p.origin_spec()@, p.dir_spec()@, o, d),
            Shape::Triangle(t) => triangle_hit(t.a_spec()@, t.b_spec()@, t.c_spec()@, o, d),
        }
    }

    /// The parameter of the near intersection, as a fraction.
    pub open spec fn t_spec(&self, o: (int, int, int), d: (int, int, int)) -> (int, int) {
        match *self {
            Shape::Box(b) => box_entry(b.start_spec()@, b.end_spec()@, o, d)->0,
            Shape::Plane(p) => (plane_num(p.origin_spec()@, p.dir_spec()@, o), plane_denom(
                p.dir_spec()@,
                d,
            )),
            Shape::Triangle(t) => (
                tri_num(t.a_spec()@, t.b_spec()@, t.c_spec()@, o),
                tri_denom(t.a_spec()@, t.b_spec()@, t.c_spec()@, d),
            ),
        }
    }

    /// Intersects the ray with whichever shape this is.
    pub fn intersects_ray(&self, ray: &Ray) -> (r: (bool, Ratio))
        requires
            self.bounded(),
            ray.bounded(),
        ensures
            r.0 == self.hit_spec(ray.origin_spec()@, ray.dir_spec()@),
            r.1.valid(),
            r.0 ==> r.1@ == self.t_spec(ray.origin_spec()@, ray.dir_spec()@),
            r.0 ==> small_param(r.1@),
    {
        match self {
            Shape::Box(b) => b.intersects_ray(ray),
            Shape::Plane(p) => p.intersects_ray(ray),
            Shape::Triangle(t) => t.intersects_ray(ray),
        }
    }
}

} // verus!
