//! From a point on the screen to a ray in the world.

use vstd::prelude::*;
use vstd::float::FloatBitsProperties;
use crate::math::{is_scalar_difference_of, is_scalar_quotient_of, scalar_div, scalar_sub};
use crate::math::{is_difference_of, is_normalized_of, is_unprojection_of, scalar_one};
use crate::math::{scalar_zero, vec2_parts, vec2_read, vec3_new, vec3_normalize, vec3_of};
use crate::math::{vec3_sub, vec3_unproject, vec4_new, vec4_of, Mat4, Scalar, Vec2, Vec3};
use crate::simulation::Ray;

verus! {

/// The rectangle of the window that the scene is drawn into, in pixels.
/// Where panels of a user interface take part of the window, this is what
/// is left for the scene: picking has to use the rectangle that rendering
/// uses.
#[derive(Clone, Copy, Debug, PartialEq)]
pub struct Viewport {
    pub x: Scalar,
    pub y: Scalar,
    pub width: Scalar,
    pub height: Scalar,
}

impl Viewport {
    /// Width divided by height.
    pub fn aspect_ratio(&self) -> (ratio: Scalar)
        ensures
            is_scalar_quotient_of(self.width, self.height, ratio),
    {
        scalar_div(self.width, self.height)
    }
}

/// What it takes to turn a mouse position into a ray.
#[derive(Clone, Copy, Debug, PartialEq)]
pub struct MouseRayConfiguration {
    pub viewport: Viewport,
    pub projection_matrix: Mat4,
    pub view_matrix: Mat4,
    pub mouse_position: Vec2,
}

/// Holds where `ray` was computed as the ray under a mouse position: with
/// the position's `y` counted from the bottom of the viewport, the point is
/// unprojected once at depth zero (the near plane) and once at depth one
/// (the far plane); the ray starts at the first point and runs, normalized,
/// towards the second.
pub open spec fn is_mouse_ray(c: MouseRayConfiguration, ray: Ray) -> bool {
    let x = vec2_parts(c.mouse_position).0;
    let y = vec2_parts(c.mouse_position).1;
    let rect = vec4_of(c.viewport.x, c.viewport.y, c.viewport.width, c.viewport.height);
    exists|flipped: Scalar, zero: Scalar, one: Scalar, far: Vec3, span: Vec3|
        {
            &&& #[trigger] is_scalar_difference_of(c.viewport.height, y, flipped)
            &&& zero.to_bits_spec() == 0
            &&& one.to_bits_spec() == 0x3f80_0000
            &&& #[trigger] is_unprojection_of(
                vec3_of(x, flipped, zero),
                c.view_matrix,
                c.projection_matrix,
                rect,
                ray.origin,
            )
            &&& #[trigger] is_unprojection_of(
                vec3_of(x, flipped, one),
                c.view_matrix,
                c.projection_matrix,
                rect,
                far,
            )
            &&& #[trigger] is_difference_of(far, ray.origin, span)
            &&& is_normalized_of(span, ray.direction)
        }
}

/// The ray in world space under a mouse position.
pub fn mouse_ray(c: &MouseRayConfiguration) -> (ray: Ray)
    ensures
        is_mouse_ray(*c, ray),
{
    let (x, y) = vec2_read(&c.mouse_position);
    let flipped = scalar_sub(c.viewport.height, y);
    let zero = scalar_zero();
    let one = scalar_one();
    let rect = vec4_new(c.viewport.x, c.viewport.y, c.viewport.width, c.viewport.height);
    let near_window = vec3_new(x, flipped, zero);
    let far_window = vec3_new(x, flipped, one);
    let near = vec3_unproject(&near_window, &c.view_matrix, &c.projection_matrix, &rect);
    let far = vec3_unproject(&far_window, &c.view_matrix, &c.projection_matrix, &rect);
    let span = vec3_sub(&far, &near);
    let direction = vec3_normalize(&span);
    let ray = Ray { origin: near, direction };
    proof {
        let px = vec2_parts(c.mouse_position).0;
        let py = vec2_parts(c.mouse_position).1;
        let r = vec4_of(c.viewport.x, c.viewport.y, c.viewport.width, c.viewport.height);
        assert(px == x && py == y && r == rect);
        assert(is_scalar_difference_of(c.viewport.height, py, flipped));
        assert(is_unprojection_of(
            vec3_of(px, flipped, zero),
            c.view_matrix,
            c.projection_matrix,
            r,
            ray.origin,
        ));
        assert(is_unprojection_of(
            vec3_of(px, flipped, one),
            c.view_matrix,
            c.projection_matrix,
            r,
            far,
        ));
        assert(is_difference_of(far, ray.origin, span));
        assert(is_normalized_of(span, ray.direction));
    }
    ray
}

} // verus!
