//! What is traced for a hit: the decisions of the scene composer.

use crate::intersection::Intersection;
use crate::scalar::Scalar;
use crate::scalar::ONE_BITS;
use crate::shape::Surface;
use vstd::prelude::*;

verus! {

/// What to trace for one hit, and with how many bounces left.
#[derive(Clone, Copy, Debug, PartialEq, Eq, Structural)]
pub struct ShadingPlan {
    /// Whether to test the hit for shadow; a surface that lets all light
    /// through counts as lit without a test.
    pub test_shadow: bool,
    /// Whether to trace the reflected ray.
    pub reflect: bool,
    /// Whether to trace the refracted ray, unless all light is reflected
    /// inside.
    pub refract: bool,
    /// Whether to weigh the reflected against the refracted colour by the
    /// reflectance, in place of adding both.
    pub blend: bool,
    /// The bounces left for the rays traced from here.
    pub remaining: u32,
}

/// The reflected ray is traced where the surface reflects at all and a
/// bounce is left.
pub open spec fn reflects(surface: Surface, remaining: u32) -> bool {
    !surface.reflective.null() && remaining > 0
}

/// The refracted ray is traced where the surface lets light through at all
/// and a bounce is left.
pub open spec fn refracts(surface: Surface, remaining: u32) -> bool {
    !surface.transparency.null() && remaining > 0
}

/// Decides what to trace for a hit on `surface` with `remaining` bounces
/// left. With none left no ray is traced, which bounds every recursion.
pub fn plan_shading(surface: &Surface, remaining: u32) -> (plan: ShadingPlan)
    ensures
        plan.test_shadow == !surface.transparency.at_least(Scalar { bits: ONE_BITS }),
        plan.reflect == reflects(*surface, remaining),
        plan.refract == refracts(*surface, remaining),
        plan.blend == (surface.reflective.positive() && surface.transparency.positive()),
        remaining > 0 ==> plan.remaining == remaining - 1,
        remaining == 0 ==> plan.remaining == 0 && !plan.reflect && !plan.refract,
{
    let one = Scalar::one();
    ShadingPlan {
        test_shadow: !surface.transparency.ge(&one),
        reflect: !surface.reflective.is_zero() && remaining > 0,
        refract: !surface.transparency.is_zero() && remaining > 0,
        blend: surface.reflective.is_positive() && surface.transparency.is_positive(),
        remaining: if remaining > 0 {
            remaining - 1
        } else {
            0
        },
    }
}

/// Whether a point is in the shadow of what its ray towards a light hits
/// first: something is hit, and nearer than the light is.
pub fn blocks_light(hit: &Option<Intersection>, distance: &Scalar) -> (shadowed: bool)
    ensures
        shadowed == (hit matches Some(h) && h.t.less(*distance)),
{
    match hit {
        Some(h) => h.nearer_than(distance),
        None => false,
    }
}

} // verus!
