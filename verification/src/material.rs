//! Which terms of the Phong model a surface point receives.

use crate::scalar::Scalar;
use vstd::prelude::*;

verus! {

/// The terms that light a point besides the ambient term, which every point
/// receives.
#[derive(Clone, Copy, Debug, PartialEq, Eq, Structural)]
pub struct LightingTerms {
    pub diffuse: bool,
    pub specular: bool,
}

/// Decides the terms for a point. `light_dot_normal` is the cosine between
/// the direction to the light and the normal, `reflect_dot_eye` the cosine
/// between the reflected light and the direction to the eye. A point in
/// shadow, or with the light behind its surface, receives neither term; the
/// specular term also needs the reflection to point towards the eye.
pub fn lighting_terms(in_shadow: bool, light_dot_normal: &Scalar, reflect_dot_eye: &Scalar) -> (terms:
    LightingTerms)
    ensures
        terms.diffuse == (!in_shadow && !light_dot_normal.less(Scalar { bits: 0 })),
        terms.specular == (terms.diffuse && !reflect_dot_eye.at_most(Scalar { bits: 0 })),
{
    let zero = Scalar::zero();
    let diffuse: bool = !in_shadow && !light_dot_normal.lt(&zero);
    let specular: bool = diffuse && !reflect_dot_eye.le(&zero);
    LightingTerms { diffuse, specular }
}

} // verus!
