//! What the tracing decisions read of a shape: who it is and how it treats
//! light at its surface.

use crate::geometry::Vec4;
use crate::scalar::Scalar;
use crate::util::max_f32;
use crate::util::max_of;
use crate::util::min_f32;
use crate::util::min_of;
use vstd::prelude::*;

verus! {

/// The stable identity of a shape. Shapes are compared by identity alone,
/// never ordered.
#[derive(Clone, Copy, Debug, PartialEq, Eq, Structural)]
pub struct ShapeId {
    pub value: u128,
}

/// Whether a 128-bit value carries the marks of a randomly drawn identifier:
/// version 4 in bits 76 to 79 and the variant `10` in bits 62 and 63.
pub open spec fn random_marks(value: u128) -> bool {
    (value >> 76) & 0xf == 4 && (value >> 62) & 0x3 == 2
}

/// Draws an identifier with `uuid::Uuid::new_v4` and hands it out as the
/// integer that `Uuid::as_u128` gives. The bits are drawn from the operating
/// system's random source, so nothing is claimed of them but the version and
/// variant marks that `new_v4` always sets; two calls may return anything,
/// the same value too. Where the system has no random bytes to give,
/// `new_v4` panics and this does not return. Not proved: believed of the
/// uuid crate.
#[verifier::external_body]
fn random_id() -> (value: u128)
    ensures
        random_marks(value),
{
    uuid::Uuid::new_v4().as_u128()
}

impl ShapeId {
    /// A fresh identity.
    pub fn fresh() -> (id: ShapeId)
        ensures
            random_marks(id.value),
    {
        ShapeId { value: random_id() }
    }
}

/// A shape as the tracing decisions see it.
#[derive(Clone, Copy, Debug, PartialEq, Eq, Structural)]
pub struct Surface {
    pub id: ShapeId,
    /// How much of the reflected colour the surface adds, in `[0, 1]`.
    pub reflective: Scalar,
    /// How much of the refracted colour the surface adds, in `[0, 1]`.
    pub transparency: Scalar,
    /// The refractive index of what the shape is made of.
    pub refraction: Scalar,
}

impl Surface {
    /// A surface with the given optics and an identity of its own.
    pub fn new(reflective: Scalar, transparency: Scalar, refraction: Scalar) -> (surface: Surface)
        ensures
            surface.reflective == reflective,
            surface.transparency == transparency,
            surface.refraction == refraction,
            random_marks(surface.id.value),
    {
        Surface { id: ShapeId::fresh(), reflective, transparency, refraction }
    }

    pub fn id(&self) -> (id: &ShapeId)
        ensures
            *id == self.id,
    {
        &self.id
    }

    /// Whether both are the same shape.
    pub fn is(&self, other: &Surface) -> (same: bool)
        ensures
            same == (self.id == other.id),
    {
        self.id == other.id
    }
}

/// One of the three axes of space.
#[derive(Clone, Copy, Debug, PartialEq, Eq, Structural)]
pub enum Axis {
    X,
    Y,
    Z,
}

/// The stretch of a ray inside the cube, from the stretches `x`, `y` and `z`
/// of it between the two faces across each axis, each given as where it
/// begins and where it ends: from the last beginning to the first end, and
/// nothing where that end comes before that beginning.
pub open spec fn common_stretch(x: (Scalar, Scalar), y: (Scalar, Scalar), z: (Scalar, Scalar))
    -> Option<(Scalar, Scalar)> {
    let tmin = max_of(seq![x.0, y.0, z.0]);
    let tmax = min_of(seq![x.1, y.1, z.1]);
    if tmax.less(tmin) {
        None
    } else {
        Some((tmin, tmax))
    }
}

/// Where a ray enters and leaves the cube, if it meets it at all.
pub fn cube_interval(x: (Scalar, Scalar), y: (Scalar, Scalar), z: (Scalar, Scalar)) -> (r: Option<
    (Scalar, Scalar),
>)
    ensures
        r == common_stretch(x, y, z),
{
    let mut begins: Vec<Scalar> = Vec::new();
    begins.push(x.0);
    begins.push(y.0);
    begins.push(z.0);
    let mut ends: Vec<Scalar> = Vec::new();
    ends.push(x.1);
    ends.push(y.1);
    ends.push(z.1);
    proof {
        assert(begins@ =~= seq![x.0, y.0, z.0]);
        assert(ends@ =~= seq![x.1, y.1, z.1]);
    }
    match (max_f32(&begins), min_f32(&ends)) {
        (Some(tmin), Some(tmax)) => {
            if tmax.lt(&tmin) {
                None
            } else {
                Some((tmin, tmax))
            }
        },
        _ => None,
    }
}

/// The axis across the face of the cube that `point` lies on: that of its
/// coordinate furthest from zero, `x` before `y` before `z`.
pub open spec fn furthest_axis(point: Vec4) -> Axis {
    let x = point.elements@[0].absolute();
    let y = point.elements@[1].absolute();
    let z = point.elements@[2].absolute();
    let furthest = max_of(seq![x, y, z]);
    if furthest.same(x) {
        Axis::X
    } else if furthest.same(y) {
        Axis::Y
    } else {
        Axis::Z
    }
}

/// The axis along which the normal of the cube points at `point`.
pub fn cube_normal_axis(point: &Vec4) -> (axis: Axis)
    ensures
        axis == furthest_axis(*point),
{
    let x: Scalar = point.x().abs();
    let y: Scalar = point.y().abs();
    let z: Scalar = point.z().abs();
    let mut all: Vec<Scalar> = Vec::new();
    all.push(x);
    all.push(y);
    all.push(z);
    proof {
        assert(all@ =~= seq![x, y, z]);
    }
    match max_f32(&all) {
        Some(furthest) => {
            if furthest.same_value(&x) {
                Axis::X
            } else if furthest.same_value(&y) {
                Axis::Y
            } else {
                Axis::Z
            }
        },
        None => Axis::Z,
    }
}

} // verus!
