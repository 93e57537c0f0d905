use tracer::intersection::Intersection;
use tracer::scalar::Scalar;
use tracer::shape::ShapeId;
use tracer::shape::Surface;
use tracer::world::blocks_light;
use tracer::world::plan_shading;

fn degree(x: f32) -> Scalar {
    Scalar::from_bits(x.to_bits())
}

fn surface(reflective: f32, transparency: f32) -> Surface {
    Surface {
        id: ShapeId { value: 1 },
        reflective: degree(reflective),
        transparency: degree(transparency),
        refraction: degree(1.5),
    }
}

#[test]
fn matte_surface_traces_nothing_further() {
    let plan = plan_shading(&surface(0.0, 0.0), 5);
    assert!(plan.test_shadow);
    assert!(!plan.reflect);
    assert!(!plan.refract);
    assert!(!plan.blend);
    assert_eq!(plan.remaining, 4);
}

#[test]
fn mirror_traces_the_reflected_ray() {
    let plan = plan_shading(&surface(0.5, 0.0), 5);
    assert!(plan.test_shadow);
    assert!(plan.reflect);
    assert!(!plan.refract);
    assert!(!plan.blend);
}

#[test]
fn glass_traces_both_rays_and_blends() {
    let plan = plan_shading(&surface(0.8, 1.0), 5);
    assert!(!plan.test_shadow);
    assert!(plan.reflect);
    assert!(plan.refract);
    assert!(plan.blend);
    assert_eq!(plan.remaining, 4);
}

#[test]
fn half_transparent_surface_is_tested_for_shadow() {
    let plan = plan_shading(&surface(0.0, 0.5), 1);
    assert!(plan.test_shadow);
    assert!(!plan.reflect);
    assert!(plan.refract);
    assert!(!plan.blend);
    assert_eq!(plan.remaining, 0);
}

#[test]
fn no_bounce_left_traces_nothing() {
    let plan = plan_shading(&surface(0.8, 1.0), 0);
    assert!(!plan.reflect);
    assert!(!plan.refract);
    assert!(plan.blend);
    assert_eq!(plan.remaining, 0);
}

#[test]
fn negative_zero_reflectivity_is_no_reflection() {
    let plan = plan_shading(&surface(-0.0, -0.0), 5);
    assert!(!plan.reflect);
    assert!(!plan.refract);
}

#[test]
fn shadow_needs_a_hit_nearer_than_the_light() {
    let s = surface(0.0, 0.0);
    let near = Some(Intersection::new(s, degree(4.0)));
    let far = Some(Intersection::new(s, degree(40.0)));
    let distance = degree(17.320508);
    assert!(blocks_light(&near, &distance));
    assert!(!blocks_light(&far, &distance));
    assert!(!blocks_light(&None, &distance));
}
