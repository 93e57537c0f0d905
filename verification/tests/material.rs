use tracer::material::lighting_terms;
use tracer::material::LightingTerms;
use tracer::scalar::Scalar;

fn cosine(x: f32) -> Scalar {
    Scalar::from_bits(x.to_bits())
}

#[test]
fn lit_point_with_the_eye_in_the_reflection_gets_both_terms() {
    let terms = lighting_terms(false, &cosine(0.7071), &cosine(1.0));
    assert_eq!(terms, LightingTerms { diffuse: true, specular: true });
}

#[test]
fn eye_away_from_the_reflection_gets_no_highlight() {
    let terms = lighting_terms(false, &cosine(0.7071), &cosine(0.0));
    assert_eq!(terms, LightingTerms { diffuse: true, specular: false });
    let terms = lighting_terms(false, &cosine(1.0), &cosine(-0.7071));
    assert_eq!(terms, LightingTerms { diffuse: true, specular: false });
}

#[test]
fn light_behind_the_surface_leaves_the_ambient_term() {
    let terms = lighting_terms(false, &cosine(-1.0), &cosine(1.0));
    assert_eq!(terms, LightingTerms { diffuse: false, specular: false });
}

#[test]
fn light_along_the_surface_still_counts() {
    let terms = lighting_terms(false, &cosine(0.0), &cosine(0.5));
    assert_eq!(terms, LightingTerms { diffuse: true, specular: true });
}

#[test]
fn shadow_leaves_the_ambient_term() {
    let terms = lighting_terms(true, &cosine(1.0), &cosine(1.0));
    assert_eq!(terms, LightingTerms { diffuse: false, specular: false });
}
