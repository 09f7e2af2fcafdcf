use concinnity_gfx::csm::empty_shadow_uniforms;

#[test]
fn empty_uniforms_have_infinite_splits() {
    let u = empty_shadow_uniforms();
    for s in &u.cascade_splits {
        assert!(f32::from_bits(s.bits).is_infinite());
    }
}

#[test]
fn empty_uniforms_have_identity_matrices() {
    let u = empty_shadow_uniforms();
    assert_eq!(u.light_vps.len(), 4);
    for m in &u.light_vps {
        for c in 0..4 {
            for r in 0..4 {
                let want = if c == r { 1.0 } else { 0.0 };
                assert_eq!(f32::from_bits(m[c][r].bits), want);
            }
        }
    }
}
