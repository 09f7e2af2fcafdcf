use concinnity_gfx::float_bits::FloatBits;
use concinnity_gfx::hdr_output::{HdrEncoding, HdrOutputMode};

fn resolve(hdr: bool, pq: bool, max_edr: f32) -> HdrOutputMode {
    HdrOutputMode::resolve(hdr, pq, FloatBits::new(max_edr.to_bits()))
}

fn hdr(max_edr: f32, encoding: HdrEncoding) -> HdrOutputMode {
    HdrOutputMode::Hdr { max_edr: FloatBits::new(max_edr.to_bits()), encoding }
}

fn num(x: FloatBits) -> f32 {
    f32::from_bits(x.bits)
}

#[test]
fn sdr_request_always_resolves_to_sdr() {
    assert_eq!(resolve(false, false, 1.0), HdrOutputMode::Sdr);
    // An SDR request stays SDR even on a capable display.
    assert_eq!(resolve(false, false, 8.0), HdrOutputMode::Sdr);
    // The PQ flag is ignored when HDR itself is off.
    assert_eq!(resolve(false, true, 8.0), HdrOutputMode::Sdr);
}

#[test]
fn hdr_request_on_sdr_display_falls_back_to_sdr() {
    // Apple panels report exactly 1.0 on SDR displays; clamp at floor.
    assert_eq!(resolve(true, false, 1.0), HdrOutputMode::Sdr);
    assert_eq!(resolve(true, false, 0.5), HdrOutputMode::Sdr);
}

#[test]
fn hdr_request_on_capable_display_defaults_to_extended_linear() {
    match resolve(true, false, 2.0) {
        HdrOutputMode::Hdr { max_edr, encoding } => {
            assert!((num(max_edr) - 2.0).abs() < 1e-6);
            assert_eq!(encoding, HdrEncoding::ExtendedLinear);
        }
        other => panic!("expected Hdr, got {:?}", other),
    }
    assert!(resolve(true, false, 8.0).is_hdr());
}

#[test]
fn pq_request_on_capable_display_resolves_to_pq() {
    match resolve(true, true, 8.0) {
        HdrOutputMode::Hdr { max_edr, encoding } => {
            assert!((num(max_edr) - 8.0).abs() < 1e-6);
            assert_eq!(encoding, HdrEncoding::Pq);
        }
        other => panic!("expected Hdr/Pq, got {:?}", other),
    }
}

#[test]
fn non_finite_max_edr_falls_back_to_sdr() {
    assert_eq!(resolve(true, false, f32::NAN), HdrOutputMode::Sdr);
    assert_eq!(resolve(true, false, f32::INFINITY), HdrOutputMode::Sdr);
}

#[test]
fn shader_flag_matches_mode() {
    assert_eq!(num(HdrOutputMode::Sdr.shader_flag()), 0.0);
    assert_eq!(num(hdr(4.0, HdrEncoding::ExtendedLinear).shader_flag()), 1.0);
}

#[test]
fn pq_flag_is_set_only_on_the_pq_branch() {
    assert_eq!(num(HdrOutputMode::Sdr.pq_flag()), 0.0);
    assert_eq!(num(hdr(4.0, HdrEncoding::ExtendedLinear).pq_flag()), 0.0);
    assert_eq!(num(hdr(8.0, HdrEncoding::Pq).pq_flag()), 1.0);
}

#[test]
fn headroom_floor_is_inclusive() {
    assert!(resolve(true, false, 1.001).is_hdr());
    assert!(!resolve(true, false, 1.0009).is_hdr());
    assert!(!HdrOutputMode::Sdr.is_hdr());
}
