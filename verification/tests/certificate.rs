use ferralloy::certificate::{
    check_header, system_kind, EnergyFault, HeaderError, LevelOutcome, Refinement, SystemKind, BOX_CAP,
    MAX_DEPTH,
};

const KIND: &str = "lyapunov-ternary-taylor-crown";
const SYSTEM: &str = "saturated-hybrid-wall-contact";

/// The ternary weights of the certified saturated-hybrid energy.
fn certified_t() -> Vec<i8> {
    vec![-1, 0, -1, 0, 0, 0, -1, -1, -1, 0, 1, 1, 1, 0, 0, 0]
}

#[test]
fn unknown_system_rejected() {
    let t = certified_t();
    match check_header(KIND, "some-other-robot", 8, 8, &t) {
        Err(HeaderError::System(s)) => assert_eq!(s, "some-other-robot"),
        other => panic!("expected System, got {other:?}"),
    }
}

#[test]
fn certified_header_is_accepted() {
    let t = certified_t();
    assert!(matches!(check_header(KIND, SYSTEM, 8, 8, &t), Ok(SystemKind::SaturatedHybridWallContact)));
}

#[test]
fn unknown_kind_rejected_first() {
    let t = certified_t();
    match check_header("sos-dreal", "some-other-robot", 0, 3, &t) {
        Err(HeaderError::Kind(k)) => assert_eq!(k, "sos-dreal"),
        other => panic!("expected Kind, got {other:?}"),
    }
}

#[test]
fn inconsistent_lengths_rejected() {
    let t = certified_t();
    let lengths = |b1: usize, w2: usize, t: &[i8]| match check_header(KIND, SYSTEM, b1, w2, t) {
        Err(HeaderError::Energy(EnergyFault::Lengths { b1, w2, t })) => Some((b1, w2, t)),
        _ => None,
    };
    assert_eq!(lengths(0, 1, &[]), Some((0, 1, 0)));
    assert_eq!(lengths(8, 7, &t), Some((8, 7, 16)));
    assert_eq!(lengths(8, 8, &t[..15]), Some((8, 8, 15)));
    assert_eq!(lengths(7, 7, &t), Some((7, 7, 16)));
}

#[test]
fn empty_head_is_the_pure_quadratic() {
    assert!(matches!(
        check_header(KIND, "linear-double-integrator", 0, 0, &[]),
        Ok(SystemKind::LinearDoubleIntegrator)
    ));
    assert!(matches!(check_header(KIND, SYSTEM, 0, 0, &[]), Ok(SystemKind::SaturatedHybridWallContact)));
}

#[test]
fn non_ternary_weight_rejected() {
    let mut t = certified_t();
    t[5] = 2;
    assert!(matches!(check_header(KIND, SYSTEM, 8, 8, &t), Err(HeaderError::Energy(EnergyFault::NotTernary))));
    t[5] = -128;
    assert!(matches!(check_header(KIND, SYSTEM, 8, 8, &t), Err(HeaderError::Energy(EnergyFault::NotTernary))));
}

#[test]
fn system_registry() {
    assert_eq!(system_kind(SYSTEM), Some(SystemKind::SaturatedHybridWallContact));
    assert_eq!(system_kind("linear-double-integrator"), Some(SystemKind::LinearDoubleIntegrator));
    assert_eq!(system_kind("saturated-double-integrator"), Some(SystemKind::SaturatedDoubleIntegrator));
    assert_eq!(system_kind("reversed-van-der-pol"), Some(SystemKind::ReversedVanDerPol));
    assert_eq!(system_kind("reversed-van-der-pol "), None);
    assert_eq!(system_kind("some-other-robot"), None);
    assert_eq!(system_kind(""), None);
}

#[test]
fn level_without_failures_certifies() {
    let mut r = Refinement::start();
    assert_eq!(r.close_level(1486, 0), LevelOutcome::Certified);
    assert_eq!(r, Refinement { certified: 1486, depth: 0 });
}

#[test]
fn failing_levels_refine_then_certify() {
    let mut r = Refinement::start();
    assert_eq!(r.close_level(1000, 12), LevelOutcome::Refine);
    assert_eq!(r.close_level(40, 3), LevelOutcome::Refine);
    assert_eq!(r.close_level(12, 0), LevelOutcome::Certified);
    assert_eq!(r, Refinement { certified: 1052, depth: 2 });
}

#[test]
fn refinement_stops_at_the_deepest_level() {
    let mut r = Refinement::start();
    let mut levels = 0;
    loop {
        levels += 1;
        match r.close_level(1, 1) {
            LevelOutcome::Refine => {}
            LevelOutcome::Refuted => break,
            LevelOutcome::Certified => unreachable!(),
        }
    }
    assert_eq!(levels, MAX_DEPTH as usize + 1);
    assert_eq!(r.depth, MAX_DEPTH);
}

#[test]
fn too_many_failures_refute() {
    let mut r = Refinement::start();
    assert_eq!(r.close_level(0, BOX_CAP + 1), LevelOutcome::Refuted);
    assert_eq!(r.depth, 0);
    let mut r = Refinement::start();
    assert_eq!(r.close_level(0, BOX_CAP), LevelOutcome::Refine);
}
