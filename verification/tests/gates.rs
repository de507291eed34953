use truck_certified::atlas::{chart_index, degeneracy_route, lift_deck_ceiling, DegeneracyRoute};
use truck_certified::canal::{canal_sides, dir_field_indices, SideSign};
use truck_certified::certs::tube_residual_gate;
use truck_certified::contact::{contact_claim, kind_of_sign, SignCert};
use truck_certified::engine::{combine_inclusions, Inclusion};
use truck_certified::evidence::{ClaimVerdict, RefusalKind, VerdictClass};
use truck_certified::graph::{ChartId, TopoNode};
use truck_certified::leaf::{net_shape, surface_leaf_shape, RationalCarrierKind};
use truck_certified::promote::{
    knot_multiplicity, promote_deck_ceiling, tangency_gate, trim_events_gate, EventCert,
    KnotClass, TangencyOptIn,
};
use truck_certified::rational::carrier_admission;
use truck_certified::residual::ResidualId;
use truck_certified::residuals_r89::{curve_leaf_shape, r9_one_chart, CurveCarrierKind};

#[test]
fn degeneracy_routes_to_the_partner_only_when_certified() {
    let target = ChartId(2);
    assert_eq!(
        degeneracy_route(true, Some(target), true),
        DegeneracyRoute::SwitchChart { target }
    );
    assert_eq!(degeneracy_route(true, Some(target), false), DegeneracyRoute::CarrierSingular);
    assert_eq!(degeneracy_route(true, None, true), DegeneracyRoute::CarrierSingular);
    assert_eq!(degeneracy_route(false, Some(target), true), DegeneracyRoute::CarrierSingular);
}

#[test]
fn chart_lookup_finds_the_first_matching_id() {
    let charts = [ChartId(5), ChartId(7), ChartId(7)];
    assert_eq!(chart_index(&charts, ChartId(7)), Some(1));
    assert_eq!(chart_index(&charts, ChartId(5)), Some(0));
    assert_eq!(chart_index(&charts, ChartId(6)), None);
}

#[test]
fn lift_deck_ceiling_is_per_edge() {
    assert!(lift_deck_ceiling(0, 8).is_ok());
    assert!(lift_deck_ceiling(-3, 5).is_ok());
    assert!(lift_deck_ceiling(i32::MIN, i32::MIN + 8).is_ok());
    let r = lift_deck_ceiling(0, -9).expect_err("nine decks");
    assert_eq!(r.kind, RefusalKind::DeckExhausted);
    assert_eq!(r.backing, VerdictClass::Inconclusive);
    assert_eq!(r.predicate, "deck_exhausted_lift");
    assert!(lift_deck_ceiling(i32::MIN, i32::MAX).is_err());
}

#[test]
fn side_sign_pair_and_canal_sides() {
    assert_eq!(SideSign { s1: 1, s2: -1 }.pair(), (1, -1));
    assert!(dir_field_indices(1, -1).is_ok());
    assert!(dir_field_indices(2, 1).is_ok());
    assert_eq!(
        dir_field_indices(3, 1).expect_err("face").predicate,
        "dir_field_face_out_of_range"
    );
    assert_eq!(
        dir_field_indices(1, 0).expect_err("sigma").predicate,
        "dir_field_sigma_out_of_range"
    );
    assert!(canal_sides((1, -1), (1, 2), (1, -1)).is_ok());
    assert_eq!(
        canal_sides((2, -1), (1, 2), (2, -1)).expect_err("s1").predicate,
        "canal_sigma1_out_of_range"
    );
    assert_eq!(
        canal_sides((1, 0), (1, 2), (1, 0)).expect_err("s2").predicate,
        "canal_sigma2_out_of_range"
    );
    assert_eq!(
        canal_sides((1, 1), (2, 1), (1, 1)).expect_err("order").predicate,
        "canal_contact_face_order"
    );
    let r = canal_sides((1, 1), (1, 2), (1, -1)).expect_err("mismatch");
    assert_eq!(r.predicate, "canal_contact_sigma_mismatch");
    assert_eq!(r.kind, RefusalKind::ClaimRefuted);
}

#[test]
fn r2_never_reaches_the_tube_certificate() {
    let r = tube_residual_gate(ResidualId::R2).expect_err("R2 is banned");
    assert_eq!(r.kind, RefusalKind::Conditioning);
    assert_eq!(r.backing, VerdictClass::Inconclusive);
    assert_eq!(r.predicate, "R2_never_reaches_C2");
    for id in [ResidualId::R1, ResidualId::R7, ResidualId::R6, ResidualId::Carrier] {
        assert!(tube_residual_gate(id).is_ok());
    }
}

#[test]
fn hessian_sign_classifies_the_contact() {
    assert_eq!(kind_of_sign(SignCert::Positive), TopoNode::MorseExtremum);
    assert_eq!(kind_of_sign(SignCert::Negative), TopoNode::MorseSaddle);
    assert_eq!(kind_of_sign(SignCert::Zero), TopoNode::A2Cusp);
}

#[test]
fn contact_claim_is_three_valued() {
    match contact_claim(Some(3u8), true, true, Some(SignCert::Negative)) {
        ClaimVerdict::Proven((p, s)) => {
            assert_eq!(p, 3);
            assert_eq!(s, SignCert::Negative);
        }
        _ => panic!("expected a proven contact"),
    }
    assert!(matches!(
        contact_claim(Some(3u8), false, true, Some(SignCert::Positive)),
        ClaimVerdict::Disproven(())
    ));
    assert!(matches!(
        contact_claim(Some(3u8), true, false, Some(SignCert::Positive)),
        ClaimVerdict::Inconclusive("contact_gap_width_exceeds_tolerance")
    ));
    assert!(matches!(
        contact_claim::<u8>(None, true, true, Some(SignCert::Positive)),
        ClaimVerdict::Inconclusive("contact_critical_point_not_certified")
    ));
    assert!(matches!(
        contact_claim(Some(3u8), true, true, None),
        ClaimVerdict::Inconclusive("contact_high_order_jet_classification_refused")
    ));
}

#[test]
fn krawczyk_inclusion_combines_per_axis() {
    let (s, o, d) = (Inclusion::Strict, Inclusion::Overlap, Inclusion::Disjoint);
    assert_eq!(combine_inclusions(&[s, s]), s);
    assert_eq!(combine_inclusions(&[s, o]), o);
    assert_eq!(combine_inclusions(&[o, d, s]), d);
    assert_eq!(combine_inclusions(&[]), s);
}

#[test]
fn surface_and_curve_leaf_shapes() {
    assert!(surface_leaf_shape(2, 3, 12).is_ok());
    assert_eq!(
        surface_leaf_shape(0, 3, 4).expect_err("zero degree").predicate,
        "bezier_zero_degree"
    );
    let r = surface_leaf_shape(2, 2, 8).expect_err("nine points needed");
    assert_eq!(r.predicate, "bezier_control_count_mismatch");
    assert_eq!(r.kind, RefusalKind::ClaimRefuted);
    assert_eq!(
        net_shape(1, 1, 3, "claims_leaf_zero_degree", "claims_leaf_control_count_mismatch")
            .expect_err("four points needed")
            .predicate,
        "claims_leaf_control_count_mismatch"
    );
    assert!(curve_leaf_shape(3, CurveCarrierKind::Rational, 4).is_ok());
    assert_eq!(
        curve_leaf_shape(0, CurveCarrierKind::Transcendental, 1)
            .expect_err("zero degree first")
            .predicate,
        "bezier1_zero_degree"
    );
    let r = curve_leaf_shape(2, CurveCarrierKind::Transcendental, 3).expect_err("transcendental");
    assert_eq!(r.kind, RefusalKind::TranscendentalCarrier);
    assert_eq!(r.predicate, "r89_curve_transcendental_carrier");
    assert_eq!(
        curve_leaf_shape(2, CurveCarrierKind::Rational, 2)
            .expect_err("count")
            .predicate,
        "bezier1_control_count_mismatch"
    );
    assert_eq!(r9_one_chart(ChartId(1), ChartId(1)).expect("one chart"), ChartId(1));
    let r = r9_one_chart(ChartId(1), ChartId(2)).expect_err("two charts");
    assert_eq!(r.kind, RefusalKind::ChartExhausted);
    assert_eq!(r.predicate, "r9_requires_one_chart");
}

#[test]
fn carrier_admission_gate() {
    assert!(carrier_admission(RationalCarrierKind::Plane, false).is_ok());
    assert!(carrier_admission(RationalCarrierKind::Sphere, false).is_ok());
    assert!(carrier_admission(RationalCarrierKind::Cylinder, true).is_ok());
    let r = carrier_admission(RationalCarrierKind::Cylinder, false).expect_err("skew axis");
    assert_eq!(r.kind, RefusalKind::CarrierSingularity);
    assert_eq!(r.predicate, "cylinder_axis_not_coordinate_wave1");
    for kind in [RationalCarrierKind::Cone, RationalCarrierKind::Torus] {
        assert_eq!(
            carrier_admission(kind, true).expect_err("pending").predicate,
            "cone_torus_carrier_packet_pending"
        );
    }
}

#[test]
fn promotion_gates() {
    assert!(promote_deck_ceiling(-4, 4).is_ok());
    let r = promote_deck_ceiling(0, 9).expect_err("span nine");
    assert_eq!(r.kind, RefusalKind::DeckExhausted);
    assert_eq!(r.predicate, "promote_deck_max_exceeded");
    assert!(promote_deck_ceiling(9, 9).is_err());
    assert!(promote_deck_ceiling(-5, 4).is_err());

    let ok = [
        EventCert { class: KnotClass::Crossing, residual: ResidualId::R9 },
        EventCert { class: KnotClass::Cusp, residual: ResidualId::R1 },
    ];
    assert!(trim_events_gate(&ok).is_ok());
    let bad = [EventCert { class: KnotClass::Crossing, residual: ResidualId::R8 }];
    let r = trim_events_gate(&bad).expect_err("not R9");
    assert_eq!(r.kind, RefusalKind::ClaimRefuted);
    assert_eq!(r.predicate, "promote_trim_crossing_not_r9_certified");

    assert_eq!(knot_multiplicity(KnotClass::Crossing), 2);
    assert_eq!(knot_multiplicity(KnotClass::Cusp), 3);

    assert!(tangency_gate([false, false], TangencyOptIn::Refuse).is_ok());
    assert!(tangency_gate([true, false], TangencyOptIn::Admit).is_ok());
    let r = tangency_gate([false, true], TangencyOptIn::Refuse).expect_err("opt-in");
    assert_eq!(r.kind, RefusalKind::TangentialCurve);
    assert_eq!(r.backing, VerdictClass::Inconclusive);
    assert_eq!(r.predicate, "promote_tangency_at_tolerance_requires_opt_in");
}
