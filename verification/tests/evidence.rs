use truck_certified::evidence::{default_backing, ClaimVerdict, Refusal, RefusalKind, VerdictClass};

const ALL_KINDS: [RefusalKind; 25] = [
    RefusalKind::SpineNotC1,
    RefusalKind::FrameSingular,
    RefusalKind::ProfileCollapse,
    RefusalKind::ProfileCorrespondenceMismatch,
    RefusalKind::NonFinite,
    RefusalKind::WindingAuditFailed,
    RefusalKind::NonDyadicSharedRequest,
    RefusalKind::CarrierSingularity,
    RefusalKind::ChartExhausted,
    RefusalKind::TranscendentalCarrier,
    RefusalKind::WeightDegenerate,
    RefusalKind::DeckExhausted,
    RefusalKind::Conditioning,
    RefusalKind::TangentialCurve,
    RefusalKind::HighOrderJet,
    RefusalKind::IncompleteStartSet,
    RefusalKind::R5EnclosureFailed,
    RefusalKind::TrimClipFailed,
    RefusalKind::NearOverlap,
    RefusalKind::OffsetDegenerate,
    RefusalKind::OffsetSwallowtail,
    RefusalKind::CornerUnsolved,
    RefusalKind::SliverOrNearOverlap,
    RefusalKind::ClaimRefuted,
    RefusalKind::Budget,
];

#[test]
fn backing_table_has_exactly_ten_inconclusive_kinds() {
    let inconclusive: Vec<RefusalKind> = ALL_KINDS
        .iter()
        .copied()
        .filter(|k| default_backing(*k) == VerdictClass::Inconclusive)
        .collect();
    assert_eq!(
        inconclusive,
        vec![
            RefusalKind::DeckExhausted,
            RefusalKind::Conditioning,
            RefusalKind::TangentialCurve,
            RefusalKind::HighOrderJet,
            RefusalKind::IncompleteStartSet,
            RefusalKind::R5EnclosureFailed,
            RefusalKind::TrimClipFailed,
            RefusalKind::CornerUnsolved,
            RefusalKind::SliverOrNearOverlap,
            RefusalKind::Budget,
        ]
    );
    assert_eq!(default_backing(RefusalKind::NearOverlap), VerdictClass::Disproven);
    assert_eq!(default_backing(RefusalKind::WeightDegenerate), VerdictClass::Disproven);
    assert_eq!(default_backing(RefusalKind::ClaimRefuted), VerdictClass::Disproven);
}

#[test]
fn refusal_new_takes_the_default_backing() {
    for kind in ALL_KINDS {
        let r = Refusal::new(kind, "some_predicate");
        assert_eq!(r.kind, kind);
        assert_eq!(r.backing, default_backing(kind));
        assert_eq!(r.predicate, "some_predicate");
    }
}

#[test]
fn refusal_with_backing_overrides_the_class() {
    let r = Refusal::with_backing(
        RefusalKind::WeightDegenerate,
        VerdictClass::Inconclusive,
        "weight_straddles_zero",
    );
    assert_eq!(r.kind, RefusalKind::WeightDegenerate);
    assert_eq!(r.backing, VerdictClass::Inconclusive);
    assert_eq!(r.predicate, "weight_straddles_zero");
}

#[test]
fn claim_verdict_carries_its_payload() {
    let v: ClaimVerdict<u32, (), &str> = ClaimVerdict::Proven(7);
    assert!(matches!(v, ClaimVerdict::Proven(7)));
    let v: ClaimVerdict<u32, (), &str> = ClaimVerdict::Inconclusive("why");
    assert!(matches!(v, ClaimVerdict::Inconclusive("why")));
}
