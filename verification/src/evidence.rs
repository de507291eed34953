//! The claim/refusal algebra and the refusal taxonomy.
//!
//! A proposition about an existing object is `Proven`, `Disproven` or
//! `Inconclusive` ([`ClaimVerdict`]); an attempt to construct an object either
//! yields the object or a [`Refusal`] ([`Construction`]). Every refusal names
//! its [`RefusalKind`] and the [`VerdictClass`] that backs it.

use vstd::prelude::*;

verus! {

/// A proposition about an object that already exists: certified true,
/// certified false, or left undecided.
#[derive(Debug, Clone)]
pub enum ClaimVerdict<T, E, R> {
    /// The proposition is certified true.
    Proven(T),
    /// The proposition is certified false; `E` is the refuting certificate.
    Disproven(E),
    /// The proposition is neither proven nor refuted; `R` names why.
    Inconclusive(R),
}

/// The outcome of an attempt to construct an object.
pub type Construction<T> = Result<T, Refusal>;

/// The verdict class a refusal lands in.
#[derive(Debug, Clone, Copy, PartialEq, Eq, Structural)]
pub enum VerdictClass {
    /// The claim is refuted: the construction disproves it.
    Disproven,
    /// The claim is not decidable from the current evidence.
    Inconclusive,
}

/// The refusal taxonomy.
#[derive(Debug, Clone, Copy, PartialEq, Eq, Hash, Structural)]
pub enum RefusalKind {
    /// The spine is not C1 at the certified join.
    SpineNotC1,
    /// The spine/frame construction ran into a singular frame.
    FrameSingular,
    /// The profile collapsed.
    ProfileCollapse,
    /// The profile correspondence between carriers mismatches.
    ProfileCorrespondenceMismatch,
    /// A model quantity is not finite where a finite value is required.
    NonFinite,
    /// A winding-number audit failed.
    WindingAuditFailed,
    /// A shared-topology request that is not dyadic.
    NonDyadicSharedRequest,
    /// The carrier surface is singular over the box.
    CarrierSingularity,
    /// The chart was exhausted before the step could be certified.
    ChartExhausted,
    /// The carrier is transcendental-only; no rational certification exists.
    TranscendentalCarrier,
    /// A weight (or required-positive quantity) degenerated to or through zero.
    WeightDegenerate,
    /// The deck traversal ceiling was hit.
    DeckExhausted,
    /// A conditioning bound was exceeded.
    Conditioning,
    /// The curve is tangential.
    TangentialCurve,
    /// A higher-order jet is required beyond the certified order.
    HighOrderJet,
    /// The start set is incomplete.
    IncompleteStartSet,
    /// An R5 enclosure failed to certify.
    R5EnclosureFailed,
    /// A trim/clip operation failed.
    TrimClipFailed,
    /// Two objects are near-overlapping; the exact-sheet claim is refuted.
    NearOverlap,
    /// The offset is degenerate.
    OffsetDegenerate,
    /// The offset swallowed its own tail.
    OffsetSwallowtail,
    /// A corner of the arrangement is unsolved.
    CornerUnsolved,
    /// A sliver or near-overlap prevents the certificate.
    SliverOrNearOverlap,
    /// A certified claim was refuted by the construction's own evidence.
    ClaimRefuted,
    /// The budget (depth/turns) was exhausted before the certificate closed.
    Budget,
}

/// The kinds whose default backing is `Inconclusive`: the certificate could
/// not be decided rather than being refuted.
pub open spec fn is_inconclusive_kind(kind: RefusalKind) -> bool {
    match kind {
        RefusalKind::DeckExhausted
        | RefusalKind::Conditioning
        | RefusalKind::TangentialCurve
        | RefusalKind::HighOrderJet
        | RefusalKind::IncompleteStartSet
        | RefusalKind::R5EnclosureFailed
        | RefusalKind::TrimClipFailed
        | RefusalKind::CornerUnsolved
        | RefusalKind::SliverOrNearOverlap
        | RefusalKind::Budget => true,
        _ => false,
    }
}

/// The default backing class of a refusal kind.
pub open spec fn backing_of(kind: RefusalKind) -> VerdictClass {
    if is_inconclusive_kind(kind) {
        VerdictClass::Inconclusive
    } else {
        VerdictClass::Disproven
    }
}

/// The default backing class of each [`RefusalKind`].
pub fn default_backing(kind: RefusalKind) -> (class: VerdictClass)
    ensures
        class == backing_of(kind),
{
    match kind {
        RefusalKind::DeckExhausted
        | RefusalKind::Conditioning
        | RefusalKind::TangentialCurve
        | RefusalKind::HighOrderJet
        | RefusalKind::IncompleteStartSet
        | RefusalKind::R5EnclosureFailed
        | RefusalKind::TrimClipFailed
        | RefusalKind::CornerUnsolved
        | RefusalKind::SliverOrNearOverlap
        | RefusalKind::Budget => VerdictClass::Inconclusive,
        RefusalKind::SpineNotC1
        | RefusalKind::FrameSingular
        | RefusalKind::ProfileCollapse
        | RefusalKind::ProfileCorrespondenceMismatch
        | RefusalKind::NonFinite
        | RefusalKind::WindingAuditFailed
        | RefusalKind::NonDyadicSharedRequest
        | RefusalKind::CarrierSingularity
        | RefusalKind::ChartExhausted
        | RefusalKind::TranscendentalCarrier
        | RefusalKind::WeightDegenerate
        | RefusalKind::NearOverlap
        | RefusalKind::OffsetDegenerate
        | RefusalKind::OffsetSwallowtail
        | RefusalKind::ClaimRefuted => VerdictClass::Disproven,
    }
}

/// A refusal of a certified construction or claim: its kind, the class that
/// backs it, and the stable (kebab/snake-case) name of the violated predicate.
#[derive(Debug, Clone)]
pub struct Refusal {
    /// The refusal kind.
    pub kind: RefusalKind,
    /// The backing class of this refusal.
    pub backing: VerdictClass,
    /// The stable, machine-readable name of the violated predicate.
    pub predicate: &'static str,
}

impl Refusal {
    /// Build a refusal with the kind's default backing.
    pub fn new(kind: RefusalKind, predicate: &'static str) -> (r: Refusal)
        ensures
            r.kind == kind,
            r.backing == backing_of(kind),
            r.predicate == predicate,
    {
        let backing = default_backing(kind);
        Refusal { kind, backing, predicate }
    }

    /// Build a refusal with an explicit backing class (for the kinds that
    /// legitimately split between the two classes).
    pub fn with_backing(kind: RefusalKind, backing: VerdictClass, predicate: &'static str) -> (r:
        Refusal)
        ensures
            r.kind == kind,
            r.backing == backing,
            r.predicate == predicate,
    {
        Refusal { kind, backing, predicate }
    }
}

/// Whether `r` is a default-backed refusal of kind `kind` for the predicate
/// named `name`.
pub open spec fn is_refusal(r: Refusal, kind: RefusalKind, name: &'static str) -> bool {
    &&& r.kind == kind
    &&& r.backing == backing_of(kind)
    &&& r.predicate@ == name@
}

} // verus!
