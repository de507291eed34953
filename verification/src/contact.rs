//! The isolated-contact classifier's decisions: the class a certified Hessian
//! sign gives (Corollary 10.2), and the three-valued contact claim.

use vstd::prelude::*;
use crate::evidence::ClaimVerdict;
use crate::graph::TopoNode;

verus! {

/// A certified sign.
#[derive(Debug, Clone, Copy, PartialEq, Eq, Structural)]
pub enum SignCert {
    /// Certified strictly positive.
    Positive,
    /// Certified strictly negative.
    Negative,
    /// Certified exactly zero.
    Zero,
}

/// The contact class of a certified Hessian determinant sign.
pub open spec fn kind_of_sign_spec(sign: SignCert) -> TopoNode {
    match sign {
        SignCert::Positive => TopoNode::MorseExtremum,
        SignCert::Negative => TopoNode::MorseSaddle,
        SignCert::Zero => TopoNode::A2Cusp,
    }
}

/// The contact class of a certified Hessian determinant sign: `det H > 0` is
/// an extremum, `det H < 0` a saddle, a certified zero an A2 cusp.
pub fn kind_of_sign(sign: SignCert) -> (kind: TopoNode)
    ensures
        kind == kind_of_sign_spec(sign),
{
    match sign {
        SignCert::Positive => TopoNode::MorseExtremum,
        SignCert::Negative => TopoNode::MorseSaddle,
        SignCert::Zero => TopoNode::A2Cusp,
    }
}

/// The three-valued contact claim over the certified quantities: a gap
/// enclosure that excludes zero disproves the contact (a separation); a gap
/// that contains zero but is wider than the contact tolerance, a missing
/// critical-point certificate, or an undecided Hessian sign are inconclusive
/// (in that order); otherwise the contact is proven at tolerance with the
/// critical point and the sign.
pub open spec fn contact_claim_spec<P>(
    critical: Option<P>,
    gap_contains_zero: bool,
    gap_within_tolerance: bool,
    sign: Option<SignCert>,
) -> ClaimVerdict<(P, SignCert), (), &'static str> {
    if !gap_contains_zero {
        ClaimVerdict::Disproven(())
    } else if !gap_within_tolerance {
        ClaimVerdict::Inconclusive("contact_gap_width_exceeds_tolerance")
    } else if critical is None {
        ClaimVerdict::Inconclusive("contact_critical_point_not_certified")
    } else if sign is None {
        ClaimVerdict::Inconclusive("contact_high_order_jet_classification_refused")
    } else {
        ClaimVerdict::Proven((critical->0, sign->0))
    }
}

/// The three-valued contact claim (see [`contact_claim_spec`]).
pub fn contact_claim<P>(
    critical: Option<P>,
    gap_contains_zero: bool,
    gap_within_tolerance: bool,
    sign: Option<SignCert>,
) -> (v: ClaimVerdict<(P, SignCert), (), &'static str>)
    ensures
        v == contact_claim_spec(critical, gap_contains_zero, gap_within_tolerance, sign),
        v is Disproven <==> !gap_contains_zero,
        v is Proven <==> (gap_contains_zero && gap_within_tolerance && critical is Some
            && sign is Some),
        v matches ClaimVerdict::Proven(found) ==> found == (critical->0, sign->0),
{
    if !gap_contains_zero {
        return ClaimVerdict::Disproven(());
    }
    if !gap_within_tolerance {
        return ClaimVerdict::Inconclusive("contact_gap_width_exceeds_tolerance");
    }
    let point = match critical {
        Some(point) => point,
        None => return ClaimVerdict::Inconclusive("contact_critical_point_not_certified"),
    };
    let sign = match sign {
        Some(sign) => sign,
        None => return ClaimVerdict::Inconclusive("contact_high_order_jet_classification_refused"),
    };
    ClaimVerdict::Proven((point, sign))
}

/// The three certified Hessian signs give three different contact classes,
/// each an isolated-contact class: a definite Hessian (either sign) is a Morse
/// point, extremum exactly for the positive sign, and only the zero sign is
/// the degenerate A2 cusp.
pub proof fn lemma_kind_of_sign_laws(s: SignCert, t: SignCert)
    ensures
        kind_of_sign_spec(s) == kind_of_sign_spec(t) ==> s == t,
        kind_of_sign_spec(s) == TopoNode::A2Cusp <==> s == SignCert::Zero,
        kind_of_sign_spec(s) == TopoNode::MorseExtremum <==> s == SignCert::Positive,
        kind_of_sign_spec(s) == TopoNode::MorseSaddle <==> s == SignCert::Negative,
{
}

/// A gap enclosure that excludes zero is a certified separation: it
/// disproves the contact whatever the critical-point and Hessian-sign
/// certificates are, and only such a gap disproves it. The contact is proven
/// exactly when the gap contains zero within the tolerance and both the
/// critical point and the sign are certified, and the proof carries those two
/// certificates. Every other input is inconclusive, the reasons tried in the
/// order gap width, critical point, sign.
pub proof fn lemma_contact_claim_laws<P>(
    critical: Option<P>,
    gap_contains_zero: bool,
    gap_within_tolerance: bool,
    sign: Option<SignCert>,
)
    ensures
        ({
            let v = contact_claim_spec(critical, gap_contains_zero, gap_within_tolerance, sign);
            &&& (v is Disproven <==> !gap_contains_zero)
            &&& (v is Proven <==> (gap_contains_zero && gap_within_tolerance && critical is Some
                && sign is Some))
            &&& (v matches ClaimVerdict::Proven(found) ==> found == (critical->0, sign->0))
            &&& (gap_contains_zero && !gap_within_tolerance ==> v == ClaimVerdict::<
                (P, SignCert),
                (),
                &'static str,
            >::Inconclusive("contact_gap_width_exceeds_tolerance"))
            &&& (gap_contains_zero && gap_within_tolerance && critical is None ==> v
                == ClaimVerdict::<(P, SignCert), (), &'static str>::Inconclusive(
                "contact_critical_point_not_certified",
            ))
            &&& (gap_contains_zero && gap_within_tolerance && critical is Some && sign is None
                ==> v == ClaimVerdict::<(P, SignCert), (), &'static str>::Inconclusive(
                "contact_high_order_jet_classification_refused",
            ))
        }),
{
}

} // verus!
