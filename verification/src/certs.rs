//! The certificate vocabulary that carries no numeric payload, and the tube
//! certificate's residual gate: R2 never reaches the C2 tube certificate.

use vstd::prelude::*;
use crate::evidence::{Refusal, RefusalKind, VerdictClass};
use crate::residual::ResidualId;

verus! {

/// The kind of a sheet's parameter map.
#[derive(Debug, Clone, Copy, PartialEq, Eq, Structural)]
pub enum PsiMapKind {
    /// The identity map.
    Identity,
    /// An affine map.
    Affine,
    /// A bilinear map.
    Bilinear,
    /// A map recognized from the carriers.
    RecognizedCarrier,
}

/// The residual gate of the arc (tube) certificate: an arc certificate whose
/// residual is `R2` refuses `Conditioning`, backed `Inconclusive`, under
/// `R2_never_reaches_C2`; every other residual is admitted.
pub fn tube_residual_gate(residual: ResidualId) -> (res: Result<(), Refusal>)
    ensures
        res is Err <==> residual == ResidualId::R2,
        res matches Err(r) ==> r.kind == RefusalKind::Conditioning && r.backing
            == VerdictClass::Inconclusive && r.predicate@ == "R2_never_reaches_C2"@,
{
    if residual == ResidualId::R2 {
        return Err(
            Refusal::with_backing(
                RefusalKind::Conditioning,
                VerdictClass::Inconclusive,
                "R2_never_reaches_C2",
            ),
        );
    }
    Ok(())
}

} // verus!
