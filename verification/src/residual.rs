//! The residual family and Rule C, the implication relation between residual
//! certificates.
//!
//! The relation admits exactly the identity (`Equivalent`) and `R2 ⊒ R1`
//! (`Stronger`); every other ordered pair, in particular anything involving
//! `R7`, `R8` or `R9` with a different residual, is `None`.

use vstd::prelude::*;

verus! {

/// A residual of the certificate family. `Carrier` is the carrier-geometry
/// residual; the A/B chart variants of `R6` are one id.
#[derive(Debug, Clone, Copy, PartialEq, Eq, Hash, Structural)]
pub enum ResidualId {
    /// The R1 residual.
    R1,
    /// The R2 residual.
    R2,
    /// The R3 residual.
    R3,
    /// The R4 residual.
    R4,
    /// The R4′ residual.
    R4Prime,
    /// The R5 residual.
    R5,
    /// The R6 residual (the A/B chart variants are one id).
    R6,
    /// The R7 residual.
    R7,
    /// The R8 residual.
    R8,
    /// The R9 residual.
    R9,
    /// The carrier-geometry residual.
    Carrier,
}

/// The Rule C implication between two residuals.
#[derive(Debug, Clone, Copy, PartialEq, Eq, Structural)]
pub enum Implication {
    /// The residuals are the same certificate.
    Equivalent,
    /// Certifying the first residual strictly certifies the second.
    Stronger,
    /// No implication holds between the two residuals.
    NotImplied,
}

/// Rule C as a mathematical relation.
pub open spec fn implication_spec(stronger: ResidualId, weaker: ResidualId) -> Implication {
    if stronger == ResidualId::R2 && weaker == ResidualId::R1 {
        Implication::Stronger
    } else if stronger == weaker {
        Implication::Equivalent
    } else {
        Implication::NotImplied
    }
}

/// Whether certifying `stronger` certifies `weaker` at all.
pub open spec fn residual_implies(stronger: ResidualId, weaker: ResidualId) -> bool {
    implication_spec(stronger, weaker) != Implication::NotImplied
}

/// Rule C: whether certifying `stronger` implies certifying `weaker`.
pub fn implication(stronger: ResidualId, weaker: ResidualId) -> (i: Implication)
    ensures
        i == implication_spec(stronger, weaker),
{
    match (stronger, weaker) {
        (ResidualId::R2, ResidualId::R1) => Implication::Stronger,
        (a, b) => {
            if a == b {
                Implication::Equivalent
            } else {
                Implication::NotImplied
            }
        },
    }
}

/// Every residual is equivalent to itself, and a residual is equivalent to
/// another one only when they are the same residual.
pub proof fn lemma_implication_equivalent_is_identity(a: ResidualId, b: ResidualId)
    ensures
        implication_spec(a, a) == Implication::Equivalent,
        implication_spec(a, b) == Implication::Equivalent <==> a == b,
{
}

/// The only strict implication is `R2 ⊒ R1`; in particular `R7`, `R8` and
/// `R9` imply no other residual and are implied by none.
pub proof fn lemma_implication_strict_only_r2_r1(a: ResidualId, b: ResidualId)
    ensures
        implication_spec(a, b) == Implication::Stronger <==> (a == ResidualId::R2 && b
            == ResidualId::R1),
        (a == ResidualId::R7 || a == ResidualId::R8 || a == ResidualId::R9 || b == ResidualId::R7
            || b == ResidualId::R8 || b == ResidualId::R9) && a != b ==> implication_spec(a, b)
            == Implication::NotImplied,
{
}

/// Rule C is a partial order on residuals: reflexive, antisymmetric and
/// transitive, so identifying certificates through a common weaker residual
/// never creates a cycle of strict implications.
pub proof fn lemma_implication_partial_order(a: ResidualId, b: ResidualId, c: ResidualId)
    ensures
        residual_implies(a, a),
        residual_implies(a, b) && residual_implies(b, a) ==> a == b,
        residual_implies(a, b) && residual_implies(b, c) ==> residual_implies(a, c),
{
}

} // verus!
