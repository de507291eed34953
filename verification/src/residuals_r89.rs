//! The structural admission of the curve leaves consumed by the curve–surface
//! (R8) and curve–curve (R9) residuals.

use vstd::prelude::*;
use crate::evidence::{is_refusal, Refusal, RefusalKind};
use crate::graph::ChartId;

verus! {

/// The provenance of a curve leaf's source carrier: only rational
/// homogeneous leaves can be certified.
#[derive(Debug, Clone, Copy, PartialEq, Eq, Structural)]
pub enum CurveCarrierKind {
    /// The leaf is a rational homogeneous Bézier net (admitted).
    Rational,
    /// The leaf lifts a transcendental-only carrier; no rational
    /// certification is possible.
    Transcendental,
}

/// The structural admission of a curve leaf of `degree` holding `count`
/// control points from a source of kind `carrier`: a zero degree refuses
/// `bezier1_zero_degree`, a transcendental source refuses
/// `TranscendentalCarrier` under `r89_curve_transcendental_carrier`, and a
/// polygon that does not hold exactly `degree + 1` points refuses
/// `bezier1_control_count_mismatch`, in that order.
pub fn curve_leaf_shape(degree: usize, carrier: CurveCarrierKind, count: usize) -> (res: Result<
    (),
    Refusal,
>)
    requires
        degree > 0 ==> degree + 1 <= usize::MAX,
    ensures
        res is Ok <==> (degree > 0 && carrier == CurveCarrierKind::Rational && count == degree
            + 1),
        res matches Err(r) ==> (if degree == 0 {
            is_refusal(r, RefusalKind::ClaimRefuted, "bezier1_zero_degree")
        } else if carrier == CurveCarrierKind::Transcendental {
            is_refusal(r, RefusalKind::TranscendentalCarrier, "r89_curve_transcendental_carrier")
        } else {
            is_refusal(r, RefusalKind::ClaimRefuted, "bezier1_control_count_mismatch")
        }),
{
    if degree == 0 {
        return Err(Refusal::new(RefusalKind::ClaimRefuted, "bezier1_zero_degree"));
    }
    if carrier == CurveCarrierKind::Transcendental {
        return Err(
            Refusal::new(RefusalKind::TranscendentalCarrier, "r89_curve_transcendental_carrier"),
        );
    }
    if count != degree + 1 {
        return Err(Refusal::new(RefusalKind::ClaimRefuted, "bezier1_control_count_mismatch"));
    }
    Ok(())
}

/// The curve–curve residual certifies two curves in ONE lifted chart: leaves
/// in different charts refuse `ChartExhausted` under `r9_requires_one_chart`.
pub fn r9_one_chart(a: ChartId, b: ChartId) -> (res: Result<ChartId, Refusal>)
    ensures
        res is Ok <==> a == b,
        res matches Ok(c) ==> c == a,
        res matches Err(r) ==> is_refusal(r, RefusalKind::ChartExhausted, "r9_requires_one_chart"),
{
    if a != b {
        return Err(Refusal::new(RefusalKind::ChartExhausted, "r9_requires_one_chart"));
    }
    Ok(a)
}

} // verus!
