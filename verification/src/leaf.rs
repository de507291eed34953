//! The leaf vocabulary: the rational carrier family and the structural
//! (degree / control-count) admission of Bézier control nets.

use vstd::prelude::*;
use crate::evidence::{is_refusal, Refusal, RefusalKind};

verus! {

/// The rational carrier family.
#[derive(Debug, Clone, Copy, PartialEq, Eq, Structural)]
pub enum RationalCarrierKind {
    /// A planar carrier.
    Plane,
    /// A spherical carrier.
    Sphere,
    /// A cylindrical carrier.
    Cylinder,
    /// A conical carrier.
    Cone,
    /// A toroidal carrier.
    Torus,
}

/// The structural admission of a tensor-product control net of bidegree
/// `(degree_u, degree_v)` holding `count` control points: both degrees must be
/// positive (refused under `zero_degree`), and the net must hold exactly
/// `(degree_u + 1)·(degree_v + 1)` points (refused under `count_mismatch`).
/// Both refusals are `ClaimRefuted`.
pub fn net_shape(
    degree_u: usize,
    degree_v: usize,
    count: usize,
    zero_degree: &'static str,
    count_mismatch: &'static str,
) -> (res: Result<(), Refusal>)
    requires
        degree_u > 0 && degree_v > 0 ==> (degree_u + 1) * (degree_v + 1) <= usize::MAX,
    ensures
        res is Ok <==> (degree_u > 0 && degree_v > 0 && count == (degree_u + 1) * (degree_v + 1)),
        res matches Err(r) ==> (if degree_u == 0 || degree_v == 0 {
            is_refusal(r, RefusalKind::ClaimRefuted, zero_degree)
        } else {
            is_refusal(r, RefusalKind::ClaimRefuted, count_mismatch)
        }),
{
    if degree_u == 0 || degree_v == 0 {
        return Err(Refusal::new(RefusalKind::ClaimRefuted, zero_degree));
    }
    proof {
        assert(degree_u + 1 <= (degree_u + 1) * (degree_v + 1)) by (nonlinear_arith)
            requires
                degree_v > 0,
        ;
        assert(degree_v + 1 <= (degree_u + 1) * (degree_v + 1)) by (nonlinear_arith)
            requires
                degree_u > 0,
        ;
    }
    let expected = (degree_u + 1) * (degree_v + 1);
    if count != expected {
        return Err(Refusal::new(RefusalKind::ClaimRefuted, count_mismatch));
    }
    Ok(())
}

/// The structural admission of a surface leaf (the leaf constructor and the
/// residual constructors re-run it): `bezier_zero_degree`, then
/// `bezier_control_count_mismatch`.
pub fn surface_leaf_shape(degree_u: usize, degree_v: usize, count: usize) -> (res: Result<
    (),
    Refusal,
>)
    requires
        degree_u > 0 && degree_v > 0 ==> (degree_u + 1) * (degree_v + 1) <= usize::MAX,
    ensures
        res is Ok <==> (degree_u > 0 && degree_v > 0 && count == (degree_u + 1) * (degree_v + 1)),
        res matches Err(r) ==> (if degree_u == 0 || degree_v == 0 {
            is_refusal(r, RefusalKind::ClaimRefuted, "bezier_zero_degree")
        } else {
            is_refusal(r, RefusalKind::ClaimRefuted, "bezier_control_count_mismatch")
        }),
{
    net_shape(degree_u, degree_v, count, "bezier_zero_degree", "bezier_control_count_mismatch")
}

} // verus!
