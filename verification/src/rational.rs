//! The admission gate of the rational carriers: which carrier families the
//! rational half-angle charts certify.

use vstd::prelude::*;
use crate::evidence::{is_refusal, Refusal, RefusalKind};
use crate::leaf::RationalCarrierKind;

verus! {

/// The admission gate of a carrier whose data is of family `family`: plane,
/// sphere, and cylinder carriers certify, except a cylinder whose axis is not
/// exactly a coordinate axis (an exactly rational circle frame would need a
/// transcendental normalization), which refuses under
/// `cylinder_axis_not_coordinate_wave1`; cone and torus carriers refuse under
/// `cone_torus_carrier_packet_pending`. Both refusals are
/// `CarrierSingularity`.
pub fn carrier_admission(family: RationalCarrierKind, axis_is_coordinate: bool) -> (res: Result<
    (),
    Refusal,
>)
    ensures
        res is Ok <==> (family == RationalCarrierKind::Plane || family == RationalCarrierKind::Sphere
            || (family == RationalCarrierKind::Cylinder && axis_is_coordinate)),
        res matches Err(r) ==> (if family == RationalCarrierKind::Cylinder {
            is_refusal(r, RefusalKind::CarrierSingularity, "cylinder_axis_not_coordinate_wave1")
        } else {
            is_refusal(r, RefusalKind::CarrierSingularity, "cone_torus_carrier_packet_pending")
        }),
{
    match family {
        RationalCarrierKind::Plane | RationalCarrierKind::Sphere => Ok(()),
        RationalCarrierKind::Cylinder => {
            if axis_is_coordinate {
                Ok(())
            } else {
                Err(
                    Refusal::new(
                        RefusalKind::CarrierSingularity,
                        "cylinder_axis_not_coordinate_wave1",
                    ),
                )
            }
        },
        RationalCarrierKind::Cone | RationalCarrierKind::Torus => Err(
            Refusal::new(RefusalKind::CarrierSingularity, "cone_torus_carrier_packet_pending"),
        ),
    }
}

} // verus!
