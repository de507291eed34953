//! The canal (rolling-ball fillet) side bookkeeping: the side sign of a
//! ball-center solution and the index/sign consistency of a canal's contact
//! direction fields.

use vstd::prelude::*;
use crate::evidence::{is_refusal, Refusal, RefusalKind};

verus! {

/// The certified side sign of a ball-center solution: the certified sign of
/// `Nᵢ·(c − Sᵢ)` for each parent face, recorded as data.
#[derive(Debug, Clone, Copy, PartialEq, Eq, Structural)]
pub struct SideSign {
    /// The certified sign for face `S₁`.
    pub s1: i8,
    /// The certified sign for face `S₂`.
    pub s2: i8,
}

impl SideSign {
    /// The `(σ₁, σ₂)` pair this side sign records.
    pub fn pair(&self) -> (p: (i8, i8))
        ensures
            p == (self.s1, self.s2),
    {
        (self.s1, self.s2)
    }
}

/// A side sign is `±1`.
pub open spec fn is_side(s: i8) -> bool {
    s == -1 || s == 1
}

/// The index/sign admission of one contact direction field: the parent face
/// is 1 or 2 (`dir_field_face_out_of_range`), then the side sign is `±1`
/// (`dir_field_sigma_out_of_range`); both refuse `ClaimRefuted`.
pub fn dir_field_indices(face: u8, sigma: i8) -> (res: Result<(), Refusal>)
    ensures
        res is Ok <==> ((face == 1 || face == 2) && is_side(sigma)),
        res matches Err(r) ==> (if face != 1 && face != 2 {
            is_refusal(r, RefusalKind::ClaimRefuted, "dir_field_face_out_of_range")
        } else {
            is_refusal(r, RefusalKind::ClaimRefuted, "dir_field_sigma_out_of_range")
        }),
{
    if face != 1 && face != 2 {
        return Err(Refusal::new(RefusalKind::ClaimRefuted, "dir_field_face_out_of_range"));
    }
    if sigma != -1 && sigma != 1 {
        return Err(Refusal::new(RefusalKind::ClaimRefuted, "dir_field_sigma_out_of_range"));
    }
    Ok(())
}

/// The side admission of a canal: each member of the side pair is `±1`, the
/// two contact fields are in parent-face order `(1, 2)`, and their side signs
/// match the side pair. The checks run in that order; all refuse
/// `ClaimRefuted`.
pub fn canal_sides(sigma: (i8, i8), faces: (u8, u8), contact_sigma: (i8, i8)) -> (res: Result<
    (),
    Refusal,
>)
    ensures
        res is Ok <==> (is_side(sigma.0) && is_side(sigma.1) && faces == (1u8, 2u8)
            && contact_sigma == sigma),
        res matches Err(r) ==> (if !is_side(sigma.0) {
            is_refusal(r, RefusalKind::ClaimRefuted, "canal_sigma1_out_of_range")
        } else if !is_side(sigma.1) {
            is_refusal(r, RefusalKind::ClaimRefuted, "canal_sigma2_out_of_range")
        } else if faces != (1u8, 2u8) {
            is_refusal(r, RefusalKind::ClaimRefuted, "canal_contact_face_order")
        } else {
            is_refusal(r, RefusalKind::ClaimRefuted, "canal_contact_sigma_mismatch")
        }),
{
    if sigma.0 != -1 && sigma.0 != 1 {
        return Err(Refusal::new(RefusalKind::ClaimRefuted, "canal_sigma1_out_of_range"));
    }
    if sigma.1 != -1 && sigma.1 != 1 {
        return Err(Refusal::new(RefusalKind::ClaimRefuted, "canal_sigma2_out_of_range"));
    }
    if faces.0 != 1 || faces.1 != 2 {
        return Err(Refusal::new(RefusalKind::ClaimRefuted, "canal_contact_face_order"));
    }
    if contact_sigma.0 != sigma.0 || contact_sigma.1 != sigma.1 {
        return Err(Refusal::new(RefusalKind::ClaimRefuted, "canal_contact_sigma_mismatch"));
    }
    Ok(())
}

} // verus!
