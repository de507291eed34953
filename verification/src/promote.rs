//! The integer gates of promoting an assembled arc to a model edge: the deck
//! ceiling of the run, the trim-event residual gate, the knot multiplicities
//! and the tangency-at-tolerance opt-in.

use vstd::prelude::*;
use crate::config::DECK_MAX;
use crate::evidence::{is_refusal, Refusal, RefusalKind};
use crate::residual::ResidualId;

verus! {

/// The explicit opt-in for promoting an arc whose endpoint carries the
/// tangency-at-tolerance tag (never a default true).
#[derive(Debug, Clone, Copy, PartialEq, Eq, Structural)]
pub enum TangencyOptIn {
    /// Admit the at-tolerance endpoint.
    Admit,
    /// Refuse the at-tolerance endpoint.
    Refuse,
}

/// The certified class of an interior knot event.
#[derive(Debug, Clone, Copy, PartialEq, Eq, Structural)]
pub enum KnotClass {
    /// A transversal (trim) crossing.
    Crossing,
    /// A cusp.
    Cusp,
}

/// An interior event as the trim gate reads it: its certified class and the
/// residual its point certificate was issued at.
#[derive(Debug, Clone, Copy, PartialEq, Eq, Structural)]
pub struct EventCert {
    /// The certified event class.
    pub class: KnotClass,
    /// The residual of the event's point certificate.
    pub residual: ResidualId,
}

/// The absolute value of a deck index.
pub open spec fn deck_magnitude(d: i32) -> int {
    if d >= 0 {
        d as int
    } else {
        -(d as int)
    }
}

/// The deck ceiling of a promoted run: the run's deck span and both end deck
/// magnitudes must stay within `DECK_MAX`; otherwise `DeckExhausted` under
/// `promote_deck_max_exceeded`.
pub fn promote_deck_ceiling(start_deck: i32, end_deck: i32) -> (res: Result<(), Refusal>)
    ensures
        res is Ok <==> (deck_magnitude(start_deck) <= DECK_MAX && deck_magnitude(end_deck)
            <= DECK_MAX && (if end_deck >= start_deck {
            end_deck - start_deck
        } else {
            start_deck - end_deck
        }) <= DECK_MAX),
        res matches Err(r) ==> is_refusal(r, RefusalKind::DeckExhausted, "promote_deck_max_exceeded"),
{
    let start_mag: i64 = if start_deck >= 0 {
        start_deck as i64
    } else {
        -(start_deck as i64)
    };
    let end_mag: i64 = if end_deck >= 0 {
        end_deck as i64
    } else {
        -(end_deck as i64)
    };
    let diff: i64 = (end_deck as i64) - (start_deck as i64);
    let span: i64 = if diff >= 0 {
        diff
    } else {
        -diff
    };
    let ceiling = DECK_MAX as i64;
    if span > ceiling || start_mag > ceiling || end_mag > ceiling {
        return Err(Refusal::new(RefusalKind::DeckExhausted, "promote_deck_max_exceeded"));
    }
    Ok(())
}

/// Trim events in one chart route through the one-chart R9 residual: an
/// interior crossing certified at any other residual refuses `ClaimRefuted`
/// under `promote_trim_crossing_not_r9_certified`.
pub fn trim_events_gate(events: &[EventCert]) -> (res: Result<(), Refusal>)
    ensures
        res is Ok <==> forall|i: int|
            0 <= i < events@.len() && #[trigger] events@[i].class == KnotClass::Crossing
                ==> events@[i].residual == ResidualId::R9,
        res matches Err(r) ==> is_refusal(
            r,
            RefusalKind::ClaimRefuted,
            "promote_trim_crossing_not_r9_certified",
        ),
{
    let mut i: usize = 0;
    while i < events.len()
        invariant
            i <= events@.len(),
            forall|j: int|
                0 <= j < i && #[trigger] events@[j].class == KnotClass::Crossing ==> events@[j].residual
                    == ResidualId::R9,
        decreases events@.len() - i,
    {
        let event = events[i];
        if event.class == KnotClass::Crossing && event.residual != ResidualId::R9 {
            return Err(
                Refusal::new(RefusalKind::ClaimRefuted, "promote_trim_crossing_not_r9_certified"),
            );
        }
        i = i + 1;
    }
    Ok(())
}

/// The knot multiplicity of an interior event class.
pub open spec fn knot_multiplicity_spec(class: KnotClass) -> usize {
    match class {
        KnotClass::Crossing => 2,
        KnotClass::Cusp => 3,
    }
}

/// The knot multiplicity set from the certified class: 2 at a crossing, 3 at
/// a cusp.
pub fn knot_multiplicity(class: KnotClass) -> (m: usize)
    ensures
        m == knot_multiplicity_spec(class),
{
    match class {
        KnotClass::Crossing => 2,
        KnotClass::Cusp => 3,
    }
}

/// Every interior knot repeats at least twice, and a cusp (which degenerates
/// the tangent) repeats exactly once more than a crossing (which only joins
/// two branches).
pub proof fn lemma_knot_multiplicity_laws(class: KnotClass)
    ensures
        knot_multiplicity_spec(class) >= 2,
        knot_multiplicity_spec(KnotClass::Cusp) == knot_multiplicity_spec(KnotClass::Crossing) + 1,
        knot_multiplicity_spec(class) == 2 <==> class == KnotClass::Crossing,
{
}

/// The tangency-at-tolerance gate: an endpoint whose shared node carries the
/// at-tolerance tag is promoted only under the explicit `Admit` opt-in;
/// otherwise `TangentialCurve` under
/// `promote_tangency_at_tolerance_requires_opt_in`.
pub fn tangency_gate(ends_at_tolerance: [bool; 2], opt_in: TangencyOptIn) -> (res: Result<
    (),
    Refusal,
>)
    ensures
        res is Ok <==> (opt_in == TangencyOptIn::Admit || (!ends_at_tolerance[0]
            && !ends_at_tolerance[1])),
        res matches Err(r) ==> is_refusal(
            r,
            RefusalKind::TangentialCurve,
            "promote_tangency_at_tolerance_requires_opt_in",
        ),
{
    let mut i: usize = 0;
    while i < 2
        invariant
            i <= 2,
            opt_in != TangencyOptIn::Admit ==> forall|j: int| 0 <= j < i ==> !ends_at_tolerance[j],
        decreases 2 - i,
    {
        if ends_at_tolerance[i] && opt_in != TangencyOptIn::Admit {
            return Err(
                Refusal::new(
                    RefusalKind::TangentialCurve,
                    "promote_tangency_at_tolerance_requires_opt_in",
                ),
            );
        }
        i = i + 1;
    }
    Ok(())
}

} // verus!
