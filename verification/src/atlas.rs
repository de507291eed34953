//! The chart-atlas decisions: the degeneracy route of a box that reaches a
//! chart pole, chart lookup by id, and the per-edge deck ceiling of a lift.

use vstd::prelude::*;
use crate::config::DECK_MAX;
use crate::evidence::{is_refusal, Refusal, RefusalKind};
use crate::graph::ChartId;

verus! {

/// The route a degeneracy takes: either the parameterization is rank
/// deficient at a regular image point and the arc continues on the partner
/// chart, or the degeneracy is a genuine carrier singularity.
#[derive(Debug, Clone, Copy, PartialEq, Eq, Structural)]
pub enum DegeneracyRoute {
    /// Switch to the partner chart (same arc, no valence change).
    SwitchChart {
        /// The partner chart to continue on.
        target: ChartId,
    },
    /// The box reached a carrier singularity (or no partner can certify the
    /// image): refuse/trim.
    CarrierSingular,
}

/// The index of the first chart of the atlas with the given id, if any.
pub fn chart_index(charts: &[ChartId], id: ChartId) -> (res: Option<usize>)
    ensures
        res matches Some(i) ==> i < charts@.len() && charts@[i as int] == id && forall|j: int|
            0 <= j < i ==> charts@[j] != id,
        res is None ==> forall|j: int| 0 <= j < charts@.len() ==> charts@[j] != id,
{
    let mut i: usize = 0;
    while i < charts.len()
        invariant
            i <= charts@.len(),
            forall|j: int| 0 <= j < i ==> charts@[j] != id,
        decreases charts@.len() - i,
    {
        if charts[i] == id {
            return Some(i);
        }
        i = i + 1;
    }
    None
}

/// The degeneracy route of a box over one of the atlas's charts: the box
/// switches to the partner chart exactly when it reaches the chart's pole,
/// the chart has a partner, and that partner (a chart of the atlas) certifies
/// regularity over its partner box; every other case is a carrier
/// singularity.
pub fn degeneracy_route(
    reaches_pole: bool,
    partner: Option<ChartId>,
    partner_certified_regular: bool,
) -> (route: DegeneracyRoute)
    ensures
        route == (if reaches_pole && partner is Some && partner_certified_regular {
            DegeneracyRoute::SwitchChart { target: partner->0 }
        } else {
            DegeneracyRoute::CarrierSingular
        }),
{
    if reaches_pole {
        if let Some(target) = partner {
            if partner_certified_regular {
                return DegeneracyRoute::SwitchChart { target };
            }
        }
    }
    DegeneracyRoute::CarrierSingular
}

/// The magnitude of a deck displacement.
pub open spec fn deck_distance(from: i32, to: i32) -> int {
    if to >= from {
        to - from
    } else {
        from - to
    }
}

/// The per-edge deck ceiling of a lift: an edge that walks more than
/// `DECK_MAX` deck crossings away from its base refuses `DeckExhausted`
/// (Inconclusive) under `deck_exhausted_lift`.
pub fn lift_deck_ceiling(from_deck: i32, deck: i32) -> (res: Result<(), Refusal>)
    ensures
        res is Ok <==> deck_distance(from_deck, deck) <= DECK_MAX,
        res matches Err(r) ==> is_refusal(r, RefusalKind::DeckExhausted, "deck_exhausted_lift"),
{
    let displacement = (deck as i64) - (from_deck as i64);
    let magnitude = if displacement >= 0 {
        displacement
    } else {
        -displacement
    };
    if magnitude > DECK_MAX as i64 {
        return Err(Refusal::new(RefusalKind::DeckExhausted, "deck_exhausted_lift"));
    }
    Ok(())
}

} // verus!
