//! The certified-topology identifiers and node/segment vocabularies.
//!
//! Neither topology enum carries a refusal variant: a topology node or a
//! segment break is a certified fact, never a refusal.

use vstd::prelude::*;

verus! {

/// The identity of a chart in the certified graph.
#[derive(Debug, Clone, Copy, PartialEq, Eq, Hash, Structural)]
pub struct ChartId(pub u32);

/// The identity of a topology node.
#[derive(Debug, Clone, Copy, PartialEq, Eq, Hash, Structural)]
pub struct NodeId(pub usize);

/// The identity of a segment break.
#[derive(Debug, Clone, Copy, PartialEq, Eq, Hash, Structural)]
pub struct BreakId(pub usize);

/// The identity of an arc.
#[derive(Debug, Clone, Copy, PartialEq, Eq, Hash, Structural)]
pub struct ArcId(pub usize);

/// A certified topology node kind.
#[derive(Debug, Clone, Copy, PartialEq, Eq, Structural)]
pub enum TopoNode {
    /// A boundary node (the graph meets a sheet boundary).
    Boundary,
    /// A transversal trim crossing.
    TrimCrossing,
    /// A Morse saddle.
    MorseSaddle,
    /// A Morse extremum.
    MorseExtremum,
    /// An A2 cusp.
    A2Cusp,
    /// An overlap-boundary node.
    OverlapBoundary,
    /// A fillet end.
    FilletEnd,
}

/// A certified segment-break kind.
#[derive(Debug, Clone, Copy, PartialEq, Eq, Structural)]
pub enum SegmentBreak {
    /// The chart switches.
    ChartSwitch,
    /// The frame switches.
    FrameSwitch,
    /// A leaf boundary is crossed.
    LeafBoundary,
    /// The deck steps.
    DeckStep,
    /// An R6 chart switch.
    R6ChartSwitch,
    /// An R6 base swap.
    R6BaseSwap,
}

/// One endpoint of an arc: either a topology node or a segment break.
#[derive(Debug, Clone, Copy, PartialEq, Eq, Structural)]
pub enum ArcEnd {
    /// The arc ends at a topology node.
    Topo(NodeId),
    /// The arc ends at a segment break.
    Seg(BreakId),
}

/// The provenance of a graph: a provenance tag is never a certificate.
#[derive(Debug, Clone, Copy, PartialEq, Eq, Structural)]
pub enum Provenance {
    /// The graph was produced by this kernel's own certification.
    Claimed,
    /// The graph was imported from an external representation.
    Imported,
    /// The graph was supplied by the client.
    Client,
}

} // verus!
