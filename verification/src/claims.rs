//! The authored-topology claim vocabulary and the integer parts of claim
//! verification: the component-kind gate, the exhaustive-claim gate, and the
//! topology a certified claim's graph is assembled with.

use vstd::prelude::*;
use crate::assemble::{all_resolve, arc_end_seq, end_resolves, ArcTopology};
use crate::evidence::{is_refusal, Refusal, RefusalKind};
use crate::graph::{ArcEnd, ArcId, BreakId, NodeId};

verus! {

/// The tube-chain kind of a claimed component: the arc families of the
/// certified graph.
#[derive(Debug, Clone, Copy, PartialEq, Eq, Structural)]
pub enum ComponentKind {
    /// An ordinary surface-intersection component.
    Ordinary,
    /// A plane difference-curve component.
    Difference,
    /// A self-intersection component.
    SelfInt,
    /// A canal spine component.
    Spine,
    /// A carrier component.
    Carrier,
}

/// A refuted claim: the index of the refuted component and the label of the
/// failing predicate (`tube-chain-via-C2`, `endpoints-via-C1` or
/// `nodes-via-A4.2`).
#[derive(Debug, Clone, PartialEq, Eq)]
pub struct ClaimRefutation {
    /// The index of the refuted component in the claim.
    pub component: usize,
    /// The failing predicate's label, verbatim.
    pub predicate: String,
}

/// The component-kind gate: the C2 tube seam on a leaf pair certifies
/// ordinary chains only, so a component whose expected kind is not
/// `Ordinary` is refuted under `tube-chain-via-C2`.
pub fn component_kind_gate(index: usize, expected: ComponentKind) -> (res: Result<
    (),
    ClaimRefutation,
>)
    ensures
        res is Ok <==> expected == ComponentKind::Ordinary,
        res matches Err(c) ==> c.component == index && c.predicate@ == "tube-chain-via-C2"@,
{
    if expected != ComponentKind::Ordinary {
        return Err(
            ClaimRefutation { component: index, predicate: "tube-chain-via-C2".to_owned() },
        );
    }
    Ok(())
}

/// The exhaustive-claim gate of certification: only an exhaustive claim can
/// yield a certified graph; a non-exhaustive claim refuses `ClaimRefuted`
/// under `claims_nonexhaustive_not_certifiable` (it yields a claimed graph
/// through the non-certifying entry instead).
pub fn exhaustive_gate(exhaustive: bool) -> (res: Result<(), Refusal>)
    ensures
        res is Ok <==> exhaustive,
        res matches Err(r) ==> is_refusal(
            r,
            RefusalKind::ClaimRefuted,
            "claims_nonexhaustive_not_certifiable",
        ),
{
    if !exhaustive {
        return Err(Refusal::new(RefusalKind::ClaimRefuted, "claims_nonexhaustive_not_certifiable"));
    }
    Ok(())
}

/// The node ids of a claim graph over `n` certified components: two boundary
/// nodes per component, numbered `0 .. 2n`.
pub open spec fn claim_nodes(n: nat) -> Seq<NodeId> {
    Seq::new(2 * n, |k: int| NodeId(k as usize))
}

/// The arcs of a claim graph over `n` certified components: arc `i` runs from
/// node `2i` to node `2i + 1`.
pub open spec fn claim_arcs(n: nat) -> Seq<ArcTopology> {
    Seq::new(
        n,
        |i: int|
            ArcTopology {
                id: ArcId(i as usize),
                ends: Some((ArcEnd::Topo(NodeId((2 * i) as usize)), ArcEnd::Topo(NodeId((2 * i + 1) as usize)))),
            },
    )
}

/// The topology of a claim graph over `n` certified components: the left and
/// right boundary nodes of component `i` are `2i` and `2i + 1`, and its
/// ordinary arc `i` joins them.
pub fn claim_topology(n: usize) -> (res: (Vec<NodeId>, Vec<ArcTopology>))
    requires
        2 * n + 1 <= usize::MAX,
    ensures
        res.0@ == claim_nodes(n as nat),
        res.1@ == claim_arcs(n as nat),
{
    let mut nodes: Vec<NodeId> = Vec::new();
    let mut arcs: Vec<ArcTopology> = Vec::new();
    let mut i: usize = 0;
    while i < n
        invariant
            i <= n,
            2 * n + 1 <= usize::MAX,
            nodes@ == claim_nodes(i as nat),
            arcs@ == claim_arcs(i as nat),
        decreases n - i,
    {
        let left = NodeId(2 * i);
        let right = NodeId(2 * i + 1);
        nodes.push(left);
        nodes.push(right);
        arcs.push(
            ArcTopology { id: ArcId(i), ends: Some((ArcEnd::Topo(left), ArcEnd::Topo(right))) },
        );
        proof {
            assert(nodes@ =~= claim_nodes((i + 1) as nat));
            assert(arcs@ =~= claim_arcs((i + 1) as nat));
        }
        i = i + 1;
    }
    (nodes, arcs)
}

/// A claim graph never dangles: every end of every arc of the topology a
/// certified claim is assembled with resolves to one of its nodes, so the
/// assembly reference check accepts it.
pub proof fn lemma_claim_topology_resolves(n: nat)
    requires
        2 * n + 1 <= usize::MAX,
    ensures
        all_resolve(arc_end_seq(claim_arcs(n)), claim_nodes(n), Seq::<BreakId>::empty()),
    decreases n,
{
    if n > 0 {
        lemma_claim_topology_resolves((n - 1) as nat);
        let m = (n - 1) as nat;
        assert(claim_arcs(n).drop_last() =~= claim_arcs(m));
        let prev = arc_end_seq(claim_arcs(m));
        let all = arc_end_seq(claim_arcs(n));
        assert(all == prev + seq![ArcEnd::Topo(NodeId((2 * m) as usize)), ArcEnd::Topo(NodeId((2 * m + 1) as usize))]);
        assert forall|k: int| 0 <= k < all.len() implies #[trigger] end_resolves(all[k], claim_nodes(n), Seq::<BreakId>::empty()) by {
            if k < prev.len() {
                assert(end_resolves(prev[k], claim_nodes(m), Seq::<BreakId>::empty()));
                assert(all[k] == prev[k]);
                if let ArcEnd::Topo(id) = prev[k] {
                    let j = claim_nodes(m).index_of(id);
                    assert(claim_nodes(n)[j] == id);
                }
            } else if k == prev.len() {
                assert(claim_nodes(n)[2 * m as int] == NodeId((2 * m) as usize));
            } else {
                assert(claim_nodes(n)[(2 * m + 1) as int] == NodeId((2 * m + 1) as usize));
            }
        }
    }
}

} // verus!
