use truck_certified::assemble::{
    check_references, deck_step, loop_translation, ArcTopology, DeckCrossing,
};
use truck_certified::claims::{
    claim_topology, component_kind_gate, exhaustive_gate, ComponentKind,
};
use truck_certified::evidence::{RefusalKind, VerdictClass};
use truck_certified::graph::{ArcEnd, ArcId, BreakId, NodeId};

fn arc(id: usize, ends: Option<(ArcEnd, ArcEnd)>) -> ArcTopology {
    ArcTopology {
        id: ArcId(id),
        ends,
    }
}

#[test]
fn references_resolve_to_nodes_and_breaks() {
    let arcs = [
        arc(0, Some((ArcEnd::Topo(NodeId(0)), ArcEnd::Seg(BreakId(3))))),
        arc(1, None),
        arc(2, Some((ArcEnd::Seg(BreakId(3)), ArcEnd::Topo(NodeId(1))))),
    ];
    assert!(check_references(&arcs, &[NodeId(1), NodeId(0)], &[BreakId(3)]).is_ok());
    assert!(check_references(&[], &[], &[]).is_ok());
    assert!(check_references(&[arc(9, None)], &[], &[]).is_ok());
}

#[test]
fn a_dangling_node_reference_refuses() {
    let arcs = [arc(0, Some((ArcEnd::Topo(NodeId(0)), ArcEnd::Topo(NodeId(7)))))];
    let r = check_references(&arcs, &[NodeId(0)], &[]).expect_err("node 7 is missing");
    assert_eq!(r.kind, RefusalKind::ClaimRefuted);
    assert_eq!(r.backing, VerdictClass::Disproven);
    assert_eq!(r.predicate, "assembled_end_resolves_to_missing_node");
}

#[test]
fn a_dangling_break_reference_refuses_first_in_order() {
    let arcs = [
        arc(0, Some((ArcEnd::Seg(BreakId(4)), ArcEnd::Topo(NodeId(7))))),
        arc(1, Some((ArcEnd::Topo(NodeId(8)), ArcEnd::Topo(NodeId(0))))),
    ];
    let r = check_references(&arcs, &[NodeId(0)], &[BreakId(1)]).expect_err("break 4 is missing");
    assert_eq!(r.predicate, "assembled_end_resolves_to_missing_break");
}

#[test]
fn claim_topology_pairs_boundary_nodes_and_resolves() {
    let (nodes, arcs) = claim_topology(3);
    assert_eq!(
        nodes,
        vec![NodeId(0), NodeId(1), NodeId(2), NodeId(3), NodeId(4), NodeId(5)]
    );
    assert_eq!(arcs.len(), 3);
    assert_eq!(arcs[2].id, ArcId(2));
    assert_eq!(
        arcs[2].ends,
        Some((ArcEnd::Topo(NodeId(4)), ArcEnd::Topo(NodeId(5))))
    );
    assert!(check_references(&arcs, &nodes, &[]).is_ok());
    let (nodes, arcs) = claim_topology(0);
    assert!(nodes.is_empty() && arcs.is_empty());
}

#[test]
fn component_kind_gate_refutes_non_ordinary_components() {
    assert!(component_kind_gate(0, ComponentKind::Ordinary).is_ok());
    for kind in [
        ComponentKind::Difference,
        ComponentKind::SelfInt,
        ComponentKind::Spine,
        ComponentKind::Carrier,
    ] {
        let c = component_kind_gate(4, kind).expect_err("not ordinary");
        assert_eq!(c.component, 4);
        assert_eq!(c.predicate, "tube-chain-via-C2");
    }
}

#[test]
fn only_exhaustive_claims_certify() {
    assert!(exhaustive_gate(true).is_ok());
    let r = exhaustive_gate(false).expect_err("non-exhaustive");
    assert_eq!(r.kind, RefusalKind::ClaimRefuted);
    assert_eq!(r.predicate, "claims_nonexhaustive_not_certifiable");
}

#[test]
fn a_wrap_from_deck_zero_to_one_is_exactly_one_seam_crossing() {
    let mut total = 0i64;
    let mut crossings = Vec::new();
    deck_step(0, 0, 1, &mut total, &mut crossings).expect("within the ceiling");
    assert_eq!(total, 1);
    assert_eq!(
        crossings,
        vec![DeckCrossing {
            arc: 0,
            deck_left: 0,
            deck_entered: 1
        }]
    );
}

#[test]
fn descending_crossings_are_listed_by_increasing_seam() {
    let mut total = 5i64;
    let mut crossings = vec![DeckCrossing {
        arc: 9,
        deck_left: 0,
        deck_entered: 1,
    }];
    deck_step(1, 2, -1, &mut total, &mut crossings).expect("within the ceiling");
    assert_eq!(total, 2);
    assert_eq!(
        crossings,
        vec![
            DeckCrossing { arc: 9, deck_left: 0, deck_entered: 1 },
            DeckCrossing { arc: 1, deck_left: 0, deck_entered: -1 },
            DeckCrossing { arc: 1, deck_left: 1, deck_entered: 0 },
            DeckCrossing { arc: 1, deck_left: 2, deck_entered: 1 },
        ]
    );
    let mut total = 0i64;
    let mut crossings = Vec::new();
    deck_step(2, 3, 3, &mut total, &mut crossings).expect("no crossing");
    assert_eq!(total, 0);
    assert!(crossings.is_empty());
}

#[test]
fn a_displacement_beyond_deck_max_is_exhausted() {
    let mut total = 0i64;
    let mut crossings = Vec::new();
    deck_step(0, -4, 4, &mut total, &mut crossings).expect("eight decks is the ceiling");
    assert_eq!(crossings.len(), 8);
    let r = deck_step(1, 0, 9, &mut total, &mut crossings).expect_err("nine decks");
    assert_eq!(r.kind, RefusalKind::DeckExhausted);
    assert_eq!(r.backing, VerdictClass::Inconclusive);
    assert_eq!(r.predicate, "deck_max_exceeded");
    assert_eq!(total, 17);
    assert_eq!(crossings.len(), 8);
}

#[test]
fn a_closed_chain_must_close_its_deck_translation() {
    assert_eq!(loop_translation(0, 2, 2).expect("consistent"), 2);
    let r = loop_translation(0, 2, 1).expect_err("inconsistent");
    assert_eq!(r.kind, RefusalKind::ClaimRefuted);
    assert_eq!(r.predicate, "deck_loop_displacement_inconsistent");
}
