//! Graph assembly and deck identification: every arc end of an assembled
//! graph must resolve to a node or break of the graph, and a chain's deck
//! displacements are accounted exactly, one deck-step break per seam
//! crossing.

use vstd::prelude::*;
use crate::config::DECK_MAX;
use crate::evidence::{is_refusal, Refusal, RefusalKind};
use crate::graph::{ArcEnd, ArcId, BreakId, NodeId};

verus! {

/// The topology an arc contributes to the reference check: its id and its two
/// certified endpoints (`None` for a carrier arc, which has none).
#[derive(Debug, Clone, Copy, PartialEq, Eq)]
pub struct ArcTopology {
    /// The arc id.
    pub id: ArcId,
    /// The two certified endpoints, when the arc has them.
    pub ends: Option<(ArcEnd, ArcEnd)>,
}

/// The endpoints of an arc, in order.
pub open spec fn ends_of(arc: ArcTopology) -> Seq<ArcEnd> {
    match arc.ends {
        Some((e0, e1)) => seq![e0, e1],
        None => Seq::empty(),
    }
}

/// The endpoints of a sequence of arcs, arc by arc, in order.
pub open spec fn arc_end_seq(arcs: Seq<ArcTopology>) -> Seq<ArcEnd>
    decreases arcs.len(),
{
    if arcs.len() == 0 {
        Seq::empty()
    } else {
        arc_end_seq(arcs.drop_last()) + ends_of(arcs.last())
    }
}

/// An endpoint resolves: it names a node of the node set or a break of the
/// break set.
pub open spec fn end_resolves(e: ArcEnd, nodes: Seq<NodeId>, breaks: Seq<BreakId>) -> bool {
    match e {
        ArcEnd::Topo(n) => nodes.contains(n),
        ArcEnd::Seg(b) => breaks.contains(b),
    }
}

/// Every endpoint of the sequence resolves.
pub open spec fn all_resolve(ends: Seq<ArcEnd>, nodes: Seq<NodeId>, breaks: Seq<BreakId>) -> bool {
    forall|k: int| 0 <= k < ends.len() ==> #[trigger] end_resolves(ends[k], nodes, breaks)
}

/// `r` is the refusal for the first unresolved endpoint of `ends`.
pub open spec fn is_dangling_refusal(
    ends: Seq<ArcEnd>,
    nodes: Seq<NodeId>,
    breaks: Seq<BreakId>,
    r: Refusal,
) -> bool {
    exists|k: int|
        0 <= k < ends.len() && !end_resolves(ends[k], nodes, breaks) && (forall|j: int|
            0 <= j < k ==> #[trigger] end_resolves(ends[j], nodes, breaks)) && match ends[k] {
            ArcEnd::Topo(_) => is_refusal(
                r,
                RefusalKind::ClaimRefuted,
                "assembled_end_resolves_to_missing_node",
            ),
            ArcEnd::Seg(_) => is_refusal(
                r,
                RefusalKind::ClaimRefuted,
                "assembled_end_resolves_to_missing_break",
            ),
        }
}

/// Whether `id` is one of `nodes`.
fn has_node(nodes: &[NodeId], id: NodeId) -> (found: bool)
    ensures
        found == nodes@.contains(id),
{
    let mut i: usize = 0;
    while i < nodes.len()
        invariant
            i <= nodes@.len(),
            forall|j: int| 0 <= j < i ==> nodes@[j] != id,
        decreases nodes@.len() - i,
    {
        if nodes[i] == id {
            proof {
                assert(nodes@[i as int] == id);
            }
            return true;
        }
        i = i + 1;
    }
    false
}

/// Whether `id` is one of `breaks`.
fn has_break(breaks: &[BreakId], id: BreakId) -> (found: bool)
    ensures
        found == breaks@.contains(id),
{
    let mut i: usize = 0;
    while i < breaks.len()
        invariant
            i <= breaks@.len(),
            forall|j: int| 0 <= j < i ==> breaks@[j] != id,
        decreases breaks@.len() - i,
    {
        if breaks[i] == id {
            proof {
                assert(breaks@[i as int] == id);
            }
            return true;
        }
        i = i + 1;
    }
    false
}

/// Resolve one endpoint, refusing by the kind of reference that dangles.
fn resolve_end(e: ArcEnd, nodes: &[NodeId], breaks: &[BreakId]) -> (res: Result<(), Refusal>)
    ensures
        res is Ok <==> end_resolves(e, nodes@, breaks@),
        res matches Err(r) ==> match e {
            ArcEnd::Topo(_) => is_refusal(
                r,
                RefusalKind::ClaimRefuted,
                "assembled_end_resolves_to_missing_node",
            ),
            ArcEnd::Seg(_) => is_refusal(
                r,
                RefusalKind::ClaimRefuted,
                "assembled_end_resolves_to_missing_break",
            ),
        },
{
    match e {
        ArcEnd::Topo(node_id) => {
            if !has_node(nodes, node_id) {
                return Err(
                    Refusal::new(RefusalKind::ClaimRefuted, "assembled_end_resolves_to_missing_node"),
                );
            }
        },
        ArcEnd::Seg(break_id) => {
            if !has_break(breaks, break_id) {
                return Err(
                    Refusal::new(
                        RefusalKind::ClaimRefuted,
                        "assembled_end_resolves_to_missing_break",
                    ),
                );
            }
        },
    }
    Ok(())
}

/// The reference check of graph assembly: every arc end must resolve to a
/// node or break of the graph. Arcs are walked in order and each arc's ends
/// in order; the first dangling end refuses `ClaimRefuted`, naming whether a
/// node or a break is missing.
pub fn check_references(arcs: &[ArcTopology], nodes: &[NodeId], breaks: &[BreakId]) -> (res:
    Result<(), Refusal>)
    ensures
        res is Ok <==> all_resolve(arc_end_seq(arcs@), nodes@, breaks@),
        res matches Err(r) ==> is_dangling_refusal(arc_end_seq(arcs@), nodes@, breaks@, r),
        res is Ok <==> forall|i: int|
            #![trigger arcs@[i]]
            0 <= i < arcs@.len() ==> match arcs@[i].ends {
                Some((e0, e1)) => (match e0 { ArcEnd::Topo(n) => nodes@.contains(n), ArcEnd::Seg(b) => breaks@.contains(b) }) && (match e1 { ArcEnd::Topo(n) => nodes@.contains(n), ArcEnd::Seg(b) => breaks@.contains(b) }),
                None => true,
            },
{
    let ghost all = arc_end_seq(arcs@);
    let mut i: usize = 0;
    proof {
        lemma_arc_end_seq_prefix(arcs@);
        assert(arcs@.take(0) =~= Seq::<ArcTopology>::empty());
    }
    while i < arcs.len()
        invariant
            i <= arcs@.len(),
            all == arc_end_seq(arcs@),
            all_resolve(arc_end_seq(arcs@.take(i as int)), nodes@, breaks@),
            forall|j: int|
                #![trigger arcs@[j]]
                0 <= j < i ==> match arcs@[j].ends {
                    Some((e0, e1)) => (match e0 { ArcEnd::Topo(n) => nodes@.contains(n), ArcEnd::Seg(b) => breaks@.contains(b) }) && (match e1 { ArcEnd::Topo(n) => nodes@.contains(n), ArcEnd::Seg(b) => breaks@.contains(b) }),
                    None => true,
                },
            forall|m: int|
                0 <= m <= arcs@.len() ==> (#[trigger] arc_end_seq(arcs@.take(m))).len() <= all.len()
                    && forall|j: int|
                    0 <= j < arc_end_seq(arcs@.take(m)).len() ==> arc_end_seq(arcs@.take(m))[j]
                        == all[j],
        decreases arcs@.len() - i,
    {
        let arc = arcs[i];
        let ghost prefix = arc_end_seq(arcs@.take(i as int));
        proof {
            assert(arcs@.take(i + 1).drop_last() =~= arcs@.take(i as int));
            assert(arcs@.take(i + 1).last() == arc);
            assert(arc_end_seq(arcs@.take(i + 1)) == prefix + ends_of(arc));
        }
        if let Some((e0, e1)) = arc.ends {
            let ghost p = prefix.len() as int;
            proof {
                assert(arc_end_seq(arcs@.take(i + 1)).len() == p + 2);
                assert(arc_end_seq(arcs@.take(i + 1))[p] == e0);
                assert(arc_end_seq(arcs@.take(i + 1))[p + 1] == e1);
                assert(all[p] == e0);
                assert(all[p + 1] == e1);
            }
            match resolve_end(e0, nodes, breaks) {
                Ok(()) => {},
                Err(r) => {
                    proof {
                        assert(forall|j: int| 0 <= j < p ==> prefix[j] == all[j]);
                        assert(forall|j: int| 0 <= j < p ==> #[trigger] end_resolves(all[j], nodes@, breaks@)) by {
                            assert forall|j: int| 0 <= j < p implies #[trigger] end_resolves(all[j], nodes@, breaks@) by {
                                assert(end_resolves(prefix[j], nodes@, breaks@));
                            }
                        }
                        assert(!all_resolve(all, nodes@, breaks@));
                    }
                    return Err(r);
                },
            }
            match resolve_end(e1, nodes, breaks) {
                Ok(()) => {},
                Err(r) => {
                    proof {
                        assert forall|j: int| 0 <= j < p + 1 implies #[trigger] end_resolves(all[j], nodes@, breaks@) by {
                            if j < p {
                                assert(prefix[j] == all[j]);
                                assert(end_resolves(prefix[j], nodes@, breaks@));
                            }
                        }
                        assert(!all_resolve(all, nodes@, breaks@));
                    }
                    return Err(r);
                },
            }
            proof {
                let next = arc_end_seq(arcs@.take(i + 1));
                assert forall|k: int| 0 <= k < next.len() implies #[trigger] end_resolves(next[k], nodes@, breaks@) by {
                    if k < p {
                        assert(next[k] == prefix[k]);
                    }
                }
            }
        } else {
            proof {
                assert(ends_of(arc) =~= Seq::<ArcEnd>::empty());
                assert(arc_end_seq(arcs@.take(i + 1)) =~= prefix);
            }
        }
        i = i + 1;
    }
    proof {
        assert(arcs@.take(i as int) =~= arcs@);
    }
    Ok(())
}

/// An arc end resolves exactly by membership: a node reference resolves
/// against no node of an empty graph, and adding one node to the graph makes
/// a node reference resolve only if the added node is the one it names (and
/// keeps every reference that resolved resolving); likewise for breaks. A
/// node reference never resolves through the break set, nor a break
/// reference through the node set.
pub proof fn lemma_end_resolution_by_membership(
    n: NodeId,
    b: BreakId,
    nodes: Seq<NodeId>,
    breaks: Seq<BreakId>,
    m: NodeId,
    c: BreakId,
)
    ensures
        !end_resolves(ArcEnd::Topo(n), Seq::empty(), breaks),
        !end_resolves(ArcEnd::Seg(b), nodes, Seq::empty()),
        end_resolves(ArcEnd::Topo(n), nodes.push(m), breaks) <==> (end_resolves(
            ArcEnd::Topo(n),
            nodes,
            breaks,
        ) || m == n),
        end_resolves(ArcEnd::Seg(b), nodes, breaks.push(c)) <==> (end_resolves(
            ArcEnd::Seg(b),
            nodes,
            breaks,
        ) || c == b),
        end_resolves(ArcEnd::Topo(n), nodes, breaks) == end_resolves(
            ArcEnd::Topo(n),
            nodes,
            Seq::empty(),
        ),
        end_resolves(ArcEnd::Seg(b), nodes, breaks) == end_resolves(
            ArcEnd::Seg(b),
            Seq::empty(),
            breaks,
        ),
{
    assert(nodes.push(m)[nodes.len() as int] == m);
    assert(breaks.push(c)[breaks.len() as int] == c);
    if nodes.push(m).contains(n) && m != n {
        let k = choose|k: int| 0 <= k < nodes.push(m).len() && nodes.push(m)[k] == n;
        assert(nodes[k] == n);
    }
    if nodes.contains(n) {
        let k = choose|k: int| 0 <= k < nodes.len() && nodes[k] == n;
        assert(nodes.push(m)[k] == n);
    }
    if breaks.push(c).contains(b) && c != b {
        let k = choose|k: int| 0 <= k < breaks.push(c).len() && breaks.push(c)[k] == b;
        assert(breaks[k] == b);
    }
    if breaks.contains(b) {
        let k = choose|k: int| 0 <= k < breaks.len() && breaks[k] == b;
        assert(breaks.push(c)[k] == b);
    }
}

/// In a graph whose ends all resolve, every node an arc names is a node of
/// the graph and every break an arc names is a break of the graph.
pub proof fn lemma_resolved_graph_names_members(
    arcs: Seq<ArcTopology>,
    nodes: Seq<NodeId>,
    breaks: Seq<BreakId>,
)
    requires
        all_resolve(arc_end_seq(arcs), nodes, breaks),
    ensures
        forall|i: int|
            #![trigger arcs[i]]
            0 <= i < arcs.len() ==> match arcs[i].ends {
                Some((e0, e1)) => (match e0 {
                    ArcEnd::Topo(n) => nodes.contains(n),
                    ArcEnd::Seg(b) => breaks.contains(b),
                }) && (match e1 {
                    ArcEnd::Topo(n) => nodes.contains(n),
                    ArcEnd::Seg(b) => breaks.contains(b),
                }),
                None => true,
            },
    decreases arcs.len(),
{
    if arcs.len() > 0 {
        let prefix = arcs.drop_last();
        let head = arc_end_seq(prefix);
        assert(arc_end_seq(arcs) == head + ends_of(arcs.last()));
        assert forall|k: int| 0 <= k < head.len() implies #[trigger] end_resolves(head[k], nodes, breaks) by {
            assert(arc_end_seq(arcs)[k] == head[k]);
        }
        lemma_resolved_graph_names_members(prefix, nodes, breaks);
        let last = arcs.last();
        if let Some((e0, e1)) = last.ends {
            assert(arc_end_seq(arcs)[head.len() as int] == e0);
            assert(arc_end_seq(arcs)[head.len() as int + 1] == e1);
            assert(end_resolves(arc_end_seq(arcs)[head.len() as int], nodes, breaks));
            assert(end_resolves(arc_end_seq(arcs)[head.len() as int + 1], nodes, breaks));
        }
        assert forall|i: int| #![trigger arcs[i]] 0 <= i < arcs.len() - 1 implies arcs[i] == prefix[i] by {}
    }
}

/// The end sequence of a prefix of arcs is a prefix of the end sequence.
proof fn lemma_arc_end_seq_prefix(arcs: Seq<ArcTopology>)
    ensures
        forall|m: int|
            0 <= m <= arcs.len() ==> (#[trigger] arc_end_seq(arcs.take(m))).len() <= arc_end_seq(
                arcs,
            ).len() && forall|j: int|
                0 <= j < arc_end_seq(arcs.take(m)).len() ==> arc_end_seq(arcs.take(m))[j]
                    == arc_end_seq(arcs)[j],
    decreases arcs.len(),
{
    if arcs.len() > 0 {
        let init = arcs.drop_last();
        lemma_arc_end_seq_prefix(init);
        assert forall|m: int|
            0 <= m <= arcs.len() implies (#[trigger] arc_end_seq(arcs.take(m))).len()
            <= arc_end_seq(arcs).len() && forall|j: int|
            0 <= j < arc_end_seq(arcs.take(m)).len() ==> arc_end_seq(arcs.take(m))[j]
                == arc_end_seq(arcs)[j] by {
            if m == arcs.len() {
                assert(arcs.take(m) =~= arcs);
            } else {
                assert(arcs.take(m) =~= init.take(m));
            }
        }
    } else {
        assert forall|m: int| 0 <= m <= arcs.len() implies (#[trigger] arc_end_seq(arcs.take(m))).len()
            <= arc_end_seq(arcs).len() && forall|j: int|
            0 <= j < arc_end_seq(arcs.take(m)).len() ==> arc_end_seq(arcs.take(m))[j]
                == arc_end_seq(arcs)[j] by {
            assert(arcs.take(m) =~= arcs);
        }
    }
}

/// One deck-seam crossing of a chain arc, in traversal order: the index of
/// the crossing arc, the deck copy just left and the deck copy entered.
#[derive(Debug, Clone, Copy, PartialEq, Eq, Structural)]
pub struct DeckCrossing {
    /// The index of the crossing chain arc.
    pub arc: usize,
    /// The deck index of the copy just left (before the seam).
    pub deck_left: i32,
    /// The deck index of the copy entered (after the seam).
    pub deck_entered: i32,
}

/// The seam crossings of an arc that runs from deck `start` to deck `end`:
/// one per seam `m` strictly above the lower deck and up to the upper one, in
/// increasing `m`, stepping `m − 1 → m` when the arc ascends and `m → m − 1`
/// when it descends.
pub open spec fn arc_crossings(arc: usize, start: i32, end: i32) -> Seq<DeckCrossing> {
    let lo = if start <= end { start as int } else { end as int };
    let hi = if start <= end { end as int } else { start as int };
    Seq::new(
        (hi - lo) as nat,
        |j: int|
            {
                let m = lo + 1 + j;
                if end >= start {
                    DeckCrossing { arc, deck_left: (m - 1) as i32, deck_entered: m as i32 }
                } else {
                    DeckCrossing { arc, deck_left: m as i32, deck_entered: (m - 1) as i32 }
                }
            },
    )
}

/// One arc of deck identification: the arc's deck displacement is added to
/// the chain total; a displacement of more than `DECK_MAX` decks refuses
/// `DeckExhausted` under `deck_max_exceeded`; otherwise the arc's seam
/// crossings are appended, in order.
pub fn deck_step(
    index: usize,
    start_deck: i32,
    end_deck: i32,
    total: &mut i64,
    crossings: &mut Vec<DeckCrossing>,
) -> (res: Result<(), Refusal>)
    requires
        -0x4000_0000_0000_0000 <= *old(total) <= 0x4000_0000_0000_0000,
    ensures
        *final(total) == *old(total) + (end_deck - start_deck),
        res is Ok <==> (if end_deck >= start_deck {
            end_deck - start_deck
        } else {
            start_deck - end_deck
        }) <= DECK_MAX,
        res is Ok ==> final(crossings)@ == old(crossings)@ + arc_crossings(index, start_deck, end_deck),
        res is Err ==> final(crossings)@ == old(crossings)@,
        res matches Err(r) ==> is_refusal(r, RefusalKind::DeckExhausted, "deck_max_exceeded"),
{
    let displacement: i64 = (end_deck as i64) - (start_deck as i64);
    *total = *total + displacement;
    let magnitude: i64 = if displacement >= 0 {
        displacement
    } else {
        -displacement
    };
    if magnitude > DECK_MAX as i64 {
        return Err(Refusal::new(RefusalKind::DeckExhausted, "deck_max_exceeded"));
    }
    let lo = if start_deck <= end_deck {
        start_deck
    } else {
        end_deck
    };
    let hi = if start_deck <= end_deck {
        end_deck
    } else {
        start_deck
    };
    let ghost base = crossings@;
    let ghost expected = arc_crossings(index, start_deck, end_deck);
    let mut m: i32 = lo;
    while m < hi
        invariant
            lo <= m <= hi,
            lo == (if start_deck <= end_deck { start_deck } else { end_deck }),
            hi == (if start_deck <= end_deck { end_deck } else { start_deck }),
            hi - lo <= DECK_MAX,
            expected == arc_crossings(index, start_deck, end_deck),
            expected.len() == hi - lo,
            crossings@ == base + expected.take(m - lo),
        decreases hi - m,
    {
        let seam = m + 1;
        let crossing = if end_deck >= start_deck {
            DeckCrossing { arc: index, deck_left: seam - 1, deck_entered: seam }
        } else {
            DeckCrossing { arc: index, deck_left: seam, deck_entered: seam - 1 }
        };
        crossings.push(crossing);
        proof {
            assert(expected[m - lo] == crossing);
            assert(expected.take(m + 1 - lo) =~= expected.take(m - lo).push(crossing));
        }
        m = seam;
    }
    proof {
        assert(expected.take(hi - lo) =~= expected);
    }
    Ok(())
}

/// The crossings of one arc account for its deck displacement seam by seam:
/// there are exactly `|end − start|` of them, listed by increasing seam. An
/// ascending arc's crossings walk from the start deck to the end deck (the
/// first leaves the start deck, the last enters the end deck, each enters the
/// deck the next one leaves); a descending arc's crossings are the same walk
/// listed from the end deck up (the first enters the end deck, the last
/// leaves the start deck, each leaves the deck the next one enters). Every
/// crossing steps exactly one deck.
pub proof fn lemma_arc_crossings_walk(arc: usize, start: i32, end: i32)
    ensures
        arc_crossings(arc, start, end).len() == (if end >= start {
            end - start
        } else {
            start - end
        }),
        end >= start && arc_crossings(arc, start, end).len() > 0 ==> arc_crossings(
            arc,
            start,
            end,
        )[0].deck_left == start && arc_crossings(arc, start, end).last().deck_entered == end,
        end < start ==> arc_crossings(arc, start, end)[0].deck_entered == end && arc_crossings(
            arc,
            start,
            end,
        ).last().deck_left == start,
        forall|j: int|
            0 <= j < arc_crossings(arc, start, end).len() ==> {
                let c = #[trigger] arc_crossings(arc, start, end)[j];
                &&& c.arc == arc
                &&& (end >= start ==> c.deck_entered == c.deck_left + 1)
                &&& (end < start ==> c.deck_left == c.deck_entered + 1)
            },
        forall|j: int|
            0 <= j < arc_crossings(arc, start, end).len() - 1 ==> (end >= start ==> (
            #[trigger] arc_crossings(arc, start, end)[j]).deck_entered == arc_crossings(
                arc,
                start,
                end,
            )[j + 1].deck_left) && (end < start ==> arc_crossings(arc, start, end)[j].deck_left
                == arc_crossings(arc, start, end)[j + 1].deck_entered),
{
    let s = arc_crossings(arc, start, end);
    let lo = if start <= end { start as int } else { end as int };
    if s.len() > 0 {
        let last = s.len() - 1;
        assert(s[0] == s[0]);
        assert(s[last] == s[last]);
        if end >= start {
            assert(s[0].deck_left == ((lo + 1 + 0) - 1) as i32);
            assert(s[last].deck_entered == (lo + 1 + last) as i32);
        } else {
            assert(s[0].deck_entered == ((lo + 1 + 0) - 1) as i32);
            assert(s[last].deck_left == (lo + 1 + last) as i32);
        }
    }
    assert forall|j: int| 0 <= j < s.len() - 1 implies (end >= start ==> (#[trigger] s[j]).deck_entered
        == s[j + 1].deck_left) && (end < start ==> s[j].deck_left == s[j + 1].deck_entered) by {
        let m = lo + 1 + j;
        if end >= start {
            assert(s[j].deck_entered == m as i32);
            assert(s[j + 1].deck_left == ((lo + 1 + (j + 1)) - 1) as i32);
        } else {
            assert(s[j].deck_left == m as i32);
            assert(s[j + 1].deck_entered == ((lo + 1 + (j + 1)) - 1) as i32);
        }
    }
}

/// The closure check of a closed chain: the chain's total deck displacement
/// must equal the deck translation between its first start and its last end;
/// otherwise `ClaimRefuted` under `deck_loop_displacement_inconsistent`. On
/// success the translation is returned.
pub fn loop_translation(first_start_deck: i32, last_end_deck: i32, total: i64) -> (res: Result<
    i64,
    Refusal,
>)
    ensures
        res is Ok <==> total == last_end_deck - first_start_deck,
        res matches Ok(t) ==> t == last_end_deck - first_start_deck,
        res matches Err(r) ==> is_refusal(
            r,
            RefusalKind::ClaimRefuted,
            "deck_loop_displacement_inconsistent",
        ),
{
    let translation: i64 = (last_end_deck as i64) - (first_start_deck as i64);
    if translation != total {
        return Err(Refusal::new(RefusalKind::ClaimRefuted, "deck_loop_displacement_inconsistent"));
    }
    Ok(translation)
}

} // verus!
