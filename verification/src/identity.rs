//! Node identity (Rules A, B, C) and the dyadic sampling join.
//!
//! Identity is decided by exact containment and the typed implication
//! relation only; when no rule applies the nodes are not identified and the
//! caller refuses rather than merges them. The dyadic join is pure integer
//! work over address sets, so it is associative, commutative and idempotent.

use std::collections::BTreeSet;
use vstd::prelude::*;
use vstd::arithmetic::power2::*;
use vstd::arithmetic::div_mod::*;
use vstd::arithmetic::mul::*;
use vstd::bits::*;
use vstd::std_specs::iter::IteratorSpec;
use crate::evidence::{is_refusal, Construction, Refusal, RefusalKind};
use crate::residual::{implication, implication_spec, residual_implies, Implication, ResidualId};

verus! {

broadcast use vstd::std_specs::btree::group_btree_axioms;

/// The deepest dyadic depth this module can address: `2^63` still fits a
/// `u64`, `2^64` does not.
pub const MAX_ADDRESSABLE_DEPTH: u32 = 63;

/// A dyadic refinement request: the binary node addresses stored at a common
/// depth (each address `k` lies in `0..2^depth`).
#[derive(Debug, Clone)]
pub struct DyadicRequest {
    /// The common depth of the stored addresses.
    pub depth: u32,
    /// The stored leaf addresses at `depth`.
    pub leaves: BTreeSet<u64>,
}

/// The result of a dyadic [`join`]: the union of the requesters' address sets
/// lifted to one common depth.
#[derive(Debug, Clone)]
pub struct EdgeSampleSet {
    /// The common depth of the stored node addresses.
    pub depth: u32,
    /// The union of node addresses at `depth`.
    pub nodes: BTreeSet<u64>,
}

impl View for DyadicRequest {
    type V = (u32, Set<u64>);

    open spec fn view(&self) -> (u32, Set<u64>) {
        (self.depth, self.leaves@)
    }
}

/// A request is addressable: its depth fits a `u64` address space and every
/// leaf lies in `0..2^depth`.
pub open spec fn request_valid(r: (u32, Set<u64>)) -> bool {
    &&& r.0 <= MAX_ADDRESSABLE_DEPTH
    &&& forall|k: u64| r.1.contains(k) ==> k < pow2(r.0 as nat)
}

/// The addresses at depth `to` that descend from an address of `leaves` at
/// depth `from`: `k` descends from `k / 2^(to - from)`.
pub open spec fn lift_set(leaves: Set<u64>, from: nat, to: nat) -> Set<u64> {
    Set::new(
        |k: u64|
            k < pow2(to) && leaves.contains((k as int / pow2((to - from) as nat) as int) as u64),
    )
}

/// The largest depth among a sequence of requests.
pub open spec fn max_depth(reqs: Seq<(u32, Set<u64>)>) -> u32
    decreases reqs.len(),
{
    if reqs.len() == 0 {
        0
    } else {
        let d = max_depth(reqs.drop_last());
        if reqs.last().0 > d {
            reqs.last().0
        } else {
            d
        }
    }
}

/// The union of every request's addresses lifted to depth `to`.
pub open spec fn joined_nodes(reqs: Seq<(u32, Set<u64>)>, to: nat) -> Set<u64>
    decreases reqs.len(),
{
    if reqs.len() == 0 {
        Set::empty()
    } else {
        joined_nodes(reqs.drop_last(), to).union(lift_set(reqs.last().1, reqs.last().0 as nat, to))
    }
}

/// Every request of the sequence is addressable.
pub open spec fn all_valid(reqs: Seq<(u32, Set<u64>)>) -> bool {
    forall|i: int| 0 <= i < reqs.len() ==> #[trigger] request_valid(reqs[i])
}

/// The requests a join reads, base first.
pub open spec fn join_requests(base: DyadicRequest, others: Seq<DyadicRequest>) -> Seq<
    (u32, Set<u64>),
> {
    seq![base@] + others.map_values(|r: DyadicRequest| r@)
}

/// `r` is the refusal of the first request that is not addressable: an
/// unaddressable depth is reported before an out-of-range leaf.
pub open spec fn is_join_refusal(reqs: Seq<(u32, Set<u64>)>, r: Refusal) -> bool {
    exists|i: int|
        0 <= i < reqs.len() && !request_valid(reqs[i]) && (forall|j: int|
            0 <= j < i ==> #[trigger] request_valid(reqs[j])) && (if reqs[i].0
            > MAX_ADDRESSABLE_DEPTH {
            is_refusal(r, RefusalKind::ClaimRefuted, "dyadic_depth_unaddressable")
        } else {
            is_refusal(r, RefusalKind::ClaimRefuted, "dyadic_leaf_out_of_range")
        })
}

/// `2^e` as a `u64`.
fn pow2_u64(e: u32) -> (r: u64)
    requires
        e <= MAX_ADDRESSABLE_DEPTH,
    ensures
        r == pow2(e as nat),
{
    proof {
        lemma_u64_pow2_no_overflow(e as nat);
        lemma_u64_shl_is_mul(1, e as u64);
    }
    1u64 << (e as u64)
}

/// Whether every address of `leaves` is strictly below `bound`.
fn leaves_below(leaves: &BTreeSet<u64>, bound: u64) -> (ok: bool)
    ensures
        ok <==> (forall|k: u64| leaves@.contains(k) ==> k < bound),
{
    let mut ok = true;
    let ghost keys = vstd::std_specs::btree::spec_btree_keys_iter(leaves).remaining().unref();
    let ghost mut seen: int = 0;
    for k in it: leaves.iter()
        invariant
            it.seq().unref() == keys,
            keys.to_set() == leaves@,
            seen == it.index(),
            ok <==> (forall|i: int| 0 <= i < seen ==> keys[i] < bound),
    {
        if *k >= bound {
            ok = false;
        }
        proof {
            seen = seen + 1;
        }
    }
    proof {
        assert(seen == keys.len());
        if ok {
            assert forall|k: u64| leaves@.contains(k) implies k < bound by {
                assert(keys.to_set().contains(k));
                let i = keys.index_of(k);
            }
        } else {
            let i = choose|i: int| 0 <= i < seen && !(keys[i] < bound);
            assert(keys.to_set().contains(keys[i]));
        }
    }
    ok
}

/// The block of addresses at depth `to` descending from `leaf` at depth
/// `from` is exactly `leaf·span .. (leaf + 1)·span`.
proof fn lemma_lift_block(leaf: int, from: nat, to: nat, x: int)
    requires
        from <= to,
        0 <= leaf < pow2(from),
        0 <= x,
    ensures
        (leaf * pow2((to - from) as nat) <= x < leaf * pow2((to - from) as nat) + pow2(
            (to - from) as nat,
        )) <==> (x < pow2(to) && x / pow2((to - from) as nat) as int == leaf),
        leaf * pow2((to - from) as nat) + pow2((to - from) as nat) <= pow2(to),
{
    let span = pow2((to - from) as nat) as int;
    lemma_pow2_pos((to - from) as nat);
    lemma_pow2_adds(from, (to - from) as nat);
    assert(pow2(from) * pow2((to - from) as nat) == pow2(to));
    lemma_mul_inequality(leaf + 1, pow2(from) as int, span);
    assert((leaf + 1) * span == leaf * span + span) by (nonlinear_arith);
    lemma_fundamental_div_mod(x, span);
    if leaf * span <= x && x < leaf * span + span {
        lemma_fundamental_div_mod_converse(x, span, leaf, x - leaf * span);
    }
    if x / span == leaf {
        assert(span * leaf == leaf * span) by (nonlinear_arith);
    }
}

/// Adding one address to a set adds exactly its block to the lifted set.
proof fn lemma_lift_insert(s: Set<u64>, leaf: u64, from: nat, to: nat)
    requires
        from <= to,
        leaf < pow2(from),
    ensures
        lift_set(s.insert(leaf), from, to) == lift_set(s, from, to).union(
            Set::new(
                |x: u64|
                    leaf * pow2((to - from) as nat) <= x < leaf * pow2((to - from) as nat)
                        + pow2((to - from) as nat),
            ),
        ),
{
    let span = pow2((to - from) as nat) as int;
    assert forall|x: u64|
        #![trigger lift_set(s.insert(leaf), from, to).contains(x)]
        lift_set(s.insert(leaf), from, to).contains(x) <==> (lift_set(s, from, to).contains(x)
            || (leaf * span <= x < leaf * span + span)) by {
        lemma_lift_block(leaf as int, from, to, x as int);
        lemma_pow2_pos((to - from) as nat);
        lemma_div_pos_is_pos(x as int, span);
        lemma_div_nonincreasing(x as int, span);
        let q = x as int / span;
        assert(((q as u64) == leaf) <==> (q == leaf as int));
    }
    assert(lift_set(s.insert(leaf), from, to) =~= lift_set(s, from, to).union(
        Set::new(|x: u64| leaf * span <= x < leaf * span + span),
    ));
}

/// Insert into `nodes` every address at depth `depth` that descends from a
/// leaf of `req`.
fn lift_leaves(req: &DyadicRequest, depth: u32, nodes: &mut BTreeSet<u64>)
    requires
        request_valid(req@),
        req.depth <= depth <= MAX_ADDRESSABLE_DEPTH,
    ensures
        final(nodes)@ == old(nodes)@.union(lift_set(req.leaves@, req.depth as nat, depth as nat)),
{
    let span = pow2_u64(depth - req.depth);
    let ghost from = req.depth as nat;
    let ghost to = depth as nat;
    let ghost start_nodes = nodes@;
    let ghost keys = vstd::std_specs::btree::spec_btree_keys_iter(&req.leaves).remaining().unref();
    let ghost mut seen: int = 0;
    proof {
        assert(keys.take(0).to_set() =~= Set::empty());
        assert(lift_set(Set::empty(), from, to) =~= Set::empty());
        assert(nodes@ =~= start_nodes.union(lift_set(keys.take(0).to_set(), from, to)));
    }
    for leaf_ref in it: req.leaves.iter()
        invariant
            it.seq().unref() == keys,
            keys.to_set() == req.leaves@,
            seen == it.index(),
            0 <= seen <= keys.len(),
            request_valid(req@),
            from == req.depth,
            to == depth,
            from <= to <= MAX_ADDRESSABLE_DEPTH,
            span == pow2((to - from) as nat),
            nodes@ == start_nodes.union(lift_set(keys.take(seen).to_set(), from, to)),
    {
        let leaf = *leaf_ref;
        proof {
            assert(keys.to_set().contains(keys[seen]));
            assert(leaf == keys[seen]);
            assert(req@.1.contains(leaf));
            assert(leaf < pow2(req@.0 as nat));
            assert(leaf < pow2(from));
            lemma_lift_block(leaf as int, from, to, 0);
            lemma_u64_pow2_no_overflow(to);
            lemma_pow2_pos((to - from) as nat);
            assert(0 <= leaf * span) by (nonlinear_arith)
                requires
                    0 <= leaf,
                    0 <= span,
            ;
        }
        let start = leaf * span;
        let end = start + span;
        let ghost before = nodes@;
        let mut k = start;
        while k < end
            invariant
                start <= k <= end,
                end == start + span,
                nodes@ == before.union(Set::new(|x: u64| start <= x < k)),
            decreases end - k,
        {
            nodes.insert(k);
            proof {
                assert(nodes@ =~= before.union(Set::new(|x: u64| start <= x < k + 1)));
            }
            k = k + 1;
        }
        proof {
            lemma_lift_insert(keys.take(seen).to_set(), leaf, from, to);
            assert(keys.take(seen + 1).to_set() =~= keys.take(seen).to_set().insert(leaf)) by {
                assert(keys.take(seen + 1) =~= keys.take(seen).push(leaf));
                keys.take(seen).lemma_push_to_set_commute(leaf);
            }
            assert(Set::new(|x: u64| start <= x < end) =~= Set::new(
                |x: u64| leaf * pow2((to - from) as nat) <= x < leaf * pow2((to - from) as nat)
                    + pow2((to - from) as nat),
            ));
            assert(nodes@ =~= start_nodes.union(lift_set(keys.take(seen + 1).to_set(), from, to)));
            seen = seen + 1;
        }
    }
    proof {
        assert(keys.take(seen) =~= keys);
    }
}

/// Every request's depth is at most the largest depth, and the largest depth
/// of addressable requests is itself addressable.
proof fn lemma_max_depth_bounds(reqs: Seq<(u32, Set<u64>)>)
    ensures
        forall|j: int| 0 <= j < reqs.len() ==> #[trigger] reqs[j].0 <= max_depth(reqs),
        all_valid(reqs) ==> max_depth(reqs) <= MAX_ADDRESSABLE_DEPTH,
    decreases reqs.len(),
{
    if reqs.len() > 0 {
        let prefix = reqs.drop_last();
        lemma_max_depth_bounds(prefix);
        assert forall|j: int| 0 <= j < reqs.len() implies #[trigger] reqs[j].0 <= max_depth(reqs) by {
            if j < reqs.len() - 1 {
                assert(reqs[j] == prefix[j]);
            }
        }
        if all_valid(reqs) {
            assert forall|j: int| 0 <= j < prefix.len() implies #[trigger] request_valid(prefix[j]) by {
                assert(request_valid(reqs[j]));
            }
            assert(request_valid(reqs[reqs.len() - 1]));
        }
    }
}

/// The refusal for a request deeper than the `u64` address space.
fn unaddressable_depth() -> (r: Refusal)
    ensures
        is_refusal(r, RefusalKind::ClaimRefuted, "dyadic_depth_unaddressable"),
{
    Refusal::new(RefusalKind::ClaimRefuted, "dyadic_depth_unaddressable")
}

/// The refusal for a leaf address that escapes `0..2^depth`.
fn leaf_out_of_range() -> (r: Refusal)
    ensures
        is_refusal(r, RefusalKind::ClaimRefuted, "dyadic_leaf_out_of_range"),
{
    Refusal::new(RefusalKind::ClaimRefuted, "dyadic_leaf_out_of_range")
}

/// Check one request: `Ok` iff it is addressable; otherwise the refusal of its
/// first failing check (depth before leaves).
fn check_request(req: &DyadicRequest) -> (res: Result<(), Refusal>)
    ensures
        res is Ok <==> request_valid(req@),
        res matches Err(r) ==> (if req.depth > MAX_ADDRESSABLE_DEPTH {
            is_refusal(r, RefusalKind::ClaimRefuted, "dyadic_depth_unaddressable")
        } else {
            is_refusal(r, RefusalKind::ClaimRefuted, "dyadic_leaf_out_of_range")
        }),
{
    if req.depth > MAX_ADDRESSABLE_DEPTH {
        return Err(unaddressable_depth());
    }
    let bound = pow2_u64(req.depth);
    if !leaves_below(&req.leaves, bound) {
        proof {
            let k = choose|k: u64| req.leaves@.contains(k) && !(k < bound);
            assert(req@.1.contains(k));
        }
        return Err(leaf_out_of_range());
    }
    Ok(())
}

/// The dyadic join: the set union of prefix-closed dyadic address sets.
///
/// Requests at a depth shallower than the common (largest) depth lift to it
/// by exact integer expansion: an address `k` at depth `d'` expands to the
/// `2^(d - d')` children `k·2^(d - d') .. (k + 1)·2^(d - d') - 1`. A request
/// whose depth exceeds the addressable maximum, or whose leaves escape
/// `0..2^depth`, refuses; requests are checked in order, base first.
pub fn join(base: DyadicRequest, others: &[DyadicRequest]) -> (res: Construction<EdgeSampleSet>)
    ensures
        res is Ok <==> all_valid(join_requests(base, others@)),
        res matches Ok(s) ==> s.depth == max_depth(join_requests(base, others@)) && s.nodes@
            == joined_nodes(join_requests(base, others@), s.depth as nat),
        res matches Err(r) ==> is_join_refusal(join_requests(base, others@), r),
{
    let ghost reqs = join_requests(base, others@);
    proof {
        assert(reqs[0] == base@);
        assert forall|j: int| 0 <= j < others@.len() implies #[trigger] reqs[j + 1] == others@[j]@ by {
        }
    }
    match check_request(&base) {
        Ok(()) => {},
        Err(r) => {
            proof {
                assert(!request_valid(reqs[0]));
                assert(is_join_refusal(reqs, r));
            }
            return Err(r);
        },
    }
    let mut depth = base.depth;
    let mut i: usize = 0;
    proof {
        assert(reqs.take(1).drop_last() =~= Seq::<(u32, Set<u64>)>::empty());
        assert(reqs.take(1).last() == base@);
        assert(max_depth(Seq::<(u32, Set<u64>)>::empty()) == 0);
    }
    while i < others.len()
        invariant
            i <= others@.len(),
            reqs == join_requests(base, others@),
            reqs.len() == others@.len() + 1,
            forall|j: int| 0 <= j < others@.len() ==> #[trigger] reqs[j + 1] == others@[j]@,
            reqs[0] == base@,
            forall|j: int| 0 <= j <= i ==> #[trigger] request_valid(reqs[j]),
            depth == max_depth(reqs.take(i + 1)),
        decreases others@.len() - i,
    {
        match check_request(&others[i]) {
            Ok(()) => {},
            Err(r) => {
                proof {
                    assert(reqs[i + 1] == others@[i as int]@);
                    assert(is_join_refusal(reqs, r));
                }
                return Err(r);
            },
        }
        if others[i].depth > depth {
            depth = others[i].depth;
        }
        proof {
            assert(reqs.take(i + 2).drop_last() =~= reqs.take(i + 1));
            assert(reqs.take(i + 2).last() == reqs[i + 1]);
            assert(reqs[i + 1] == others@[i as int]@);
        }
        i = i + 1;
    }
    proof {
        assert(reqs.take(i + 1) =~= reqs);
        assert(all_valid(reqs));
        lemma_max_depth_bounds(reqs);
    }
    let mut nodes: BTreeSet<u64> = BTreeSet::new();
    proof {
        assert(reqs.take(1).drop_last() =~= Seq::<(u32, Set<u64>)>::empty());
        assert(reqs.take(1).last() == base@);
        assert(joined_nodes(Seq::<(u32, Set<u64>)>::empty(), depth as nat) == Set::<u64>::empty());
        assert(nodes@.union(lift_set(base.leaves@, base.depth as nat, depth as nat)) =~= joined_nodes(
            reqs.take(1),
            depth as nat,
        ));
        assert(reqs[0].0 <= max_depth(reqs));
    }
    lift_leaves(&base, depth, &mut nodes);
    let mut i: usize = 0;
    while i < others.len()
        invariant
            i <= others@.len(),
            reqs == join_requests(base, others@),
            reqs.len() == others@.len() + 1,
            forall|j: int| 0 <= j < others@.len() ==> #[trigger] reqs[j + 1] == others@[j]@,
            all_valid(reqs),
            depth == max_depth(reqs),
            depth <= MAX_ADDRESSABLE_DEPTH,
            forall|j: int| 0 <= j < reqs.len() ==> #[trigger] reqs[j].0 <= max_depth(reqs),
            nodes@ == joined_nodes(reqs.take(i + 1), depth as nat),
        decreases others@.len() - i,
    {
        proof {
            assert(reqs[i + 1] == others@[i as int]@);
            assert(request_valid(reqs[i + 1]));
            assert(reqs[i + 1].0 <= max_depth(reqs));
        }
        lift_leaves(&others[i], depth, &mut nodes);
        proof {
            assert(reqs.take(i + 2).drop_last() =~= reqs.take(i + 1));
            assert(reqs.take(i + 2).last() == reqs[i + 1]);
        }
        i = i + 1;
    }
    proof {
        assert(reqs.take(i + 1) =~= reqs);
    }
    Ok(EdgeSampleSet { depth, nodes })
}

/// The two-request sequence `a, b`.
pub open spec fn request_pair(a: (u32, Set<u64>), b: (u32, Set<u64>)) -> Seq<(u32, Set<u64>)> {
    seq![a, b]
}

/// Lifting to the same depth changes nothing for an addressable request.
proof fn lemma_lift_same_depth(leaves: Set<u64>, d: nat)
    requires
        forall|k: u64| leaves.contains(k) ==> k < pow2(d),
    ensures
        lift_set(leaves, d, d) == leaves,
{
    assert(pow2(0) == 1) by {
        lemma2_to64();
    }
    assert forall|k: u64| #[trigger] lift_set(leaves, d, d).contains(k) <==> leaves.contains(k) by {
        lemma_div_basics(k as int);
        assert((k as int / 1) as u64 == k);
    }
    assert(lift_set(leaves, d, d) =~= leaves);
}

/// Lifting in two steps is lifting in one: `d0 → d1 → d2` equals `d0 → d2`.
proof fn lemma_lift_compose(leaves: Set<u64>, d0: nat, d1: nat, d2: nat)
    requires
        d0 <= d1 <= d2,
    ensures
        lift_set(lift_set(leaves, d0, d1), d1, d2) == lift_set(leaves, d0, d2),
{
    let s1 = pow2((d2 - d1) as nat) as int;
    let s0 = pow2((d1 - d0) as nat) as int;
    lemma_pow2_pos((d2 - d1) as nat);
    lemma_pow2_pos((d1 - d0) as nat);
    lemma_pow2_adds((d2 - d1) as nat, (d1 - d0) as nat);
    assert(((d2 - d1) as nat + (d1 - d0) as nat) == (d2 - d0) as nat);
    lemma_pow2_adds(d1, (d2 - d1) as nat);
    assert((d1 + (d2 - d1) as nat) == d2);
    assert forall|k: u64| #[trigger] lift_set(lift_set(leaves, d0, d1), d1, d2).contains(k)
        <==> lift_set(leaves, d0, d2).contains(k) by {
        let q1 = k as int / s1;
        lemma_div_pos_is_pos(k as int, s1);
        lemma_div_nonincreasing(k as int, s1);
        lemma_div_pos_is_pos(q1, s0);
        lemma_div_nonincreasing(q1, s0);
        lemma_div_denominator(k as int, s1, s0);
        if k < pow2(d2) {
            lemma_fundamental_div_mod(k as int, s1);
            if q1 >= pow2(d1) {
                lemma_mul_inequality(pow2(d1) as int, q1, s1);
                assert(s1 * q1 == q1 * s1) by (nonlinear_arith);
            }
            assert(q1 < pow2(d1));
        }
    }
    assert(lift_set(lift_set(leaves, d0, d1), d1, d2) =~= lift_set(leaves, d0, d2));
}

/// The join of two requests is the union of their lifts to the larger depth.
proof fn lemma_joined_pair(a: (u32, Set<u64>), b: (u32, Set<u64>))
    ensures
        max_depth(request_pair(a, b)) == (if a.0 >= b.0 { a.0 } else { b.0 }),
        forall|to: nat| #[trigger] joined_nodes(request_pair(a, b), to) == lift_set(a.1, a.0 as nat, to).union(
            lift_set(b.1, b.0 as nat, to),
        ),
{
    let s = request_pair(a, b);
    assert(s.drop_last() =~= seq![a]);
    assert(s.last() == b);
    assert(seq![a].last() == a);
    assert(seq![a].drop_last() =~= Seq::<(u32, Set<u64>)>::empty());
    assert(max_depth(Seq::<(u32, Set<u64>)>::empty()) == 0);
    assert(max_depth(seq![a]) == a.0);
    assert(max_depth(s) == (if a.0 >= b.0 { a.0 } else { b.0 }));
    assert forall|to: nat| #[trigger] joined_nodes(request_pair(a, b), to) == lift_set(a.1, a.0 as nat, to).union(
        lift_set(b.1, b.0 as nat, to),
    ) by {
        assert(joined_nodes(Seq::<(u32, Set<u64>)>::empty(), to) == Set::<u64>::empty());
        assert(Set::<u64>::empty().union(lift_set(a.1, a.0 as nat, to)) =~= lift_set(a.1, a.0 as nat, to));
        assert(joined_nodes(seq![a], to) == lift_set(a.1, a.0 as nat, to));
        assert(joined_nodes(s, to) == joined_nodes(seq![a], to).union(lift_set(b.1, b.0 as nat, to)));
    }
}

/// The join is commutative: joining `a` with `b` and `b` with `a` accepts the
/// same requests, lands at the same depth, and yields the same address set.
pub proof fn lemma_join_commutative(a: (u32, Set<u64>), b: (u32, Set<u64>))
    ensures
        all_valid(request_pair(a, b)) == all_valid(request_pair(b, a)),
        max_depth(request_pair(a, b)) == max_depth(request_pair(b, a)),
        forall|to: nat| #[trigger] joined_nodes(request_pair(a, b), to) == joined_nodes(request_pair(b, a), to),
{
    lemma_joined_pair(a, b);
    lemma_joined_pair(b, a);
    assert forall|to: nat| #[trigger] joined_nodes(request_pair(a, b), to) == joined_nodes(request_pair(b, a), to) by {
        assert(lift_set(a.1, a.0 as nat, to).union(lift_set(b.1, b.0 as nat, to)) =~= lift_set(
            b.1,
            b.0 as nat,
            to,
        ).union(lift_set(a.1, a.0 as nat, to)));
    }
    if all_valid(request_pair(a, b)) {
        assert(request_valid(request_pair(a, b)[0]));
        assert(request_valid(request_pair(a, b)[1]));
        assert forall|i: int| 0 <= i < 2 implies #[trigger] request_valid(request_pair(b, a)[i]) by {
            if i == 0 {
                assert(request_pair(b, a)[i] == b);
            } else {
                assert(request_pair(b, a)[i] == a);
            }
        }
    }
    if all_valid(request_pair(b, a)) {
        assert(request_valid(request_pair(b, a)[0]));
        assert(request_valid(request_pair(b, a)[1]));
        assert forall|i: int| 0 <= i < 2 implies #[trigger] request_valid(request_pair(a, b)[i]) by {
            if i == 0 {
                assert(request_pair(a, b)[i] == a);
            } else {
                assert(request_pair(a, b)[i] == b);
            }
        }
    }
}

/// The join is idempotent: joining an addressable request with itself gives
/// back exactly its own depth and addresses.
pub proof fn lemma_join_idempotent(a: (u32, Set<u64>))
    requires
        request_valid(a),
    ensures
        max_depth(request_pair(a, a)) == a.0,
        joined_nodes(request_pair(a, a), a.0 as nat) == a.1,
{
    lemma_joined_pair(a, a);
    lemma_lift_same_depth(a.1, a.0 as nat);
    assert(a.1.union(a.1) =~= a.1);
}

/// The join is associative: joining `a` with the join of `b` and `c` equals
/// joining the join of `a` and `b` with `c` (same depth, same addresses).
pub proof fn lemma_join_associative(a: (u32, Set<u64>), b: (u32, Set<u64>), c: (u32, Set<u64>))
    requires
        request_valid(a),
        request_valid(b),
        request_valid(c),
    ensures
        ({
            let ab = (max_depth(request_pair(a, b)), joined_nodes(request_pair(a, b), max_depth(request_pair(a, b)) as nat));
            let bc = (max_depth(request_pair(b, c)), joined_nodes(request_pair(b, c), max_depth(request_pair(b, c)) as nat));
            &&& max_depth(request_pair(ab, c)) == max_depth(request_pair(a, bc))
            &&& joined_nodes(request_pair(ab, c), max_depth(request_pair(ab, c)) as nat) == joined_nodes(
                request_pair(a, bc),
                max_depth(request_pair(a, bc)) as nat,
            )
        }),
{
    let dab = max_depth(request_pair(a, b));
    let dbc = max_depth(request_pair(b, c));
    lemma_joined_pair(a, b);
    lemma_joined_pair(b, c);
    let ab = (dab, joined_nodes(request_pair(a, b), dab as nat));
    let bc = (dbc, joined_nodes(request_pair(b, c), dbc as nat));
    lemma_joined_pair(ab, c);
    lemma_joined_pair(a, bc);
    let d = max_depth(request_pair(ab, c));
    assert(d == max_depth(request_pair(a, bc)));
    let to = d as nat;
    lemma_lift_compose(a.1, a.0 as nat, dab as nat, to);
    lemma_lift_compose(b.1, b.0 as nat, dab as nat, to);
    lemma_lift_compose(b.1, b.0 as nat, dbc as nat, to);
    lemma_lift_compose(c.1, c.0 as nat, dbc as nat, to);
    lemma_lift_union(lift_set(a.1, a.0 as nat, dab as nat), lift_set(b.1, b.0 as nat, dab as nat), dab as nat, to);
    lemma_lift_union(lift_set(b.1, b.0 as nat, dbc as nat), lift_set(c.1, c.0 as nat, dbc as nat), dbc as nat, to);
    assert(joined_nodes(request_pair(ab, c), to) =~= joined_nodes(request_pair(a, bc), to));
}

/// Lifting distributes over union.
proof fn lemma_lift_union(s: Set<u64>, t: Set<u64>, from: nat, to: nat)
    ensures
        lift_set(s.union(t), from, to) == lift_set(s, from, to).union(lift_set(t, from, to)),
{
    assert(lift_set(s.union(t), from, to) =~= lift_set(s, from, to).union(lift_set(t, from, to)));
}

/// Which rule certified an equality, for the evidence trail.
#[derive(Debug, Clone, Copy, PartialEq, Eq, Structural)]
pub enum IdentityRule {
    /// Rule A: equal residuals plus a union certificate whose box contains the
    /// union hull of the two certificate boxes.
    RuleA,
    /// Rule B: the certificate was transported across a deck translation or an
    /// affine leaf reparameterization before the equality was certified.
    RuleB,
    /// Rule C: the certificates were identified through a common weaker
    /// residual admitted by the typed implication relation.
    RuleC,
}

/// The verdict of a node-identity rule.
#[derive(Debug, Clone, Copy, PartialEq, Eq, Structural)]
pub enum IdentityVerdict {
    /// The two certificate neighborhoods are certified equal by the cited rule.
    CertifiedEqual {
        /// The rule that certified the equality.
        rule: IdentityRule,
    },
    /// No rule applies: the nodes are NOT certified equal (refuse, never snap).
    NotCertified,
}

/// A union certificate offered to the identity rules, read against one pair of
/// certificates: the residual it is offered for (`key`), the residual it
/// actually certifies, and whether its box contains the exact union hull of
/// the pair's two certificate boxes.
#[derive(Debug, Clone, Copy, PartialEq, Eq, Structural)]
pub struct UnionCandidate {
    /// The residual the union certificate is offered for.
    pub key: ResidualId,
    /// The residual the union certificate certifies.
    pub residual: ResidualId,
    /// Whether the union certificate's box contains the union hull of the two
    /// certificate boxes (inclusive, exact, no tolerance).
    pub contains_hull: bool,
}

/// Rule A holds through `u`: the three residuals agree and `u`'s box contains
/// the union hull.
pub open spec fn rule_a_holds(a: ResidualId, b: ResidualId, u: UnionCandidate) -> bool {
    a == b && b == u.residual && u.contains_hull
}

/// Rule C holds through `u`: both certificates imply `u`'s key residual, `u`
/// certifies that residual, and `u`'s box contains the union hull.
pub open spec fn rule_c_holds(a: ResidualId, b: ResidualId, u: UnionCandidate) -> bool {
    residual_implies(a, u.key) && residual_implies(b, u.key) && u.residual == u.key && u.contains_hull
}

/// The identity verdict the rules give for a pair of certificates with
/// residuals `a`, `b` against the offered union certificates.
pub open spec fn identity_verdict(a: ResidualId, b: ResidualId, unions: Seq<UnionCandidate>) -> IdentityVerdict {
    if exists|i: int| 0 <= i < unions.len() && #[trigger] rule_a_holds(a, b, unions[i]) {
        IdentityVerdict::CertifiedEqual { rule: IdentityRule::RuleA }
    } else if exists|i: int| 0 <= i < unions.len() && #[trigger] rule_c_holds(a, b, unions[i]) {
        IdentityVerdict::CertifiedEqual { rule: IdentityRule::RuleC }
    } else {
        IdentityVerdict::NotCertified
    }
}

/// Rule A: whether two certificates certify the same node by containment.
pub fn rule_a(a: ResidualId, b: ResidualId, union_cert: &UnionCandidate) -> (v: IdentityVerdict)
    ensures
        v == (if rule_a_holds(a, b, *union_cert) {
            IdentityVerdict::CertifiedEqual { rule: IdentityRule::RuleA }
        } else {
            IdentityVerdict::NotCertified
        }),
        v == (IdentityVerdict::CertifiedEqual { rule: IdentityRule::RuleA }) <==> (a == b && b
            == union_cert.residual && union_cert.contains_hull),
        v == (IdentityVerdict::CertifiedEqual { rule: IdentityRule::RuleA }) || v
            == IdentityVerdict::NotCertified,
{
    if a != b || b != union_cert.residual {
        return IdentityVerdict::NotCertified;
    }
    if !union_cert.contains_hull {
        return IdentityVerdict::NotCertified;
    }
    IdentityVerdict::CertifiedEqual { rule: IdentityRule::RuleA }
}

/// Rule C: identify two certificates through a common weaker residual; the
/// first offered union certificate whose key both certificates imply, that
/// certifies its own key, and whose box contains the union hull certifies.
pub fn rule_c(a: ResidualId, b: ResidualId, union_certs: &[UnionCandidate]) -> (v: IdentityVerdict)
    ensures
        v == (if exists|i: int| 0 <= i < union_certs@.len() && #[trigger] rule_c_holds(a, b, union_certs@[i]) {
            IdentityVerdict::CertifiedEqual { rule: IdentityRule::RuleC }
        } else {
            IdentityVerdict::NotCertified
        }),
        v == (IdentityVerdict::CertifiedEqual { rule: IdentityRule::RuleC }) <==> exists|i: int|
            #![trigger union_certs@[i]]
            0 <= i < union_certs@.len() && implication_spec(a, union_certs@[i].key)
                != Implication::NotImplied && implication_spec(b, union_certs@[i].key)
                != Implication::NotImplied && union_certs@[i].residual == union_certs@[i].key
                && union_certs@[i].contains_hull,
        v == (IdentityVerdict::CertifiedEqual { rule: IdentityRule::RuleC }) || v
            == IdentityVerdict::NotCertified,
{
    let mut i: usize = 0;
    while i < union_certs.len()
        invariant
            i <= union_certs@.len(),
            forall|j: int| 0 <= j < i ==> !#[trigger] rule_c_holds(a, b, union_certs@[j]),
            forall|j: int|
                #![trigger union_certs@[j]]
                0 <= j < i ==> !(implication_spec(a, union_certs@[j].key) != Implication::NotImplied
                    && implication_spec(b, union_certs@[j].key) != Implication::NotImplied
                    && union_certs@[j].residual == union_certs@[j].key
                    && union_certs@[j].contains_hull),
        decreases union_certs@.len() - i,
    {
        let u = union_certs[i];
        let implied = implication(a, u.key) != Implication::NotImplied && implication(b, u.key)
            != Implication::NotImplied;
        if implied && u.residual == u.key && u.contains_hull {
            proof {
                assert(rule_c_holds(a, b, union_certs@[i as int]));
            }
            return IdentityVerdict::CertifiedEqual { rule: IdentityRule::RuleC };
        }
        i = i + 1;
    }
    IdentityVerdict::NotCertified
}

/// Node identity for two certified endpoint regions: Rule A against every
/// offered union certificate, then Rule C through the typed implication
/// relation; anything ambiguous is `NotCertified`.
pub fn regions_identify(a: ResidualId, b: ResidualId, unions: &[UnionCandidate]) -> (v: IdentityVerdict)
    ensures
        v == identity_verdict(a, b, unions@),
        (exists|i: int|
            #![trigger unions@[i]]
            0 <= i < unions@.len() && a == b && b == unions@[i].residual && unions@[i].contains_hull)
            <==> v == (IdentityVerdict::CertifiedEqual { rule: IdentityRule::RuleA }),
        v == (IdentityVerdict::CertifiedEqual { rule: IdentityRule::RuleC }) ==> exists|i: int|
            #![trigger unions@[i]]
            0 <= i < unions@.len() && implication_spec(a, unions@[i].key) != Implication::NotImplied
                && implication_spec(b, unions@[i].key) != Implication::NotImplied
                && unions@[i].residual == unions@[i].key && unions@[i].contains_hull,
{
    let mut i: usize = 0;
    while i < unions.len()
        invariant
            i <= unions@.len(),
            forall|j: int| 0 <= j < i ==> !#[trigger] rule_a_holds(a, b, unions@[j]),
            forall|j: int|
                #![trigger unions@[j]]
                0 <= j < i ==> !(a == b && b == unions@[j].residual && unions@[j].contains_hull),
        decreases unions@.len() - i,
    {
        if let IdentityVerdict::CertifiedEqual { rule } = rule_a(a, b, &unions[i]) {
            return IdentityVerdict::CertifiedEqual { rule };
        }
        i = i + 1;
    }
    rule_c(a, b, unions)
}

/// Node identity does not depend on the order of the two certificates: the
/// rules read the pair symmetrically (given union candidates read against the
/// symmetric union hull).
pub proof fn lemma_identity_symmetric(a: ResidualId, b: ResidualId, unions: Seq<UnionCandidate>)
    ensures
        identity_verdict(a, b, unions) == identity_verdict(b, a, unions),
{
    if exists|i: int| 0 <= i < unions.len() && #[trigger] rule_a_holds(a, b, unions[i]) {
        let i = choose|i: int| 0 <= i < unions.len() && #[trigger] rule_a_holds(a, b, unions[i]);
        assert(rule_a_holds(b, a, unions[i]));
    }
    if exists|i: int| 0 <= i < unions.len() && #[trigger] rule_a_holds(b, a, unions[i]) {
        let i = choose|i: int| 0 <= i < unions.len() && #[trigger] rule_a_holds(b, a, unions[i]);
        assert(rule_a_holds(a, b, unions[i]));
    }
    if exists|i: int| 0 <= i < unions.len() && #[trigger] rule_c_holds(a, b, unions[i]) {
        let i = choose|i: int| 0 <= i < unions.len() && #[trigger] rule_c_holds(a, b, unions[i]);
        assert(rule_c_holds(b, a, unions[i]));
    }
    if exists|i: int| 0 <= i < unions.len() && #[trigger] rule_c_holds(b, a, unions[i]) {
        let i = choose|i: int| 0 <= i < unions.len() && #[trigger] rule_c_holds(b, a, unions[i]);
        assert(rule_c_holds(a, b, unions[i]));
    }
}

/// An identity verdict never certifies two certificates whose residuals are
/// unrelated to every offered union certificate: a `CertifiedEqual` verdict
/// always cites a union certificate that both residuals imply.
pub proof fn lemma_identity_needs_common_residual(a: ResidualId, b: ResidualId, unions: Seq<UnionCandidate>)
    ensures
        identity_verdict(a, b, unions) != IdentityVerdict::NotCertified ==> exists|i: int|
            0 <= i < unions.len() && residual_implies(a, #[trigger] unions[i].residual) && residual_implies(
                b,
                unions[i].residual,
            ) && unions[i].contains_hull,
{
    if exists|i: int| 0 <= i < unions.len() && #[trigger] rule_a_holds(a, b, unions[i]) {
        let i = choose|i: int| 0 <= i < unions.len() && #[trigger] rule_a_holds(a, b, unions[i]);
        assert(residual_implies(a, unions[i].residual));
    } else if exists|i: int| 0 <= i < unions.len() && #[trigger] rule_c_holds(a, b, unions[i]) {
        let i = choose|i: int| 0 <= i < unions.len() && #[trigger] rule_c_holds(a, b, unions[i]);
        assert(residual_implies(a, unions[i].residual));
    }
}

/// What node identity decides, read off the offered union certificates in
/// any position: Rule A certifies exactly when some offered certificate
/// certifies the pair's common residual over the union hull; failing that,
/// Rule C certifies exactly when some offered certificate certifies, over the
/// union hull, a residual its key names and both residuals imply (the two
/// residuals may be the same one); otherwise the pair is not certified.
pub proof fn lemma_identity_verdict_laws(a: ResidualId, b: ResidualId, unions: Seq<UnionCandidate>)
    ensures
        (exists|i: int|
            #![trigger unions[i]]
            0 <= i < unions.len() && a == b && b == unions[i].residual && unions[i].contains_hull)
            <==> identity_verdict(a, b, unions) == (IdentityVerdict::CertifiedEqual {
            rule: IdentityRule::RuleA,
        }),
        identity_verdict(a, b, unions) == (IdentityVerdict::CertifiedEqual {
            rule: IdentityRule::RuleC,
        }) <==> (!(exists|i: int|
            #![trigger unions[i]]
            0 <= i < unions.len() && a == b && b == unions[i].residual && unions[i].contains_hull)
            && exists|i: int|
            #![trigger unions[i]]
            0 <= i < unions.len() && implication_spec(a, unions[i].key) != Implication::NotImplied
                && implication_spec(b, unions[i].key) != Implication::NotImplied
                && unions[i].residual == unions[i].key && unions[i].contains_hull),
        identity_verdict(a, b, unions) == IdentityVerdict::NotCertified || identity_verdict(
            a,
            b,
            unions,
        ) == (IdentityVerdict::CertifiedEqual { rule: IdentityRule::RuleA })
            || identity_verdict(a, b, unions) == (IdentityVerdict::CertifiedEqual {
            rule: IdentityRule::RuleC,
        }),
{
    if exists|i: int|
        #![trigger unions[i]]
        0 <= i < unions.len() && a == b && b == unions[i].residual && unions[i].contains_hull {
        let i = choose|i: int|
            #![trigger unions[i]]
            0 <= i < unions.len() && a == b && b == unions[i].residual && unions[i].contains_hull;
        assert(rule_a_holds(a, b, unions[i]));
    }
    if exists|i: int|
        #![trigger unions[i]]
        0 <= i < unions.len() && implication_spec(a, unions[i].key) != Implication::NotImplied
            && implication_spec(b, unions[i].key) != Implication::NotImplied
            && unions[i].residual == unions[i].key && unions[i].contains_hull {
        let i = choose|i: int|
            #![trigger unions[i]]
            0 <= i < unions.len() && implication_spec(a, unions[i].key) != Implication::NotImplied
                && implication_spec(b, unions[i].key) != Implication::NotImplied
                && unions[i].residual == unions[i].key && unions[i].contains_hull;
        assert(rule_c_holds(a, b, unions[i]));
    }
}

/// Node identity does not depend on the order in which the union
/// certificates are offered: swapping two blocks of candidates gives the same
/// verdict (in particular a certificate that satisfies Rule A is found
/// wherever it stands).
pub proof fn lemma_identity_order_free(
    a: ResidualId,
    b: ResidualId,
    left: Seq<UnionCandidate>,
    right: Seq<UnionCandidate>,
)
    ensures
        identity_verdict(a, b, left + right) == identity_verdict(a, b, right + left),
{
    let lr = left + right;
    let rl = right + left;
    if exists|i: int| 0 <= i < lr.len() && #[trigger] rule_a_holds(a, b, lr[i]) {
        let i = choose|i: int| 0 <= i < lr.len() && #[trigger] rule_a_holds(a, b, lr[i]);
        let j = if i < left.len() { right.len() + i } else { i - left.len() };
        assert(rl[j] == lr[i]);
        assert(rule_a_holds(a, b, rl[j]));
    }
    if exists|i: int| 0 <= i < rl.len() && #[trigger] rule_a_holds(a, b, rl[i]) {
        let i = choose|i: int| 0 <= i < rl.len() && #[trigger] rule_a_holds(a, b, rl[i]);
        let j = if i < right.len() { left.len() + i } else { i - right.len() };
        assert(lr[j] == rl[i]);
        assert(rule_a_holds(a, b, lr[j]));
    }
    if exists|i: int| 0 <= i < lr.len() && #[trigger] rule_c_holds(a, b, lr[i]) {
        let i = choose|i: int| 0 <= i < lr.len() && #[trigger] rule_c_holds(a, b, lr[i]);
        let j = if i < left.len() { right.len() + i } else { i - left.len() };
        assert(rl[j] == lr[i]);
        assert(rule_c_holds(a, b, rl[j]));
    }
    if exists|i: int| 0 <= i < rl.len() && #[trigger] rule_c_holds(a, b, rl[i]) {
        let i = choose|i: int| 0 <= i < rl.len() && #[trigger] rule_c_holds(a, b, rl[i]);
        let j = if i < right.len() { left.len() + i } else { i - right.len() };
        assert(lr[j] == rl[i]);
        assert(rule_c_holds(a, b, lr[j]));
    }
}

/// Identify two certified endpoint regions or refuse: a pair whose regions
/// identify under a rule yields that rule; a pair that does not is refused
/// `SliverOrNearOverlap` (Inconclusive) under `predicate`, never snapped
/// together.
pub fn identify_or_refuse(
    a: ResidualId,
    b: ResidualId,
    unions: &[UnionCandidate],
    predicate: &'static str,
) -> (res: Result<IdentityRule, Refusal>)
    ensures
        res matches Ok(rule) ==> identity_verdict(a, b, unions@) == (IdentityVerdict::CertifiedEqual { rule }),
        res is Err <==> identity_verdict(a, b, unions@) == IdentityVerdict::NotCertified,
        res matches Err(r) ==> is_refusal(r, RefusalKind::SliverOrNearOverlap, predicate),
{
    match regions_identify(a, b, unions) {
        IdentityVerdict::CertifiedEqual { rule } => Ok(rule),
        IdentityVerdict::NotCertified => Err(Refusal::new(RefusalKind::SliverOrNearOverlap, predicate)),
    }
}

/// The sampling-policy spelling of the shared-edge guard.
#[derive(Debug, Clone, Copy, PartialEq, Eq, Structural)]
pub enum SamplingFlag {
    /// A dyadic refinement request.
    Dyadic,
    /// A custom-parameters request.
    Custom,
}

/// The shared-edge guard: a custom-parameters request on an edge incident to
/// more than one face refuses `NonDyadicSharedRequest`; a dyadic request is
/// always admitted.
pub fn refuse_custom_on_shared(face_count: usize, policy: SamplingFlag) -> (res: Construction<()>)
    ensures
        res is Err <==> (face_count > 1 && policy == SamplingFlag::Custom),
        res matches Err(r) ==> is_refusal(r, RefusalKind::NonDyadicSharedRequest, "non_dyadic_shared_request"),
{
    if face_count > 1 && policy == SamplingFlag::Custom {
        return Err(Refusal::new(RefusalKind::NonDyadicSharedRequest, "non_dyadic_shared_request"));
    }
    Ok(())
}

} // verus!
