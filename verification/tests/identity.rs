use std::collections::BTreeSet;
use truck_certified::evidence::RefusalKind;
use truck_certified::identity::{
    join, refuse_custom_on_shared, regions_identify, rule_a, rule_c, DyadicRequest,
    IdentityRule, IdentityVerdict, SamplingFlag, UnionCandidate,
};
use truck_certified::residual::ResidualId;

fn req(depth: u32, leaves: &[u64]) -> DyadicRequest {
    DyadicRequest {
        depth,
        leaves: leaves.iter().copied().collect(),
    }
}

fn set(v: &[u64]) -> BTreeSet<u64> {
    v.iter().copied().collect()
}

#[test]
fn join_lifts_shallow_requests_by_exact_expansion() {
    // address 1 at depth 1 is [1/2, 1); at depth 3 it is addresses 4..8.
    let joined = join(req(1, &[1]), &[req(3, &[0])]).expect("addressable");
    assert_eq!(joined.depth, 3);
    assert_eq!(joined.nodes, set(&[0, 4, 5, 6, 7]));
}

#[test]
fn join_of_a_single_request_is_itself() {
    let joined = join(req(4, &[0, 3, 15]), &[]).expect("addressable");
    assert_eq!(joined.depth, 4);
    assert_eq!(joined.nodes, set(&[0, 3, 15]));
}

#[test]
fn join_is_commutative_on_concrete_requests() {
    let a = || req(2, &[1, 2]);
    let b = || req(3, &[0, 7]);
    let ab = join(a(), &[b()]).expect("addressable");
    let ba = join(b(), &[a()]).expect("addressable");
    assert_eq!(ab.depth, ba.depth);
    assert_eq!(ab.nodes, ba.nodes);
    assert_eq!(ab.nodes, set(&[0, 2, 3, 4, 5, 7]));
}

#[test]
fn join_is_idempotent_on_concrete_requests() {
    let joined = join(req(3, &[1, 6]), &[req(3, &[1, 6])]).expect("addressable");
    assert_eq!(joined.depth, 3);
    assert_eq!(joined.nodes, set(&[1, 6]));
}

#[test]
fn join_is_associative_on_concrete_requests() {
    let a = || req(1, &[0]);
    let b = || req(2, &[3]);
    let c = || req(3, &[2]);
    let ab = join(a(), &[b()]).expect("addressable");
    let left = join(
        DyadicRequest {
            depth: ab.depth,
            leaves: ab.nodes,
        },
        &[c()],
    )
    .expect("addressable");
    let bc = join(b(), &[c()]).expect("addressable");
    let right = join(
        a(),
        &[DyadicRequest {
            depth: bc.depth,
            leaves: bc.nodes,
        }],
    )
    .expect("addressable");
    assert_eq!(left.depth, right.depth);
    assert_eq!(left.nodes, right.nodes);
    assert_eq!(left.nodes, set(&[0, 1, 2, 3, 6, 7]));
}

#[test]
fn join_at_the_deepest_addressable_depth() {
    let top = (1u64 << 63) - 1;
    let joined = join(req(63, &[top]), &[req(62, &[0])]).expect("addressable");
    assert_eq!(joined.depth, 63);
    assert_eq!(joined.nodes, set(&[0, 1, top]));
}

#[test]
fn join_refuses_an_unaddressable_depth() {
    let r = join(req(64, &[]), &[]).expect_err("depth 64 does not fit");
    assert_eq!(r.kind, RefusalKind::ClaimRefuted);
    assert_eq!(r.predicate, "dyadic_depth_unaddressable");
    let r = join(req(2, &[1]), &[req(70, &[0])]).expect_err("depth 70 does not fit");
    assert_eq!(r.predicate, "dyadic_depth_unaddressable");
}

#[test]
fn join_refuses_a_leaf_out_of_range() {
    let r = join(req(2, &[4]), &[]).expect_err("4 is not below 2^2");
    assert_eq!(r.kind, RefusalKind::ClaimRefuted);
    assert_eq!(r.predicate, "dyadic_leaf_out_of_range");
    // The base is checked before the others.
    let r = join(req(1, &[2]), &[req(65, &[])]).expect_err("base first");
    assert_eq!(r.predicate, "dyadic_leaf_out_of_range");
    let r = join(req(1, &[1]), &[req(2, &[1]), req(1, &[5]), req(99, &[])]).expect_err("order");
    assert_eq!(r.predicate, "dyadic_leaf_out_of_range");
}

fn cand(key: ResidualId, residual: ResidualId, contains_hull: bool) -> UnionCandidate {
    UnionCandidate {
        key,
        residual,
        contains_hull,
    }
}

#[test]
fn rule_a_needs_equal_residuals_and_containment() {
    let u = cand(ResidualId::R1, ResidualId::R1, true);
    assert_eq!(
        rule_a(ResidualId::R1, ResidualId::R1, &u),
        IdentityVerdict::CertifiedEqual {
            rule: IdentityRule::RuleA
        }
    );
    assert_eq!(
        rule_a(ResidualId::R1, ResidualId::R2, &u),
        IdentityVerdict::NotCertified
    );
    let no_hull = cand(ResidualId::R1, ResidualId::R1, false);
    assert_eq!(
        rule_a(ResidualId::R1, ResidualId::R1, &no_hull),
        IdentityVerdict::NotCertified
    );
}

#[test]
fn rule_c_identifies_through_a_common_weaker_residual() {
    let unions = [
        cand(ResidualId::R3, ResidualId::R3, true),
        cand(ResidualId::R1, ResidualId::R1, true),
    ];
    assert_eq!(
        rule_c(ResidualId::R2, ResidualId::R1, &unions),
        IdentityVerdict::CertifiedEqual {
            rule: IdentityRule::RuleC
        }
    );
    // A union certificate whose own residual disagrees with its key is refused.
    let mismatched = [cand(ResidualId::R1, ResidualId::R2, true)];
    assert_eq!(
        rule_c(ResidualId::R2, ResidualId::R1, &mismatched),
        IdentityVerdict::NotCertified
    );
    // R8 implies nothing but itself.
    assert_eq!(
        rule_c(ResidualId::R8, ResidualId::R1, &unions),
        IdentityVerdict::NotCertified
    );
}

#[test]
fn regions_identify_prefers_rule_a_then_rule_c() {
    let unions = [
        cand(ResidualId::R1, ResidualId::R1, true),
    ];
    assert_eq!(
        regions_identify(ResidualId::R1, ResidualId::R1, &unions),
        IdentityVerdict::CertifiedEqual {
            rule: IdentityRule::RuleA
        }
    );
    assert_eq!(
        regions_identify(ResidualId::R2, ResidualId::R1, &unions),
        IdentityVerdict::CertifiedEqual {
            rule: IdentityRule::RuleC
        }
    );
    assert_eq!(
        regions_identify(ResidualId::R1, ResidualId::R2, &unions),
        regions_identify(ResidualId::R2, ResidualId::R1, &unions)
    );
    assert_eq!(
        regions_identify(ResidualId::R1, ResidualId::R1, &[]),
        IdentityVerdict::NotCertified
    );
    let far = [cand(ResidualId::R1, ResidualId::R1, false)];
    assert_eq!(
        regions_identify(ResidualId::R1, ResidualId::R1, &far),
        IdentityVerdict::NotCertified
    );
}

#[test]
fn custom_sampling_on_a_shared_edge_refuses() {
    let r = refuse_custom_on_shared(2, SamplingFlag::Custom).expect_err("shared custom");
    assert_eq!(r.kind, RefusalKind::NonDyadicSharedRequest);
    assert_eq!(r.predicate, "non_dyadic_shared_request");
    assert!(refuse_custom_on_shared(1, SamplingFlag::Custom).is_ok());
    assert!(refuse_custom_on_shared(5, SamplingFlag::Dyadic).is_ok());
    assert!(refuse_custom_on_shared(0, SamplingFlag::Custom).is_ok());
}
