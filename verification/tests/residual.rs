use truck_certified::residual::{implication, Implication, ResidualId};

/// The 11 ids, in declaration order.
const ALL: [ResidualId; 11] = [
    ResidualId::R1,
    ResidualId::R2,
    ResidualId::R3,
    ResidualId::R4,
    ResidualId::R4Prime,
    ResidualId::R5,
    ResidualId::R6,
    ResidualId::R7,
    ResidualId::R8,
    ResidualId::R9,
    ResidualId::Carrier,
];

/// The expected cell of the full 11×11 table.
fn expect_cell(stronger: ResidualId, weaker: ResidualId) -> Implication {
    if matches!((stronger, weaker), (ResidualId::R2, ResidualId::R1)) {
        Implication::Stronger
    } else if stronger == weaker {
        Implication::Equivalent
    } else {
        Implication::NotImplied
    }
}

#[test]
fn implication_table_is_exactly_rule_c() {
    for &stronger in &ALL {
        for &weaker in &ALL {
            assert_eq!(
                implication(stronger, weaker),
                expect_cell(stronger, weaker),
                "implication({stronger:?} ⊒ {weaker:?})"
            );
        }
    }
}

#[test]
fn implication_is_a_partial_order_on_concrete_residuals() {
    for &a in &ALL {
        assert_eq!(implication(a, a), Implication::Equivalent);
        for &b in &ALL {
            if a != b && implication(a, b) != Implication::NotImplied {
                assert_eq!(implication(b, a), Implication::NotImplied);
            }
            for &c in &ALL {
                if implication(a, b) != Implication::NotImplied
                    && implication(b, c) != Implication::NotImplied
                {
                    assert_ne!(implication(a, c), Implication::NotImplied);
                }
            }
        }
    }
}

#[test]
fn r7_r8_r9_imply_nothing_else() {
    for &a in &[ResidualId::R7, ResidualId::R8, ResidualId::R9] {
        for &b in &ALL {
            if a != b {
                assert_eq!(implication(a, b), Implication::NotImplied);
                assert_eq!(implication(b, a), Implication::NotImplied);
            }
        }
    }
}
