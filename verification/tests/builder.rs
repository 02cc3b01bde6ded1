use std::collections::HashMap;

use zprize::error::BuildError;
use zprize::field::{FieldElement, MODULUS_LIMBS};
use zprize::r1cs_provider::builder::{construct_r1cs, run_circuit, ConstraintSystem, Row};
use zprize::r1cs_provider::deserialize::{Assignment, BigInt, Constraint, Lookup, LookupTable, R1CS};

fn small(x: u64) -> BigInt {
    BigInt([x, 0, 0, 0])
}

fn sparse(entries: &[(usize, u64)]) -> HashMap<usize, BigInt> {
    let mut m = HashMap::new();
    for (k, v) in entries {
        m.insert(*k, small(*v));
    }
    m
}

fn row(a: &[(usize, u64)], b: &[(usize, u64)], c: &[(usize, u64)]) -> Constraint {
    Constraint { a: sparse(a), b: sparse(b), c: sparse(c) }
}

fn witness(values: &[u64]) -> Assignment {
    Assignment::new(values.iter().map(|v| small(*v)).collect(), values.len(), 0).unwrap()
}

#[test]
fn product_row_holds() {
    let r1cs = R1CS(vec![row(&[(1, 1)], &[(2, 1)], &[(3, 1)])]);
    let cs: ConstraintSystem = run_circuit(&r1cs, &witness(&[2, 3, 6]), &None).unwrap();
    assert!(cs.is_satisfied());
}

#[test]
fn product_row_violated() {
    let r1cs = R1CS(vec![row(&[(1, 1)], &[(2, 1)], &[(3, 1)])]);
    let cs = run_circuit(&r1cs, &witness(&[2, 3, 7]), &None).unwrap();
    assert!(!cs.is_satisfied());
}

#[test]
fn index_zero_is_the_constant_wire() {
    // 1 * w1 = w2 with the constant wire on the left.
    let r1cs = R1CS(vec![row(&[(0, 1)], &[(1, 1)], &[(2, 1)])]);
    let cs = run_circuit(&r1cs, &witness(&[2, 2, 6]), &None).unwrap();
    assert!(cs.is_satisfied());
    let cs = run_circuit(&r1cs, &witness(&[2, 3, 6]), &None).unwrap();
    assert!(!cs.is_satisfied());
}

#[test]
fn wire_vector_starts_with_one() {
    let cs = run_circuit(&R1CS(vec![]), &witness(&[2, 3, 6]), &None).unwrap();
    let wires = cs.get_wires();
    assert_eq!(wires.len(), 4);
    assert_eq!(wires[0].to_bigint().0, [1, 0, 0, 0]);
    assert_eq!(wires[1].to_bigint().0, [2, 0, 0, 0]);
    assert_eq!(wires[2].to_bigint().0, [3, 0, 0, 0]);
    assert_eq!(wires[3].to_bigint().0, [6, 0, 0, 0]);
    let cs = run_circuit(&R1CS(vec![]), &witness(&[]), &None).unwrap();
    assert_eq!(cs.get_wires().len(), 1);
    assert!(cs.is_satisfied());
}

#[test]
fn sums_every_term_once() {
    // (2*w1 + 3*w2 + 5) * (w3) = 4*w4 + w1, with w = [1, 10, 20, 2, 42]
    // left: 20 + 60 + 5 = 85; 85 * 2 = 170; right: 4*40 + 10 = 170.
    let r1cs = R1CS(vec![row(&[(1, 2), (2, 3), (0, 5)], &[(3, 1)], &[(4, 4), (1, 1)])]);
    let cs = run_circuit(&r1cs, &witness(&[10, 20, 2, 40]), &None).unwrap();
    assert!(cs.is_satisfied());
    let rows = cs.get_rows();
    assert_eq!(rows.len(), 1);
    assert_eq!(rows[0].a.get_terms().len(), 3);
    assert_eq!(rows[0].a.get_value().to_bigint().0, [85, 0, 0, 0]);
    assert_eq!(rows[0].b.get_value().to_bigint().0, [2, 0, 0, 0]);
    assert_eq!(rows[0].c.get_value().to_bigint().0, [170, 0, 0, 0]);
    let mut indices: Vec<usize> = rows[0].a.get_terms().iter().map(|t| t.index).collect();
    indices.sort();
    assert_eq!(indices, vec![0, 1, 2]);
}

#[test]
fn values_wrap_at_the_modulus() {
    // (p - 1) * (p - 1) = 1 in the field.
    let top = BigInt([MODULUS_LIMBS[0] - 1, MODULUS_LIMBS[1], MODULUS_LIMBS[2], MODULUS_LIMBS[3]]);
    let mut a = HashMap::new();
    a.insert(1usize, top);
    let r1cs = R1CS(vec![Constraint { a, b: sparse(&[(1, 1)]), c: sparse(&[(0, 1)]) }]);
    let assignment = Assignment::new(vec![top], 1, 0).unwrap();
    let cs = run_circuit(&r1cs, &assignment, &None).unwrap();
    assert_eq!(cs.get_rows()[0].a.get_value().to_bigint().0, [1, 0, 0, 0]);
    assert!(!cs.is_satisfied());
    let mut a = HashMap::new();
    a.insert(1usize, small(1));
    let r1cs = R1CS(vec![Constraint { a, b: sparse(&[(1, 1)]), c: sparse(&[(0, 1)]) }]);
    let cs = run_circuit(&r1cs, &assignment, &None).unwrap();
    assert!(cs.is_satisfied());
}

#[test]
fn empty_combination_is_zero() {
    let r1cs = R1CS(vec![row(&[], &[(1, 1)], &[])]);
    let cs = run_circuit(&r1cs, &witness(&[9]), &None).unwrap();
    assert!(cs.is_satisfied());
    let r1cs = R1CS(vec![row(&[], &[(1, 1)], &[(1, 1)])]);
    let cs = run_circuit(&r1cs, &witness(&[9]), &None).unwrap();
    assert!(!cs.is_satisfied());
}

#[test]
fn wire_out_of_range_is_a_malformed_constraint() {
    let r1cs = R1CS(vec![row(&[(4, 1)], &[(2, 1)], &[(3, 1)])]);
    assert_eq!(
        run_circuit(&r1cs, &witness(&[2, 3, 6]), &None).unwrap_err(),
        BuildError::MalformedConstraint
    );
    let r1cs = R1CS(vec![row(&[(3, 1)], &[(2, 1)], &[(3, 1)])]);
    assert!(run_circuit(&r1cs, &witness(&[2, 3, 6]), &None).is_ok());
}

#[test]
fn wire_out_of_range_is_found_before_a_bad_coefficient() {
    let mut a = HashMap::new();
    a.insert(1usize, BigInt(MODULUS_LIMBS));
    let bad = Constraint { a, b: sparse(&[]), c: sparse(&[(9, 1)]) };
    let r1cs = R1CS(vec![bad]);
    assert_eq!(
        run_circuit(&r1cs, &witness(&[2, 3, 6]), &None).unwrap_err(),
        BuildError::MalformedConstraint
    );
}

#[test]
fn coefficient_at_the_modulus_is_a_malformed_number() {
    let mut a = HashMap::new();
    a.insert(1usize, BigInt(MODULUS_LIMBS));
    let r1cs = R1CS(vec![Constraint { a, b: sparse(&[]), c: sparse(&[]) }]);
    assert_eq!(
        run_circuit(&r1cs, &witness(&[2, 3, 6]), &None).unwrap_err(),
        BuildError::MalformedNumber
    );
}

#[test]
fn variable_at_the_modulus_is_a_malformed_number() {
    let assignment = Assignment::new(vec![small(1), BigInt(MODULUS_LIMBS)], 2, 0).unwrap();
    // The row names a wire out of range too: the variables are converted first.
    let r1cs = R1CS(vec![row(&[(7, 1)], &[], &[])]);
    assert_eq!(run_circuit(&r1cs, &assignment, &None).unwrap_err(), BuildError::MalformedNumber);
}

#[test]
fn the_first_bad_row_decides() {
    let mut a = HashMap::new();
    a.insert(1usize, BigInt(MODULUS_LIMBS));
    let number = Constraint { a, b: sparse(&[]), c: sparse(&[]) };
    let index = row(&[(9, 1)], &[], &[]);
    let r1cs = R1CS(vec![row(&[], &[], &[]), number, index]);
    assert_eq!(
        run_circuit(&r1cs, &witness(&[2, 3, 6]), &None).unwrap_err(),
        BuildError::MalformedNumber
    );
}

fn lookup(table: &[[u32; 3]], rows: Vec<Constraint>) -> Option<Lookup> {
    Some(Lookup { table: LookupTable(table.to_vec()), constraints: rows })
}

#[test]
fn lookup_finds_its_triple() {
    let l = lookup(&[[1, 1, 2], [3, 12, 15]], vec![row(&[(1, 1)], &[(2, 1)], &[(3, 1)])]);
    let cs = run_circuit(&R1CS(vec![]), &witness(&[3, 12, 15]), &l).unwrap();
    assert!(cs.is_satisfied());
    let stats = cs.stats();
    assert_eq!(stats.num_lookup_tables, 1);
    assert_eq!(stats.num_lookup_constraints, 1);
    assert_eq!(cs.get_lookups()[0].table_index, 0);
    assert_eq!(cs.get_tables()[0][1][2].to_bigint().0, [15, 0, 0, 0]);
}

#[test]
fn lookup_misses_an_absent_triple() {
    let l = lookup(&[[1, 1, 2], [3, 12, 15]], vec![row(&[(1, 1)], &[(2, 1)], &[(3, 1)])]);
    let cs = run_circuit(&R1CS(vec![]), &witness(&[3, 12, 16]), &l).unwrap();
    assert!(!cs.is_satisfied());
    let cs = run_circuit(&R1CS(vec![]), &witness(&[12, 3, 15]), &l).unwrap();
    assert!(!cs.is_satisfied());
}

#[test]
fn lookup_in_an_empty_table_fails() {
    let l = lookup(&[], vec![row(&[(1, 1)], &[(2, 1)], &[(3, 1)])]);
    let cs = run_circuit(&R1CS(vec![]), &witness(&[3, 12, 15]), &l).unwrap();
    assert!(!cs.is_satisfied());
    let l = lookup(&[], vec![]);
    let cs = run_circuit(&R1CS(vec![]), &witness(&[3, 12, 15]), &l).unwrap();
    assert!(cs.is_satisfied());
    assert_eq!(cs.stats().num_lookup_tables, 1);
}

#[test]
fn lookup_row_is_not_a_product_row() {
    // 3 * 12 is not 15, but the triple is in the table.
    let l = lookup(&[[3, 12, 15]], vec![row(&[(1, 1)], &[(2, 1)], &[(3, 1)])]);
    let cs = run_circuit(&R1CS(vec![]), &witness(&[3, 12, 15]), &l).unwrap();
    assert!(cs.is_satisfied());
}

#[test]
fn bad_lookup_row_fails_the_build() {
    let l = lookup(&[[3, 12, 15]], vec![row(&[(8, 1)], &[(2, 1)], &[(3, 1)])]);
    assert_eq!(
        run_circuit(&R1CS(vec![]), &witness(&[3, 12, 15]), &l).unwrap_err(),
        BuildError::MalformedConstraint
    );
}

#[test]
fn stats_count_what_was_enforced() {
    let r1cs = R1CS(vec![
        row(&[(1, 2), (2, 3), (0, 5)], &[(3, 1)], &[(4, 4), (1, 1)]),
        row(&[(1, 1)], &[], &[(2, 1)]),
    ]);
    let l = lookup(&[[1, 2, 3]], vec![row(&[(1, 1)], &[(2, 1)], &[(3, 1), (4, 1)])]);
    let cs = run_circuit(&r1cs, &witness(&[10, 20, 2, 40]), &l).unwrap();
    let stats = cs.stats();
    assert_eq!(stats.num_constraints, 2);
    assert_eq!(stats.num_public, 5);
    assert_eq!(stats.num_lookup_tables, 1);
    assert_eq!(stats.num_lookup_constraints, 1);
    assert_eq!(stats.num_nonzeros, (5, 2, 5));
}

#[test]
fn construct_fills_a_fresh_system() {
    let mut cs = ConstraintSystem::new();
    let r1cs = R1CS(vec![row(&[(1, 1)], &[(2, 1)], &[(3, 1)])]);
    construct_r1cs(&r1cs, &witness(&[2, 3, 6]), &None, &mut cs).unwrap();
    assert!(cs.is_satisfied());
    assert_eq!(cs.stats().num_constraints, 1);
    cs.reset();
    assert_eq!(cs.stats().num_constraints, 0);
    assert_eq!(cs.stats().num_public, 1);
    construct_r1cs(&r1cs, &witness(&[2, 3, 7]), &None, &mut cs).unwrap();
    assert!(!cs.is_satisfied());
}

#[test]
fn counts_must_add_up() {
    assert!(Assignment::new(vec![small(1), small(2)], 1, 1).is_ok());
    assert!(Assignment::new(vec![small(1), small(2)], 2, 0).is_ok());
    assert!(Assignment::new(vec![small(1), small(2)], 1, 0).is_err());
    assert!(Assignment::new(vec![small(1), small(2)], 2, 1).is_err());
    assert!(Assignment::new(vec![], usize::MAX, 1).is_err());
}

#[test]
fn rows_can_be_enforced_one_by_one() {
    let mut cs = ConstraintSystem::new();
    assert_eq!(cs.inject(FieldElement::from_u32(4), true), 1);
    assert_eq!(cs.inject(FieldElement::from_u32(5), false), 2);
    assert_eq!(cs.inject(FieldElement::from_u32(20), false), 3);
    assert_eq!(cs.get_modes(), &vec![true, true, false, false]);
    assert_eq!(cs.stats().num_public, 2);
    assert_eq!(cs.stats().num_private, 2);
    let a = cs.combine(&sparse(&[(1, 1)])).unwrap();
    let b = cs.combine(&sparse(&[(2, 1)])).unwrap();
    let c = cs.combine(&sparse(&[(3, 1)])).unwrap();
    assert_eq!(c.get_value().to_bigint().0, [20, 0, 0, 0]);
    cs.enforce(Row { a, b, c });
    assert!(cs.is_satisfied());
    assert_eq!(cs.combine(&sparse(&[(4, 1)])).unwrap_err(), BuildError::MalformedConstraint);
    let mut bad = HashMap::new();
    bad.insert(1usize, BigInt(MODULUS_LIMBS));
    assert_eq!(cs.combine(&bad).unwrap_err(), BuildError::MalformedNumber);
    bad.insert(9usize, BigInt(MODULUS_LIMBS));
    assert_eq!(cs.combine(&bad).unwrap_err(), BuildError::MalformedConstraint);
}

#[test]
fn primary_inputs_are_public_and_the_others_private() {
    let a = Assignment::new(vec![small(2), small(3), small(6)], 1, 2).unwrap();
    let cs = run_circuit(&R1CS(vec![]), &a, &None).unwrap();
    assert_eq!(cs.get_modes(), &vec![true, true, false, false]);
    assert_eq!(cs.stats().num_public, 2);
    assert_eq!(cs.stats().num_private, 2);
    let cs = run_circuit(&R1CS(vec![]), &witness(&[2, 3, 6]), &None).unwrap();
    assert_eq!(cs.get_modes(), &vec![true; 4]);
    assert_eq!(cs.stats().num_private, 0);
    let a = Assignment::new(vec![small(2), small(3)], 0, 2).unwrap();
    let cs = run_circuit(&R1CS(vec![]), &a, &None).unwrap();
    assert_eq!(cs.get_modes(), &vec![true, false, false]);
}
