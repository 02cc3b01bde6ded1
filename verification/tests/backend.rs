use std::collections::HashMap;

use snarkvm_circuit::{Circuit, Environment, Field, Inject, Mode};
use snarkvm_circuit_environment::LinearCombination;
use snarkvm_console_network::Testnet3;
use snarkvm_curves::bls12_377::Fr;
use snarkvm_fields::PrimeField;
use snarkvm_utilities::BigInteger256;
use zprize::field::{FieldElement, MODULUS_LIMBS};
use zprize::r1cs_provider::builder::{self, run_circuit, ConstraintSystem};
use zprize::r1cs_provider::deserialize::{Assignment, BigInt, Constraint, R1CS};

type F = Field<Circuit>;

fn to_fr(element: &FieldElement) -> Fr {
    Fr::from_bigint(BigInteger256(element.to_bigint().0)).unwrap()
}

fn combination(fields: &[F], source: &builder::LinearCombination) -> F {
    let mut f: F = F::from(Circuit::zero());
    for term in source.get_terms() {
        let coefficient = to_fr(&term.coefficient);
        f += &F::from(LinearCombination::from(&fields[term.index]) * (&coefficient));
    }
    f
}

/// Lays the rows down in the backend's circuit and asks it whether they hold.
fn backend_is_satisfied(cs: &ConstraintSystem) -> bool {
    Circuit::reset();
    let wires = cs.get_wires();
    let mut fields: Vec<F> = vec![F::from(Circuit::one())];
    for (wire, public) in wires.iter().zip(cs.get_modes()).skip(1) {
        let mode = if *public { Mode::Public } else { Mode::Private };
        fields.push(F::new(mode, snarkvm_console::types::Field::<Testnet3>::new(to_fr(wire))));
    }
    for row in cs.get_rows() {
        let a = combination(&fields, &row.a);
        let b = combination(&fields, &row.b);
        let c = combination(&fields, &row.c);
        Circuit::enforce(|| (a, b, c));
    }
    let satisfied = Circuit::is_satisfied();
    assert_eq!(Circuit::num_constraints() as usize, cs.stats().num_constraints);
    assert_eq!(Circuit::num_public() as usize, cs.stats().num_public);
    assert_eq!(Circuit::num_private() as usize, cs.stats().num_private);
    Circuit::reset();
    satisfied
}

fn small(x: u64) -> BigInt {
    BigInt([x, 0, 0, 0])
}

fn sparse(entries: &[(usize, u64)]) -> HashMap<usize, BigInt> {
    entries.iter().map(|(k, v)| (*k, small(*v))).collect()
}

fn row(a: &[(usize, u64)], b: &[(usize, u64)], c: &[(usize, u64)]) -> Constraint {
    Constraint { a: sparse(a), b: sparse(b), c: sparse(c) }
}

fn witness(values: &[u64]) -> Assignment {
    Assignment::new(values.iter().map(|v| small(*v)).collect(), values.len(), 0).unwrap()
}

#[test]
fn the_backend_accepts_the_product() {
    let r1cs = R1CS(vec![row(&[(1, 1)], &[(2, 1)], &[(3, 1)])]);
    let cs = run_circuit(&r1cs, &witness(&[2, 3, 6]), &None).unwrap();
    assert!(cs.is_satisfied());
    assert!(backend_is_satisfied(&cs));
}

#[test]
fn the_backend_refuses_the_wrong_product() {
    let r1cs = R1CS(vec![row(&[(1, 1)], &[(2, 1)], &[(3, 1)])]);
    let cs = run_circuit(&r1cs, &witness(&[2, 3, 7]), &None).unwrap();
    assert!(!cs.is_satisfied());
    assert!(!backend_is_satisfied(&cs));
}

#[test]
fn the_backend_reads_index_zero_as_the_constant_too() {
    // With the constant wire prepended, `{0: 1} * {1: 1} = {2: 1}` says
    // 1 * w1 = w2: of the variables 2, 3, 6 that is 1 * 2 = 3.
    let r1cs = R1CS(vec![row(&[(0, 1)], &[(1, 1)], &[(2, 1)])]);
    let cs = run_circuit(&r1cs, &witness(&[2, 3, 6]), &None).unwrap();
    assert!(!cs.is_satisfied());
    assert!(!backend_is_satisfied(&cs));
    let cs = run_circuit(&r1cs, &witness(&[2, 2, 6]), &None).unwrap();
    assert!(cs.is_satisfied());
    assert!(backend_is_satisfied(&cs));
}

#[test]
fn the_backend_agrees_on_larger_rows() {
    let top = BigInt([MODULUS_LIMBS[0] - 1, MODULUS_LIMBS[1], MODULUS_LIMBS[2], MODULUS_LIMBS[3]]);
    let mut a = HashMap::new();
    a.insert(1usize, top);
    a.insert(2usize, small(3));
    a.insert(0usize, small(5));
    // (-w1 + 3*w2 + 5) * (w3 + w1) = w4, with w = [1, 10, 20, 2, 660]:
    // (-10 + 60 + 5) * 12 = 660.
    let r1cs = R1CS(vec![
        Constraint { a, b: sparse(&[(3, 1), (1, 1)]), c: sparse(&[(4, 1)]) },
        row(&[(1, 2)], &[(3, 1)], &[(2, 2)]),
    ]);
    let good = run_circuit(&r1cs, &witness(&[10, 20, 2, 660]), &None).unwrap();
    assert_eq!(good.get_rows()[0].a.get_value().to_bigint().0, [55, 0, 0, 0]);
    assert!(good.is_satisfied());
    assert!(backend_is_satisfied(&good));
    let bad = run_circuit(&r1cs, &witness(&[10, 20, 2, 661]), &None).unwrap();
    assert!(!bad.is_satisfied());
    assert!(!backend_is_satisfied(&bad));
    let bad = run_circuit(&r1cs, &witness(&[10, 21, 2, 660]), &None).unwrap();
    assert!(!bad.is_satisfied());
    assert!(!backend_is_satisfied(&bad));
}

#[test]
fn the_backend_computes_the_same_values() {
    let top = BigInt([MODULUS_LIMBS[0] - 1, MODULUS_LIMBS[1], MODULUS_LIMBS[2], MODULUS_LIMBS[3]]);
    let x = FieldElement::from_bigint(&top).unwrap();
    let y = FieldElement::from_bigint(&BigInt([7, 6, 5, 4])).unwrap();
    assert_eq!(to_fr(&x.mul(&y)), to_fr(&x) * to_fr(&y));
    assert_eq!(to_fr(&x.add(&y)), to_fr(&x) + to_fr(&y));
    assert_eq!(to_fr(&FieldElement::one()), Fr::from(1u64));
    assert_eq!(to_fr(&FieldElement::from_u32(77)), Fr::from(77u32));
}

#[test]
fn the_backend_agrees_with_private_wires_too() {
    let r1cs = R1CS(vec![row(&[(2, 1)], &[(3, 1)], &[(1, 1)])]);
    let a = Assignment::new(vec![small(6), small(2), small(3)], 1, 2).unwrap();
    let cs = run_circuit(&r1cs, &a, &None).unwrap();
    assert!(cs.is_satisfied());
    assert!(backend_is_satisfied(&cs));
    let a = Assignment::new(vec![small(7), small(2), small(3)], 1, 2).unwrap();
    let cs = run_circuit(&r1cs, &a, &None).unwrap();
    assert!(!cs.is_satisfied());
    assert!(!backend_is_satisfied(&cs));
}
