use std::collections::{BTreeMap, HashMap};

use rand::rngs::OsRng;
use snarkvm_algorithms::{
    crypto_hash::PoseidonSponge,
    snark::varuna::{self, AHPForR1CS, VarunaHidingMode},
    traits::SNARK,
};
use snarkvm_circuit::{Circuit, Environment, Field, Inject, Mode};
use snarkvm_circuit_environment::{Assignment as BackendAssignment, LinearCombination};
use snarkvm_console::network::Testnet3;
use snarkvm_console_network::Network;
use snarkvm_curves::bls12_377::{Bls12_377, Fq, Fr};
use snarkvm_fields::PrimeField;
use snarkvm_utilities::BigInteger256;
use zprize::api::batch_public_inputs;
use zprize::batch::expand_batch;
use zprize::field::FieldElement;
use zprize::r1cs_provider::builder::{self, run_circuit, ConstraintSystem};
use zprize::r1cs_provider::deserialize::{Assignment, BigInt, Constraint, R1CS};

type FS = PoseidonSponge<Fq, 2, 1>;
type VarunaInst = varuna::VarunaSNARK<Bls12_377, FS, VarunaHidingMode>;
type F = Field<Circuit>;

fn to_fr(element: &FieldElement) -> Fr {
    Fr::from_bigint(BigInteger256(element.to_bigint().0)).unwrap()
}

fn combination(fields: &[F], source: &builder::LinearCombination) -> F {
    let mut f: F = F::from(Circuit::zero());
    for term in source.get_terms() {
        let coefficient = to_fr(&term.coefficient);
        f += &F::from(LinearCombination::from(&fields[term.index]) * (&coefficient));
    }
    f
}

fn eject(cs: &ConstraintSystem) -> BackendAssignment<Fr> {
    Circuit::reset();
    let wires = cs.get_wires();
    let mut fields: Vec<F> = vec![F::from(Circuit::one())];
    for (wire, public) in wires.iter().zip(cs.get_modes()).skip(1) {
        let mode = if *public { Mode::Public } else { Mode::Private };
        fields.push(F::new(mode, snarkvm_console::types::Field::<Testnet3>::new(to_fr(wire))));
    }
    for row in cs.get_rows() {
        let a = combination(&fields, &row.a);
        let b = combination(&fields, &row.b);
        let c = combination(&fields, &row.c);
        Circuit::enforce(|| (a, b, c));
    }
    Circuit::eject_assignment_and_reset()
}

fn small(x: u64) -> BigInt {
    BigInt([x, 0, 0, 0])
}

fn sparse(entries: &[(usize, u64)]) -> HashMap<usize, BigInt> {
    entries.iter().map(|(k, v)| (*k, small(*v))).collect()
}

/// `w2 * w3 = w1`: the product is public, the factors are private.
fn product_circuit() -> R1CS {
    R1CS(vec![Constraint { a: sparse(&[(2, 1)]), b: sparse(&[(3, 1)]), c: sparse(&[(1, 1)]) }])
}

fn product_witness(i: u64) -> Assignment {
    Assignment::new(vec![small((i + 2) * 3), small(i + 2), small(3)], 1, 2).unwrap()
}

#[test]
fn a_batch_of_64_proves_and_verifies_in_order_only() {
    let r1cs = product_circuit();
    let next = std::cell::Cell::new(0u64);
    let batch = expand_batch(
        || {
            let i = next.get();
            next.set(i + 1);
            run_circuit(&r1cs, &product_witness(i), &None)
        },
        64,
    )
    .unwrap();
    assert_eq!(batch.len(), 64);

    // The base took the first call; instance `n` took call `n + 1`.
    let witnesses: Vec<Assignment> = (0..64).map(|n| product_witness(n + 1)).collect();
    let assignments: Vec<BackendAssignment<Fr>> = batch
        .iter()
        .zip(&witnesses)
        .map(|(item, witness)| {
            assert!(item.assignment.is_satisfied());
            assert_eq!(item.assignment.get_wires()[1].to_bigint().0, witness.variables[0].0);
            eject(&item.assignment)
        })
        .collect();

    let inputs: Vec<Vec<Fr>> = batch_public_inputs(&witnesses)
        .unwrap()
        .iter()
        .map(|inputs| std::iter::once(Fr::from(1u64)).chain(inputs.iter().map(to_fr)).collect())
        .collect();
    for (n, (ours, theirs)) in inputs.iter().zip(&assignments).enumerate() {
        let theirs: Vec<Fr> = theirs.public_inputs().iter().map(|(_, x)| *x).collect();
        assert_eq!(*ours, theirs);
        assert_eq!(*ours, vec![Fr::from(1u64), Fr::from((n as u64 + 3) * 3)]);
    }

    let max_degree = AHPForR1CS::<Fr, VarunaHidingMode>::max_degree(100, 100, 100).unwrap();
    let urs = VarunaInst::universal_setup(max_degree).unwrap();
    let (pk, vk) = VarunaInst::circuit_setup(&urs, &assignments[0]).unwrap();
    let universal_prover = urs.to_universal_prover().unwrap();
    let universal_verifier = urs.to_universal_verifier().unwrap();
    let fiat_shamir = Testnet3::varuna_fs_parameters();

    let mut pks_to_constraints = BTreeMap::new();
    pks_to_constraints.insert(&pk, &assignments[..]);
    let proof =
        VarunaInst::prove_batch(&universal_prover, fiat_shamir, &pks_to_constraints, &mut OsRng).unwrap();

    let mut vks_to_inputs = BTreeMap::new();
    vks_to_inputs.insert(&vk, &inputs[..]);
    assert!(VarunaInst::verify_batch(&universal_verifier, fiat_shamir, &vks_to_inputs, &proof).unwrap());

    let mut permuted = inputs.clone();
    permuted.swap(0, 63);
    let mut vks_to_inputs = BTreeMap::new();
    vks_to_inputs.insert(&vk, &permuted[..]);
    let verified = VarunaInst::verify_batch(&universal_verifier, fiat_shamir, &vks_to_inputs, &proof);
    assert!(!verified.unwrap_or(false));
}

#[test]
fn a_batch_of_one_proves_and_verifies() {
    let r1cs = product_circuit();
    let batch = expand_batch(|| run_circuit(&r1cs, &product_witness(5), &None), 1).unwrap();
    assert_eq!(batch.len(), 1);
    assert!(batch[0].base.is_none());
    let witness = product_witness(5);
    let assignment = eject(&batch[0].assignment);
    let inputs: Vec<Vec<Fr>> = batch_public_inputs(&vec![witness])
        .unwrap()
        .iter()
        .map(|inputs| std::iter::once(Fr::from(1u64)).chain(inputs.iter().map(to_fr)).collect())
        .collect();

    let max_degree = AHPForR1CS::<Fr, VarunaHidingMode>::max_degree(100, 100, 100).unwrap();
    let urs = VarunaInst::universal_setup(max_degree).unwrap();
    let (pk, vk) = VarunaInst::circuit_setup(&urs, &assignment).unwrap();
    let universal_prover = urs.to_universal_prover().unwrap();
    let universal_verifier = urs.to_universal_verifier().unwrap();
    let fiat_shamir = Testnet3::varuna_fs_parameters();
    let assignments = [assignment];
    let mut pks_to_constraints = BTreeMap::new();
    pks_to_constraints.insert(&pk, &assignments[..]);
    let proof =
        VarunaInst::prove_batch(&universal_prover, fiat_shamir, &pks_to_constraints, &mut OsRng).unwrap();
    let mut vks_to_inputs = BTreeMap::new();
    vks_to_inputs.insert(&vk, &inputs[..]);
    assert!(VarunaInst::verify_batch(&universal_verifier, fiat_shamir, &vks_to_inputs, &proof).unwrap());

    let wrong = vec![vec![Fr::from(1u64), Fr::from(22u64)]];
    let mut vks_to_inputs = BTreeMap::new();
    vks_to_inputs.insert(&vk, &wrong[..]);
    let verified = VarunaInst::verify_batch(&universal_verifier, fiat_shamir, &vks_to_inputs, &proof);
    assert!(!verified.unwrap_or(false));
}
