//! What proving and verifying a batch needs beside the backend: which key
//! belongs to which circuit, the witnesses grouped by their key, and the
//! public inputs of every instance.

use std::collections::BTreeMap;
use vstd::prelude::*;

use crate::error::{BuildError, FileKind};
use crate::field::{modulus, FieldElement};
use crate::r1cs_provider::builder::{assembled, ConstraintSystem};
use crate::r1cs_provider::deserialize::{Assignment, BigInt, Lookup, R1CS};

verus! {

broadcast use vstd::std_specs::btree::group_btree_axioms;

/// Which of the caller's keys belongs to which circuit. The keys stand in
/// the order in which the circuits were compiled: the hashing circuit
/// first, then the signature circuit.
#[derive(Debug, Clone, Copy, PartialEq, Eq, Structural)]
pub struct KeyPlan {
    /// The index of the hashing circuit's key, where that circuit is on.
    pub keccak: Option<usize>,
    /// The index of the signature circuit's key, where that circuit is on.
    pub ecdsa: Option<usize>,
}

impl KeyPlan {
    /// The number of keys that the plan needs.
    pub open spec fn spec_num_keys(self) -> nat {
        (if self.keccak is Some {
            1nat
        } else {
            0nat
        }) + (if self.ecdsa is Some {
            1nat
        } else {
            0nat
        })
    }

    /// The number of keys that the plan needs.
    pub fn num_keys(&self) -> (n: usize)
        ensures
            n == self.spec_num_keys(),
    {
        let k: usize = if self.keccak.is_some() {
            1
        } else {
            0
        };
        let e: usize = if self.ecdsa.is_some() {
            1
        } else {
            0
        };
        k + e
    }
}

/// Assigns the keys to the circuits that are switched on.
pub fn key_plan(keccak_enabled: bool, ecdsa_enabled: bool) -> (plan: KeyPlan)
    ensures
        plan.keccak == (if keccak_enabled {
            Some(0usize)
        } else {
            None
        }),
        plan.ecdsa == (if !ecdsa_enabled {
            None
        } else if keccak_enabled {
            Some(1usize)
        } else {
            Some(0usize)
        }),
{
    let keccak = if keccak_enabled {
        Some(0)
    } else {
        None
    };
    let ecdsa = if !ecdsa_enabled {
        None
    } else if keccak_enabled {
        Some(1)
    } else {
        Some(0)
    };
    KeyPlan { keccak, ecdsa }
}

/// The mapping that a list of `(key, batch)` pairs amounts to: each key has
/// the batch that was given for it last.
pub open spec fn grouped<T>(pairs: Seq<(usize, T)>) -> Map<usize, T>
    decreases pairs.len(),
{
    if pairs.len() == 0 {
        Map::empty()
    } else {
        grouped(pairs.drop_last()).insert(pairs.last().0, pairs.last().1)
    }
}

/// Builds the ordered mapping from each distinct key to its batch.
pub fn group_by_key<T>(pairs: Vec<(usize, T)>) -> (keyed: BTreeMap<usize, T>)
    ensures
        keyed@ == grouped(pairs@),
{
    let mut keyed: BTreeMap<usize, T> = BTreeMap::new();
    for pair in it: pairs
        invariant
            it.seq() == pairs@,
            keyed@ == grouped(pairs@.take(it.index())),
    {
        proof {
            assert(pairs@.take(it.index() + 1).drop_last() =~= pairs@.take(it.index()));
        }
        let (key, batch) = pair;
        keyed.insert(key, batch);
    }
    proof {
        assert(pairs@.take(pairs@.len() as int) =~= pairs@);
    }
    keyed
}

/// What is wrong with the public inputs of a witness, if anything: the two
/// counts do not add up, or a public variable is not below the modulus.
pub open spec fn public_inputs_error(assignment: Assignment) -> Option<BuildError> {
    if !assignment.wf() {
        Some(BuildError::Deserialize(FileKind::Assignment))
    } else if exists|i: int|
        0 <= i < assignment.primary_input_size && (#[trigger] assignment.variables@[i]).value()
            >= modulus() {
        Some(BuildError::MalformedNumber)
    } else {
        None
    }
}

/// The public inputs of one instance, read off the witness itself: the
/// variables before the private ones, in their order.
pub fn public_inputs(assignment: &Assignment) -> (r: Result<Vec<FieldElement>, BuildError>)
    ensures
        match r {
            Ok(inputs) => {
                &&& public_inputs_error(*assignment) is None
                &&& inputs@.len() == assignment.primary_input_size
                &&& forall|i: int|
                    0 <= i < inputs@.len() ==> (#[trigger] inputs@[i]).wf() && inputs@[i].value()
                        == assignment.variables@[i].value()
            },
            Err(e) => public_inputs_error(*assignment) == Some(e),
        },
{
    let total = assignment.primary_input_size.checked_add(assignment.auxiliary_input_size);
    if total != Some(assignment.variables.len()) {
        return Err(BuildError::Deserialize(FileKind::Assignment));
    }
    let mut inputs: Vec<FieldElement> = Vec::new();
    let mut i: usize = 0;
    while i < assignment.primary_input_size
        invariant
            assignment.wf(),
            i <= assignment.primary_input_size,
            inputs@.len() == i,
            forall|j: int|
                0 <= j < i ==> (#[trigger] inputs@[j]).wf() && inputs@[j].value()
                    == assignment.variables@[j].value(),
            forall|j: int| 0 <= j < i ==> (#[trigger] assignment.variables@[j]).value() < modulus(),
        decreases assignment.primary_input_size - i,
    {
        match FieldElement::from_bigint(&assignment.variables[i]) {
            Some(value) => {
                inputs.push(value);
            },
            None => {
                return Err(BuildError::MalformedNumber);
            },
        }
        i = i + 1;
    }
    Ok(inputs)
}

/// What is wrong with the first witness, in order, whose public inputs have
/// anything wrong with them.
pub open spec fn batch_inputs_error(assignments: Seq<Assignment>) -> Option<BuildError>
    decreases assignments.len(),
{
    if assignments.len() == 0 {
        None
    } else {
        match batch_inputs_error(assignments.drop_last()) {
            Some(e) => Some(e),
            None => public_inputs_error(assignments.last()),
        }
    }
}

proof fn lemma_batch_inputs_error_prefix(assignments: Seq<Assignment>, i: int, e: BuildError)
    requires
        0 <= i <= assignments.len(),
        batch_inputs_error(assignments.take(i)) == Some(e),
    ensures
        batch_inputs_error(assignments) == Some(e),
    decreases assignments.len() - i,
{
    if i < assignments.len() {
        assert(assignments.take(i + 1).drop_last() =~= assignments.take(i));
        lemma_batch_inputs_error_prefix(assignments, i + 1, e);
    } else {
        assert(assignments.take(i) =~= assignments);
    }
}

/// The public inputs of every instance of a batch, in the order of the
/// instances.
pub fn batch_public_inputs(assignments: &Vec<Assignment>) -> (r: Result<
    Vec<Vec<FieldElement>>,
    BuildError,
>)
    ensures
        match r {
            Ok(all) => {
                &&& batch_inputs_error(assignments@) is None
                &&& all@.len() == assignments@.len()
                &&& forall|n: int|
                    0 <= n < all@.len() ==> (#[trigger] all@[n])@.len()
                        == assignments@[n].primary_input_size
                &&& forall|n: int, i: int|
                    0 <= n < all@.len() && 0 <= i < all@[n]@.len() ==> (#[trigger] all@[n]@[i]).wf()
                        && all@[n]@[i].value() == assignments@[n].variables@[i].value()
            },
            Err(e) => batch_inputs_error(assignments@) == Some(e),
        },
{
    let mut all: Vec<Vec<FieldElement>> = Vec::new();
    let mut n: usize = 0;
    while n < assignments.len()
        invariant
            n <= assignments@.len(),
            all@.len() == n,
            batch_inputs_error(assignments@.take(n as int)) is None,
            forall|k: int|
                0 <= k < n ==> (#[trigger] all@[k])@.len() == assignments@[k].primary_input_size,
            forall|k: int, i: int|
                0 <= k < n && 0 <= i < all@[k]@.len() ==> (#[trigger] all@[k]@[i]).wf()
                    && all@[k]@[i].value() == assignments@[k].variables@[i].value(),
        decreases assignments@.len() - n,
    {
        proof {
            assert(assignments@.take(n + 1).drop_last() =~= assignments@.take(n as int));
        }
        match public_inputs(&assignments[n]) {
            Ok(inputs) => {
                all.push(inputs);
            },
            Err(e) => {
                proof {
                    lemma_batch_inputs_error_prefix(assignments@, n + 1, e);
                }
                return Err(e);
            },
        }
        n = n + 1;
    }
    proof {
        assert(assignments@.take(n as int) =~= assignments@);
    }
    Ok(all)
}

/// The public inputs that are read off a witness are the public wires of
/// the circuit that is assembled over it, behind the constant wire and in
/// their order; the wires behind them are private.
pub proof fn lemma_public_inputs_are_public_wires(
    cs: ConstraintSystem,
    r1cs: R1CS,
    assignment: Assignment,
    lookup: Option<Lookup>,
    inputs: Seq<FieldElement>,
)
    requires
        assembled(cs, r1cs, assignment, lookup),
        assignment.wf(),
        inputs.len() == assignment.primary_input_size,
        forall|i: int|
            0 <= i < inputs.len() ==> (#[trigger] inputs[i]).value()
                == assignment.variables@[i].value(),
    ensures
        cs.modes()[0] && cs.wire_values()[0] == 1,
        forall|i: int|
            0 <= i < inputs.len() ==> cs.modes()[i + 1] && cs.wire_values()[i + 1]
                == (#[trigger] inputs[i]).value(),
        forall|i: int|
            inputs.len() <= i < assignment.variables@.len() ==> !(#[trigger] cs.modes()[i + 1]),
{
    assert forall|i: int| 0 <= i < inputs.len() implies cs.modes()[i + 1] && cs.wire_values()[i
        + 1] == (#[trigger] inputs[i]).value() by {
        assert(cs.modes()[i + 1] == (i < assignment.primary_input_size));
    }
}

} // verus!
