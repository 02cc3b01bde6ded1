//! Ingestion of rank-1 constraint systems written by an outside circuit
//! generator, their assembly over the scalar field of BLS12-377, and the
//! bookkeeping for proving and verifying many instances of one circuit
//! together.

use vstd::prelude::*;

pub mod api;
pub mod batch;
pub mod circuit;
pub mod error;
pub mod field;
pub mod r1cs_provider;

verus! {

/// Whether the hashing circuit takes part in a proof.
pub const ENABLE_CIRCUIT_FOR_KECCAK: bool = true;

/// Whether the signature circuit takes part in a proof.
pub const ENABLE_CIRCUIT_FOR_ECDSA: bool = false;

/// The circuits that the generator can be asked for.
#[derive(Debug, Copy, Clone)]
pub enum TestCase {
    Test1,
    Test2,
    Test3,
}

impl TestCase {
    /// The argument that asks the generator for the circuit.
    pub fn generator_arg(&self) -> (arg: &'static str)
        ensures
            arg@ == match *self {
                TestCase::Test1 => "test1"@,
                TestCase::Test2 => "test2"@,
                TestCase::Test3 => "test3"@,
            },
    {
        match self {
            TestCase::Test1 => "test1",
            TestCase::Test2 => "test2",
            TestCase::Test3 => "test3",
        }
    }
}

} // verus!
