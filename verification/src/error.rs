//! What can go wrong between a generator's files and an assembled circuit.

use vstd::prelude::*;

verus! {

/// The file of a generator run that a failure is about.
#[derive(Debug, Clone, Copy, PartialEq, Eq, Structural)]
pub enum FileKind {
    /// The constraint rows.
    R1cs,
    /// The witness values and the two input counts.
    Assignment,
    /// The lookup table and the rows checked against it.
    Lookup,
}

/// A failure of parsing, conversion or assembly. Each one ends the build of
/// the circuit at hand.
#[derive(Debug, Clone, Copy, PartialEq, Eq, Structural)]
pub enum BuildError {
    /// A file does not have the shape that its kind asks for.
    Deserialize(FileKind),
    /// A number is not a base-10 string, does not fit its encoding, or is
    /// not below the field's modulus.
    MalformedNumber,
    /// A constraint names a wire that the wire vector does not have.
    MalformedConstraint,
}

impl BuildError {
    /// The failure in words.
    pub fn message(&self) -> (text: &'static str)
        ensures
            text@ == match *self {
                BuildError::Deserialize(FileKind::R1cs) => "error while parsing r1cs file"@,
                BuildError::Deserialize(FileKind::Assignment) => "error while parsing assignment file"@,
                BuildError::Deserialize(FileKind::Lookup) => "error while parsing lookup file"@,
                BuildError::MalformedNumber => "a number is not a field element"@,
                BuildError::MalformedConstraint => "a constraint names a wire that is not there"@,
            },
    {
        match self {
            BuildError::Deserialize(FileKind::R1cs) => "error while parsing r1cs file",
            BuildError::Deserialize(FileKind::Assignment) => "error while parsing assignment file",
            BuildError::Deserialize(FileKind::Lookup) => "error while parsing lookup file",
            BuildError::MalformedNumber => "a number is not a field element",
            BuildError::MalformedConstraint => "a constraint names a wire that is not there",
        }
    }
}

} // verus!
