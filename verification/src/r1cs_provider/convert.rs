//! From a number as it stands in a file to an element of the field. Nothing
//! is reduced on the way: a number that is not below the modulus is
//! malformed, in either encoding.

use vstd::prelude::*;

use crate::error::BuildError;
use crate::field::{modulus, FieldElement};
use crate::r1cs_provider::deserialize::BigInt;
use crate::r1cs_provider::document::text_of;
use crate::r1cs_provider::xjsnark::libsnark::{decimal_value, is_limb_decimal, parse_decimal};

verus! {

/// A non-negative integer as a file holds it.
#[derive(Debug)]
pub enum BigIntLiteral {
    /// Four limbs of 64 bits, least significant first.
    Limbs(BigInt),
    /// A string in base 10.
    Decimal(String),
}

impl BigIntLiteral {
    /// The integer that the literal stands for, where it stands for one
    /// that fits four limbs.
    pub open spec fn value(self) -> Option<nat> {
        match self {
            BigIntLiteral::Limbs(limbs) => Some(limbs.value()),
            BigIntLiteral::Decimal(text) => if is_limb_decimal(text_of(text)) {
                Some(decimal_value(text_of(text)))
            } else {
                None
            },
        }
    }
}

/// Reads limbs off a list of any length: there have to be four.
pub fn limbs_from_slice(limbs: &[u64]) -> (r: Result<BigInt, BuildError>)
    ensures
        r is Ok <==> limbs@.len() == 4,
        r matches Ok(b) ==> b.0@ == limbs@,
        r matches Err(e) ==> e == BuildError::MalformedNumber,
{
    if limbs.len() != 4 {
        return Err(BuildError::MalformedNumber);
    }
    let b = BigInt([limbs[0], limbs[1], limbs[2], limbs[3]]);
    proof {
        assert(b.0@ =~= limbs@);
    }
    Ok(b)
}

/// Converts a number of a file to the field element that it stands for. The
/// two encodings of one number give the same element.
pub fn convert(literal: &BigIntLiteral) -> (r: Result<FieldElement, BuildError>)
    ensures
        r is Ok <==> (literal.value() matches Some(v) && v < modulus()),
        r matches Ok(e) ==> e.wf() && Some(e.value()) == literal.value(),
        r matches Err(e) ==> e == BuildError::MalformedNumber,
{
    let converted = match literal {
        BigIntLiteral::Limbs(limbs) => FieldElement::from_bigint(limbs),
        BigIntLiteral::Decimal(text) => match parse_decimal(text.as_str().as_bytes()) {
            Ok(limbs) => FieldElement::from_bigint(&limbs),
            Err(_) => None,
        },
    };
    match converted {
        Some(element) => Ok(element),
        None => Err(BuildError::MalformedNumber),
    }
}

} // verus!
