//! Elements of the scalar field of BLS12-377, held by their canonical
//! representative in four little-endian 64-bit limbs. Arithmetic is done by
//! `snarkvm_fields`; this module states what it computes.

use snarkvm_curves::bls12_377::Fr;
use snarkvm_fields::PrimeField;
use snarkvm_utilities::BigInteger256;
use vstd::prelude::*;

use crate::r1cs_provider::deserialize::BigInt;

verus! {

/// The order of the scalar field of BLS12-377, a prime of 253 bits.
pub open spec fn modulus() -> nat {
    8444461749428370424248824938781546531375899335154063827935233455917409239041nat
}

/// The modulus in limbs, least significant first.
pub const MODULUS_LIMBS: [u64; 4] = [
    725501752471715841u64,
    6461107452199829505u64,
    6968279316240510977u64,
    1345280370688173398u64,
];

/// 2^64, the weight of the second limb.
pub open spec fn pow64() -> nat {
    0x1_0000_0000_0000_0000nat
}

/// 2^128, the weight of the third limb.
pub open spec fn pow128() -> nat {
    0x1_0000_0000_0000_0000_0000_0000_0000_0000nat
}

/// 2^192, the weight of the fourth limb.
pub open spec fn pow192() -> nat {
    0x1_0000_0000_0000_0000_0000_0000_0000_0000_0000_0000_0000_0000nat
}

/// 2^256, which no four limbs reach.
pub open spec fn pow256() -> nat {
    0x1_0000_0000_0000_0000_0000_0000_0000_0000_0000_0000_0000_0000_0000_0000_0000_0000nat
}

/// Each limb weighs 2^64 times the one before it.
pub proof fn lemma_limb_weights()
    ensures
        pow128() == pow64() * pow64(),
        pow192() == pow128() * pow64(),
        pow256() == pow192() * pow64(),
{
}

/// The integer that four limbs stand for, least significant limb first.
pub open spec fn limbs_value(l: [u64; 4]) -> nat {
    (l[0] as nat) + (l[1] as nat) * pow64() + (l[2] as nat) * pow128() + (l[3] as nat) * pow192()
}

/// The limbs of the modulus stand for the modulus.
pub proof fn lemma_modulus_limbs()
    ensures
        limbs_value(MODULUS_LIMBS) == modulus(),
{
}

/// Two limb arrays that stand for the same integer are the same array.
pub proof fn lemma_limbs_value_injective(a: [u64; 4], b: [u64; 4])
    requires
        limbs_value(a) == limbs_value(b),
    ensures
        a == b,
{
    let va = limbs_value(a);
    assert(va % pow64() == a[0] && limbs_value(b) % pow64() == b[0]) by {
        assert(va == a[0] + pow64() * (a[1] + a[2] * pow64() + a[3] * pow128()));
        assert(limbs_value(b) == b[0] + pow64() * (b[1] + b[2] * pow64() + b[3] * pow128()));
        vstd::arithmetic::div_mod::lemma_fundamental_div_mod_converse(
            va as int, pow64() as int, (a[1] + a[2] * pow64() + a[3] * pow128()) as int, a[0] as int);
        vstd::arithmetic::div_mod::lemma_fundamental_div_mod_converse(
            va as int, pow64() as int, (b[1] + b[2] * pow64() + b[3] * pow128()) as int, b[0] as int);
    }
    let ra = a[1] + a[2] * pow64() + a[3] * pow128();
    let rb = b[1] + b[2] * pow64() + b[3] * pow128();
    assert(ra == rb);
    assert(a[1] == b[1] && a[2] + a[3] * pow64() == b[2] + b[3] * pow64()) by {
        vstd::arithmetic::div_mod::lemma_fundamental_div_mod_converse(
            ra as int, pow64() as int, (a[2] + a[3] * pow64()) as int, a[1] as int);
        vstd::arithmetic::div_mod::lemma_fundamental_div_mod_converse(
            ra as int, pow64() as int, (b[2] + b[3] * pow64()) as int, b[1] as int);
    }
    let sa = a[2] + a[3] * pow64();
    assert(a[2] == b[2] && a[3] == b[3]) by {
        vstd::arithmetic::div_mod::lemma_fundamental_div_mod_converse(
            sa as int, pow64() as int, a[3] as int, a[2] as int);
        vstd::arithmetic::div_mod::lemma_fundamental_div_mod_converse(
            sa as int, pow64() as int, b[3] as int, b[2] as int);
    }
    assert(a =~= b);
}

/// Says whether `snarkvm_fields::PrimeField::from_bigint` accepts the limbs
/// for the scalar field of BLS12-377. It does so exactly when the integer is
/// below the field's modulus.
#[verifier::external_body]
fn fr_accepts(limbs: &[u64; 4]) -> (ok: bool)
    ensures
        ok == (limbs_value(*limbs) < modulus()),
{
    Fr::from_bigint(BigInteger256(*limbs)).is_some()
}

/// The sum of two field elements, by `snarkvm_fields`' `+` on `Fr`: both
/// arguments go in by `from_bigint` and the result is read by `to_bigint`,
/// the representative below the modulus.
#[verifier::external_body]
fn fr_add(a: &[u64; 4], b: &[u64; 4]) -> (sum: [u64; 4])
    requires
        limbs_value(*a) < modulus(),
        limbs_value(*b) < modulus(),
    ensures
        limbs_value(sum) == (limbs_value(*a) + limbs_value(*b)) % modulus(),
{
    let x = Fr::from_bigint(BigInteger256(*a)).unwrap();
    let y = Fr::from_bigint(BigInteger256(*b)).unwrap();
    (x + y).to_bigint().0
}

/// The product of two field elements, by `snarkvm_fields`' `*` on `Fr`: both
/// arguments go in by `from_bigint` and the result is read by `to_bigint`,
/// the representative below the modulus.
#[verifier::external_body]
fn fr_mul(a: &[u64; 4], b: &[u64; 4]) -> (product: [u64; 4])
    requires
        limbs_value(*a) < modulus(),
        limbs_value(*b) < modulus(),
    ensures
        limbs_value(product) == (limbs_value(*a) * limbs_value(*b)) % modulus(),
{
    let x = Fr::from_bigint(BigInteger256(*a)).unwrap();
    let y = Fr::from_bigint(BigInteger256(*b)).unwrap();
    (x * y).to_bigint().0
}

/// An element of the scalar field of BLS12-377.
#[derive(Debug, Clone, Copy)]
pub struct FieldElement {
    limbs: [u64; 4],
}

impl FieldElement {
    /// The element as an integer.
    pub closed spec fn value(self) -> nat {
        limbs_value(self.limbs)
    }

    /// The limbs hold the representative below the modulus.
    pub closed spec fn wf(self) -> bool {
        limbs_value(self.limbs) < modulus()
    }

    /// The limbs of the canonical representative.
    pub closed spec fn spec_limbs(self) -> [u64; 4] {
        self.limbs
    }

    /// A well-formed element is below the modulus, and its limbs stand for
    /// its value.
    pub broadcast proof fn lemma_value(self)
        ensures
            #![trigger self.value()]
            #![trigger self.wf()]
            #![trigger self.spec_limbs()]
            self.value() == limbs_value(self.spec_limbs()),
            self.wf() <==> self.value() < modulus(),
    {
    }

    /// The additive identity.
    pub fn zero() -> (r: FieldElement)
        ensures
            r.wf(),
            r.value() == 0,
    {
        FieldElement { limbs: [0, 0, 0, 0] }
    }

    /// The multiplicative identity.
    pub fn one() -> (r: FieldElement)
        ensures
            r.wf(),
            r.value() == 1,
    {
        FieldElement { limbs: [1, 0, 0, 0] }
    }

    /// The element that a small integer stands for.
    pub fn from_u32(x: u32) -> (r: FieldElement)
        ensures
            r.wf(),
            r.value() == x,
    {
        FieldElement { limbs: [x as u64, 0, 0, 0] }
    }

    /// The element that a byte stands for.
    pub fn from_u8(x: u8) -> (r: FieldElement)
        ensures
            r.wf(),
            r.value() == x,
    {
        FieldElement { limbs: [x as u64, 0, 0, 0] }
    }

    /// Reinterprets a big integer literal as a field element. Nothing is
    /// reduced: an integer that is not below the modulus has no element.
    pub fn from_bigint(literal: &BigInt) -> (r: Option<FieldElement>)
        ensures
            r is Some <==> literal.value() < modulus(),
            r matches Some(e) ==> e.wf() && e.value() == literal.value() && e.spec_limbs()
                == literal.0,
    {
        if fr_accepts(&literal.0) {
            Some(FieldElement { limbs: literal.0 })
        } else {
            None
        }
    }

    /// The canonical representative as a big integer literal.
    pub fn to_bigint(&self) -> (r: BigInt)
        ensures
            r.0 == self.spec_limbs(),
            r.value() == self.value(),
    {
        BigInt(self.limbs)
    }

    /// Field addition.
    pub fn add(&self, other: &FieldElement) -> (r: FieldElement)
        requires
            self.wf(),
            other.wf(),
        ensures
            r.wf(),
            r.value() == (self.value() + other.value()) % modulus(),
    {
        let limbs = fr_add(&self.limbs, &other.limbs);
        proof {
            vstd::arithmetic::div_mod::lemma_mod_bound(
                (self.value() + other.value()) as int,
                modulus() as int,
            );
        }
        FieldElement { limbs }
    }

    /// Field multiplication.
    pub fn mul(&self, other: &FieldElement) -> (r: FieldElement)
        requires
            self.wf(),
            other.wf(),
        ensures
            r.wf(),
            r.value() == (self.value() * other.value()) % modulus(),
    {
        let limbs = fr_mul(&self.limbs, &other.limbs);
        proof {
            vstd::arithmetic::div_mod::lemma_mod_bound(
                (self.value() * other.value()) as int,
                modulus() as int,
            );
        }
        FieldElement { limbs }
    }

    /// Says whether two elements are the same.
    pub fn is_equal(&self, other: &FieldElement) -> (r: bool)
        ensures
            r == (self.value() == other.value()),
            r == (*self == *other),
    {
        let r = self.limbs[0] == other.limbs[0] && self.limbs[1] == other.limbs[1]
            && self.limbs[2] == other.limbs[2] && self.limbs[3] == other.limbs[3];
        proof {
            if r {
                assert(self.limbs =~= other.limbs);
            }
            if self.value() == other.value() {
                lemma_limbs_value_injective(self.limbs, other.limbs);
            }
        }
        r
    }

    /// The element as a byte, where it is one.
    pub fn to_u8(&self) -> (r: Option<u8>)
        ensures
            r is Some <==> self.value() < 256,
            r matches Some(b) ==> b == self.value(),
    {
        proof {
            let l = self.limbs;
            assert(limbs_value(l) >= l[0]);
            assert(l[1] > 0 ==> limbs_value(l) >= pow64());
            assert(l[2] > 0 ==> limbs_value(l) >= pow128());
            assert(l[3] > 0 ==> limbs_value(l) >= pow192());
        }
        if self.limbs[0] < 256 && self.limbs[1] == 0 && self.limbs[2] == 0 && self.limbs[3] == 0 {
            Some(self.limbs[0] as u8)
        } else {
            None
        }
    }
}

/// The values of a list of field elements.
pub open spec fn values_of(elements: Seq<FieldElement>) -> Seq<nat> {
    elements.map_values(|e: FieldElement| e.value())
}

/// Every element of the list is well formed.
pub open spec fn all_wf(elements: Seq<FieldElement>) -> bool {
    forall|i: int| 0 <= i < elements.len() ==> (#[trigger] elements[i]).wf()
}

} // verus!
