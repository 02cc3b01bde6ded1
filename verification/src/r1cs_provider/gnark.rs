//! What is handed to the outside circuit generator, and how its byte
//! strings are read.

use sha3::{Digest, Keccak256};
use vstd::prelude::*;

use crate::error::BuildError;
use crate::field::{lemma_limb_weights, limbs_value, pow64};

verus! {

/// The integer that eight bytes stand for, least significant byte first.
pub open spec fn le_u64(bytes: Seq<u8>) -> nat {
    (bytes[0] as nat) + (bytes[1] as nat) * 0x100 + (bytes[2] as nat) * 0x1_0000 + (bytes[3] as nat)
        * 0x100_0000 + (bytes[4] as nat) * 0x1_0000_0000 + (bytes[5] as nat) * 0x100_0000_0000
        + (bytes[6] as nat) * 0x1_0000_0000_0000 + (bytes[7] as nat) * 0x100_0000_0000_0000
}

/// Reads eight bytes from `at` on as a little-endian integer.
fn le_u64_at(x: &[u8], at: usize) -> (r: u64)
    requires
        at + 8 <= x@.len(),
    ensures
        r == le_u64(x@.subrange(at as int, at + 8)),
{
    let b0: u64 = x[at] as u64;
    let b1: u64 = x[at + 1] as u64;
    let b2: u64 = x[at + 2] as u64;
    let b3: u64 = x[at + 3] as u64;
    let b4: u64 = x[at + 4] as u64;
    let b5: u64 = x[at + 5] as u64;
    let b6: u64 = x[at + 6] as u64;
    let b7: u64 = x[at + 7] as u64;
    b0 + b1 * 0x100 + b2 * 0x1_0000 + b3 * 0x100_0000 + b4 * 0x1_0000_0000 + b5 * 0x100_0000_0000
        + b6 * 0x1_0000_0000_0000 + b7 * 0x100_0000_0000_0000
}

/// The integer that a byte string stands for, least significant byte first.
pub open spec fn le_value(bytes: Seq<u8>) -> nat
    decreases bytes.len(),
{
    if bytes.len() == 0 {
        0
    } else {
        bytes[0] as nat + 256 * le_value(bytes.drop_first())
    }
}

/// Eight bytes read as a limb stand for the same integer as the bytes.
proof fn lemma_le_u64(bytes: Seq<u8>)
    requires
        bytes.len() == 8,
    ensures
        le_value(bytes) == le_u64(bytes),
{
    reveal_with_fuel(le_value, 9);
    let b1 = bytes.drop_first();
    let b2 = b1.drop_first();
    let b3 = b2.drop_first();
    let b4 = b3.drop_first();
    let b5 = b4.drop_first();
    let b6 = b5.drop_first();
    let b7 = b6.drop_first();
    assert(b7.drop_first().len() == 0);
}

/// A byte string stands for what its first `k` bytes stand for and, above
/// them, for what the others stand for.
proof fn lemma_le_value_split(bytes: Seq<u8>, k: int)
    requires
        0 <= k <= bytes.len(),
    ensures
        le_value(bytes) == le_value(bytes.subrange(0, k)) + vstd::arithmetic::power::pow(256, k as nat)
            * le_value(bytes.subrange(k, bytes.len() as int)),
    decreases k,
{
    vstd::arithmetic::power::lemma_pow0(256);
    if k == 0 {
        assert(bytes.subrange(0, bytes.len() as int) =~= bytes);
        assert(bytes.subrange(0, 0).len() == 0);
    } else {
        let rest = bytes.drop_first();
        lemma_le_value_split(rest, k - 1);
        assert(rest.subrange(0, k - 1) =~= bytes.subrange(0, k).drop_first());
        assert(rest.subrange(k - 1, rest.len() as int) =~= bytes.subrange(k, bytes.len() as int));
        assert(bytes.subrange(0, k)[0] == bytes[0]);
        vstd::arithmetic::power::lemma_pow_adds(256, 1, (k - 1) as nat);
        vstd::arithmetic::power::lemma_pow1(256);
        let p = vstd::arithmetic::power::pow(256, (k - 1) as nat);
        let hi = le_value(bytes.subrange(k, bytes.len() as int)) as int;
        assert(256 * (p * hi) == (256 * p) * hi) by (nonlinear_arith);
    }
}

/// Reads 32 bytes as four 64-bit limbs: each run of eight bytes is one
/// limb, least significant byte first, in the order of the runs. Together
/// the limbs stand for the integer that the 32 bytes stand for, least
/// significant byte first.
pub fn u64_4_from_slice(x: &[u8]) -> (array: [u64; 4])
    requires
        x@.len() == 32,
    ensures
        forall|i: int| 0 <= i < 4 ==> array[i] == le_u64(x@.subrange(8 * i, 8 * i + 8)),
        limbs_value(array) == le_value(x@),
{
    let array = [le_u64_at(x, 0), le_u64_at(x, 8), le_u64_at(x, 16), le_u64_at(x, 24)];
    proof {
        let b = x@;
        lemma_le_value_split(b, 8);
        let r1 = b.subrange(8, 32);
        lemma_le_value_split(r1, 8);
        let r2 = r1.subrange(8, 24);
        lemma_le_value_split(r2, 8);
        let r3 = r2.subrange(8, 16);
        assert(r1.subrange(0, 8) =~= b.subrange(8, 16));
        assert(r2.subrange(0, 8) =~= b.subrange(16, 24));
        assert(r3 =~= b.subrange(24, 32));
        assert(r2 =~= b.subrange(16, 32));
        lemma_le_u64(b.subrange(0, 8));
        lemma_le_u64(b.subrange(8, 16));
        lemma_le_u64(b.subrange(16, 24));
        lemma_le_u64(b.subrange(24, 32));
        vstd::arithmetic::power::lemma_pow_adds(256, 4, 4);
        assert(vstd::arithmetic::power::pow(256, 8) == pow64()) by {
            reveal_with_fuel(vstd::arithmetic::power::pow, 9);
        }
        lemma_limb_weights();
        let p = pow64() as int;
        let (v1, v2, v3) = (
            le_value(b.subrange(8, 16)) as int,
            le_value(b.subrange(16, 24)) as int,
            le_value(b.subrange(24, 32)) as int,
        );
        assert(p * (v1 + p * (v2 + p * v3)) == v1 * p + v2 * (p * p) + v3 * ((p * p) * p))
            by (nonlinear_arith);
    }
    array
}

/// The integer that a byte string stands for, most significant byte first.
pub open spec fn be_value(bytes: Seq<u8>) -> nat
    decreases bytes.len(),
{
    if bytes.len() == 0 {
        0
    } else {
        be_value(bytes.drop_last()) * 256 + bytes.last() as nat
    }
}

/// The character of a decimal digit.
pub open spec fn digit_char(d: nat) -> char {
    ((0x30 + d) as u8) as char
}

/// A number in base 10, without leading zeros; zero is `0`.
pub open spec fn decimal_digits(n: nat) -> Seq<char>
    decreases n,
{
    if n < 10 {
        seq![digit_char(n)]
    } else {
        decimal_digits(n / 10).push(digit_char(n % 10))
    }
}

/// Writes a big-endian byte string as a number in base 10, by
/// `num_bigint::BigInt::from_bytes_be` with the sign `Plus` and
/// `to_str_radix(10)` on what it gives: the digits of the integer that the
/// bytes stand for, without a sign and without leading zeros.
#[verifier::external_body]
fn decimal_of_be_bytes(bytes: &[u8]) -> (text: String)
    ensures
        text@ == decimal_digits(be_value(bytes@)),
{
    num_bigint::BigInt::from_bytes_be(num_bigint::Sign::Plus, bytes).to_str_radix(10)
}

/// The Keccak-256 digest of a message.
pub uninterp spec fn keccak256(message: Seq<u8>) -> Seq<u8>;

/// Hashes a message with `sha3::Keccak256`: `new`, one `update` with the
/// whole message, `finalize`. The digest has 32 bytes.
#[verifier::external_body]
fn keccak256_digest(message: &[u8]) -> (digest: [u8; 32])
    ensures
        digest@ == keccak256(message@),
{
    let mut hasher = Keccak256::new();
    hasher.update(message);
    hasher.finalize().into()
}

/// The arguments that the signature circuit's generator is called with.
pub open spec fn spec_ecdsa_generator_args(
    pk_x: Seq<u8>,
    pk_y: Seq<u8>,
    sig_r: Seq<u8>,
    sig_s: Seq<u8>,
    hash: Seq<u8>,
) -> Seq<Seq<char>> {
    seq![
        "-pk_x"@,
        decimal_digits(be_value(pk_x)),
        "-pk_y"@,
        decimal_digits(be_value(pk_y)),
        "-sig_r"@,
        decimal_digits(be_value(sig_r)),
        "-sig_s"@,
        decimal_digits(be_value(sig_s)),
        "-hash"@,
        decimal_digits(be_value(hash)),
    ]
}

/// The texts of a list of strings.
pub open spec fn texts(args: Seq<String>) -> Seq<Seq<char>> {
    args.map_values(|a: String| a@)
}

/// A public key in the uncompressed encoding: the tag 4, then the two
/// coordinates of 32 bytes each.
pub open spec fn is_uncompressed_point(public_key: Seq<u8>) -> bool {
    public_key.len() == 65 && public_key[0] == 4
}

/// The arguments with which the signature circuit's generator is called for
/// one signature: the coordinates of the public key, the two halves of the
/// signature and the hash of the message, each a big-endian integer written
/// in base 10 behind its flag. The public key comes in the uncompressed
/// encoding, the signature as `r` and `s` of 32 bytes each.
pub fn ecdsa_generator_args(public_key: &[u8], signature: &[u8], hash: &[u8; 32]) -> (r: Result<
    Vec<String>,
    BuildError,
>)
    ensures
        r is Ok <==> is_uncompressed_point(public_key@) && signature@.len() == 64,
        r matches Ok(args) ==> texts(args@) == spec_ecdsa_generator_args(
            public_key@.subrange(1, 33),
            public_key@.subrange(33, 65),
            signature@.subrange(0, 32),
            signature@.subrange(32, 64),
            hash@,
        ),
        r matches Err(e) ==> e == BuildError::MalformedNumber,
{
    if public_key.len() != 65 || public_key[0] != 4 || signature.len() != 64 {
        return Err(BuildError::MalformedNumber);
    }
    let pk_x = decimal_of_be_bytes(vstd::slice::slice_subrange(public_key, 1, 33));
    let pk_y = decimal_of_be_bytes(vstd::slice::slice_subrange(public_key, 33, 65));
    let sig_r = decimal_of_be_bytes(vstd::slice::slice_subrange(signature, 0, 32));
    let sig_s = decimal_of_be_bytes(vstd::slice::slice_subrange(signature, 32, 64));
    let digest = decimal_of_be_bytes(hash.as_slice());
    let mut args: Vec<String> = Vec::new();
    args.push("-pk_x".to_owned());
    args.push(pk_x);
    args.push("-pk_y".to_owned());
    args.push(pk_y);
    args.push("-sig_r".to_owned());
    args.push(sig_r);
    args.push("-sig_s".to_owned());
    args.push(sig_s);
    args.push("-hash".to_owned());
    args.push(digest);
    proof {
        assert(texts(args@) =~= spec_ecdsa_generator_args(
            public_key@.subrange(1, 33),
            public_key@.subrange(33, 65),
            signature@.subrange(0, 32),
            signature@.subrange(32, 64),
            hash@,
        ));
    }
    Ok(args)
}

/// The arguments with which the signature circuit's generator is called for
/// a signature on a message: those for the message's Keccak-256 digest.
pub fn ecdsa_generator_args_for_message(public_key: &[u8], signature: &[u8], msg: &[u8]) -> (r:
    Result<Vec<String>, BuildError>)
    ensures
        r is Ok <==> is_uncompressed_point(public_key@) && signature@.len() == 64,
        r matches Ok(args) ==> texts(args@) == spec_ecdsa_generator_args(
            public_key@.subrange(1, 33),
            public_key@.subrange(33, 65),
            signature@.subrange(0, 32),
            signature@.subrange(32, 64),
            keccak256(msg@),
        ),
        r matches Err(e) ==> e == BuildError::MalformedNumber,
{
    let hash = keccak256_digest(msg);
    ecdsa_generator_args(public_key, signature, &hash)
}

/// The arguments with which the generator of the hashing circuit's
/// verifier is called.
pub fn plonky2_generator_args() -> (args: Vec<String>)
    ensures
        texts(args@) == seq!["-proof-system"@, "groth16"@, "-plonky2-circuit"@, "zprize"@],
{
    let mut args: Vec<String> = Vec::new();
    args.push("-proof-system".to_owned());
    args.push("groth16".to_owned());
    args.push("-plonky2-circuit".to_owned());
    args.push("zprize".to_owned());
    proof {
        assert(texts(args@) =~= seq![
            "-proof-system"@,
            "groth16"@,
            "-plonky2-circuit"@,
            "zprize"@,
        ]);
    }
    args
}

} // verus!
