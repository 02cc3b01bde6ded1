//! Byte strings inside a circuit, in the plainest encoding there is: one
//! field element for each byte.

use vstd::prelude::*;

use crate::field::{values_of, FieldElement};

verus! {

/// How a value enters a circuit.
#[derive(Debug, Clone, Copy, PartialEq, Eq, Structural)]
pub enum Mode {
    /// A constant of the circuit.
    Constant,
    /// A public input.
    Public,
    /// A private input. Byte strings cannot be injected so: nothing would
    /// hold their elements to the range of a byte.
    Private,
}

/// The field elements of a byte string, one for each byte.
pub open spec fn elements_of(bytes: Seq<u8>) -> Seq<nat> {
    bytes.map_values(|b: u8| b as nat)
}

/// Every element is a byte.
pub open spec fn all_bytes(elements: Seq<FieldElement>) -> bool {
    forall|i: int|
        0 <= i < elements.len() ==> (#[trigger] elements[i]).wf() && elements[i].value() < 256
}

/// Injects each byte as one field element.
fn inject_bytes(bytes: &[u8]) -> (elements: Vec<FieldElement>)
    ensures
        all_bytes(elements@),
        values_of(elements@) == elements_of(bytes@),
{
    let mut elements: Vec<FieldElement> = Vec::new();
    let mut i: usize = 0;
    while i < bytes.len()
        invariant
            i <= bytes@.len(),
            elements@.len() == i,
            forall|j: int|
                0 <= j < i ==> (#[trigger] elements@[j]).wf() && elements@[j].value() == bytes@[j],
        decreases bytes@.len() - i,
    {
        elements.push(FieldElement::from_u8(bytes[i]));
        i = i + 1;
    }
    proof {
        assert(values_of(elements@) =~= elements_of(bytes@));
    }
    elements
}

/// Reads each field element back as one byte.
fn eject_bytes(elements: &Vec<FieldElement>) -> (bytes: Vec<u8>)
    requires
        all_bytes(elements@),
    ensures
        elements_of(bytes@) == values_of(elements@),
{
    let mut bytes: Vec<u8> = Vec::new();
    let mut i: usize = 0;
    while i < elements.len()
        invariant
            all_bytes(elements@),
            i <= elements@.len(),
            bytes@.len() == i,
            forall|j: int| 0 <= j < i ==> (#[trigger] bytes@[j]) == elements@[j].value(),
        decreases elements@.len() - i,
    {
        let byte = match elements[i].to_u8() {
            Some(b) => b,
            None => 0,
        };
        bytes.push(byte);
        i = i + 1;
    }
    proof {
        assert(elements_of(bytes@) =~= values_of(elements@));
    }
    bytes
}

/// Byte strings with the same elements are the same.
pub proof fn lemma_elements_of_injective(a: Seq<u8>, b: Seq<u8>)
    requires
        elements_of(a) == elements_of(b),
    ensures
        a == b,
{
    assert(a.len() == elements_of(a).len());
    assert(b.len() == elements_of(b).len());
    assert forall|i: int| 0 <= i < a.len() implies a[i] == b[i] by {
        assert(elements_of(a)[i] == a[i] as nat);
        assert(elements_of(b)[i] == b[i] as nat);
    }
    assert(a =~= b);
}

/// A message inside a circuit.
#[derive(Debug)]
pub struct Message {
    mode: Mode,
    bytes: Vec<FieldElement>,
}

/// A public key inside a circuit, by the bytes of its compressed encoding.
#[derive(Debug)]
pub struct ECDSAPublicKey {
    mode: Mode,
    bytes: Vec<FieldElement>,
}

/// A signature inside a circuit, by the bytes of `r` and `s`.
#[derive(Debug)]
pub struct ECDSASignature {
    mode: Mode,
    bytes: Vec<FieldElement>,
}

impl Message {
    /// The mode in which the message was injected.
    pub closed spec fn mode(self) -> Mode {
        self.mode
    }

    /// The values of the elements, one for each byte.
    pub closed spec fn elements(self) -> Seq<nat> {
        values_of(self.bytes@)
    }

    /// Every element is a byte.
    pub closed spec fn wf(self) -> bool {
        all_bytes(self.bytes@)
    }

    /// Injects a message as a constant or as a public input.
    pub fn new(mode: Mode, message: Vec<u8>) -> (r: Message)
        requires
            mode != Mode::Private,
        ensures
            r.wf(),
            r.mode() == mode,
            r.elements() == elements_of(message@),
    {
        Message { mode, bytes: inject_bytes(message.as_slice()) }
    }

    /// The mode of the message, which is that of its first byte.
    pub fn eject_mode(&self) -> (mode: Mode)
        requires
            self.elements().len() > 0,
        ensures
            mode == self.mode(),
    {
        self.mode
    }

    /// The message as bytes again.
    pub fn eject_value(&self) -> (message: Vec<u8>)
        requires
            self.wf(),
        ensures
            elements_of(message@) == self.elements(),
    {
        eject_bytes(&self.bytes)
    }
}

impl ECDSAPublicKey {
    /// The mode in which the key was injected.
    pub closed spec fn mode(self) -> Mode {
        self.mode
    }

    /// The values of the elements, one for each byte of the encoding.
    pub closed spec fn elements(self) -> Seq<nat> {
        values_of(self.bytes@)
    }

    /// Every element is a byte.
    pub closed spec fn wf(self) -> bool {
        all_bytes(self.bytes@)
    }

    /// Injects a public key, given in its compressed encoding, as a constant
    /// or as a public input.
    pub fn new(mode: Mode, public_key: &[u8]) -> (r: ECDSAPublicKey)
        requires
            mode != Mode::Private,
        ensures
            r.wf(),
            r.mode() == mode,
            r.elements() == elements_of(public_key@),
    {
        ECDSAPublicKey { mode, bytes: inject_bytes(public_key) }
    }

    /// The mode of the key, which is that of its first byte.
    pub fn eject_mode(&self) -> (mode: Mode)
        requires
            self.elements().len() > 0,
        ensures
            mode == self.mode(),
    {
        self.mode
    }

    /// The encoding of the key as bytes again.
    pub fn eject_value(&self) -> (public_key: Vec<u8>)
        requires
            self.wf(),
        ensures
            elements_of(public_key@) == self.elements(),
    {
        eject_bytes(&self.bytes)
    }
}

impl ECDSASignature {
    /// The mode in which the signature was injected.
    pub closed spec fn mode(self) -> Mode {
        self.mode
    }

    /// The values of the elements, one for each byte of `r` and `s`.
    pub closed spec fn elements(self) -> Seq<nat> {
        values_of(self.bytes@)
    }

    /// Every element is a byte.
    pub closed spec fn wf(self) -> bool {
        all_bytes(self.bytes@)
    }

    /// Injects a signature, given as the bytes of `r` and `s`, as a constant
    /// or as a public input.
    pub fn new(mode: Mode, signature: &[u8]) -> (r: ECDSASignature)
        requires
            mode != Mode::Private,
        ensures
            r.wf(),
            r.mode() == mode,
            r.elements() == elements_of(signature@),
    {
        ECDSASignature { mode, bytes: inject_bytes(signature) }
    }

    /// The mode of the signature, which is that of its first byte.
    pub fn eject_mode(&self) -> (mode: Mode)
        requires
            self.elements().len() > 0,
        ensures
            mode == self.mode(),
    {
        self.mode
    }

    /// The bytes of `r` and `s` again.
    pub fn eject_value(&self) -> (signature: Vec<u8>)
        requires
            self.wf(),
        ensures
            elements_of(signature@) == self.elements(),
    {
        eject_bytes(&self.bytes)
    }
}

} // verus!
