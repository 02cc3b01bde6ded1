//! Decoded files before their shape is checked: the tree of values that a
//! self-describing encoding holds. The decoding itself is `serde_cbor`'s and
//! `serde_json`'s.

use vstd::prelude::*;
use vstd::string::StringSliceAdditionalSpecFns;

verus! {

/// A value of a decoded file.
#[derive(Debug)]
pub enum Node {
    /// Null, or an undefined value.
    Null,
    /// A truth value.
    Bool(bool),
    /// A whole number.
    Integer(i128),
    /// A byte string.
    Bytes(Vec<u8>),
    /// A text string.
    Text(String),
    /// A list of values.
    List(Vec<Node>),
    /// A list of keys with their values.
    Dict(Vec<(Node, Node)>),
    /// A value of a kind that none of the files holds, such as a number
    /// with a fraction.
    Other,
}

/// `serde_cbor::Value`, a decoded CBOR value. Nothing is said of what is
/// inside one.
#[verifier::external_type_specification]
#[verifier::external_body]
pub struct ExCborValue(serde_cbor::Value);

/// `serde_cbor::Error`, why bytes are no CBOR value. Nothing is said of what
/// is inside one.
#[verifier::external_type_specification]
#[verifier::external_body]
pub struct ExCborError(serde_cbor::Error);

/// `serde_json::Value`, a decoded JSON value. Nothing is said of what is
/// inside one.
#[verifier::external_type_specification]
#[verifier::external_body]
pub struct ExJsonValue(serde_json::Value);

/// `serde_json::Error`, why bytes are no JSON value. Nothing is said of what
/// is inside one.
#[verifier::external_type_specification]
#[verifier::external_body]
pub struct ExJsonError(serde_json::Error);

/// The tree that a CBOR encoding decodes to, where it is one encoded value
/// and nothing behind it.
pub uninterp spec fn cbor_document(bytes: Seq<u8>) -> Option<Node>;

/// The tree that a JSON text decodes to, where it is one value and nothing
/// but white space around it.
pub uninterp spec fn json_document(bytes: Seq<u8>) -> Option<Node>;

/// Makes a tree of a decoded `serde_cbor::Value`, variant by variant: a
/// text keeps its string, an array its items in order, a map its entries
/// in the order in which the value holds them. Floats and tags become
/// `Other`.
#[verifier::external_body]
fn node_of_cbor(value: serde_cbor::Value) -> Node {
    match value {
        serde_cbor::Value::Null => Node::Null,
        serde_cbor::Value::Bool(b) => Node::Bool(b),
        serde_cbor::Value::Integer(i) => Node::Integer(i),
        serde_cbor::Value::Bytes(b) => Node::Bytes(b),
        serde_cbor::Value::Text(s) => Node::Text(s),
        serde_cbor::Value::Array(a) => Node::List(a.into_iter().map(node_of_cbor).collect()),
        serde_cbor::Value::Map(m) => Node::Dict(
            m.into_iter().map(|(k, v)| (node_of_cbor(k), node_of_cbor(v))).collect(),
        ),
        _ => Node::Other,
    }
}

/// Decodes one CBOR value with `serde_cbor::from_slice`, which fails where
/// the bytes are not exactly one encoded value.
#[verifier::external_body]
fn cbor_from_slice(bytes: &[u8]) -> (r: Result<Node, serde_cbor::Error>)
    ensures
        r matches Ok(node) ==> cbor_document(bytes@) == Some(node),
        r is Err ==> cbor_document(bytes@) is None,
{
    serde_cbor::from_slice::<serde_cbor::Value>(bytes).map(node_of_cbor)
}

/// Makes a tree of a decoded `serde_json::Value`, variant by variant: a
/// string keeps its text, an array its items in order, an object its
/// members, each under its name as a text, in the order in which the value
/// holds them. A number that is no whole number becomes `Other`.
#[verifier::external_body]
fn node_of_json(value: serde_json::Value) -> Node {
    match value {
        serde_json::Value::Null => Node::Null,
        serde_json::Value::Bool(b) => Node::Bool(b),
        serde_json::Value::Number(n) => n.as_i128().map_or(Node::Other, Node::Integer),
        serde_json::Value::String(s) => Node::Text(s),
        serde_json::Value::Array(a) => Node::List(a.into_iter().map(node_of_json).collect()),
        serde_json::Value::Object(m) => Node::Dict(
            m.into_iter().map(|(k, v)| (Node::Text(k), node_of_json(v))).collect(),
        ),
    }
}

/// Decodes one JSON value with `serde_json::from_slice`, which fails where
/// the bytes are not exactly one value.
#[verifier::external_body]
fn json_from_slice(bytes: &[u8]) -> (r: Result<Node, serde_json::Error>)
    ensures
        r matches Ok(node) ==> json_document(bytes@) == Some(node),
        r is Err ==> json_document(bytes@) is None,
{
    serde_json::from_slice::<serde_json::Value>(bytes).map(node_of_json)
}

/// Decodes a CBOR encoding to its tree.
pub fn decode_cbor(bytes: &[u8]) -> (r: Option<Node>)
    ensures
        r == cbor_document(bytes@),
{
    match cbor_from_slice(bytes) {
        Ok(node) => Some(node),
        Err(_) => None,
    }
}

/// Decodes a JSON text to its tree.
pub fn decode_json(bytes: &[u8]) -> (r: Option<Node>)
    ensures
        r == json_document(bytes@),
{
    match json_from_slice(bytes) {
        Ok(node) => Some(node),
        Err(_) => None,
    }
}

/// The bytes of a string.
pub open spec fn text_of(s: String) -> Seq<u8> {
    vstd::utf8::encode_utf8(s@)
}

/// Says whether two byte strings are the same.
pub fn bytes_eq(a: &[u8], b: &[u8]) -> (r: bool)
    ensures
        r == (a@ == b@),
{
    if a.len() != b.len() {
        return false;
    }
    let mut i: usize = 0;
    while i < a.len()
        invariant
            a@.len() == b@.len(),
            i <= a@.len(),
            forall|j: int| 0 <= j < i ==> a@[j] == b@[j],
        decreases a@.len() - i,
    {
        if a[i] != b[i] {
            return false;
        }
        i = i + 1;
    }
    assert(a@ =~= b@);
    true
}

impl Node {
    /// The node as an unsigned integer of 64 bits, where it is one.
    pub open spec fn as_u64(self) -> Option<u64> {
        match self {
            Node::Integer(i) => if 0 <= i <= u64::MAX {
                Some(i as u64)
            } else {
                None
            },
            _ => None,
        }
    }

    /// The node as an unsigned integer of 32 bits, where it is one.
    pub open spec fn as_u32(self) -> Option<u32> {
        match self {
            Node::Integer(i) => if 0 <= i <= u32::MAX {
                Some(i as u32)
            } else {
                None
            },
            _ => None,
        }
    }

    /// The node as an index or a count, where it is one.
    pub open spec fn as_usize(self) -> Option<usize> {
        match self {
            Node::Integer(i) => if 0 <= i <= usize::MAX {
                Some(i as usize)
            } else {
                None
            },
            _ => None,
        }
    }

    /// The items of the node, where it is a list.
    pub open spec fn as_list(self) -> Option<Seq<Node>> {
        match self {
            Node::List(items) => Some(items@),
            _ => None,
        }
    }

    /// The entries of the node, where it is a list of keys with values.
    pub open spec fn as_dict(self) -> Option<Seq<(Node, Node)>> {
        match self {
            Node::Dict(entries) => Some(entries@),
            _ => None,
        }
    }

    /// The bytes of the node's text, where it is a text.
    pub open spec fn as_text(self) -> Option<Seq<u8>> {
        match self {
            Node::Text(s) => Some(text_of(s)),
            _ => None,
        }
    }

    /// The node as an unsigned integer of 64 bits, where it is one.
    pub fn get_u64(&self) -> (r: Option<u64>)
        ensures
            r == self.as_u64(),
    {
        match self {
            Node::Integer(i) => if 0 <= *i && *i <= 0xffff_ffff_ffff_ffff {
                Some(*i as u64)
            } else {
                None
            },
            _ => None,
        }
    }

    /// The node as an unsigned integer of 32 bits, where it is one.
    pub fn get_u32(&self) -> (r: Option<u32>)
        ensures
            r == self.as_u32(),
    {
        match self {
            Node::Integer(i) => if 0 <= *i && *i <= 0xffff_ffff {
                Some(*i as u32)
            } else {
                None
            },
            _ => None,
        }
    }

    /// The node as an index or a count, where it is one.
    pub fn get_usize(&self) -> (r: Option<usize>)
        ensures
            r == self.as_usize(),
    {
        match self {
            Node::Integer(i) => if 0 <= *i && *i <= usize::MAX as i128 {
                Some(*i as usize)
            } else {
                None
            },
            _ => None,
        }
    }
}

/// The value of the first entry whose key is the text `name`.
pub open spec fn field(entries: Seq<(Node, Node)>, name: Seq<u8>) -> Option<Node>
    decreases entries.len(),
{
    if entries.len() == 0 {
        None
    } else if entries[0].0.as_text() == Some(name) {
        Some(entries[0].1)
    } else {
        field(entries.drop_first(), name)
    }
}

/// Looks up the value of the first entry whose key is the text `name`.
pub fn get_field<'a>(entries: &'a Vec<(Node, Node)>, name: &str) -> (r: Option<&'a Node>)
    ensures
        r matches Some(node) ==> field(entries@, name.spec_bytes()) == Some(*node),
        r is None ==> field(entries@, name.spec_bytes()) is None,
{
    let mut i: usize = 0;
    assert(entries@.skip(0) =~= entries@);
    while i < entries.len()
        invariant
            i <= entries@.len(),
            field(entries@, name.spec_bytes()) == field(entries@.skip(i as int), name.spec_bytes()),
        decreases entries@.len() - i,
    {
        let entry = &entries[i];
        proof {
            assert(entries@.skip(i as int)[0] == entries@[i as int]);
            assert(entries@.skip(i as int).drop_first() =~= entries@.skip(i + 1));
        }
        match &entry.0 {
            Node::Text(key) => {
                if bytes_eq(key.as_str().as_bytes(), name.as_bytes()) {
                    return Some(&entry.1);
                }
            },
            _ => {},
        }
        i = i + 1;
    }
    None
}

/// Every item of the list is there.
pub open spec fn all_some<T>(items: Seq<Option<T>>) -> bool {
    forall|i: int| 0 <= i < items.len() ==> (#[trigger] items[i]) is Some
}

/// The items of a list of which every item is there.
pub open spec fn unwrap_all<T>(items: Seq<Option<T>>) -> Seq<T> {
    items.map_values(|o: Option<T>| o->Some_0)
}

/// No key occurs twice among the pairs.
pub open spec fn distinct_keys<V>(pairs: Seq<(usize, V)>) -> bool {
    forall|i: int, j: int| 0 <= i < j < pairs.len() ==> pairs[i].0 != pairs[j].0
}

/// The map that holds each pair's value under its key.
pub open spec fn pairs_map<V>(pairs: Seq<(usize, V)>) -> Map<usize, V>
    decreases pairs.len(),
{
    if pairs.len() == 0 {
        Map::empty()
    } else {
        pairs_map(pairs.drop_last()).insert(pairs.last().0, pairs.last().1)
    }
}

/// The keys of the map of a list of pairs are the keys of the pairs.
pub proof fn lemma_pairs_map_dom<V>(pairs: Seq<(usize, V)>, k: usize)
    ensures
        pairs_map(pairs).contains_key(k) <==> exists|j: int|
            0 <= j < pairs.len() && (#[trigger] pairs[j]).0 == k,
    decreases pairs.len(),
{
    if pairs.len() > 0 {
        let head = pairs.drop_last();
        lemma_pairs_map_dom(head, k);
        if pairs_map(pairs).contains_key(k) {
            if k == pairs.last().0 {
                assert(pairs[pairs.len() - 1].0 == k);
            } else {
                let j = choose|j: int| 0 <= j < head.len() && (#[trigger] head[j]).0 == k;
                assert(pairs[j].0 == k);
            }
        }
        if exists|j: int| 0 <= j < pairs.len() && (#[trigger] pairs[j]).0 == k {
            let j = choose|j: int| 0 <= j < pairs.len() && (#[trigger] pairs[j]).0 == k;
            if j < head.len() {
                assert(head[j].0 == k);
            }
        }
    }
}

/// Under distinct keys, the map of a list of pairs holds each pair's value
/// under its key.
pub proof fn lemma_pairs_map_value<V>(pairs: Seq<(usize, V)>, j: int)
    requires
        distinct_keys(pairs),
        0 <= j < pairs.len(),
    ensures
        pairs_map(pairs).contains_key(pairs[j].0),
        pairs_map(pairs)[pairs[j].0] == pairs[j].1,
    decreases pairs.len(),
{
    let head = pairs.drop_last();
    if j < pairs.len() - 1 {
        assert(distinct_keys(head)) by {
            assert forall|a: int, b: int| 0 <= a < b < head.len() implies head[a].0
                != head[b].0 by {
                assert(pairs[a].0 != pairs[b].0);
            }
        }
        lemma_pairs_map_value(head, j);
        assert(pairs[j].0 != pairs[pairs.len() - 1].0);
    }
}

/// A list of pairs that holds every entry of a map exactly once has that
/// map as its map.
pub proof fn lemma_pairs_map_of_listing<V>(pairs: Seq<(usize, V)>, m: Map<usize, V>)
    requires
        distinct_keys(pairs),
        forall|j: int|
            0 <= j < pairs.len() ==> m.contains_key((#[trigger] pairs[j]).0) && m[pairs[j].0]
                == pairs[j].1,
        forall|k: usize|
            m.contains_key(k) ==> exists|j: int| 0 <= j < pairs.len() && (#[trigger] pairs[j]).0 == k,
    ensures
        pairs_map(pairs) == m,
{
    assert forall|k: usize| pairs_map(pairs).contains_key(k) <==> m.contains_key(k) by {
        lemma_pairs_map_dom(pairs, k);
        if pairs_map(pairs).contains_key(k) {
            let j = choose|j: int| 0 <= j < pairs.len() && (#[trigger] pairs[j]).0 == k;
            assert(m.contains_key(pairs[j].0));
        }
    }
    assert forall|k: usize| pairs_map(pairs).contains_key(k) implies pairs_map(pairs)[k]
        == m[k] by {
        lemma_pairs_map_dom(pairs, k);
        let j = choose|j: int| 0 <= j < pairs.len() && (#[trigger] pairs[j]).0 == k;
        lemma_pairs_map_value(pairs, j);
        assert(m[pairs[j].0] == pairs[j].1);
    }
    assert(pairs_map(pairs) =~= m);
}

/// A field standing under its name in a record.
pub fn named(name: &str, value: Node) -> (entry: (Node, Node))
    ensures
        entry.0.as_text() == Some(name.spec_bytes()),
        entry.1 == value,
{
    (Node::Text(name.to_owned()), value)
}

} // verus!
