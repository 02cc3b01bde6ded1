//! The typed contents of the constraint and assignment files in the text
//! encoding: every number is a string in base 10.

use std::collections::HashMap;
use vstd::prelude::*;
use vstd::std_specs::iter::IteratorSpec;
use vstd::string::StringSliceAdditionalSpecFns;

use crate::error::{BuildError, FileKind};
use crate::field::{lemma_limb_weights, limbs_value, pow256, pow64};
use crate::r1cs_provider::deserialize;
use crate::r1cs_provider::deserialize::BigInt;
use crate::r1cs_provider::document::{
    all_some, decode_json, distinct_keys, field, get_field, json_document, lemma_pairs_map_dom,
    lemma_pairs_map_of_listing, named, pairs_map, text_of, unwrap_all, Node,
};

verus! {

broadcast use vstd::std_specs::hash::group_hash_axioms;

/// The constraint rows of one circuit, in the order in which they are
/// enforced.
#[derive(Debug)]
pub struct R1CS(pub Vec<Constraint>);

/// One row: three sparse linear combinations, each a map from a wire's
/// index to its coefficient in base 10.
#[derive(Debug)]
pub struct Constraint {
    pub a: HashMap<usize, String>,
    pub b: HashMap<usize, String>,
    pub c: HashMap<usize, String>,
}

/// The witness of one instance: a value in base 10 for every variable, the
/// public ones first.
#[derive(Debug)]
pub struct Assignment {
    pub variables: Vec<String>,
    /// The number of public variables.
    pub primary_input_size: usize,
    /// The number of private variables.
    pub auxiliary_input_size: usize,
}

/// The byte is one of the ten digits.
pub open spec fn is_digit(b: u8) -> bool {
    0x30 <= b <= 0x39
}

/// The text is a number in base 10: digits, and at least one.
pub open spec fn is_decimal(text: Seq<u8>) -> bool {
    text.len() > 0 && forall|i: int| 0 <= i < text.len() ==> is_digit(#[trigger] text[i])
}

/// What a digit counts for.
pub open spec fn digit_value(b: u8) -> nat {
    if b >= 0x30 {
        (b - 0x30) as nat
    } else {
        0
    }
}

/// The number that a text of digits stands for.
pub open spec fn decimal_value(text: Seq<u8>) -> nat
    decreases text.len(),
{
    if text.len() == 0 {
        0
    } else {
        decimal_value(text.drop_last()) * 10 + digit_value(text.last())
    }
}

/// The text is a number in base 10 that fits four limbs.
pub open spec fn is_limb_decimal(text: Seq<u8>) -> bool {
    is_decimal(text) && decimal_value(text) < pow256()
}

/// What a text has read so far is no more than what it reads in the end.
proof fn lemma_decimal_value_monotone(text: Seq<u8>, i: int)
    requires
        0 <= i <= text.len(),
    ensures
        decimal_value(text.take(i)) <= decimal_value(text),
    decreases text.len() - i,
{
    if i < text.len() {
        assert(text.take(i + 1).drop_last() =~= text.take(i));
        lemma_decimal_value_monotone(text, i + 1);
    } else {
        assert(text.take(i) =~= text);
    }
}

/// Ten times a number of four limbs, plus a digit, where that fits four
/// limbs.
fn mul10_add(limbs: &[u64; 4], d: u64) -> (r: Option<[u64; 4]>)
    requires
        d < 10,
    ensures
        r is Some <==> limbs_value(*limbs) * 10 + d < pow256(),
        r matches Some(next) ==> limbs_value(next) == limbs_value(*limbs) * 10 + d,
{
    let t0: u128 = (limbs[0] as u128) * 10 + (d as u128);
    let l0: u64 = (t0 % 0x1_0000_0000_0000_0000) as u64;
    let c1: u128 = t0 / 0x1_0000_0000_0000_0000;
    let t1: u128 = (limbs[1] as u128) * 10 + c1;
    let l1: u64 = (t1 % 0x1_0000_0000_0000_0000) as u64;
    let c2: u128 = t1 / 0x1_0000_0000_0000_0000;
    let t2: u128 = (limbs[2] as u128) * 10 + c2;
    let l2: u64 = (t2 % 0x1_0000_0000_0000_0000) as u64;
    let c3: u128 = t2 / 0x1_0000_0000_0000_0000;
    let t3: u128 = (limbs[3] as u128) * 10 + c3;
    let l3: u64 = (t3 % 0x1_0000_0000_0000_0000) as u64;
    let c4: u128 = t3 / 0x1_0000_0000_0000_0000;
    let next = [l0, l1, l2, l3];
    proof {
        assert(limbs_value(next) + c4 * pow256() == limbs_value(*limbs) * 10 + d) by {
            assert(t0 == l0 + c1 * pow64());
            assert(t1 == l1 + c2 * pow64());
            assert(t2 == l2 + c3 * pow64());
            assert(t3 == l3 + c4 * pow64());
            lemma_limb_weights();
        }
        assert(limbs_value(next) < pow256());
    }
    if c4 != 0 {
        None
    } else {
        Some(next)
    }
}

/// Reads a number in base 10 into four limbs. Every byte has to be a digit,
/// there has to be one at least, and the number has to fit the limbs;
/// zeros in front are read as they stand.
pub fn parse_decimal(text: &[u8]) -> (r: Result<BigInt, BuildError>)
    ensures
        r is Ok <==> is_limb_decimal(text@),
        r matches Ok(b) ==> b.value() == decimal_value(text@),
        r matches Err(e) ==> e == BuildError::MalformedNumber,
{
    if text.len() == 0 {
        return Err(BuildError::MalformedNumber);
    }
    let mut limbs: [u64; 4] = [0, 0, 0, 0];
    let mut i: usize = 0;
    while i < text.len()
        invariant
            i <= text@.len(),
            forall|j: int| 0 <= j < i ==> is_digit(#[trigger] text@[j]),
            limbs_value(limbs) == decimal_value(text@.take(i as int)),
        decreases text@.len() - i,
    {
        let b = text[i];
        if b < 0x30 || b > 0x39 {
            return Err(BuildError::MalformedNumber);
        }
        proof {
            assert(text@.take(i + 1).drop_last() =~= text@.take(i as int));
            lemma_decimal_value_monotone(text@, i + 1);
        }
        match mul10_add(&limbs, (b - 0x30) as u64) {
            Some(next) => {
                limbs = next;
            },
            None => {
                return Err(BuildError::MalformedNumber);
            },
        }
        i = i + 1;
    }
    proof {
        assert(text@.take(i as int) =~= text@);
    }
    Ok(BigInt(limbs))
}

/// Every coefficient of the sparse combination is a number in base 10 that
/// fits four limbs.
pub open spec fn sparse_is_decimal(m: Map<usize, String>) -> bool {
    forall|k: usize| m.contains_key(k) ==> is_limb_decimal(text_of(#[trigger] m[k]))
}

/// The sparse combination in limbs names the same wires as the one in text,
/// with the same coefficients.
pub open spec fn sparse_matches(limbs: Map<usize, BigInt>, text: Map<usize, String>) -> bool {
    &&& limbs.dom() == text.dom()
    &&& forall|k: usize|
        text.contains_key(k) ==> (#[trigger] limbs[k]).value() == decimal_value(text_of(text[k]))
}

/// Reads every coefficient of a sparse combination into limbs.
fn sparse_to_limbs(m: &HashMap<usize, String>) -> (r: Result<HashMap<usize, BigInt>, BuildError>)
    ensures
        r is Ok <==> sparse_is_decimal(m@),
        r matches Ok(limbs) ==> sparse_matches(limbs@, m@),
        r matches Err(e) ==> e == BuildError::MalformedNumber,
{
    let ghost entries = m.iter().remaining();
    let mut limbs: HashMap<usize, BigInt> = HashMap::new();
    for entry in it: m.iter()
        invariant
            it.seq() == entries,
            entries == m.iter().remaining(),
            forall|j: int|
                0 <= j < it.index() ==> limbs@.contains_key(*(#[trigger] entries[j]).0)
                    && is_limb_decimal(text_of(*entries[j].1)),
            forall|k: usize|
                #![trigger limbs@.contains_key(k)]
                limbs@.contains_key(k) ==> m@.contains_key(k) && limbs@[k].value()
                    == decimal_value(text_of(m@[k])),
    {
        let (k, v) = entry;
        assert(m@.contains_key(*k) && m@[*k] == *v);
        let number = match parse_decimal(v.as_str().as_bytes()) {
            Ok(number) => number,
            Err(e) => {
                return Err(e);
            },
        };
        let ghost before = limbs@;
        limbs.insert(*k, number);
        proof {
            assert(limbs@ == before.insert(*k, number));
            assert forall|q: usize| #[trigger]
                limbs@.contains_key(q) implies m@.contains_key(q) && limbs@[q].value()
                == decimal_value(text_of(m@[q])) by {
                if q != *k {
                    assert(before.contains_key(q));
                    assert(limbs@[q] == before[q]);
                }
            }
        }
    }
    proof {
        assert forall|k: usize| m@.contains_key(k) implies limbs@.contains_key(k)
            && is_limb_decimal(text_of(#[trigger] m@[k])) by {
            assert(entries.contains((&k, &m@[k])));
            let j = choose|j: int| 0 <= j < entries.len() && entries[j] == (&k, &m@[k]);
            assert(limbs@.contains_key(*entries[j].0));
        }
        assert forall|k: usize| limbs@.dom().contains(k) <==> m@.dom().contains(k) by {
            if limbs@.contains_key(k) {
                assert(m@.contains_key(k));
            }
        }
        assert(limbs@.dom() =~= m@.dom());
    }
    Ok(limbs)
}

impl Constraint {
    /// Every coefficient of the row is a number in base 10 that fits four
    /// limbs.
    pub open spec fn is_decimal(self) -> bool {
        sparse_is_decimal(self.a@) && sparse_is_decimal(self.b@) && sparse_is_decimal(self.c@)
    }

    /// The row in limbs is this row.
    pub open spec fn matches_limbs(self, limbs: deserialize::Constraint) -> bool {
        sparse_matches(limbs.a@, self.a@) && sparse_matches(limbs.b@, self.b@) && sparse_matches(
            limbs.c@,
            self.c@,
        )
    }

    /// Reads the row's coefficients into limbs.
    pub fn to_limbs(&self) -> (r: Result<deserialize::Constraint, BuildError>)
        ensures
            r is Ok <==> self.is_decimal(),
            r matches Ok(limbs) ==> self.matches_limbs(limbs),
            r matches Err(e) ==> e == BuildError::MalformedNumber,
    {
        let a = match sparse_to_limbs(&self.a) {
            Ok(m) => m,
            Err(e) => {
                return Err(e);
            },
        };
        let b = match sparse_to_limbs(&self.b) {
            Ok(m) => m,
            Err(e) => {
                return Err(e);
            },
        };
        let c = match sparse_to_limbs(&self.c) {
            Ok(m) => m,
            Err(e) => {
                return Err(e);
            },
        };
        Ok(deserialize::Constraint { a, b, c })
    }
}

impl R1CS {
    /// Every coefficient of every row is a number in base 10 that fits four
    /// limbs.
    pub open spec fn is_decimal(self) -> bool {
        forall|i: int| 0 <= i < self.0@.len() ==> (#[trigger] self.0@[i]).is_decimal()
    }

    /// Reads the coefficients of all rows into limbs; the rows stay in
    /// their order.
    pub fn to_limbs(&self) -> (r: Result<deserialize::R1CS, BuildError>)
        ensures
            r is Ok <==> self.is_decimal(),
            r matches Ok(limbs) ==> limbs.0@.len() == self.0@.len() && forall|i: int|
                0 <= i < self.0@.len() ==> (#[trigger] self.0@[i]).matches_limbs(limbs.0@[i]),
            r matches Err(e) ==> e == BuildError::MalformedNumber,
    {
        let mut rows: Vec<deserialize::Constraint> = Vec::new();
        let mut i: usize = 0;
        while i < self.0.len()
            invariant
                i <= self.0@.len(),
                rows@.len() == i,
                forall|j: int|
                    0 <= j < i ==> (#[trigger] self.0@[j]).is_decimal() && self.0@[j].matches_limbs(
                        rows@[j],
                    ),
            decreases self.0@.len() - i,
        {
            match self.0[i].to_limbs() {
                Ok(row) => {
                    rows.push(row);
                },
                Err(e) => {
                    return Err(e);
                },
            }
            i = i + 1;
        }
        Ok(deserialize::R1CS(rows))
    }
}

impl Assignment {
    /// The two input counts add up to the number of variables.
    pub open spec fn wf(self) -> bool {
        self.primary_input_size + self.auxiliary_input_size == self.variables@.len()
    }

    /// Every variable is a number in base 10 that fits four limbs.
    pub open spec fn is_decimal(self) -> bool {
        forall|i: int|
            0 <= i < self.variables@.len() ==> is_limb_decimal(
                text_of(#[trigger] self.variables@[i]),
            )
    }

    /// Reads the variables into limbs, and refuses counts that do not add up
    /// to the number of variables.
    pub fn to_limbs(&self) -> (r: Result<deserialize::Assignment, BuildError>)
        ensures
            match r {
                Ok(limbs) => {
                    &&& self.wf()
                    &&& self.is_decimal()
                    &&& limbs.wf()
                    &&& limbs.primary_input_size == self.primary_input_size
                    &&& limbs.auxiliary_input_size == self.auxiliary_input_size
                    &&& limbs.variables@.len() == self.variables@.len()
                    &&& forall|i: int|
                        0 <= i < self.variables@.len() ==> (#[trigger] limbs.variables@[i]).value()
                            == decimal_value(text_of(self.variables@[i]))
                },
                Err(e) => if self.wf() {
                    !self.is_decimal() && e == BuildError::MalformedNumber
                } else {
                    e == BuildError::Deserialize(FileKind::Assignment)
                },
            },
    {
        let total = self.primary_input_size.checked_add(self.auxiliary_input_size);
        if total != Some(self.variables.len()) {
            return Err(BuildError::Deserialize(FileKind::Assignment));
        }
        let mut variables: Vec<BigInt> = Vec::new();
        let mut i: usize = 0;
        while i < self.variables.len()
            invariant
                self.wf(),
                i <= self.variables@.len(),
                variables@.len() == i,
                forall|j: int|
                    0 <= j < i ==> is_limb_decimal(text_of(#[trigger] self.variables@[j]))
                        && variables@[j].value() == decimal_value(text_of(self.variables@[j])),
            decreases self.variables@.len() - i,
        {
            match parse_decimal(self.variables[i].as_str().as_bytes()) {
                Ok(number) => {
                    variables.push(number);
                },
                Err(e) => {
                    return Err(e);
                },
            }
            i = i + 1;
        }
        Ok(
            deserialize::Assignment {
                variables,
                primary_input_size: self.primary_input_size,
                auxiliary_input_size: self.auxiliary_input_size,
            },
        )
    }
}

/// What a row in text says: its three sparse linear combinations.
pub struct ConstraintView {
    pub a: Map<usize, String>,
    pub b: Map<usize, String>,
    pub c: Map<usize, String>,
}

/// What an assignment file in text says.
pub struct AssignmentView {
    pub variables: Seq<String>,
    pub primary_input_size: usize,
    pub auxiliary_input_size: usize,
}

impl View for Constraint {
    type V = ConstraintView;

    open spec fn view(&self) -> ConstraintView {
        ConstraintView { a: self.a@, b: self.b@, c: self.c@ }
    }
}

impl View for R1CS {
    type V = Seq<ConstraintView>;

    open spec fn view(&self) -> Seq<ConstraintView> {
        self.0@.map_values(|row: Constraint| row@)
    }
}

impl View for Assignment {
    type V = AssignmentView;

    open spec fn view(&self) -> AssignmentView {
        AssignmentView {
            variables: self.variables@,
            primary_input_size: self.primary_input_size,
            auxiliary_input_size: self.auxiliary_input_size,
        }
    }
}

/// The index that a text stands for: a number in base 10 without zeros in
/// front that is an index of the machine.
pub open spec fn index_of_text(text: Seq<u8>) -> Option<usize> {
    if is_decimal(text) && (text.len() == 1 || text[0] != 0x30) && decimal_value(text)
        <= usize::MAX {
        Some(decimal_value(text) as usize)
    } else {
        None
    }
}

/// Reads the index that a text stands for.
pub fn parse_index(text: &[u8]) -> (r: Option<usize>)
    ensures
        r == index_of_text(text@),
{
    if text.len() == 0 || (text.len() > 1 && text[0] == 0x30) {
        return None;
    }
    let mut value: usize = 0;
    let mut i: usize = 0;
    while i < text.len()
        invariant
            i <= text@.len(),
            forall|j: int| 0 <= j < i ==> is_digit(#[trigger] text@[j]),
            value == decimal_value(text@.take(i as int)),
        decreases text@.len() - i,
    {
        let b = text[i];
        if b < 0x30 || b > 0x39 {
            return None;
        }
        proof {
            assert(text@.take(i + 1).drop_last() =~= text@.take(i as int));
            lemma_decimal_value_monotone(text@, i + 1);
        }
        let d = (b - 0x30) as usize;
        if value > (usize::MAX - d) / 10 {
            return None;
        }
        value = value * 10 + d;
        i = i + 1;
    }
    proof {
        assert(text@.take(i as int) =~= text@);
    }
    Some(value)
}

/// The entry of a sparse combination that a key and its value hold: the
/// text of a wire's index and the text of a coefficient.
pub open spec fn entry_of(e: (Node, Node)) -> Option<(usize, String)> {
    match (e.0, e.1) {
        (Node::Text(key), Node::Text(value)) => match index_of_text(text_of(key)) {
            Some(k) => Some((k, value)),
            None => None,
        },
        _ => None,
    }
}

/// The sparse combination that a node holds: a list of entries, no wire
/// twice.
pub open spec fn sparse_of(n: Node) -> Option<Map<usize, String>> {
    match n.as_dict() {
        Some(entries) => {
            let pairs = entries.map_values(|e: (Node, Node)| entry_of(e));
            if all_some(pairs) && distinct_keys(unwrap_all(pairs)) {
                Some(pairs_map(unwrap_all(pairs)))
            } else {
                None
            }
        },
        None => None,
    }
}

/// The combination of a record of a row that stands under `name`.
pub open spec fn sparse_field(entries: Seq<(Node, Node)>, name: Seq<u8>) -> Option<
    Map<usize, String>,
> {
    match field(entries, name) {
        Some(node) => sparse_of(node),
        None => None,
    }
}

/// The row that a node holds: a record with the combinations `a`, `b` and
/// `c`. What else the record holds is passed over.
pub open spec fn constraint_of(n: Node) -> Option<ConstraintView> {
    match n.as_dict() {
        Some(entries) => match (
            sparse_field(entries, "a".spec_bytes()),
            sparse_field(entries, "b".spec_bytes()),
            sparse_field(entries, "c".spec_bytes()),
        ) {
            (Some(a), Some(b), Some(c)) => Some(ConstraintView { a, b, c }),
            _ => None,
        },
        None => None,
    }
}

/// The constraint rows that a node holds: a list of rows.
pub open spec fn r1cs_of(n: Node) -> Option<Seq<ConstraintView>> {
    match n.as_list() {
        Some(items) => {
            let rows = items.map_values(|x: Node| constraint_of(x));
            if all_some(rows) {
                Some(unwrap_all(rows))
            } else {
                None
            }
        },
        None => None,
    }
}

/// The text that a node holds.
pub open spec fn string_of(n: Node) -> Option<String> {
    match n {
        Node::Text(s) => Some(s),
        _ => None,
    }
}

/// The texts that a node holds: a list of texts.
pub open spec fn strings_of(n: Node) -> Option<Seq<String>> {
    match n.as_list() {
        Some(items) => {
            let texts = items.map_values(|x: Node| string_of(x));
            if all_some(texts) {
                Some(unwrap_all(texts))
            } else {
                None
            }
        },
        None => None,
    }
}

/// The count of a record that stands under `name`.
pub open spec fn count_field(entries: Seq<(Node, Node)>, name: Seq<u8>) -> Option<usize> {
    match field(entries, name) {
        Some(node) => node.as_usize(),
        None => None,
    }
}

/// The assignment that a node holds: a record with the list `variables`
/// and the counts `primary_input_size` and `auxiliary_input_size`, which
/// add up to the number of variables.
pub open spec fn assignment_of(n: Node) -> Option<AssignmentView> {
    match n.as_dict() {
        Some(entries) => match (
            field(entries, "variables".spec_bytes()),
            count_field(entries, "primary_input_size".spec_bytes()),
            count_field(entries, "auxiliary_input_size".spec_bytes()),
        ) {
            (Some(list), Some(primary), Some(auxiliary)) => match strings_of(list) {
                Some(variables) => if primary + auxiliary == variables.len() {
                    Some(
                        AssignmentView {
                            variables,
                            primary_input_size: primary,
                            auxiliary_input_size: auxiliary,
                        },
                    )
                } else {
                    None
                },
                None => None,
            },
            _ => None,
        },
        None => None,
    }
}

/// Reads a sparse combination off a node.
fn sparse_from_node(n: &Node) -> (r: Option<HashMap<usize, String>>)
    ensures
        match r {
            Some(m) => sparse_of(*n) == Some(m@),
            None => sparse_of(*n) is None,
        },
{
    let entries = match n {
        Node::Dict(entries) => entries,
        _ => {
            return None;
        },
    };
    let ghost pairs = entries@.map_values(|e: (Node, Node)| entry_of(e));
    let mut m: HashMap<usize, String> = HashMap::new();
    let mut i: usize = 0;
    while i < entries.len()
        invariant
            n.as_dict() == Some(entries@),
            pairs == entries@.map_values(|e: (Node, Node)| entry_of(e)),
            i <= entries@.len(),
            forall|j: int| 0 <= j < i ==> (#[trigger] pairs[j]) is Some,
            distinct_keys(unwrap_all(pairs).take(i as int)),
            m@ == pairs_map(unwrap_all(pairs).take(i as int)),
        decreases entries@.len() - i,
    {
        let entry = &entries[i];
        let (key, value) = match (&entry.0, &entry.1) {
            (Node::Text(key_text), Node::Text(value)) => match parse_index(
                key_text.as_str().as_bytes(),
            ) {
                Some(key) => (key, value.clone()),
                None => {
                    assert(pairs[i as int] is None);
                    return None;
                },
            },
            _ => {
                assert(pairs[i as int] is None);
                return None;
            },
        };
        assert(pairs[i as int] == Some((key, value)));
        let ghost done = unwrap_all(pairs).take(i as int);
        let ghost next = unwrap_all(pairs).take(i + 1);
        proof {
            lemma_pairs_map_dom(done, key);
            assert(next.drop_last() =~= done);
            assert(next.last() == (key, value));
        }
        if m.contains_key(&key) {
            proof {
                let j = choose|j: int| 0 <= j < done.len() && (#[trigger] done[j]).0 == key;
                assert(unwrap_all(pairs)[j].0 == unwrap_all(pairs)[i as int].0);
                assert(!distinct_keys(unwrap_all(pairs)));
            }
            return None;
        }
        m.insert(key, value);
        proof {
            assert forall|a: int, b: int| 0 <= a < b < next.len() implies next[a].0
                != next[b].0 by {
                if b < i {
                    assert(done[a].0 != done[b].0);
                } else {
                    assert(done[a].0 == next[a].0);
                }
            }
        }
        i = i + 1;
    }
    proof {
        assert(unwrap_all(pairs).take(i as int) =~= unwrap_all(pairs));
        assert(all_some(pairs));
    }
    Some(m)
}

/// Reads the combination that stands under `name` in a record of a row.
fn sparse_field_from(entries: &Vec<(Node, Node)>, name: &str) -> (r: Option<
    HashMap<usize, String>,
>)
    ensures
        match r {
            Some(m) => sparse_field(entries@, name.spec_bytes()) == Some(m@),
            None => sparse_field(entries@, name.spec_bytes()) is None,
        },
{
    match get_field(entries, name) {
        Some(node) => sparse_from_node(node),
        None => None,
    }
}

/// Reads a row off a node.
pub fn constraint_from_node(n: &Node) -> (r: Option<Constraint>)
    ensures
        match r {
            Some(row) => constraint_of(*n) == Some(row@),
            None => constraint_of(*n) is None,
        },
{
    let entries = match n {
        Node::Dict(entries) => entries,
        _ => {
            return None;
        },
    };
    let a = match sparse_field_from(entries, "a") {
        Some(m) => m,
        None => {
            return None;
        },
    };
    let b = match sparse_field_from(entries, "b") {
        Some(m) => m,
        None => {
            return None;
        },
    };
    let c = match sparse_field_from(entries, "c") {
        Some(m) => m,
        None => {
            return None;
        },
    };
    Some(Constraint { a, b, c })
}

/// Reads the constraint rows off the tree of a constraint file.
pub fn r1cs_from_node(n: &Node) -> (r: Option<R1CS>)
    ensures
        match r {
            Some(r1cs) => r1cs_of(*n) == Some(r1cs@),
            None => r1cs_of(*n) is None,
        },
{
    let items = match n {
        Node::List(items) => items,
        _ => {
            return None;
        },
    };
    let ghost parsed = items@.map_values(|x: Node| constraint_of(x));
    let mut rows: Vec<Constraint> = Vec::new();
    let mut i: usize = 0;
    while i < items.len()
        invariant
            n.as_list() == Some(items@),
            parsed == items@.map_values(|x: Node| constraint_of(x)),
            i <= items@.len(),
            rows@.len() == i,
            forall|j: int| 0 <= j < i ==> (#[trigger] parsed[j]) == Some(rows@[j]@),
        decreases items@.len() - i,
    {
        match constraint_from_node(&items[i]) {
            Some(row) => {
                rows.push(row);
            },
            None => {
                assert(parsed[i as int] is None);
                return None;
            },
        }
        i = i + 1;
    }
    proof {
        assert(all_some(parsed));
        assert(unwrap_all(parsed) =~= rows@.map_values(|row: Constraint| row@));
    }
    Some(R1CS(rows))
}

/// Reads a list of texts off a node.
fn strings_from_node(n: &Node) -> (r: Option<Vec<String>>)
    ensures
        match r {
            Some(texts) => strings_of(*n) == Some(texts@),
            None => strings_of(*n) is None,
        },
{
    let items = match n {
        Node::List(items) => items,
        _ => {
            return None;
        },
    };
    let ghost parsed = items@.map_values(|x: Node| string_of(x));
    let mut texts: Vec<String> = Vec::new();
    let mut i: usize = 0;
    while i < items.len()
        invariant
            n.as_list() == Some(items@),
            parsed == items@.map_values(|x: Node| string_of(x)),
            i <= items@.len(),
            texts@.len() == i,
            forall|j: int| 0 <= j < i ==> (#[trigger] parsed[j]) == Some(texts@[j]),
        decreases items@.len() - i,
    {
        match &items[i] {
            Node::Text(s) => {
                texts.push(s.clone());
            },
            _ => {
                assert(parsed[i as int] is None);
                return None;
            },
        }
        i = i + 1;
    }
    proof {
        assert(all_some(parsed));
        assert(unwrap_all(parsed) =~= texts@);
    }
    Some(texts)
}

/// Reads the witness off the tree of an assignment file. A file whose two
/// counts do not add up to the number of its variables is refused.
pub fn assignment_from_node(n: &Node) -> (r: Option<Assignment>)
    ensures
        match r {
            Some(assignment) => assignment_of(*n) == Some(assignment@) && assignment.wf(),
            None => assignment_of(*n) is None,
        },
{
    let entries = match n {
        Node::Dict(entries) => entries,
        _ => {
            return None;
        },
    };
    let list = match get_field(entries, "variables") {
        Some(list) => list,
        None => {
            return None;
        },
    };
    let primary_input_size = match get_field(entries, "primary_input_size") {
        Some(node) => match node.get_usize() {
            Some(count) => count,
            None => {
                return None;
            },
        },
        None => {
            return None;
        },
    };
    let auxiliary_input_size = match get_field(entries, "auxiliary_input_size") {
        Some(node) => match node.get_usize() {
            Some(count) => count,
            None => {
                return None;
            },
        },
        None => {
            return None;
        },
    };
    let variables = match strings_from_node(list) {
        Some(variables) => variables,
        None => {
            return None;
        },
    };
    let total = primary_input_size.checked_add(auxiliary_input_size);
    if total != Some(variables.len()) {
        return None;
    }
    Some(Assignment { variables, primary_input_size, auxiliary_input_size })
}

/// The constraint rows that the bytes of a constraint file hold.
pub open spec fn r1cs_in(bytes: Seq<u8>) -> Option<Seq<ConstraintView>> {
    match json_document(bytes) {
        Some(n) => r1cs_of(n),
        None => None,
    }
}

/// The witness that the bytes of an assignment file hold.
pub open spec fn assignment_in(bytes: Seq<u8>) -> Option<AssignmentView> {
    match json_document(bytes) {
        Some(n) => assignment_of(n),
        None => None,
    }
}

/// Parses the contents of the two files of one generator run: the
/// constraint file first, then the assignment file.
pub fn parse_file(r1cs: &[u8], assignment: &[u8]) -> (r: Result<(R1CS, Assignment), BuildError>)
    ensures
        match r {
            Ok((parsed_r1cs, parsed_assignment)) => {
                &&& r1cs_in(r1cs@) == Some(parsed_r1cs@)
                &&& assignment_in(assignment@) == Some(parsed_assignment@)
                &&& parsed_assignment.wf()
            },
            Err(e) => if r1cs_in(r1cs@) is None {
                e == BuildError::Deserialize(FileKind::R1cs)
            } else {
                assignment_in(assignment@) is None && e == BuildError::Deserialize(
                    FileKind::Assignment,
                )
            },
        },
{
    let parsed_r1cs = match decode_json(r1cs) {
        Some(node) => r1cs_from_node(&node),
        None => None,
    };
    let parsed_r1cs = match parsed_r1cs {
        Some(parsed) => parsed,
        None => {
            return Err(BuildError::Deserialize(FileKind::R1cs));
        },
    };
    let parsed_assignment = match decode_json(assignment) {
        Some(node) => assignment_from_node(&node),
        None => None,
    };
    match parsed_assignment {
        Some(parsed) => Ok((parsed_r1cs, parsed)),
        None => Err(BuildError::Deserialize(FileKind::Assignment)),
    }
}

/// The digits of an index in base 10, without zeros in front.
pub open spec fn index_digits(k: nat) -> Seq<u8>
    decreases k,
{
    if k < 10 {
        seq![(0x30 + k) as u8]
    } else {
        index_digits(k / 10).push((0x30 + k % 10) as u8)
    }
}

/// The digits of an index read back as the index.
pub proof fn lemma_index_digits(k: nat)
    ensures
        is_decimal(index_digits(k)),
        decimal_value(index_digits(k)) == k,
        index_digits(k).len() == 1 || index_digits(k)[0] != 0x30,
        forall|i: int| 0 <= i < index_digits(k).len() ==> index_digits(k)[i] < 128,
    decreases k,
{
    if k < 10 {
        let d = index_digits(k);
        assert(d.drop_last() =~= Seq::<u8>::empty());
        assert(decimal_value(d.drop_last()) == 0);
    } else {
        lemma_index_digits(k / 10);
        let head = index_digits(k / 10);
        let d = index_digits(k);
        assert(d.drop_last() =~= head);
        assert(d[0] == head[0]);
        assert(head.len() == 1 ==> head[0] != 0x30) by {
            if head.len() == 1 && head[0] == 0x30 {
                assert(head.drop_last() =~= Seq::<u8>::empty());
                assert(decimal_value(head.drop_last()) == 0);
            }
        }
    }
}

/// Writes the digits of an index behind what is there.
fn push_index_digits(k: usize, out: &mut Vec<u8>)
    ensures
        final(out)@ == old(out)@ + index_digits(k as nat),
    decreases k,
{
    if k >= 10 {
        push_index_digits(k / 10, out);
    }
    out.push(0x30 + (k % 10) as u8);
    proof {
        if k < 10 {
            assert(out@ =~= old(out)@ + index_digits(k as nat));
        } else {
            assert(out@ =~= old(out)@ + index_digits(k as nat));
        }
    }
}

/// Makes a string of bytes below 128 with `String::from_utf8`: such bytes
/// are a text in UTF-8, each byte one character, and the string holds them
/// as they are.
#[verifier::external_body]
fn string_from_ascii(bytes: Vec<u8>) -> (s: String)
    requires
        forall|i: int| 0 <= i < bytes@.len() ==> bytes@[i] < 128,
    ensures
        text_of(s) == bytes@,
{
    String::from_utf8(bytes).unwrap()
}

/// The index as a text in base 10.
pub fn index_text(k: usize) -> (s: String)
    ensures
        text_of(s) == index_digits(k as nat),
        index_of_text(text_of(s)) == Some(k),
{
    let mut digits: Vec<u8> = Vec::new();
    push_index_digits(k, &mut digits);
    proof {
        lemma_index_digits(k as nat);
        assert(digits@ =~= index_digits(k as nat));
    }
    string_from_ascii(digits)
}

/// The node that holds a sparse combination, its entries in the order in
/// which the map hands them out.
fn sparse_to_node(m: &HashMap<usize, String>) -> (node: Node)
    ensures
        sparse_of(node) == Some(m@),
{
    let ghost listed = m.iter().remaining();
    let mut entries: Vec<(Node, Node)> = Vec::new();
    for entry in it: m.iter()
        invariant
            it.seq() == listed,
            listed == m.iter().remaining(),
            listed.no_duplicates(),
            entries@.len() == it.index(),
            forall|j: int|
                0 <= j < entries@.len() ==> entry_of(#[trigger] entries@[j]) == Some(
                    (*listed[j].0, *listed[j].1),
                ),
    {
        let (k, v) = entry;
        entries.push((Node::Text(index_text(*k)), Node::Text(v.clone())));
    }
    let node = Node::Dict(entries);
    proof {
        let pairs = entries@.map_values(|e: (Node, Node)| entry_of(e));
        let plain = unwrap_all(pairs);
        assert(all_some(pairs));
        assert forall|j: int| 0 <= j < plain.len() implies #[trigger] plain[j] == (
            *listed[j].0,
            *listed[j].1,
        ) && m@.contains_key(plain[j].0) && m@[plain[j].0] == plain[j].1 by {
            assert(pairs[j] == entry_of(entries@[j]));
        }
        assert forall|a: int, b: int| 0 <= a < b < plain.len() implies plain[a].0
            != plain[b].0 by {
            if plain[a].0 == plain[b].0 {
                assert(m@[plain[a].0] == plain[a].1 && m@[plain[b].0] == plain[b].1);
                assert(listed[a] == listed[b]);
            }
        }
        assert forall|k: usize| m@.contains_key(k) implies exists|j: int|
            0 <= j < plain.len() && (#[trigger] plain[j]).0 == k by {
            assert(listed.contains((&k, &m@[k])));
            let j = choose|j: int| 0 <= j < listed.len() && listed[j] == (&k, &m@[k]);
            assert(plain[j].0 == k);
        }
        lemma_pairs_map_of_listing(plain, m@);
    }
    node
}

/// The names of the fields of one record are different texts.
proof fn lemma_field_names()
    ensures
        "a".spec_bytes() != "b".spec_bytes(),
        "a".spec_bytes() != "c".spec_bytes(),
        "b".spec_bytes() != "c".spec_bytes(),
        "variables".spec_bytes() != "primary_input_size".spec_bytes(),
        "variables".spec_bytes() != "auxiliary_input_size".spec_bytes(),
        "primary_input_size".spec_bytes() != "auxiliary_input_size".spec_bytes(),
{
    broadcast use vstd::string::is_ascii_spec_bytes;

    reveal_strlit("a");
    reveal_strlit("b");
    reveal_strlit("c");
    reveal_strlit("variables");
    reveal_strlit("primary_input_size");
    reveal_strlit("auxiliary_input_size");
    assert(vstd::string::is_ascii("a"));
    assert(vstd::string::is_ascii("b"));
    assert(vstd::string::is_ascii("c"));
    assert(vstd::string::is_ascii("variables"));
    assert(vstd::string::is_ascii("primary_input_size"));
    assert(vstd::string::is_ascii("auxiliary_input_size"));
    assert("a".spec_bytes()[0] == 0x61);
    assert("b".spec_bytes()[0] == 0x62);
    assert("c".spec_bytes()[0] == 0x63);
    assert("variables".spec_bytes().len() == 9);
    assert("primary_input_size".spec_bytes().len() == 18);
    assert("auxiliary_input_size".spec_bytes().len() == 20);
}

impl Constraint {
    /// The node that holds the row: a record with the combinations `a`, `b`
    /// and `c`. Reading the node gives the row back.
    pub fn to_node(&self) -> (node: Node)
        ensures
            constraint_of(node) == Some(self@),
    {
        let mut entries: Vec<(Node, Node)> = Vec::new();
        entries.push(named("a", sparse_to_node(&self.a)));
        entries.push(named("b", sparse_to_node(&self.b)));
        entries.push(named("c", sparse_to_node(&self.c)));
        proof {
            lemma_field_names();
            let e = entries@;
            assert(e.drop_first().drop_first()[0] == e[2]);
            assert(e.drop_first()[0] == e[1]);
            reveal_with_fuel(field, 4);
            assert(field(e, "a".spec_bytes()) == Some(e[0].1));
            assert(field(e, "b".spec_bytes()) == Some(e[1].1));
            assert(field(e, "c".spec_bytes()) == Some(e[2].1));
        }
        Node::Dict(entries)
    }
}

impl R1CS {
    /// The node that holds the constraint rows, in their order. Reading the
    /// node gives the rows back.
    pub fn to_node(&self) -> (node: Node)
        ensures
            r1cs_of(node) == Some(self@),
    {
        let mut items: Vec<Node> = Vec::new();
        let mut i: usize = 0;
        while i < self.0.len()
            invariant
                i <= self.0@.len(),
                items@.len() == i,
                forall|j: int|
                    0 <= j < i ==> constraint_of(#[trigger] items@[j]) == Some(self.0@[j]@),
            decreases self.0@.len() - i,
        {
            items.push(self.0[i].to_node());
            i = i + 1;
        }
        proof {
            let parsed = items@.map_values(|x: Node| constraint_of(x));
            assert(all_some(parsed));
            assert(unwrap_all(parsed) =~= self.0@.map_values(|row: Constraint| row@));
        }
        Node::List(items)
    }
}

impl Assignment {
    /// The node that holds the witness: a record with the list `variables`
    /// and the two counts. Reading the node gives the witness back, where
    /// its counts add up.
    pub fn to_node(&self) -> (node: Node)
        ensures
            self.wf() ==> assignment_of(node) == Some(self@),
            !self.wf() ==> assignment_of(node) is None,
    {
        let mut texts: Vec<Node> = Vec::new();
        let mut i: usize = 0;
        while i < self.variables.len()
            invariant
                i <= self.variables@.len(),
                texts@.len() == i,
                forall|j: int|
                    0 <= j < i ==> string_of(#[trigger] texts@[j]) == Some(self.variables@[j]),
            decreases self.variables@.len() - i,
        {
            texts.push(Node::Text(self.variables[i].clone()));
            i = i + 1;
        }
        let list = Node::List(texts);
        proof {
            let parsed = texts@.map_values(|x: Node| string_of(x));
            assert(all_some(parsed));
            assert(unwrap_all(parsed) =~= self.variables@);
            assert(strings_of(list) == Some(self.variables@));
        }
        let mut entries: Vec<(Node, Node)> = Vec::new();
        entries.push(named("variables", list));
        entries.push(named("primary_input_size", Node::Integer(self.primary_input_size as i128)));
        entries.push(
            named("auxiliary_input_size", Node::Integer(self.auxiliary_input_size as i128)),
        );
        proof {
            lemma_field_names();
            let e = entries@;
            assert(e.drop_first().drop_first()[0] == e[2]);
            assert(e.drop_first()[0] == e[1]);
            reveal_with_fuel(field, 4);
            assert(field(e, "variables".spec_bytes()) == Some(e[0].1));
            assert(field(e, "primary_input_size".spec_bytes()) == Some(e[1].1));
            assert(field(e, "auxiliary_input_size".spec_bytes()) == Some(e[2].1));
        }
        Node::Dict(entries)
    }
}

} // verus!
