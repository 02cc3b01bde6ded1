//! The typed contents of the constraint, assignment and lookup files in the
//! limb encoding: every number is four little-endian 64-bit limbs.

use std::collections::HashMap;
use vstd::prelude::*;
use vstd::std_specs::iter::IteratorSpec;
use vstd::string::StringSliceAdditionalSpecFns;

use crate::error::{BuildError, FileKind};
use crate::r1cs_provider::document::{
    all_some, cbor_document, decode_cbor, distinct_keys, field, get_field, lemma_pairs_map_dom,
    lemma_pairs_map_of_listing, named, pairs_map, unwrap_all, Node,
};

verus! {

/// A non-negative integer below 2^256 as four 64-bit limbs, least
/// significant first.
#[derive(Debug, Clone, Copy)]
pub struct BigInt(pub [u64; 4]);

impl BigInt {
    /// The integer that the limbs stand for.
    pub open spec fn value(self) -> nat {
        crate::field::limbs_value(self.0)
    }
}

/// The constraint rows of one circuit, in the order in which they are
/// enforced.
#[derive(Debug)]
pub struct R1CS(pub Vec<Constraint>);

/// One row: three sparse linear combinations over the wire vector, each a
/// map from a wire's index to its coefficient. The row holds of a wire
/// vector `w` when `(sum a_i w_i) * (sum b_i w_i) = sum c_i w_i`.
#[derive(Debug)]
pub struct Constraint {
    pub a: HashMap<usize, BigInt>,
    pub b: HashMap<usize, BigInt>,
    pub c: HashMap<usize, BigInt>,
}

/// The witness of one instance: a value for every variable, the public
/// ones first.
#[derive(Debug)]
pub struct Assignment {
    pub variables: Vec<BigInt>,
    /// The number of public variables.
    pub primary_input_size: usize,
    /// The number of private variables.
    pub auxiliary_input_size: usize,
}

/// The triples `(a, b, c)` that a lookup relation admits.
#[derive(Debug)]
pub struct LookupTable(pub Vec<[u32; 3]>);

/// A lookup table and the rows that are checked against it in place of the
/// multiplication.
#[derive(Debug)]
pub struct Lookup {
    pub table: LookupTable,
    pub constraints: Vec<Constraint>,
}

impl Assignment {
    /// The two input counts add up to the number of variables.
    pub open spec fn wf(self) -> bool {
        self.primary_input_size + self.auxiliary_input_size == self.variables@.len()
    }

    /// Puts an assignment together from the three fields of its file, and
    /// refuses counts that do not add up to the number of variables.
    pub fn new(
        variables: Vec<BigInt>,
        primary_input_size: usize,
        auxiliary_input_size: usize,
    ) -> (r: Result<Assignment, BuildError>)
        ensures
            r is Ok <==> primary_input_size + auxiliary_input_size == variables@.len(),
            r matches Ok(a) ==> a.wf() && a.variables == variables && a.primary_input_size
                == primary_input_size && a.auxiliary_input_size == auxiliary_input_size,
            r matches Err(e) ==> e == BuildError::Deserialize(FileKind::Assignment),
    {
        let total = primary_input_size.checked_add(auxiliary_input_size);
        if total == Some(variables.len()) {
            Ok(Assignment { variables, primary_input_size, auxiliary_input_size })
        } else {
            Err(BuildError::Deserialize(FileKind::Assignment))
        }
    }
}

/// What a row says: its three sparse linear combinations.
pub struct ConstraintView {
    pub a: Map<usize, BigInt>,
    pub b: Map<usize, BigInt>,
    pub c: Map<usize, BigInt>,
}

/// What an assignment file says.
pub struct AssignmentView {
    pub variables: Seq<BigInt>,
    pub primary_input_size: usize,
    pub auxiliary_input_size: usize,
}

/// What a lookup file says.
pub struct LookupView {
    pub table: Seq<[u32; 3]>,
    pub constraints: Seq<ConstraintView>,
}

impl View for Constraint {
    type V = ConstraintView;

    open spec fn view(&self) -> ConstraintView {
        ConstraintView { a: self.a@, b: self.b@, c: self.c@ }
    }
}

impl View for R1CS {
    type V = Seq<ConstraintView>;

    open spec fn view(&self) -> Seq<ConstraintView> {
        self.0@.map_values(|row: Constraint| row@)
    }
}

impl View for Assignment {
    type V = AssignmentView;

    open spec fn view(&self) -> AssignmentView {
        AssignmentView {
            variables: self.variables@,
            primary_input_size: self.primary_input_size,
            auxiliary_input_size: self.auxiliary_input_size,
        }
    }
}

impl View for Lookup {
    type V = LookupView;

    open spec fn view(&self) -> LookupView {
        LookupView {
            table: self.table.0@,
            constraints: self.constraints@.map_values(|row: Constraint| row@),
        }
    }
}

/// The number that a node holds: a list of four limbs, least significant
/// first.
pub open spec fn limbs_of(n: Node) -> Option<BigInt> {
    match n.as_list() {
        Some(items) => if items.len() == 4 && items[0].as_u64() is Some && items[1].as_u64() is Some
            && items[2].as_u64() is Some && items[3].as_u64() is Some {
            Some(
                BigInt(
                    [
                        items[0].as_u64()->Some_0,
                        items[1].as_u64()->Some_0,
                        items[2].as_u64()->Some_0,
                        items[3].as_u64()->Some_0,
                    ],
                ),
            )
        } else {
            None
        },
        None => None,
    }
}

/// The entry of a sparse combination that a key and its value hold: a
/// wire's index and a coefficient.
pub open spec fn entry_of(e: (Node, Node)) -> Option<(usize, BigInt)> {
    match (e.0.as_usize(), limbs_of(e.1)) {
        (Some(k), Some(v)) => Some((k, v)),
        _ => None,
    }
}

/// The sparse combination that a node holds: a list of entries, no wire
/// twice.
pub open spec fn sparse_of(n: Node) -> Option<Map<usize, BigInt>> {
    match n.as_dict() {
        Some(entries) => {
            let pairs = entries.map_values(|e: (Node, Node)| entry_of(e));
            if all_some(pairs) && distinct_keys(unwrap_all(pairs)) {
                Some(pairs_map(unwrap_all(pairs)))
            } else {
                None
            }
        },
        None => None,
    }
}

/// The combination of a record of a row that stands under `name`.
pub open spec fn sparse_field(entries: Seq<(Node, Node)>, name: Seq<u8>) -> Option<
    Map<usize, BigInt>,
> {
    match field(entries, name) {
        Some(node) => sparse_of(node),
        None => None,
    }
}

/// The row that a node holds: a record with the combinations `a`, `b` and
/// `c`. What else the record holds is passed over.
pub open spec fn constraint_of(n: Node) -> Option<ConstraintView> {
    match n.as_dict() {
        Some(entries) => match (
            sparse_field(entries, "a".spec_bytes()),
            sparse_field(entries, "b".spec_bytes()),
            sparse_field(entries, "c".spec_bytes()),
        ) {
            (Some(a), Some(b), Some(c)) => Some(ConstraintView { a, b, c }),
            _ => None,
        },
        None => None,
    }
}

/// The rows that a list of nodes holds.
pub open spec fn constraints_of(items: Seq<Node>) -> Option<Seq<ConstraintView>> {
    let rows = items.map_values(|x: Node| constraint_of(x));
    if all_some(rows) {
        Some(unwrap_all(rows))
    } else {
        None
    }
}

/// The constraint rows that a node holds: a list of rows.
pub open spec fn r1cs_of(n: Node) -> Option<Seq<ConstraintView>> {
    match n.as_list() {
        Some(items) => constraints_of(items),
        None => None,
    }
}

/// The numbers that a node holds: a list of numbers in limbs.
pub open spec fn numbers_of(n: Node) -> Option<Seq<BigInt>> {
    match n.as_list() {
        Some(items) => {
            let numbers = items.map_values(|x: Node| limbs_of(x));
            if all_some(numbers) {
                Some(unwrap_all(numbers))
            } else {
                None
            }
        },
        None => None,
    }
}

/// The count of a record that stands under `name`.
pub open spec fn count_field(entries: Seq<(Node, Node)>, name: Seq<u8>) -> Option<usize> {
    match field(entries, name) {
        Some(node) => node.as_usize(),
        None => None,
    }
}

/// The assignment that a node holds: a record with the list `variables`
/// and the counts `primary_input_size` and `auxiliary_input_size`, which
/// add up to the number of variables.
pub open spec fn assignment_of(n: Node) -> Option<AssignmentView> {
    match n.as_dict() {
        Some(entries) => match (
            field(entries, "variables".spec_bytes()),
            count_field(entries, "primary_input_size".spec_bytes()),
            count_field(entries, "auxiliary_input_size".spec_bytes()),
        ) {
            (Some(list), Some(primary), Some(auxiliary)) => match numbers_of(list) {
                Some(variables) => if primary + auxiliary == variables.len() {
                    Some(
                        AssignmentView {
                            variables,
                            primary_input_size: primary,
                            auxiliary_input_size: auxiliary,
                        },
                    )
                } else {
                    None
                },
                None => None,
            },
            _ => None,
        },
        None => None,
    }
}

/// The triple of a lookup table that a node holds: a list of three small
/// integers.
pub open spec fn triple_of(n: Node) -> Option<[u32; 3]> {
    match n.as_list() {
        Some(items) => if items.len() == 3 && items[0].as_u32() is Some && items[1].as_u32() is Some
            && items[2].as_u32() is Some {
            Some([items[0].as_u32()->Some_0, items[1].as_u32()->Some_0, items[2].as_u32()->Some_0])
        } else {
            None
        },
        None => None,
    }
}

/// The lookup table that a node holds: a list of triples.
pub open spec fn table_of(n: Node) -> Option<Seq<[u32; 3]>> {
    match n.as_list() {
        Some(items) => {
            let triples = items.map_values(|x: Node| triple_of(x));
            if all_some(triples) {
                Some(unwrap_all(triples))
            } else {
                None
            }
        },
        None => None,
    }
}

/// The lookup relation that a node holds: a record with the list `table`
/// and the list of rows `constraints`.
pub open spec fn lookup_of(n: Node) -> Option<LookupView> {
    match n.as_dict() {
        Some(entries) => match (
            field(entries, "table".spec_bytes()),
            field(entries, "constraints".spec_bytes()),
        ) {
            (Some(table_node), Some(rows_node)) => match (table_of(table_node), r1cs_of(rows_node)) {
                (Some(table), Some(constraints)) => Some(LookupView { table, constraints }),
                _ => None,
            },
            _ => None,
        },
        None => None,
    }
}

broadcast use vstd::std_specs::hash::group_hash_axioms;

/// Reads a number in limbs off a node.
fn limbs_from_node(n: &Node) -> (r: Option<BigInt>)
    ensures
        r == limbs_of(*n),
{
    match n {
        Node::List(items) => {
            if items.len() != 4 {
                return None;
            }
            match (items[0].get_u64(), items[1].get_u64(), items[2].get_u64(), items[3].get_u64()) {
                (Some(l0), Some(l1), Some(l2), Some(l3)) => {
                    let number = BigInt([l0, l1, l2, l3]);
                    proof {
                        assert(number.0 =~= limbs_of(*n)->Some_0.0);
                    }
                    Some(number)
                },
                _ => None,
            }
        },
        _ => None,
    }
}

/// Reads a sparse combination off a node.
fn sparse_from_node(n: &Node) -> (r: Option<HashMap<usize, BigInt>>)
    ensures
        match r {
            Some(m) => sparse_of(*n) == Some(m@),
            None => sparse_of(*n) is None,
        },
{
    let entries = match n {
        Node::Dict(entries) => entries,
        _ => {
            return None;
        },
    };
    let ghost pairs = entries@.map_values(|e: (Node, Node)| entry_of(e));
    let mut m: HashMap<usize, BigInt> = HashMap::new();
    let mut i: usize = 0;
    while i < entries.len()
        invariant
            n.as_dict() == Some(entries@),
            pairs == entries@.map_values(|e: (Node, Node)| entry_of(e)),
            i <= entries@.len(),
            forall|j: int| 0 <= j < i ==> (#[trigger] pairs[j]) is Some,
            distinct_keys(unwrap_all(pairs).take(i as int)),
            m@ == pairs_map(unwrap_all(pairs).take(i as int)),
        decreases entries@.len() - i,
    {
        let entry = &entries[i];
        let key = match entry.0.get_usize() {
            Some(key) => key,
            None => {
                assert(pairs[i as int] is None);
                return None;
            },
        };
        let value = match limbs_from_node(&entry.1) {
            Some(value) => value,
            None => {
                assert(pairs[i as int] is None);
                return None;
            },
        };
        assert(pairs[i as int] == Some((key, value)));
        let ghost done = unwrap_all(pairs).take(i as int);
        let ghost next = unwrap_all(pairs).take(i + 1);
        proof {
            lemma_pairs_map_dom(done, key);
            assert(next.drop_last() =~= done);
            assert(next.last() == (key, value));
        }
        if m.contains_key(&key) {
            proof {
                let j = choose|j: int| 0 <= j < done.len() && (#[trigger] done[j]).0 == key;
                assert(unwrap_all(pairs)[j].0 == unwrap_all(pairs)[i as int].0);
                assert(!distinct_keys(unwrap_all(pairs)));
            }
            return None;
        }
        m.insert(key, value);
        proof {
            assert forall|a: int, b: int| 0 <= a < b < next.len() implies next[a].0
                != next[b].0 by {
                if b < i {
                    assert(done[a].0 != done[b].0);
                } else {
                    assert(done[a].0 == next[a].0);
                }
            }
        }
        i = i + 1;
    }
    proof {
        assert(unwrap_all(pairs).take(i as int) =~= unwrap_all(pairs));
        assert(all_some(pairs));
    }
    Some(m)
}

/// Reads the combination that stands under `name` in a record of a row.
fn sparse_field_from(entries: &Vec<(Node, Node)>, name: &str) -> (r: Option<
    HashMap<usize, BigInt>,
>)
    ensures
        match r {
            Some(m) => sparse_field(entries@, name.spec_bytes()) == Some(m@),
            None => sparse_field(entries@, name.spec_bytes()) is None,
        },
{
    match get_field(entries, name) {
        Some(node) => sparse_from_node(node),
        None => None,
    }
}

/// Reads a row off a node.
pub fn constraint_from_node(n: &Node) -> (r: Option<Constraint>)
    ensures
        match r {
            Some(row) => constraint_of(*n) == Some(row@),
            None => constraint_of(*n) is None,
        },
{
    let entries = match n {
        Node::Dict(entries) => entries,
        _ => {
            return None;
        },
    };
    let a = match sparse_field_from(entries, "a") {
        Some(m) => m,
        None => {
            return None;
        },
    };
    let b = match sparse_field_from(entries, "b") {
        Some(m) => m,
        None => {
            return None;
        },
    };
    let c = match sparse_field_from(entries, "c") {
        Some(m) => m,
        None => {
            return None;
        },
    };
    Some(Constraint { a, b, c })
}

/// Reads a list of rows off a list of nodes.
fn constraints_from_nodes(items: &Vec<Node>) -> (r: Option<Vec<Constraint>>)
    ensures
        match r {
            Some(rows) => constraints_of(items@) == Some(rows@.map_values(|row: Constraint| row@)),
            None => constraints_of(items@) is None,
        },
{
    let ghost parsed = items@.map_values(|x: Node| constraint_of(x));
    let mut rows: Vec<Constraint> = Vec::new();
    let mut i: usize = 0;
    while i < items.len()
        invariant
            parsed == items@.map_values(|x: Node| constraint_of(x)),
            i <= items@.len(),
            rows@.len() == i,
            forall|j: int| 0 <= j < i ==> (#[trigger] parsed[j]) == Some(rows@[j]@),
        decreases items@.len() - i,
    {
        match constraint_from_node(&items[i]) {
            Some(row) => {
                rows.push(row);
            },
            None => {
                assert(parsed[i as int] is None);
                return None;
            },
        }
        i = i + 1;
    }
    proof {
        assert(all_some(parsed));
        assert(unwrap_all(parsed) =~= rows@.map_values(|row: Constraint| row@));
    }
    Some(rows)
}

/// Reads the constraint rows off the tree of a constraint file.
pub fn r1cs_from_node(n: &Node) -> (r: Option<R1CS>)
    ensures
        match r {
            Some(r1cs) => r1cs_of(*n) == Some(r1cs@),
            None => r1cs_of(*n) is None,
        },
{
    match n {
        Node::List(items) => match constraints_from_nodes(items) {
            Some(rows) => Some(R1CS(rows)),
            None => None,
        },
        _ => None,
    }
}

/// Reads a list of numbers in limbs off a node.
fn numbers_from_node(n: &Node) -> (r: Option<Vec<BigInt>>)
    ensures
        match r {
            Some(numbers) => numbers_of(*n) == Some(numbers@),
            None => numbers_of(*n) is None,
        },
{
    let items = match n {
        Node::List(items) => items,
        _ => {
            return None;
        },
    };
    let ghost parsed = items@.map_values(|x: Node| limbs_of(x));
    let mut numbers: Vec<BigInt> = Vec::new();
    let mut i: usize = 0;
    while i < items.len()
        invariant
            n.as_list() == Some(items@),
            parsed == items@.map_values(|x: Node| limbs_of(x)),
            i <= items@.len(),
            numbers@.len() == i,
            forall|j: int| 0 <= j < i ==> (#[trigger] parsed[j]) == Some(numbers@[j]),
        decreases items@.len() - i,
    {
        match limbs_from_node(&items[i]) {
            Some(number) => {
                numbers.push(number);
            },
            None => {
                assert(parsed[i as int] is None);
                return None;
            },
        }
        i = i + 1;
    }
    proof {
        assert(all_some(parsed));
        assert(unwrap_all(parsed) =~= numbers@);
    }
    Some(numbers)
}

/// Reads the count that stands under `name` in a record.
fn count_field_from(entries: &Vec<(Node, Node)>, name: &str) -> (r: Option<usize>)
    ensures
        r == count_field(entries@, name.spec_bytes()),
{
    match get_field(entries, name) {
        Some(node) => node.get_usize(),
        None => None,
    }
}

/// Reads the witness off the tree of an assignment file. A file whose two
/// counts do not add up to the number of its variables is refused.
pub fn assignment_from_node(n: &Node) -> (r: Option<Assignment>)
    ensures
        match r {
            Some(assignment) => assignment_of(*n) == Some(assignment@) && assignment.wf(),
            None => assignment_of(*n) is None,
        },
{
    let entries = match n {
        Node::Dict(entries) => entries,
        _ => {
            return None;
        },
    };
    let list = match get_field(entries, "variables") {
        Some(list) => list,
        None => {
            return None;
        },
    };
    let primary_input_size = match count_field_from(entries, "primary_input_size") {
        Some(count) => count,
        None => {
            return None;
        },
    };
    let auxiliary_input_size = match count_field_from(entries, "auxiliary_input_size") {
        Some(count) => count,
        None => {
            return None;
        },
    };
    let variables = match numbers_from_node(list) {
        Some(variables) => variables,
        None => {
            return None;
        },
    };
    match Assignment::new(variables, primary_input_size, auxiliary_input_size) {
        Ok(assignment) => Some(assignment),
        Err(_) => None,
    }
}

/// Reads a triple of a lookup table off a node.
fn triple_from_node(n: &Node) -> (r: Option<[u32; 3]>)
    ensures
        r == triple_of(*n),
{
    match n {
        Node::List(items) => {
            if items.len() != 3 {
                return None;
            }
            match (items[0].get_u32(), items[1].get_u32(), items[2].get_u32()) {
                (Some(a), Some(b), Some(c)) => {
                    let triple = [a, b, c];
                    proof {
                        assert(triple =~= triple_of(*n)->Some_0);
                    }
                    Some(triple)
                },
                _ => None,
            }
        },
        _ => None,
    }
}

/// Reads a lookup table off a node.
fn table_from_node(n: &Node) -> (r: Option<LookupTable>)
    ensures
        match r {
            Some(table) => table_of(*n) == Some(table.0@),
            None => table_of(*n) is None,
        },
{
    let items = match n {
        Node::List(items) => items,
        _ => {
            return None;
        },
    };
    let ghost parsed = items@.map_values(|x: Node| triple_of(x));
    let mut triples: Vec<[u32; 3]> = Vec::new();
    let mut i: usize = 0;
    while i < items.len()
        invariant
            n.as_list() == Some(items@),
            parsed == items@.map_values(|x: Node| triple_of(x)),
            i <= items@.len(),
            triples@.len() == i,
            forall|j: int| 0 <= j < i ==> (#[trigger] parsed[j]) == Some(triples@[j]),
        decreases items@.len() - i,
    {
        match triple_from_node(&items[i]) {
            Some(triple) => {
                triples.push(triple);
            },
            None => {
                assert(parsed[i as int] is None);
                return None;
            },
        }
        i = i + 1;
    }
    proof {
        assert(all_some(parsed));
        assert(unwrap_all(parsed) =~= triples@);
    }
    Some(LookupTable(triples))
}

/// Reads the lookup relation off the tree of a lookup file.
pub fn lookup_from_node(n: &Node) -> (r: Option<Lookup>)
    ensures
        match r {
            Some(lookup) => lookup_of(*n) == Some(lookup@),
            None => lookup_of(*n) is None,
        },
{
    let entries = match n {
        Node::Dict(entries) => entries,
        _ => {
            return None;
        },
    };
    let table_node = match get_field(entries, "table") {
        Some(node) => node,
        None => {
            return None;
        },
    };
    let rows_node = match get_field(entries, "constraints") {
        Some(node) => node,
        None => {
            return None;
        },
    };
    let table = match table_from_node(table_node) {
        Some(table) => table,
        None => {
            return None;
        },
    };
    let constraints = match r1cs_from_node(rows_node) {
        Some(r1cs) => r1cs.0,
        None => {
            return None;
        },
    };
    Some(Lookup { table, constraints })
}

/// The constraint rows that the bytes of a constraint file hold.
pub open spec fn r1cs_in(bytes: Seq<u8>) -> Option<Seq<ConstraintView>> {
    match cbor_document(bytes) {
        Some(n) => r1cs_of(n),
        None => None,
    }
}

/// The witness that the bytes of an assignment file hold.
pub open spec fn assignment_in(bytes: Seq<u8>) -> Option<AssignmentView> {
    match cbor_document(bytes) {
        Some(n) => assignment_of(n),
        None => None,
    }
}

/// The lookup relation that the bytes of a lookup file hold.
pub open spec fn lookup_in(bytes: Seq<u8>) -> Option<LookupView> {
    match cbor_document(bytes) {
        Some(n) => lookup_of(n),
        None => None,
    }
}

/// Parses the bytes of a constraint file.
pub fn parse_r1cs(bytes: &[u8]) -> (r: Result<R1CS, BuildError>)
    ensures
        match r {
            Ok(r1cs) => r1cs_in(bytes@) == Some(r1cs@),
            Err(e) => r1cs_in(bytes@) is None && e == BuildError::Deserialize(FileKind::R1cs),
        },
{
    let parsed = match decode_cbor(bytes) {
        Some(node) => r1cs_from_node(&node),
        None => None,
    };
    match parsed {
        Some(r1cs) => Ok(r1cs),
        None => Err(BuildError::Deserialize(FileKind::R1cs)),
    }
}

/// Parses the bytes of an assignment file.
pub fn parse_assignment(bytes: &[u8]) -> (r: Result<Assignment, BuildError>)
    ensures
        match r {
            Ok(assignment) => assignment_in(bytes@) == Some(assignment@) && assignment.wf(),
            Err(e) => assignment_in(bytes@) is None && e == BuildError::Deserialize(
                FileKind::Assignment,
            ),
        },
{
    let parsed = match decode_cbor(bytes) {
        Some(node) => assignment_from_node(&node),
        None => None,
    };
    match parsed {
        Some(assignment) => Ok(assignment),
        None => Err(BuildError::Deserialize(FileKind::Assignment)),
    }
}

/// Parses the bytes of a lookup file.
pub fn parse_lookup(bytes: &[u8]) -> (r: Result<Lookup, BuildError>)
    ensures
        match r {
            Ok(lookup) => lookup_in(bytes@) == Some(lookup@),
            Err(e) => lookup_in(bytes@) is None && e == BuildError::Deserialize(FileKind::Lookup),
        },
{
    let parsed = match decode_cbor(bytes) {
        Some(node) => lookup_from_node(&node),
        None => None,
    };
    match parsed {
        Some(lookup) => Ok(lookup),
        None => Err(BuildError::Deserialize(FileKind::Lookup)),
    }
}

/// The file that parsing stops at, if any: the constraint file is taken
/// first, then the assignment file, then the lookup file where there is one.
pub open spec fn parse_error(r1cs: Seq<u8>, assignment: Seq<u8>, lookup: Option<Seq<u8>>) -> Option<
    BuildError,
> {
    if r1cs_in(r1cs) is None {
        Some(BuildError::Deserialize(FileKind::R1cs))
    } else if assignment_in(assignment) is None {
        Some(BuildError::Deserialize(FileKind::Assignment))
    } else if lookup matches Some(bytes) && lookup_in(bytes) is None {
        Some(BuildError::Deserialize(FileKind::Lookup))
    } else {
        None
    }
}

/// The bytes of the lookup file, where there is one.
pub open spec fn lookup_bytes(lookup: Option<&[u8]>) -> Option<Seq<u8>> {
    match lookup {
        Some(bytes) => Some(bytes@),
        None => None,
    }
}

/// Parses the contents of the files of one generator run. That there is no
/// lookup file says that the circuit has no lookup relation, which is not
/// the same as a lookup file with an empty table.
pub fn parse_file(r1cs: &[u8], assignment: &[u8], lookup: Option<&[u8]>) -> (r: Result<
    (R1CS, Assignment, Option<Lookup>),
    BuildError,
>)
    ensures
        match r {
            Ok((parsed_r1cs, parsed_assignment, parsed_lookup)) => {
                &&& parse_error(r1cs@, assignment@, lookup_bytes(lookup)) is None
                &&& r1cs_in(r1cs@) == Some(parsed_r1cs@)
                &&& assignment_in(assignment@) == Some(parsed_assignment@)
                &&& parsed_assignment.wf()
                &&& match lookup {
                    Some(bytes) => parsed_lookup matches Some(l) && lookup_in(bytes@) == Some(l@),
                    None => parsed_lookup is None,
                }
            },
            Err(e) => parse_error(r1cs@, assignment@, lookup_bytes(lookup)) == Some(e),
        },
{
    let parsed_r1cs = match parse_r1cs(r1cs) {
        Ok(parsed) => parsed,
        Err(e) => {
            return Err(e);
        },
    };
    let parsed_assignment = match parse_assignment(assignment) {
        Ok(parsed) => parsed,
        Err(e) => {
            return Err(e);
        },
    };
    let parsed_lookup = match lookup {
        Some(bytes) => match parse_lookup(bytes) {
            Ok(parsed) => Some(parsed),
            Err(e) => {
                return Err(e);
            },
        },
        None => None,
    };
    Ok((parsed_r1cs, parsed_assignment, parsed_lookup))
}

/// The node that holds a number in limbs.
fn limbs_to_node(number: &BigInt) -> (node: Node)
    ensures
        limbs_of(node) == Some(*number),
{
    let mut items: Vec<Node> = Vec::new();
    items.push(Node::Integer(number.0[0] as i128));
    items.push(Node::Integer(number.0[1] as i128));
    items.push(Node::Integer(number.0[2] as i128));
    items.push(Node::Integer(number.0[3] as i128));
    let node = Node::List(items);
    proof {
        assert(limbs_of(node)->Some_0.0 =~= number.0);
    }
    node
}

/// The node that holds a sparse combination, its entries in the order in
/// which the map hands them out.
fn sparse_to_node(m: &HashMap<usize, BigInt>) -> (node: Node)
    ensures
        sparse_of(node) == Some(m@),
{
    let ghost listed = m.iter().remaining();
    let mut entries: Vec<(Node, Node)> = Vec::new();
    for entry in it: m.iter()
        invariant
            it.seq() == listed,
            listed == m.iter().remaining(),
            listed.no_duplicates(),
            entries@.len() == it.index(),
            forall|j: int|
                0 <= j < entries@.len() ==> entry_of(#[trigger] entries@[j]) == Some(
                    (*listed[j].0, *listed[j].1),
                ),
    {
        let (k, v) = entry;
        entries.push((Node::Integer(*k as i128), limbs_to_node(v)));
    }
    let node = Node::Dict(entries);
    proof {
        let pairs = entries@.map_values(|e: (Node, Node)| entry_of(e));
        let plain = unwrap_all(pairs);
        assert(all_some(pairs));
        assert forall|j: int| 0 <= j < plain.len() implies #[trigger] plain[j] == (
            *listed[j].0,
            *listed[j].1,
        ) && m@.contains_key(plain[j].0) && m@[plain[j].0] == plain[j].1 by {
            assert(pairs[j] == entry_of(entries@[j]));
        }
        assert forall|a: int, b: int| 0 <= a < b < plain.len() implies plain[a].0
            != plain[b].0 by {
            if plain[a].0 == plain[b].0 {
                assert(m@[plain[a].0] == plain[a].1 && m@[plain[b].0] == plain[b].1);
                assert(listed[a] == listed[b]);
            }
        }
        assert forall|k: usize| m@.contains_key(k) implies exists|j: int|
            0 <= j < plain.len() && (#[trigger] plain[j]).0 == k by {
            assert(listed.contains((&k, &m@[k])));
            let j = choose|j: int| 0 <= j < listed.len() && listed[j] == (&k, &m@[k]);
            assert(plain[j].0 == k);
        }
        lemma_pairs_map_of_listing(plain, m@);
    }
    node
}

/// The names of the fields of one record are different texts.
proof fn lemma_field_names()
    ensures
        "a".spec_bytes() != "b".spec_bytes(),
        "a".spec_bytes() != "c".spec_bytes(),
        "b".spec_bytes() != "c".spec_bytes(),
        "variables".spec_bytes() != "primary_input_size".spec_bytes(),
        "variables".spec_bytes() != "auxiliary_input_size".spec_bytes(),
        "primary_input_size".spec_bytes() != "auxiliary_input_size".spec_bytes(),
        "table".spec_bytes() != "constraints".spec_bytes(),
{
    broadcast use vstd::string::is_ascii_spec_bytes;

    reveal_strlit("a");
    reveal_strlit("b");
    reveal_strlit("c");
    reveal_strlit("variables");
    reveal_strlit("primary_input_size");
    reveal_strlit("auxiliary_input_size");
    reveal_strlit("table");
    reveal_strlit("constraints");
    assert(vstd::string::is_ascii("a"));
    assert(vstd::string::is_ascii("b"));
    assert(vstd::string::is_ascii("c"));
    assert(vstd::string::is_ascii("variables"));
    assert(vstd::string::is_ascii("primary_input_size"));
    assert(vstd::string::is_ascii("auxiliary_input_size"));
    assert(vstd::string::is_ascii("table"));
    assert(vstd::string::is_ascii("constraints"));
    assert("a".spec_bytes()[0] == 0x61);
    assert("b".spec_bytes()[0] == 0x62);
    assert("c".spec_bytes()[0] == 0x63);
    assert("variables".spec_bytes().len() == 9);
    assert("primary_input_size".spec_bytes().len() == 18);
    assert("auxiliary_input_size".spec_bytes().len() == 20);
    assert("table".spec_bytes().len() == 5);
    assert("constraints".spec_bytes().len() == 11);
}

impl Constraint {
    /// The node that holds the row: a record with the combinations `a`, `b`
    /// and `c`. Reading the node gives the row back.
    pub fn to_node(&self) -> (node: Node)
        ensures
            constraint_of(node) == Some(self@),
    {
        let mut entries: Vec<(Node, Node)> = Vec::new();
        entries.push(named("a", sparse_to_node(&self.a)));
        entries.push(named("b", sparse_to_node(&self.b)));
        entries.push(named("c", sparse_to_node(&self.c)));
        proof {
            lemma_field_names();
            let e = entries@;
            assert(e.drop_first().drop_first()[0] == e[2]);
            assert(e.drop_first()[0] == e[1]);
            reveal_with_fuel(field, 4);
            assert(field(e, "a".spec_bytes()) == Some(e[0].1));
            assert(field(e, "b".spec_bytes()) == Some(e[1].1));
            assert(field(e, "c".spec_bytes()) == Some(e[2].1));
        }
        Node::Dict(entries)
    }
}

/// The node that holds a list of rows.
fn constraints_to_node(rows: &Vec<Constraint>) -> (node: Node)
    ensures
        r1cs_of(node) == Some(rows@.map_values(|row: Constraint| row@)),
{
    let mut items: Vec<Node> = Vec::new();
    let mut i: usize = 0;
    while i < rows.len()
        invariant
            i <= rows@.len(),
            items@.len() == i,
            forall|j: int| 0 <= j < i ==> constraint_of(#[trigger] items@[j]) == Some(rows@[j]@),
        decreases rows@.len() - i,
    {
        items.push(rows[i].to_node());
        i = i + 1;
    }
    proof {
        let parsed = items@.map_values(|x: Node| constraint_of(x));
        assert(all_some(parsed));
        assert(unwrap_all(parsed) =~= rows@.map_values(|row: Constraint| row@));
    }
    Node::List(items)
}

impl R1CS {
    /// The node that holds the constraint rows, in their order. Reading the
    /// node gives the rows back.
    pub fn to_node(&self) -> (node: Node)
        ensures
            r1cs_of(node) == Some(self@),
    {
        constraints_to_node(&self.0)
    }
}

impl Assignment {
    /// The node that holds the witness: a record with the list `variables`
    /// and the two counts. Reading the node gives the witness back, where
    /// its counts add up.
    pub fn to_node(&self) -> (node: Node)
        ensures
            self.wf() ==> assignment_of(node) == Some(self@),
            !self.wf() ==> assignment_of(node) is None,
    {
        let mut numbers: Vec<Node> = Vec::new();
        let mut i: usize = 0;
        while i < self.variables.len()
            invariant
                i <= self.variables@.len(),
                numbers@.len() == i,
                forall|j: int|
                    0 <= j < i ==> limbs_of(#[trigger] numbers@[j]) == Some(self.variables@[j]),
            decreases self.variables@.len() - i,
        {
            numbers.push(limbs_to_node(&self.variables[i]));
            i = i + 1;
        }
        let list = Node::List(numbers);
        proof {
            let parsed = numbers@.map_values(|x: Node| limbs_of(x));
            assert(all_some(parsed));
            assert(unwrap_all(parsed) =~= self.variables@);
            assert(numbers_of(list) == Some(self.variables@));
        }
        let mut entries: Vec<(Node, Node)> = Vec::new();
        entries.push(named("variables", list));
        entries.push(named("primary_input_size", Node::Integer(self.primary_input_size as i128)));
        entries.push(
            named("auxiliary_input_size", Node::Integer(self.auxiliary_input_size as i128)),
        );
        proof {
            lemma_field_names();
            let e = entries@;
            assert(e.drop_first().drop_first()[0] == e[2]);
            assert(e.drop_first()[0] == e[1]);
            reveal_with_fuel(field, 4);
            assert(field(e, "variables".spec_bytes()) == Some(e[0].1));
            assert(field(e, "primary_input_size".spec_bytes()) == Some(e[1].1));
            assert(field(e, "auxiliary_input_size".spec_bytes()) == Some(e[2].1));
        }
        Node::Dict(entries)
    }
}

impl Lookup {
    /// The node that holds the lookup relation: a record with the list
    /// `table` and the list of rows `constraints`. Reading the node gives
    /// the relation back.
    pub fn to_node(&self) -> (node: Node)
        ensures
            lookup_of(node) == Some(self@),
    {
        let mut triples: Vec<Node> = Vec::new();
        let mut i: usize = 0;
        while i < self.table.0.len()
            invariant
                i <= self.table.0@.len(),
                triples@.len() == i,
                forall|j: int|
                    0 <= j < i ==> triple_of(#[trigger] triples@[j]) == Some(self.table.0@[j]),
            decreases self.table.0@.len() - i,
        {
            let triple = &self.table.0[i];
            let mut items: Vec<Node> = Vec::new();
            items.push(Node::Integer(triple[0] as i128));
            items.push(Node::Integer(triple[1] as i128));
            items.push(Node::Integer(triple[2] as i128));
            let node = Node::List(items);
            proof {
                assert(triple_of(node)->Some_0 =~= *triple);
            }
            triples.push(node);
            i = i + 1;
        }
        let table = Node::List(triples);
        proof {
            let parsed = triples@.map_values(|x: Node| triple_of(x));
            assert(all_some(parsed));
            assert(unwrap_all(parsed) =~= self.table.0@);
            assert(table_of(table) == Some(self.table.0@));
        }
        let mut entries: Vec<(Node, Node)> = Vec::new();
        entries.push(named("table", table));
        entries.push(named("constraints", constraints_to_node(&self.constraints)));
        proof {
            lemma_field_names();
            let e = entries@;
            assert(e.drop_first()[0] == e[1]);
            reveal_with_fuel(field, 3);
            assert(field(e, "table".spec_bytes()) == Some(e[0].1));
            assert(field(e, "constraints".spec_bytes()) == Some(e[1].1));
        }
        Node::Dict(entries)
    }
}

} // verus!
