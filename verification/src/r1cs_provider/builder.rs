//! Assembly of parsed constraint rows into a constraint system over the
//! wire vector of one instance.

use std::collections::HashMap;
use vstd::prelude::*;
use vstd::std_specs::iter::IteratorSpec;

use crate::error::BuildError;
use crate::field::{all_wf, modulus, values_of, FieldElement};
use crate::r1cs_provider::deserialize::{Assignment, BigInt, Constraint, Lookup, LookupTable, R1CS};

verus! {

broadcast use vstd::std_specs::hash::group_hash_axioms;

/// What the wire `i` adds to a sparse linear combination: its coefficient
/// times its value, and nothing where the combination does not name it.
pub open spec fn term_value(m: Map<usize, BigInt>, wires: Seq<nat>, i: int) -> nat {
    if 0 <= i < wires.len() && i <= usize::MAX && m.contains_key(i as usize) {
        m[i as usize].value() * wires[i]
    } else {
        0
    }
}

/// The sum of a sparse linear combination over the first `n` wires, as an
/// integer.
pub open spec fn lc_sum(m: Map<usize, BigInt>, wires: Seq<nat>, n: nat) -> nat
    decreases n,
{
    if n == 0 {
        0
    } else {
        lc_sum(m, wires, (n - 1) as nat) + term_value(m, wires, n - 1)
    }
}

/// The value of a sparse linear combination under a wire vector: the sum
/// over all wires, in the field.
pub open spec fn lc_value(m: Map<usize, BigInt>, wires: Seq<nat>) -> nat {
    lc_sum(m, wires, wires.len()) % modulus()
}

/// Every wire that the combination names is one of the first `n`.
pub open spec fn indices_in_range(m: Map<usize, BigInt>, n: nat) -> bool {
    forall|k: usize| m.contains_key(k) ==> k < n
}

/// Every coefficient of the combination is below the field's modulus.
pub open spec fn coefficients_canonical(m: Map<usize, BigInt>) -> bool {
    forall|k: usize| m.contains_key(k) ==> (#[trigger] m[k]).value() < modulus()
}

/// One term of a linear combination: a coefficient on a wire.
#[derive(Debug, Clone, Copy)]
pub struct Term {
    pub index: usize,
    pub coefficient: FieldElement,
}

/// The sum of a list of terms under a wire vector, as an integer.
pub open spec fn terms_sum(terms: Seq<Term>, wires: Seq<nat>) -> nat
    decreases terms.len(),
{
    if terms.len() == 0 {
        0
    } else {
        terms_sum(terms.drop_last(), wires) + terms.last().coefficient.value() * wires[terms.last().index as int]
    }
}

/// The list holds every entry of the sparse combination exactly once: each
/// term is an entry, no wire occurs twice, and each entry has its term.
pub open spec fn enumerates(terms: Seq<Term>, m: Map<usize, BigInt>) -> bool {
    &&& forall|j: int|
        0 <= j < terms.len() ==> m.contains_key(#[trigger] terms[j].index)
            && terms[j].coefficient.value() == m[terms[j].index].value()
    &&& forall|i: int, j: int|
        0 <= i < j < terms.len() ==> terms[i].index != terms[j].index
    &&& forall|k: usize|
        m.contains_key(k) ==> exists|j: int| 0 <= j < terms.len() && #[trigger] terms[j].index == k
}

/// The wires that occur among the terms.
spec fn index_set(terms: Seq<Term>) -> Set<usize> {
    Set::new(|k: usize| exists|j: int| 0 <= j < terms.len() && #[trigger] terms[j].index == k)
}

/// The sum of a sparse combination over the first `n` wires, counting only
/// the wires in `visited`.
spec fn restricted_sum(m: Map<usize, BigInt>, wires: Seq<nat>, visited: Set<usize>, n: nat) -> nat
    decreases n,
{
    if n == 0 {
        0
    } else {
        restricted_sum(m, wires, visited, (n - 1) as nat) + if n - 1 <= usize::MAX
            && visited.contains((n - 1) as usize) {
            term_value(m, wires, n - 1)
        } else {
            0
        }
    }
}

proof fn lemma_restricted_sum_insert(
    m: Map<usize, BigInt>,
    wires: Seq<nat>,
    visited: Set<usize>,
    k: usize,
    n: nat,
)
    requires
        !visited.contains(k),
    ensures
        restricted_sum(m, wires, visited.insert(k), n) == restricted_sum(m, wires, visited, n) + if k
            < n {
            term_value(m, wires, k as int)
        } else {
            0
        },
    decreases n,
{
    if n > 0 {
        lemma_restricted_sum_insert(m, wires, visited, k, (n - 1) as nat);
    }
}

proof fn lemma_restricted_sum_covering(
    m: Map<usize, BigInt>,
    wires: Seq<nat>,
    visited: Set<usize>,
    n: nat,
)
    requires
        forall|k: usize| m.contains_key(k) ==> visited.contains(k),
    ensures
        restricted_sum(m, wires, visited, n) == lc_sum(m, wires, n),
    decreases n,
{
    if n > 0 {
        lemma_restricted_sum_covering(m, wires, visited, (n - 1) as nat);
    }
}

proof fn lemma_restricted_sum_empty(m: Map<usize, BigInt>, wires: Seq<nat>, n: nat)
    ensures
        restricted_sum(m, wires, Set::empty(), n) == 0,
    decreases n,
{
    if n > 0 {
        lemma_restricted_sum_empty(m, wires, (n - 1) as nat);
    }
}

/// The terms of a duplicate-free list of entries add up to what the wires
/// among them add to the sparse combination.
proof fn lemma_terms_sum_restricted(terms: Seq<Term>, m: Map<usize, BigInt>, wires: Seq<nat>)
    requires
        forall|j: int|
            0 <= j < terms.len() ==> m.contains_key(#[trigger] terms[j].index)
                && terms[j].coefficient.value() == m[terms[j].index].value() && terms[j].index
                < wires.len(),
        forall|i: int, j: int| 0 <= i < j < terms.len() ==> terms[i].index != terms[j].index,
    ensures
        terms_sum(terms, wires) == restricted_sum(m, wires, index_set(terms), wires.len()),
    decreases terms.len(),
{
    if terms.len() == 0 {
        assert(index_set(terms) =~= Set::empty());
        lemma_restricted_sum_empty(m, wires, wires.len());
    } else {
        let head = terms.drop_last();
        let last = terms.last();
        lemma_terms_sum_restricted(head, m, wires);
        assert(!index_set(head).contains(last.index)) by {
            if index_set(head).contains(last.index) {
                let j = choose|j: int| 0 <= j < head.len() && #[trigger] head[j].index == last.index;
                assert(terms[j].index == terms[terms.len() - 1].index);
            }
        }
        assert(index_set(terms) =~= index_set(head).insert(last.index)) by {
            assert forall|k: usize| index_set(terms).contains(k) implies index_set(head).insert(
                last.index,
            ).contains(k) by {
                let j = choose|j: int| 0 <= j < terms.len() && #[trigger] terms[j].index == k;
                if j < head.len() {
                    assert(head[j].index == k);
                }
            }
            assert forall|k: usize| index_set(head).insert(last.index).contains(
                k,
            ) implies index_set(terms).contains(k) by {
                if k == last.index {
                    assert(terms[terms.len() - 1].index == k);
                } else {
                    let j = choose|j: int| 0 <= j < head.len() && #[trigger] head[j].index == k;
                    assert(terms[j].index == k);
                }
            }
        }
        lemma_restricted_sum_insert(m, wires, index_set(head), last.index, wires.len());
        assert(terms[terms.len() - 1].index == last.index);
    }
}

/// A list that holds every entry of a sparse combination exactly once adds
/// up to the combination's sum.
pub proof fn lemma_enumeration_sum(terms: Seq<Term>, m: Map<usize, BigInt>, wires: Seq<nat>)
    requires
        enumerates(terms, m),
        indices_in_range(m, wires.len()),
    ensures
        terms_sum(terms, wires) == lc_sum(m, wires, wires.len()),
{
    lemma_terms_sum_restricted(terms, m, wires);
    assert forall|k: usize| m.contains_key(k) implies index_set(terms).contains(k) by {
        let j = choose|j: int| 0 <= j < terms.len() && #[trigger] terms[j].index == k;
    }
    lemma_restricted_sum_covering(m, wires, index_set(terms), wires.len());
}

/// A linear combination over the wires of a constraint system, together
/// with the value that it takes under them.
#[derive(Debug)]
pub struct LinearCombination {
    terms: Vec<Term>,
    value: FieldElement,
}

impl LinearCombination {
    /// The terms, in the order in which they were added.
    pub closed spec fn terms(self) -> Seq<Term> {
        self.terms@
    }

    /// The value of the combination.
    pub closed spec fn value(self) -> FieldElement {
        self.value
    }

    /// Every term names a wire and has a well-formed coefficient, and the
    /// value is the terms' sum in the field.
    pub open spec fn wf(self, wires: Seq<nat>) -> bool {
        &&& forall|j: int|
            0 <= j < self.terms().len() ==> (#[trigger] self.terms()[j]).index < wires.len()
                && self.terms()[j].coefficient.wf()
        &&& self.value().wf()
        &&& self.value().value() == terms_sum(self.terms(), wires) % modulus()
    }

    /// The terms of the combination.
    pub fn get_terms(&self) -> (r: &Vec<Term>)
        ensures
            r@ == self.terms(),
    {
        &self.terms
    }

    /// The value of the combination.
    pub fn get_value(&self) -> (r: FieldElement)
        ensures
            r == self.value(),
    {
        self.value
    }
}

/// Says whether every wire that a sparse combination names is one of the
/// first `n`.
fn indices_ok(m: &HashMap<usize, BigInt>, n: usize) -> (ok: bool)
    ensures
        ok == indices_in_range(m@, n as nat),
{
    let ghost entries = m.iter().remaining();
    for entry in it: m.iter()
        invariant
            it.seq() == entries,
            entries == m.iter().remaining(),
            forall|j: int| 0 <= j < it.index() ==> *(#[trigger] entries[j]).0 < n,
    {
        let (k, _v) = entry;
        if *k >= n {
            assert(m@.contains_key(*k));
            return false;
        }
    }
    assert forall|k: usize| m@.contains_key(k) implies k < n by {
        assert(entries.contains((&k, &m@[k])));
        let j = choose|j: int| 0 <= j < entries.len() && entries[j] == (&k, &m@[k]);
        assert(*entries[j].0 < n);
    }
    true
}

/// A term behind a list of terms adds its product to the list's sum.
proof fn lemma_terms_sum_push(terms: Seq<Term>, t: Term, wires: Seq<nat>)
    ensures
        terms_sum(terms.push(t), wires) == terms_sum(terms, wires) + t.coefficient.value()
            * wires[t.index as int],
{
    assert(terms.push(t).drop_last() =~= terms);
}

/// Converts a sparse combination whose wires are all in range: every
/// coefficient becomes a field element, and the products with the wires'
/// values are added up.
fn build_lc(m: &HashMap<usize, BigInt>, wires: &Vec<FieldElement>) -> (r: Result<
    LinearCombination,
    BuildError,
>)
    requires
        all_wf(wires@),
        indices_in_range(m@, wires@.len()),
    ensures
        r is Ok <==> coefficients_canonical(m@),
        r matches Ok(lc) ==> lc.wf(values_of(wires@)) && enumerates(lc.terms(), m@)
            && lc.value().value() == lc_value(m@, values_of(wires@)),
        r matches Err(e) ==> e == BuildError::MalformedNumber,
{
    let ghost entries = m.iter().remaining();
    let ghost w = values_of(wires@);
    let mut terms: Vec<Term> = Vec::new();
    let mut acc = FieldElement::zero();
    for entry in it: m.iter()
        invariant
            it.seq() == entries,
            entries == m.iter().remaining(),
            entries.no_duplicates(),
            w == values_of(wires@),
            all_wf(wires@),
            indices_in_range(m@, wires@.len()),
            terms@.len() == it.index(),
            forall|j: int|
                0 <= j < terms@.len() ==> (#[trigger] terms@[j]).index == *entries[j].0
                    && terms@[j].coefficient.wf() && terms@[j].coefficient.value()
                    == (*entries[j].1).value(),
            acc.wf(),
            acc.value() == terms_sum(terms@, w) % modulus(),
    {
        let (k, v) = entry;
        assert(m@.contains_key(*k) && m@[*k] == *v);
        let coefficient = match FieldElement::from_bigint(v) {
            Some(c) => c,
            None => {
                return Err(BuildError::MalformedNumber);
            },
        };
        let product = coefficient.mul(&wires[*k]);
        let next = acc.add(&product);
        let term = Term { index: *k, coefficient };
        proof {
            lemma_terms_sum_push(terms@, term, w);
            let t = terms_sum(terms@, w) as int;
            let x = (coefficient.value() * w[*k as int]) as int;
            vstd::arithmetic::div_mod::lemma_add_mod_noop(t, x, modulus() as int);
        }
        terms.push(term);
        acc = next;
    }
    proof {
        assert(terms@.len() == entries.len());
        assert forall|i: int, j: int| 0 <= i < j < terms@.len() implies terms@[i].index
            != terms@[j].index by {
            if terms@[i].index == terms@[j].index {
                assert(m@[*entries[i].0] == *entries[i].1);
                assert(m@[*entries[j].0] == *entries[j].1);
                assert(entries[i] == entries[j]);
            }
        }
        assert forall|k: usize| m@.contains_key(k) implies exists|j: int|
            0 <= j < terms@.len() && #[trigger] terms@[j].index == k by {
            assert(entries.contains((&k, &m@[k])));
            let j = choose|j: int| 0 <= j < entries.len() && entries[j] == (&k, &m@[k]);
            assert(terms@[j].index == k);
        }
        assert forall|k: usize| m@.contains_key(k) implies (#[trigger] m@[k]).value()
            < modulus() by {
            assert(entries.contains((&k, &m@[k])));
            let j = choose|j: int| 0 <= j < entries.len() && entries[j] == (&k, &m@[k]);
            terms@[j].coefficient.lemma_value();
        }
        assert(enumerates(terms@, m@));
        lemma_enumeration_sum(terms@, m@, w);
    }
    Ok(LinearCombination { terms, value: acc })
}

/// The wire vector of a witness: the constant one, then the variables.
pub open spec fn wire_vector(variables: Seq<BigInt>) -> Seq<nat> {
    seq![1nat] + variables.map_values(|v: BigInt| v.value())
}

/// Every variable of a witness is below the field's modulus.
pub open spec fn variables_canonical(variables: Seq<BigInt>) -> bool {
    forall|i: int| 0 <= i < variables.len() ==> (#[trigger] variables[i]).value() < modulus()
}

/// What is wrong with a row under a wire vector of length `n`, if anything.
/// A wire out of range is found before any coefficient is looked at.
pub open spec fn constraint_error(row: Constraint, n: nat) -> Option<BuildError> {
    if !(indices_in_range(row.a@, n) && indices_in_range(row.b@, n) && indices_in_range(
        row.c@,
        n,
    )) {
        Some(BuildError::MalformedConstraint)
    } else if !(coefficients_canonical(row.a@) && coefficients_canonical(row.b@)
        && coefficients_canonical(row.c@)) {
        Some(BuildError::MalformedNumber)
    } else {
        None
    }
}

/// What is wrong with the first row, in file order, that has anything wrong
/// with it.
pub open spec fn rows_error(rows: Seq<Constraint>, n: nat) -> Option<BuildError>
    decreases rows.len(),
{
    if rows.len() == 0 {
        None
    } else {
        match rows_error(rows.drop_last(), n) {
            Some(e) => Some(e),
            None => constraint_error(rows.last(), n),
        }
    }
}

/// The error with which assembly of these files ends, if it does not
/// succeed: the variables are converted first, then the rows are taken in
/// order, then the rows of the lookup relation.
pub open spec fn build_error(r1cs: R1CS, assignment: Assignment, lookup: Option<Lookup>) -> Option<
    BuildError,
> {
    let n = (assignment.variables@.len() + 1) as nat;
    if !variables_canonical(assignment.variables@) {
        Some(BuildError::MalformedNumber)
    } else {
        match rows_error(r1cs.0@, n) {
            Some(e) => Some(e),
            None => match lookup {
                Some(l) => rows_error(l.constraints@, n),
                None => None,
            },
        }
    }
}

/// The row's relation `a * b = c` holds of the wire vector, in the field.
pub open spec fn constraint_holds(row: Constraint, wires: Seq<nat>) -> bool {
    (lc_value(row.a@, wires) * lc_value(row.b@, wires)) % modulus() == lc_value(row.c@, wires)
}

/// The table admits the triple.
pub open spec fn table_admits(table: Seq<[u32; 3]>, a: nat, b: nat, c: nat) -> bool {
    exists|e: int|
        0 <= e < table.len() && (#[trigger] table[e])[0] == a && table[e][1] == b && table[e][2]
            == c
}

/// The triple of values that the row takes under the wire vector is in the
/// table.
pub open spec fn lookup_constraint_holds(row: Constraint, table: Seq<[u32; 3]>, wires: Seq<nat>) -> bool {
    table_admits(table, lc_value(row.a@, wires), lc_value(row.b@, wires), lc_value(row.c@, wires))
}

/// Every row holds of the witness's wire vector, and every row of the
/// lookup relation takes a triple that its table admits.
pub open spec fn instance_holds(r1cs: R1CS, assignment: Assignment, lookup: Option<Lookup>) -> bool {
    let wires = wire_vector(assignment.variables@);
    &&& forall|i: int|
        0 <= i < r1cs.0@.len() ==> constraint_holds(#[trigger] r1cs.0@[i], wires)
    &&& lookup matches Some(l) ==> forall|i: int|
        0 <= i < l.constraints@.len() ==> lookup_constraint_holds(
            #[trigger] l.constraints@[i],
            l.table.0@,
            wires,
        )
}

/// An enforced row: the three linear combinations of `a * b = c`.
#[derive(Debug)]
pub struct Row {
    pub a: LinearCombination,
    pub b: LinearCombination,
    pub c: LinearCombination,
}

/// An enforced lookup: the three linear combinations whose values must be a
/// triple of the table with the given index.
#[derive(Debug)]
pub struct LookupRow {
    pub a: LinearCombination,
    pub b: LinearCombination,
    pub c: LinearCombination,
    pub table_index: usize,
}

impl Row {
    /// The three combinations are well formed over the wires.
    pub open spec fn wf(self, wires: Seq<nat>) -> bool {
        self.a.wf(wires) && self.b.wf(wires) && self.c.wf(wires)
    }

    /// The product of the first two values is the third, in the field.
    pub open spec fn holds(self) -> bool {
        (self.a.value().value() * self.b.value().value()) % modulus() == self.c.value().value()
    }

    /// The enforced row is the given row of a file, converted: each
    /// combination holds the entries of its sparse map exactly once and has
    /// the map's value under the wires.
    pub open spec fn matches_constraint(self, row: Constraint, wires: Seq<nat>) -> bool {
        &&& enumerates(self.a.terms(), row.a@)
        &&& enumerates(self.b.terms(), row.b@)
        &&& enumerates(self.c.terms(), row.c@)
        &&& self.a.value().value() == lc_value(row.a@, wires)
        &&& self.b.value().value() == lc_value(row.b@, wires)
        &&& self.c.value().value() == lc_value(row.c@, wires)
    }
}

/// Some entry of the table holds the three values.
pub open spec fn in_table(table: Seq<[FieldElement; 3]>, a: nat, b: nat, c: nat) -> bool {
    exists|e: int|
        0 <= e < table.len() && (#[trigger] table[e])[0].value() == a && table[e][1].value() == b
            && table[e][2].value() == c
}

impl LookupRow {
    /// The three combinations are well formed over the wires, and the table
    /// is one of the `n` registered.
    pub open spec fn wf(self, wires: Seq<nat>, n: nat) -> bool {
        self.a.wf(wires) && self.b.wf(wires) && self.c.wf(wires) && self.table_index < n
    }

    /// The three values are a triple of the row's table.
    pub open spec fn holds(self, tables: Seq<Seq<[FieldElement; 3]>>) -> bool {
        self.table_index < tables.len() && in_table(
            tables[self.table_index as int],
            self.a.value().value(),
            self.b.value().value(),
            self.c.value().value(),
        )
    }

    /// The enforced lookup is the given row of a file, converted.
    pub open spec fn matches_constraint(self, row: Constraint, wires: Seq<nat>) -> bool {
        &&& enumerates(self.a.terms(), row.a@)
        &&& enumerates(self.b.terms(), row.b@)
        &&& enumerates(self.c.terms(), row.c@)
        &&& self.a.value().value() == lc_value(row.a@, wires)
        &&& self.b.value().value() == lc_value(row.b@, wires)
        &&& self.c.value().value() == lc_value(row.c@, wires)
    }
}

/// The registered table holds the entries of a file's table, in order.
pub open spec fn table_matches(table: Seq<[FieldElement; 3]>, source: Seq<[u32; 3]>) -> bool {
    &&& table.len() == source.len()
    &&& forall|e: int, j: int|
        #![trigger table[e][j]]
        0 <= e < table.len() && 0 <= j < 3 ==> table[e][j].wf() && table[e][j].value()
            == source[e][j]
}

/// Converts a row whose wires and numbers are checked in that order.
fn build_row(row: &Constraint, wires: &Vec<FieldElement>) -> (r: Result<Row, BuildError>)
    requires
        all_wf(wires@),
    ensures
        match r {
            Ok(built) => constraint_error(*row, wires@.len()) is None && built.wf(
                values_of(wires@),
            ) && built.matches_constraint(*row, values_of(wires@)),
            Err(e) => constraint_error(*row, wires@.len()) == Some(e),
        },
{
    let n = wires.len();
    if !(indices_ok(&row.a, n) && indices_ok(&row.b, n) && indices_ok(&row.c, n)) {
        return Err(BuildError::MalformedConstraint);
    }
    let a = match build_lc(&row.a, wires) {
        Ok(lc) => lc,
        Err(e) => {
            return Err(e);
        },
    };
    let b = match build_lc(&row.b, wires) {
        Ok(lc) => lc,
        Err(e) => {
            return Err(e);
        },
    };
    let c = match build_lc(&row.c, wires) {
        Ok(lc) => lc,
        Err(e) => {
            return Err(e);
        },
    };
    Ok(Row { a, b, c })
}

/// A constraint system under assembly: the wires that were injected, the
/// rows and lookups that were enforced over them and the tables that were
/// registered. It only grows; a failed build leaves it to be discarded.
#[derive(Debug)]
pub struct ConstraintSystem {
    wires: Vec<FieldElement>,
    public: Vec<bool>,
    rows: Vec<Row>,
    tables: Vec<Vec<[FieldElement; 3]>>,
    lookups: Vec<LookupRow>,
}

impl ConstraintSystem {
    /// The wire vector: the constant wire, then the injected variables.
    pub closed spec fn wires(self) -> Seq<FieldElement> {
        self.wires@
    }

    /// For every wire, whether it is public; the others are private.
    pub closed spec fn modes(self) -> Seq<bool> {
        self.public@
    }

    /// The enforced rows, in the order in which they were enforced.
    pub closed spec fn rows(self) -> Seq<Row> {
        self.rows@
    }

    /// The registered tables, by index.
    pub closed spec fn tables(self) -> Seq<Seq<[FieldElement; 3]>> {
        self.tables@.map_values(|t: Vec<[FieldElement; 3]>| t@)
    }

    /// The enforced lookups, in the order in which they were enforced.
    pub closed spec fn lookups(self) -> Seq<LookupRow> {
        self.lookups@
    }

    /// The values of the wires.
    pub open spec fn wire_values(self) -> Seq<nat> {
        values_of(self.wires())
    }

    /// The constant wire is there and is one, and everything enforced is
    /// well formed over the wires.
    pub open spec fn wf(self) -> bool {
        &&& self.wires().len() >= 1
        &&& self.wires()[0].value() == 1
        &&& all_wf(self.wires())
        &&& self.modes().len() == self.wires().len()
        &&& self.modes()[0]
        &&& forall|i: int|
            0 <= i < self.rows().len() ==> (#[trigger] self.rows()[i]).wf(self.wire_values())
        &&& forall|t: int, e: int, j: int|
            #![trigger self.tables()[t][e][j]]
            0 <= t < self.tables().len() && 0 <= e < self.tables()[t].len() && 0 <= j < 3
                ==> self.tables()[t][e][j].wf()
        &&& forall|i: int|
            0 <= i < self.lookups().len() ==> (#[trigger] self.lookups()[i]).wf(
                self.wire_values(),
                self.tables().len(),
            )
    }

    /// Nothing but the constant wire is there.
    pub open spec fn is_fresh(self) -> bool {
        &&& self.wires().len() == 1
        &&& self.wires()[0].value() == 1
        &&& self.wires()[0].wf()
        &&& self.modes().len() == 1
        &&& self.modes()[0]
        &&& self.rows().len() == 0
        &&& self.tables().len() == 0
        &&& self.lookups().len() == 0
    }

    /// Every enforced row holds and every enforced lookup finds its triple.
    pub open spec fn satisfied(self) -> bool {
        &&& forall|i: int| 0 <= i < self.rows().len() ==> (#[trigger] self.rows()[i]).holds()
        &&& forall|i: int|
            0 <= i < self.lookups().len() ==> (#[trigger] self.lookups()[i]).holds(self.tables())
    }

    /// A constraint system with the constant wire alone.
    pub fn new() -> (cs: ConstraintSystem)
        ensures
            cs.is_fresh(),
            cs.wf(),
    {
        let mut wires = Vec::new();
        wires.push(FieldElement::one());
        let mut public = Vec::new();
        public.push(true);
        ConstraintSystem {
            wires,
            public,
            rows: Vec::new(),
            tables: Vec::new(),
            lookups: Vec::new(),
        }
    }

    /// Drops everything that was injected, enforced and registered.
    pub fn reset(&mut self)
        ensures
            final(self).is_fresh(),
            final(self).wf(),
    {
        *self = ConstraintSystem::new();
    }
}

/// A sum of terms does not change when wires are added behind the ones
/// that the terms name.
proof fn lemma_terms_sum_extend(terms: Seq<Term>, wires: Seq<nat>, longer: Seq<nat>)
    requires
        forall|j: int| 0 <= j < terms.len() ==> (#[trigger] terms[j]).index < wires.len(),
        wires.len() <= longer.len(),
        forall|i: int| 0 <= i < wires.len() ==> wires[i] == longer[i],
    ensures
        terms_sum(terms, wires) == terms_sum(terms, longer),
    decreases terms.len(),
{
    if terms.len() > 0 {
        lemma_terms_sum_extend(terms.drop_last(), wires, longer);
        assert(terms[terms.len() - 1].index < wires.len());
    }
}

proof fn lemma_lc_wf_extend(lc: LinearCombination, wires: Seq<nat>, longer: Seq<nat>)
    requires
        lc.wf(wires),
        wires.len() <= longer.len(),
        forall|i: int| 0 <= i < wires.len() ==> wires[i] == longer[i],
    ensures
        lc.wf(longer),
{
    lemma_terms_sum_extend(lc.terms(), wires, longer);
}

/// A well-formed constraint system stays so when it grows: what was there
/// is still there, and what came behind it is well formed over the wires
/// and tables as they are now.
proof fn lemma_wf_grows(before: ConstraintSystem, after: ConstraintSystem)
    requires
        before.wf(),
        before.wires().len() <= after.wires().len(),
        forall|i: int| 0 <= i < before.wires().len() ==> after.wires()[i] == before.wires()[i],
        forall|i: int|
            before.wires().len() <= i < after.wires().len() ==> (#[trigger] after.wires()[i]).wf(),
        after.modes().len() == after.wires().len(),
        after.modes()[0] == before.modes()[0],
        before.rows().len() <= after.rows().len(),
        forall|i: int| 0 <= i < before.rows().len() ==> after.rows()[i] == before.rows()[i],
        forall|i: int|
            before.rows().len() <= i < after.rows().len() ==> (#[trigger] after.rows()[i]).wf(
                after.wire_values(),
            ),
        before.tables().len() <= after.tables().len(),
        forall|t: int| 0 <= t < before.tables().len() ==> after.tables()[t] == before.tables()[t],
        forall|t: int, e: int, j: int|
            #![trigger after.tables()[t][e][j]]
            before.tables().len() <= t < after.tables().len() && 0 <= e < after.tables()[t].len()
                && 0 <= j < 3 ==> after.tables()[t][e][j].wf(),
        before.lookups().len() <= after.lookups().len(),
        forall|i: int|
            0 <= i < before.lookups().len() ==> after.lookups()[i] == before.lookups()[i],
        forall|i: int|
            before.lookups().len() <= i < after.lookups().len() ==> (
            #[trigger] after.lookups()[i]).wf(after.wire_values(), after.tables().len()),
    ensures
        after.wf(),
{
    let old_values = before.wire_values();
    let values = after.wire_values();
    assert forall|i: int| 0 <= i < after.wires().len() implies (#[trigger] after.wires()[i]).wf() by {
        if i < before.wires().len() {
            assert(before.wires()[i].wf());
        }
    }
    assert forall|i: int| 0 <= i < after.rows().len() implies (#[trigger] after.rows()[i]).wf(
        values,
    ) by {
        if i < before.rows().len() {
            assert(before.rows()[i].wf(old_values));
            lemma_lc_wf_extend(after.rows()[i].a, old_values, values);
            lemma_lc_wf_extend(after.rows()[i].b, old_values, values);
            lemma_lc_wf_extend(after.rows()[i].c, old_values, values);
        }
    }
    assert forall|t: int, e: int, j: int|
        #![trigger after.tables()[t][e][j]]
        0 <= t < after.tables().len() && 0 <= e < after.tables()[t].len() && 0 <= j
            < 3 implies after.tables()[t][e][j].wf() by {
        if t < before.tables().len() {
            assert(before.tables()[t][e][j].wf());
        }
    }
    assert forall|i: int| 0 <= i < after.lookups().len() implies (#[trigger] after.lookups()[i]).wf(
        values,
        after.tables().len(),
    ) by {
        if i < before.lookups().len() {
            assert(before.lookups()[i].wf(old_values, before.tables().len()));
            lemma_lc_wf_extend(after.lookups()[i].a, old_values, values);
            lemma_lc_wf_extend(after.lookups()[i].b, old_values, values);
            lemma_lc_wf_extend(after.lookups()[i].c, old_values, values);
        }
    }
}

impl ConstraintSystem {
    /// Injects a variable with the given value, as a public or as a private
    /// input, and returns the index of its wire.
    pub fn inject(&mut self, value: FieldElement, public: bool) -> (index: usize)
        requires
            old(self).wf(),
            value.wf(),
        ensures
            final(self).wf(),
            index == old(self).wires().len(),
            final(self).wires() == old(self).wires().push(value),
            final(self).modes() == old(self).modes().push(public),
            final(self).rows() == old(self).rows(),
            final(self).tables() == old(self).tables(),
            final(self).lookups() == old(self).lookups(),
    {
        let index = self.wires.len();
        self.wires.push(value);
        self.public.push(public);
        proof {
            lemma_wf_grows(*old(self), *self);
        }
        index
    }

    /// Enforces `a * b = c` for the three combinations of the row.
    pub fn enforce(&mut self, row: Row)
        requires
            old(self).wf(),
            row.wf(old(self).wire_values()),
        ensures
            final(self).wf(),
            final(self).wires() == old(self).wires(),
            final(self).modes() == old(self).modes(),
            final(self).rows() == old(self).rows().push(row),
            final(self).tables() == old(self).tables(),
            final(self).lookups() == old(self).lookups(),
    {
        self.rows.push(row);
        proof {
            lemma_wf_grows(*old(self), *self);
        }
    }

    /// Registers a lookup table and returns its index.
    pub fn add_lookup_table(&mut self, table: &LookupTable) -> (index: usize)
        requires
            old(self).wf(),
        ensures
            final(self).wf(),
            index == old(self).tables().len(),
            final(self).wires() == old(self).wires(),
            final(self).modes() == old(self).modes(),
            final(self).rows() == old(self).rows(),
            final(self).lookups() == old(self).lookups(),
            final(self).tables().len() == old(self).tables().len() + 1,
            final(self).tables().take(index as int) == old(self).tables(),
            table_matches(final(self).tables()[index as int], table.0@),
    {
        let mut entries: Vec<[FieldElement; 3]> = Vec::new();
        let mut e: usize = 0;
        while e < table.0.len()
            invariant
                e <= table.0@.len(),
                entries@.len() == e,
                forall|i: int, j: int|
                    #![trigger entries@[i][j]]
                    0 <= i < e && 0 <= j < 3 ==> entries@[i][j].wf() && entries@[i][j].value()
                        == table.0@[i][j],
            decreases table.0@.len() - e,
        {
            let item = &table.0[e];
            let entry = [
                FieldElement::from_u32(item[0]),
                FieldElement::from_u32(item[1]),
                FieldElement::from_u32(item[2]),
            ];
            entries.push(entry);
            e = e + 1;
        }
        let index = self.tables.len();
        self.tables.push(entries);
        proof {
            assert(self.tables() =~= old(self).tables().push(entries@));
            assert(self.tables().take(index as int) =~= old(self).tables());
            lemma_wf_grows(*old(self), *self);
        }
        index
    }

    /// Enforces that the values of the row's three combinations are a triple
    /// of the row's table.
    pub fn enforce_lookup(&mut self, row: LookupRow)
        requires
            old(self).wf(),
            row.wf(old(self).wire_values(), old(self).tables().len()),
        ensures
            final(self).wf(),
            final(self).wires() == old(self).wires(),
            final(self).modes() == old(self).modes(),
            final(self).rows() == old(self).rows(),
            final(self).tables() == old(self).tables(),
            final(self).lookups() == old(self).lookups().push(row),
    {
        self.lookups.push(row);
        proof {
            lemma_wf_grows(*old(self), *self);
        }
    }
}

/// An error among the first rows is the error of the whole list.
proof fn lemma_rows_error_prefix(rows: Seq<Constraint>, n: nat, i: int, e: BuildError)
    requires
        0 <= i <= rows.len(),
        rows_error(rows.take(i), n) == Some(e),
    ensures
        rows_error(rows, n) == Some(e),
    decreases rows.len() - i,
{
    if i < rows.len() {
        assert(rows.take(i + 1).drop_last() =~= rows.take(i));
        lemma_rows_error_prefix(rows, n, i + 1, e);
    } else {
        assert(rows.take(i) =~= rows);
    }
}

/// Rows without an error stay so when a row without an error follows.
proof fn lemma_rows_error_step(rows: Seq<Constraint>, n: nat, i: int)
    requires
        0 <= i < rows.len(),
        rows_error(rows.take(i), n) is None,
    ensures
        rows_error(rows.take(i + 1), n) == constraint_error(rows[i], n),
{
    assert(rows.take(i + 1).drop_last() =~= rows.take(i));
}

impl ConstraintSystem {
    /// Says whether every enforced row holds and every enforced lookup finds
    /// its triple in its table.
    pub fn is_satisfied(&self) -> (r: bool)
        requires
            self.wf(),
        ensures
            r == self.satisfied(),
    {
        let mut i: usize = 0;
        while i < self.rows.len()
            invariant
                self.wf(),
                i <= self.rows@.len(),
                forall|k: int| 0 <= k < i ==> (#[trigger] self.rows()[k]).holds(),
            decreases self.rows@.len() - i,
        {
            let row = &self.rows[i];
            assert(self.rows()[i as int].wf(self.wire_values()));
            let product = row.a.value.mul(&row.b.value);
            if !product.is_equal(&row.c.value) {
                assert(!self.rows()[i as int].holds());
                return false;
            }
            i = i + 1;
        }
        let mut l: usize = 0;
        while l < self.lookups.len()
            invariant
                self.wf(),
                l <= self.lookups@.len(),
                forall|k: int| 0 <= k < self.rows().len() ==> (#[trigger] self.rows()[k]).holds(),
                forall|k: int| 0 <= k < l ==> (#[trigger] self.lookups()[k]).holds(self.tables()),
            decreases self.lookups@.len() - l,
        {
            let row = &self.lookups[l];
            assert(self.lookups()[l as int].wf(self.wire_values(), self.tables().len()));
            let table = &self.tables[row.table_index];
            assert(table@ == self.tables()[row.table_index as int]);
            let mut found = false;
            let mut e: usize = 0;
            while e < table.len() && !found
                invariant
                    e <= table@.len(),
                    found ==> in_table(
                        table@,
                        row.a.value().value(),
                        row.b.value().value(),
                        row.c.value().value(),
                    ),
                    !found ==> forall|k: int|
                        0 <= k < e ==> !((#[trigger] table@[k])[0].value() == row.a.value().value()
                            && table@[k][1].value() == row.b.value().value() && table@[k][2].value()
                            == row.c.value().value()),
                decreases table@.len() - e, if found { 0int } else { 1int },
            {
                let entry = &table[e];
                if entry[0].is_equal(&row.a.value) && entry[1].is_equal(&row.b.value)
                    && entry[2].is_equal(&row.c.value) {
                    found = true;
                } else {
                    e = e + 1;
                }
            }
            if !found {
                assert(!self.lookups()[l as int].holds(self.tables()));
                return false;
            }
            l = l + 1;
        }
        true
    }
}

/// The constraint system is what assembly of the three files lays down on a
/// fresh one: the witness's wire vector, of which the primary inputs are
/// public and the others private, one enforced row for each row of
/// the constraint file, in order, and, where there is a lookup relation, its
/// table under index 0 and one enforced lookup for each of its rows.
pub open spec fn assembled(
    cs: ConstraintSystem,
    r1cs: R1CS,
    assignment: Assignment,
    lookup: Option<Lookup>,
) -> bool {
    let wires = wire_vector(assignment.variables@);
    &&& cs.wf()
    &&& cs.wire_values() == wires
    &&& forall|i: int|
        0 <= i < assignment.variables@.len() ==> #[trigger] cs.modes()[i + 1] == (i
            < assignment.primary_input_size)
    &&& cs.rows().len() == r1cs.0@.len()
    &&& forall|i: int|
        0 <= i < cs.rows().len() ==> (#[trigger] cs.rows()[i]).matches_constraint(r1cs.0@[i], wires)
    &&& match lookup {
        None => cs.tables().len() == 0 && cs.lookups().len() == 0,
        Some(l) => {
            &&& cs.tables().len() == 1
            &&& table_matches(cs.tables()[0], l.table.0@)
            &&& cs.lookups().len() == l.constraints@.len()
            &&& forall|i: int|
                0 <= i < cs.lookups().len() ==> (#[trigger] cs.lookups()[i]).matches_constraint(
                    l.constraints@[i],
                    wires,
                ) && cs.lookups()[i].table_index == 0
        },
    }
}

/// An assembled constraint system is satisfied exactly when every row of the
/// constraint file holds of the witness's wire vector and every row of the
/// lookup relation takes a triple of the table. So a witness of which all
/// rows hold gives a satisfied system, and one row that is violated, or one
/// triple that the table lacks, gives a system that is not.
pub proof fn lemma_assembled_satisfied_iff_holds(
    cs: ConstraintSystem,
    r1cs: R1CS,
    assignment: Assignment,
    lookup: Option<Lookup>,
)
    requires
        assembled(cs, r1cs, assignment, lookup),
    ensures
        cs.satisfied() <==> instance_holds(r1cs, assignment, lookup),
{
    let wires = wire_vector(assignment.variables@);
    if cs.satisfied() {
        assert forall|i: int| 0 <= i < r1cs.0@.len() implies constraint_holds(
            #[trigger] r1cs.0@[i],
            wires,
        ) by {
            assert(cs.rows()[i].holds());
            assert(cs.rows()[i].matches_constraint(r1cs.0@[i], wires));
        }
        if let Some(l) = lookup {
            assert forall|i: int| 0 <= i < l.constraints@.len() implies lookup_constraint_holds(
                #[trigger] l.constraints@[i],
                l.table.0@,
                wires,
            ) by {
                let row = cs.lookups()[i];
                assert(row.holds(cs.tables()));
                assert(row.matches_constraint(l.constraints@[i], wires));
                let table = cs.tables()[0];
                let e = choose|e: int|
                    0 <= e < table.len() && (#[trigger] table[e])[0].value()
                        == row.a.value().value() && table[e][1].value() == row.b.value().value()
                        && table[e][2].value() == row.c.value().value();
                assert(table[e][0].value() == l.table.0@[e][0]);
                assert(table[e][1].value() == l.table.0@[e][1]);
                assert(table[e][2].value() == l.table.0@[e][2]);
                assert(l.table.0@[e][0] == row.a.value().value());
            }
        }
    }
    if instance_holds(r1cs, assignment, lookup) {
        assert forall|i: int| 0 <= i < cs.rows().len() implies (#[trigger] cs.rows()[i]).holds() by {
            assert(constraint_holds(r1cs.0@[i], wires));
            assert(cs.rows()[i].matches_constraint(r1cs.0@[i], wires));
        }
        assert forall|i: int| 0 <= i < cs.lookups().len() implies (#[trigger] cs.lookups()[i]).holds(
            cs.tables(),
        ) by {
            let l = lookup->Some_0;
            let row = cs.lookups()[i];
            assert(lookup_constraint_holds(l.constraints@[i], l.table.0@, wires));
            assert(row.matches_constraint(l.constraints@[i], wires));
            let source = l.table.0@;
            let e = choose|e: int|
                0 <= e < source.len() && (#[trigger] source[e])[0] == row.a.value().value()
                    && source[e][1] == row.b.value().value() && source[e][2]
                    == row.c.value().value();
            let table = cs.tables()[0];
            assert(table[e][0].value() == source[e][0]);
            assert(table[e][1].value() == source[e][1]);
            assert(table[e][2].value() == source[e][2]);
        }
    }
}

/// Assembles the rows of a generator run over its witness into a fresh
/// constraint system. The variables are injected behind the constant wire,
/// the primary inputs as public and the others as private inputs;
/// then each row is converted and enforced, in file order; then the lookup
/// relation's table is registered under index 0 and each of its rows is
/// enforced against it. The first failure ends the build, and the
/// constraint system is then to be discarded.
pub fn construct_r1cs(
    r1cs: &R1CS,
    assignment: &Assignment,
    lookup: &Option<Lookup>,
    cs: &mut ConstraintSystem,
) -> (r: Result<(), BuildError>)
    requires
        old(cs).is_fresh(),
    ensures
        final(cs).wf(),
        match r {
            Ok(()) => {
                &&& build_error(*r1cs, *assignment, *lookup) is None
                &&& assembled(*final(cs), *r1cs, *assignment, *lookup)
                &&& final(cs).wire_values().len() == assignment.variables@.len() + 1
                &&& final(cs).wire_values()[0] == 1
                &&& final(cs).satisfied() <==> instance_holds(*r1cs, *assignment, *lookup)
            },
            Err(e) => build_error(*r1cs, *assignment, *lookup) == Some(e),
        },
{
    let ghost wires = wire_vector(assignment.variables@);
    let ghost n = (assignment.variables@.len() + 1) as nat;
    assert(cs.wf()) by {
        assert(cs.wire_values().len() == 1);
    }
    let mut v: usize = 0;
    while v < assignment.variables.len()
        invariant
            cs.wf(),
            v <= assignment.variables@.len(),
            cs.wires().len() == v + 1,
            forall|j: int|
                0 <= j < v ==> #[trigger] cs.modes()[j + 1] == (j < assignment.primary_input_size),
            cs.rows().len() == 0,
            cs.tables().len() == 0,
            cs.lookups().len() == 0,
            forall|j: int|
                0 <= j < v ==> (#[trigger] assignment.variables@[j]).value() < modulus()
                    && cs.wires()[j + 1].value() == assignment.variables@[j].value(),
        decreases assignment.variables@.len() - v,
    {
        let value = match FieldElement::from_bigint(&assignment.variables[v]) {
            Some(value) => value,
            None => {
                return Err(BuildError::MalformedNumber);
            },
        };
        cs.inject(value, v < assignment.primary_input_size);
        v = v + 1;
    }
    assert(cs.wire_values() =~= wires);
    assert(variables_canonical(assignment.variables@));
    let ghost injected = cs.wires();
    let ghost modes = cs.modes();
    let mut i: usize = 0;
    while i < r1cs.0.len()
        invariant
            cs.wf(),
            cs.wires() == injected,
            cs.modes() == modes,
            cs.wire_values() == wires,
            wires.len() == n,
            injected.len() == n,
            n == assignment.variables@.len() + 1,
            variables_canonical(assignment.variables@),
            i <= r1cs.0@.len(),
            rows_error(r1cs.0@.take(i as int), n) is None,
            cs.rows().len() == i,
            cs.tables().len() == 0,
            cs.lookups().len() == 0,
            forall|j: int|
                0 <= j < i ==> (#[trigger] cs.rows()[j]).matches_constraint(r1cs.0@[j], wires),
        decreases r1cs.0@.len() - i,
    {
        proof {
            lemma_rows_error_step(r1cs.0@, n, i as int);
        }
        let row = match build_row(&r1cs.0[i], &cs.wires) {
            Ok(row) => row,
            Err(e) => {
                proof {
                    lemma_rows_error_prefix(r1cs.0@, n, i + 1, e);
                }
                return Err(e);
            },
        };
        cs.enforce(row);
        i = i + 1;
    }
    assert(r1cs.0@.take(i as int) =~= r1cs.0@);
    match lookup {
        None => {},
        Some(l) => {
            let table_index = cs.add_lookup_table(&l.table);
            assert(cs.tables()[0] == cs.tables()[table_index as int]);
            let ghost tables = cs.tables();
            let mut k: usize = 0;
            while k < l.constraints.len()
                invariant
                    cs.wf(),
                    cs.wires() == injected,
                    cs.modes() == modes,
                    cs.wire_values() == wires,
                    wires.len() == n,
                    injected.len() == n,
                    n == assignment.variables@.len() + 1,
                    variables_canonical(assignment.variables@),
                    rows_error(r1cs.0@, n) is None,
                    *lookup == Some(*l),
                    k <= l.constraints@.len(),
                    rows_error(l.constraints@.take(k as int), n) is None,
                    cs.rows().len() == r1cs.0@.len(),
                    forall|j: int|
                        0 <= j < cs.rows().len() ==> (#[trigger] cs.rows()[j]).matches_constraint(
                            r1cs.0@[j],
                            wires,
                        ),
                    cs.tables() == tables,
                    tables.len() == 1,
                    table_index == 0,
                    cs.lookups().len() == k,
                    forall|j: int|
                        0 <= j < k ==> (#[trigger] cs.lookups()[j]).matches_constraint(
                            l.constraints@[j],
                            wires,
                        ) && cs.lookups()[j].table_index == 0,
                decreases l.constraints@.len() - k,
            {
                proof {
                    lemma_rows_error_step(l.constraints@, n, k as int);
                }
                let row = match build_row(&l.constraints[k], &cs.wires) {
                    Ok(row) => row,
                    Err(e) => {
                        proof {
                            lemma_rows_error_prefix(l.constraints@, n, k + 1, e);
                        }
                        return Err(e);
                    },
                };
                cs.enforce_lookup(LookupRow { a: row.a, b: row.b, c: row.c, table_index });
                k = k + 1;
            }
            assert(l.constraints@.take(k as int) =~= l.constraints@);
        },
    }
    proof {
        lemma_assembled_satisfied_iff_holds(*cs, *r1cs, *assignment, *lookup);
    }
    Ok(())
}

/// Builds the circuit of one generator run: a fresh constraint system, the
/// assembly of the three files into it, and the system handed out.
pub fn run_circuit(r1cs: &R1CS, assignment: &Assignment, lookup: &Option<Lookup>) -> (r: Result<
    ConstraintSystem,
    BuildError,
>)
    ensures
        match r {
            Ok(cs) => {
                &&& build_error(*r1cs, *assignment, *lookup) is None
                &&& assembled(cs, *r1cs, *assignment, *lookup)
                &&& cs.wire_values().len() == assignment.variables@.len() + 1
                &&& cs.wire_values()[0] == 1
                &&& cs.satisfied() <==> instance_holds(*r1cs, *assignment, *lookup)
            },
            Err(e) => build_error(*r1cs, *assignment, *lookup) == Some(e),
        },
{
    let mut cs = ConstraintSystem::new();
    match construct_r1cs(r1cs, assignment, lookup, &mut cs) {
        Ok(()) => Ok(cs),
        Err(e) => Err(e),
    }
}

/// The sizes of an assembled circuit.
#[derive(Debug, Clone, Copy)]
pub struct CircuitStats {
    /// The number of enforced rows.
    pub num_constraints: usize,
    /// The number of registered lookup tables.
    pub num_lookup_tables: usize,
    /// The number of enforced lookups.
    pub num_lookup_constraints: usize,
    /// The number of public wires, the constant wire among them.
    pub num_public: usize,
    /// The number of private wires.
    pub num_private: usize,
    /// The number of terms in the first, second and third combinations of
    /// all rows and lookups together, each held at `usize::MAX` where it
    /// would pass it.
    pub num_nonzeros: (usize, usize, usize),
}

/// The number of public wires among the first `n`.
pub open spec fn count_public(modes: Seq<bool>, n: nat) -> nat
    decreases n,
{
    if n == 0 {
        0
    } else {
        count_public(modes, (n - 1) as nat) + if modes[n - 1] {
            1nat
        } else {
            0nat
        }
    }
}

/// A sum of lengths, held at `usize::MAX`.
pub open spec fn saturate(n: nat) -> usize {
    if n > usize::MAX {
        usize::MAX
    } else {
        n as usize
    }
}

/// The number of terms in the three combinations of the first `n` rows.
pub open spec fn rows_nonzeros(rows: Seq<Row>, n: nat) -> (nat, nat, nat)
    decreases n,
{
    if n == 0 {
        (0, 0, 0)
    } else {
        let rest = rows_nonzeros(rows, (n - 1) as nat);
        let row = rows[n - 1];
        (
            rest.0 + row.a.terms().len(),
            rest.1 + row.b.terms().len(),
            rest.2 + row.c.terms().len(),
        )
    }
}

/// The number of terms in the three combinations of the first `n` lookups.
pub open spec fn lookups_nonzeros(rows: Seq<LookupRow>, n: nat) -> (nat, nat, nat)
    decreases n,
{
    if n == 0 {
        (0, 0, 0)
    } else {
        let rest = lookups_nonzeros(rows, (n - 1) as nat);
        let row = rows[n - 1];
        (
            rest.0 + row.a.terms().len(),
            rest.1 + row.b.terms().len(),
            rest.2 + row.c.terms().len(),
        )
    }
}

/// Adds a length to a sum that is held at `usize::MAX`.
fn saturating_sum(acc: usize, len: usize, Ghost(total): Ghost<nat>) -> (r: usize)
    requires
        acc == saturate(total),
    ensures
        r == saturate((total + len) as nat),
{
    if acc > usize::MAX - len {
        usize::MAX
    } else {
        acc + len
    }
}

impl ConstraintSystem {
    /// The sizes of the circuit as it stands.
    pub fn stats(&self) -> (r: CircuitStats)
        ensures
            r.num_constraints == self.rows().len(),
            r.num_lookup_tables == self.tables().len(),
            r.num_lookup_constraints == self.lookups().len(),
            r.num_public == count_public(self.modes(), self.modes().len()),
            r.num_public + r.num_private == self.modes().len(),
            r.num_nonzeros.0 == saturate(
                rows_nonzeros(self.rows(), self.rows().len()).0 + lookups_nonzeros(
                    self.lookups(),
                    self.lookups().len(),
                ).0,
            ),
            r.num_nonzeros.1 == saturate(
                rows_nonzeros(self.rows(), self.rows().len()).1 + lookups_nonzeros(
                    self.lookups(),
                    self.lookups().len(),
                ).1,
            ),
            r.num_nonzeros.2 == saturate(
                rows_nonzeros(self.rows(), self.rows().len()).2 + lookups_nonzeros(
                    self.lookups(),
                    self.lookups().len(),
                ).2,
            ),
    {
        let mut num_public: usize = 0;
        let mut w: usize = 0;
        while w < self.public.len()
            invariant
                w <= self.public@.len(),
                num_public <= w,
                num_public == count_public(self.modes(), w as nat),
            decreases self.public@.len() - w,
        {
            if self.public[w] {
                num_public = num_public + 1;
            }
            w = w + 1;
        }
        let mut a: usize = 0;
        let mut b: usize = 0;
        let mut c: usize = 0;
        let mut i: usize = 0;
        while i < self.rows.len()
            invariant
                i <= self.rows@.len(),
                a == saturate(rows_nonzeros(self.rows(), i as nat).0),
                b == saturate(rows_nonzeros(self.rows(), i as nat).1),
                c == saturate(rows_nonzeros(self.rows(), i as nat).2),
            decreases self.rows@.len() - i,
        {
            let row = &self.rows[i];
            let ghost sums = rows_nonzeros(self.rows(), i as nat);
            a = saturating_sum(a, row.a.terms.len(), Ghost(sums.0));
            b = saturating_sum(b, row.b.terms.len(), Ghost(sums.1));
            c = saturating_sum(c, row.c.terms.len(), Ghost(sums.2));
            i = i + 1;
        }
        let ghost of_rows = rows_nonzeros(self.rows(), self.rows().len());
        let mut l: usize = 0;
        while l < self.lookups.len()
            invariant
                l <= self.lookups@.len(),
                of_rows == rows_nonzeros(self.rows(), self.rows().len()),
                a == saturate(of_rows.0 + lookups_nonzeros(self.lookups(), l as nat).0),
                b == saturate(of_rows.1 + lookups_nonzeros(self.lookups(), l as nat).1),
                c == saturate(of_rows.2 + lookups_nonzeros(self.lookups(), l as nat).2),
            decreases self.lookups@.len() - l,
        {
            let row = &self.lookups[l];
            let ghost sums = lookups_nonzeros(self.lookups(), l as nat);
            a = saturating_sum(a, row.a.terms.len(), Ghost(of_rows.0 + sums.0));
            b = saturating_sum(b, row.b.terms.len(), Ghost(of_rows.1 + sums.1));
            c = saturating_sum(c, row.c.terms.len(), Ghost(of_rows.2 + sums.2));
            l = l + 1;
        }
        CircuitStats {
            num_constraints: self.rows.len(),
            num_lookup_tables: self.tables.len(),
            num_lookup_constraints: self.lookups.len(),
            num_public,
            num_private: self.public.len() - num_public,
            num_nonzeros: (a, b, c),
        }
    }

    /// The wires, the constant wire first.
    pub fn get_wires(&self) -> (r: &Vec<FieldElement>)
        ensures
            r@ == self.wires(),
    {
        &self.wires
    }

    /// For every wire, whether it is public.
    pub fn get_modes(&self) -> (r: &Vec<bool>)
        ensures
            r@ == self.modes(),
    {
        &self.public
    }

    /// The enforced rows, in the order in which they were enforced.
    pub fn get_rows(&self) -> (r: &Vec<Row>)
        ensures
            r@ == self.rows(),
    {
        &self.rows
    }

    /// The registered tables, by index.
    pub fn get_tables(&self) -> (r: &Vec<Vec<[FieldElement; 3]>>)
        ensures
            r@.map_values(|t: Vec<[FieldElement; 3]>| t@) == self.tables(),
    {
        &self.tables
    }

    /// The enforced lookups, in the order in which they were enforced.
    pub fn get_lookups(&self) -> (r: &Vec<LookupRow>)
        ensures
            r@ == self.lookups(),
    {
        &self.lookups
    }
}

/// What is wrong with a sparse combination under a wire vector of length
/// `n`, if anything: a wire out of range is found before any coefficient is
/// looked at.
pub open spec fn sparse_error(m: Map<usize, BigInt>, n: nat) -> Option<BuildError> {
    if !indices_in_range(m, n) {
        Some(BuildError::MalformedConstraint)
    } else if !coefficients_canonical(m) {
        Some(BuildError::MalformedNumber)
    } else {
        None
    }
}

impl ConstraintSystem {
    /// Converts a sparse combination into a linear combination over the
    /// wires of this system: every coefficient becomes a field element, and
    /// the products with the wires' values are added up, each entry once.
    pub fn combine(&self, m: &HashMap<usize, BigInt>) -> (r: Result<LinearCombination, BuildError>)
        requires
            self.wf(),
        ensures
            match r {
                Ok(lc) => {
                    &&& sparse_error(m@, self.wires().len()) is None
                    &&& lc.wf(self.wire_values())
                    &&& enumerates(lc.terms(), m@)
                    &&& lc.value().value() == lc_value(m@, self.wire_values())
                },
                Err(e) => sparse_error(m@, self.wires().len()) == Some(e),
            },
    {
        if !indices_ok(m, self.wires.len()) {
            return Err(BuildError::MalformedConstraint);
        }
        build_lc(m, &self.wires)
    }
}

} // verus!
