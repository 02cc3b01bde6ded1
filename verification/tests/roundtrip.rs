use std::collections::{BTreeMap, HashMap};

use zprize::r1cs_provider::deserialize::{
    assignment_from_node, lookup_from_node, parse_file, r1cs_from_node, Assignment, BigInt,
    Constraint, Lookup, LookupTable, R1CS,
};
use zprize::r1cs_provider::document::{decode_cbor, decode_json, Node};
use zprize::r1cs_provider::xjsnark::libsnark;

fn to_cbor(node: &Node) -> serde_cbor::Value {
    match node {
        Node::Null => serde_cbor::Value::Null,
        Node::Bool(b) => serde_cbor::Value::Bool(*b),
        Node::Integer(i) => serde_cbor::Value::Integer(*i),
        Node::Bytes(b) => serde_cbor::Value::Bytes(b.clone()),
        Node::Text(s) => serde_cbor::Value::Text(s.clone()),
        Node::List(items) => serde_cbor::Value::Array(items.iter().map(to_cbor).collect()),
        Node::Dict(entries) => serde_cbor::Value::Map(
            entries.iter().map(|(k, v)| (to_cbor(k), to_cbor(v))).collect::<BTreeMap<_, _>>(),
        ),
        Node::Other => panic!("nothing to encode"),
    }
}

fn to_json(node: &Node) -> serde_json::Value {
    match node {
        Node::Null => serde_json::Value::Null,
        Node::Bool(b) => serde_json::Value::Bool(*b),
        Node::Integer(i) => serde_json::Value::Number(serde_json::Number::from(*i as u64)),
        Node::Text(s) => serde_json::Value::String(s.clone()),
        Node::List(items) => serde_json::Value::Array(items.iter().map(to_json).collect()),
        Node::Dict(entries) => serde_json::Value::Object(
            entries
                .iter()
                .map(|(k, v)| match k {
                    Node::Text(name) => (name.clone(), to_json(v)),
                    _ => panic!("a name is a text"),
                })
                .collect(),
        ),
        Node::Bytes(_) | Node::Other => panic!("nothing to encode"),
    }
}

fn sparse(entries: &[(usize, [u64; 4])]) -> HashMap<usize, BigInt> {
    entries.iter().map(|(k, v)| (*k, BigInt(*v))).collect()
}

fn same_sparse(a: &HashMap<usize, BigInt>, b: &HashMap<usize, BigInt>) -> bool {
    a.len() == b.len() && a.iter().all(|(k, v)| b.get(k).map(|w| w.0) == Some(v.0))
}

fn same_rows(a: &[Constraint], b: &[Constraint]) -> bool {
    a.len() == b.len()
        && a.iter().zip(b).all(|(x, y)| {
            same_sparse(&x.a, &y.a) && same_sparse(&x.b, &y.b) && same_sparse(&x.c, &y.c)
        })
}

fn sample_rows() -> Vec<Constraint> {
    vec![
        Constraint {
            a: sparse(&[(0, [1, 0, 0, 0]), (usize::MAX, [u64::MAX; 4]), (17, [0, 0, 0, 1])]),
            b: sparse(&[]),
            c: sparse(&[(2, [0x0123456789abcdef, 2, 3, 4])]),
        },
        Constraint { a: sparse(&[]), b: sparse(&[(1, [0, 0, 0, 0])]), c: sparse(&[]) },
    ]
}

#[test]
fn constraint_rows_survive_the_tree() {
    let r1cs = R1CS(sample_rows());
    let back = r1cs_from_node(&r1cs.to_node()).unwrap();
    assert!(same_rows(&r1cs.0, &back.0));
}

#[test]
fn constraint_rows_survive_the_binary_encoding() {
    let r1cs = R1CS(sample_rows());
    let bytes = serde_cbor::to_vec(&to_cbor(&r1cs.to_node())).unwrap();
    let back = r1cs_from_node(&decode_cbor(&bytes).unwrap()).unwrap();
    assert!(same_rows(&r1cs.0, &back.0));
}

#[test]
fn a_witness_survives_the_binary_encoding() {
    let a = Assignment::new(
        vec![BigInt([1, 2, 3, 4]), BigInt([u64::MAX; 4]), BigInt([0; 4])],
        1,
        2,
    )
    .unwrap();
    let bytes = serde_cbor::to_vec(&to_cbor(&a.to_node())).unwrap();
    let back = assignment_from_node(&decode_cbor(&bytes).unwrap()).unwrap();
    assert_eq!(back.variables.len(), 3);
    for (x, y) in a.variables.iter().zip(&back.variables) {
        assert_eq!(x.0, y.0);
    }
    assert_eq!(back.primary_input_size, 1);
    assert_eq!(back.auxiliary_input_size, 2);
}

#[test]
fn a_witness_whose_counts_do_not_add_up_does_not_come_back() {
    let a = Assignment { variables: vec![BigInt([1, 0, 0, 0])], primary_input_size: 1, auxiliary_input_size: 1 };
    assert!(assignment_from_node(&a.to_node()).is_none());
}

#[test]
fn a_lookup_survives_the_binary_encoding() {
    let l = Lookup {
        table: LookupTable(vec![[0, 0, 0], [3, 12, 15], [u32::MAX, 1, 2]]),
        constraints: sample_rows(),
    };
    let bytes = serde_cbor::to_vec(&to_cbor(&l.to_node())).unwrap();
    let back = lookup_from_node(&decode_cbor(&bytes).unwrap()).unwrap();
    assert_eq!(back.table.0, l.table.0);
    assert!(same_rows(&l.constraints, &back.constraints));
}

#[test]
fn the_three_files_survive_together() {
    let r1cs = R1CS(sample_rows());
    let a = Assignment::new(vec![BigInt([5, 0, 0, 0])], 1, 0).unwrap();
    let l = Lookup { table: LookupTable(vec![[1, 2, 3]]), constraints: vec![] };
    let r_bytes = serde_cbor::to_vec(&to_cbor(&r1cs.to_node())).unwrap();
    let a_bytes = serde_cbor::to_vec(&to_cbor(&a.to_node())).unwrap();
    let l_bytes = serde_cbor::to_vec(&to_cbor(&l.to_node())).unwrap();
    let (r, b, k) = parse_file(&r_bytes, &a_bytes, Some(&l_bytes)).unwrap();
    assert!(same_rows(&r1cs.0, &r.0));
    assert_eq!(b.variables[0].0, [5, 0, 0, 0]);
    assert_eq!(k.unwrap().table.0, vec![[1, 2, 3]]);
}

fn text_sparse(entries: &[(usize, &str)]) -> HashMap<usize, String> {
    entries.iter().map(|(k, v)| (*k, v.to_string())).collect()
}

#[test]
fn text_rows_survive_the_text_encoding() {
    let r1cs = libsnark::R1CS(vec![libsnark::Constraint {
        a: text_sparse(&[(0, "1"), (usize::MAX, "123456789012345678901234567890"), (10, "0")]),
        b: text_sparse(&[]),
        c: text_sparse(&[(7, "8444461749428370424248824938781546531375899335154063827935233455917409239040")]),
    }]);
    let bytes = serde_json::to_vec(&to_json(&r1cs.to_node())).unwrap();
    let back = libsnark::r1cs_from_node(&decode_json(&bytes).unwrap()).unwrap();
    assert_eq!(back.0.len(), 1);
    assert_eq!(back.0[0].a, r1cs.0[0].a);
    assert_eq!(back.0[0].b, r1cs.0[0].b);
    assert_eq!(back.0[0].c, r1cs.0[0].c);
    let limbs = back.to_limbs().unwrap();
    assert_eq!(
        limbs.0[0].c[&7].0,
        [725501752471715840, 6461107452199829505, 6968279316240510977, 1345280370688173398]
    );
}

#[test]
fn a_text_witness_survives_the_text_encoding() {
    let a = libsnark::Assignment {
        variables: vec!["2".to_string(), "3".to_string(), "6".to_string()],
        primary_input_size: 2,
        auxiliary_input_size: 1,
    };
    let bytes = serde_json::to_vec(&to_json(&a.to_node())).unwrap();
    let back = libsnark::assignment_from_node(&decode_json(&bytes).unwrap()).unwrap();
    assert_eq!(back.variables, a.variables);
    assert_eq!(back.primary_input_size, 2);
    assert_eq!(back.auxiliary_input_size, 1);
}

#[test]
fn indices_are_written_without_zeros_in_front() {
    assert_eq!(libsnark::index_text(0), "0");
    assert_eq!(libsnark::index_text(7), "7");
    assert_eq!(libsnark::index_text(10), "10");
    assert_eq!(libsnark::index_text(1203), "1203");
    assert_eq!(libsnark::index_text(usize::MAX), usize::MAX.to_string());
}

#[test]
fn decoders_hand_out_the_tree_of_the_bytes() {
    match decode_json(br#"{"k": [1, "x", true, null]}"#).unwrap() {
        Node::Dict(entries) => {
            assert_eq!(entries.len(), 1);
            match (&entries[0].0, &entries[0].1) {
                (Node::Text(k), Node::List(items)) => {
                    assert_eq!(k, "k");
                    assert!(matches!(items[0], Node::Integer(1)));
                    assert!(matches!(&items[1], Node::Text(s) if s == "x"));
                    assert!(matches!(items[2], Node::Bool(true)));
                    assert!(matches!(items[3], Node::Null));
                }
                _ => panic!("a list under a name"),
            }
        }
        _ => panic!("a record"),
    }
    assert!(matches!(decode_json(b"1.5").unwrap(), Node::Other));
    assert!(decode_json(b"{").is_none());
    // 0x82 0x01 0x20: the list [1, -1].
    match decode_cbor(&[0x82, 0x01, 0x20]).unwrap() {
        Node::List(items) => {
            assert!(matches!(items[0], Node::Integer(1)));
            assert!(matches!(items[1], Node::Integer(-1)));
        }
        _ => panic!("a list"),
    }
    assert!(decode_cbor(&[0x82, 0x01]).is_none());
}
