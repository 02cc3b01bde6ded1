use std::collections::HashMap;

use zprize::error::{BuildError, FileKind};
use zprize::r1cs_provider::builder::run_circuit;
use zprize::r1cs_provider::xjsnark::libsnark::{
    parse_file, parse_decimal, parse_index, Assignment, Constraint, R1CS,
};

#[test]
fn reads_numbers_in_base_ten() {
    assert_eq!(parse_decimal(b"0").unwrap().0, [0, 0, 0, 0]);
    assert_eq!(parse_decimal(b"6").unwrap().0, [6, 0, 0, 0]);
    assert_eq!(parse_decimal(b"18446744073709551615").unwrap().0, [u64::MAX, 0, 0, 0]);
    assert_eq!(parse_decimal(b"18446744073709551616").unwrap().0, [0, 1, 0, 0]);
    assert_eq!(
        parse_decimal(b"340282366920938463463374607431768211456").unwrap().0,
        [0, 0, 1, 0]
    );
    assert_eq!(
        parse_decimal(b"8444461749428370424248824938781546531375899335154063827935233455917409239041")
            .unwrap()
            .0,
        zprize::field::MODULUS_LIMBS
    );
    assert_eq!(parse_decimal(b"007").unwrap().0, [7, 0, 0, 0]);
}

#[test]
fn reads_the_largest_number_of_four_limbs() {
    let max = b"115792089237316195423570985008687907853269984665640564039457584007913129639935";
    assert_eq!(parse_decimal(max).unwrap().0, [u64::MAX; 4]);
    let over = b"115792089237316195423570985008687907853269984665640564039457584007913129639936";
    assert_eq!(parse_decimal(over).unwrap_err(), BuildError::MalformedNumber);
    let long = b"1157920892373161954235709850086879078532699846656405640394575840079131296399350";
    assert_eq!(parse_decimal(long).unwrap_err(), BuildError::MalformedNumber);
}

#[test]
fn refuses_what_is_no_number() {
    for bad in [&b""[..], b"-1", b"+1", b"1 ", b" 1", b"1_000", b"0x10", b"12a", b"1.5", b"\xd9\xa1"] {
        assert_eq!(parse_decimal(bad).unwrap_err(), BuildError::MalformedNumber);
    }
}

#[test]
fn reads_indices() {
    assert_eq!(parse_index(b"0"), Some(0));
    assert_eq!(parse_index(b"17"), Some(17));
    assert_eq!(parse_index(usize::MAX.to_string().as_bytes()), Some(usize::MAX));
    assert_eq!(parse_index(b"18446744073709551616"), None);
    assert_eq!(parse_index(b"99999999999999999999999"), None);
    assert_eq!(parse_index(b"01"), None);
    assert_eq!(parse_index(b"00"), None);
    assert_eq!(parse_index(b""), None);
    assert_eq!(parse_index(b"-1"), None);
    assert_eq!(parse_index(b"1a"), None);
}

fn sparse(entries: &[(usize, &str)]) -> HashMap<usize, String> {
    entries.iter().map(|(k, v)| (*k, v.to_string())).collect()
}

#[test]
fn text_rows_become_rows_in_limbs() {
    let r1cs = R1CS(vec![Constraint {
        a: sparse(&[(1, "1")]),
        b: sparse(&[(2, "1")]),
        c: sparse(&[(3, "18446744073709551617")]),
    }]);
    let limbs = r1cs.to_limbs().unwrap();
    assert_eq!(limbs.0.len(), 1);
    assert_eq!(limbs.0[0].a[&1].0, [1, 0, 0, 0]);
    assert_eq!(limbs.0[0].c[&3].0, [1, 1, 0, 0]);
    assert_eq!(limbs.0[0].c.len(), 1);
}

#[test]
fn a_bad_coefficient_is_a_malformed_number() {
    let r1cs = R1CS(vec![Constraint { a: sparse(&[(1, "1")]), b: sparse(&[(2, "x")]), c: sparse(&[]) }]);
    assert_eq!(r1cs.to_limbs().unwrap_err(), BuildError::MalformedNumber);
}

#[test]
fn a_text_witness_becomes_a_witness_in_limbs() {
    let a = Assignment {
        variables: vec!["2".to_string(), "3".to_string(), "6".to_string()],
        primary_input_size: 3,
        auxiliary_input_size: 0,
    };
    let limbs = a.to_limbs().unwrap();
    assert_eq!(limbs.variables.len(), 3);
    assert_eq!(limbs.variables[2].0, [6, 0, 0, 0]);
    assert_eq!(limbs.primary_input_size, 3);
    let bad = Assignment { variables: vec!["2".to_string()], primary_input_size: 0, auxiliary_input_size: 0 };
    assert_eq!(bad.to_limbs().unwrap_err(), BuildError::Deserialize(FileKind::Assignment));
    let bad = Assignment { variables: vec!["two".to_string()], primary_input_size: 1, auxiliary_input_size: 0 };
    assert_eq!(bad.to_limbs().unwrap_err(), BuildError::MalformedNumber);
}

#[test]
fn parses_the_text_files() {
    let r1cs = br#"[{"a": {"1": "1"}, "b": {"2": "1"}, "c": {"3": "1", "0": "0"}}]"#;
    let assignment = br#"{"variables": ["2", "3", "6"], "primary_input_size": 3, "auxiliary_input_size": 0}"#;
    let (r, a) = parse_file(r1cs, assignment).unwrap();
    assert_eq!(r.0.len(), 1);
    assert_eq!(r.0[0].a[&1], "1");
    assert_eq!(r.0[0].c.len(), 2);
    assert_eq!(a.variables, vec!["2", "3", "6"]);
    assert_eq!(a.primary_input_size, 3);
    assert_eq!(a.auxiliary_input_size, 0);
    let cs = run_circuit(&r.to_limbs().unwrap(), &a.to_limbs().unwrap(), &None).unwrap();
    assert!(cs.is_satisfied());
}

#[test]
fn both_encodings_give_the_same_circuit() {
    let text_r1cs = br#"[{"a": {"1": "5"}, "b": {"2": "1"}, "c": {"3": "1"}}]"#;
    let text_assignment = br#"{"variables": ["2", "3", "30"], "primary_input_size": 1, "auxiliary_input_size": 2}"#;
    let (r, a) = parse_file(text_r1cs, text_assignment).unwrap();
    let from_text = run_circuit(&r.to_limbs().unwrap(), &a.to_limbs().unwrap(), &None).unwrap();
    assert!(from_text.is_satisfied());
    assert_eq!(from_text.get_rows()[0].a.get_value().to_bigint().0, [10, 0, 0, 0]);
    assert_eq!(from_text.get_rows()[0].c.get_value().to_bigint().0, [30, 0, 0, 0]);
}

#[test]
fn refuses_text_files_of_another_shape() {
    let good_r1cs = br#"[]"#;
    let good_a = br#"{"variables": [], "primary_input_size": 0, "auxiliary_input_size": 0}"#;
    assert!(parse_file(good_r1cs, good_a).is_ok());
    let r1cs_error = BuildError::Deserialize(FileKind::R1cs);
    let a_error = BuildError::Deserialize(FileKind::Assignment);
    for bad in [
        &br#"{}"#[..],
        br#"[{"a": {}, "b": {}}]"#,
        br#"[{"a": {"x": "1"}, "b": {}, "c": {}}]"#,
        br#"[{"a": {"01": "1"}, "b": {}, "c": {}}]"#,
        br#"[{"a": {"1": 1}, "b": {}, "c": {}}]"#,
        br#"[{"a": [], "b": {}, "c": {}}]"#,
        br#"[{"a": {}, "b": {}, "c": {}}"#,
        br#"[] []"#,
    ] {
        assert_eq!(parse_file(bad, good_a).unwrap_err(), r1cs_error);
    }
    for bad in [
        &br#"[]"#[..],
        br#"{"variables": ["1"], "primary_input_size": 0, "auxiliary_input_size": 0}"#,
        br#"{"variables": [1], "primary_input_size": 1, "auxiliary_input_size": 0}"#,
        br#"{"variables": ["1"], "primary_input_size": 1}"#,
        br#"{"variables": ["1"], "primary_input_size": -1, "auxiliary_input_size": 2}"#,
        br#"{"variables": ["1"], "primary_input_size": 1.0, "auxiliary_input_size": 0}"#,
    ] {
        assert_eq!(parse_file(good_r1cs, bad).unwrap_err(), a_error);
    }
    assert_eq!(parse_file(b"{", b"{").unwrap_err(), r1cs_error);
}
