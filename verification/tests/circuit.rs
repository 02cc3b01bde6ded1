use zprize::circuit::{ECDSAPublicKey, ECDSASignature, Message, Mode};

#[test]
fn a_message_comes_back_byte_for_byte() {
    let bytes: Vec<u8> = (0..=255).collect();
    let m = Message::new(Mode::Public, bytes.clone());
    assert_eq!(m.eject_value(), bytes);
    assert_eq!(m.eject_mode(), Mode::Public);
    let m = Message::new(Mode::Constant, vec![7]);
    assert_eq!(m.eject_value(), vec![7]);
    assert_eq!(m.eject_mode(), Mode::Constant);
    assert!(Message::new(Mode::Public, vec![]).eject_value().is_empty());
}

#[test]
fn a_public_key_comes_back_byte_for_byte() {
    let mut encoding = vec![2u8];
    encoding.extend_from_slice(&[0xab; 32]);
    let k = ECDSAPublicKey::new(Mode::Public, &encoding);
    assert_eq!(k.eject_value(), encoding);
    assert_eq!(k.eject_mode(), Mode::Public);
}

#[test]
fn a_signature_comes_back_byte_for_byte() {
    let bytes: Vec<u8> = (100..164).collect();
    let s = ECDSASignature::new(Mode::Constant, &bytes);
    assert_eq!(s.eject_value(), bytes);
    assert_eq!(s.eject_mode(), Mode::Constant);
}
