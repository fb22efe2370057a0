use mem_gadgets::bytes::CodecError;
use mem_gadgets::commitment::ICCmt;
use mem_gadgets::mem_type::MemType;
use nova_snark::provider::bn256_grumpkin::grumpkin::Scalar;

fn mem_type_round_trip(a: MemType) {
    let bytes = a.encode();
    assert_eq!(bytes.len(), 17);
    let back = MemType::decode(&bytes).unwrap();
    assert_eq!(back, a);
}

#[test]
fn serialize_mem_types() {
    let a = MemType::priv_ram(4, 10);
    mem_type_round_trip(a);

    let b = MemType::priv_rom(3, 40);
    mem_type_round_trip(b);

    let c = MemType::pub_ram(99, 3);
    mem_type_round_trip(c);

    let d = MemType::pub_rom(0, 19);
    mem_type_round_trip(d);

    let e = MemType::stack(2, 55);
    mem_type_round_trip(e);
}

#[test]
fn serialize_cmt() {
    let mut v = vec![];
    for i in 0..15u64 {
        v.push(Scalar::from_raw([i + 1, 0, 0, 0]));
    }

    let a = ICCmt::new(v.clone());
    let bytes = a.encode();
    assert_eq!(bytes.len(), 8 + 15 * 32);
    let back = ICCmt::decode(&bytes).unwrap();
    assert_eq!(back, a);
    assert_eq!(back.inner(), &v);
}

#[test]
fn serialize_cmt_empty() {
    let a = ICCmt::new(Vec::<Scalar>::new());
    let bytes = a.encode();
    assert_eq!(bytes.len(), 8);
    let back = ICCmt::decode(&bytes).unwrap();
    assert_eq!(back, a);
    assert!(back.inner().is_empty());
}

#[test]
fn mem_type_encoding_layout() {
    // discriminant byte, then tag, then elem_len, little endian
    let bytes = MemType::pub_rom(1, 2).encode();
    let mut expected = vec![0u8; 17];
    expected[1] = 1;
    expected[9] = 2;
    assert_eq!(bytes, expected);

    assert_eq!(MemType::pub_ram(0, 0).encode()[0], 1);
    assert_eq!(MemType::priv_rom(0, 0).encode()[0], 2);
    assert_eq!(MemType::priv_ram(0, 0).encode()[0], 3);
    assert_eq!(MemType::stack(0, 0).encode()[0], 4);
}

#[test]
fn cmt_encoding_layout() {
    // count prefix little endian, then the canonical bytes of each
    // element; the canonical form of 1 is the byte 1 followed by zeros
    let one = Scalar::from_raw([1, 0, 0, 0]);
    let bytes = ICCmt::new(vec![one]).encode();
    assert_eq!(bytes.len(), 40);
    assert_eq!(&bytes[0..8], &[1, 0, 0, 0, 0, 0, 0, 0]);
    assert_eq!(bytes[8], 1);
    assert!(bytes[9..40].iter().all(|b| *b == 0));
}

#[test]
fn mem_type_decode_bad_discriminant() {
    let mut bytes = MemType::priv_ram(4, 10).encode();
    bytes[0] = 7;
    assert_eq!(MemType::decode(&bytes), Err(CodecError::InvalidData));
}

#[test]
fn mem_type_decode_short_stream() {
    let bytes = vec![0u8; 16];
    assert_eq!(MemType::decode(&bytes), Err(CodecError::UnexpectedEnd));
}

#[test]
fn cmt_decode_short_stream() {
    // the prefix announces one element but no chunk follows
    let mut bytes = vec![0u8; 8];
    bytes[0] = 1;
    assert_eq!(
        ICCmt::decode(&bytes).unwrap_err(),
        CodecError::UnexpectedEnd
    );
    assert_eq!(ICCmt::decode(&[1, 2, 3]).unwrap_err(), CodecError::UnexpectedEnd);
}

#[test]
fn cmt_decode_non_canonical_chunk() {
    // 0xff..ff is at least the field modulus, so the chunk is invalid
    let mut bytes = vec![0u8; 40];
    bytes[0] = 1;
    for i in 8..40 {
        bytes[i] = 0xff;
    }
    assert_eq!(ICCmt::decode(&bytes).unwrap_err(), CodecError::InvalidData);
}

#[test]
fn tag_replace_keeps_variant_and_len() {
    let mut m = MemType::pub_rom(5, 9);
    let old = m.tag_replace(42);
    assert_eq!(old, 5);
    assert_eq!(m.tag(), 42);
    assert_eq!(m.elem_len(), 9);
    assert_eq!(m, MemType::pub_rom(42, 9));

    let mut s = MemType::stack(7, 3);
    assert!(s.is_stack());
    let old = s.tag_replace(1);
    assert_eq!(old, 7);
    assert!(s.is_stack());
    assert_eq!(s.elem_len(), 3);
}

#[test]
fn new_maps_flags_to_variants() {
    assert_eq!(MemType::new(true, true, false, 1, 2), MemType::priv_ram(1, 2));
    assert_eq!(MemType::new(true, false, false, 1, 2), MemType::priv_rom(1, 2));
    assert_eq!(MemType::new(false, true, false, 1, 2), MemType::pub_ram(1, 2));
    assert_eq!(MemType::new(false, false, false, 1, 2), MemType::pub_rom(1, 2));
    assert_eq!(MemType::new(true, false, true, 1, 2), MemType::stack(1, 2));
    assert!(!MemType::new(true, true, false, 1, 2).is_stack());
    assert!(MemType::new(true, false, true, 1, 2).is_stack());
}
