use std::rc::Rc;

use vo_parse::{
    as_string, block_children, int63_at, int_at, parse_object, unshare, Data, DigestBytes, DirPath,
    ErrorKind, Projector, Repr, SemanticError, VoDeserializer, E,
};

fn read_one(bytes: &[u8]) -> Result<(Data, VoDeserializer<'_>), E> {
    let mut de = VoDeserializer::from_bytes_with_capacity(bytes, bytes.len());
    let d = de.read_object()?;
    Ok((d, de))
}

fn read_err(bytes: &[u8]) -> E {
    match read_one(bytes) {
        Ok((d, _)) => panic!("expected an error, got {:?}", d),
        Err(e) => e,
    }
}

fn dirpath_of(bytes: &[u8]) -> Result<Vec<String>, ErrorKind> {
    let (root, de) = read_one(bytes).map_err(|e| e.kind)?;
    let mut p = Projector::new(de.memory());
    let path = p.dirpath_at(de.memory(), root).map_err(|e| e.kind)?;
    Ok(path.to_strings())
}

fn repr_of(bytes: &[u8]) -> Repr {
    parse_object(bytes, 0).expect("header decodes").0
}

#[test]
fn empty_dirpath() {
    assert_eq!(dirpath_of(&[0x40]), Ok(vec![]));
}

#[test]
fn one_segment_dirpath() {
    // Struct(0, [String("M"), Int(0)]): tag 0 and two children give the header 0xA0.
    assert_eq!(dirpath_of(&[0xA0, 0x21, b'M', 0x40]), Ok(vec!["M".to_string()]));
}

#[test]
fn small_block_header_carries_tag_in_low_bits() {
    // 0x81 is a block of tag 1 and no children.
    let (root, de) = read_one(&[0x81, 0x21, b'M', 0x40]).unwrap();
    assert_eq!(root, Data::Atm(1));
    assert_eq!(de.position(), 1);
    assert_eq!(dirpath_of(&[0x81, 0x21, b'M', 0x40]), Err(ErrorKind::Shape));
}

#[test]
fn dirpath_order_follows_source_path() {
    // Struct(0, ["Init", Struct(0, ["Coq", 0])]) is the path Coq.Init.
    let bytes = [
        0xA0, 0x24, b'I', b'n', b'i', b't', 0xA0, 0x23, b'C', b'o', b'q', 0x40,
    ];
    assert_eq!(dirpath_of(&bytes), Ok(vec!["Coq".to_string(), "Init".to_string()]));
}

#[test]
fn shared_string() {
    let bytes = [0xA0, 0x21, b'X', 0x04, 0x01];
    let (root, de) = read_one(&bytes).unwrap();
    let mem = de.memory();
    assert_eq!(mem.len(), 2);
    let (tag, kids) = block_children(mem, root).unwrap();
    assert_eq!(tag, 0);
    assert_eq!(kids, vec![Data::Ptr(1), Data::Ptr(1)]);
    let mut p = Projector::new(mem);
    let a = p.string_at(mem, kids[0]).ok().unwrap();
    let b = p.string_at(mem, kids[1]).ok().unwrap();
    assert_eq!(a.as_str(), "X");
    assert!(Rc::ptr_eq(&a, &b));
}

#[test]
fn shared_dirpath_is_one_object() {
    // A pair of the same path twice: the second element points back to the first.
    let bytes = [0xA0, 0xA0, 0x21, b'M', 0x40, 0x04, 0x02];
    let (root, de) = read_one(&bytes).unwrap();
    let mem = de.memory();
    let (_, kids) = block_children(mem, root).unwrap();
    assert_eq!(kids, vec![Data::Ptr(1), Data::Ptr(1)]);
    let mut p = Projector::new(mem);
    let x = p.dirpath_at(mem, kids[0]).ok().unwrap();
    let y = p.dirpath_at(mem, kids[1]).ok().unwrap();
    assert!(Rc::ptr_eq(&x, &y));
    assert_eq!(y.to_strings(), vec!["M".to_string()]);
}

#[test]
fn int63_custom() {
    let bytes = [0x12, b'_', b'j', 0x00, 0, 0, 0, 0, 0, 0, 0, 0x2A];
    let (root, de) = read_one(&bytes).unwrap();
    assert_eq!(root, Data::Ptr(0));
    assert_eq!(int63_at(de.memory(), root).ok(), Some(42));
    assert_eq!(de.position(), 12);
}

#[test]
fn int63_negative_rejected() {
    let bytes = [0x12, b'_', b'j', 0x00, 0xFF, 0xFF, 0xFF, 0xFF, 0xFF, 0xFF, 0xFF, 0xD6];
    let e = read_err(&bytes);
    assert_eq!(e.kind, ErrorKind::NegativeInt63);
}

#[test]
fn custom_identifier_unknown() {
    let e = read_err(&[0x12, b'_', b'k', 0x00, 0, 0, 0, 0, 0, 0, 0, 1]);
    assert_eq!(e.kind, ErrorKind::UnknownCustom);
    assert_eq!(e.stuff[0].0, 8);
}

#[test]
fn custom_identifier_unterminated() {
    let e = read_err(&[0x12, b'_', b'j']);
    assert_eq!(e.kind, ErrorKind::ShortRead);
}

#[test]
fn forward_pointer() {
    let e = read_err(&[0x04, 0x01]);
    assert_eq!(e.kind, ErrorKind::PointerOutOfRange);
    assert_eq!(e.stuff[0], (0, "pointer out of range".to_string()));
}

#[test]
fn pointer_offset_zero() {
    let e = read_err(&[0xA0, 0x21, b'a', 0x04, 0x00]);
    assert_eq!(e.kind, ErrorKind::PointerOutOfRange);
}

#[test]
fn pointer_to_block_under_construction() {
    let e = read_err(&[0xA0, 0x04, 0x01, 0x40]);
    assert_eq!(e.kind, ErrorKind::PointerUnderConstruction);
    assert_eq!(e.stuff[0].0, 1);
}

#[test]
fn truncated_block() {
    // BLOCK32 of tag 0 declaring three children, followed by two.
    let e = read_err(&[0x08, 0x00, 0x00, 0x0C, 0x00, 0x41, 0x42]);
    assert_eq!(e.kind, ErrorKind::ShortRead);
    assert_eq!(e.stuff[0], (0, "short read".to_string()));
}

#[test]
fn empty_input_is_short() {
    let e = read_err(&[]);
    assert_eq!(e.kind, ErrorKind::ShortRead);
}

#[test]
fn small_int_values() {
    assert!(matches!(repr_of(&[0x40]), Repr::Int(0)));
    assert!(matches!(repr_of(&[0x7F]), Repr::Int(63)));
    assert!(matches!(repr_of(&[0x55]), Repr::Int(21)));
}

#[test]
fn sized_int_values() {
    assert!(matches!(repr_of(&[0x00, 0xFF]), Repr::Int(-1)));
    assert!(matches!(repr_of(&[0x00, 0x7F]), Repr::Int(127)));
    assert!(matches!(repr_of(&[0x01, 0x80, 0x00]), Repr::Int(-32768)));
    assert!(matches!(repr_of(&[0x01, 0x12, 0x34]), Repr::Int(0x1234)));
    assert!(matches!(repr_of(&[0x02, 0xFF, 0xFF, 0xFF, 0xFE]), Repr::Int(-2)));
    assert!(matches!(repr_of(&[0x02, 0x00, 0x01, 0x00, 0x00]), Repr::Int(65536)));
    match repr_of(&[0x03, 0x80, 0, 0, 0, 0, 0, 0, 0]) {
        Repr::Int(n) => assert_eq!(n, i64::MIN),
        other => panic!("{:?}", other),
    }
    match repr_of(&[0x03, 0x01, 0x02, 0x03, 0x04, 0x05, 0x06, 0x07, 0x08]) {
        Repr::Int(n) => assert_eq!(n, 0x0102030405060708),
        other => panic!("{:?}", other),
    }
}

#[test]
fn sized_int_short() {
    let e = read_err(&[0x02, 0x00, 0x01]);
    assert_eq!(e.kind, ErrorKind::ShortRead);
    assert_eq!(e.stuff[0].0, 2);
}

#[test]
fn shared_offsets_are_unsigned() {
    assert!(matches!(repr_of(&[0x04, 0xFF]), Repr::Pointer(255)));
    assert!(matches!(repr_of(&[0x05, 0xFF, 0xFE]), Repr::Pointer(65534)));
    assert!(matches!(repr_of(&[0x06, 0x80, 0x00, 0x00, 0x01]), Repr::Pointer(0x8000_0001)));
}

#[test]
fn small_block_headers() {
    assert!(matches!(repr_of(&[0x80]), Repr::Block(0, 0)));
    assert!(matches!(repr_of(&[0xA0]), Repr::Block(0, 2)));
    assert!(matches!(repr_of(&[0xF3]), Repr::Block(3, 7)));
}

#[test]
fn block32_header() {
    // len_raw = 0x000028 (len 10), tag 5.
    assert!(matches!(repr_of(&[0x08, 0x00, 0x00, 0x28, 0x05]), Repr::Block(5, 10)));
}

#[test]
fn block64_header() {
    // word = (3 << 10) | 0x300 | 7: tag 7, length 3.
    let w: u64 = (3 << 10) | 0x300 | 7;
    let mut bytes = vec![0x13];
    bytes.extend_from_slice(&w.to_be_bytes());
    assert!(matches!(repr_of(&bytes), Repr::Block(7, 3)));
}

#[test]
fn string_headers() {
    match repr_of(&[0x23, b'a', b'b', b'c']) {
        Repr::Str(s) => assert_eq!(s, b"abc".to_vec()),
        other => panic!("{:?}", other),
    }
    match repr_of(&[0x09, 0x02, b'h', b'i']) {
        Repr::Str(s) => assert_eq!(s, b"hi".to_vec()),
        other => panic!("{:?}", other),
    }
    match repr_of(&[0x0A, 0x00, 0x00, 0x00, 0x01, b'z']) {
        Repr::Str(s) => assert_eq!(s, b"z".to_vec()),
        other => panic!("{:?}", other),
    }
    let e = read_err(&[0x09, 0x05, b'a']);
    assert_eq!(e.kind, ErrorKind::ShortRead);
}

#[test]
fn unsupported_codes() {
    for code in [0x07u8, 0x0B, 0x0C, 0x0D, 0x0E, 0x0F, 0x11, 0x14, 0x1A, 0x1F] {
        let e = read_err(&[code, 0, 0, 0, 0, 0, 0, 0, 0]);
        assert_eq!(e.kind, ErrorKind::UnsupportedTag, "code {:02x}", code);
        assert_eq!(e.stuff[0].0, 8);
    }
}

#[test]
fn code_pointer_rejected() {
    let mut bytes = vec![0x10, 0, 0, 0, 9];
    bytes.extend_from_slice(&[0u8; 16]);
    assert!(matches!(repr_of(&bytes), Repr::Code(9)));
    let e = read_err(&bytes);
    assert_eq!(e.kind, ErrorKind::CodePointer);
}

#[test]
fn memory_holds_strings_and_blocks() {
    // Struct(0, [String("a"), Struct(0, [7]), 5]) with tag 0 and three children.
    let bytes = [0xB0, 0x21, b'a', 0x90, 0x47, 0x45];
    let (root, de) = read_one(&bytes).unwrap();
    let mem = de.memory();
    assert_eq!(root, Data::Ptr(0));
    assert_eq!(mem.len(), 3);
    let (_, kids) = block_children(mem, root).unwrap();
    assert_eq!(kids, vec![Data::Ptr(1), Data::Ptr(2), Data::Int(5)]);
    assert_eq!(int_at(kids[2]).ok(), Some(5));
    let (_, inner) = block_children(mem, kids[1]).unwrap();
    assert_eq!(inner, vec![Data::Int(7)]);
}

#[test]
fn dirpath_rejects_wrong_shapes() {
    // A non-zero integer, a block of the wrong tag, a block of the wrong arity.
    assert_eq!(dirpath_of(&[0x45]), Err(ErrorKind::Shape));
    assert_eq!(dirpath_of(&[0xA1, 0x21, b'M', 0x40]), Err(ErrorKind::Shape));
    assert_eq!(dirpath_of(&[0xB0, 0x21, b'M', 0x40, 0x40]), Err(ErrorKind::Shape));
    // A segment that is not a string.
    assert_eq!(dirpath_of(&[0xA0, 0x41, 0x40]), Err(ErrorKind::Shape));
}

#[test]
fn dirpath_rejects_invalid_utf8() {
    assert_eq!(dirpath_of(&[0xA0, 0x21, 0xFF, 0x40]), Err(ErrorKind::BadString));
    let (root, de) = read_one(&[0xA0, 0x21, 0xFF, 0x40]).unwrap();
    let mut p = Projector::new(de.memory());
    let e = p.dirpath_at(de.memory(), root).err().unwrap();
    assert_eq!(e.cell, Some(1));
    assert_eq!(de.memory().end_of(1), 3);
}

#[test]
fn failure_below_a_block_names_the_block() {
    // The head of the path is an integer: the failure lies in the block at 0.
    let (root, de) = read_one(&[0xA0, 0x41, 0x40]).unwrap();
    let mut p = Projector::new(de.memory());
    let e = p.dirpath_at(de.memory(), root).err().unwrap();
    assert_eq!(e.kind, ErrorKind::Shape);
    assert_eq!(e.cell, Some(0));
}

#[test]
fn forward_pointer_leaves_memory_empty() {
    let mut de = VoDeserializer::from_bytes_with_capacity(&[0x04, 0x01], 0);
    assert!(de.read_object().is_err());
    assert_eq!(de.memory().len(), 0);
}

#[test]
fn string_decodes_utf8() {
    let bytes = [0xA0, 0x22, 0xC3, 0xA9, 0x40];
    assert_eq!(dirpath_of(&bytes), Ok(vec!["\u{e9}".to_string()]));
}

#[test]
fn digest_projection() {
    let mut bytes = vec![0x90, 0x30];
    bytes.extend((0u8..16).collect::<Vec<u8>>());
    let (root, de) = read_one(&bytes).unwrap();
    let mut p = Projector::new(de.memory());
    let g = p.digest_at(de.memory(), root).ok().unwrap();
    assert_eq!(g.to_vec(), (0u8..16).collect::<Vec<u8>>());
}

#[test]
fn digest_of_wrong_length() {
    let bytes = [0x90, 0x23, 1, 2, 3];
    let (root, de) = read_one(&bytes).unwrap();
    let mut p = Projector::new(de.memory());
    let e = p.digest_at(de.memory(), root).err().unwrap();
    assert_eq!(e.kind, ErrorKind::BadString);
}

#[test]
fn empty_sequence_from_atom() {
    let (root, de) = read_one(&[0x80]).unwrap();
    let mut p = Projector::new(de.memory());
    let v = p.dirpaths_at(de.memory(), root).ok().unwrap();
    assert!(v.is_empty());
}

#[test]
fn sequence_of_paths() {
    // [ ["a"], [] ]
    let bytes = [0xA0, 0xA0, 0x21, b'a', 0x40, 0x40];
    let (root, de) = read_one(&bytes).unwrap();
    let mut p = Projector::new(de.memory());
    let v = p.dirpaths_at(de.memory(), root).ok().unwrap();
    assert_eq!(v.len(), 2);
    assert_eq!(v[0].to_strings(), vec!["a".to_string()]);
    assert_eq!(v[1].len(), 0);
}

#[test]
fn sequence_fails_on_first_bad_element() {
    let bytes = [0xA0, 0x45, 0xA0, 0x21, 0xFF, 0x40];
    let (root, de) = read_one(&bytes).unwrap();
    let mut p = Projector::new(de.memory());
    let e = p.dirpaths_at(de.memory(), root).err().unwrap();
    assert_eq!(e.kind, ErrorKind::Shape);
}

#[test]
fn int63_projection_wrong_shape() {
    assert_eq!(int_at(Data::Atm(0)).err().unwrap().kind, ErrorKind::Shape);
    let (root, de) = read_one(&[0x21, b'a']).unwrap();
    assert_eq!(int63_at(de.memory(), root).err().unwrap().kind, ErrorKind::Shape);
}

#[test]
fn as_string_renders_bytes() {
    assert_eq!(as_string(b"Coq"), "Coq");
    assert_eq!(as_string(&[0xFF, 0x01]), "[255, 1]");
}

#[test]
fn unshare_returns_value() {
    let rc = Rc::new(String::from("x"));
    let kept = Rc::clone(&rc);
    assert_eq!(unshare(rc), "x");
    assert_eq!(unshare(kept), "x");
}

#[test]
fn error_helpers() {
    let e = E::new(&[1, 2, 3], "boom".to_string());
    assert_eq!(e.stuff, vec![(3, "boom".to_string())]);
    assert_eq!(e.kind, ErrorKind::Other);
    let e = E::msg::<()>(String::from("boom"), &[1u8, 2, 3]).err().unwrap();
    assert_eq!(e.stuff, vec![(3, "boom".to_string())]);
    let e = E::len(2, 3, "Foo", &[0u8; 5]).err().unwrap();
    assert_eq!(e.kind, ErrorKind::Shape);
    assert_eq!(e.stuff, vec![(5, "Struct Foo: expected size 3, got size 2".to_string())]);
    let mut e = E::of(ErrorKind::ShortRead, 7);
    assert_eq!(e.stuff, vec![(7, "short read".to_string())]);
    e.context(9, "in segment");
    assert_eq!(e.stuff[1], (9, "in segment".to_string()));
    let s = SemanticError::msg::<()>("bad digest".to_string()).err().unwrap();
    assert_eq!(s.kind, ErrorKind::Other);
    let e = s.to_e(4);
    assert_eq!(e.stuff, vec![(4, "bad digest".to_string())]);
    let e = SemanticError::of(ErrorKind::BadString).to_e(2);
    assert_eq!(e.stuff, vec![(2, "invalid string".to_string())]);
}

#[test]
fn error_texts_carry_details() {
    let e = read_err(&[0x07]);
    assert_eq!(e.stuff, vec![(0, "Unhandled code: 07".to_string())]);
    let e = read_err(&[0x1F, 0]);
    assert_eq!(e.stuff, vec![(1, "Unhandled code: 1f".to_string())]);
    let e = read_err(&[0x12, b'_', b'k', 0x00, 0, 0, 0, 0, 0, 0, 0, 1]);
    assert_eq!(e.stuff[0].1, "Unhandled custom code: [95, 107]");
    let e = read_err(&[0x12, b'_', b'j', 0x00, 0xFF, 0xFF, 0xFF, 0xFF, 0xFF, 0xFF, 0xFF, 0xD6]);
    assert_eq!(e.stuff, vec![(0, "uint63 out of range: -42".to_string())]);
    let e = read_err(&[0xA0, 0x04, 0x01, 0x40]);
    assert_eq!(
        e.stuff[0].1,
        "Pointer is to object that we haven't finished building"
    );
}

#[test]
fn dirpath_building() {
    let p = DirPath::empty();
    assert_eq!(p.len(), 0);
    let q = p.concat(Rc::new("A".to_string())).concat(Rc::new("B".to_string()));
    assert_eq!(q.to_strings(), vec!["A".to_string(), "B".to_string()]);
    assert_eq!(q.segment(1).as_str(), "B");
}

#[test]
fn digest_bytes_new_takes_first_sixteen() {
    let src: Vec<u8> = (10u8..30).collect();
    let d = DigestBytes::new(&src);
    assert_eq!(d.to_vec(), (10u8..26).collect::<Vec<u8>>());
}

#[test]
fn reads_consecutive_objects() {
    let bytes = [0x21, b'a', 0x04, 0x01, 0x41];
    let mut de = VoDeserializer::from_bytes_with_capacity(&bytes, 0);
    assert_eq!(de.read_object().ok(), Some(Data::Ptr(0)));
    assert_eq!(de.read_object().ok(), Some(Data::Ptr(0)));
    assert_eq!(de.read_object().ok(), Some(Data::Int(1)));
    assert_eq!(de.position(), 5);
    assert_eq!(de.memory().len(), 1);
}
