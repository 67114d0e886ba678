use std::rc::Rc;

use vo_parse::{
    block1, block2, block3, nullable, string_with, tuple2, vec_of, wrapped, Cache, DirPath, ErrorKind, FromCell,
    Projector, SemanticError, VoDeserializer,
};

fn with_root<T>(bytes: &[u8], f: impl Fn(&mut Projector, &vo_parse::Memory, vo_parse::Data) -> T) -> T {
    let mut de = VoDeserializer::from_bytes_with_capacity(bytes, bytes.len());
    let root = de.read_object().ok().expect("object decodes");
    let mem = de.memory();
    let mut p = Projector::new(mem);
    f(&mut p, mem, root)
}

#[test]
fn tuple2_shares_string() {
    let (a, b) = with_root(&[0xA0, 0x21, b'X', 0x04, 0x01], |p, m, d| {
        tuple2::<String, String>(p, m, d).ok().unwrap()
    });
    assert_eq!(a.as_str(), "X");
    assert!(Rc::ptr_eq(&a, &b));
}

#[test]
fn tuple2_of_path_and_string() {
    let (a, b) = with_root(&[0xA0, 0x40, 0x22, b'o', b'k'], |p, m, d| {
        tuple2::<DirPath, String>(p, m, d).ok().unwrap()
    });
    assert_eq!(a.len(), 0);
    assert_eq!(b.as_str(), "ok");
}

#[test]
fn tuple2_wrong_arity() {
    let k = with_root(&[0x90, 0x40], |p, m, d| tuple2::<DirPath, DirPath>(p, m, d).err().unwrap().kind);
    assert_eq!(k, ErrorKind::Shape);
}

#[test]
fn wrapped_string() {
    let s = with_root(&[0x90, 0x22, b'h', b'i'], |p, m, d| wrapped::<String>(p, m, d).ok().unwrap());
    assert_eq!(s.as_str(), "hi");
}

#[test]
fn nullable_absent_and_present() {
    let none = with_root(&[0x40], |p, m, d| nullable::<String>(p, m, d).ok().unwrap());
    assert!(none.is_none());
    let some = with_root(&[0x21, b'a'], |p, m, d| nullable::<String>(p, m, d).ok().unwrap());
    assert_eq!(some.unwrap().as_str(), "a");
    let k = with_root(&[0x41], |p, m, d| nullable::<String>(p, m, d).err().unwrap().kind);
    assert_eq!(k, ErrorKind::Shape);
}

#[test]
fn vec_of_strings() {
    let v = with_root(&[0xB0, 0x21, b'a', 0x21, b'b', 0x04, 0x02], |p, m, d| {
        vec_of::<String>(p, m, d).ok().unwrap()
    });
    let texts: Vec<&str> = v.iter().map(|s| s.as_str()).collect();
    assert_eq!(texts, vec!["a", "b", "a"]);
    assert!(Rc::ptr_eq(&v[0], &v[2]));
}

#[test]
fn vec_of_wrong_tag() {
    let k = with_root(&[0xA3, 0x21, b'a', 0x21, b'b'], |p, m, d| vec_of::<String>(p, m, d).err().unwrap().kind);
    assert_eq!(k, ErrorKind::Shape);
}

#[test]
fn summary_from_cell() {
    let mut bytes = vec![0xB0, 0xA0, 0x21, b'M', 0x40, 0x80, 0x90, 0xA0, 0x04, 0x04, 0x90, 0x30];
    bytes.extend(0u8..16);
    let s = with_root(&bytes, |p, m, d| vo_parse::SummaryDisk::from_cell(p, m, d).ok().unwrap());
    assert_eq!(s.name.to_strings(), vec!["M".to_string()]);
    assert!(s.imports.is_empty());
    assert_eq!(s.deps.len(), 1);
    assert!(Rc::ptr_eq(&s.name, &s.deps[0].0));
}

#[test]
fn string_with_runs_validator_once_per_address() {
    let bytes = [0xA0, 0x22, b'h', b'i', 0x04, 0x01];
    let mut de = VoDeserializer::from_bytes_with_capacity(&bytes, 8);
    let root = de.read_object().ok().unwrap();
    let mem = de.memory();
    let (_, kids) = vo_parse::block_children(mem, root).unwrap();
    let mut cache: Cache<usize> = Cache::new(mem.len());
    let calls = std::cell::Cell::new(0usize);
    let count = |b: Vec<u8>| -> Result<usize, SemanticError> {
        calls.set(calls.get() + 1);
        Ok(b.len())
    };
    let a = string_with(&mut cache, mem, kids[0], &count).ok().unwrap();
    let b = string_with(&mut cache, mem, kids[1], &count).ok().unwrap();
    assert_eq!(*a, 2);
    assert!(Rc::ptr_eq(&a, &b));
    assert_eq!(calls.get(), 1);
}

#[test]
fn string_with_reports_validator_error() {
    let mut de = VoDeserializer::from_bytes_with_capacity(&[0x21, b'x'], 2);
    let root = de.read_object().ok().unwrap();
    let mem = de.memory();
    let mut cache: Cache<u8> = Cache::new(mem.len());
    let e = string_with(&mut cache, mem, root, |_b: Vec<u8>| -> Result<u8, SemanticError> {
        SemanticError::msg("rejected".to_string())
    })
    .err()
    .unwrap();
    assert_eq!(e.msg, "rejected");
    let e = string_with(&mut cache, mem, vo_parse::Data::Int(3), |_b: Vec<u8>| -> Result<u8, SemanticError> {
        Ok(0)
    })
    .err()
    .unwrap();
    assert_eq!(e.kind, ErrorKind::Shape);
}

#[test]
fn block1_maps_its_field() {
    let n = with_root(&[0x90, 0x22, b'h', b'i'], |p, m, d| {
        block1::<String, usize, _>(p, m, d, |s: Rc<String>| Ok(s.len())).ok().unwrap()
    });
    assert_eq!(n, 2);
}

#[test]
fn block2_maps_and_may_fail() {
    let t = with_root(&[0xA0, 0x21, b'a', 0x21, b'b'], |p, m, d| {
        block2::<String, String, String, _>(p, m, d, |a: Rc<String>, b: Rc<String>| Ok(format!("{}{}", a, b)))
            .ok()
            .unwrap()
    });
    assert_eq!(t, "ab");
    let e = with_root(&[0xA0, 0x21, b'a', 0x21, b'b'], |p, m, d| {
        block2::<String, String, (), _>(p, m, d, |_a: Rc<String>, _b: Rc<String>| {
            SemanticError::msg("no".to_string())
        })
        .err()
        .unwrap()
        .msg
    });
    assert_eq!(e, "no");
}

#[test]
fn block3_maps_three_fields() {
    let v = with_root(&[0xB0, 0x40, 0x21, b'x', 0x40], |p, m, d| {
        block3::<DirPath, String, DirPath, usize, _>(p, m, d, |a: Rc<DirPath>, b: Rc<String>, c: Rc<DirPath>| {
            Ok(a.len() + b.len() + c.len())
        })
        .ok()
        .unwrap()
    });
    assert_eq!(v, 1);
    let k = with_root(&[0xA0, 0x40, 0x40], |p, m, d| {
        block3::<DirPath, DirPath, DirPath, (), _>(p, m, d, |_a: Rc<DirPath>, _b: Rc<DirPath>, _c: Rc<DirPath>| Ok(()))
            .err()
            .unwrap()
            .kind
    });
    assert_eq!(k, ErrorKind::Shape);
}
