use std::rc::Rc;

use vo_parse::{check_checksum, header, segment, summary_segment, ErrorKind, E, VO_MAGIC};

/// The body of a summary: name Coq.Init, which is also the one import and the path
/// of the one dependency, with the digest 0, 1, ..., 15.
fn summary_body() -> (Vec<u8>, i32) {
    let mut b = vec![
        0xB0, // record of three fields
        0xA0, 0x24, b'I', b'n', b'i', b't', // name: "Init" ...
        0xA0, 0x23, b'C', b'o', b'q', 0x40, // ... after "Coq"
        0x90, 0x04, 0x05, // imports: [name]
        0x90, // deps: one element
        0xA0, 0x04, 0x07, // (name,
        0x90, 0x30, // digest)
    ];
    b.extend(0u8..16);
    (b, 10)
}

fn segment_bytes(start: usize, body: &[u8], size64: i32) -> Vec<u8> {
    let stop = (start + 24 + body.len()) as i32;
    let mut s = Vec::new();
    s.extend_from_slice(&stop.to_be_bytes());
    s.extend_from_slice(&[0x84, 0x95, 0xA6, 0xBE]);
    s.extend_from_slice(&(body.len() as i32).to_be_bytes());
    s.extend_from_slice(&size64.to_be_bytes());
    s.extend_from_slice(&0i32.to_be_bytes());
    s.extend_from_slice(&size64.to_be_bytes());
    s.extend_from_slice(body);
    s.extend_from_slice(&[0xEE; 16]);
    s
}

fn with_checksum(mut bytes: Vec<u8>) -> Vec<u8> {
    let sum = <md5::Md5 as md5::Digest>::digest(&bytes);
    bytes.extend_from_slice(&sum);
    bytes
}

/// A file with the summary segment and one more segment holding the integer 1.
fn sample_file() -> Vec<u8> {
    let mut f = VO_MAGIC.to_be_bytes().to_vec();
    let (body, n) = summary_body();
    let seg = segment_bytes(f.len(), &body, n);
    f.extend(seg);
    let seg2 = segment_bytes(f.len(), &[0x41], 0);
    f.extend(seg2);
    with_checksum(f)
}

fn kind(r: Result<vo_parse::SummaryDisk, E>) -> ErrorKind {
    match r {
        Ok(_) => panic!("expected an error"),
        Err(e) => e.kind,
    }
}

#[test]
fn decodes_sample_file() {
    let f = sample_file();
    let s = vo_parse::file(&f).ok().unwrap();
    assert_eq!(s.name.to_strings(), vec!["Coq".to_string(), "Init".to_string()]);
    assert_eq!(s.imports.len(), 1);
    assert_eq!(s.imports[0].to_strings(), vec!["Coq".to_string(), "Init".to_string()]);
    assert_eq!(s.deps.len(), 1);
    assert_eq!(s.deps[0].1.to_vec(), (0u8..16).collect::<Vec<u8>>());
}

#[test]
fn shared_paths_are_one_object() {
    let f = sample_file();
    let s = vo_parse::file(&f).ok().unwrap();
    assert!(Rc::ptr_eq(&s.name, &s.imports[0]));
    assert!(Rc::ptr_eq(&s.name, &s.deps[0].0));
}

#[test]
fn decoding_twice_gives_the_same() {
    let f = sample_file();
    let a = vo_parse::file(&f).ok().unwrap();
    let b = vo_parse::file(&f).ok().unwrap();
    assert_eq!(a.name.to_strings(), b.name.to_strings());
    assert_eq!(a.deps[0].1.to_vec(), b.deps[0].1.to_vec());
    let mut bad = f.clone();
    bad[40] = 0x14;
    let e1 = vo_parse::file(&bad).err().unwrap();
    let e2 = vo_parse::file(&bad).err().unwrap();
    assert_eq!(e1.kind, e2.kind);
    assert_eq!(e1.stuff, e2.stuff);
}

#[test]
fn segment_postconditions_hold() {
    let f = sample_file();
    let sg = segment(&f, 4).ok().unwrap();
    let (body, n) = summary_body();
    assert_eq!(sg.memory.len(), n as usize);
    assert_eq!(sg.header.size64, n);
    assert_eq!(sg.header.length as usize, body.len());
    assert_eq!(sg.next - 16 - (4 + 24), body.len());
    assert_eq!(sg.next - 16, sg.header.stop as usize);
    assert_eq!(sg.digest.to_vec(), vec![0xEE; 16]);
}

#[test]
fn summary_segment_reports_stop_and_digest() {
    let f = sample_file();
    let (s, stop, digest, next) = summary_segment(&f, 4).ok().unwrap();
    assert_eq!(s.name.len(), 2);
    assert_eq!(stop, next - 16);
    assert_eq!(digest.to_vec(), vec![0xEE; 16]);
}

#[test]
fn header_fields() {
    let f = sample_file();
    let (h, p) = header(&f, 4).ok().unwrap();
    assert_eq!(p, 28);
    assert_eq!(h.size64, 10);
    assert_eq!(h.objects, 10);
    assert_eq!(h.size32, 0);
    assert_eq!(h.length as usize, summary_body().0.len());
}

#[test]
fn checksum_is_checked() {
    let mut f = sample_file();
    let n = f.len();
    f[n - 1] ^= 1;
    assert_eq!(kind(vo_parse::file(&f)), ErrorKind::ChecksumMismatch);
}

#[test]
fn checksum_covers_the_contents() {
    let mut f = sample_file();
    // Change a byte of the first segment's digest: every segment still decodes.
    f[4 + 24 + summary_body().0.len()] ^= 1;
    let e = vo_parse::file(&f).err().unwrap();
    assert_eq!(e.kind, ErrorKind::ChecksumMismatch);
    assert_eq!(e.stuff[0].0, 16);
}

#[test]
fn check_checksum_compares_tail() {
    let data = [1u8, 2, 3, 0, 1, 2, 3, 4, 5, 6, 7, 8, 9, 10, 11, 12, 13, 14, 15];
    let good: Vec<u8> = (0u8..16).collect();
    assert!(check_checksum(&data, &good).is_ok());
    let mut bad = good.clone();
    bad[15] = 0;
    assert!(check_checksum(&data, &bad).is_err());
    assert!(check_checksum(&data, &good[..15]).is_err());
}

#[test]
fn file_magic_checked() {
    let mut f = sample_file();
    f[3] = 0;
    assert_eq!(kind(vo_parse::file(&f)), ErrorKind::BadMagic);
    assert_eq!(kind(vo_parse::file(&[0, 0])), ErrorKind::ShortRead);
}

#[test]
fn segment_magic_checked() {
    let mut f = sample_file();
    f[8] = 0x85;
    let e = vo_parse::file(&f).err().unwrap();
    assert_eq!(e.kind, ErrorKind::BadMagic);
    assert_eq!(e.stuff[0].0, f.len() - 8);
    assert_eq!(e.stuff[1], (f.len() - 4, "in the summary segment".to_string()));
}

fn file_with_summary_header(fix: impl Fn(&mut Vec<u8>)) -> Vec<u8> {
    let mut f = VO_MAGIC.to_be_bytes().to_vec();
    let (body, n) = summary_body();
    let mut seg = segment_bytes(f.len(), &body, n);
    fix(&mut seg);
    f.extend(seg);
    with_checksum(f)
}

#[test]
fn object_count_checked() {
    let f = file_with_summary_header(|s| s[20..24].copy_from_slice(&11i32.to_be_bytes()));
    let e = vo_parse::file(&f).err().unwrap();
    assert_eq!(e.kind, ErrorKind::SizeMismatch);
    assert_eq!(e.stuff[0].1, "Memory should be length 11, was actually 10");
    assert_eq!(e.stuff[1], (f.len() - 4, "in the summary segment".to_string()));
    assert_eq!(e.stuff.len(), 2);
}

#[test]
fn body_length_checked() {
    let f = file_with_summary_header(|s| s[8..12].copy_from_slice(&5i32.to_be_bytes()));
    let e = vo_parse::file(&f).err().unwrap();
    assert_eq!(e.kind, ErrorKind::LengthMismatch);
    let len = summary_body().0.len();
    assert_eq!(e.stuff[0].1, format!("Expected to consume 5 bytes, actually consumed {}", len));
}

#[test]
fn stop_offset_checked() {
    let f = file_with_summary_header(|s| s[0..4].copy_from_slice(&(-3i32).to_be_bytes()));
    let e = vo_parse::file(&f).err().unwrap();
    assert_eq!(e.kind, ErrorKind::StopMismatch);
    let end = 4 + 24 + summary_body().0.len();
    assert_eq!(e.stuff[0].1, format!("Expected to stop at -3, actually stopped at {}", end));
}

#[test]
fn summary_shape_checked() {
    let mut f = VO_MAGIC.to_be_bytes().to_vec();
    let seg = segment_bytes(f.len(), &[0x41], 0);
    f.extend(seg);
    let f = with_checksum(f);
    let e = vo_parse::file(&f).err().unwrap();
    assert_eq!(e.kind, ErrorKind::Shape);
    // The root names no cell: reported at the end of the body.
    assert_eq!(e.stuff[0].0, 32);
}

#[test]
fn rejected_string_reported_after_it() {
    let mut f = VO_MAGIC.to_be_bytes().to_vec();
    // name: ["\xFF"], no imports, no dependencies.
    let body = [0xB0, 0xA0, 0x21, 0xFF, 0x40, 0x80, 0x80];
    let seg = segment_bytes(f.len(), &body, 3);
    f.extend(seg);
    let f = with_checksum(f);
    let e = vo_parse::file(&f).err().unwrap();
    assert_eq!(e.kind, ErrorKind::BadString);
    assert_eq!(e.stuff[0], (f.len() - (4 + 24 + 4), "invalid string".to_string()));
    assert_eq!(e.stuff[1], (f.len() - 4, "in the summary segment".to_string()));
}

#[test]
fn truncated_file_is_short() {
    let f = sample_file();
    assert_eq!(kind(vo_parse::file(&f[..f.len() - 20])), ErrorKind::ShortRead);
    assert_eq!(kind(vo_parse::file(&f[..30])), ErrorKind::ShortRead);
}

#[test]
fn only_summary_then_checksum() {
    let mut f = VO_MAGIC.to_be_bytes().to_vec();
    let (body, n) = summary_body();
    let seg = segment_bytes(f.len(), &body, n);
    f.extend(seg);
    let f = with_checksum(f);
    assert!(vo_parse::file(&f).is_ok());
}
