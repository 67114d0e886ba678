use vstd::prelude::*;
use vstd::slice::slice_subrange;

use crate::error::{
    fault, length_message, length_text, size_message, size_text, stop_message, stop_text, ErrorKind,
    Fault, E,
};
use crate::fill::{fill, fill_obj};
use crate::memory::{Data, MemV, Memory};
use crate::reader::{read_be_signed, bytes_at};
use crate::repr::{fault_at, read_bytes};
use crate::types::DigestBytes;

verus! {

/// The magic number at the start of a compiled library file.
pub const VO_MAGIC: i32 = 8991;

/// The magic bytes that start a segment header.
pub open spec fn segment_magic() -> Seq<u8> {
    seq![0x84u8, 0x95u8, 0xA6u8, 0xBEu8]
}

/// The fixed fields in front of a segment's body.
#[derive(Clone, Copy, Debug, PartialEq, Eq, Structural)]
pub struct SegmentHeader {
    /// The file offset at which the body ends.
    pub stop: i32,
    /// The number of bytes of the body.
    pub length: i32,
    /// The number of objects the writer declared.
    pub objects: i32,
    /// The size of the graph on a 32-bit machine.
    pub size32: i32,
    /// The number of objects the body holds.
    pub size64: i32,
}

/// The header of the segment at `pos`, and the offset of its body.
pub open spec fn header_of(s: Seq<u8>, pos: int) -> Result<(SegmentHeader, int), Fault> {
    if pos + 4 > s.len() {
        Err(fault_at(s, pos, ErrorKind::ShortRead))
    } else if pos + 8 > s.len() {
        Err(fault_at(s, pos + 4, ErrorKind::ShortRead))
    } else if bytes_at(s, pos + 4, 4) != segment_magic() {
        Err(fault_at(s, pos + 4, ErrorKind::BadMagic))
    } else if pos + 24 > s.len() {
        Err(fault_at(s, pos + 8 + 4 * ((s.len() - (pos + 8)) / 4), ErrorKind::ShortRead))
    } else {
        Ok(
            (
                SegmentHeader {
                    stop: crate::reader::be_int(bytes_at(s, pos, 4)) as i32,
                    length: crate::reader::be_int(bytes_at(s, pos + 8, 4)) as i32,
                    objects: crate::reader::be_int(bytes_at(s, pos + 12, 4)) as i32,
                    size32: crate::reader::be_int(bytes_at(s, pos + 16, 4)) as i32,
                    size64: crate::reader::be_int(bytes_at(s, pos + 20, 4)) as i32,
                },
                pos + 24,
            ),
        )
    }
}

/// The model of a decoded segment.
pub struct SegmentV {
    pub header: SegmentHeader,
    pub root: Data,
    pub memory: MemV,
    pub digest: Seq<u8>,
    pub next: int,
}

/// The segment at `pos`: its header, the graph of its body, which must hold
/// `size64` objects, take `length` bytes and end at `stop`, and its digest.
pub open spec fn segment_of(s: Seq<u8>, pos: int) -> Result<SegmentV, Fault> {
    match header_of(s, pos) {
        Err(f) => Err(f),
        Ok((h, body)) => match fill_obj(s, body, MemV::empty()) {
            Err(f) => Err(f),
            Ok((root, q, m)) => if m.len() != h.size64 as int {
                Err(fault(ErrorKind::SizeMismatch, s.len() - q, size_text(h.size64 as int, m.len())))
            } else if q - body != h.length as int {
                Err(fault(ErrorKind::LengthMismatch, s.len() - q, length_text(h.length as int, (q - body) as nat)))
            } else if q != h.stop as int {
                Err(fault(ErrorKind::StopMismatch, s.len() - q, stop_text(h.stop as int, q as nat)))
            } else {
                match read_bytes(s, q, 16) {
                    Err(f) => Err(f),
                    Ok((digest, next)) => Ok(SegmentV { header: h, root, memory: m, digest, next }),
                }
            },
        },
    }
}

/// A decoded segment: its header, the root of its graph, the memory that holds the
/// graph, its digest, and the offset that follows it.
pub struct Segment {
    pub header: SegmentHeader,
    pub root: Data,
    pub memory: Memory,
    pub digest: DigestBytes,
    pub next: usize,
}

impl Segment {
    pub open spec fn agrees(&self, v: SegmentV) -> bool {
        &&& self.header == v.header
        &&& self.root == v.root
        &&& self.memory@ == v.memory
        &&& self.digest@ == v.digest
        &&& self.next as int == v.next
    }
}

pub(crate) fn read_i32(input: &[u8], pos: usize) -> (r: Option<i32>)
    ensures
        r is Some <==> pos + 4 <= input@.len(),
        r matches Some(v) ==> v == crate::reader::be_int(bytes_at(input@, pos as int, 4)) as i32,
{
    match read_be_signed(input, pos, 4) {
        None => None,
        Some(v) => {
            proof {
                let b = bytes_at(input@, pos as int, 4);
                crate::reader::lemma_be_uint_bound(b);
                crate::reader::lemma_pow256_values();
            }
            Some(v as i32)
        },
    }
}

/// Reads the header of the segment at `pos`.
pub fn header(input: &[u8], pos: usize) -> (r: Result<(SegmentHeader, usize), E>)
    requires
        pos <= input@.len(),
    ensures
        match header_of(input@, pos as int) {
            Ok((h, p)) => r matches Ok((h2, p2)) && h2 == h && p2 as int == p,
            Err(f) => r matches Err(e) && e.reports(f),
        },
{
    let n = input.len();
    let stop = match read_i32(input, pos) {
        None => return E::err(ErrorKind::ShortRead, n - pos),
        Some(v) => v,
    };
    if n - pos < 8 {
        return E::err(ErrorKind::ShortRead, n - (pos + 4));
    }
    let magic_ok = input[pos + 4] == 0x84 && input[pos + 5] == 0x95 && input[pos + 6] == 0xA6
        && input[pos + 7] == 0xBE;
    assert(magic_ok <==> bytes_at(input@, pos + 4, 4) == segment_magic()) by {
        let b = bytes_at(input@, pos + 4, 4);
        if magic_ok {
            assert(b =~= segment_magic());
        }
        if b == segment_magic() {
            assert(b[0] == input@[pos + 4]);
            assert(b[1] == input@[pos + 5]);
            assert(b[2] == input@[pos + 6]);
            assert(b[3] == input@[pos + 7]);
        }
    }
    if !magic_ok {
        return E::err(ErrorKind::BadMagic, n - (pos + 4));
    }
    if n - pos < 24 {
        let whole: usize = (n - (pos + 8)) / 4;
        return E::err(ErrorKind::ShortRead, n - (pos + 8 + 4 * whole));
    }
    let length = read_i32(input, pos + 8).unwrap();
    let objects = read_i32(input, pos + 12).unwrap();
    let size32 = read_i32(input, pos + 16).unwrap();
    let size64 = read_i32(input, pos + 20).unwrap();
    Ok((SegmentHeader { stop, length, objects, size32, size64 }, pos + 24))
}

/// Reads the segment at `pos`, and checks that its body holds as many objects as
/// the header declares, takes as many bytes, and ends at the stop offset.
pub fn segment(input: &[u8], pos: usize) -> (r: Result<Segment, E>)
    requires
        pos <= input@.len(),
    ensures
        match segment_of(input@, pos as int) {
            Ok(v) => r matches Ok(sg) && sg.agrees(v) && sg.memory@.wf(),
            Err(f) => r matches Err(e) && e.reports(f),
        },
        r matches Ok(sg) ==> pos < sg.next <= input@.len() && sg.header.stop >= 0 && sg.next == sg.header.stop + 16,
{
    let n = input.len();
    let (h, body) = match header(input, pos) {
        Err(e) => return Err(e),
        Ok(x) => x,
    };
    let room = n - body;
    let cap: usize = if h.size64 < 0 {
        0
    } else if (h.size64 as usize) < room {
        h.size64 as usize
    } else {
        room
    };
    let mut memory = Memory::with_capacity(cap);
    let (root, q) = match fill(input, body, &mut memory) {
        Err(e) => return Err(e),
        Ok(x) => x,
    };
    if h.size64 < 0 || memory.len() != h.size64 as usize {
        return Err(E::fail(ErrorKind::SizeMismatch, n - q, size_message(h.size64, memory.len())));
    }
    if h.length < 0 || q - body != h.length as usize {
        return Err(E::fail(ErrorKind::LengthMismatch, n - q, length_message(h.length, q - body)));
    }
    if h.stop < 0 || q != h.stop as usize {
        return Err(E::fail(ErrorKind::StopMismatch, n - q, stop_message(h.stop, q)));
    }
    if n - q < 16 {
        return E::err(ErrorKind::ShortRead, n - q);
    }
    let digest = DigestBytes::new(slice_subrange(input, q, q + 16));
    assert(input@.subrange(q as int, q + 16).subrange(0, 16) =~= bytes_at(input@, q as int, 16));
    Ok(Segment { header: h, root, memory, digest, next: q + 16 })
}

} // verus!
