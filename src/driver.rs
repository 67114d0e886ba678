use vstd::prelude::*;
use vstd::slice::slice_subrange;

use crate::error::{fault, message_of, ErrorKind, Fault, E};
use crate::repr::{fault_at, read_int};
use crate::segment::{read_i32, segment, segment_of, SegmentV, VO_MAGIC};
use crate::typed::{summary_of, Projector};
use crate::types::{DigestBytes, SummaryDisk, SummaryV};

verus! {

/// The MD5 digest of a byte string.
pub uninterp spec fn md5_of(b: Seq<u8>) -> Seq<u8>;

/// Relies on `md5::Md5` of the md-5 crate, through `digest::Digest::digest`: the
/// MD5 digest of the bytes, which is 16 bytes long.
#[verifier::external_body]
fn md5(i: &[u8]) -> (r: Vec<u8>)
    ensures
        r@ == md5_of(i@),
        r@.len() == 16,
{
    <md5::Md5 as md5::Digest>::digest(i).to_vec()
}

/// The segment at `pos` read as a summary: the summary, the segment's stop offset,
/// its digest, and the offset that follows it.
pub open spec fn summary_segment_of(s: Seq<u8>, pos: int) -> Result<(SummaryV, int, Seq<u8>, int), Fault> {
    match segment_of(s, pos) {
        Err(f) => Err(f),
        Ok(v) => match summary_of(v.memory, v.root) {
            Err((k, c)) => Err(fault(k, typed_at(s, v, c), message_of(k))),
            Ok(x) => Ok((x, v.header.stop as int, v.digest, v.next)),
        },
    }
}

/// Where a failure of the typed layer found in cell `c` is reported, in bytes
/// from the end: just after that cell, or after the body when no cell is named.
pub open spec fn typed_at(s: Seq<u8>, v: SegmentV, c: Option<usize>) -> int {
    let end: int = match c {
        Some(a) => if a < v.memory.len() {
            v.memory.ends[a as int] as int
        } else {
            v.next - 16
        },
        None => v.next - 16,
    };
    if end <= s.len() {
        s.len() - end
    } else {
        0
    }
}

/// The segments from `pos` on, up to the last 16 bytes: the offset at which those
/// bytes start.
pub open spec fn segments_from(s: Seq<u8>, pos: int) -> Result<int, Fault>
    decreases s.len() - pos,
{
    if pos < 0 || pos > s.len() {
        Err(fault_at(s, pos, ErrorKind::ShortRead))
    } else if s.len() - pos == 16 {
        Ok(pos)
    } else {
        match segment_of(s, pos) {
            Err(f) => Err(f.context(s.len() - pos, "in a segment"@)),
            Ok(v) => if v.next <= pos || v.next > s.len() {
                Err(fault_at(s, pos, ErrorKind::ShortRead))
            } else {
                segments_from(s, v.next)
            },
        }
    }
}

/// A whole file: the magic number, the summary segment, the segments that follow,
/// and the MD5 checksum of everything before it.
pub open spec fn file_of(s: Seq<u8>) -> Result<SummaryV, Fault> {
    match read_int(s, 0, 4) {
        Err(f) => Err(f),
        Ok((magic, p)) => if magic != VO_MAGIC as int {
            Err(fault_at(s, p, ErrorKind::BadMagic))
        } else {
            match summary_segment_of(s, p) {
                Err(f) => Err(f.context(s.len() - p, "in the summary segment"@)),
                Ok((x, _, _, next)) => match segments_from(s, next) {
                    Err(f) => Err(f),
                    Ok(c) => if md5_of(s.take(c)) == s.subrange(c, s.len() as int) {
                        Ok(x)
                    } else {
                        Err(fault_at(s, c, ErrorKind::ChecksumMismatch))
                    },
                },
            }
        },
    }
}

pub proof fn lemma_segments_end(s: Seq<u8>, pos: int)
    ensures
        segments_from(s, pos) matches Ok(c) ==> c == s.len() - 16 && pos <= c,
    decreases s.len() - pos,
{
    if 0 <= pos <= s.len() && s.len() - pos != 16 {
        if let Ok(v) = segment_of(s, pos) {
            if pos < v.next <= s.len() {
                lemma_segments_end(s, v.next);
            }
        }
    }
}

/// Reads the segment at `pos` and projects its root as a summary.
pub fn summary_segment(input: &[u8], pos: usize) -> (r: Result<(SummaryDisk, usize, DigestBytes, usize), E>)
    requires
        pos <= input@.len(),
    ensures
        match summary_segment_of(input@, pos as int) {
            Ok((x, stop, dg, next)) => r matches Ok((y, st, g, nx)) && y@ == x && st as int == stop
                && g@ == dg && nx as int == next,
            Err(f) => r matches Err(e) && e.reports(f),
        },
        r matches Ok((_, _, _, nx)) ==> pos < nx <= input@.len(),
{
    let sg = match segment(input, pos) {
        Err(e) => return Err(e),
        Ok(sg) => sg,
    };
    let mut projector = Projector::new(&sg.memory);
    match projector.summary_at(&sg.memory, sg.root) {
        Err(e) => {
            let n = input.len();
            let end: usize = match e.cell {
                Some(a) => if a < sg.memory.len() {
                    sg.memory.end_of(a)
                } else {
                    sg.next - 16
                },
                None => sg.next - 16,
            };
            let at: usize = if end <= n {
                n - end
            } else {
                0
            };
            Err(e.to_e(at))
        },
        Ok(x) => Ok((x, sg.header.stop as usize, sg.digest, sg.next)),
    }
}

/// Checks the 16 bytes at the end of `input` against the digest `computed`.
pub fn check_checksum(input: &[u8], computed: &[u8]) -> (r: Result<(), E>)
    requires
        input@.len() >= 16,
    ensures
        r is Ok <==> computed@ == input@.subrange(input@.len() - 16, input@.len() as int),
        r matches Err(e) ==> e.reports(fault_at(input@, input@.len() - 16, ErrorKind::ChecksumMismatch)),
{
    let n = input.len();
    let tail = slice_subrange(input, n - 16, n);
    let mut same = computed.len() == 16;
    if same {
        let mut i: usize = 0;
        assert(computed@.subrange(0, 0) =~= tail@.subrange(0, 0));
        while i < 16
            invariant
                tail@.len() == 16,
                computed@.len() == 16,
                i <= 16,
                same == (computed@.subrange(0, i as int) == tail@.subrange(0, i as int)),
            decreases 16 - i,
        {
            proof {
                let a = computed@.subrange(0, i + 1);
                let b = tail@.subrange(0, i + 1);
                assert(a.drop_last() =~= computed@.subrange(0, i as int));
                assert(b.drop_last() =~= tail@.subrange(0, i as int));
                if a == b {
                    assert(a.last() == b.last());
                }
                if computed@.subrange(0, i as int) == tail@.subrange(0, i as int) && computed@[i as int]
                    == tail@[i as int] {
                    assert(a =~= b);
                }
            }
            same = same && computed[i] == tail[i];
            i = i + 1;
        }
        assert(computed@.subrange(0, 16) =~= computed@);
        assert(tail@.subrange(0, 16) =~= tail@);
    }
    if same {
        Ok(())
    } else {
        E::err(ErrorKind::ChecksumMismatch, 16)
    }
}

/// `r` is what decoding the file `s` gives: its summary, or an error that reports
/// the failure.
pub open spec fn file_result(s: Seq<u8>, r: Result<SummaryDisk, E>) -> bool {
    match file_of(s) {
        Ok(v) => r matches Ok(x) && x@ == v,
        Err(f) => r matches Err(e) && e.reports(f),
    }
}

/// Decodes a whole compiled library file into its summary, checking every segment
/// and the checksum at its end.
pub fn file(input: &[u8]) -> (r: Result<SummaryDisk, E>)
    ensures
        file_result(input@, r),
{
    let n = input.len();
    let magic = match read_i32(input, 0) {
        None => return E::err(ErrorKind::ShortRead, n),
        Some(v) => v,
    };
    proof {
        crate::reader::lemma_be_uint_bound(crate::reader::bytes_at(input@, 0, 4));
        crate::reader::lemma_pow256_values();
    }
    if magic != VO_MAGIC {
        return E::err(ErrorKind::BadMagic, n - 4);
    }
    let (summary, _stop, _digest, first) = match summary_segment(input, 4) {
        Err(e) => {
            let mut e = e;
            e.context(n - 4, "in the summary segment");
            return Err(e);
        },
        Ok(x) => x,
    };
    let mut pos = first;
    while n - pos != 16
        invariant
            first <= pos <= n,
            n == input@.len(),
            read_int(input@, 0, 4) == Ok::<(int, int), Fault>((VO_MAGIC as int, 4)),
            summary_segment_of(input@, 4) matches Ok((x, _, _, nx)) && nx == first as int && x == summary@,
            segments_from(input@, pos as int) == segments_from(input@, first as int),
        decreases n - pos,
    {
        match segment(input, pos) {
            Err(e) => {
                let mut e = e;
                e.context(n - pos, "in a segment");
                return Err(e);
            },
            Ok(sg) => {
                pos = sg.next;
            },
        }
    }
    let computed = md5(slice_subrange(input, 0, pos));
    assert(input@.subrange(0, pos as int) =~= input@.take(pos as int));
    match check_checksum(input, computed.as_slice()) {
        Err(e) => Err(e),
        Ok(()) => Ok(summary),
    }
}

} // verus!
