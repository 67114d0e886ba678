use vstd::prelude::*;

use crate::driver::{file_of, file_result, lemma_segments_end, md5_of};
use crate::error::{ErrorKind, Fault, E};
use crate::fill::{fill_obj, lemma_fill_wf};
use crate::memory::{Data, MemV};
use crate::repr::{decode, lemma_decode_advances, ReprV};
use crate::segment::{header_of, segment_of};
use crate::typed::{Fail, block_view, digest_of, dirpath_of, string_of, Projector};
use crate::types::SummaryDisk;

verus! {

/// A segment that decodes holds exactly as many objects as its header's `size64`.
pub proof fn law_density(s: Seq<u8>, pos: int)
    requires
        segment_of(s, pos) is Ok,
    ensures
        segment_of(s, pos)->Ok_0.memory.len() == segment_of(s, pos)->Ok_0.header.size64 as int,
{
}

/// A segment that decodes has a body of exactly the header's `length` bytes: from
/// the end of the 24-byte header to the 16-byte digest.
pub proof fn law_consumption(s: Seq<u8>, pos: int)
    requires
        segment_of(s, pos) is Ok,
    ensures
        segment_of(s, pos)->Ok_0.next - 16 - (pos + 24) == segment_of(s, pos)->Ok_0.header.length as int,
{
}

/// A segment that decodes ends its body at the header's stop offset.
pub proof fn law_stop(s: Seq<u8>, pos: int)
    requires
        segment_of(s, pos) is Ok,
    ensures
        segment_of(s, pos)->Ok_0.next - 16 == segment_of(s, pos)->Ok_0.header.stop as int,
{
}

/// The reference reached from `d` by following the children at the indices of `path`.
pub open spec fn resolve(m: MemV, d: Data, path: Seq<int>) -> Option<Data>
    decreases path.len(),
{
    if path.len() == 0 {
        Some(d)
    } else {
        match block_view(m, d) {
            Some((_, kids)) => if 0 <= path[0] < kids.len() {
                resolve(m, kids[path[0]], path.drop_first())
            } else {
                None
            },
            None => None,
        }
    }
}

/// A projector hands out, for each address and type, the one value it holds there,
/// and that value is the projection of the address: so the ends of two paths from
/// a root that meet at one address receive one and the same value.
pub proof fn law_sharing(p: Projector, m: MemV, root: Data, path1: Seq<int>, path2: Seq<int>, a: usize)
    requires
        p.inv(m),
        resolve(m, root, path1) == Some(Data::Ptr(a)),
        resolve(m, root, path2) == Some(Data::Ptr(a)),
    ensures
        p.string_cached(a as int) matches Some(v) ==> {
            &&& string_of(m, resolve(m, root, path1)->Some_0) == Ok::<Seq<char>, Fail>(v@)
            &&& string_of(m, resolve(m, root, path2)->Some_0) == Ok::<Seq<char>, Fail>(v@)
        },
        p.path_cached(a as int) matches Some(v) ==> {
            &&& dirpath_of(m, resolve(m, root, path1)->Some_0) == Ok::<Seq<Seq<char>>, Fail>(v@)
            &&& dirpath_of(m, resolve(m, root, path2)->Some_0) == Ok::<Seq<Seq<char>>, Fail>(v@)
        },
        p.digest_cached(a as int) matches Some(v) ==> {
            &&& digest_of(m, resolve(m, root, path1)->Some_0) == Ok::<Seq<u8>, Fail>(v@)
            &&& digest_of(m, resolve(m, root, path2)->Some_0) == Ok::<Seq<u8>, Fail>(v@)
        },
{
    p.lemma_cached(m, a as int);
}

/// A file that decodes ends with the MD5 digest of everything before its last 16
/// bytes.
pub proof fn law_checksum(s: Seq<u8>)
    requires
        file_of(s) is Ok,
    ensures
        s.len() >= 16,
        md5_of(s.take(s.len() - 16)) == s.subrange(s.len() - 16, s.len() as int),
{
    let next = crate::driver::summary_segment_of(s, 4)->Ok_0.3;
    lemma_segments_end(s, next);
}

/// A back-pointer whose offset is zero, reaches past the objects read so far, or
/// leads to a block still under construction makes the object that holds it fail;
/// since a failing child fails its block, its segment and its file, no accepted
/// input holds such a pointer.
pub proof fn law_pointer_strict(s: Seq<u8>, pos: int, m: MemV, k: usize)
    requires
        decode(s, pos) matches Ok((r, _)) && r == ReprV::Pointer(k),
        k == 0 || k > m.len() || m.cells[m.len() - k] is UnderConstruction,
    ensures
        fill_obj(s, pos, m) is Err,
        fill_obj(s, pos, m)->Err_0.kind == (if k == 0 || k > m.len() {
            ErrorKind::PointerOutOfRange
        } else {
            ErrorKind::PointerUnderConstruction
        }),
{
    reveal(fill_obj);
    lemma_decode_advances(s, pos);
}

/// In a segment that decodes, every block refers only to cells that were complete
/// before it: no back-pointer leads forward, to itself, or to a block under
/// construction, so the graph is acyclic.
pub proof fn law_accepted_pointers(s: Seq<u8>, pos: int)
    requires
        0 <= pos,
        s.len() <= usize::MAX,
        segment_of(s, pos) is Ok,
    ensures
        segment_of(s, pos)->Ok_0.memory.wf(),
{
    let body = header_of(s, pos)->Ok_0.1;
    lemma_fill_wf(s, body, MemV::empty());
}

/// Two errors that report the same failure have the same kind and the same frames.
pub proof fn lemma_reports_same(e1: E, e2: E, f: Fault)
    requires
        e1.reports(f),
        e2.reports(f),
    ensures
        same_report(e1, e2),
{
    assert forall|i: int| 0 <= i < e1.stuff@.len() implies #[trigger] e1.stuff@[i].0 == e2.stuff@[i].0
        && e1.stuff@[i].1@ == e2.stuff@[i].1@ by {
        assert(e1.stuff@[i].0 as int == f.frames[i].0);
        assert(e2.stuff@[i].0 as int == f.frames[i].0);
    }
}

/// The same kind, and the same `(bytes remaining, message)` frames in the same order.
pub open spec fn same_report(e1: E, e2: E) -> bool {
    &&& e1.kind == e2.kind
    &&& e1.stuff@.len() == e2.stuff@.len()
    &&& forall|i: int|
        0 <= i < e1.stuff@.len() ==> #[trigger] e1.stuff@[i].0 == e2.stuff@[i].0 && e1.stuff@[i].1@
            == e2.stuff@[i].1@
}

/// Decoding the same bytes twice gives the same summary, or the same error: the
/// same kind and the same frames.
#[verifier::spinoff_prover]
pub proof fn law_deterministic(s: Seq<u8>, r1: Result<SummaryDisk, E>, r2: Result<SummaryDisk, E>)
    requires
        file_result(s, r1),
        file_result(s, r2),
    ensures
        r1 is Ok <==> r2 is Ok,
        r1 is Ok ==> r1->Ok_0@ == r2->Ok_0@,
        r1 is Err ==> same_report(r1->Err_0, r2->Err_0),
{
    let res = file_of(s);
    if res is Err {
        lemma_reports_same(r1->Err_0, r2->Err_0, res->Err_0);
    }
}

} // verus!
