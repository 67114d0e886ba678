use vstd::prelude::*;

use crate::error::{ErrorKind, Fault, E};
use crate::memory::{
    lemma_backfill_wf, lemma_extended_refl, lemma_extended_refs, lemma_extended_trans, lemma_push_wf,
    lemma_reserve_wf, Cell, CellV, Data, MemV, Memory,
};
use crate::repr::{decode, fault_at, lemma_decode_advances, parse_object, Repr, ReprV};

verus! {

/// Reads one object at `pos` into memory `m`: the reference to it, the offset after
/// it, and the memory that results.
#[verifier::opaque]
pub open spec fn fill_obj(s: Seq<u8>, pos: int, m: MemV) -> Result<(Data, int, MemV), Fault>
    decreases s.len() - pos, 0int, 0nat,
{
    match decode(s, pos) {
        Err(f) => Err(f),
        Ok((r, p)) => if p <= pos || p > s.len() {
            Err(fault_at(s, pos, ErrorKind::ShortRead))
        } else {
            match r {
                ReprV::Int(n) => Ok((Data::Int(n), p, m)),
                ReprV::Str(b) => Ok((Data::Ptr(m.len() as usize), p, m.push(CellV::Str(b), p as usize))),
                ReprV::Int63(n) => Ok((Data::Ptr(m.len() as usize), p, m.push(CellV::Int63(n), p as usize))),
                ReprV::Block(t, l) => if l == 0 {
                    Ok((Data::Atm(t), p, m))
                } else {
                    match fill_children(s, p, m.reserve(), l as nat, Seq::empty()) {
                        Err(f) => Err(f),
                        Ok((kids, q, m2)) => Ok(
                            (Data::Ptr(m.len() as usize), q, m2.backfill(m.len() as int, CellV::Struct(t, kids), q as usize)),
                        ),
                    }
                },
                ReprV::Pointer(k) => match m.point_back(k) {
                    Err(kind) => Err(fault_at(s, p, kind)),
                    Ok(d) => Ok((d, p, m)),
                },
                ReprV::Code(_) => Err(fault_at(s, p, ErrorKind::CodePointer)),
            }
        },
    }
}

/// Reads `n` more children at `pos`, after the children `kids` already read.
pub open spec fn fill_children(s: Seq<u8>, pos: int, m: MemV, n: nat, kids: Seq<Data>) -> Result<
    (Seq<Data>, int, MemV),
    Fault,
>
    decreases s.len() - pos, 1int, n,
{
    if n == 0 {
        Ok((kids, pos, m))
    } else {
        match fill_obj(s, pos, m) {
            Err(f) => Err(f),
            Ok((d, q, m1)) => if q <= pos || q > s.len() {
                Err(fault_at(s, pos, ErrorKind::ShortRead))
            } else {
                fill_children(s, q, m1, (n - 1) as nat, kids.push(d))
            },
        }
    }
}

pub proof fn lemma_children_done(s: Seq<u8>, pos: int, m: MemV, kids: Seq<Data>)
    ensures
        fill_children(s, pos, m, 0, kids) == Ok::<(Seq<Data>, int, MemV), Fault>((kids, pos, m)),
{
}

pub proof fn lemma_children_step(s: Seq<u8>, pos: int, m: MemV, n: nat, kids: Seq<Data>)
    requires
        n > 0,
    ensures
        fill_children(s, pos, m, n, kids) == match fill_obj(s, pos, m) {
            Err(f) => Err(f),
            Ok((d, q, m1)) => if q <= pos || q > s.len() {
                Err(fault_at(s, pos, ErrorKind::ShortRead))
            } else {
                fill_children(s, q, m1, (n - 1) as nat, kids.push(d))
            },
        },
{
    reveal(fill_obj);
    match fill_obj(s, pos, m) {
        Err(f) => {
            assert(fill_children(s, pos, m, n, kids) == Err::<(Seq<Data>, int, MemV), Fault>(f));
        },
        Ok((d, q, m1)) => {
            if q <= pos || q > s.len() {
                assert(fill_children(s, pos, m, n, kids) == Err::<(Seq<Data>, int, MemV), Fault>(fault_at(s, pos, ErrorKind::ShortRead)));
            } else {
                assert(fill_children(s, pos, m, n, kids) == fill_children(s, q, m1, (n - 1) as nat, kids.push(d)));
            }
        },
    }
}

pub proof fn lemma_backfill_extends(m0: MemV, m: MemV, c: CellV, end: usize)
    requires
        m0.wf(),
        m.wf(),
        m0.reserve().extended_by(m),
    ensures
        m0.extended_by(m.backfill(m0.len() as int, c, end)),
{
    let m1 = m0.reserve();
    let mf = m.backfill(m0.len() as int, c, end);
    assert forall|a: int| 0 <= a < m0.cells.len() implies #[trigger] mf.cells[a] == m0.cells[a]
        && mf.rank[a] == m0.rank[a] by {
        assert(m1.cells[a] == m0.cells[a]);
        assert(m.cells[a] == m1.cells[a]);
    }
}

/// Reading an object keeps memory well formed: it only adds cells, and every block
/// it completes refers to cells completed before it.
pub proof fn lemma_fill_wf(s: Seq<u8>, pos: int, m: MemV)
    requires
        m.wf(),
        m.len() <= pos,
        s.len() <= usize::MAX,
    ensures
        fill_obj(s, pos, m) matches Ok((d, q, m2)) ==> {
            &&& m2.wf()
            &&& m.extended_by(m2)
            &&& m2.valid_ref(d)
            &&& m2.len() <= q
            &&& pos < q <= s.len()
        },
    decreases s.len() - pos, 0int, 0nat,
{
    reveal(fill_obj);
    lemma_decode_advances(s, pos);
    lemma_extended_refl(m);
    if let Ok((r, p)) = decode(s, pos) {
        if pos < p <= s.len() {
            match r {
                ReprV::Str(b) => {
                    lemma_push_wf(m, CellV::Str(b), p as usize);
                },
                ReprV::Int63(n) => {
                    lemma_push_wf(m, CellV::Int63(n), p as usize);
                },
                ReprV::Block(t, l) => {
                    if l != 0 {
                        let m1 = m.reserve();
                        lemma_reserve_wf(m);
                        lemma_children_wf(s, p, m1, l as nat, Seq::empty());
                        if let Ok((kids, q, m2)) = fill_children(s, p, m1, l as nat, Seq::empty()) {
                            let a = m.len() as int;
                            assert(m2.cells[a] == m1.cells[a]);
                            lemma_backfill_wf(m2, a, t, kids, q as usize);
                            lemma_backfill_extends(m, m2, CellV::Struct(t, kids), q as usize);
                        }
                    }
                },
                _ => {},
            }
        }
    }
}

/// Reading children keeps memory well formed, and every child read refers to a
/// completed cell.
pub proof fn lemma_children_wf(s: Seq<u8>, pos: int, m: MemV, n: nat, kids: Seq<Data>)
    requires
        m.wf(),
        m.len() <= pos <= s.len(),
        s.len() <= usize::MAX,
        forall|i: int| 0 <= i < kids.len() ==> m.valid_ref(#[trigger] kids[i]),
    ensures
        fill_children(s, pos, m, n, kids) matches Ok((kids2, q, m2)) ==> {
            &&& m2.wf()
            &&& m.extended_by(m2)
            &&& forall|i: int| 0 <= i < kids2.len() ==> m2.valid_ref(#[trigger] kids2[i])
            &&& m2.len() <= q
            &&& pos <= q <= s.len()
        },
    decreases s.len() - pos, 1int, n,
{
    lemma_extended_refl(m);
    if n > 0 {
        lemma_children_step(s, pos, m, n, kids);
        lemma_fill_wf(s, pos, m);
        if let Ok((d, q, m1)) = fill_obj(s, pos, m) {
            if pos < q <= s.len() {
                let k2 = kids.push(d);
                assert forall|i: int| 0 <= i < k2.len() implies m1.valid_ref(#[trigger] k2[i]) by {
                    if i < kids.len() {
                        lemma_extended_refs(m, m1, kids[i], 0);
                    }
                }
                lemma_children_wf(s, q, m1, (n - 1) as nat, k2);
                if let Ok((_, _, m2)) = fill_children(s, q, m1, (n - 1) as nat, k2) {
                    lemma_extended_trans(m, m1, m2);
                }
            }
        }
    }
}

/// Reads one object at `pos` into `memory`, following the graph of blocks depth
/// first, left to right.
pub fn fill(input: &[u8], pos: usize, memory: &mut Memory) -> (r: Result<(Data, usize), E>)
    requires
        pos <= input@.len(),
        old(memory)@.wf(),
        old(memory)@.len() + (input@.len() - pos) <= usize::MAX,
    ensures
        match fill_obj(input@, pos as int, old(memory)@) {
            Ok((d, q, m)) => r matches Ok((d2, q2)) && d2 == d && q2 as int == q && final(memory)@ == m,
            Err(f) => r matches Err(e) && e.reports(f),
        },
        r matches Ok((d, q)) ==> {
            &&& pos < q <= input@.len()
            &&& final(memory)@.wf()
            &&& final(memory)@.len() + (input@.len() - q) <= old(memory)@.len() + (input@.len() - pos)
            &&& old(memory)@.extended_by(final(memory)@)
            &&& final(memory)@.valid_ref(d)
        },
        r is Err && !(decode(input@, pos as int) matches Ok((ReprV::Block(_, l), _)) && l != 0)
            ==> final(memory)@ == old(memory)@,
    decreases input@.len() - pos,
{
    let ghost m0 = memory@;
    let ghost s = input@;
    proof {
        lemma_decode_advances(s, pos as int);
        reveal(fill_obj);
    }
    let (rep, p) = match parse_object(input, pos) {
        Err(e) => return Err(e),
        Ok(x) => x,
    };
    match rep {
        Repr::Int(n) => Ok((Data::Int(n), p)),
        Repr::Str(b) => {
            let a = memory.len();
            memory.push(Cell::Str(b), p);
            Ok((Data::Ptr(a), p))
        },
        Repr::Int63(n) => {
            let a = memory.len();
            memory.push(Cell::Int63(n), p);
            Ok((Data::Ptr(a), p))
        },
        Repr::Block(t, l) => {
            if l == 0 {
                return Ok((Data::Atm(t), p));
            }
            let a = memory.reserve_for_struct();
            let ghost m1 = memory@;
            let mut kids: Vec<Data> = Vec::new();
            let mut q: usize = p;
            let mut i: u64 = 0;
            while i < l
                invariant
                    s == input@,
                    pos < p <= q <= input@.len(),
                    i <= l,
                    a == m0.len(),
                    m1 == m0.reserve(),
                    m0 == old(memory)@,
                    m0.wf(),
                    l != 0,
                    decode(s, pos as int) == Ok::<(ReprV, int), Fault>((ReprV::Block(t, l), p as int)),
                    memory@.wf(),
                    memory@.len() + (input@.len() - q) <= m1.len() + (input@.len() - p),
                    m0.len() + (input@.len() - pos) <= usize::MAX,
                    m1.extended_by(memory@),
                    forall|j: int| 0 <= j < kids@.len() ==> memory@.valid_ref(#[trigger] kids@[j]),
                    fill_children(s, q as int, memory@, (l - i) as nat, kids@) == fill_children(
                        s,
                        p as int,
                        m1,
                        l as nat,
                        Seq::empty(),
                    ),
                decreases l - i,
            {
                let ghost mb = memory@;
                proof {
                    lemma_children_step(s, q as int, mb, (l - i) as nat, kids@);
                }
                match fill(input, q, memory) {
                    Err(e) => {
                        proof {
                            reveal(fill_obj);
                        }
                        return Err(e);
                    },
                    Ok((d, q2)) => {
                        proof {
                            assert forall|j: int| 0 <= j < kids@.len() implies memory@.valid_ref(
                                #[trigger] kids@[j],
                            ) by {
                                assert(mb.valid_ref(kids@[j]));
                                lemma_extended_refs(mb, memory@, kids@[j], 0);
                            }
                            lemma_extended_trans(m1, mb, memory@);
                        }
                        kids.push(d);
                        q = q2;
                    },
                }
                i = i + 1;
            }
            proof {
                lemma_children_done(s, q as int, memory@, kids@);
                assert(m1.cells[a as int] is UnderConstruction);
                assert(memory@.cells[a as int] == m1.cells[a as int]);
            }
            let ghost mlast = memory@;
            let ghost kv = kids@;
            memory.backfill_struct2(a, t, kids, q);
            proof {
                lemma_backfill_extends(m0, mlast, CellV::Struct(t, kv), q);
                assert(memory@.live(a as int));
            }
            Ok((Data::Ptr(a), q))
        },
        Repr::Pointer(k) => match memory.point_back2(k) {
            Ok(d) => Ok((d, p)),
            Err(e) => Err(e.to_e(input.len() - p)),
        },
        Repr::Code(_) => E::err(ErrorKind::CodePointer, input.len() - p),
    }
}

} // verus!
