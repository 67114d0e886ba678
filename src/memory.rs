use vstd::prelude::*;

use crate::error::{message_of, ErrorKind, SemanticError};

verus! {

/// An untyped reference to a value: an immediate integer, a zero-arity block, or
/// the address of a cell in memory.
#[derive(Clone, Copy, Debug, PartialEq, Eq, Structural)]
pub enum Data {
    Int(i64),
    Ptr(usize),
    Atm(u8),
}

/// A heap cell rebuilt from the stream.
#[derive(Debug)]
pub enum Cell {
    /// Reserved for a block whose children are still being read.
    UnderConstruction,
    /// A completed block: its tag and children.
    Struct(u8, Vec<Data>),
    /// A 63-bit custom integer.
    Int63(u64),
    /// A byte string.
    Str(Vec<u8>),
}

/// The mathematical value of a `Cell`.
pub enum CellV {
    UnderConstruction,
    Struct(u8, Seq<Data>),
    Int63(u64),
    Str(Seq<u8>),
}

impl View for Cell {
    type V = CellV;

    open spec fn view(&self) -> CellV {
        match self {
            Cell::UnderConstruction => CellV::UnderConstruction,
            Cell::Struct(t, kids) => CellV::Struct(*t, kids@),
            Cell::Int63(n) => CellV::Int63(*n),
            Cell::Str(b) => CellV::Str(b@),
        }
    }
}

/// The model of a memory: its cells, the stream offset at which each cell ends,
/// and for each completed cell the order in which it was completed (its rank);
/// `clock` counts the completed cells.
pub struct MemV {
    pub cells: Seq<CellV>,
    pub ends: Seq<usize>,
    pub rank: Seq<nat>,
    pub clock: nat,
}

impl MemV {
    pub open spec fn empty() -> MemV {
        MemV { cells: Seq::empty(), ends: Seq::empty(), rank: Seq::empty(), clock: 0 }
    }

    pub open spec fn len(self) -> nat {
        self.cells.len()
    }

    /// Address `c` holds a completed cell.
    pub open spec fn live(self, c: int) -> bool {
        0 <= c < self.cells.len() && !(self.cells[c] is UnderConstruction)
    }

    /// A reference that leads to a completed cell, if it leads anywhere.
    pub open spec fn valid_ref(self, d: Data) -> bool {
        d matches Data::Ptr(c) ==> self.live(c as int)
    }

    /// A reference that leads to a completed cell completed before rank `r`.
    pub open spec fn below(self, d: Data, r: nat) -> bool {
        d matches Data::Ptr(c) ==> self.live(c as int) && self.rank[c as int] < r
    }

    /// Every completed block refers only to cells completed before it; so the
    /// cells form an acyclic graph.
    pub open spec fn wf(self) -> bool {
        &&& self.rank.len() == self.cells.len()
        &&& self.ends.len() == self.cells.len()
        &&& forall|a: int| #[trigger] self.live(a) ==> self.rank[a] < self.clock
        &&& forall|a: int, i: int|
            0 <= a < self.cells.len() && self.cells[a] is Struct && 0 <= i
                < self.cells[a]->Struct_1.len() ==> self.below(
                #[trigger] self.cells[a]->Struct_1[i],
                self.rank[a],
            )
    }

    /// `m` keeps every cell of `self` as it is, and may add more.
    pub open spec fn extended_by(self, m: MemV) -> bool {
        &&& self.cells.len() <= m.cells.len()
        &&& self.clock <= m.clock
        &&& forall|a: int|
            0 <= a < self.cells.len() ==> #[trigger] m.cells[a] == self.cells[a] && m.rank[a]
                == self.rank[a]
    }

    /// Appends a completed cell that ends at `end`.
    pub open spec fn push(self, c: CellV, end: usize) -> MemV {
        MemV {
            cells: self.cells.push(c),
            ends: self.ends.push(end),
            rank: self.rank.push(self.clock),
            clock: self.clock + 1,
        }
    }

    /// Appends a cell under construction.
    pub open spec fn reserve(self) -> MemV {
        MemV {
            cells: self.cells.push(CellV::UnderConstruction),
            ends: self.ends.push(0),
            rank: self.rank.push(0),
            clock: self.clock,
        }
    }

    /// Completes the cell at `a`, which ends at `end`.
    pub open spec fn backfill(self, a: int, c: CellV, end: usize) -> MemV {
        MemV {
            cells: self.cells.update(a, c),
            ends: self.ends.update(a, end),
            rank: self.rank.update(a, self.clock),
            clock: self.clock + 1,
        }
    }

    /// Resolves a back-pointer of offset `k`: the cell `k` places before the end,
    /// which must exist and be completed.
    pub open spec fn point_back(self, k: usize) -> Result<Data, ErrorKind> {
        if k == 0 || k > self.cells.len() {
            Err(ErrorKind::PointerOutOfRange)
        } else if self.cells[self.cells.len() - k] is UnderConstruction {
            Err(ErrorKind::PointerUnderConstruction)
        } else {
            Ok(Data::Ptr((self.cells.len() - k) as usize))
        }
    }
}

pub proof fn lemma_extended_refs(m1: MemV, m2: MemV, d: Data, r: nat)
    requires
        m1.extended_by(m2),
    ensures
        m1.valid_ref(d) ==> m2.valid_ref(d),
        m1.below(d, r) ==> m2.below(d, r),
{
    if let Data::Ptr(c) = d {
        if 0 <= c < m1.cells.len() {
            assert(m2.cells[c as int] == m1.cells[c as int]);
        }
    }
}

pub proof fn lemma_extended_trans(m1: MemV, m2: MemV, m3: MemV)
    requires
        m1.extended_by(m2),
        m2.extended_by(m3),
    ensures
        m1.extended_by(m3),
{
    assert forall|a: int| 0 <= a < m1.cells.len() implies #[trigger] m3.cells[a] == m1.cells[a]
        && m3.rank[a] == m1.rank[a] by {
        assert(m2.cells[a] == m1.cells[a]);
    }
}

pub proof fn lemma_extended_refl(m: MemV)
    ensures
        m.extended_by(m),
{
}

pub proof fn lemma_push_wf(m: MemV, c: CellV, end: usize)
    requires
        m.wf(),
        c is Str || c is Int63,
    ensures
        m.push(c, end).wf(),
        m.extended_by(m.push(c, end)),
{
    let m2 = m.push(c, end);
    assert forall|a: int, i: int|
        0 <= a < m2.cells.len() && m2.cells[a] is Struct && 0 <= i < m2.cells[a]->Struct_1.len()
        implies m2.below(#[trigger] m2.cells[a]->Struct_1[i], m2.rank[a]) by {
        assert(a < m.cells.len());
        assert(m.below(m.cells[a]->Struct_1[i], m.rank[a]));
    }
    assert forall|a: int| #[trigger] m2.live(a) implies m2.rank[a] < m2.clock by {
        if a < m.cells.len() {
            assert(m.live(a));
        }
    }
}

pub proof fn lemma_reserve_wf(m: MemV)
    requires
        m.wf(),
    ensures
        m.reserve().wf(),
        m.extended_by(m.reserve()),
{
    let m2 = m.reserve();
    assert forall|a: int, i: int|
        0 <= a < m2.cells.len() && m2.cells[a] is Struct && 0 <= i < m2.cells[a]->Struct_1.len()
        implies m2.below(#[trigger] m2.cells[a]->Struct_1[i], m2.rank[a]) by {
        assert(a < m.cells.len());
        assert(m.below(m.cells[a]->Struct_1[i], m.rank[a]));
    }
    assert forall|a: int| #[trigger] m2.live(a) implies m2.rank[a] < m2.clock by {
        assert(m.live(a));
    }
}

pub proof fn lemma_backfill_wf(m: MemV, addr: int, tag: u8, kids: Seq<Data>, end: usize)
    requires
        m.wf(),
        0 <= addr < m.cells.len(),
        m.cells[addr] is UnderConstruction,
        forall|i: int| 0 <= i < kids.len() ==> m.valid_ref(#[trigger] kids[i]),
    ensures
        m.backfill(addr, CellV::Struct(tag, kids), end).wf(),
{
    let m2 = m.backfill(addr, CellV::Struct(tag, kids), end);
    assert forall|a: int| #[trigger] m2.live(a) implies m2.rank[a] < m2.clock by {
        if a != addr {
            assert(m.live(a));
        }
    }
    assert forall|a: int, i: int|
        0 <= a < m2.cells.len() && m2.cells[a] is Struct && 0 <= i < m2.cells[a]->Struct_1.len()
        implies m2.below(#[trigger] m2.cells[a]->Struct_1[i], m2.rank[a]) by {
        if a == addr {
            let d = kids[i];
            assert(m.valid_ref(d));
            if let Data::Ptr(c) = d {
                assert(m.live(c as int));
            }
        } else {
            let d = m.cells[a]->Struct_1[i];
            assert(m.below(d, m.rank[a]));
            if let Data::Ptr(c) = d {
                assert(m.live(c as int));
            }
        }
    }
}

/// The cells rebuilt from one segment, indexed by address.
pub struct Memory {
    cells: Vec<Cell>,
    ends: Vec<usize>,
    rank: Ghost<Seq<nat>>,
    clock: Ghost<nat>,
}

impl View for Memory {
    type V = MemV;

    closed spec fn view(&self) -> MemV {
        MemV {
            cells: self.cells@.map_values(|c: Cell| c@),
            ends: self.ends@,
            rank: self.rank@,
            clock: self.clock@,
        }
    }
}

impl Memory {
    /// An empty memory with room for `size` cells.
    pub fn with_capacity(size: usize) -> (m: Memory)
        ensures
            m@ == MemV::empty(),
            m@.wf(),
    {
        let m = Memory {
            cells: Vec::with_capacity(size),
            ends: Vec::with_capacity(size),
            rank: Ghost(Seq::empty()),
            clock: Ghost(0),
        };
        assert(m@.cells =~= Seq::<CellV>::empty());
        m
    }

    /// The number of addresses issued so far.
    pub fn len(&self) -> (n: usize)
        ensures
            n == self@.cells.len(),
    {
        self.cells.len()
    }

    /// The cell at address `a`.
    pub fn get(&self, a: usize) -> (c: &Cell)
        requires
            a < self@.cells.len(),
        ensures
            c@ == self@.cells[a as int],
    {
        &self.cells[a]
    }

    /// The stream offset at which the cell at `a` ends.
    pub fn end_of(&self, a: usize) -> (e: usize)
        requires
            a < self@.cells.len(),
            self@.wf(),
        ensures
            e == self@.ends[a as int],
    {
        self.ends[a]
    }

    /// Appends a completed string or integer cell that ends at stream offset `end`.
    pub fn push(&mut self, cell: Cell, end: usize)
        requires
            old(self)@.wf(),
            cell@ is Str || cell@ is Int63,
        ensures
            final(self)@ == old(self)@.push(cell@, end),
            final(self)@.wf(),
            old(self)@.extended_by(final(self)@),
    {
        let ghost old_m = self@;
        self.cells.push(cell);
        self.ends.push(end);
        self.rank = Ghost(self.rank@.push(self.clock@));
        self.clock = Ghost(self.clock@ + 1);
        assert(self@.cells =~= old_m.cells.push(cell@));
        proof {
            lemma_push_wf(old_m, cell@, end);
        }
    }

    /// Resolves a back-pointer of offset `offset`.
    pub fn point_back2(&self, offset: usize) -> (r: Result<Data, SemanticError>)
        ensures
            match self@.point_back(offset) {
                Ok(d) => r == Ok::<Data, SemanticError>(d),
                Err(k) => r matches Err(e) && e.kind == k && e.msg@ == message_of(k),
            },
    {
        let n = self.cells.len();
        if offset == 0 || offset > n {
            return Err(SemanticError::of(ErrorKind::PointerOutOfRange));
        }
        let index = n - offset;
        match &self.cells[index] {
            Cell::UnderConstruction => Err(SemanticError::of(ErrorKind::PointerUnderConstruction)),
            _ => Ok(Data::Ptr(index)),
        }
    }

    /// Reserves the next address for a block whose children are still to come.
    pub fn reserve_for_struct(&mut self) -> (a: usize)
        requires
            old(self)@.wf(),
        ensures
            a == old(self)@.cells.len(),
            final(self)@ == old(self)@.reserve(),
            final(self)@.wf(),
            old(self)@.extended_by(final(self)@),
    {
        let ghost old_m = self@;
        self.cells.push(Cell::UnderConstruction);
        self.ends.push(0);
        self.rank = Ghost(self.rank@.push(0));
        assert(self@.cells =~= old_m.cells.push(CellV::UnderConstruction));
        proof {
            lemma_reserve_wf(old_m);
        }
        self.cells.len() - 1
    }

    /// Completes the reserved cell at `addr` with a block whose children all refer
    /// to completed cells, and which ends at stream offset `end`.
    pub fn backfill_struct2(&mut self, addr: usize, tag: u8, children: Vec<Data>, end: usize)
        requires
            old(self)@.wf(),
            addr < old(self)@.cells.len(),
            old(self)@.cells[addr as int] is UnderConstruction,
            forall|i: int| 0 <= i < children@.len() ==> old(self)@.valid_ref(#[trigger] children@[i]),
        ensures
            final(self)@ == old(self)@.backfill(addr as int, CellV::Struct(tag, children@), end),
            final(self)@.wf(),
    {
        let ghost old_m = self@;
        let ghost kids = children@;
        self.cells.set(addr, Cell::Struct(tag, children));
        self.ends.set(addr, end);
        self.rank = Ghost(self.rank@.update(addr as int, self.clock@));
        self.clock = Ghost(self.clock@ + 1);
        assert(self@.cells =~= old_m.cells.update(addr as int, CellV::Struct(tag, kids)));
        proof {
            lemma_backfill_wf(old_m, addr as int, tag, kids, end);
        }
    }
}

} // verus!
