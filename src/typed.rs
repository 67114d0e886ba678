use vstd::prelude::*;
use vstd::utf8::{decode_utf8, valid_utf8};

use std::rc::Rc;

use crate::error::{message_of, ErrorKind, SemanticError};
use crate::text::{append_list, list_text};
use crate::memory::{Cell, CellV, Data, MemV, Memory};
use crate::types::{
    dep_view, deps_view, paths_view, Dependency, DigestBytes, DirPath, SummaryDisk, SummaryV,
};

verus! {

/// How deep a reference reaches: one more than the rank of the cell it leads to.
pub open spec fn measure(m: MemV, d: Data) -> nat {
    match d {
        Data::Ptr(a) => if a < m.len() {
            m.rank[a as int] + 1
        } else {
            0
        },
        _ => 0,
    }
}

/// The tag and children of the block that `d` stands for; a zero-arity block has
/// no children.
pub open spec fn block_view(m: MemV, d: Data) -> Option<(u8, Seq<Data>)> {
    match d {
        Data::Atm(t) => Some((t, Seq::empty())),
        Data::Ptr(a) => if a < m.len() {
            match m.cells[a as int] {
                CellV::Struct(t, kids) => Some((t, kids)),
                _ => None,
            }
        } else {
            None
        },
        Data::Int(_) => None,
    }
}

/// A failure found by a projection: its kind, and the address of the innermost
/// cell it was found in, if any.
pub type Fail = (ErrorKind, Option<usize>);

/// The address that `d` leads to, if it is a pointer.
pub open spec fn cell_of(d: Data) -> Option<usize> {
    match d {
        Data::Ptr(a) => Some(a),
        _ => None,
    }
}

/// A failure found below `d` that names no cell is found in the cell of `d`.
pub open spec fn inside<V>(d: Data, r: Result<V, Fail>) -> Result<V, Fail> {
    match r {
        Err((k, None)) => Err((k, cell_of(d))),
        _ => r,
    }
}

/// The children of a record of `n` fields: a block of tag zero with `n` children.
pub open spec fn record_of(m: MemV, d: Data, n: nat) -> Result<Seq<Data>, Fail> {
    match block_view(m, d) {
        Some((t, kids)) => if t == 0 && kids.len() == n {
            Ok(kids)
        } else {
            Err((ErrorKind::Shape, cell_of(d)))
        },
        None => Err((ErrorKind::Shape, cell_of(d))),
    }
}

/// The elements of a homogeneous sequence: a block of tag zero.
pub open spec fn seq_of(m: MemV, d: Data) -> Result<Seq<Data>, Fail> {
    match block_view(m, d) {
        Some((t, kids)) => if t == 0 {
            Ok(kids)
        } else {
            Err((ErrorKind::Shape, cell_of(d)))
        },
        None => Err((ErrorKind::Shape, cell_of(d))),
    }
}

/// The bytes of the string cell that `d` leads to.
pub open spec fn str_bytes_of(m: MemV, d: Data) -> Result<Seq<u8>, Fail> {
    match d {
        Data::Ptr(a) => if a < m.len() {
            match m.cells[a as int] {
                CellV::Str(b) => Ok(b),
                _ => Err((ErrorKind::Shape, cell_of(d))),
            }
        } else {
            Err((ErrorKind::Shape, cell_of(d)))
        },
        _ => Err((ErrorKind::Shape, cell_of(d))),
    }
}

/// The text of a string cell that holds UTF-8.
pub open spec fn string_of(m: MemV, d: Data) -> Result<Seq<char>, Fail> {
    match str_bytes_of(m, d) {
        Ok(b) => if valid_utf8(b) {
            Ok(decode_utf8(b))
        } else {
            Err((ErrorKind::BadString, cell_of(d)))
        },
        Err(k) => Err(k),
    }
}

/// The value of a 63-bit custom integer cell.
pub open spec fn int63_of(m: MemV, d: Data) -> Result<u64, Fail> {
    match d {
        Data::Ptr(a) => if a < m.len() {
            match m.cells[a as int] {
                CellV::Int63(n) => Ok(n),
                _ => Err((ErrorKind::Shape, cell_of(d))),
            }
        } else {
            Err((ErrorKind::Shape, cell_of(d)))
        },
        _ => Err((ErrorKind::Shape, cell_of(d))),
    }
}

/// The value of an immediate integer.
pub open spec fn int_of(d: Data) -> Result<i64, Fail> {
    match d {
        Data::Int(n) => Ok(n),
        _ => Err((ErrorKind::Shape, cell_of(d))),
    }
}

/// A digest: a record of one string of exactly 16 bytes.
pub open spec fn digest_of(m: MemV, d: Data) -> Result<Seq<u8>, Fail> {
    inside(d, match record_of(m, d, 1) {
        Ok(kids) => match str_bytes_of(m, kids[0]) {
            Ok(b) => if b.len() == 16 {
                Ok(b)
            } else {
                Err((ErrorKind::BadString, cell_of(kids[0])))
            },
            Err(k) => Err(k),
        },
        Err(k) => Err(k),
    })
}

/// A path: the integer zero for the empty path, or a record of a segment and the
/// rest of the path, whose segment comes last.
pub open spec fn dirpath_of(m: MemV, d: Data) -> Result<Seq<Seq<char>>, Fail>
    decreases measure(m, d),
{
    if d == Data::Int(0) {
        Ok(Seq::empty())
    } else {
        inside(d, match record_of(m, d, 2) {
            Err(k) => Err(k),
            Ok(kids) => match string_of(m, kids[0]) {
                Err(k) => Err(k),
                Ok(h) => if measure(m, kids[1]) < measure(m, d) {
                    match dirpath_of(m, kids[1]) {
                        Err(k) => Err(k),
                        Ok(t) => Ok(t.push(h)),
                    }
                } else {
                    Err((ErrorKind::Shape, cell_of(d)))
                },
            },
        })
    }
}

/// Every element through `f`, in order; the first failure wins.
pub open spec fn list_of<T>(kids: Seq<Data>, f: spec_fn(Data) -> Result<T, Fail>) -> Result<
    Seq<T>,
    Fail,
>
    decreases kids.len(),
{
    if kids.len() == 0 {
        Ok(Seq::empty())
    } else {
        match list_of(kids.drop_last(), f) {
            Err(k) => Err(k),
            Ok(v) => match f(kids.last()) {
                Err(k) => Err(k),
                Ok(x) => Ok(v.push(x)),
            },
        }
    }
}

pub open spec fn path_fn(m: MemV) -> spec_fn(Data) -> Result<Seq<Seq<char>>, Fail> {
    |k: Data| dirpath_of(m, k)
}

/// A sequence of paths.
pub open spec fn dirpaths_of(m: MemV, d: Data) -> Result<Seq<Seq<Seq<char>>>, Fail> {
    inside(d, match seq_of(m, d) {
        Ok(kids) => list_of(kids, path_fn(m)),
        Err(k) => Err(k),
    })
}

/// A dependency: a record of a path and a digest.
pub open spec fn dep_of(m: MemV, d: Data) -> Result<(Seq<Seq<char>>, Seq<u8>), Fail> {
    inside(d, match record_of(m, d, 2) {
        Err(k) => Err(k),
        Ok(kids) => match dirpath_of(m, kids[0]) {
            Err(k) => Err(k),
            Ok(p) => match digest_of(m, kids[1]) {
                Err(k) => Err(k),
                Ok(g) => Ok((p, g)),
            },
        },
    })
}

pub open spec fn dep_fn(m: MemV) -> spec_fn(Data) -> Result<(Seq<Seq<char>>, Seq<u8>), Fail> {
    |k: Data| dep_of(m, k)
}

/// A sequence of dependencies.
pub open spec fn deps_of(m: MemV, d: Data) -> Result<Seq<(Seq<Seq<char>>, Seq<u8>)>, Fail> {
    inside(d, match seq_of(m, d) {
        Ok(kids) => list_of(kids, dep_fn(m)),
        Err(k) => Err(k),
    })
}

/// The summary: a record of the library's path, its imports and its dependencies.
pub open spec fn summary_of(m: MemV, d: Data) -> Result<SummaryV, Fail> {
    inside(d, match record_of(m, d, 3) {
        Err(k) => Err(k),
        Ok(kids) => match dirpath_of(m, kids[0]) {
            Err(k) => Err(k),
            Ok(name) => match dirpaths_of(m, kids[1]) {
                Err(k) => Err(k),
                Ok(imports) => match deps_of(m, kids[2]) {
                    Err(k) => Err(k),
                    Ok(deps) => Ok(SummaryV { name, imports, deps }),
                },
            },
        },
    })
}

pub proof fn lemma_list_prefix_err<T>(kids: Seq<Data>, f: spec_fn(Data) -> Result<T, Fail>, i: int)
    requires
        0 <= i <= kids.len(),
        list_of(kids.take(i), f) is Err,
    ensures
        list_of(kids, f) == list_of(kids.take(i), f),
    decreases kids.len(),
{
    if i < kids.len() {
        assert(kids.drop_last().take(i) =~= kids.take(i));
        lemma_list_prefix_err(kids.drop_last(), f, i);
    } else {
        assert(kids.take(i) =~= kids);
    }
}

pub proof fn lemma_list_step<T>(kids: Seq<Data>, f: spec_fn(Data) -> Result<T, Fail>, i: int)
    requires
        0 <= i < kids.len(),
    ensures
        list_of(kids.take(i + 1), f) == match list_of(kids.take(i), f) {
            Err(k) => Err(k),
            Ok(v) => match f(kids[i]) {
                Err(k) => Err(k),
                Ok(x) => Ok(v.push(x)),
            },
        },
{
    assert(kids.take(i + 1).drop_last() =~= kids.take(i));
}

/// In a well-formed memory, the children of a block reach less deep than the block.
pub proof fn lemma_children_measure(m: MemV, d: Data, i: int)
    requires
        m.wf(),
        block_view(m, d) matches Some((t, kids)) && 0 <= i < kids.len(),
    ensures
        measure(m, block_view(m, d)->Some_0.1[i]) < measure(m, d),
{
    if let Data::Ptr(a) = d {
        assert(m.below(m.cells[a as int]->Struct_1[i], m.rank[a as int]));
    }
}

/// Relies on `String::from_utf8` from std: it accepts exactly the byte strings that
/// are valid UTF-8, and decodes them.
#[verifier::external_body]
fn utf8_string(b: Vec<u8>) -> (r: Option<String>)
    ensures
        r is Some <==> valid_utf8(b@),
        r matches Some(s) ==> s@ == decode_utf8(b@),
{
    String::from_utf8(b).ok()
}

/// The text of `string` if it is UTF-8, else its bytes written out.
pub fn as_string(string: &[u8]) -> (r: String)
    ensures
        valid_utf8(string@) ==> r@ == decode_utf8(string@),
        !valid_utf8(string@) ==> r@ == list_text(string@),
{
    let mut bytes: Vec<u8> = Vec::with_capacity(string.len());
    let mut i: usize = 0;
    while i < string.len()
        invariant
            i <= string@.len(),
            bytes@ =~= string@.subrange(0, i as int),
        decreases string@.len() - i,
    {
        bytes.push(string[i]);
        i = i + 1;
    }
    assert(bytes@ =~= string@);
    match utf8_string(bytes) {
        Some(s) => s,
        None => {
            let mut s = String::new();
            append_list(&mut s, string);
            assert(s@ =~= list_text(string@));
            s
        },
    }
}

/// Takes the value out of a shared cell, or copies it when it is still shared.
pub fn unshare<T: Clone>(rc: Rc<T>) -> (r: T)
    ensures
        cloned::<T>(*rc, r),
{
    match Rc::try_unwrap(rc) {
        Ok(item) => item,
        Err(rc) => (*rc).clone(),
    }
}

/// Projected values by address, for one target type.
pub struct Cache<T> {
    slots: Vec<Option<Rc<T>>>,
}

impl<T> Cache<T> {
    pub closed spec fn slots(&self) -> Seq<Option<Rc<T>>> {
        self.slots@
    }

    /// A cache for `n` addresses, all empty.
    pub fn new(n: usize) -> (c: Cache<T>)
        ensures
            c.slots().len() == n,
            forall|a: int| 0 <= a < n ==> #[trigger] c.slots()[a] is None,
    {
        let mut slots: Vec<Option<Rc<T>>> = Vec::with_capacity(n);
        let mut i: usize = 0;
        while i < n
            invariant
                i <= n,
                slots@.len() == i,
                forall|a: int| 0 <= a < i ==> #[trigger] slots@[a] is None,
            decreases n - i,
        {
            slots.push(None);
            i = i + 1;
        }
        Cache { slots }
    }

    /// The value held at address `a`, shared.
    pub fn get(&self, a: usize) -> (r: Option<Rc<T>>)
        requires
            a < self.slots().len(),
        ensures
            r == self.slots()[a as int],
    {
        match &self.slots[a] {
            Some(v) => Some(Rc::clone(v)),
            None => None,
        }
    }

    /// Holds `v` at address `a`, unless a value is held there already; returns the
    /// value held.
    pub fn keep(&mut self, a: usize, v: Rc<T>) -> (r: Rc<T>)
        requires
            a < old(self).slots().len(),
        ensures
            match old(self).slots()[a as int] {
                Some(w) => r == w && final(self).slots() == old(self).slots(),
                None => r == v && final(self).slots() == old(self).slots().update(a as int, Some(v)),
            },
    {
        match self.get(a) {
            Some(w) => w,
            None => {
                self.slots.set(a, Some(Rc::clone(&v)));
                v
            },
        }
    }
}

/// The value held at `a`, if any.
pub open spec fn slot<T>(c: Seq<Option<Rc<T>>>, a: int) -> Option<Rc<T>> {
    if 0 <= a < c.len() {
        c[a]
    } else {
        None
    }
}

/// Every value held in `c` is still held, unchanged, in `d`.
pub open spec fn keeps_cache<T>(c: Seq<Option<Rc<T>>>, d: Seq<Option<Rc<T>>>) -> bool {
    &&& c.len() == d.len()
    &&& forall|a: int| 0 <= a < c.len() && c[a] is Some ==> #[trigger] d[a] == c[a]
}

/// Every value that the cache holds is what `f` gives at its address.
pub open spec fn cache_ok<T, V>(
    c: Seq<Option<Rc<T>>>,
    m: MemV,
    f: spec_fn(Data) -> Result<V, Fail>,
    view: spec_fn(Rc<T>) -> V,
) -> bool {
    &&& c.len() == m.len()
    &&& forall|a: int|
        0 <= a < c.len() && #[trigger] c[a] is Some ==> f(Data::Ptr(a as usize)) == Ok::<V, Fail>(
            view(c[a]->Some_0),
        )
}

/// The result of a projection agrees with its model: the same value, or an error of
/// the same kind.
pub open spec fn projects<T, V>(r: Result<T, SemanticError>, s: Result<V, Fail>, view: spec_fn(T) -> V) -> bool {
    match s {
        Ok(v) => r matches Ok(x) && view(x) == v,
        Err((k, c)) => r matches Err(e) && e.kind == k && e.msg@ == message_of(k) && e.cell == c,
    }
}

pub open spec fn string_fn(m: MemV) -> spec_fn(Data) -> Result<Seq<char>, Fail> {
    |k: Data| string_of(m, k)
}

pub open spec fn digest_fn(m: MemV) -> spec_fn(Data) -> Result<Seq<u8>, Fail> {
    |k: Data| digest_of(m, k)
}

pub open spec fn paths_fn(m: MemV) -> spec_fn(Data) -> Result<Seq<Seq<Seq<char>>>, Fail> {
    |k: Data| dirpaths_of(m, k)
}

pub open spec fn deps_fn(m: MemV) -> spec_fn(Data) -> Result<Seq<(Seq<Seq<char>>, Seq<u8>)>, Fail> {
    |k: Data| deps_of(m, k)
}

pub open spec fn string_view() -> spec_fn(Rc<String>) -> Seq<char> {
    |s: Rc<String>| s@
}

pub open spec fn digest_view() -> spec_fn(Rc<DigestBytes>) -> Seq<u8> {
    |g: Rc<DigestBytes>| g@
}

pub open spec fn path_view() -> spec_fn(Rc<DirPath>) -> Seq<Seq<char>> {
    |p: Rc<DirPath>| p@
}

pub open spec fn path_list_view() -> spec_fn(Rc<Vec<Rc<DirPath>>>) -> Seq<Seq<Seq<char>>> {
    |v: Rc<Vec<Rc<DirPath>>>| paths_view(v@)
}

pub open spec fn dep_rc_view() -> spec_fn(Rc<Dependency>) -> (Seq<Seq<char>>, Seq<u8>) {
    |d: Rc<Dependency>| dep_view(*d)
}

pub open spec fn dep_list_view() -> spec_fn(Rc<Vec<Dependency>>) -> Seq<(Seq<Seq<char>>, Seq<u8>)> {
    |v: Rc<Vec<Dependency>>| deps_view(v@)
}

pub proof fn lemma_cache_get<T, V>(
    c: Seq<Option<Rc<T>>>,
    m: MemV,
    f: spec_fn(Data) -> Result<V, Fail>,
    view: spec_fn(Rc<T>) -> V,
    a: int,
)
    requires
        cache_ok(c, m, f, view),
        0 <= a < c.len(),
        c[a] is Some,
    ensures
        f(Data::Ptr(a as usize)) == Ok::<V, Fail>(view(c[a]->Some_0)),
{
}

pub proof fn lemma_cache_put<T, V>(
    c: Seq<Option<Rc<T>>>,
    m: MemV,
    f: spec_fn(Data) -> Result<V, Fail>,
    view: spec_fn(Rc<T>) -> V,
    a: int,
    v: Rc<T>,
)
    requires
        cache_ok(c, m, f, view),
        0 <= a < c.len(),
        f(Data::Ptr(a as usize)) == Ok::<V, Fail>(view(v)),
    ensures
        cache_ok(c.update(a, Some(v)), m, f, view),
{
    let c2 = c.update(a, Some(v));
    assert forall|b: int| 0 <= b < c2.len() && #[trigger] c2[b] is Some implies f(
        Data::Ptr(b as usize),
    ) == Ok::<V, Fail>(view(c2[b]->Some_0)) by {
        if b != a {
            assert(c[b] is Some);
        }
    }
}

fn copy_data(v: &Vec<Data>) -> (r: Vec<Data>)
    ensures
        r@ == v@,
{
    let mut out: Vec<Data> = Vec::with_capacity(v.len());
    let mut i: usize = 0;
    while i < v.len()
        invariant
            i <= v@.len(),
            out@ =~= v@.subrange(0, i as int),
        decreases v@.len() - i,
    {
        out.push(v[i]);
        i = i + 1;
    }
    assert(out@ =~= v@);
    out
}

fn copy_bytes(v: &Vec<u8>) -> (r: Vec<u8>)
    ensures
        r@ == v@,
{
    let mut out: Vec<u8> = Vec::with_capacity(v.len());
    let mut i: usize = 0;
    while i < v.len()
        invariant
            i <= v@.len(),
            out@ =~= v@.subrange(0, i as int),
        decreases v@.len() - i,
    {
        out.push(v[i]);
        i = i + 1;
    }
    assert(out@ =~= v@);
    out
}

/// The tag and children of the block that `d` stands for.
pub fn block_children(memory: &Memory, d: Data) -> (r: Option<(u8, Vec<Data>)>)
    ensures
        match block_view(memory@, d) {
            Some((t, kids)) => r matches Some((t2, v)) && t2 == t && v@ == kids,
            None => r is None,
        },
{
    match d {
        Data::Atm(t) => {
            let v: Vec<Data> = Vec::new();
            assert(v@ =~= Seq::<Data>::empty());
            Some((t, v))
        },
        Data::Ptr(a) => {
            if a < memory.len() {
                match memory.get(a) {
                    Cell::Struct(t, kids) => Some((*t, copy_data(kids))),
                    _ => None,
                }
            } else {
                None
            }
        },
        Data::Int(_) => None,
    }
}

/// Fails with a failure of kind `kind` found at `d`.
fn fail_here<T>(kind: ErrorKind, d: Data) -> (r: Result<T, SemanticError>)
    ensures
        r matches Err(e) && e.kind == kind && e.msg@ == message_of(kind) && e.cell == cell_of(d),
{
    let mut e = SemanticError::of(kind);
    if let Data::Ptr(a) = d {
        e.cell = Some(a);
    }
    Err(e)
}

/// A failure found below `d` that names no cell is placed in the cell of `d`.
fn inside_err(e: SemanticError, d: Data) -> (r: SemanticError)
    ensures
        r.kind == e.kind,
        r.msg@ == e.msg@,
        r.cell == (if e.cell is None {
            cell_of(d)
        } else {
            e.cell
        }),
{
    let mut e = e;
    if e.cell.is_none() {
        if let Data::Ptr(a) = d {
            e.cell = Some(a);
        }
    }
    e
}

/// The children of a record of `n` fields.
pub fn record_children(memory: &Memory, d: Data, n: usize) -> (r: Result<Vec<Data>, SemanticError>)
    ensures
        projects(r, record_of(memory@, d, n as nat), |v: Vec<Data>| v@),
{
    match block_children(memory, d) {
        Some((t, kids)) => if t == 0 && kids.len() == n {
            Ok(kids)
        } else {
            fail_here(ErrorKind::Shape, d)
        },
        None => fail_here(ErrorKind::Shape, d),
    }
}

/// The elements of a homogeneous sequence.
pub fn seq_children(memory: &Memory, d: Data) -> (r: Result<Vec<Data>, SemanticError>)
    ensures
        projects(r, seq_of(memory@, d), |v: Vec<Data>| v@),
{
    match block_children(memory, d) {
        Some((t, kids)) => if t == 0 {
            Ok(kids)
        } else {
            fail_here(ErrorKind::Shape, d)
        },
        None => fail_here(ErrorKind::Shape, d),
    }
}

/// A copy of the bytes of the string cell that `d` leads to.
pub fn str_bytes(memory: &Memory, d: Data) -> (r: Result<Vec<u8>, SemanticError>)
    ensures
        projects(r, str_bytes_of(memory@, d), |v: Vec<u8>| v@),
{
    match d {
        Data::Ptr(a) => {
            if a < memory.len() {
                match memory.get(a) {
                    Cell::Str(b) => Ok(copy_bytes(b)),
                    _ => fail_here(ErrorKind::Shape, d),
                }
            } else {
                fail_here(ErrorKind::Shape, d)
            }
        },
        _ => fail_here(ErrorKind::Shape, d),
    }
}

/// The value of a 63-bit custom integer cell.
pub fn int63_at(memory: &Memory, d: Data) -> (r: Result<u64, SemanticError>)
    ensures
        projects(r, int63_of(memory@, d), |n: u64| n),
{
    match d {
        Data::Ptr(a) => {
            if a < memory.len() {
                match memory.get(a) {
                    Cell::Int63(n) => Ok(*n),
                    _ => fail_here(ErrorKind::Shape, d),
                }
            } else {
                fail_here(ErrorKind::Shape, d)
            }
        },
        _ => fail_here(ErrorKind::Shape, d),
    }
}

/// The value of an immediate integer.
pub fn int_at(d: Data) -> (r: Result<i64, SemanticError>)
    ensures
        projects(r, int_of(d), |n: i64| n),
{
    match d {
        Data::Int(n) => Ok(n),
        _ => fail_here(ErrorKind::Shape, d),
    }
}

/// Turns cells of memory into typed values, each at most once per address and type.
pub struct Projector {
    strings: Cache<String>,
    digests: Cache<DigestBytes>,
    paths: Cache<DirPath>,
    path_lists: Cache<Vec<Rc<DirPath>>>,
    deps: Cache<Dependency>,
    dep_lists: Cache<Vec<Dependency>>,
}

impl Projector {
    /// Every value held stands for the cell at its address.
    pub closed spec fn inv(&self, m: MemV) -> bool {
        &&& cache_ok(self.strings.slots(), m, string_fn(m), string_view())
        &&& cache_ok(self.digests.slots(), m, digest_fn(m), digest_view())
        &&& cache_ok(self.paths.slots(), m, path_fn(m), path_view())
        &&& cache_ok(self.path_lists.slots(), m, paths_fn(m), path_list_view())
        &&& cache_ok(self.deps.slots(), m, dep_fn(m), dep_rc_view())
        &&& cache_ok(self.dep_lists.slots(), m, deps_fn(m), dep_list_view())
    }

    /// No value held by `self` is dropped or replaced in `newer`.
    pub closed spec fn keeps(&self, newer: &Projector) -> bool {
        &&& keeps_cache(self.strings.slots(), newer.strings.slots())
        &&& keeps_cache(self.digests.slots(), newer.digests.slots())
        &&& keeps_cache(self.paths.slots(), newer.paths.slots())
        &&& keeps_cache(self.path_lists.slots(), newer.path_lists.slots())
        &&& keeps_cache(self.deps.slots(), newer.deps.slots())
        &&& keeps_cache(self.dep_lists.slots(), newer.dep_lists.slots())
    }

    /// The string held for address `a`.
    pub closed spec fn string_cached(&self, a: int) -> Option<Rc<String>> {
        slot(self.strings.slots(), a)
    }

    /// The digest held for address `a`.
    pub closed spec fn digest_cached(&self, a: int) -> Option<Rc<DigestBytes>> {
        slot(self.digests.slots(), a)
    }

    /// The path held for address `a`.
    pub closed spec fn path_cached(&self, a: int) -> Option<Rc<DirPath>> {
        slot(self.paths.slots(), a)
    }

    /// The sequence of paths held for address `a`.
    pub closed spec fn paths_cached(&self, a: int) -> Option<Rc<Vec<Rc<DirPath>>>> {
        slot(self.path_lists.slots(), a)
    }

    /// The dependency held for address `a`.
    pub closed spec fn dep_cached(&self, a: int) -> Option<Rc<Dependency>> {
        slot(self.deps.slots(), a)
    }

    /// The sequence of dependencies held for address `a`.
    pub closed spec fn deps_cached(&self, a: int) -> Option<Rc<Vec<Dependency>>> {
        slot(self.dep_lists.slots(), a)
    }

    /// What the projector holds for an address is that address's projection.
    pub proof fn lemma_cached(&self, m: MemV, a: int)
        requires
            self.inv(m),
        ensures
            self.string_cached(a) matches Some(v) ==> string_of(m, Data::Ptr(a as usize)) == Ok::<Seq<char>, Fail>(v@),
            self.digest_cached(a) matches Some(v) ==> digest_of(m, Data::Ptr(a as usize)) == Ok::<Seq<u8>, Fail>(v@),
            self.path_cached(a) matches Some(v) ==> dirpath_of(m, Data::Ptr(a as usize)) == Ok::<Seq<Seq<char>>, Fail>(v@),
            self.paths_cached(a) matches Some(v) ==> dirpaths_of(m, Data::Ptr(a as usize)) == Ok::<Seq<Seq<Seq<char>>>, Fail>(paths_view(v@)),
            self.dep_cached(a) matches Some(v) ==> dep_of(m, Data::Ptr(a as usize)) == Ok::<(Seq<Seq<char>>, Seq<u8>), Fail>(dep_view(*v)),
            self.deps_cached(a) matches Some(v) ==> deps_of(m, Data::Ptr(a as usize)) == Ok::<Seq<(Seq<Seq<char>>, Seq<u8>)>, Fail>(deps_view(v@)),
    {
        if 0 <= a < m.len() {
            if self.strings.slots()[a] is Some {
                lemma_cache_get(self.strings.slots(), m, string_fn(m), string_view(), a);
            }
            if self.digests.slots()[a] is Some {
                lemma_cache_get(self.digests.slots(), m, digest_fn(m), digest_view(), a);
            }
            if self.paths.slots()[a] is Some {
                lemma_cache_get(self.paths.slots(), m, path_fn(m), path_view(), a);
            }
            if self.path_lists.slots()[a] is Some {
                lemma_cache_get(self.path_lists.slots(), m, paths_fn(m), path_list_view(), a);
            }
            if self.deps.slots()[a] is Some {
                lemma_cache_get(self.deps.slots(), m, dep_fn(m), dep_rc_view(), a);
            }
            if self.dep_lists.slots()[a] is Some {
                lemma_cache_get(self.dep_lists.slots(), m, deps_fn(m), dep_list_view(), a);
            }
        }
    }

    /// A projector with nothing cached yet.
    pub fn new(memory: &Memory) -> (p: Projector)
        ensures
            p.inv(memory@),
    {
        let n = memory.len();
        Projector {
            strings: Cache::new(n),
            digests: Cache::new(n),
            paths: Cache::new(n),
            path_lists: Cache::new(n),
            deps: Cache::new(n),
            dep_lists: Cache::new(n),
        }
    }
    /// The text of the string cell that `d` leads to.
    pub fn string_at(&mut self, memory: &Memory, d: Data) -> (r: Result<Rc<String>, SemanticError>)
        requires
            old(self).inv(memory@),
        ensures
            final(self).inv(memory@),
            old(self).keeps(&*final(self)),
            d matches Data::Ptr(a) ==> (old(self).string_cached(a as int) is Some ==> r == Ok::<Rc<String>, SemanticError>(
                old(self).string_cached(a as int)->Some_0,
            )),
            d matches Data::Ptr(a) ==> (r matches Ok(x) ==> final(self).string_cached(a as int) == Some(x)),
            projects(r, string_of(memory@, d), string_view()),
    {
        let ghost m = memory@;
        if let Data::Ptr(a) = d {
            if a < memory.len() {
                if let Some(v) = self.strings.get(a) {
                    proof {
                        lemma_cache_get(self.strings.slots(), m, string_fn(m), string_view(), a as int);
                    }
                    return Ok(v);
                }
            }
        }
        let bytes = match str_bytes(memory, d) {
            Ok(b) => b,
            Err(e) => return Err(e),
        };
        match utf8_string(bytes) {
            None => fail_here(ErrorKind::BadString, d),
            Some(s) => {
                let r = Rc::new(s);
                if let Data::Ptr(a) = d {
                    let ghost before = self.strings.slots();
                    proof {
                        if before[a as int] is Some {
                            lemma_cache_get(before, m, string_fn(m), string_view(), a as int);
                        } else {
                            lemma_cache_put(before, m, string_fn(m), string_view(), a as int, r);
                        }
                    }
                    let kept = self.strings.keep(a, r);
                    return Ok(kept);
                }
                Ok(r)
            },
        }
    }

    /// The digest that `d` stands for.
    pub fn digest_at(&mut self, memory: &Memory, d: Data) -> (r: Result<Rc<DigestBytes>, SemanticError>)
        requires
            old(self).inv(memory@),
        ensures
            final(self).inv(memory@),
            old(self).keeps(&*final(self)),
            d matches Data::Ptr(a) ==> (old(self).digest_cached(a as int) is Some ==> r == Ok::<Rc<DigestBytes>, SemanticError>(
                old(self).digest_cached(a as int)->Some_0,
            )),
            d matches Data::Ptr(a) ==> (r matches Ok(x) ==> final(self).digest_cached(a as int) == Some(x)),
            projects(r, digest_of(memory@, d), digest_view()),
    {
        let ghost m = memory@;
        if let Data::Ptr(a) = d {
            if a < memory.len() {
                if let Some(v) = self.digests.get(a) {
                    proof {
                        lemma_cache_get(self.digests.slots(), m, digest_fn(m), digest_view(), a as int);
                    }
                    return Ok(v);
                }
            }
        }
        let kids = match record_children(memory, d, 1) {
            Ok(k) => k,
            Err(e) => return Err(inside_err(e, d)),
        };
        let bytes = match str_bytes(memory, kids[0]) {
            Ok(b) => b,
            Err(e) => return Err(inside_err(e, d)),
        };
        if bytes.len() != 16 {
            return fail_here(ErrorKind::BadString, kids[0]);
        }
        let g = DigestBytes::new(bytes.as_slice());
        assert(bytes@.subrange(0, 16) =~= bytes@);
        let r = Rc::new(g);
        if let Data::Ptr(a) = d {
            let ghost before = self.digests.slots();
            proof {
                if before[a as int] is Some {
                    lemma_cache_get(before, m, digest_fn(m), digest_view(), a as int);
                } else {
                    lemma_cache_put(before, m, digest_fn(m), digest_view(), a as int, r);
                }
            }
            let kept = self.digests.keep(a, r);
            return Ok(kept);
        }
        Ok(r)
    }

    /// The path that `d` stands for.
    pub fn dirpath_at(&mut self, memory: &Memory, d: Data) -> (r: Result<Rc<DirPath>, SemanticError>)
        requires
            old(self).inv(memory@),
            memory@.wf(),
        ensures
            final(self).inv(memory@),
            old(self).keeps(&*final(self)),
            d matches Data::Ptr(a) ==> (old(self).path_cached(a as int) is Some ==> r == Ok::<Rc<DirPath>, SemanticError>(
                old(self).path_cached(a as int)->Some_0,
            )),
            d matches Data::Ptr(a) ==> (r matches Ok(x) ==> final(self).path_cached(a as int) == Some(x)),
            projects(r, dirpath_of(memory@, d), path_view()),
        decreases measure(memory@, d),
    {
        let ghost m = memory@;
        if let Data::Int(0) = d {
            let r = Rc::new(DirPath::empty());
            return Ok(r);
        }
        if let Data::Ptr(a) = d {
            if a < memory.len() {
                if let Some(v) = self.paths.get(a) {
                    proof {
                        lemma_cache_get(self.paths.slots(), m, path_fn(m), path_view(), a as int);
                    }
                    return Ok(v);
                }
            }
        }
        let kids = match record_children(memory, d, 2) {
            Ok(k) => k,
            Err(e) => return Err(inside_err(e, d)),
        };
        let h = match self.string_at(memory, kids[0]) {
            Ok(h) => h,
            Err(e) => return Err(inside_err(e, d)),
        };
        proof {
            lemma_children_measure(m, d, 1);
        }
        let t = match self.dirpath_at(memory, kids[1]) {
            Ok(t) => t,
            Err(e) => return Err(inside_err(e, d)),
        };
        let r = Rc::new(t.concat(h));
        if let Data::Ptr(a) = d {
            let ghost before = self.paths.slots();
            proof {
                if before[a as int] is Some {
                    lemma_cache_get(before, m, path_fn(m), path_view(), a as int);
                } else {
                    lemma_cache_put(before, m, path_fn(m), path_view(), a as int, r);
                }
            }
            let kept = self.paths.keep(a, r);
            return Ok(kept);
        }
        Ok(r)
    }

    /// The sequence of paths that `d` stands for.
    pub fn dirpaths_at(&mut self, memory: &Memory, d: Data) -> (r: Result<Rc<Vec<Rc<DirPath>>>, SemanticError>)
        requires
            old(self).inv(memory@),
            memory@.wf(),
        ensures
            final(self).inv(memory@),
            old(self).keeps(&*final(self)),
            d matches Data::Ptr(a) ==> (old(self).paths_cached(a as int) is Some ==> r == Ok::<Rc<Vec<Rc<DirPath>>>, SemanticError>(
                old(self).paths_cached(a as int)->Some_0,
            )),
            d matches Data::Ptr(a) ==> (r matches Ok(x) ==> final(self).paths_cached(a as int) == Some(x)),
            projects(r, dirpaths_of(memory@, d), path_list_view()),
    {
        let ghost m = memory@;
        if let Data::Ptr(a) = d {
            if a < memory.len() {
                if let Some(v) = self.path_lists.get(a) {
                    proof {
                        lemma_cache_get(self.path_lists.slots(), m, paths_fn(m), path_list_view(), a as int);
                    }
                    return Ok(v);
                }
            }
        }
        let kids = match seq_children(memory, d) {
            Ok(k) => k,
            Err(e) => return Err(inside_err(e, d)),
        };
        let mut out: Vec<Rc<DirPath>> = Vec::with_capacity(kids.len());
        let mut i: usize = 0;
        assert(kids@.take(0) =~= Seq::<Data>::empty());
        assert(paths_view(out@) =~= Seq::<Seq<Seq<char>>>::empty());
        while i < kids.len()
            invariant
                m == memory@,
                m.wf(),
                self.inv(m),
                old(self).keeps(&*self),
                seq_of(m, d) == Ok::<Seq<Data>, Fail>(kids@),
                i <= kids@.len(),
                list_of(kids@.take(i as int), path_fn(m)) == Ok::<Seq<Seq<Seq<char>>>, Fail>(
                    paths_view(out@),
                ),
            decreases kids@.len() - i,
        {
            proof {
                lemma_list_step(kids@, path_fn(m), i as int);
            }
            match self.dirpath_at(memory, kids[i]) {
                Err(e) => {
                    proof {
                        lemma_list_prefix_err(kids@, path_fn(m), i + 1);
                    }
                    return Err(inside_err(e, d));
                },
                Ok(p) => {
                    let ghost before = out@;
                    out.push(p);
                    assert(paths_view(out@) =~= paths_view(before).push(p@));
                },
            }
            i = i + 1;
        }
        assert(kids@.take(i as int) =~= kids@);
        let r = Rc::new(out);
        if let Data::Ptr(a) = d {
            let ghost before = self.path_lists.slots();
            proof {
                if before[a as int] is Some {
                    lemma_cache_get(before, m, paths_fn(m), path_list_view(), a as int);
                } else {
                    lemma_cache_put(before, m, paths_fn(m), path_list_view(), a as int, r);
                }
            }
            let kept = self.path_lists.keep(a, r);
            return Ok(kept);
        }
        Ok(r)
    }

    /// The dependency that `d` stands for.
    pub fn dep_at(&mut self, memory: &Memory, d: Data) -> (r: Result<Rc<Dependency>, SemanticError>)
        requires
            old(self).inv(memory@),
            memory@.wf(),
        ensures
            final(self).inv(memory@),
            old(self).keeps(&*final(self)),
            d matches Data::Ptr(a) ==> (old(self).dep_cached(a as int) is Some ==> r == Ok::<Rc<Dependency>, SemanticError>(
                old(self).dep_cached(a as int)->Some_0,
            )),
            d matches Data::Ptr(a) ==> (r matches Ok(x) ==> final(self).dep_cached(a as int) == Some(x)),
            projects(r, dep_of(memory@, d), dep_rc_view()),
    {
        let ghost m = memory@;
        if let Data::Ptr(a) = d {
            if a < memory.len() {
                if let Some(v) = self.deps.get(a) {
                    proof {
                        lemma_cache_get(self.deps.slots(), m, dep_fn(m), dep_rc_view(), a as int);
                    }
                    return Ok(v);
                }
            }
        }
        let kids = match record_children(memory, d, 2) {
            Ok(k) => k,
            Err(e) => return Err(inside_err(e, d)),
        };
        let p = match self.dirpath_at(memory, kids[0]) {
            Ok(p) => p,
            Err(e) => return Err(inside_err(e, d)),
        };
        let g = match self.digest_at(memory, kids[1]) {
            Ok(g) => g,
            Err(e) => return Err(inside_err(e, d)),
        };
        let r = Rc::new((p, g));
        if let Data::Ptr(a) = d {
            let ghost before = self.deps.slots();
            proof {
                if before[a as int] is Some {
                    lemma_cache_get(before, m, dep_fn(m), dep_rc_view(), a as int);
                } else {
                    lemma_cache_put(before, m, dep_fn(m), dep_rc_view(), a as int, r);
                }
            }
            let kept = self.deps.keep(a, r);
            return Ok(kept);
        }
        Ok(r)
    }

    /// The sequence of dependencies that `d` stands for.
    pub fn deps_at(&mut self, memory: &Memory, d: Data) -> (r: Result<Rc<Vec<Dependency>>, SemanticError>)
        requires
            old(self).inv(memory@),
            memory@.wf(),
        ensures
            final(self).inv(memory@),
            old(self).keeps(&*final(self)),
            d matches Data::Ptr(a) ==> (old(self).deps_cached(a as int) is Some ==> r == Ok::<Rc<Vec<Dependency>>, SemanticError>(
                old(self).deps_cached(a as int)->Some_0,
            )),
            d matches Data::Ptr(a) ==> (r matches Ok(x) ==> final(self).deps_cached(a as int) == Some(x)),
            projects(r, deps_of(memory@, d), dep_list_view()),
    {
        let ghost m = memory@;
        if let Data::Ptr(a) = d {
            if a < memory.len() {
                if let Some(v) = self.dep_lists.get(a) {
                    proof {
                        lemma_cache_get(self.dep_lists.slots(), m, deps_fn(m), dep_list_view(), a as int);
                    }
                    return Ok(v);
                }
            }
        }
        let kids = match seq_children(memory, d) {
            Ok(k) => k,
            Err(e) => return Err(inside_err(e, d)),
        };
        let mut out: Vec<Dependency> = Vec::with_capacity(kids.len());
        let mut i: usize = 0;
        assert(kids@.take(0) =~= Seq::<Data>::empty());
        assert(deps_view(out@) =~= Seq::<(Seq<Seq<char>>, Seq<u8>)>::empty());
        while i < kids.len()
            invariant
                m == memory@,
                m.wf(),
                self.inv(m),
                old(self).keeps(&*self),
                seq_of(m, d) == Ok::<Seq<Data>, Fail>(kids@),
                i <= kids@.len(),
                list_of(kids@.take(i as int), dep_fn(m)) == Ok::<Seq<(Seq<Seq<char>>, Seq<u8>)>, Fail>(
                    deps_view(out@),
                ),
            decreases kids@.len() - i,
        {
            proof {
                lemma_list_step(kids@, dep_fn(m), i as int);
            }
            match self.dep_at(memory, kids[i]) {
                Err(e) => {
                    proof {
                        lemma_list_prefix_err(kids@, dep_fn(m), i + 1);
                    }
                    return Err(inside_err(e, d));
                },
                Ok(x) => {
                    let ghost before = out@;
                    let item: Dependency = (Rc::clone(&x.0), Rc::clone(&x.1));
                    out.push(item);
                    assert(deps_view(out@) =~= deps_view(before).push(dep_view(*x)));
                },
            }
            i = i + 1;
        }
        assert(kids@.take(i as int) =~= kids@);
        let r = Rc::new(out);
        if let Data::Ptr(a) = d {
            let ghost before = self.dep_lists.slots();
            proof {
                if before[a as int] is Some {
                    lemma_cache_get(before, m, deps_fn(m), dep_list_view(), a as int);
                } else {
                    lemma_cache_put(before, m, deps_fn(m), dep_list_view(), a as int, r);
                }
            }
            let kept = self.dep_lists.keep(a, r);
            return Ok(kept);
        }
        Ok(r)
    }

    /// The summary that `d` stands for.
    pub fn summary_at(&mut self, memory: &Memory, d: Data) -> (r: Result<SummaryDisk, SemanticError>)
        requires
            old(self).inv(memory@),
            memory@.wf(),
        ensures
            final(self).inv(memory@),
            old(self).keeps(&*final(self)),
            projects(r, summary_of(memory@, d), |x: SummaryDisk| x@),
    {
        let kids = match record_children(memory, d, 3) {
            Ok(k) => k,
            Err(e) => return Err(inside_err(e, d)),
        };
        let name = match self.dirpath_at(memory, kids[0]) {
            Ok(p) => p,
            Err(e) => return Err(inside_err(e, d)),
        };
        let imports = match self.dirpaths_at(memory, kids[1]) {
            Ok(p) => p,
            Err(e) => return Err(inside_err(e, d)),
        };
        let deps = match self.deps_at(memory, kids[2]) {
            Ok(p) => p,
            Err(e) => return Err(inside_err(e, d)),
        };
        Ok(SummaryDisk { name, imports, deps })
    }
}

} // verus!
