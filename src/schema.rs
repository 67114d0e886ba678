use vstd::prelude::*;

use std::rc::Rc;

use crate::error::{message_of, ErrorKind, SemanticError};
use crate::memory::{Data, MemV, Memory};
use crate::typed::{
    Fail,
    slot, str_bytes, str_bytes_of, Cache,
    digest_of, dirpath_of, lemma_list_prefix_err, lemma_list_step, list_of, record_children, record_of,
    seq_children, seq_of, string_of, summary_of, Projector,
};
use crate::types::{DigestBytes, DirPath, SummaryDisk, SummaryV};

verus! {

/// A type whose values are projected from cells of memory, under a shape that
/// says which cells stand for which values.
pub trait FromCell: Sized {
    /// The mathematical value of `Self`.
    type Model;

    /// The value that `d` stands for, or the kind of error found.
    spec fn shape(m: MemV, d: Data) -> Result<Self::Model, Fail>;

    /// The model of a value.
    spec fn model(v: &Self) -> Self::Model;

    /// Projects `d`.
    fn from_cell(p: &mut Projector, memory: &Memory, d: Data) -> (r: Result<Rc<Self>, SemanticError>)
        requires
            old(p).inv(memory@),
            memory@.wf(),
        ensures
            final(p).inv(memory@),
            match Self::shape(memory@, d) {
                Ok(v) => r matches Ok(x) && Self::model(&*x) == v,
                Err((k, c)) => r matches Err(e) && e.kind == k && e.msg@ == message_of(k) && e.cell == c,
            },
    ;
}

impl FromCell for String {
    type Model = Seq<char>;

    open spec fn shape(m: MemV, d: Data) -> Result<Seq<char>, Fail> {
        string_of(m, d)
    }

    open spec fn model(v: &String) -> Seq<char> {
        v@
    }

    fn from_cell(p: &mut Projector, memory: &Memory, d: Data) -> (r: Result<Rc<String>, SemanticError>) {
        p.string_at(memory, d)
    }
}

impl FromCell for DigestBytes {
    type Model = Seq<u8>;

    open spec fn shape(m: MemV, d: Data) -> Result<Seq<u8>, Fail> {
        digest_of(m, d)
    }

    open spec fn model(v: &DigestBytes) -> Seq<u8> {
        v@
    }

    fn from_cell(p: &mut Projector, memory: &Memory, d: Data) -> (r: Result<Rc<DigestBytes>, SemanticError>) {
        p.digest_at(memory, d)
    }
}

impl FromCell for DirPath {
    type Model = Seq<Seq<char>>;

    open spec fn shape(m: MemV, d: Data) -> Result<Seq<Seq<char>>, Fail> {
        dirpath_of(m, d)
    }

    open spec fn model(v: &DirPath) -> Seq<Seq<char>> {
        v@
    }

    fn from_cell(p: &mut Projector, memory: &Memory, d: Data) -> (r: Result<Rc<DirPath>, SemanticError>) {
        p.dirpath_at(memory, d)
    }
}

impl FromCell for SummaryDisk {
    type Model = SummaryV;

    open spec fn shape(m: MemV, d: Data) -> Result<SummaryV, Fail> {
        summary_of(m, d)
    }

    open spec fn model(v: &SummaryDisk) -> SummaryV {
        v@
    }

    fn from_cell(p: &mut Projector, memory: &Memory, d: Data) -> (r: Result<Rc<SummaryDisk>, SemanticError>) {
        match p.summary_at(memory, d) {
            Ok(s) => Ok(Rc::new(s)),
            Err(e) => Err(e),
        }
    }
}

/// A pair: a record of two fields.
pub open spec fn pair_shape<A: FromCell, B: FromCell>(m: MemV, d: Data) -> Result<(A::Model, B::Model), Fail> {
    match record_of(m, d, 2) {
        Err(k) => Err(k),
        Ok(kids) => match A::shape(m, kids[0]) {
            Err(k) => Err(k),
            Ok(a) => match B::shape(m, kids[1]) {
                Err(k) => Err(k),
                Ok(b) => Ok((a, b)),
            },
        },
    }
}

/// Projects a record of two fields, each through its own type.
pub fn tuple2<A: FromCell, B: FromCell>(p: &mut Projector, memory: &Memory, d: Data) -> (r: Result<
    (Rc<A>, Rc<B>),
    SemanticError,
>)
    requires
        old(p).inv(memory@),
        memory@.wf(),
    ensures
        final(p).inv(memory@),
        match pair_shape::<A, B>(memory@, d) {
            Ok((a, b)) => r matches Ok((x, y)) && A::model(&*x) == a && B::model(&*y) == b,
            Err((k, c)) => r matches Err(e) && e.kind == k && e.msg@ == message_of(k) && e.cell == c,
        },
{
    let kids = match record_children(memory, d, 2) {
        Ok(k) => k,
        Err(e) => return Err(e),
    };
    let a = match A::from_cell(p, memory, kids[0]) {
        Ok(a) => a,
        Err(e) => return Err(e),
    };
    let b = match B::from_cell(p, memory, kids[1]) {
        Ok(b) => b,
        Err(e) => return Err(e),
    };
    Ok((a, b))
}

/// A record of one field, seen through that field.
pub open spec fn wrapped_shape<A: FromCell>(m: MemV, d: Data) -> Result<A::Model, Fail> {
    match record_of(m, d, 1) {
        Err(k) => Err(k),
        Ok(kids) => A::shape(m, kids[0]),
    }
}

/// Projects a record of one field as that field.
pub fn wrapped<A: FromCell>(p: &mut Projector, memory: &Memory, d: Data) -> (r: Result<Rc<A>, SemanticError>)
    requires
        old(p).inv(memory@),
        memory@.wf(),
    ensures
        final(p).inv(memory@),
        match wrapped_shape::<A>(memory@, d) {
            Ok(a) => r matches Ok(x) && A::model(&*x) == a,
            Err((k, c)) => r matches Err(e) && e.kind == k && e.msg@ == message_of(k) && e.cell == c,
        },
{
    let kids = match record_children(memory, d, 1) {
        Ok(k) => k,
        Err(e) => return Err(e),
    };
    A::from_cell(p, memory, kids[0])
}

/// The integer zero for an absent value, anything else for a present one.
pub open spec fn nullable_shape<A: FromCell>(m: MemV, d: Data) -> Result<Option<A::Model>, Fail> {
    if d == Data::Int(0) {
        Ok(None)
    } else {
        match A::shape(m, d) {
            Err(k) => Err(k),
            Ok(a) => Ok(Some(a)),
        }
    }
}

/// Projects a value that may be absent, written as the integer zero.
pub fn nullable<A: FromCell>(p: &mut Projector, memory: &Memory, d: Data) -> (r: Result<Option<Rc<A>>, SemanticError>)
    requires
        old(p).inv(memory@),
        memory@.wf(),
    ensures
        final(p).inv(memory@),
        match nullable_shape::<A>(memory@, d) {
            Ok(None) => r matches Ok(None),
            Ok(Some(a)) => r matches Ok(Some(x)) && A::model(&*x) == a,
            Err((k, c)) => r matches Err(e) && e.kind == k && e.msg@ == message_of(k) && e.cell == c,
        },
{
    if let Data::Int(0) = d {
        return Ok(None);
    }
    match A::from_cell(p, memory, d) {
        Ok(x) => Ok(Some(x)),
        Err(e) => Err(e),
    }
}

pub open spec fn shape_fn<A: FromCell>(m: MemV) -> spec_fn(Data) -> Result<A::Model, Fail> {
    |k: Data| A::shape(m, k)
}

/// The models of a sequence of shared values.
pub open spec fn models<A: FromCell>(v: Seq<Rc<A>>) -> Seq<A::Model> {
    v.map_values(|x: Rc<A>| A::model(&*x))
}

/// A homogeneous sequence, each element through `A`.
pub open spec fn vec_shape<A: FromCell>(m: MemV, d: Data) -> Result<Seq<A::Model>, Fail> {
    match seq_of(m, d) {
        Ok(kids) => list_of(kids, shape_fn::<A>(m)),
        Err(k) => Err(k),
    }
}

/// Projects a block of tag zero as a sequence, each element through `A`.
pub fn vec_of<A: FromCell>(p: &mut Projector, memory: &Memory, d: Data) -> (r: Result<Vec<Rc<A>>, SemanticError>)
    requires
        old(p).inv(memory@),
        memory@.wf(),
    ensures
        final(p).inv(memory@),
        match vec_shape::<A>(memory@, d) {
            Ok(v) => r matches Ok(x) && models(x@) == v,
            Err((k, c)) => r matches Err(e) && e.kind == k && e.msg@ == message_of(k) && e.cell == c,
        },
{
    let ghost m = memory@;
    let kids = match seq_children(memory, d) {
        Ok(k) => k,
        Err(e) => return Err(e),
    };
    let mut out: Vec<Rc<A>> = Vec::with_capacity(kids.len());
    let mut i: usize = 0;
    assert(kids@.take(0) =~= Seq::<Data>::empty());
    assert(models(out@) =~= Seq::<A::Model>::empty());
    while i < kids.len()
        invariant
            m == memory@,
            m.wf(),
            p.inv(m),
            seq_of(m, d) == Ok::<Seq<Data>, Fail>(kids@),
            i <= kids@.len(),
            list_of(kids@.take(i as int), shape_fn::<A>(m)) == Ok::<Seq<A::Model>, Fail>(models(out@)),
        decreases kids@.len() - i,
    {
        proof {
            lemma_list_step(kids@, shape_fn::<A>(m), i as int);
        }
        match A::from_cell(p, memory, kids[i]) {
            Err(e) => {
                proof {
                    lemma_list_prefix_err(kids@, shape_fn::<A>(m), i + 1);
                }
                return Err(e);
            },
            Ok(x) => {
                let ghost before = out@;
                out.push(x);
                assert(models(out@) =~= models(before).push(A::model(&*x)));
            },
        }
        i = i + 1;
    }
    assert(kids@.take(i as int) =~= kids@);
    Ok(out)
}

/// Projects the string cell that `d` leads to through the caller's validator `f`,
/// which runs at most once per address: a value that `cache` holds for the address
/// is handed out again, and a value that `f` accepts is held.
pub fn string_with<T, F: Fn(Vec<u8>) -> Result<T, SemanticError>>(
    cache: &mut Cache<T>,
    memory: &Memory,
    d: Data,
    f: F,
) -> (r: Result<Rc<T>, SemanticError>)
    requires
        old(cache).slots().len() == memory@.len(),
        forall|v: Vec<u8>| f.requires((v,)),
    ensures
        final(cache).slots().len() == memory@.len(),
        d matches Data::Ptr(a) ==> (slot(old(cache).slots(), a as int) matches Some(w) ==> r == Ok::<
            Rc<T>,
            SemanticError,
        >(w) && final(cache).slots() == old(cache).slots()),
        !(d matches Data::Ptr(a) && slot(old(cache).slots(), a as int) is Some) ==> match str_bytes_of(
            memory@,
            d,
        ) {
            Err((k, c)) => r matches Err(e) && e.kind == k && e.msg@ == message_of(k) && e.cell == c,
            Ok(b) => exists|v: Vec<u8>, out: Result<T, SemanticError>|
                v@ == b && f.ensures((v,), out) && match out {
                    Ok(t) => r matches Ok(x) && *x == t,
                    Err(e) => r == Err::<Rc<T>, SemanticError>(e),
                },
        },
        d matches Data::Ptr(a) ==> (r matches Ok(x) ==> slot(final(cache).slots(), a as int) == Some(x)),
{
    if let Data::Ptr(a) = d {
        if a < memory.len() {
            if let Some(w) = cache.get(a) {
                return Ok(w);
            }
        }
    }
    let bytes = match str_bytes(memory, d) {
        Ok(b) => b,
        Err(e) => return Err(e),
    };
    let ghost v = bytes;
    let out = f(bytes);
    match out {
        Err(e) => Err(e),
        Ok(t) => {
            let r = Rc::new(t);
            if let Data::Ptr(a) = d {
                let kept = cache.keep(a, r);
                return Ok(kept);
            }
            Ok(r)
        },
    }
}

/// A record of one field, projected through `A` and then mapped by `f`.
pub fn block1<A: FromCell, R, F: Fn(Rc<A>) -> Result<R, SemanticError>>(
    p: &mut Projector,
    memory: &Memory,
    d: Data,
    f: F,
) -> (r: Result<R, SemanticError>)
    requires
        old(p).inv(memory@),
        memory@.wf(),
        forall|x: Rc<A>| f.requires((x,)),
    ensures
        final(p).inv(memory@),
        match wrapped_shape::<A>(memory@, d) {
            Err((k, c)) => r matches Err(e) && e.kind == k && e.msg@ == message_of(k) && e.cell == c,
            Ok(a) => exists|x: Rc<A>| A::model(&*x) == a && f.ensures((x,), r),
        },
{
    let x = match wrapped::<A>(p, memory, d) {
        Ok(x) => x,
        Err(e) => return Err(e),
    };
    f(x)
}

/// A record of two fields, each projected through its type, then mapped by `f`.
pub fn block2<A: FromCell, B: FromCell, R, F: Fn(Rc<A>, Rc<B>) -> Result<R, SemanticError>>(
    p: &mut Projector,
    memory: &Memory,
    d: Data,
    f: F,
) -> (r: Result<R, SemanticError>)
    requires
        old(p).inv(memory@),
        memory@.wf(),
        forall|x: Rc<A>, y: Rc<B>| f.requires((x, y)),
    ensures
        final(p).inv(memory@),
        match pair_shape::<A, B>(memory@, d) {
            Err((k, c)) => r matches Err(e) && e.kind == k && e.msg@ == message_of(k) && e.cell == c,
            Ok((a, b)) => exists|x: Rc<A>, y: Rc<B>|
                A::model(&*x) == a && B::model(&*y) == b && f.ensures((x, y), r),
        },
{
    let (x, y) = match tuple2::<A, B>(p, memory, d) {
        Ok(xy) => xy,
        Err(e) => return Err(e),
    };
    f(x, y)
}

/// A record of three fields.
pub open spec fn triple_shape<A: FromCell, B: FromCell, C: FromCell>(m: MemV, d: Data) -> Result<
    (A::Model, B::Model, C::Model),
    Fail,
> {
    match record_of(m, d, 3) {
        Err(k) => Err(k),
        Ok(kids) => match A::shape(m, kids[0]) {
            Err(k) => Err(k),
            Ok(a) => match B::shape(m, kids[1]) {
                Err(k) => Err(k),
                Ok(b) => match C::shape(m, kids[2]) {
                    Err(k) => Err(k),
                    Ok(c) => Ok((a, b, c)),
                },
            },
        },
    }
}

/// A record of three fields, each projected through its type, then mapped by `f`.
pub fn block3<
    A: FromCell,
    B: FromCell,
    C: FromCell,
    R,
    F: Fn(Rc<A>, Rc<B>, Rc<C>) -> Result<R, SemanticError>,
>(p: &mut Projector, memory: &Memory, d: Data, f: F) -> (r: Result<R, SemanticError>)
    requires
        old(p).inv(memory@),
        memory@.wf(),
        forall|x: Rc<A>, y: Rc<B>, z: Rc<C>| f.requires((x, y, z)),
    ensures
        final(p).inv(memory@),
        match triple_shape::<A, B, C>(memory@, d) {
            Err((k, c)) => r matches Err(e) && e.kind == k && e.msg@ == message_of(k) && e.cell == c,
            Ok((a, b, c)) => exists|x: Rc<A>, y: Rc<B>, z: Rc<C>|
                A::model(&*x) == a && B::model(&*y) == b && C::model(&*z) == c && f.ensures((x, y, z), r),
        },
{
    let kids = match record_children(memory, d, 3) {
        Ok(k) => k,
        Err(e) => return Err(e),
    };
    let x = match A::from_cell(p, memory, kids[0]) {
        Ok(x) => x,
        Err(e) => return Err(e),
    };
    let y = match B::from_cell(p, memory, kids[1]) {
        Ok(y) => y,
        Err(e) => return Err(e),
    };
    let z = match C::from_cell(p, memory, kids[2]) {
        Ok(z) => z,
        Err(e) => return Err(e),
    };
    f(x, y, z)
}

} // verus!
