use vstd::prelude::*;

use std::rc::Rc;

verus! {

/// A 16-byte digest that identifies a version of a dependency.
#[derive(Clone, Copy, Debug)]
pub struct DigestBytes {
    bytes: [u8; 16],
}

impl View for DigestBytes {
    type V = Seq<u8>;

    closed spec fn view(&self) -> Seq<u8> {
        self.bytes@
    }
}

impl DigestBytes {
    /// The digest made of the first 16 bytes of `slice`.
    pub fn new(slice: &[u8]) -> (r: DigestBytes)
        requires
            slice@.len() >= 16,
        ensures
            r@ == slice@.subrange(0, 16),
    {
        let mut bytes = [0u8; 16];
        let mut i: usize = 0;
        while i < 16
            invariant
                slice@.len() >= 16,
                i <= 16,
                forall|j: int| 0 <= j < i ==> bytes@[j] == slice@[j],
            decreases 16 - i,
        {
            bytes[i] = slice[i];
            i = i + 1;
        }
        let r = DigestBytes { bytes };
        assert(r@ =~= slice@.subrange(0, 16));
        r
    }

    /// The bytes of the digest.
    pub fn to_vec(&self) -> (r: Vec<u8>)
        ensures
            r@ == self@,
    {
        let mut out: Vec<u8> = Vec::with_capacity(16);
        let mut i: usize = 0;
        while i < 16
            invariant
                i <= 16,
                out@ =~= self.bytes@.subrange(0, i as int),
            decreases 16 - i,
        {
            out.push(self.bytes[i]);
            i = i + 1;
        }
        out
    }
}

/// A library path, outermost segment first.
#[derive(Clone, Debug)]
pub struct DirPath {
    segments: Vec<Rc<String>>,
}

/// The texts of a sequence of shared strings.
pub open spec fn texts(v: Seq<Rc<String>>) -> Seq<Seq<char>> {
    v.map_values(|s: Rc<String>| s@)
}

impl View for DirPath {
    type V = Seq<Seq<char>>;

    closed spec fn view(&self) -> Seq<Seq<char>> {
        texts(self.segments@)
    }
}

impl DirPath {
    /// The path with no segment.
    pub fn empty() -> (r: DirPath)
        ensures
            r@ == Seq::<Seq<char>>::empty(),
    {
        let r = DirPath { segments: Vec::new() };
        assert(r@ =~= Seq::<Seq<char>>::empty());
        r
    }

    /// This path with `head` added as its last segment.
    pub fn concat(&self, head: Rc<String>) -> (r: DirPath)
        ensures
            r@ == self@.push(head@),
    {
        let mut segments: Vec<Rc<String>> = Vec::new();
        let mut i: usize = 0;
        while i < self.segments.len()
            invariant
                i <= self.segments@.len(),
                segments@.len() == i,
                forall|j: int| 0 <= j < i ==> #[trigger] segments@[j]@ == self.segments@[j]@,
            decreases self.segments@.len() - i,
        {
            segments.push(self.segments[i].clone());
            i = i + 1;
        }
        segments.push(head);
        let r = DirPath { segments };
        assert(r@ =~= self@.push(head@));
        r
    }

    /// The number of segments.
    pub fn len(&self) -> (n: usize)
        ensures
            n == self@.len(),
    {
        self.segments.len()
    }

    /// The segment at `i`, shared with every other holder of it.
    pub fn segment(&self, i: usize) -> (s: Rc<String>)
        requires
            i < self@.len(),
        ensures
            s@ == self@[i as int],
    {
        self.segments[i].clone()
    }

    /// The segments as owned strings.
    pub fn to_strings(&self) -> (r: Vec<String>)
        ensures
            r@.len() == self@.len(),
            forall|i: int| 0 <= i < r@.len() ==> #[trigger] r@[i]@ == self@[i],
    {
        let mut out: Vec<String> = Vec::with_capacity(self.segments.len());
        let mut i: usize = 0;
        while i < self.segments.len()
            invariant
                i <= self.segments@.len(),
                out@.len() == i,
                forall|j: int| 0 <= j < i ==> #[trigger] out@[j]@ == self@[j],
            decreases self.segments@.len() - i,
        {
            let s: &String = &self.segments[i];
            out.push(s.clone());
            i = i + 1;
        }
        out
    }
}

/// A dependency: the library's path and the digest of the version depended on.
pub type Dependency = (Rc<DirPath>, Rc<DigestBytes>);

/// The model of a dependency.
pub open spec fn dep_view(d: Dependency) -> (Seq<Seq<char>>, Seq<u8>) {
    (d.0@, d.1@)
}

/// The summary segment of a compiled library: its name, what it imports, and the
/// digests of its dependencies.
#[derive(Clone, Debug)]
pub struct SummaryDisk {
    pub name: Rc<DirPath>,
    pub imports: Rc<Vec<Rc<DirPath>>>,
    pub deps: Rc<Vec<Dependency>>,
}

/// The model of a summary.
pub struct SummaryV {
    pub name: Seq<Seq<char>>,
    pub imports: Seq<Seq<Seq<char>>>,
    pub deps: Seq<(Seq<Seq<char>>, Seq<u8>)>,
}

/// The models of a sequence of shared paths.
pub open spec fn paths_view(v: Seq<Rc<DirPath>>) -> Seq<Seq<Seq<char>>> {
    v.map_values(|p: Rc<DirPath>| p@)
}

/// The models of a sequence of dependencies.
pub open spec fn deps_view(v: Seq<Dependency>) -> Seq<(Seq<Seq<char>>, Seq<u8>)> {
    v.map_values(|d: Dependency| dep_view(d))
}

impl View for SummaryDisk {
    type V = SummaryV;

    open spec fn view(&self) -> SummaryV {
        SummaryV { name: self.name@, imports: paths_view(self.imports@), deps: deps_view(self.deps@) }
    }
}

} // verus!
