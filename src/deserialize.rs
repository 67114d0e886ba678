use vstd::prelude::*;

use crate::error::{Fault, E};
use crate::fill::{fill, fill_obj};
use crate::memory::{Data, MemV, Memory};
use crate::repr::{decode, ReprV};

verus! {

/// Reads objects one after another from a byte stream into one memory.
pub struct VoDeserializer<'de> {
    input: &'de [u8],
    pos: usize,
    memory: Memory,
}

impl<'de> VoDeserializer<'de> {
    pub closed spec fn bytes(&self) -> Seq<u8> {
        self.input@
    }

    pub closed spec fn offset(&self) -> int {
        self.pos as int
    }

    pub closed spec fn mem(&self) -> MemV {
        self.memory@
    }

    /// The memory is well formed, and holds no more cells than bytes were read.
    pub open spec fn inv(&self) -> bool {
        &&& self.mem().wf()
        &&& self.offset() <= self.bytes().len()
        &&& self.mem().len() + (self.bytes().len() - self.offset()) <= usize::MAX
    }

    /// A reader at the start of `input`, with room for `capacity` objects.
    pub fn from_bytes_with_capacity(input: &'de [u8], capacity: usize) -> (d: Self)
        ensures
            d.bytes() == input@,
            d.offset() == 0,
            d.mem() == MemV::empty(),
            d.inv(),
    {
        let n = input.len();
        assert(input@.len() == n);
        VoDeserializer { input, pos: 0, memory: Memory::with_capacity(capacity) }
    }

    /// Reads the next object into memory.
    pub fn read_object(&mut self) -> (r: Result<Data, E>)
        requires
            old(self).inv(),
        ensures
            final(self).bytes() == old(self).bytes(),
            match fill_obj(old(self).bytes(), old(self).offset(), old(self).mem()) {
                Ok((d, q, m)) => r == Ok::<Data, E>(d) && final(self).offset() == q && final(self).mem() == m,
                Err(f) => r matches Err(e) && e.reports(f),
            },
            r is Ok ==> final(self).inv() && final(self).mem().valid_ref(r->Ok_0),
            r is Err && !(decode(old(self).bytes(), old(self).offset()) matches Ok((ReprV::Block(_, l), _)) && l
                != 0) ==> final(self).mem() == old(self).mem(),
    {
        match fill(self.input, self.pos, &mut self.memory) {
            Err(e) => Err(e),
            Ok((d, q)) => {
                self.pos = q;
                Ok(d)
            },
        }
    }

    /// The offset of the next object.
    pub fn position(&self) -> (n: usize)
        ensures
            n as int == self.offset(),
    {
        self.pos
    }

    /// The memory filled so far.
    pub fn memory(&self) -> (m: &Memory)
        ensures
            m@ == self.mem(),
    {
        &self.memory
    }
}

} // verus!
