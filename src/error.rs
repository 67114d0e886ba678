use vstd::prelude::*;

use crate::text::{
    append_dec, append_hex2, append_int, append_list, dec_text, hex2_text, int_text, list_text,
    text_of,
};

verus! {

/// The ways a decode can fail.
#[derive(Clone, Copy, Debug, PartialEq, Eq, Structural)]
pub enum ErrorKind {
    /// The file magic or a segment magic is wrong.
    BadMagic,
    /// Fewer bytes remain than a primitive or a declared length needs.
    ShortRead,
    /// A lead byte that the decoder does not handle (doubles, infix pointers, reserved codes).
    UnsupportedTag,
    /// A custom block whose identifier is not recognized.
    UnknownCustom,
    /// A code pointer: closures are not serialized.
    CodePointer,
    /// A 63-bit custom integer whose payload is negative.
    NegativeInt63,
    /// A back-pointer with offset zero or beyond the objects read so far.
    PointerOutOfRange,
    /// A back-pointer to a block whose children are still being read.
    PointerUnderConstruction,
    /// A cell whose shape does not fit the expected type.
    Shape,
    /// A string payload that its validator rejects.
    BadString,
    /// The number of objects read differs from the segment header.
    SizeMismatch,
    /// The number of body bytes read differs from the segment header.
    LengthMismatch,
    /// The body does not end at the segment's stop offset.
    StopMismatch,
    /// The MD5 checksum at the end of the file does not match its contents.
    ChecksumMismatch,
    /// A failure that a caller describes in its own words.
    Other,
}

/// The text of the failures whose text is fixed.
pub open spec fn message_of(kind: ErrorKind) -> Seq<char> {
    match kind {
        ErrorKind::BadMagic => "magic number mismatch"@,
        ErrorKind::ShortRead => "short read"@,
        ErrorKind::CodePointer => "closures are not serialized"@,
        ErrorKind::PointerOutOfRange => "pointer out of range"@,
        ErrorKind::PointerUnderConstruction => "Pointer is to object that we haven't finished building"@,
        ErrorKind::Shape => "unexpected shape"@,
        ErrorKind::BadString => "invalid string"@,
        ErrorKind::ChecksumMismatch => "checksum mismatch"@,
        _ => "decoding failed"@,
    }
}

impl ErrorKind {
    pub fn message(self) -> (r: &'static str)
        ensures
            r@ == message_of(self),
    {
        match self {
            ErrorKind::BadMagic => "magic number mismatch",
            ErrorKind::ShortRead => "short read",
            ErrorKind::CodePointer => "closures are not serialized",
            ErrorKind::PointerOutOfRange => "pointer out of range",
            ErrorKind::PointerUnderConstruction => "Pointer is to object that we haven't finished building",
            ErrorKind::Shape => "unexpected shape",
            ErrorKind::BadString => "invalid string",
            ErrorKind::ChecksumMismatch => "checksum mismatch",
            _ => "decoding failed",
        }
    }
}

/// The text for a lead byte that the decoder does not handle.
pub open spec fn unsupported_text(b: u8) -> Seq<char> {
    "Unhandled code: "@ + hex2_text(b)
}

/// The text for a custom block with an unknown identifier.
pub open spec fn custom_text(id: Seq<u8>) -> Seq<char> {
    "Unhandled custom code: "@ + list_text(id)
}

/// The text for a negative 63-bit custom integer.
pub open spec fn int63_text(v: int) -> Seq<char> {
    "uint63 out of range: "@ + int_text(v)
}

/// The text for a segment that holds another number of objects than declared.
pub open spec fn size_text(expected: int, actual: nat) -> Seq<char> {
    "Memory should be length "@ + int_text(expected) + ", was actually "@ + dec_text(actual)
}

/// The text for a body of another length than declared.
pub open spec fn length_text(expected: int, actual: nat) -> Seq<char> {
    "Expected to consume "@ + int_text(expected) + " bytes, actually consumed "@ + dec_text(actual)
}

/// The text for a body that ends elsewhere than its stop offset.
pub open spec fn stop_text(expected: int, actual: nat) -> Seq<char> {
    "Expected to stop at "@ + int_text(expected) + ", actually stopped at "@ + dec_text(actual)
}

/// The text for a record of the wrong arity.
pub open spec fn len_text(name: Seq<char>, expected: nat, actual: nat) -> Seq<char> {
    "Struct "@ + name + ": expected size "@ + dec_text(expected) + ", got size "@ + dec_text(actual)
}

pub fn unsupported_message(b: u8) -> (r: String)
    ensures
        r@ == unsupported_text(b),
{
    let mut s = text_of("Unhandled code: ");
    append_hex2(&mut s, b);
    s
}

pub fn custom_message(id: &[u8]) -> (r: String)
    ensures
        r@ == custom_text(id@),
{
    let mut s = text_of("Unhandled custom code: ");
    append_list(&mut s, id);
    assert(s@ =~= custom_text(id@));
    s
}

pub fn int63_message(v: i64) -> (r: String)
    ensures
        r@ == int63_text(v as int),
{
    let mut s = text_of("uint63 out of range: ");
    append_int(&mut s, v);
    s
}

fn two_counts(a: &str, expected: i64, b: &str, actual: u64) -> (r: String)
    ensures
        r@ == a@ + int_text(expected as int) + b@ + dec_text(actual as nat),
{
    let mut s = text_of(a);
    append_int(&mut s, expected);
    s.append(b);
    append_dec(&mut s, actual);
    s
}

pub fn size_message(expected: i32, actual: usize) -> (r: String)
    ensures
        r@ == size_text(expected as int, actual as nat),
{
    two_counts("Memory should be length ", expected as i64, ", was actually ", actual as u64)
}

pub fn length_message(expected: i32, actual: usize) -> (r: String)
    ensures
        r@ == length_text(expected as int, actual as nat),
{
    two_counts("Expected to consume ", expected as i64, " bytes, actually consumed ", actual as u64)
}

pub fn stop_message(expected: i32, actual: usize) -> (r: String)
    ensures
        r@ == stop_text(expected as int, actual as nat),
{
    two_counts("Expected to stop at ", expected as i64, ", actually stopped at ", actual as u64)
}

/// A failure as the specification sees it: its kind, and its frames of
/// `(bytes remaining, message)`, the innermost first.
pub struct Fault {
    pub kind: ErrorKind,
    pub frames: Seq<(int, Seq<char>)>,
}

/// A failure with one frame.
pub open spec fn fault(kind: ErrorKind, at: int, msg: Seq<char>) -> Fault {
    Fault { kind, frames: seq![(at, msg)] }
}

impl Fault {
    /// The same failure with an outer frame of context.
    pub open spec fn context(self, at: int, msg: Seq<char>) -> Fault {
        Fault { kind: self.kind, frames: self.frames.push((at, msg)) }
    }
}

/// A decoding error: its kind and a chain of `(bytes remaining, message)` frames,
/// the innermost first.
#[derive(Debug)]
pub struct E {
    pub kind: ErrorKind,
    pub stuff: Vec<(usize, String)>,
}

impl E {
    /// This error reports `f`: the same kind, and the same frames in the same order.
    pub open spec fn reports(self, f: Fault) -> bool {
        &&& self.kind == f.kind
        &&& self.stuff@.len() == f.frames.len()
        &&& forall|i: int|
            0 <= i < f.frames.len() ==> (#[trigger] self.stuff@[i]).0 as int == f.frames[i].0
                && self.stuff@[i].1@ == f.frames[i].1
    }

    /// A failure of kind `kind` with the message `msg`, `remaining` bytes from the end.
    pub fn fail(kind: ErrorKind, remaining: usize, msg: String) -> (e: E)
        ensures
            e.reports(fault(kind, remaining as int, msg@)),
    {
        let ghost m = msg@;
        let mut stuff: Vec<(usize, String)> = Vec::new();
        stuff.push((remaining, msg));
        E { kind, stuff }
    }

    /// A failure of a kind whose text is fixed.
    pub fn of(kind: ErrorKind, remaining: usize) -> (e: E)
        ensures
            e.reports(fault(kind, remaining as int, message_of(kind))),
    {
        E::fail(kind, remaining, text_of(kind.message()))
    }

    /// Fails with a failure of a kind whose text is fixed.
    pub fn err<T>(kind: ErrorKind, remaining: usize) -> (r: Result<T, E>)
        ensures
            r matches Err(e) && e.reports(fault(kind, remaining as int, message_of(kind))),
    {
        Err(E::of(kind, remaining))
    }

    /// A failure described by `msg`, reported where `input` starts.
    pub fn new(input: &[u8], msg: String) -> (e: E)
        ensures
            e.reports(fault(ErrorKind::Other, input@.len() as int, msg@)),
    {
        E::fail(ErrorKind::Other, input.len(), msg)
    }

    /// Fails with the message `msg`, reported where `i` starts.
    pub fn msg<T>(msg: String, i: &[u8]) -> (r: Result<T, E>)
        ensures
            r matches Err(e) && e.reports(fault(ErrorKind::Other, i@.len() as int, msg@)),
    {
        Err(E::new(i, msg))
    }

    /// Fails for a record `name` of `actual` fields where `expected` were due.
    pub fn len(actual: usize, expected: usize, name: &str, i: &[u8]) -> (r: Result<(), E>)
        ensures
            r matches Err(e) && e.reports(
                fault(ErrorKind::Shape, i@.len() as int, len_text(name@, expected as nat, actual as nat)),
            ),
    {
        let mut s = text_of("Struct ");
        s.append(name);
        s.append(": expected size ");
        append_dec(&mut s, expected as u64);
        s.append(", got size ");
        append_dec(&mut s, actual as u64);
        assert(s@ =~= len_text(name@, expected as nat, actual as nat));
        Err(E::fail(ErrorKind::Shape, i.len(), s))
    }

    /// Adds an outer frame of context.
    pub fn context(&mut self, remaining: usize, msg: &str)
        ensures
            forall|f: Fault| old(self).reports(f) ==> final(self).reports(f.context(remaining as int, msg@)),
    {
        self.stuff.push((remaining, text_of(msg)));
        assert forall|f: Fault| old(self).reports(f) implies self.reports(f.context(remaining as int, msg@)) by {
            let g = f.context(remaining as int, msg@);
            assert forall|i: int| 0 <= i < g.frames.len() implies (#[trigger] self.stuff@[i]).0 as int == g.frames[i].0
                && self.stuff@[i].1@ == g.frames[i].1 by {
                if i < f.frames.len() {
                    assert(old(self).stuff@[i] == self.stuff@[i]);
                }
            }
        }
    }
}

/// An error found by the typed layer or the memory, before a position is attached.
pub struct SemanticError {
    pub kind: ErrorKind,
    pub msg: String,
    /// The address of the innermost cell in which the failure was found, if any.
    pub cell: Option<usize>,
}

impl SemanticError {
    /// A failure described by `msg`.
    pub fn new(msg: String) -> (e: SemanticError)
        ensures
            e.kind == ErrorKind::Other,
            e.msg@ == msg@,
    {
        SemanticError { kind: ErrorKind::Other, msg, cell: None }
    }

    pub fn msg<T>(msg: String) -> (r: Result<T, SemanticError>)
        ensures
            r matches Err(e) && e.kind == ErrorKind::Other && e.msg@ == msg@,
    {
        Err(SemanticError::new(msg))
    }

    /// A failure of a kind whose text is fixed.
    pub fn of(kind: ErrorKind) -> (e: SemanticError)
        ensures
            e.kind == kind,
            e.msg@ == message_of(kind),
            e.cell is None,
    {
        SemanticError { kind, msg: text_of(kind.message()), cell: None }
    }

    /// Attaches the position at which the error is reported.
    pub fn to_e(self, remaining: usize) -> (e: E)
        ensures
            e.reports(fault(self.kind, remaining as int, self.msg@)),
    {
        E::fail(self.kind, remaining, self.msg)
    }
}

} // verus!
