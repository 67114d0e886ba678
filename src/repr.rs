use vstd::prelude::*;

use crate::error::{
    custom_message, custom_text, fault, int63_message, int63_text, message_of, unsupported_message,
    unsupported_text, ErrorKind, Fault, E,
};
use crate::reader::{be_int, be_uint, bytes_at, read_be, read_be_signed, lemma_be_uint_bound, lemma_pow256_values};

verus! {

pub const CODE_INT8: u8 = 0x00;
pub const CODE_INT16: u8 = 0x01;
pub const CODE_INT32: u8 = 0x02;
pub const CODE_INT64: u8 = 0x03;
pub const CODE_SHARED8: u8 = 0x04;
pub const CODE_SHARED16: u8 = 0x05;
pub const CODE_SHARED32: u8 = 0x06;
pub const CODE_BLOCK32: u8 = 0x08;
pub const CODE_STRING8: u8 = 0x09;
pub const CODE_STRING32: u8 = 0x0A;
pub const CODE_CODEPOINTER: u8 = 0x10;
pub const CODE_CUSTOM: u8 = 0x12;
pub const CODE_BLOCK64: u8 = 0x13;

/// One object header of the marshal stream.
#[derive(Debug)]
pub enum Repr {
    Int(i64),
    Int63(u64),
    Block(u8, u64),
    Str(Vec<u8>),
    Pointer(usize),
    Code(i64),
}

/// The mathematical value of a `Repr`.
pub enum ReprV {
    Int(i64),
    Int63(u64),
    Block(u8, u64),
    Str(Seq<u8>),
    Pointer(usize),
    Code(i64),
}

impl View for Repr {
    type V = ReprV;

    open spec fn view(&self) -> ReprV {
        match self {
            Repr::Int(n) => ReprV::Int(*n),
            Repr::Int63(n) => ReprV::Int63(*n),
            Repr::Block(t, l) => ReprV::Block(*t, *l),
            Repr::Str(b) => ReprV::Str(b@),
            Repr::Pointer(k) => ReprV::Pointer(*k),
            Repr::Code(a) => ReprV::Code(*a),
        }
    }
}

/// A failure of kind `kind` reported at offset `pos` of `s`.
pub open spec fn fault_at(s: Seq<u8>, pos: int, kind: ErrorKind) -> Fault {
    fault(kind, s.len() - pos, message_of(kind))
}

/// `n` bytes at `p` read as an unsigned integer, and the offset after them.
pub open spec fn read_uint(s: Seq<u8>, p: int, n: int) -> Result<(nat, int), Fault> {
    if p + n <= s.len() {
        Ok((be_uint(bytes_at(s, p, n)), p + n))
    } else {
        Err(fault_at(s, p, ErrorKind::ShortRead))
    }
}

/// `n` bytes at `p` read as a signed integer, and the offset after them.
pub open spec fn read_int(s: Seq<u8>, p: int, n: int) -> Result<(int, int), Fault> {
    if p + n <= s.len() {
        Ok((be_int(bytes_at(s, p, n)), p + n))
    } else {
        Err(fault_at(s, p, ErrorKind::ShortRead))
    }
}

/// The `n` bytes at `p`, and the offset after them.
pub open spec fn read_bytes(s: Seq<u8>, p: int, n: int) -> Result<(Seq<u8>, int), Fault> {
    if p + n <= s.len() {
        Ok((bytes_at(s, p, n), p + n))
    } else {
        Err(fault_at(s, p, ErrorKind::ShortRead))
    }
}

/// The offset of the first NUL byte at or after `p`.
pub open spec fn find_nul(s: Seq<u8>, p: int) -> Option<int>
    decreases s.len() - p,
{
    if p < 0 || p >= s.len() {
        None
    } else if s[p] == 0 {
        Some(p)
    } else {
        find_nul(s, p + 1)
    }
}

/// The width in bytes of the integer that follows the codes `INT8` to `INT64`.
pub open spec fn int_width(b: u8) -> int {
    if b == CODE_INT8 {
        1
    } else if b == CODE_INT16 {
        2
    } else if b == CODE_INT32 {
        4
    } else {
        8
    }
}

/// The width in bytes of the offset that follows the codes `SHARED8` to `SHARED32`.
pub open spec fn pointer_width(b: u8) -> int {
    if b == CODE_SHARED8 {
        1
    } else if b == CODE_SHARED16 {
        2
    } else {
        4
    }
}

/// The block header that a 32- or 64-bit header word stands for: the tag in the
/// low byte, the length from bit ten on.
pub open spec fn block_of_word(w: u64) -> ReprV {
    ReprV::Block((w & 0xff) as u8, w >> 10u64)
}

/// What follows a `CUSTOM` code at `p`: a NUL-terminated identifier, of which only
/// `_j` is known, followed by a non-negative 8-byte integer.
pub open spec fn decode_custom(s: Seq<u8>, p: int) -> Result<(ReprV, int), Fault> {
    match find_nul(s, p) {
        None => Err(fault_at(s, p, ErrorKind::ShortRead)),
        Some(z) => if s.subrange(p, z) == seq![0x5fu8, 0x6au8] {
            match read_int(s, z + 1, 8) {
                Err(f) => Err(f),
                Ok((v, q)) => if v < 0 {
                    Err(fault(ErrorKind::NegativeInt63, s.len() - q, int63_text(v)))
                } else {
                    Ok((ReprV::Int63(v as u64), q))
                },
            }
        } else {
            Err(fault(ErrorKind::UnknownCustom, s.len() - (z + 1), custom_text(s.subrange(p, z))))
        },
    }
}

/// The object header at offset `pos` of `s`, and the offset after it.
pub open spec fn decode(s: Seq<u8>, pos: int) -> Result<(ReprV, int), Fault> {
    if pos < 0 || pos >= s.len() {
        Err(fault_at(s, pos, ErrorKind::ShortRead))
    } else {
        let b = s[pos];
        let p = pos + 1;
        if b >= 0x80 {
            Ok((ReprV::Block(b & 0x0f, ((b >> 4u8) & 0x07) as u64), p))
        } else if b >= 0x40 {
            Ok((ReprV::Int((b & 0x3f) as i64), p))
        } else if b >= 0x20 {
            match read_bytes(s, p, (b & 0x1f) as int) {
                Err(f) => Err(f),
                Ok((x, q)) => Ok((ReprV::Str(x), q)),
            }
        } else if b <= CODE_INT64 {
            match read_int(s, p, int_width(b)) {
                Err(f) => Err(f),
                Ok((v, q)) => Ok((ReprV::Int(v as i64), q)),
            }
        } else if b <= CODE_SHARED32 {
            match read_uint(s, p, pointer_width(b)) {
                Err(f) => Err(f),
                Ok((v, q)) => Ok((ReprV::Pointer(v as usize), q)),
            }
        } else if b == CODE_BLOCK32 {
            match read_uint(s, p, 4) {
                Err(f) => Err(f),
                Ok((w, q)) => Ok((block_of_word(w as u64), q)),
            }
        } else if b == CODE_BLOCK64 {
            match read_uint(s, p, 8) {
                Err(f) => Err(f),
                Ok((w, q)) => Ok((block_of_word(w as u64), q)),
            }
        } else if b == CODE_STRING8 || b == CODE_STRING32 {
            match read_uint(s, p, if b == CODE_STRING8 { 1 } else { 4 }) {
                Err(f) => Err(f),
                Ok((n, q)) => match read_bytes(s, q, n as int) {
                    Err(f) => Err(f),
                    Ok((x, r)) => Ok((ReprV::Str(x), r)),
                },
            }
        } else if b == CODE_CODEPOINTER {
            match read_uint(s, p, 4) {
                Err(f) => Err(f),
                Ok((a, q)) => match read_bytes(s, q, 16) {
                    Err(f) => Err(f),
                    Ok((_, r)) => Ok((ReprV::Code(a as i64), r)),
                },
            }
        } else if b == CODE_CUSTOM {
            decode_custom(s, p)
        } else {
            Err(fault(ErrorKind::UnsupportedTag, s.len() - p, unsupported_text(b)))
        }
    }
}

/// An exec result agrees with a specified one: same value and offset, or an error
/// that reports the same failure.
pub open spec fn agrees<A, B>(r: Result<(A, usize), E>, s: Result<(B, int), Fault>, view: spec_fn(A) -> B) -> bool {
    match r {
        Ok((a, q)) => s == Ok::<(B, int), Fault>((view(a), q as int)),
        Err(e) => s is Err && e.reports(s->Err_0),
    }
}

pub proof fn lemma_decode_advances(s: Seq<u8>, pos: int)
    ensures
        decode(s, pos) matches Ok((_, q)) ==> pos < q <= s.len(),
{
    if 0 <= pos < s.len() && s[pos] == CODE_CUSTOM {
        lemma_find_nul(s, pos + 1);
    }
}

pub proof fn lemma_find_nul(s: Seq<u8>, p: int)
    ensures
        find_nul(s, p) matches Some(z) ==> p <= z < s.len() && s[z] == 0 && forall|k: int| p <= k < z ==> s[k] != 0,
        find_nul(s, p) is None ==> forall|k: int| 0 <= p <= k < s.len() ==> s[k] != 0,
    decreases s.len() - p,
{
    if 0 <= p < s.len() && s[p] != 0 {
        lemma_find_nul(s, p + 1);
    }
}

/// Copies the `n` bytes at `pos`; `None` when fewer remain.
fn take_bytes(input: &[u8], pos: usize, n: usize) -> (r: Option<Vec<u8>>)
    ensures
        r is Some <==> pos + n <= input@.len(),
        r matches Some(v) ==> v@ == bytes_at(input@, pos as int, n as int),
{
    if pos > input.len() || input.len() - pos < n {
        return None;
    }
    let mut out: Vec<u8> = Vec::with_capacity(n);
    let mut i: usize = 0;
    while i < n
        invariant
            i <= n,
            pos + n <= input@.len(),
            input@.len() == input.len(),
            out@ == bytes_at(input@, pos as int, i as int),
        decreases n - i,
    {
        assert(pos + i < input@.len());
        out.push(input[pos + i]);
        i = i + 1;
        assert(out@ =~= bytes_at(input@, pos as int, i as int));
    }
    Some(out)
}

/// Finds the first NUL byte at or after `p`.
fn scan_nul(input: &[u8], p: usize) -> (r: Option<usize>)
    ensures
        match r {
            Some(z) => find_nul(input@, p as int) == Some(z as int),
            None => find_nul(input@, p as int) is None,
        },
{
    let mut z: usize = p;
    while z < input.len()
        invariant
            p <= z,
            find_nul(input@, p as int) == find_nul(input@, z as int),
        decreases input.len() - z,
    {
        if input[z] == 0 {
            return Some(z);
        }
        z = z + 1;
    }
    None
}

fn short_read<T>(input: &[u8], pos: usize) -> (r: Result<T, E>)
    requires
        pos <= input@.len(),
    ensures
        r matches Err(e) && e.reports(fault_at(input@, pos as int, ErrorKind::ShortRead)),
{
    E::err(ErrorKind::ShortRead, input.len() - pos)
}

fn decode_custom_exec(input: &[u8], p: usize) -> (r: Result<(Repr, usize), E>)
    requires
        p <= input@.len(),
    ensures
        agrees(r, decode_custom(input@, p as int), |x: Repr| x@),
{
    let z = match scan_nul(input, p) {
        None => return short_read(input, p),
        Some(z) => z,
    };
    proof {
        lemma_find_nul(input@, p as int);
    }
    let is_j = z - p == 2 && input[p] == 0x5f && input[p + 1] == 0x6a;
    assert(is_j <==> input@.subrange(p as int, z as int) == seq![0x5fu8, 0x6au8]) by {
        if z - p == 2 {
            let sub = input@.subrange(p as int, z as int);
            if input[p as int] == 0x5f && input[p + 1] == 0x6a {
                assert(sub =~= seq![0x5fu8, 0x6au8]);
            }
            if sub == seq![0x5fu8, 0x6au8] {
                assert(sub[0] == input@[p as int]);
                assert(sub[1] == input@[p + 1]);
            }
        } else {
            assert(input@.subrange(p as int, z as int).len() != 2);
        }
    }
    if !is_j {
        let id = vstd::slice::slice_subrange(input, p, z);
        return Err(E::fail(ErrorKind::UnknownCustom, input.len() - (z + 1), custom_message(id)));
    }
    match read_be_signed(input, z + 1, 8) {
        None => short_read(input, z + 1),
        Some(v) => if v < 0 {
            Err(E::fail(ErrorKind::NegativeInt63, input.len() - (z + 9), int63_message(v)))
        } else {
            Ok((Repr::Int63(v as u64), z + 9))
        },
    }
}

/// Reads one object header at `pos`.
pub fn parse_object(input: &[u8], pos: usize) -> (r: Result<(Repr, usize), E>)
    requires
        pos <= input@.len(),
    ensures
        agrees(r, decode(input@, pos as int), |x: Repr| x@),
{
    if pos >= input.len() {
        return short_read(input, pos);
    }
    let b = input[pos];
    let p = pos + 1;
    proof {
        lemma_pow256_values();
    }
    if b >= 0x80 {
        Ok((Repr::Block(b & 0x0f, ((b >> 4u8) & 0x07) as u64), p))
    } else if b >= 0x40 {
        Ok((Repr::Int((b & 0x3f) as i64), p))
    } else if b >= 0x20 {
        let n = (b & 0x1f) as usize;
        match take_bytes(input, p, n) {
            None => short_read(input, p),
            Some(x) => Ok((Repr::Str(x), p + n)),
        }
    } else if b <= CODE_INT64 {
        let w: usize = if b == CODE_INT8 { 1 } else if b == CODE_INT16 { 2 } else if b == CODE_INT32 { 4 } else { 8 };
        match read_be_signed(input, p, w) {
            None => short_read(input, p),
            Some(v) => Ok((Repr::Int(v), p + w)),
        }
    } else if b <= CODE_SHARED32 {
        let w: usize = if b == CODE_SHARED8 { 1 } else if b == CODE_SHARED16 { 2 } else { 4 };
        match read_be(input, p, w) {
            None => short_read(input, p),
            Some(v) => {
                proof {
                    lemma_be_uint_bound(bytes_at(input@, p as int, w as int));
                    crate::reader::lemma_pow256_mono(w as nat, 4);
                }
                Ok((Repr::Pointer(v as usize), p + w))
            },
        }
    } else if b == CODE_BLOCK32 || b == CODE_BLOCK64 {
        let w: usize = if b == CODE_BLOCK32 { 4 } else { 8 };
        match read_be(input, p, w) {
            None => short_read(input, p),
            Some(v) => Ok((Repr::Block((v & 0xff) as u8, v >> 10u64), p + w)),
        }
    } else if b == CODE_STRING8 || b == CODE_STRING32 {
        let w: usize = if b == CODE_STRING8 { 1 } else { 4 };
        match read_be(input, p, w) {
            None => short_read(input, p),
            Some(n) => {
                proof {
                    lemma_be_uint_bound(bytes_at(input@, p as int, w as int));
                    crate::reader::lemma_pow256_mono(w as nat, 4);
                }
                let n = n as usize;
                match take_bytes(input, p + w, n) {
                    None => short_read(input, p + w),
                    Some(x) => Ok((Repr::Str(x), p + w + n)),
                }
            },
        }
    } else if b == CODE_CODEPOINTER {
        match read_be(input, p, 4) {
            None => short_read(input, p),
            Some(a) => {
                proof {
                    lemma_be_uint_bound(bytes_at(input@, p as int, 4));
                }
                if input.len() - (p + 4) < 16 {
                    short_read(input, p + 4)
                } else {
                    Ok((Repr::Code(a as i64), p + 20))
                }
            },
        }
    } else if b == CODE_CUSTOM {
        decode_custom_exec(input, p)
    } else {
        Err(E::fail(ErrorKind::UnsupportedTag, input.len() - p, unsupported_message(b)))
    }
}

} // verus!
