use vstd::prelude::*;

verus! {

/// `256` to the power `n`.
pub open spec fn pow256(n: nat) -> nat
    decreases n,
{
    if n == 0 {
        1
    } else {
        256 * pow256((n - 1) as nat)
    }
}

/// The unsigned integer that the bytes spell, most significant byte first.
pub open spec fn be_uint(b: Seq<u8>) -> nat
    decreases b.len(),
{
    if b.len() == 0 {
        0
    } else {
        (be_uint(b.drop_last()) * 256 + b.last()) as nat
    }
}

/// The two's-complement signed integer that the bytes spell, most significant byte first.
pub open spec fn be_int(b: Seq<u8>) -> int {
    if be_uint(b) * 2 >= pow256(b.len()) {
        be_uint(b) - pow256(b.len())
    } else {
        be_uint(b) as int
    }
}

/// The `n` bytes at `pos`.
pub open spec fn bytes_at(s: Seq<u8>, pos: int, n: int) -> Seq<u8> {
    s.subrange(pos, pos + n)
}

pub proof fn lemma_pow256_mono(a: nat, b: nat)
    requires
        a <= b,
    ensures
        pow256(a) <= pow256(b),
    decreases b,
{
    if a < b {
        lemma_pow256_mono(a, (b - 1) as nat);
    }
}

pub proof fn lemma_pow256_values()
    ensures
        pow256(1) == 0x100,
        pow256(2) == 0x10000,
        pow256(3) == 0x1000000,
        pow256(4) == 0x100000000,
        pow256(7) == 0x100000000000000,
        pow256(8) == 0x10000000000000000,
{
    reveal_with_fuel(pow256, 9);
}

pub proof fn lemma_be_uint_bound(b: Seq<u8>)
    ensures
        be_uint(b) < pow256(b.len()),
    decreases b.len(),
{
    if b.len() > 0 {
        lemma_be_uint_bound(b.drop_last());
        let x = be_uint(b.drop_last());
        let p = pow256((b.len() - 1) as nat);
        let l = b.last();
        assert(x * 256 + l < 256 * p) by (nonlinear_arith)
            requires
                x < p,
                l < 256,
        ;
    }
}

/// Reads `n` bytes at `pos` as a big-endian unsigned integer; `None` when fewer remain.
pub fn read_be(input: &[u8], pos: usize, n: usize) -> (r: Option<u64>)
    requires
        n <= 8,
    ensures
        r is Some <==> pos + n <= input@.len(),
        r matches Some(v) ==> v as nat == be_uint(bytes_at(input@, pos as int, n as int)),
{
    if pos > input.len() || input.len() - pos < n {
        return None;
    }
    let mut acc: u64 = 0;
    let mut i: usize = 0;
    proof {
        lemma_pow256_values();
        assert(bytes_at(input@, pos as int, 0) =~= Seq::<u8>::empty());
    }
    while i < n
        invariant
            n <= 8,
            i <= n,
            pos + n <= input@.len(),
            input@.len() == input.len(),
            acc as nat == be_uint(bytes_at(input@, pos as int, i as int)),
            acc < pow256(i as nat),
            pow256(7) == 0x100000000000000,
        decreases n - i,
    {
        assert(pos + i < input@.len());
        let b = input[pos + i];
        proof {
            let prev = bytes_at(input@, pos as int, i as int);
            let next = bytes_at(input@, pos as int, i + 1);
            assert(next.drop_last() =~= prev);
            assert(next.last() == b);
            lemma_pow256_mono(i as nat, 7);
            assert(acc * 256 + b < pow256(i as nat) * 256) by (nonlinear_arith)
                requires
                    acc < pow256(i as nat),
                    b < 256,
            ;
            assert(pow256((i + 1) as nat) == 256 * pow256(i as nat));
            assert(pow256(i as nat) * 256 <= 0x10000000000000000) by (nonlinear_arith)
                requires
                    pow256(i as nat) <= 0x100000000000000,
            ;
        }
        acc = acc * 256 + b as u64;
        i = i + 1;
    }
    Some(acc)
}

/// The signed value of an unsigned integer read from `n` bytes, for widths one, two,
/// four and eight.
pub fn signed_of(v: u64, n: usize) -> (r: i64)
    requires
        n == 1 || n == 2 || n == 4 || n == 8,
        v < pow256(n as nat),
    ensures
        r as int == (if v * 2 >= pow256(n as nat) {
            v - pow256(n as nat)
        } else {
            v as int
        }),
{
    proof {
        lemma_pow256_values();
    }
    if n == 1 {
        if v >= 0x80 { v as i64 - 0x100 } else { v as i64 }
    } else if n == 2 {
        if v >= 0x8000 { v as i64 - 0x10000 } else { v as i64 }
    } else if n == 4 {
        if v >= 0x8000_0000 { v as i64 - 0x1_0000_0000 } else { v as i64 }
    } else {
        if v >= 0x8000_0000_0000_0000 {
            (v - 0x8000_0000_0000_0000) as i64 + i64::MIN
        } else {
            v as i64
        }
    }
}

/// Reads `n` bytes at `pos` as a big-endian signed integer; `None` when fewer remain.
pub fn read_be_signed(input: &[u8], pos: usize, n: usize) -> (r: Option<i64>)
    requires
        n == 1 || n == 2 || n == 4 || n == 8,
    ensures
        r is Some <==> pos + n <= input@.len(),
        r matches Some(v) ==> v as int == be_int(bytes_at(input@, pos as int, n as int)),
{
    match read_be(input, pos, n) {
        None => None,
        Some(u) => {
            proof {
                let b = bytes_at(input@, pos as int, n as int);
                assert(b.len() == n);
                lemma_be_uint_bound(b);
            }
            Some(signed_of(u, n))
        }
    }
}

} // verus!
