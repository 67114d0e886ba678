use vstd::prelude::*;
use vstd::string::StringExecFns;

verus! {

/// The digit `d`, below sixteen, in lower case.
pub open spec fn digit_text(d: nat) -> Seq<char> {
    if d == 0 {
        "0"@
    } else if d == 1 {
        "1"@
    } else if d == 2 {
        "2"@
    } else if d == 3 {
        "3"@
    } else if d == 4 {
        "4"@
    } else if d == 5 {
        "5"@
    } else if d == 6 {
        "6"@
    } else if d == 7 {
        "7"@
    } else if d == 8 {
        "8"@
    } else if d == 9 {
        "9"@
    } else if d == 10 {
        "a"@
    } else if d == 11 {
        "b"@
    } else if d == 12 {
        "c"@
    } else if d == 13 {
        "d"@
    } else if d == 14 {
        "e"@
    } else {
        "f"@
    }
}

/// `n` in decimal.
pub open spec fn dec_text(n: nat) -> Seq<char>
    decreases n,
{
    if n < 10 {
        digit_text(n)
    } else {
        dec_text(n / 10) + digit_text(n % 10)
    }
}

/// `i` in decimal, with a minus sign when negative.
pub open spec fn int_text(i: int) -> Seq<char> {
    if i < 0 {
        "-"@ + dec_text((-i) as nat)
    } else {
        dec_text(i as nat)
    }
}

/// `b` as two lower-case hexadecimal digits.
pub open spec fn hex2_text(b: u8) -> Seq<char> {
    digit_text((b / 16) as nat) + digit_text((b % 16) as nat)
}

/// The bytes in decimal, separated by `", "`.
pub open spec fn list_items(b: Seq<u8>) -> Seq<char>
    decreases b.len(),
{
    if b.len() == 0 {
        Seq::empty()
    } else if b.len() == 1 {
        dec_text(b[0] as nat)
    } else {
        list_items(b.drop_last()) + ", "@ + dec_text(b.last() as nat)
    }
}

/// The bytes written as a list: `[95, 107]`.
pub open spec fn list_text(b: Seq<u8>) -> Seq<char> {
    "["@ + list_items(b) + "]"@
}

fn digit_str(d: u8) -> (r: &'static str)
    requires
        d < 16,
    ensures
        r@ == digit_text(d as nat),
{
    if d == 0 {
        "0"
    } else if d == 1 {
        "1"
    } else if d == 2 {
        "2"
    } else if d == 3 {
        "3"
    } else if d == 4 {
        "4"
    } else if d == 5 {
        "5"
    } else if d == 6 {
        "6"
    } else if d == 7 {
        "7"
    } else if d == 8 {
        "8"
    } else if d == 9 {
        "9"
    } else if d == 10 {
        "a"
    } else if d == 11 {
        "b"
    } else if d == 12 {
        "c"
    } else if d == 13 {
        "d"
    } else if d == 14 {
        "e"
    } else {
        "f"
    }
}

/// Appends `n` in decimal.
pub fn append_dec(s: &mut String, n: u64)
    ensures
        final(s)@ == old(s)@ + dec_text(n as nat),
    decreases n,
{
    let ghost s0 = s@;
    if n >= 10 {
        append_dec(s, n / 10);
    }
    s.append(digit_str((n % 10) as u8));
    if n >= 10 {
        assert(s@ =~= s0 + dec_text(n as nat));
    } else {
        assert(s@ =~= s0 + dec_text(n as nat));
    }
}

/// Appends `i` in decimal, with a minus sign when negative.
pub fn append_int(s: &mut String, i: i64)
    ensures
        final(s)@ == old(s)@ + int_text(i as int),
{
    let ghost s0 = s@;
    if i < 0 {
        s.append("-");
        let m: u64 = if i == i64::MIN {
            0x8000_0000_0000_0000
        } else {
            (-i) as u64
        };
        append_dec(s, m);
        assert(s@ =~= s0 + int_text(i as int));
    } else {
        append_dec(s, i as u64);
    }
}

/// Appends `b` as two hexadecimal digits.
pub fn append_hex2(s: &mut String, b: u8)
    ensures
        final(s)@ == old(s)@ + hex2_text(b),
{
    let ghost s0 = s@;
    s.append(digit_str(b / 16));
    s.append(digit_str(b % 16));
    assert(s@ =~= s0 + hex2_text(b));
}

/// Appends the bytes written as a list.
pub fn append_list(s: &mut String, b: &[u8])
    ensures
        final(s)@ == old(s)@ + list_text(b@),
{
    let ghost s0 = s@;
    s.append("[");
    let mut i: usize = 0;
    assert(b@.take(0) =~= Seq::<u8>::empty());
    while i < b.len()
        invariant
            i <= b@.len(),
            s@ == s0 + "["@ + list_items(b@.take(i as int)),
        decreases b@.len() - i,
    {
        let ghost before = s@;
        if i > 0 {
            s.append(", ");
        }
        append_dec(s, b[i] as u64);
        proof {
            let t = b@.take(i + 1);
            assert(t.drop_last() =~= b@.take(i as int));
            assert(t.last() == b@[i as int]);
            if i == 0 {
                assert(t.len() == 1);
            }
            assert(s@ =~= s0 + "["@ + list_items(t));
        }
        i = i + 1;
    }
    assert(b@.take(i as int) =~= b@);
    s.append("]");
    assert(s@ =~= s0 + list_text(b@));
}

/// A new string holding `t`.
pub fn text_of(t: &str) -> (r: String)
    ensures
        r@ == t@,
{
    String::from_str(t)
}

} // verus!
