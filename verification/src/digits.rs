//! Rendering of integers as decimal and fixed-width hexadecimal text.

use vstd::prelude::*;

verus! {

/// The character for one digit value: `0`..`9` then `a`..`f`.
pub open spec fn digit_char(d: nat) -> char {
    if d < 10 {
        ((48 + d) as u8) as char
    } else {
        ((87 + d) as u8) as char
    }
}

/// The decimal digits of `n`, most significant first, no sign and no padding.
pub open spec fn spec_udec(n: nat) -> Seq<char>
    decreases n,
{
    if n < 10 {
        seq![digit_char(n)]
    } else {
        spec_udec(n / 10).push(digit_char(n % 10))
    }
}

/// The decimal rendering of a signed integer: a `-` sign when negative,
/// then the digits of the magnitude.
pub open spec fn spec_idec(i: int) -> Seq<char> {
    if i < 0 {
        seq!['-'] + spec_udec((-i) as nat)
    } else {
        spec_udec(i as nat)
    }
}

/// Digit `i` (most significant first) of the 16-digit hexadecimal form of `n`.
pub open spec fn nib64(n: u64, i: int) -> nat {
    ((n >> (((15 - i) * 4) as u64)) & 0xf) as nat
}

/// The 16-digit hexadecimal form of `n`, without a `0x` prefix.
pub open spec fn spec_hex64(n: u64) -> Seq<char> {
    Seq::new(16, |i: int| digit_char(nib64(n, i)))
}

/// Digit `i` (most significant first) of the 8-digit hexadecimal form of `n`.
pub open spec fn nib32(n: u32, i: int) -> nat {
    ((n >> (((7 - i) * 4) as u32)) & 0xf) as nat
}

/// The 8-digit hexadecimal form of `n`, without a `0x` prefix.
pub open spec fn spec_hex32(n: u32) -> Seq<char> {
    Seq::new(8, |i: int| digit_char(nib32(n, i)))
}

proof fn lemma_nibble64_bound(x: u64)
    ensures
        x & 0xf < 16,
{
    assert(x & 0xf < 16) by (bit_vector);
}

proof fn lemma_nibble32_bound(x: u32)
    ensures
        x & 0xf < 16,
{
    assert(x & 0xf < 16) by (bit_vector);
}

/// The one-character string for a digit value below sixteen.
pub fn digit_str(d: u64) -> (r: &'static str)
    requires
        d < 16,
    ensures
        r@ =~= seq![digit_char(d as nat)],
{
    proof {
        reveal_strlit("0");
        reveal_strlit("1");
        reveal_strlit("2");
        reveal_strlit("3");
        reveal_strlit("4");
        reveal_strlit("5");
        reveal_strlit("6");
        reveal_strlit("7");
        reveal_strlit("8");
        reveal_strlit("9");
        reveal_strlit("a");
        reveal_strlit("b");
        reveal_strlit("c");
        reveal_strlit("d");
        reveal_strlit("e");
        reveal_strlit("f");
    }
    if d == 0 {
        "0"
    } else if d == 1 {
        "1"
    } else if d == 2 {
        "2"
    } else if d == 3 {
        "3"
    } else if d == 4 {
        "4"
    } else if d == 5 {
        "5"
    } else if d == 6 {
        "6"
    } else if d == 7 {
        "7"
    } else if d == 8 {
        "8"
    } else if d == 9 {
        "9"
    } else if d == 10 {
        "a"
    } else if d == 11 {
        "b"
    } else if d == 12 {
        "c"
    } else if d == 13 {
        "d"
    } else if d == 14 {
        "e"
    } else {
        "f"
    }
}

/// Append the decimal digits of `n` to `buf`.
pub fn push_u64_dec(buf: &mut String, n: u64)
    ensures
        final(buf)@ == old(buf)@ + spec_udec(n as nat),
    decreases n,
{
    if n >= 10 {
        push_u64_dec(buf, n / 10);
        buf.append(digit_str(n % 10));
    } else {
        buf.append(digit_str(n));
    }
    proof {
        assert(buf@ =~= old(buf)@ + spec_udec(n as nat));
    }
}

/// Append the decimal digits of `n` to `buf`.
pub fn push_usize_dec(buf: &mut String, n: usize)
    ensures
        final(buf)@ == old(buf)@ + spec_udec(n as nat),
{
    push_u64_dec(buf, n as u64);
}

/// Append the decimal rendering of `n`, with a `-` sign when negative.
pub fn push_i64_dec(buf: &mut String, n: i64)
    ensures
        final(buf)@ == old(buf)@ + spec_idec(n as int),
{
    if n >= 0 {
        push_u64_dec(buf, n as u64);
    } else {
        buf.append("-");
        let mag: u64 = if n == i64::MIN {
            9223372036854775808u64
        } else {
            (-n) as u64
        };
        push_u64_dec(buf, mag);
        proof {
            reveal_strlit("-");
            assert("-"@ =~= seq!['-']);
            assert(mag as nat == (-(n as int)) as nat);
            assert(buf@ =~= old(buf)@ + spec_idec(n as int));
        }
    }
}

/// Append the decimal rendering of `n`, with a `-` sign when negative.
pub fn push_i32_dec(buf: &mut String, n: i32)
    ensures
        final(buf)@ == old(buf)@ + spec_idec(n as int),
{
    push_i64_dec(buf, n as i64);
}

/// Append the 16-digit hexadecimal form of `n` to `buf`.
pub fn push_hex64(buf: &mut String, n: u64)
    ensures
        final(buf)@ == old(buf)@ + spec_hex64(n),
{
    let mut i: usize = 0;
    while i < 16
        invariant
            i <= 16,
            buf@ == old(buf)@ + spec_hex64(n).subrange(0, i as int),
        decreases 16 - i,
    {
        let sh: u64 = ((15 - i) as u64) * 4;
        let d: u64 = (n >> sh) & 0xf;
        proof {
            lemma_nibble64_bound(n >> sh);
            assert(d as nat == nib64(n, i as int));
        }
        buf.append(digit_str(d));
        i = i + 1;
        proof {
            assert(buf@ =~= old(buf)@ + spec_hex64(n).subrange(0, i as int));
        }
    }
    proof {
        assert(spec_hex64(n).subrange(0, 16) =~= spec_hex64(n));
    }
}

/// Append the 8-digit hexadecimal form of `n` to `buf`.
pub fn push_hex32(buf: &mut String, n: u32)
    ensures
        final(buf)@ == old(buf)@ + spec_hex32(n),
{
    let mut i: usize = 0;
    while i < 8
        invariant
            i <= 8,
            buf@ == old(buf)@ + spec_hex32(n).subrange(0, i as int),
        decreases 8 - i,
    {
        let sh: u32 = ((7 - i) as u32) * 4;
        let d: u32 = (n >> sh) & 0xf;
        proof {
            lemma_nibble32_bound(n >> sh);
            assert(d as nat == nib32(n, i as int));
        }
        buf.append(digit_str(d as u64));
        i = i + 1;
        proof {
            assert(buf@ =~= old(buf)@ + spec_hex32(n).subrange(0, i as int));
        }
    }
    proof {
        assert(spec_hex32(n).subrange(0, 8) =~= spec_hex32(n));
    }
}

} // verus!
