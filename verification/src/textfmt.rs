//! Verified text building: decimal numbers, half-unit coordinates rendered
//! with their fractional digit, and 128-bit identifiers rendered in the
//! hyphenated lowercase hexadecimal form.

use vstd::prelude::*;

verus! {

/// The character for one digit value below sixteen.
pub open spec fn digit_char(d: nat) -> char {
    if d == 0 {
        '0'
    } else if d == 1 {
        '1'
    } else if d == 2 {
        '2'
    } else if d == 3 {
        '3'
    } else if d == 4 {
        '4'
    } else if d == 5 {
        '5'
    } else if d == 6 {
        '6'
    } else if d == 7 {
        '7'
    } else if d == 8 {
        '8'
    } else if d == 9 {
        '9'
    } else if d == 10 {
        'a'
    } else if d == 11 {
        'b'
    } else if d == 12 {
        'c'
    } else if d == 13 {
        'd'
    } else if d == 14 {
        'e'
    } else {
        'f'
    }
}

/// The decimal rendering of a natural number, without leading zeros.
pub open spec fn dec_seq(n: nat) -> Seq<char>
    decreases n,
{
    if n < 10 {
        seq![digit_char(n)]
    } else {
        dec_seq(n / 10).push(digit_char(n % 10))
    }
}

/// The decimal rendering of an integer.
pub open spec fn int_seq(v: int) -> Seq<char> {
    if v < 0 {
        "-"@ + dec_seq((-v) as nat)
    } else {
        dec_seq(v as nat)
    }
}

/// The decimal rendering of a count of half-units: the whole units followed
/// by `.0` or `.5`.
pub open spec fn half_seq(h: int) -> Seq<char> {
    let a = if h < 0 {
        (-h) as nat
    } else {
        h as nat
    };
    (if h < 0 {
        "-"@
    } else {
        Seq::<char>::empty()
    }) + dec_seq(a / 2) + (if a % 2 == 0 {
        ".0"@
    } else {
        ".5"@
    })
}

/// The lowest `w` hexadecimal digits of a natural number.
pub open spec fn hexw(n: nat, w: nat) -> Seq<char>
    decreases w,
{
    if w == 0 {
        Seq::<char>::empty()
    } else {
        hexw(n / 16, (w - 1) as nat).push(digit_char(n % 16))
    }
}

/// The hyphenated lowercase hexadecimal form of a 128-bit identifier, in the
/// usual 8-4-4-4-12 grouping.
pub open spec fn uuid_seq(n: u128) -> Seq<char> {
    hexw(((n >> 96) & 0xffff_ffff) as nat, 8) + "-"@ + hexw(((n >> 80) & 0xffff) as nat, 4) + "-"@
        + hexw(((n >> 64) & 0xffff) as nat, 4) + "-"@ + hexw(((n >> 48) & 0xffff) as nat, 4) + "-"@
        + hexw((n & 0xffff_ffff_ffff) as nat, 12)
}

/// Append the character for one digit value below sixteen.
fn push_digit(s: &mut String, d: u8)
    requires
        d < 16,
    ensures
        final(s)@ == old(s)@ + seq![digit_char(d as nat)],
{
    let t: &str = if d == 0 {
        "0"
    } else if d == 1 {
        "1"
    } else if d == 2 {
        "2"
    } else if d == 3 {
        "3"
    } else if d == 4 {
        "4"
    } else if d == 5 {
        "5"
    } else if d == 6 {
        "6"
    } else if d == 7 {
        "7"
    } else if d == 8 {
        "8"
    } else if d == 9 {
        "9"
    } else if d == 10 {
        "a"
    } else if d == 11 {
        "b"
    } else if d == 12 {
        "c"
    } else if d == 13 {
        "d"
    } else if d == 14 {
        "e"
    } else {
        "f"
    };
    proof {
        reveal_strlit("0");
        reveal_strlit("1");
        reveal_strlit("2");
        reveal_strlit("3");
        reveal_strlit("4");
        reveal_strlit("5");
        reveal_strlit("6");
        reveal_strlit("7");
        reveal_strlit("8");
        reveal_strlit("9");
        reveal_strlit("a");
        reveal_strlit("b");
        reveal_strlit("c");
        reveal_strlit("d");
        reveal_strlit("e");
        reveal_strlit("f");
        assert(t@ =~= seq![digit_char(d as nat)]);
    }
    s.append(t);
}

/// Append the decimal rendering of `n`.
pub fn push_dec_u64(s: &mut String, n: u64)
    ensures
        final(s)@ == old(s)@ + dec_seq(n as nat),
    decreases n,
{
    if n >= 10 {
        push_dec_u64(s, n / 10);
    }
    push_digit(s, (n % 10) as u8);
    proof {
        if n >= 10 {
            assert(final(s)@ =~= old(s)@ + dec_seq(n as nat));
        } else {
            assert(final(s)@ =~= old(s)@ + dec_seq(n as nat));
        }
    }
}

/// Append the decimal rendering of `v`.
pub fn push_int_i64(s: &mut String, v: i64)
    ensures
        final(s)@ == old(s)@ + int_seq(v as int),
{
    if v >= 0 {
        push_dec_u64(s, v as u64);
    } else {
        s.append("-");
        let m: u64 = ((-(v as i128)) as u64);
        push_dec_u64(s, m);
        proof {
            assert(final(s)@ =~= old(s)@ + int_seq(v as int));
        }
    }
}

/// Append the rendering of `h` half-units as whole units.
pub fn push_half_i64(s: &mut String, h: i64)
    ensures
        final(s)@ == old(s)@ + half_seq(h as int),
{
    if h < 0 {
        s.append("-");
    }
    let a: u64 = if h < 0 {
        ((-(h as i128)) as u64)
    } else {
        h as u64
    };
    push_dec_u64(s, a / 2);
    if a % 2 == 0 {
        s.append(".0");
    } else {
        s.append(".5");
    }
    proof {
        assert(final(s)@ =~= old(s)@ + half_seq(h as int));
    }
}

/// Append the lowest `w` hexadecimal digits of `n`.
fn push_hex(s: &mut String, n: u64, w: usize)
    ensures
        final(s)@ == old(s)@ + hexw(n as nat, w as nat),
    decreases w,
{
    if w > 0 {
        push_hex(s, n / 16, w - 1);
        push_digit(s, (n % 16) as u8);
    }
    proof {
        assert(final(s)@ =~= old(s)@ + hexw(n as nat, w as nat));
    }
}

/// Append the hyphenated hexadecimal form of `n`.
pub fn push_uuid(s: &mut String, n: u128)
    ensures
        final(s)@ == old(s)@ + uuid_seq(n),
{
    proof {
        assert((n >> 96) & 0xffff_ffff <= 0xffff_ffff) by (bit_vector);
        assert((n >> 80) & 0xffff <= 0xffff) by (bit_vector);
        assert((n >> 64) & 0xffff <= 0xffff) by (bit_vector);
        assert((n >> 48) & 0xffff <= 0xffff) by (bit_vector);
        assert(n & 0xffff_ffff_ffff <= 0xffff_ffff_ffff) by (bit_vector);
    }
    let g1: u64 = ((n >> 96) & 0xffff_ffff) as u64;
    let g2: u64 = ((n >> 80) & 0xffff) as u64;
    let g3: u64 = ((n >> 64) & 0xffff) as u64;
    let g4: u64 = ((n >> 48) & 0xffff) as u64;
    let g5: u64 = (n & 0xffff_ffff_ffff) as u64;
    push_hex(s, g1, 8);
    s.append("-");
    push_hex(s, g2, 4);
    s.append("-");
    push_hex(s, g3, 4);
    s.append("-");
    push_hex(s, g4, 4);
    s.append("-");
    push_hex(s, g5, 12);
    proof {
        assert(final(s)@ =~= old(s)@ + uuid_seq(n));
    }
}

/// The hyphenated hexadecimal form of `n`, as the transport prints
/// identifiers.
pub fn uuid_string(n: u128) -> (r: String)
    ensures
        r@ == uuid_seq(n),
{
    let mut s = String::new();
    push_uuid(&mut s, n);
    proof {
        assert(s@ =~= uuid_seq(n));
    }
    s
}

} // verus!
