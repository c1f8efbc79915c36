//! Numbers as text: decimal numbers, and bytes as lists of two-digit
//! hexadecimal numbers, for version strings and error messages.

use vstd::prelude::*;
use vstd::string::StringExecFns;

verus! {

/// The character of a decimal digit.
pub open spec fn digit_char(d: nat) -> char {
    if d == 0 {
        '0'
    } else if d == 1 {
        '1'
    } else if d == 2 {
        '2'
    } else if d == 3 {
        '3'
    } else if d == 4 {
        '4'
    } else if d == 5 {
        '5'
    } else if d == 6 {
        '6'
    } else if d == 7 {
        '7'
    } else if d == 8 {
        '8'
    } else {
        '9'
    }
}

/// The character of a hexadecimal digit, in lower case.
pub open spec fn hex_digit_char(d: nat) -> char {
    if d < 10 {
        digit_char(d)
    } else if d == 10 {
        'a'
    } else if d == 11 {
        'b'
    } else if d == 12 {
        'c'
    } else if d == 13 {
        'd'
    } else if d == 14 {
        'e'
    } else {
        'f'
    }
}

/// The decimal digits of `v`, most significant first.
pub open spec fn decimal(v: nat) -> Seq<char>
    decreases v,
{
    if v < 10 {
        seq![digit_char(v)]
    } else {
        decimal(v / 10).push(digit_char(v % 10))
    }
}

/// The decimal digits of `v`, padded with a zero to at least two.
pub open spec fn decimal2(v: nat) -> Seq<char> {
    if v < 10 {
        seq!['0'] + decimal(v)
    } else {
        decimal(v)
    }
}

/// `v` in decimal, with a minus sign where it is negative.
pub open spec fn signed_decimal(v: int) -> Seq<char> {
    if v < 0 {
        seq!['-'] + decimal((-v) as nat)
    } else {
        decimal(v as nat)
    }
}

/// A byte as two hexadecimal digits.
pub open spec fn hex_byte(b: u8) -> Seq<char> {
    seq![hex_digit_char((b / 16) as nat), hex_digit_char((b % 16) as nat)]
}

/// The bytes as two-digit hexadecimal numbers separated by `", "`.
pub open spec fn hex_items(s: Seq<u8>) -> Seq<char>
    decreases s.len(),
{
    if s.len() == 0 {
        seq![]
    } else if s.len() == 1 {
        hex_byte(s[0])
    } else {
        hex_items(s.drop_last()) + seq![',', ' '] + hex_byte(s.last())
    }
}

/// The bytes as a bracketed list of two-digit hexadecimal numbers, such as
/// `[52, 0a]`.
pub open spec fn hex_list(s: Seq<u8>) -> Seq<char> {
    seq!['['] + hex_items(s) + seq![']']
}

fn hex_digit_str(d: u8) -> (r: &'static str)
    requires
        d < 16,
    ensures
        r@ == seq![hex_digit_char(d as nat)],
{
    proof {
        reveal_strlit("0");
        reveal_strlit("1");
        reveal_strlit("2");
        reveal_strlit("3");
        reveal_strlit("4");
        reveal_strlit("5");
        reveal_strlit("6");
        reveal_strlit("7");
        reveal_strlit("8");
        reveal_strlit("9");
        reveal_strlit("a");
        reveal_strlit("b");
        reveal_strlit("c");
        reveal_strlit("d");
        reveal_strlit("e");
        reveal_strlit("f");
    }
    if d == 0 {
        "0"
    } else if d == 1 {
        "1"
    } else if d == 2 {
        "2"
    } else if d == 3 {
        "3"
    } else if d == 4 {
        "4"
    } else if d == 5 {
        "5"
    } else if d == 6 {
        "6"
    } else if d == 7 {
        "7"
    } else if d == 8 {
        "8"
    } else if d == 9 {
        "9"
    } else if d == 10 {
        "a"
    } else if d == 11 {
        "b"
    } else if d == 12 {
        "c"
    } else if d == 13 {
        "d"
    } else if d == 14 {
        "e"
    } else {
        "f"
    }
}

/// Appends the decimal digits of `v`.
pub fn push_decimal(s: &mut String, v: u64)
    ensures
        final(s)@ == old(s)@ + decimal(v as nat),
    decreases v,
{
    if v >= 10 {
        push_decimal(s, v / 10);
    }
    s.append(hex_digit_str((v % 10) as u8));
    assert(final(s)@ =~= old(s)@ + decimal(v as nat));
}

/// Appends the decimal digits of `v`, padded with a zero to at least two.
pub fn push_decimal2(s: &mut String, v: u64)
    ensures
        final(s)@ == old(s)@ + decimal2(v as nat),
{
    if v < 10 {
        proof {
            reveal_strlit("0");
        }
        s.append("0");
    }
    push_decimal(s, v);
    assert(final(s)@ =~= old(s)@ + decimal2(v as nat));
}

/// Appends `v` in decimal, with a minus sign where it is negative.
pub fn push_signed_decimal(s: &mut String, v: i64)
    ensures
        final(s)@ == old(s)@ + signed_decimal(v as int),
{
    if v < 0 {
        proof {
            reveal_strlit("-");
        }
        s.append("-");
        let m: u64 = if v == i64::MIN {
            0x8000_0000_0000_0000u64
        } else {
            (-v) as u64
        };
        push_decimal(s, m);
    } else {
        push_decimal(s, v as u64);
    }
    assert(final(s)@ =~= old(s)@ + signed_decimal(v as int));
}

/// Appends the bytes as a bracketed list of two-digit hexadecimal numbers.
pub fn push_hex_list(s: &mut String, bytes: &[u8])
    ensures
        final(s)@ == old(s)@ + hex_list(bytes@),
{
    proof {
        reveal_strlit("[");
        reveal_strlit("]");
        reveal_strlit(", ");
    }
    let ghost start = s@;
    s.append("[");
    let mut i: usize = 0;
    while i < bytes.len()
        invariant
            i <= bytes@.len(),
            s@ == start + seq!['['] + hex_items(bytes@.take(i as int)),
        decreases bytes@.len() - i,
    {
        let ghost before = s@;
        if i > 0 {
            proof {
                reveal_strlit(", ");
            }
            s.append(", ");
        }
        let ghost mid = s@;
        let b = bytes[i];
        s.append(hex_digit_str(b / 16));
        s.append(hex_digit_str(b % 16));
        proof {
            let t = bytes@.take(i + 1);
            assert(t.drop_last() =~= bytes@.take(i as int));
            assert(t.last() == b);
            assert(s@ =~= mid + hex_byte(b));
            if i == 0 {
                assert(t.len() == 1);
                assert(t[0] == b);
                assert(hex_items(t) == hex_byte(b));
                assert(bytes@.take(0) =~= Seq::<u8>::empty());
                assert(hex_items(bytes@.take(0)) =~= Seq::<char>::empty());
            } else {
                assert(hex_items(t) == hex_items(bytes@.take(i as int)) + seq![',', ' '] + hex_byte(b));
                assert(mid =~= before + seq![',', ' ']);
            }
            assert(s@ =~= start + seq!['['] + hex_items(t));
        }
        i = i + 1;
    }
    s.append("]");
    assert(bytes@.take(bytes@.len() as int) =~= bytes@);
    assert(s@ =~= start + hex_list(bytes@));
}

} // verus!
