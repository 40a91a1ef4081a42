//! Number formatting used in device descriptions: `{:04x}` for 16-bit ids and
//! `{}` for indices.

use vstd::prelude::*;

verus! {

/// The lower-case hexadecimal digit for `d` (`d < 16`).
pub open spec fn hex_digit(d: int) -> char {
    seq!['0', '1', '2', '3', '4', '5', '6', '7', '8', '9', 'a', 'b', 'c', 'd', 'e', 'f'][d]
}

/// The numeric value of a lower-case hexadecimal digit, or -1.
pub open spec fn hex_digit_value(c: char) -> int {
    if '0' <= c && c <= '9' {
        c as int - '0' as int
    } else if 'a' <= c && c <= 'f' {
        c as int - 'a' as int + 10
    } else {
        -1
    }
}

/// `x` as exactly four lower-case hexadecimal digits, most significant first
/// (what `format!("{:04x}", x)` gives for a `u16`).
pub open spec fn hex4(x: u16) -> Seq<char> {
    seq![
        hex_digit(x as int / 4096),
        hex_digit((x as int / 256) % 16),
        hex_digit((x as int / 16) % 16),
        hex_digit(x as int % 16),
    ]
}

/// The decimal digit for `d` (`d < 10`).
pub open spec fn dec_digit(d: int) -> char {
    hex_digit(d)
}

/// `n` in decimal without leading zeros (what `format!("{}", n)` gives).
pub open spec fn decimal(n: nat) -> Seq<char>
    decreases n,
{
    if n < 10 {
        seq![dec_digit(n as int)]
    } else {
        decimal(n / 10).push(dec_digit((n % 10) as int))
    }
}

/// The value that a string of hexadecimal digits denotes.
pub open spec fn hex_value(s: Seq<char>) -> int
    decreases s.len(),
{
    if s.len() == 0 {
        0
    } else {
        hex_value(s.drop_last()) * 16 + hex_digit_value(s.last())
    }
}

/// Four hexadecimal digits denote the number they were made from, so the
/// ids printed in a device description can be read back exactly.
pub proof fn lemma_hex4_value(x: u16)
    ensures
        hex4(x).len() == 4,
        hex_value(hex4(x)) == x,
        forall|i: int| 0 <= i < 4 ==> 0 <= #[trigger] hex_digit_value(hex4(x)[i]) < 16,
        forall|i: int|
            0 <= i < 4 ==> ('0' <= #[trigger] hex4(x)[i] <= '9') || ('a' <= hex4(x)[i] <= 'f'),
{
    let s = hex4(x);
    let d0 = x as int / 4096;
    let d1 = (x as int / 256) % 16;
    let d2 = (x as int / 16) % 16;
    let d3 = x as int % 16;
    assert(0 <= d0 < 16);
    assert(hex_digit_value(hex_digit(d0)) == d0);
    assert(hex_digit_value(hex_digit(d1)) == d1);
    assert(hex_digit_value(hex_digit(d2)) == d2);
    assert(hex_digit_value(hex_digit(d3)) == d3);
    assert(s.drop_last().drop_last().drop_last().drop_last() =~= Seq::<char>::empty());
    assert(s.drop_last().drop_last().drop_last() =~= seq![hex_digit(d0)]);
    assert(s.drop_last().drop_last() =~= seq![hex_digit(d0), hex_digit(d1)]);
    assert(s.drop_last() =~= seq![hex_digit(d0), hex_digit(d1), hex_digit(d2)]);
    reveal_with_fuel(hex_value, 5);
    assert(hex_value(s) == ((d0 * 16 + d1) * 16 + d2) * 16 + d3);
}

/// Whether `c` is a decimal digit.
pub open spec fn is_dec_digit(c: char) -> bool {
    0 <= hex_digit_value(c) < 10
}

/// The value that a string of decimal digits denotes.
pub open spec fn dec_value(s: Seq<char>) -> int
    decreases s.len(),
{
    if s.len() == 0 {
        0
    } else {
        dec_value(s.drop_last()) * 10 + hex_digit_value(s.last())
    }
}

/// The decimal text of `n` is a non-empty string of digits that denotes `n`;
/// so two numbers have the same decimal text only where they are equal.
pub proof fn lemma_decimal_digits(n: nat)
    ensures
        decimal(n).len() >= 1,
        forall|i: int| 0 <= i < decimal(n).len() ==> #[trigger] is_dec_digit(decimal(n)[i]),
        forall|i: int| 0 <= i < decimal(n).len() ==> '0' <= #[trigger] decimal(n)[i] <= '9',
        dec_value(decimal(n)) == n,
    decreases n,
{
    if n < 10 {
        assert(hex_digit_value(hex_digit(n as int)) == n);
        assert(decimal(n).drop_last() =~= Seq::<char>::empty());
        assert(dec_value(Seq::<char>::empty()) == 0);
        assert(dec_value(decimal(n)) == dec_value(decimal(n).drop_last()) * 10 + hex_digit_value(
            decimal(n).last(),
        ));
    } else {
        lemma_decimal_digits(n / 10);
        let d = (n % 10) as int;
        assert(hex_digit_value(hex_digit(d)) == d);
        assert(decimal(n).drop_last() =~= decimal(n / 10));
        assert(decimal(n).last() == hex_digit(d));
        assert(dec_value(decimal(n)) == dec_value(decimal(n / 10)) * 10 + d);
        assert forall|i: int| 0 <= i < decimal(n).len() implies #[trigger] is_dec_digit(
            decimal(n)[i],
        ) by {
            if i < decimal(n / 10).len() {
                assert(decimal(n)[i] == decimal(n / 10)[i]);
            }
        }
    }
}

/// The one-character text of the hexadecimal digit `d`.
fn hex_digit_text(d: u16) -> (r: &'static str)
    requires
        d < 16,
    ensures
        r@ == seq![hex_digit(d as int)],
{
    proof {
        reveal_strlit("0");
        reveal_strlit("1");
        reveal_strlit("2");
        reveal_strlit("3");
        reveal_strlit("4");
        reveal_strlit("5");
        reveal_strlit("6");
        reveal_strlit("7");
        reveal_strlit("8");
        reveal_strlit("9");
        reveal_strlit("a");
        reveal_strlit("b");
        reveal_strlit("c");
        reveal_strlit("d");
        reveal_strlit("e");
        reveal_strlit("f");
    }
    let r = if d == 0 {
        "0"
    } else if d == 1 {
        "1"
    } else if d == 2 {
        "2"
    } else if d == 3 {
        "3"
    } else if d == 4 {
        "4"
    } else if d == 5 {
        "5"
    } else if d == 6 {
        "6"
    } else if d == 7 {
        "7"
    } else if d == 8 {
        "8"
    } else if d == 9 {
        "9"
    } else if d == 10 {
        "a"
    } else if d == 11 {
        "b"
    } else if d == 12 {
        "c"
    } else if d == 13 {
        "d"
    } else if d == 14 {
        "e"
    } else {
        "f"
    };
    assert(r@ =~= seq![hex_digit(d as int)]);
    r
}

/// Appends `x` as four lower-case hexadecimal digits.
pub fn push_hex4(s: &mut String, x: u16)
    ensures
        final(s)@ == old(s)@ + hex4(x),
{
    s.append(hex_digit_text(x / 4096));
    s.append(hex_digit_text((x / 256) % 16));
    s.append(hex_digit_text((x / 16) % 16));
    s.append(hex_digit_text(x % 16));
    assert(s@ =~= old(s)@ + hex4(x));
}

/// Appends `n` in decimal.
pub fn push_decimal(s: &mut String, n: u64)
    ensures
        final(s)@ == old(s)@ + decimal(n as nat),
    decreases n,
{
    if n >= 10 {
        push_decimal(s, n / 10);
    }
    let d = (n % 10) as u16;
    s.append(hex_digit_text(d));
    assert(s@ =~= old(s)@ + decimal(n as nat));
}

} // verus!
