//! Building blocks of a report line: decimal numbers, fixed-point
//! percentages and left-aligned columns padded with spaces.

use vstd::prelude::*;
use vstd::string::*;

verus! {

/// The character of the decimal digit `d`.
pub open spec fn digit_char(d: nat) -> char
    recommends
        d < 10,
{
    (48 + d) as char
}

/// `n` in decimal notation, without leading zeros.
pub open spec fn decimal(n: nat) -> Seq<char>
    decreases n,
{
    if n < 10 {
        seq![digit_char(n)]
    } else {
        decimal(n / 10).push(digit_char(n % 10))
    }
}

/// A number given in hundredths, written with exactly two decimals.
pub open spec fn hundredths(n: nat) -> Seq<char> {
    decimal(n / 100) + seq!['.', digit_char((n / 10) % 10), digit_char(n % 10)]
}

/// `count` spaces.
pub open spec fn spaces(count: nat) -> Seq<char> {
    Seq::new(count, |i: int| ' ')
}

/// `text`, followed by the spaces that bring it to `width` characters;
/// a text that is already as wide is left as it is.
pub open spec fn pad_right(text: Seq<char>, width: nat) -> Seq<char> {
    if text.len() >= width {
        text
    } else {
        text + spaces((width - text.len()) as nat)
    }
}

fn digit_str(d: u8) -> (s: &'static str)
    requires
        d < 10,
    ensures
        s@ == seq![digit_char(d as nat)],
{
    proof {
        reveal_strlit("0");
        reveal_strlit("1");
        reveal_strlit("2");
        reveal_strlit("3");
        reveal_strlit("4");
        reveal_strlit("5");
        reveal_strlit("6");
        reveal_strlit("7");
        reveal_strlit("8");
        reveal_strlit("9");
    }
    let s: &'static str = match d {
        0 => "0",
        1 => "1",
        2 => "2",
        3 => "3",
        4 => "4",
        5 => "5",
        6 => "6",
        7 => "7",
        8 => "8",
        _ => "9",
    };
    assert(s@ =~= seq![digit_char(d as nat)]);
    s
}

/// Appends `n` in decimal notation.
pub fn push_decimal(out: &mut String, n: u128)
    ensures
        final(out)@ == old(out)@ + decimal(n as nat),
    decreases n,
{
    if n >= 10 {
        push_decimal(out, n / 10);
    }
    let d: u8 = (n % 10) as u8;
    out.append(digit_str(d));
    assert(out@ =~= old(out)@ + decimal(n as nat));
}

/// Appends a number given in hundredths, with two decimals.
pub fn push_hundredths(out: &mut String, n: u128)
    ensures
        final(out)@ == old(out)@ + hundredths(n as nat),
{
    push_decimal(out, n / 100);
    out.append(".");
    let tenths: u8 = ((n / 10) % 10) as u8;
    out.append(digit_str(tenths));
    let units: u8 = (n % 10) as u8;
    out.append(digit_str(units));
    proof {
        reveal_strlit(".");
        assert(out@ =~= old(out)@ + hundredths(n as nat));
    }
}

/// Appends `count` spaces.
pub fn push_spaces(out: &mut String, count: usize)
    ensures
        final(out)@ == old(out)@ + spaces(count as nat),
{
    let mut i: usize = 0;
    while i < count
        invariant
            i <= count,
            out@ == old(out)@ + spaces(i as nat),
        decreases count - i,
    {
        out.append(" ");
        i += 1;
        proof {
            reveal_strlit(" ");
            assert(out@ =~= old(out)@ + spaces(i as nat));
        }
    }
}

/// Appends `text` as a left-aligned column of `width` characters.
pub fn push_padded(out: &mut String, text: &str, width: usize)
    ensures
        final(out)@ == old(out)@ + pad_right(text@, width as nat),
{
    let len: usize = text.unicode_len();
    out.append(text);
    if len < width {
        push_spaces(out, width - len);
    }
    assert(out@ =~= old(out)@ + pad_right(text@, width as nat));
}

/// `n` in decimal notation.
pub fn decimal_string(n: u128) -> (s: String)
    ensures
        s@ == decimal(n as nat),
{
    let mut s = String::new();
    push_decimal(&mut s, n);
    assert(s@ =~= decimal(n as nat));
    s
}

/// A number given in hundredths, with two decimals.
pub fn hundredths_string(n: u128) -> (s: String)
    ensures
        s@ == hundredths(n as nat),
{
    let mut s = String::new();
    push_hundredths(&mut s, n);
    assert(s@ =~= hundredths(n as nat));
    s
}

} // verus!
