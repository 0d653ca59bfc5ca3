//! Amounts of money in whole cents and their two-decimal text.

use vstd::prelude::*;
use vstd::string::*;

verus! {

/// The character of a decimal digit.
pub open spec fn digit_char(d: nat) -> char
    recommends
        d < 10,
{
    (48 + d) as char
}

/// The decimal numeral of a natural number, without leading zeros.
pub open spec fn spec_decimal(n: nat) -> Seq<char>
    decreases n,
{
    if n < 10 {
        seq![digit_char(n)]
    } else {
        spec_decimal(n / 10).push(digit_char(n % 10))
    }
}

/// An amount of cents written in units with exactly two decimals.
pub open spec fn spec_amount(cents: nat) -> Seq<char> {
    spec_decimal(cents / 100) + seq!['.', digit_char((cents / 10) % 10), digit_char(cents % 10)]
}

/// The one-character text of a decimal digit.
pub fn digit_text(d: u64) -> (t: &'static str)
    requires
        d < 10,
    ensures
        t@ == seq![digit_char(d as nat)],
{
    proof {
        reveal_strlit("0");
        reveal_strlit("1");
        reveal_strlit("2");
        reveal_strlit("3");
        reveal_strlit("4");
        reveal_strlit("5");
        reveal_strlit("6");
        reveal_strlit("7");
        reveal_strlit("8");
        reveal_strlit("9");
    }
    let t = if d == 0 {
        "0"
    } else if d == 1 {
        "1"
    } else if d == 2 {
        "2"
    } else if d == 3 {
        "3"
    } else if d == 4 {
        "4"
    } else if d == 5 {
        "5"
    } else if d == 6 {
        "6"
    } else if d == 7 {
        "7"
    } else if d == 8 {
        "8"
    } else {
        "9"
    };
    assert(t@ =~= seq![digit_char(d as nat)]);
    t
}

/// Appends the decimal numeral of `n` to `out`.
pub fn push_decimal(out: &mut String, n: u64)
    ensures
        final(out)@ == old(out)@ + spec_decimal(n as nat),
    decreases n,
{
    if n >= 10 {
        push_decimal(out, n / 10);
    }
    out.append(digit_text(n % 10));
    assert(out@ =~= old(out)@ + spec_decimal(n as nat));
}

/// Appends an amount of cents, in units with two decimals, to `out`.
pub fn push_amount(out: &mut String, cents: u64)
    ensures
        final(out)@ == old(out)@ + spec_amount(cents as nat),
{
    push_decimal(out, cents / 100);
    out.append(".");
    out.append(digit_text((cents / 10) % 10));
    out.append(digit_text(cents % 10));
    proof {
        reveal_strlit(".");
        assert("."@ =~= seq!['.']);
        assert(out@ =~= old(out)@ + spec_amount(cents as nat));
    }
}

/// An amount of cents as text, in units with two decimals.
pub fn format_amount(cents: u64) -> (text: String)
    ensures
        text@ == spec_amount(cents as nat),
{
    let mut text = String::new();
    push_amount(&mut text, cents);
    assert(Seq::<char>::empty() + spec_amount(cents as nat) =~= spec_amount(cents as nat));
    text
}

} // verus!
