//! Decimal digits written into strings.

use vstd::prelude::*;
use vstd::string::StringExecFns;

verus! {

/// The character of a decimal digit.
pub open spec fn digit(d: nat) -> char {
    if d == 0 {
        '0'
    } else if d == 1 {
        '1'
    } else if d == 2 {
        '2'
    } else if d == 3 {
        '3'
    } else if d == 4 {
        '4'
    } else if d == 5 {
        '5'
    } else if d == 6 {
        '6'
    } else if d == 7 {
        '7'
    } else if d == 8 {
        '8'
    } else {
        '9'
    }
}

/// `n` in decimal, without leading zeros.
pub open spec fn decimal(n: nat) -> Seq<char>
    decreases n,
{
    if n < 10 {
        seq![digit(n)]
    } else {
        decimal(n / 10).push(digit(n % 10))
    }
}

/// `n` in decimal, with leading zeros up to `width` characters.
pub open spec fn padded(n: nat, width: nat) -> Seq<char> {
    if decimal(n).len() < width {
        Seq::new((width - decimal(n).len()) as nat, |i: int| '0') + decimal(n)
    } else {
        decimal(n)
    }
}

fn digit_str(d: u64) -> (r: &'static str)
    requires
        d < 10,
    ensures
        r@ == seq![digit(d as nat)],
{
    proof {
        reveal_strlit("0");
        reveal_strlit("1");
        reveal_strlit("2");
        reveal_strlit("3");
        reveal_strlit("4");
        reveal_strlit("5");
        reveal_strlit("6");
        reveal_strlit("7");
        reveal_strlit("8");
        reveal_strlit("9");
    }
    match d {
        0 => "0",
        1 => "1",
        2 => "2",
        3 => "3",
        4 => "4",
        5 => "5",
        6 => "6",
        7 => "7",
        8 => "8",
        _ => "9",
    }
}

/// Appends `n` in decimal.
pub fn push_decimal(s: &mut String, n: u64)
    ensures
        final(s)@ == old(s)@ + decimal(n as nat),
    decreases n,
{
    if n >= 10 {
        push_decimal(s, n / 10);
    }
    s.append(digit_str(n % 10));
    assert(final(s)@ =~= old(s)@ + decimal(n as nat));
}

proof fn lemma_decimal_len(n: nat)
    ensures
        decimal(n).len() >= 1,
        n < 10 ==> decimal(n).len() <= 1,
        n < 100 ==> decimal(n).len() <= 2,
        n < 1000 ==> decimal(n).len() <= 3,
        n < 10000 ==> decimal(n).len() <= 4,
        n < 100000 ==> decimal(n).len() <= 5,
    decreases n,
{
    if n >= 10 {
        lemma_decimal_len(n / 10);
    }
}

/// Appends `n` in decimal, padded with leading zeros to `width` characters.
pub fn push_padded(s: &mut String, n: u16, width: u8)
    ensures
        final(s)@ == old(s)@ + padded(n as nat, width as nat),
{
    let ghost start = s@;
    let mut len: u8 = 1;
    let mut rest: u16 = n;
    proof {
        lemma_decimal_len(n as nat);
    }
    while rest >= 10
        invariant
            1 <= len,
            decimal(n as nat).len() <= 5,
            rest <= n,
            decimal(n as nat).len() == len - 1 + decimal(rest as nat).len(),
        decreases rest,
    {
        proof {
            lemma_decimal_len((rest / 10) as nat);
        }
        rest = rest / 10;
        len = len + 1;
    }
    proof {
        lemma_decimal_len(rest as nat);
    }
    let mut written: u8 = 0;
    while len < width && written < width - len
        invariant
            len == decimal(n as nat).len(),
            s@ == start + Seq::new(written as nat, |i: int| '0'),
            len < width ==> written <= width - len,
            len >= width ==> written == 0,
        decreases width - written,
    {
        s.append("0");
        proof {
            reveal_strlit("0");
        }
        written = written + 1;
        assert(s@ =~= start + Seq::new(written as nat, |i: int| '0'));
    }
    push_decimal(s, n as u64);
    assert(s@ =~= start + padded(n as nat, width as nat));
}

} // verus!
