//! Text: comparing, numbers in decimal, lists of numbers.

use vstd::prelude::*;

verus! {

/// Are the two texts equal?
pub fn same_text(a: &str, b: &str) -> (r: bool)
    ensures
        r == (a@ == b@),
{
    a.to_owned() == b.to_owned()
}

/// The decimal digit `d`.
pub open spec fn digit(d: nat) -> char {
    if d == 0 {
        '0'
    } else if d == 1 {
        '1'
    } else if d == 2 {
        '2'
    } else if d == 3 {
        '3'
    } else if d == 4 {
        '4'
    } else if d == 5 {
        '5'
    } else if d == 6 {
        '6'
    } else if d == 7 {
        '7'
    } else if d == 8 {
        '8'
    } else {
        '9'
    }
}

/// `n` in decimal, without leading zeros.
pub open spec fn decimal(n: nat) -> Seq<char>
    decreases n,
{
    if n < 10 {
        seq![digit(n)]
    } else {
        decimal(n / 10).push(digit(n % 10))
    }
}

/// The decimal digit `d`.
fn digit_text(d: u64) -> (r: &'static str)
    requires
        d < 10,
    ensures
        r@ == seq![digit(d as nat)],
{
    proof {
        reveal_strlit("0");
        reveal_strlit("1");
        reveal_strlit("2");
        reveal_strlit("3");
        reveal_strlit("4");
        reveal_strlit("5");
        reveal_strlit("6");
        reveal_strlit("7");
        reveal_strlit("8");
        reveal_strlit("9");
    }
    match d {
        0 => "0",
        1 => "1",
        2 => "2",
        3 => "3",
        4 => "4",
        5 => "5",
        6 => "6",
        7 => "7",
        8 => "8",
        _ => "9",
    }
}

/// Appends `n` in decimal.
pub fn push_decimal(s: &mut String, n: u64)
    ensures
        final(s)@ == old(s)@ + decimal(n as nat),
    decreases n,
{
    if n < 10 {
        s.append(digit_text(n));
    } else {
        push_decimal(s, n / 10);
        let ghost upto = s@;
        s.append(digit_text(n % 10));
        assert(s@ =~= upto.push(digit((n % 10) as nat)));
        assert(s@ =~= old(s)@ + decimal(n as nat));
    }
}

/// The numbers, each in decimal, with a comma and a blank between them.
pub open spec fn listed(v: Seq<usize>) -> Seq<char>
    decreases v.len(),
{
    if v.len() == 0 {
        Seq::empty()
    } else if v.len() == 1 {
        decimal(v[0] as nat)
    } else {
        listed(v.drop_last()) + ", "@ + decimal(v.last() as nat)
    }
}

/// The numbers in square brackets.
pub open spec fn bracketed(v: Seq<usize>) -> Seq<char> {
    "["@ + listed(v) + "]"@
}

/// Appends the numbers in square brackets.
pub fn push_list(s: &mut String, v: &[usize])
    ensures
        final(s)@ == old(s)@ + bracketed(v@),
{
    s.append("[");
    let mut i: usize = 0;
    assert(s@ =~= old(s)@ + "["@ + listed(v@.take(0)));
    while i < v.len()
        invariant
            i <= v@.len(),
            s@ == old(s)@ + "["@ + listed(v@.take(i as int)),
        decreases v@.len() - i,
    {
        let ghost upto = v@.take(i as int);
        let ghost next = v@.take(i + 1);
        if i > 0 {
            s.append(", ");
        }
        push_decimal(s, v[i] as u64);
        proof {
            assert(next.drop_last() =~= upto);
            assert(next.last() == v@[i as int]);
            assert(s@ =~= old(s)@ + "["@ + listed(next));
        }
        i += 1;
    }
    assert(v@.take(v@.len() as int) =~= v@);
    s.append("]");
    assert(s@ =~= old(s)@ + bracketed(v@));
}

} // verus!
