//! Verified decimal rendering of counters, with right-justification to
//! a fixed width, as the tools print line numbers, run counts and
//! tallies.

use vstd::prelude::*;
use vstd::string::StrSliceExecFns;
use vstd::string::StringExecFns;

verus! {

/// The decimal digit character for a value below ten.
pub open spec fn digit_char(d: nat) -> char {
    if d == 0 {
        '0'
    } else if d == 1 {
        '1'
    } else if d == 2 {
        '2'
    } else if d == 3 {
        '3'
    } else if d == 4 {
        '4'
    } else if d == 5 {
        '5'
    } else if d == 6 {
        '6'
    } else if d == 7 {
        '7'
    } else if d == 8 {
        '8'
    } else {
        '9'
    }
}

/// The decimal digit string of `n`, most significant digit first, with
/// no sign and no leading zero except for `n == 0` itself.
pub open spec fn dec_str(n: nat) -> Seq<char>
    decreases n,
{
    if n < 10 {
        seq![digit_char(n)]
    } else {
        dec_str(n / 10).push(digit_char(n % 10))
    }
}

/// `s` padded on the left with spaces up to `width` characters; a
/// longer `s` is kept whole.
pub open spec fn justify_right(s: Seq<char>, width: nat) -> Seq<char> {
    if s.len() >= width {
        s
    } else {
        Seq::new((width - s.len()) as nat, |i: int| ' ') + s
    }
}

fn digit_literal(d: usize) -> (r: &'static str)
    requires
        d < 10,
    ensures
        r@ =~= seq![digit_char(d as nat)],
{
    proof {
        reveal_strlit("0");
        reveal_strlit("1");
        reveal_strlit("2");
        reveal_strlit("3");
        reveal_strlit("4");
        reveal_strlit("5");
        reveal_strlit("6");
        reveal_strlit("7");
        reveal_strlit("8");
        reveal_strlit("9");
    }
    if d == 0 {
        "0"
    } else if d == 1 {
        "1"
    } else if d == 2 {
        "2"
    } else if d == 3 {
        "3"
    } else if d == 4 {
        "4"
    } else if d == 5 {
        "5"
    } else if d == 6 {
        "6"
    } else if d == 7 {
        "7"
    } else if d == 8 {
        "8"
    } else {
        "9"
    }
}

/// The decimal digit string of `n`.
pub fn usize_to_decimal(n: usize) -> (r: String)
    ensures
        r@ == dec_str(n as nat),
    decreases n,
{
    if n < 10 {
        String::from_str(digit_literal(n))
    } else {
        let q = usize_to_decimal(n / 10);
        let r = q.concat(digit_literal(n % 10));
        proof {
            assert(r@ =~= dec_str(n as nat));
        }
        r
    }
}

fn spaces(n: usize) -> (r: String)
    ensures
        r@ == Seq::new(n as nat, |i: int| ' '),
{
    let mut s = String::new();
    let mut i: usize = 0;
    proof {
        assert(s@ =~= Seq::new(0, |j: int| ' '));
    }
    while i < n
        invariant
            i <= n,
            s@ == Seq::new(i as nat, |j: int| ' '),
        decreases n - i,
    {
        s.append(" ");
        proof {
            reveal_strlit(" ");
            assert(s@ =~= Seq::new((i + 1) as nat, |j: int| ' '));
        }
        i = i + 1;
    }
    s
}

/// The decimal digit string of `n`, right-justified with spaces to
/// `width` characters.
pub fn format_usize(n: usize, width: usize) -> (r: String)
    ensures
        r@ == justify_right(dec_str(n as nat), width as nat),
{
    let d = usize_to_decimal(n);
    let len = d.as_str().unicode_len();
    if len >= width {
        d
    } else {
        let p = spaces(width - len);
        p.concat(d.as_str())
    }
}

} // verus!
