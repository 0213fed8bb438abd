//! Numbers in messages.

use crate::relation::lemma_beginnings;
use vstd::prelude::*;
use vstd::string::StringExecFns;

verus! {

/// A decimal digit as text.
pub open spec fn digit(d: nat) -> Seq<char> {
    if d == 0 {
        "0"@
    } else if d == 1 {
        "1"@
    } else if d == 2 {
        "2"@
    } else if d == 3 {
        "3"@
    } else if d == 4 {
        "4"@
    } else if d == 5 {
        "5"@
    } else if d == 6 {
        "6"@
    } else if d == 7 {
        "7"@
    } else if d == 8 {
        "8"@
    } else {
        "9"@
    }
}

/// A number in decimal notation.
pub open spec fn decimal(n: nat) -> Seq<char>
    decreases n,
{
    if n < 10 {
        digit(n)
    } else {
        decimal(n / 10) + digit(n % 10)
    }
}

/// Writes a number in decimal notation at the end of a text.
pub fn append_number(s: &mut String, n: usize)
    ensures
        final(s)@ == old(s)@ + decimal(n as nat),
    decreases n,
{
    if n >= 10 {
        append_number(s, n / 10);
    }
    let d: usize = n % 10;
    let t = if d == 0 {
        "0"
    } else if d == 1 {
        "1"
    } else if d == 2 {
        "2"
    } else if d == 3 {
        "3"
    } else if d == 4 {
        "4"
    } else if d == 5 {
        "5"
    } else if d == 6 {
        "6"
    } else if d == 7 {
        "7"
    } else if d == 8 {
        "8"
    } else {
        "9"
    };
    s.append(t);
}

/// A digit is one character, and different digits are different characters.
pub proof fn law_digits_differ(a: nat, b: nat)
    requires
        a < 10,
        b < 10,
    ensures
        digit(a).len() == 1,
        digit(a) == digit(b) <==> a == b,
{
    reveal_strlit("0");
    reveal_strlit("1");
    reveal_strlit("2");
    reveal_strlit("3");
    reveal_strlit("4");
    reveal_strlit("5");
    reveal_strlit("6");
    reveal_strlit("7");
    reveal_strlit("8");
    reveal_strlit("9");
    if a != b {
        assert(digit(a)[0] != digit(b)[0]);
    }
}

/// Different numbers read differently.
pub proof fn law_numbers_differ(a: nat, b: nat)
    ensures
        decimal(a).len() > 0,
        decimal(a) == decimal(b) <==> a == b,
    decreases a + b,
{
    let (u, v) = (a % 10, b % 10);
    law_digits_differ(u, v);
    law_digits_differ(v, u);
    if a >= 10 {
        law_numbers_differ(a / 10, 0);
    }
    if b >= 10 {
        law_numbers_differ(b / 10, 0);
    }
    if decimal(a) == decimal(b) {
        if a < 10 && b < 10 {
        } else if a < 10 {
            assert(decimal(b).len() == decimal(b / 10).len() + 1);
        } else if b < 10 {
            assert(decimal(a).len() == decimal(a / 10).len() + 1);
        } else {
            let (x, y) = (decimal(a / 10), decimal(b / 10));
            assert((x + digit(u)).len() == (y + digit(v)).len());
            lemma_beginnings(x, digit(u), y, digit(v));
            law_numbers_differ(a / 10, b / 10);
        }
    }
}

} // verus!
