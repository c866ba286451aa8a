//! Rendering of entids and keywords into the text that error messages
//! carry: a positive integer in decimal, a keyword as `:ns/name`.

use vstd::prelude::*;
use vstd::string::StringExecFns;
use crate::values::Keyword;

verus! {

/// The decimal digit character for `d` (meaningful for `d < 10`).
pub open spec fn dec_digit(d: nat) -> char {
    if d == 0 {
        '0'
    } else if d == 1 {
        '1'
    } else if d == 2 {
        '2'
    } else if d == 3 {
        '3'
    } else if d == 4 {
        '4'
    } else if d == 5 {
        '5'
    } else if d == 6 {
        '6'
    } else if d == 7 {
        '7'
    } else if d == 8 {
        '8'
    } else {
        '9'
    }
}

/// The decimal representation of `n`, most significant digit first.
pub open spec fn dec_rep(n: nat) -> Seq<char>
    decreases n,
{
    if n < 10 {
        seq![dec_digit(n)]
    } else {
        dec_rep(n / 10).push(dec_digit(n % 10))
    }
}

/// A one-character string slice for the digit `d`.
fn digit_str(d: u64) -> (s: &'static str)
    requires
        d < 10,
    ensures
        s@ == seq![dec_digit(d as nat)],
{
    if d == 0 {
        proof {
            reveal_strlit("0");
            assert("0"@ =~= seq![dec_digit(0)]);
        }
        "0"
    } else if d == 1 {
        proof {
            reveal_strlit("1");
            assert("1"@ =~= seq![dec_digit(1)]);
        }
        "1"
    } else if d == 2 {
        proof {
            reveal_strlit("2");
            assert("2"@ =~= seq![dec_digit(2)]);
        }
        "2"
    } else if d == 3 {
        proof {
            reveal_strlit("3");
            assert("3"@ =~= seq![dec_digit(3)]);
        }
        "3"
    } else if d == 4 {
        proof {
            reveal_strlit("4");
            assert("4"@ =~= seq![dec_digit(4)]);
        }
        "4"
    } else if d == 5 {
        proof {
            reveal_strlit("5");
            assert("5"@ =~= seq![dec_digit(5)]);
        }
        "5"
    } else if d == 6 {
        proof {
            reveal_strlit("6");
            assert("6"@ =~= seq![dec_digit(6)]);
        }
        "6"
    } else if d == 7 {
        proof {
            reveal_strlit("7");
            assert("7"@ =~= seq![dec_digit(7)]);
        }
        "7"
    } else if d == 8 {
        proof {
            reveal_strlit("8");
            assert("8"@ =~= seq![dec_digit(8)]);
        }
        "8"
    } else {
        proof {
            reveal_strlit("9");
            assert("9"@ =~= seq![dec_digit(9)]);
        }
        "9"
    }
}

/// Render `n` in decimal.
pub fn render_u64(n: u64) -> (s: String)
    ensures
        s@ == dec_rep(n as nat),
    decreases n,
{
    if n < 10 {
        digit_str(n).to_owned()
    } else {
        let mut s = render_u64(n / 10);
        s.append(digit_str(n % 10));
        proof {
            assert(s@ =~= dec_rep(n as nat));
        }
        s
    }
}

/// The decimal representation of an integer, with a sign when negative.
pub open spec fn dec_rep_signed(n: int) -> Seq<char> {
    if n >= 0 {
        dec_rep(n as nat)
    } else {
        seq!['-'] + dec_rep((-n) as nat)
    }
}

/// Render `n` in decimal, with a sign when negative.
pub fn render_i64(n: i64) -> (s: String)
    ensures
        s@ == dec_rep_signed(n as int),
{
    if n >= 0 {
        render_u64(n as u64)
    } else {
        let mag: u64 = (-(n as i128)) as u64;
        proof {
            reveal_strlit("-");
            assert("-"@ =~= seq!['-']);
        }
        let mut s = "-".to_owned();
        s.append(render_u64(mag).as_str());
        proof {
            assert(s@ =~= dec_rep_signed(n as int));
        }
        s
    }
}

/// The printed form of a keyword: `:name`, or `:ns/name` when namespaced.
pub open spec fn keyword_rep(k: (Seq<char>, Seq<char>)) -> Seq<char> {
    if k.0.len() == 0 {
        seq![':'] + k.1
    } else {
        seq![':'] + k.0 + seq!['/'] + k.1
    }
}

/// Render a keyword as `:ns/name` (or `:name` when plain).
pub fn render_keyword(k: &Keyword) -> (s: String)
    ensures
        s@ == keyword_rep(k@),
{
    proof {
        reveal_strlit(":");
        reveal_strlit("/");
        assert(":"@ =~= seq![':']);
        assert("/"@ =~= seq!['/']);
    }
    let mut s = ":".to_owned();
    if !k.namespace.as_str().is_empty() {
        s.append(k.namespace.as_str());
        s.append("/");
    }
    s.append(k.name.as_str());
    proof {
        assert(s@ =~= keyword_rep(k@));
    }
    s
}

} // verus!
