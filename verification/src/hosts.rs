//! The endpoint a scan dials: the configured host as given where it already
//! carries a port, else the host with the configured port appended in
//! decimal.

use vstd::prelude::*;
use vstd::string::*;

use crate::strings::{find_char, first_index_of, lemma_first_index_bounds};

verus! {

/// The character for one decimal digit (`'0'` is code point 48).
pub open spec fn digit_char(d: nat) -> char {
    ((d + 48) as char)
}

/// The decimal digit characters of `n`, most significant first.
pub open spec fn decimal_digits(n: nat) -> Seq<char>
    decreases n,
{
    if n < 10 {
        seq![digit_char(n)]
    } else {
        decimal_digits(n / 10).push(digit_char(n % 10))
    }
}

fn digit_str(d: u16) -> (r: &'static str)
    requires
        d < 10,
    ensures
        r@ == seq![digit_char(d as nat)],
{
    proof {
        reveal_strlit("0");
        reveal_strlit("1");
        reveal_strlit("2");
        reveal_strlit("3");
        reveal_strlit("4");
        reveal_strlit("5");
        reveal_strlit("6");
        reveal_strlit("7");
        reveal_strlit("8");
        reveal_strlit("9");
    }
    match d {
        0 => "0",
        1 => "1",
        2 => "2",
        3 => "3",
        4 => "4",
        5 => "5",
        6 => "6",
        7 => "7",
        8 => "8",
        _ => "9",
    }
}

/// `n` rendered in decimal.
pub fn decimal_string(n: u16) -> (r: String)
    ensures
        r@ == decimal_digits(n as nat),
    decreases n,
{
    if n < 10 {
        digit_str(n).to_owned()
    } else {
        let mut s = decimal_string(n / 10);
        s.append(digit_str(n % 10));
        proof {
            assert(decimal_digits((n / 10) as nat) + seq![digit_char((n % 10) as nat)]
                =~= decimal_digits((n / 10) as nat).push(digit_char((n % 10) as nat)));
        }
        s
    }
}

/// The endpoint to dial: `host` untouched where it already holds a `:`, else
/// `host:port`.
pub fn host_with_port(host: &str, port: u16) -> (r: String)
    ensures
        host@.contains(':') ==> r@ == host@,
        !host@.contains(':') ==> r@ == host@ + seq![':'] + decimal_digits(port as nat),
{
    let len = host.unicode_len();
    let ci = find_char(host, ':');
    proof {
        lemma_first_index_bounds(host@, ':');
    }
    if ci < len {
        proof {
            assert(host@[first_index_of(host@, ':')] == ':');
            assert(host@.contains(':'));
        }
        host.to_owned()
    } else {
        proof {
            reveal_strlit(":");
            assert(":"@ =~= seq![':']);
        }
        let mut r = host.to_owned();
        r.append(":");
        r.append(decimal_string(port).as_str());
        r
    }
}

} // verus!
