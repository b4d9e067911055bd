//! Endpoint addresses of the in-memory network.
//!
//! A session is opened against an endpoint named by an IPv4 literal in
//! the usual dotted form, four octets such as `10.0.0.5`. Resolving a
//! host name needs a name service, which only the surrounding
//! application can provide; inside the library, an address resolves
//! exactly when it is a well-formed literal.

use vstd::prelude::*;

use crate::tag::digit_run_end;
use crate::tag::digits_value;
use crate::tag::parse_number_x;

verus! {

use vstd::string::StrSliceExecFns;

/// A resolved IPv4 endpoint address, one field per octet.
#[derive(Clone, Copy, Debug, PartialEq, Eq, Structural)]
pub struct HostAddr {
    pub o0: u8,
    pub o1: u8,
    pub o2: u8,
    pub o3: u8,
}

/// A well-formed octet starts at `i`: one to three digits, a value up to
/// 255, and no leading zero.
pub open spec fn valid_octet_at(s: Seq<char>, i: int) -> bool {
    let j = digit_run_end(s, i);
    &&& i < j
    &&& j - i <= 3
    &&& digits_value(s, i, j) <= 255
    &&& (j - i > 1 ==> s[i] != '0')
}

/// The value of the octet starting at `i`.
pub open spec fn octet_at(s: Seq<char>, i: int) -> u8 {
    digits_value(s, i, digit_run_end(s, i)) as u8
}

/// The string is a dotted IPv4 literal: four octets joined by `.`,
/// nothing before and nothing after.
pub open spec fn valid_host_literal(s: Seq<char>) -> bool {
    let j1 = digit_run_end(s, 0);
    let j2 = digit_run_end(s, j1 + 1);
    let j3 = digit_run_end(s, j2 + 1);
    let j4 = digit_run_end(s, j3 + 1);
    &&& valid_octet_at(s, 0)
    &&& j1 < s.len() && s[j1] == '.'
    &&& valid_octet_at(s, j1 + 1)
    &&& j2 < s.len() && s[j2] == '.'
    &&& valid_octet_at(s, j2 + 1)
    &&& j3 < s.len() && s[j3] == '.'
    &&& valid_octet_at(s, j3 + 1)
    &&& j4 == s.len()
}

/// The endpoint a literal stands for.
pub open spec fn host_of(s: Seq<char>) -> HostAddr {
    let j1 = digit_run_end(s, 0);
    let j2 = digit_run_end(s, j1 + 1);
    let j3 = digit_run_end(s, j2 + 1);
    HostAddr {
        o0: octet_at(s, 0),
        o1: octet_at(s, j1 + 1),
        o2: octet_at(s, j2 + 1),
        o3: octet_at(s, j3 + 1),
    }
}

/// Reads the octet starting at `i`: its value and the position after its
/// digits, or `None` where no well-formed octet starts there.
fn parse_octet_x(s: &str, i: usize, n: usize) -> (r: Option<(u8, usize)>)
    requires
        i <= n,
        n as int == s@.len(),
    ensures
        match r {
            Some(p) => valid_octet_at(s@, i as int) && p.0 == octet_at(s@, i as int) && p.1
                as int == digit_run_end(s@, i as int) && i < p.1 && p.1 <= n,
            None => !valid_octet_at(s@, i as int),
        },
{
    match parse_number_x(s, i, n) {
        None => None,
        Some((val, j)) => {
            proof {
                crate::tag::lemma_digit_run_chars(s@, i as int);
                crate::tag::lemma_digits_value_nonneg(s@, i as int, digit_run_end(s@, i as int));
            }
            if j - i > 3 {
                return None;
            }
            if val > 255 {
                return None;
            }
            if j - i > 1 {
                let c = s.get_char(i);
                if c == '0' {
                    return None;
                }
            }
            Some((val as u8, j))
        },
    }
}

/// Resolves a dotted IPv4 literal to its endpoint. `None` exactly where
/// the string is not a well-formed literal.
pub fn parse_host(s: &str) -> (r: Option<HostAddr>)
    ensures
        match r {
            Some(h) => valid_host_literal(s@) && h == host_of(s@),
            None => !valid_host_literal(s@),
        },
{
    let n = s.unicode_len();
    let (a, j1) = match parse_octet_x(s, 0, n) {
        None => {
            return None;
        },
        Some(p) => p,
    };
    if j1 >= n || s.get_char(j1) != '.' {
        return None;
    }
    let (b, j2) = match parse_octet_x(s, j1 + 1, n) {
        None => {
            return None;
        },
        Some(p) => p,
    };
    if j2 >= n || s.get_char(j2) != '.' {
        return None;
    }
    let (c, j3) = match parse_octet_x(s, j2 + 1, n) {
        None => {
            return None;
        },
        Some(p) => p,
    };
    if j3 >= n || s.get_char(j3) != '.' {
        return None;
    }
    let (d, j4) = match parse_octet_x(s, j3 + 1, n) {
        None => {
            return None;
        },
        Some(p) => p,
    };
    if j4 != n {
        return None;
    }
    Some(HostAddr { o0: a, o1: b, o2: c, o3: d })
}

} // verus!
