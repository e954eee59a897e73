//! Turns a VM interface record looked up by hardware address into a lease:
//! the interface's stored dotted-decimal address parsed into four octets,
//! and the network it belongs to. A record whose stored address is
//! malformed resolves to nothing, exactly like an unknown client.

use vstd::prelude::*;

verus! {

use vstd::string::StrSliceExecFns;
use crate::records::Interface;

/// Value of a decimal digit, or -1 for any other character.
pub open spec fn digit_val(c: char) -> int {
    if c == '0' {
        0
    } else if c == '1' {
        1
    } else if c == '2' {
        2
    } else if c == '3' {
        3
    } else if c == '4' {
        4
    } else if c == '5' {
        5
    } else if c == '6' {
        6
    } else if c == '7' {
        7
    } else if c == '8' {
        8
    } else if c == '9' {
        9
    } else {
        -1
    }
}

/// Whether a character is a decimal digit.
pub open spec fn is_ip_digit(c: char) -> bool {
    digit_val(c) >= 0
}

/// Position of the next '.' at or after `i`, or the string's length when
/// none is left.
pub open spec fn next_dot(s: Seq<char>, i: int) -> int
    decreases s.len() - i,
{
    if i < 0 || i >= s.len() {
        s.len() as int
    } else if s[i] == '.' {
        i
    } else {
        next_dot(s, i + 1)
    }
}

/// Value of one dotted-quad field: one to three decimal digits whose
/// value fits an octet; anything else is malformed.
pub open spec fn spec_octet(s: Seq<char>) -> Option<u8> {
    if 1 <= s.len() <= 3 && (forall|i: int| 0 <= i < s.len() ==> is_ip_digit(#[trigger] s[i])) {
        let v = if s.len() == 1 {
            digit_val(s[0])
        } else if s.len() == 2 {
            digit_val(s[0]) * 10 + digit_val(s[1])
        } else {
            digit_val(s[0]) * 100 + digit_val(s[1]) * 10 + digit_val(s[2])
        };
        if v <= 255 {
            Some(v as u8)
        } else {
            None
        }
    } else {
        None
    }
}

/// The four octets of a dotted-decimal IPv4 address, or nothing when the
/// string is not exactly four valid fields separated by three dots.
pub open spec fn spec_parse_ipv4(s: Seq<char>) -> Option<Seq<u8>> {
    let e1 = next_dot(s, 0);
    let e2 = next_dot(s, e1 + 1);
    let e3 = next_dot(s, e2 + 1);
    if e1 >= s.len() || e2 >= s.len() || e3 >= s.len() || next_dot(s, e3 + 1) != s.len() {
        None
    } else {
        match (
            spec_octet(s.subrange(0, e1)),
            spec_octet(s.subrange(e1 + 1, e2)),
            spec_octet(s.subrange(e2 + 1, e3)),
            spec_octet(s.subrange(e3 + 1, s.len() as int)),
        ) {
            (Some(a), Some(b), Some(c), Some(d)) => Some(seq![a, b, c, d]),
            _ => None,
        }
    }
}

/// The value of one decimal digit character.
fn digit_value(c: char) -> (r: Option<u8>)
    ensures
        match r {
            Some(v) => is_ip_digit(c) && v as int == digit_val(c),
            None => !is_ip_digit(c),
        },
{
    if c == '0' {
        Some(0)
    } else if c == '1' {
        Some(1)
    } else if c == '2' {
        Some(2)
    } else if c == '3' {
        Some(3)
    } else if c == '4' {
        Some(4)
    } else if c == '5' {
        Some(5)
    } else if c == '6' {
        Some(6)
    } else if c == '7' {
        Some(7)
    } else if c == '8' {
        Some(8)
    } else if c == '9' {
        Some(9)
    } else {
        None
    }
}

/// Scans for the next '.' at or after `from`.
fn find_dot(s: &str, from: usize, n: usize) -> (r: usize)
    requires
        n == s@.len(),
        from <= n,
    ensures
        r == next_dot(s@, from as int),
        from <= r <= n,
{
    let mut i: usize = from;
    while i < n
        invariant
            from <= i <= n,
            n == s@.len(),
            next_dot(s@, from as int) == next_dot(s@, i as int),
        decreases n - i,
    {
        let c = s.get_char(i);
        if c == '.' {
            return i;
        }
        proof {
            assert(next_dot(s@, i as int) == next_dot(s@, i as int + 1));
        }
        i = i + 1;
    }
    i
}

/// Reads one dotted-quad field from `s[from..to]`.
fn parse_octet(s: &str, from: usize, to: usize, n: usize) -> (r: Option<u8>)
    requires
        n == s@.len(),
        from <= to <= n,
    ensures
        match r {
            Some(v) => spec_octet(s@.subrange(from as int, to as int)) == Some(v),
            None => spec_octet(s@.subrange(from as int, to as int)) == None::<u8>,
        },
{
    let ghost field = s@.subrange(from as int, to as int);
    let len = to - from;
    if len < 1 || len > 3 {
        return None;
    }
    let d0 = match digit_value(s.get_char(from)) {
        Some(d) => d,
        None => {
            proof {
                assert(field[0] == s@[from as int]);
            }
            return None;
        },
    };
    proof {
        assert(field[0] == s@[from as int]);
    }
    if len == 1 {
        proof {
            assert(forall|i: int| 0 <= i < field.len() ==> is_ip_digit(#[trigger] field[i]));
        }
        return Some(d0);
    }
    let d1 = match digit_value(s.get_char(from + 1)) {
        Some(d) => d,
        None => {
            proof {
                assert(field[1] == s@[from as int + 1]);
            }
            return None;
        },
    };
    proof {
        assert(field[1] == s@[from as int + 1]);
    }
    if len == 2 {
        proof {
            assert(forall|i: int| 0 <= i < field.len() ==> is_ip_digit(#[trigger] field[i]))
                by {
                assert(is_ip_digit(field[0]) && is_ip_digit(field[1]));
            }
        }
        return Some(d0 * 10 + d1);
    }
    let d2 = match digit_value(s.get_char(from + 2)) {
        Some(d) => d,
        None => {
            proof {
                assert(field[2] == s@[from as int + 2]);
            }
            return None;
        },
    };
    proof {
        assert(field[2] == s@[from as int + 2]);
        assert(forall|i: int| 0 <= i < field.len() ==> is_ip_digit(#[trigger] field[i])) by {
            assert(is_ip_digit(field[0]) && is_ip_digit(field[1]) && is_ip_digit(field[2]));
        }
    }
    let v: u32 = (d0 as u32) * 100 + (d1 as u32) * 10 + (d2 as u32);
    if v <= 255 {
        Some(v as u8)
    } else {
        None
    }
}

/// Parses a dotted-decimal IPv4 address into its four octets.
pub fn parse_ipv4(s: &str) -> (r: Option<Vec<u8>>)
    ensures
        match r {
            Some(v) => spec_parse_ipv4(s@) == Some(v@) && v@.len() == 4,
            None => spec_parse_ipv4(s@) == None::<Seq<u8>>,
        },
{
    let n = s.unicode_len();
    let e1 = find_dot(s, 0, n);
    if e1 >= n {
        return None;
    }
    let e2 = find_dot(s, e1 + 1, n);
    if e2 >= n {
        return None;
    }
    let e3 = find_dot(s, e2 + 1, n);
    if e3 >= n {
        return None;
    }
    let e4 = find_dot(s, e3 + 1, n);
    if e4 < n {
        return None;
    }
    let a = match parse_octet(s, 0, e1, n) {
        Some(v) => v,
        None => {
            return None;
        },
    };
    let b = match parse_octet(s, e1 + 1, e2, n) {
        Some(v) => v,
        None => {
            return None;
        },
    };
    let c = match parse_octet(s, e2 + 1, e3, n) {
        Some(v) => v,
        None => {
            return None;
        },
    };
    let d = match parse_octet(s, e3 + 1, n, n) {
        Some(v) => v,
        None => {
            return None;
        },
    };
    let mut out: Vec<u8> = Vec::new();
    out.push(a);
    out.push(b);
    out.push(c);
    out.push(d);
    proof {
        assert(out@ =~= seq![a, b, c, d]);
    }
    Some(out)
}

/// The address and network a client is assigned for one request.
pub struct Lease {
    pub ip: Vec<u8>,
    pub network: String,
}

impl Lease {
    /// The address always has its four octets.
    pub open spec fn wf(self) -> bool {
        self.ip@.len() == 4
    }
}

/// Resolves a looked-up interface record to a lease. No record, or a
/// record whose stored address is malformed, resolves to nothing; the two
/// are deliberately indistinguishable to the caller.
pub fn resolve(rec: Option<&Interface>) -> (r: Option<Lease>)
    ensures
        match rec {
            None => r is None,
            Some(iface) => match spec_parse_ipv4(iface.ip@) {
                Some(oct) => (r matches Some(l) && l.ip@ == oct && l.wf() && l.network@
                    == iface.network@),
                None => r is None,
            },
        },
{
    match rec {
        None => None,
        Some(iface) => match parse_ipv4(iface.ip.as_str()) {
            Some(ip) => Some(Lease { ip, network: iface.network.clone() }),
            None => None,
        },
    }
}

} // verus!
