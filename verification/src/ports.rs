//! Port-mapping normalization: a bare port `P` expands to `P:P`, the
//! `HOST:CONTAINER` and `IP:HOST:CONTAINER` forms are validated and passed
//! through unchanged, and everything else is an [`Error::InvalidPortSpec`].

use vstd::prelude::*;
use vstd::string::StrSliceExecFns;
use vstd::string::StringExecFns;

use crate::errors::Error;
use crate::text::{push_char, split_on, split_string};

verus! {

pub open spec fn is_digit(c: char) -> bool {
    '0' <= c && c <= '9'
}

pub open spec fn digit_val(c: char) -> int {
    c as int - '0' as int
}

pub open spec fn all_digits(s: Seq<char>) -> bool {
    s.len() > 0 && forall|i: int| 0 <= i < s.len() ==> is_digit(#[trigger] s[i])
}

/// The numeric value of a digit string, most significant digit first.
pub open spec fn dec_value(s: Seq<char>) -> int
    decreases s.len(),
{
    if s.len() == 0 {
        0
    } else {
        dec_value(s.drop_last()) * 10 + digit_val(s.last())
    }
}

/// The digit part of an unsigned decimal literal: an optional leading `+`
/// is skipped, as `u16::from_str` accepts it.
pub open spec fn unsigned_body(s: Seq<char>) -> Seq<char> {
    if s.len() > 0 && s[0] == '+' {
        s.drop_first()
    } else {
        s
    }
}

/// `s` parses as an unsigned 16-bit port number.
pub open spec fn is_port_number(s: Seq<char>) -> bool {
    all_digits(unsigned_body(s)) && dec_value(unsigned_body(s)) <= 65535
}

proof fn lemma_dec_value_nonneg(s: Seq<char>)
    requires
        forall|i: int| 0 <= i < s.len() ==> is_digit(#[trigger] s[i]),
    ensures
        dec_value(s) >= 0,
    decreases s.len(),
{
    if s.len() > 0 {
        lemma_dec_value_nonneg(s.drop_last());
    }
}

/// A digit string is worth at least as much as any of its prefixes.
proof fn lemma_dec_value_prefix(s: Seq<char>, k: int)
    requires
        forall|i: int| 0 <= i < s.len() ==> is_digit(#[trigger] s[i]),
        0 <= k <= s.len(),
    ensures
        dec_value(s) >= dec_value(s.subrange(0, k)),
    decreases s.len(),
{
    if k == s.len() {
        assert(s.subrange(0, k) =~= s);
    } else {
        assert(s.drop_last().subrange(0, k) =~= s.subrange(0, k));
        lemma_dec_value_prefix(s.drop_last(), k);
        lemma_dec_value_nonneg(s.drop_last());
    }
}

fn digit_value(c: char) -> (v: u32)
    requires
        is_digit(c),
    ensures
        v == digit_val(c),
{
    match c {
        '0' => 0,
        '1' => 1,
        '2' => 2,
        '3' => 3,
        '4' => 4,
        '5' => 5,
        '6' => 6,
        '7' => 7,
        '8' => 8,
        _ => 9,
    }
}

/// Parse an unsigned 16-bit number, accepting exactly what
/// `str::parse::<u16>` accepts: an optional `+`, then one or more digits,
/// with a value of at most 65535.
pub fn parse_port_number(s: &str) -> (r: Option<u16>)
    ensures
        r is Some <==> is_port_number(s@),
        r matches Some(v) ==> v == dec_value(unsigned_body(s@)),
{
    let n: usize = s.unicode_len();
    let body: &str = if n > 0 && s.get_char(0) == '+' {
        s.substring_char(1, n)
    } else {
        s
    };
    proof {
        if n > 0 && s@[0] == '+' {
            assert(body@ =~= unsigned_body(s@));
        }
    }
    let m: usize = body.unicode_len();
    if m == 0 {
        return None;
    }
    let mut acc: u32 = 0;
    let mut i: usize = 0;
    proof {
        assert(body@.subrange(0, 0) =~= Seq::<char>::empty());
    }
    while i < m
        invariant
            i <= m,
            m == body@.len(),
            body@ == unsigned_body(s@),
            acc <= 65535,
            forall|j: int| 0 <= j < i ==> is_digit(#[trigger] body@[j]),
            acc == dec_value(body@.subrange(0, i as int)),
        decreases m - i,
    {
        let c = body.get_char(i);
        if !('0' <= c && c <= '9') {
            assert(!all_digits(body@));
            return None;
        }
        let v = digit_value(c);
        acc = acc * 10 + v;
        proof {
            assert(body@.subrange(0, i + 1).drop_last() =~= body@.subrange(0, i as int));
            assert(body@.subrange(0, i + 1).last() == body@[i as int]);
        }
        i = i + 1;
        if acc > 65535 {
            proof {
                if all_digits(body@) {
                    lemma_dec_value_prefix(body@, i as int);
                }
            }
            return None;
        }
    }
    proof {
        assert(body@.subrange(0, m as int) =~= body@);
        assert(all_digits(body@));
    }
    Some(acc as u16)
}

/// The decimal representation of a non-negative number, no sign, no
/// leading zeros.
pub open spec fn dec_repr(n: int) -> Seq<char>
    recommends
        n >= 0,
    decreases n,
{
    if n < 10 {
        seq![spec_digit_char(n)]
    } else {
        dec_repr(n / 10).push(spec_digit_char(n % 10))
    }
}

pub open spec fn spec_digit_char(d: int) -> char {
    if d == 0 {
        '0'
    } else if d == 1 {
        '1'
    } else if d == 2 {
        '2'
    } else if d == 3 {
        '3'
    } else if d == 4 {
        '4'
    } else if d == 5 {
        '5'
    } else if d == 6 {
        '6'
    } else if d == 7 {
        '7'
    } else if d == 8 {
        '8'
    } else {
        '9'
    }
}

fn digit_char(d: u16) -> (c: char)
    requires
        d < 10,
    ensures
        c == spec_digit_char(d as int),
{
    match d {
        0 => '0',
        1 => '1',
        2 => '2',
        3 => '3',
        4 => '4',
        5 => '5',
        6 => '6',
        7 => '7',
        8 => '8',
        _ => '9',
    }
}

/// Format a port number in decimal.
pub fn format_port_number(n: u16) -> (r: String)
    ensures
        r@ == dec_repr(n as int),
    decreases n,
{
    if n < 10 {
        let mut s = String::new();
        push_char(&mut s, digit_char(n));
        proof {
            assert(s@ =~= seq![spec_digit_char(n as int)]);
        }
        s
    } else {
        let mut s = format_port_number(n / 10);
        push_char(&mut s, digit_char(n % 10));
        s
    }
}

/// Whether a port-mapping request is well formed: one bare port, a
/// host:container pair, or ip:host:container; each port component must be an
/// unsigned 16-bit number. The address part of the three-component form is
/// not validated.
pub open spec fn port_spec_ok(s: Seq<char>) -> bool {
    let parts = split_on(s, ':');
    ||| (parts.len() == 1 && is_port_number(parts[0]))
    ||| (parts.len() == 2 && is_port_number(parts[0]) && is_port_number(parts[1]))
    ||| (parts.len() == 3 && is_port_number(parts[1]) && is_port_number(parts[2]))
}

/// What a well-formed request normalizes to: a bare port `P` becomes
/// `V:V` where `V` is the decimal value of `P`; the two- and
/// three-component forms pass through unchanged.
pub open spec fn normalized_port(s: Seq<char>) -> Seq<char>
    recommends
        port_spec_ok(s),
{
    let parts = split_on(s, ':');
    if parts.len() == 1 {
        let v = dec_value(unsigned_body(parts[0]));
        dec_repr(v) + seq![':'] + dec_repr(v)
    } else {
        s
    }
}

/// Parse and normalize one port-mapping request.
pub fn normalize_port_mapping(port: &str) -> (r: Result<String, Error>)
    ensures
        r is Ok <==> port_spec_ok(port@),
        r matches Ok(s) ==> s@ == normalized_port(port@),
        r matches Err(e) ==> e matches Error::InvalidPortSpec(p) && p@ == port@,
{
    let parts = split_string(port, ':');
    let ghost sp = split_on(port@, ':');
    proof {
        assert(parts.deep_view().len() == sp.len());
        assert(forall|j: int|
            0 <= j < sp.len() ==> #[trigger] parts@[j]@ == parts.deep_view()[j]);
    }
    if parts.len() == 1 {
        match parse_port_number(parts[0].as_str()) {
            Some(v) => {
                let mut out = format_port_number(v);
                push_char(&mut out, ':');
                let tail = format_port_number(v);
                out.append(tail.as_str());
                proof {
                    assert(out@ =~= dec_repr(v as int) + seq![':'] + dec_repr(v as int));
                }
                Ok(out)
            },
            None => Err(Error::InvalidPortSpec(port.to_owned())),
        }
    } else if parts.len() == 2 {
        let host_ok = parse_port_number(parts[0].as_str()).is_some();
        let container_ok = parse_port_number(parts[1].as_str()).is_some();
        if host_ok && container_ok {
            Ok(port.to_owned())
        } else {
            Err(Error::InvalidPortSpec(port.to_owned()))
        }
    } else if parts.len() == 3 {
        let host_ok = parse_port_number(parts[1].as_str()).is_some();
        let container_ok = parse_port_number(parts[2].as_str()).is_some();
        if host_ok && container_ok {
            Ok(port.to_owned())
        } else {
            Err(Error::InvalidPortSpec(port.to_owned()))
        }
    } else {
        Err(Error::InvalidPortSpec(port.to_owned()))
    }
}

} // verus!
