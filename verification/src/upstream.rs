//! Parsing of upstream endpoint specifications of the form
//! `HOST[:PORT][/PROTOCOL]`.  The host must be a numeric IP literal; the
//! port defaults to 53 and the protocol to UDP.  The earliest of `:` or `/`
//! ends the host, so a host can never contain a colon; an IPv6 literal
//! (which always holds colons) therefore never reaches the host position,
//! and only dotted-quad hosts parse.

use vstd::prelude::*;

use crate::Protocol;
use crate::text::all_digits;
use crate::text::count_char;
use crate::text::dec_val;
use crate::text::digit_val;
use crate::text::find_first2;
use crate::text::is_digit;
use crate::text::lemma_count_char_pos;
use crate::text::lemma_dec_val_nonneg;
use crate::text::lemma_find_first2_bounds;
use crate::text::lemma_find_first2_is;
use crate::text::lemma_split_at_sep;
use crate::text::lemma_split_count;
use crate::text::lemma_split_none;
use crate::text::split_chars;

verus! {

/// A numeric IP address; the parser only ever produces the dotted-quad
/// form, since a host field cannot contain the colons of an IPv6 literal.
#[derive(Clone, Copy, Debug, PartialEq, Eq, Structural)]
pub enum IpAddress {
    V4(u8, u8, u8, u8),
    V6(u16, u16, u16, u16, u16, u16, u16, u16),
}

/// Why an upstream endpoint specification was rejected.
#[derive(Clone, Copy, Debug, PartialEq, Eq, Structural)]
pub enum ParseError {
    /// The specification starts with `:` or `/`, or is empty.
    EmptyHost,
    /// The host part is not a numeric IP literal.
    InvalidIp,
    /// The port part is not a number between 1 and 65535.
    InvalidPort,
    /// The protocol part is neither `udp` nor `tcp`.
    UnknownProtocol,
}

impl ParseError {
    /// A short description of the error, for operators' eyes.
    pub fn message(&self) -> &'static str {
        match self {
            ParseError::EmptyHost => "no host specified",
            ParseError::InvalidIp => "failed to parse IP",
            ParseError::InvalidPort => "failed to parse port",
            ParseError::UnknownProtocol => "unknown protocol",
        }
    }
}

/// An upstream resolver endpoint, immutable after parsing.
#[derive(Clone, Copy, Debug, PartialEq, Eq, Structural)]
pub struct UpstreamSpec {
    pub host: IpAddress,
    pub port: u16,
    pub protocol: Protocol,
}

/// A dotted-quad octet: one to three digits, no superfluous leading zero,
/// value at most 255.
pub open spec fn valid_octet(s: Seq<char>) -> bool {
    1 <= s.len() <= 3 && all_digits(s) && (s.len() > 1 ==> s[0] != '0') && dec_val(s) <= 255
}

/// Meaning of an IPv4 literal: four valid octets separated by dots.
pub open spec fn spec_parse_ipv4(s: Seq<char>) -> Option<(u8, u8, u8, u8)> {
    let parts = split_chars(s, '.');
    if parts.len() == 4 && valid_octet(parts[0]) && valid_octet(parts[1]) && valid_octet(parts[2])
        && valid_octet(parts[3]) {
        Some(
            (
                dec_val(parts[0]) as u8,
                dec_val(parts[1]) as u8,
                dec_val(parts[2]) as u8,
                dec_val(parts[3]) as u8,
            ),
        )
    } else {
        None
    }
}

/// A port: a non-empty digit string with value between 1 and 65535.
pub open spec fn valid_port(s: Seq<char>) -> bool {
    s.len() >= 1 && all_digits(s) && 1 <= dec_val(s) <= 65535
}

pub open spec fn spec_parse_port(s: Seq<char>) -> Option<u16> {
    if valid_port(s) {
        Some(dec_val(s) as u16)
    } else {
        None
    }
}

pub open spec fn spec_parse_proto(s: Seq<char>) -> Option<Protocol> {
    if s == seq!['u', 'd', 'p'] {
        Some(Protocol::Udp)
    } else if s == seq!['t', 'c', 'p'] {
        Some(Protocol::Tcp)
    } else {
        None
    }
}

/// Meaning of a whole upstream specification.  The earliest of `:` or `/`
/// ends the host; a `/` introduces the protocol, which runs to the end of
/// the string; a `:` before the `/` (or the end) introduces the port.
/// Defaults: port 53, protocol UDP.
pub open spec fn spec_parse_upstream(s: Seq<char>) -> Result<UpstreamSpec, ParseError> {
    let sep = find_first2(s, ':', '/');
    if sep == 0 {
        Err(ParseError::EmptyHost)
    } else {
        match spec_parse_ipv4(s.subrange(0, sep)) {
            None => Err(ParseError::InvalidIp),
            Some((a, b, c, d)) => {
                let host = IpAddress::V4(a, b, c, d);
                if sep == s.len() {
                    Ok(UpstreamSpec { host, port: 53u16, protocol: Protocol::Udp })
                } else {
                    let slash = find_first2(s, '/', '/');
                    let proto = if slash < s.len() {
                        spec_parse_proto(s.subrange(slash + 1, s.len() as int))
                    } else {
                        Some(Protocol::Udp)
                    };
                    match proto {
                        None => Err(ParseError::UnknownProtocol),
                        Some(protocol) => {
                            let cut = if slash < s.len() {
                                slash
                            } else {
                                s.len() as int
                            };
                            let colon = find_first2(s.subrange(0, cut), ':', ':');
                            if colon < cut {
                                match spec_parse_port(s.subrange(colon + 1, cut)) {
                                    None => Err(ParseError::InvalidPort),
                                    Some(port) => Ok(UpstreamSpec { host, port, protocol }),
                                }
                            } else {
                                Ok(UpstreamSpec { host, port: 53u16, protocol })
                            }
                        },
                    }
                }
            },
        }
    }
}

/// The characters of `s`, in order.
fn chars_of(s: &str) -> (v: Vec<char>)
    ensures
        v@ == s@,
{
    let n = s.unicode_len();
    let mut v: Vec<char> = Vec::new();
    let mut i: usize = 0;
    while i < n
        invariant
            n == s@.len(),
            0 <= i <= n,
            v@ =~= s@.subrange(0, i as int),
        decreases n - i,
    {
        v.push(s.get_char(i));
        i = i + 1;
    }
    proof {
        assert(v@ =~= s@);
    }
    v
}

/// First index at or after `from` holding `a` or `b`, or the length.
fn find_sep_from(v: &Vec<char>, from: usize, a: char, b: char) -> (i: usize)
    requires
        from <= v@.len(),
    ensures
        from <= i <= v@.len(),
        forall|k: int| from <= k < i ==> v@[k] != a && v@[k] != b,
        i < v@.len() ==> (v@[i as int] == a || v@[i as int] == b),
{
    let mut i: usize = from;
    while i < v.len()
        invariant
            from <= i <= v@.len(),
            forall|k: int| from <= k < i ==> v@[k] != a && v@[k] != b,
        decreases v@.len() - i,
    {
        let c = v[i];
        if c == a || c == b {
            return i;
        }
        i = i + 1;
    }
    i
}

/// A copy of `v[lo..hi]`.
fn copy_range(v: &Vec<char>, lo: usize, hi: usize) -> (out: Vec<char>)
    requires
        lo <= hi <= v@.len(),
    ensures
        out@ == v@.subrange(lo as int, hi as int),
{
    let mut out: Vec<char> = Vec::new();
    let mut j: usize = lo;
    while j < hi
        invariant
            lo <= j <= hi <= v@.len(),
            out@ =~= v@.subrange(lo as int, j as int),
        decreases hi - j,
    {
        out.push(v[j]);
        j = j + 1;
    }
    proof {
        assert(out@ =~= v@.subrange(lo as int, hi as int));
    }
    out
}

/// Parses one dotted-quad octet from `h[lo..hi]`.
fn parse_octet(h: &Vec<char>, lo: usize, hi: usize) -> (r: Option<u8>)
    requires
        lo <= hi <= h@.len(),
    ensures
        r == (if valid_octet(h@.subrange(lo as int, hi as int)) {
            Some(dec_val(h@.subrange(lo as int, hi as int)) as u8)
        } else {
            None::<u8>
        }),
{
    let ghost sub = h@.subrange(lo as int, hi as int);
    let n = hi - lo;
    if n == 0 || n > 3 {
        return None;
    }
    if n > 1 && h[lo] == '0' {
        assert(sub[0] == '0');
        return None;
    }
    let mut val: u16 = 0;
    let mut j: usize = lo;
    while j < hi
        invariant
            lo <= j <= hi <= h@.len(),
            hi - lo <= 3,
            sub == h@.subrange(lo as int, hi as int),
            forall|k: int| lo <= k < j ==> is_digit(h@[k]),
            val == dec_val(h@.subrange(lo as int, j as int)),
            val <= (if j - lo == 0 {
                0int
            } else if j - lo == 1 {
                9int
            } else if j - lo == 2 {
                99int
            } else {
                999int
            }),
        decreases hi - j,
    {
        let c = h[j];
        if !('0' <= c && c <= '9') {
            assert(!is_digit(sub[j - lo]));
            return None;
        }
        let d: u16 = (c as u32 - '0' as u32) as u16;
        proof {
            let p = h@.subrange(lo as int, j as int);
            let q = h@.subrange(lo as int, j + 1);
            assert(q.drop_last() =~= p);
            assert(q.last() == h@[j as int]);
            assert(d == digit_val(h@[j as int]));
        }
        val = val * 10 + d;
        j = j + 1;
    }
    proof {
        assert(sub =~= h@.subrange(lo as int, hi as int));
        assert(all_digits(sub));
        assert(val == dec_val(sub));
    }
    if val > 255 {
        return None;
    }
    assert(valid_octet(sub));
    Some(val as u8)
}

/// Parses a port from `h[lo..hi]`, carrying an overflow-clamped accumulator.
fn parse_port_range(h: &Vec<char>, lo: usize, hi: usize) -> (r: Option<u16>)
    requires
        lo <= hi <= h@.len(),
    ensures
        r == spec_parse_port(h@.subrange(lo as int, hi as int)),
{
    let ghost sub = h@.subrange(lo as int, hi as int);
    if hi == lo {
        return None;
    }
    let mut val: u32 = 0;
    let mut j: usize = lo;
    while j < hi
        invariant
            lo <= j <= hi <= h@.len(),
            sub == h@.subrange(lo as int, hi as int),
            forall|k: int| lo <= k < j ==> is_digit(h@[k]),
            val <= 65536,
            dec_val(h@.subrange(lo as int, j as int)) <= 65535 ==> val == dec_val(
                h@.subrange(lo as int, j as int),
            ),
            dec_val(h@.subrange(lo as int, j as int)) > 65535 ==> val == 65536,
        decreases hi - j,
    {
        let c = h[j];
        if !('0' <= c && c <= '9') {
            assert(!is_digit(sub[j - lo]));
            return None;
        }
        let d: u32 = c as u32 - '0' as u32;
        proof {
            let p = h@.subrange(lo as int, j as int);
            let q = h@.subrange(lo as int, j + 1);
            assert(q.drop_last() =~= p);
            assert(q.last() == h@[j as int]);
            assert(all_digits(p));
            lemma_dec_val_nonneg(p);
            assert(dec_val(q) == dec_val(p) * 10 + digit_val(h@[j as int]));
        }
        val = val * 10 + d;
        if val > 65535 {
            val = 65536;
        }
        j = j + 1;
    }
    proof {
        assert(sub =~= h@.subrange(lo as int, hi as int));
        assert(all_digits(sub));
    }
    if val == 0 || val > 65535 {
        assert(!valid_port(sub));
        return None;
    }
    assert(valid_port(sub));
    Some(val as u16)
}

/// Parses an IPv4 dotted-quad literal from the whole of `h`.
#[verifier::rlimit(100)]
fn parse_ipv4(h: &Vec<char>) -> (r: Option<(u8, u8, u8, u8)>)
    ensures
        r == spec_parse_ipv4(h@),
{
    let ghost s = h@;
    let len = h.len();
    let d1 = find_sep_from(h, 0, '.', '.');
    if d1 == len {
        proof {
            lemma_split_none(s, '.');
        }
        return None;
    }
    let d2 = find_sep_from(h, d1 + 1, '.', '.');
    proof {
        let a = s.subrange(0, d1 as int);
        let rest1 = s.subrange(d1 + 1, s.len() as int);
        assert(s =~= a + seq!['.'] + rest1);
        lemma_split_at_sep(a, rest1, '.');
    }
    if d2 == len {
        proof {
            let rest1 = s.subrange(d1 + 1, s.len() as int);
            assert(forall|k: int| 0 <= k < rest1.len() ==> rest1[k] == s[d1 + 1 + k]);
            lemma_split_none(rest1, '.');
            assert(split_chars(s, '.').len() == 2);
        }
        return None;
    }
    let d3 = find_sep_from(h, d2 + 1, '.', '.');
    proof {
        let rest1 = s.subrange(d1 + 1, s.len() as int);
        let b = s.subrange(d1 + 1, d2 as int);
        let rest2 = s.subrange(d2 + 1, s.len() as int);
        assert(forall|k: int| 0 <= k < b.len() ==> b[k] == s[d1 + 1 + k]);
        assert(rest1 =~= b + seq!['.'] + rest2);
        lemma_split_at_sep(b, rest2, '.');
    }
    if d3 == len {
        proof {
            let rest2 = s.subrange(d2 + 1, s.len() as int);
            assert(forall|k: int| 0 <= k < rest2.len() ==> rest2[k] == s[d2 + 1 + k]);
            lemma_split_none(rest2, '.');
            assert(split_chars(s, '.').len() == 3);
        }
        return None;
    }
    let d4 = find_sep_from(h, d3 + 1, '.', '.');
    proof {
        let rest2 = s.subrange(d2 + 1, s.len() as int);
        let c = s.subrange(d2 + 1, d3 as int);
        let rest3 = s.subrange(d3 + 1, s.len() as int);
        assert(forall|k: int| 0 <= k < c.len() ==> c[k] == s[d2 + 1 + k]);
        assert(rest2 =~= c + seq!['.'] + rest3);
        lemma_split_at_sep(c, rest3, '.');
    }
    if d4 < len {
        proof {
            let rest3 = s.subrange(d3 + 1, s.len() as int);
            assert(rest3[d4 - d3 - 1] == '.');
            lemma_count_char_pos(rest3, '.', d4 - d3 - 1);
            lemma_split_count(rest3, '.');
            assert(split_chars(s, '.').len() >= 5);
        }
        return None;
    }
    proof {
        let rest3 = s.subrange(d3 + 1, s.len() as int);
        assert(forall|k: int| 0 <= k < rest3.len() ==> rest3[k] == s[d3 + 1 + k]);
        lemma_split_none(rest3, '.');
        assert(split_chars(s, '.') =~~= seq![
            s.subrange(0, d1 as int),
            s.subrange(d1 + 1, d2 as int),
            s.subrange(d2 + 1, d3 as int),
            s.subrange(d3 + 1, s.len() as int),
        ]);
    }
    let o1 = parse_octet(h, 0, d1);
    let o2 = parse_octet(h, d1 + 1, d2);
    let o3 = parse_octet(h, d2 + 1, d3);
    let o4 = parse_octet(h, d3 + 1, len);
    match (o1, o2, o3, o4) {
        (Some(a), Some(b), Some(c), Some(d)) => Some((a, b, c, d)),
        _ => None,
    }
}

/// Parses a protocol name from `h[lo..hi]`.
fn parse_proto_range(h: &Vec<char>, lo: usize, hi: usize) -> (r: Option<Protocol>)
    requires
        lo <= hi <= h@.len(),
    ensures
        r == spec_parse_proto(h@.subrange(lo as int, hi as int)),
{
    let ghost sub = h@.subrange(lo as int, hi as int);
    if hi - lo == 3 && h[lo] == 'u' && h[lo + 1] == 'd' && h[lo + 2] == 'p' {
        proof {
            assert(sub =~= seq!['u', 'd', 'p']);
        }
        Some(Protocol::Udp)
    } else if hi - lo == 3 && h[lo] == 't' && h[lo + 1] == 'c' && h[lo + 2] == 'p' {
        proof {
            assert(sub =~= seq!['t', 'c', 'p']);
        }
        Some(Protocol::Tcp)
    } else {
        proof {
            if sub == seq!['u', 'd', 'p'] {
                assert(sub.len() == 3 && sub[0] == 'u' && sub[1] == 'd' && sub[2] == 'p');
            }
            if sub == seq!['t', 'c', 'p'] {
                assert(sub.len() == 3 && sub[0] == 't' && sub[1] == 'c' && sub[2] == 'p');
            }
        }
        None
    }
}

/// Parses an upstream endpoint specification.  Returns the endpoint with
/// defaults filled in, or the reason the text was rejected; never panics.
pub fn parse_upstream_spec(s: &str) -> (r: Result<UpstreamSpec, ParseError>)
    ensures
        r == spec_parse_upstream(s@),
{
    let v = chars_of(s);
    let ghost sq = s@;
    let len = v.len();
    let sep = find_sep_from(&v, 0, ':', '/');
    proof {
        lemma_find_first2_is(sq, ':', '/', sep as int);
    }
    if sep == 0 {
        return Err(ParseError::EmptyHost);
    }
    let host_chars = copy_range(&v, 0, sep);
    let host = match parse_ipv4(&host_chars) {
        None => {
            return Err(ParseError::InvalidIp);
        },
        Some((a, b, c, d)) => IpAddress::V4(a, b, c, d),
    };
    if sep == len {
        return Ok(UpstreamSpec { host, port: 53, protocol: Protocol::Udp });
    }
    let slash = find_sep_from(&v, 0, '/', '/');
    proof {
        lemma_find_first2_is(sq, '/', '/', slash as int);
    }
    let protocol = if slash < len {
        match parse_proto_range(&v, slash + 1, len) {
            None => {
                return Err(ParseError::UnknownProtocol);
            },
            Some(p) => p,
        }
    } else {
        Protocol::Udp
    };
    let cut = if slash < len {
        slash
    } else {
        len
    };
    let colon = find_sep_from(&v, 0, ':', ':');
    let ghost cutseq = sq.subrange(0, cut as int);
    if colon < cut {
        proof {
            assert(forall|k: int| 0 <= k < colon ==> cutseq[k] != ':');
            lemma_find_first2_is(cutseq, ':', ':', colon as int);
        }
        match parse_port_range(&v, colon + 1, cut) {
            None => Err(ParseError::InvalidPort),
            Some(port) => Ok(UpstreamSpec { host, port, protocol }),
        }
    } else {
        proof {
            assert forall|k: int| 0 <= k < cutseq.len() implies cutseq[k] != ':' by {
                assert(cutseq[k] == sq[k]);
            }
            lemma_find_first2_is(cutseq, ':', ':', cut as int);
        }
        Ok(UpstreamSpec { host, port: 53, protocol })
    }
}

impl core::str::FromStr for UpstreamSpec {
    type Err = ParseError;

    fn from_str(s: &str) -> Result<UpstreamSpec, ParseError> {
        parse_upstream_spec(s)
    }
}

/// A specification without a protocol part parses with the default
/// protocol, UDP, and one without a port part with the default port, 53.
pub proof fn lemma_parse_defaults(s: Seq<char>)
    ensures
        ((forall|k: int| 0 <= k < s.len() ==> s[k] != '/') ==> (spec_parse_upstream(s) matches Ok(u)
            ==> u.protocol == Protocol::Udp)),
        ((forall|k: int| 0 <= k < s.len() ==> s[k] != ':') ==> (spec_parse_upstream(s) matches Ok(u)
            ==> u.port == 53)),
{
    if forall|k: int| 0 <= k < s.len() ==> s[k] != '/' {
        lemma_find_first2_is(s, '/', '/', s.len() as int);
    }
    if forall|k: int| 0 <= k < s.len() ==> s[k] != ':' {
        lemma_find_first2_bounds(s, ':', '/');
        let sep = find_first2(s, ':', '/');
        if 0 < sep < s.len() {
            let slash = find_first2(s, '/', '/');
            let cut = if slash < s.len() { slash } else { s.len() as int };
            let prefix = s.subrange(0, cut);
            lemma_find_first2_bounds(s, '/', '/');
            assert(forall|k: int| 0 <= k < prefix.len() ==> prefix[k] == s[k]);
            lemma_find_first2_is(prefix, ':', ':', cut);
        }
    }
}

} // verus!
