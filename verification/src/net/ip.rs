//! IP addresses, and texts that are IP address literals.
use crate::bytes::{be32, head, push_be32, tail};
use crate::text::{
    chars_digits, chars_find_text, chars_split, find_text, parse_digits, split, views,
};
use vstd::prelude::*;

verus! {

broadcast use vstd::seq::group_seq_axioms;

/// An IP address, by its number.
#[derive(Debug, Clone, Copy, PartialEq, Eq, Structural)]
pub enum IpAddr {
    V4(u32),
    V6(u128),
}

/// The sixteen bytes of a number, most significant first.
pub open spec fn be128(v: int) -> Seq<u8> {
    be32(v / 0x1_0000_0000_0000_0000_0000_0000) + be32(v / 0x1_0000_0000_0000_0000 % 0x1_0000_0000)
        + be32(v / 0x1_0000_0000 % 0x1_0000_0000) + be32(v % 0x1_0000_0000)
}

impl IpAddr {
    /// The bytes of an address, most significant first: four or sixteen.
    pub open spec fn bytes(self) -> Seq<u8> {
        match self {
            IpAddr::V4(v) => be32(v as int),
            IpAddr::V6(v) => be128(v as int),
        }
    }

    /// The IPv4 address with these octets.
    pub fn v4(a: u8, b: u8, c: u8, d: u8) -> (r: IpAddr)
        ensures
            r == IpAddr::V4((a * 0x100_0000 + b * 0x1_0000 + c * 0x100 + d) as u32),
    {
        IpAddr::V4(a as u32 * 0x100_0000 + b as u32 * 0x1_0000 + c as u32 * 0x100 + d as u32)
    }

    /// The bytes of the address, most significant first.
    pub fn octets(&self) -> (r: Vec<u8>)
        ensures
            r@ == self.bytes(),
    {
        let mut out: Vec<u8> = Vec::new();
        match self {
            IpAddr::V4(v) => {
                push_be32(&mut out, *v);
            },
            IpAddr::V6(v) => {
                push_be32(&mut out, (*v / 0x1_0000_0000_0000_0000_0000_0000) as u32);
                push_be32(&mut out, (*v / 0x1_0000_0000_0000_0000 % 0x1_0000_0000) as u32);
                push_be32(&mut out, (*v / 0x1_0000_0000 % 0x1_0000_0000) as u32);
                push_be32(&mut out, (*v % 0x1_0000_0000) as u32);
            },
        }
        proof {
            assert(out@ =~= self.bytes());
        }
        out
    }

    /// Whether the address is one of the machine itself.
    pub fn is_loopback(&self) -> (r: bool)
        ensures
            r == match *self {
                IpAddr::V4(v) => v / 0x100_0000 == 127,
                IpAddr::V6(v) => v == 1,
            },
    {
        match self {
            IpAddr::V4(v) => *v / 0x100_0000 == 127,
            IpAddr::V6(v) => *v == 1,
        }
    }
}

// ---------------------------------------------------------------------------
// Literals
// ---------------------------------------------------------------------------

/// An octet of a dotted address: decimal, no more than 255, without a leading
/// zero.
pub open spec fn is_octet(s: Seq<char>) -> bool {
    &&& 1 <= s.len() <= 3
    &&& s.len() > 1 ==> s[0] != '0'
    &&& parse_digits(s, 10, 255) is Some
}

/// A dotted IPv4 address: four octets.
pub open spec fn is_v4_literal(s: Seq<char>) -> bool {
    let parts = split(s, '.');
    parts.len() == 4 && forall|i: int| 0 <= i < 4 ==> is_octet(#[trigger] parts[i])
}

/// A group of an IPv6 address: up to four hexadecimal digits.
pub open spec fn is_group(s: Seq<char>) -> bool {
    1 <= s.len() <= 4 && parse_digits(s, 16, 0xffff) is Some
}

/// How many groups the parts of an IPv6 address stand for, all of them valid;
/// where a dotted IPv4 address may stand last, it stands for two.
pub open spec fn group_count(parts: Seq<Seq<char>>, dotted: bool) -> Option<int> {
    let n = parts.len();
    if n == 0 || exists|i: int| 0 <= i < n - 1 && !is_group(#[trigger] parts[i]) {
        None
    } else if is_group(parts.last()) {
        Some(n as int)
    } else if dotted && is_v4_literal(parts.last()) {
        Some(n as int + 1)
    } else {
        None
    }
}

/// How many groups one side of a `::` stands for.
pub open spec fn side_count(s: Seq<char>, dotted: bool) -> Option<int> {
    if s.len() == 0 {
        Some(0)
    } else {
        group_count(split(s, ':'), dotted)
    }
}

/// An IPv6 address: eight groups, or fewer with one `::` for the missing ones.
pub open spec fn is_v6_literal(s: Seq<char>) -> bool {
    match find_text(s, "::"@, 0) {
        None => group_count(split(s, ':'), true) == Some(8int),
        Some(k) => match (side_count(s.take(k), false), side_count(s.skip(k + 2), true)) {
            (Some(a), Some(b)) => a + b <= 7,
            _ => false,
        },
    }
}

/// Whether a text is an IP address.
pub open spec fn is_ip_literal(s: Seq<char>) -> bool {
    is_v4_literal(s) || is_v6_literal(s)
}

fn octet(c: &[char]) -> (r: bool)
    ensures
        r == is_octet(c@),
{
    let n: usize = c.len();
    1 <= n && n <= 3 && (n == 1 || c[0] != '0') && chars_digits(c, 10, 255).is_some()
}

fn v4_literal(c: &[char]) -> (r: bool)
    ensures
        r == is_v4_literal(c@),
{
    let parts = chars_split(c, '.');
    let ghost p = split(c@, '.');
    if parts.len() != 4 {
        return false;
    }
    let mut i: usize = 0;
    while i < 4
        invariant
            i <= 4 == parts@.len(),
            p == views(parts@),
            p == split(c@, '.'),
            forall|j: int| 0 <= j < i ==> is_octet(#[trigger] p[j]),
        decreases 4 - i,
    {
        proof {
            assert(p[i as int] == parts@[i as int]@);
        }
        if !octet(parts[i]) {
            return false;
        }
        i += 1;
    }
    true
}

fn is_hex_group(c: &[char]) -> (r: bool)
    ensures
        r == is_group(c@),
{
    1 <= c.len() && c.len() <= 4 && chars_digits(c, 16, 0xffff).is_some()
}

fn groups(c: &[char], dotted: bool) -> (r: Option<usize>)
    ensures
        match (r, group_count(split(c@, ':'), dotted)) {
            (Some(a), Some(b)) => a == b || (a > 8 && b > 8),
            (None, None) => true,
            _ => false,
        },
{
    let parts = chars_split(c, ':');
    let ghost p = split(c@, ':');
    let n: usize = parts.len();
    if n == 0 {
        return None;
    }
    let mut i: usize = 0;
    while i < n - 1
        invariant
            0 < n,
            i <= n - 1,
            n == parts@.len(),
            p == views(parts@),
            p == split(c@, ':'),
            forall|j: int| 0 <= j < i ==> is_group(#[trigger] p[j]),
        decreases n - i,
    {
        proof {
            assert(p[i as int] == parts@[i as int]@);
        }
        if !is_hex_group(parts[i]) {
            return None;
        }
        i += 1;
    }
    proof {
        assert(p[n - 1] == parts@[n - 1]@);
    }
    if is_hex_group(parts[n - 1]) {
        Some(n)
    } else if dotted && v4_literal(parts[n - 1]) {
        if n < usize::MAX {
            Some(n + 1)
        } else {
            Some(n)
        }
    } else {
        None
    }
}

fn side(c: &[char], dotted: bool) -> (r: Option<usize>)
    ensures
        match (r, side_count(c@, dotted)) {
            (Some(a), Some(b)) => a == b || (a > 8 && b > 8),
            (None, None) => true,
            _ => false,
        },
{
    if c.len() == 0 {
        Some(0)
    } else {
        groups(c, dotted)
    }
}

/// Whether a text is an IP address literal.
pub fn ip_literal(c: &[char]) -> (r: bool)
    ensures
        r == is_ip_literal(c@),
{
    if v4_literal(c) {
        return true;
    }
    let n: usize = c.len();
    let sep: [char; 2] = [':', ':'];
    proof {
        reveal_strlit("::");
        assert(sep@ =~= "::"@);
    }
    match chars_find_text(c, sep.as_slice(), 0) {
        None => match groups(c, true) {
            Some(n) => n == 8,
            None => false,
        },
        Some(k) => match (side(head(c, k), false), side(tail(c, k + 2), true)) {
            (Some(a), Some(b)) => a <= 7 && b <= 7 - a,
            _ => false,
        },
    }
}

} // verus!
