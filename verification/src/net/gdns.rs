//! IP-to-`g-dns.net` host encoding and the HTTP→HTTPS redirect policy.
//!
//! When a plain-HTTP (or otherwise host-less) request hits the server by IP,
//! there is no usable HTTPS host to redirect to — there's no certificate for a
//! bare IP. Instead the redirect goes to `<base32(ip)>.g-dns.net`, a wildcard
//! zone that resolves each encoded label back to the embedded address, so the
//! follow-up HTTPS request arrives with a real SNI host to obtain a certificate
//! for.
use crate::bytes::{head, tail};
use crate::net::ip::{ip_literal, is_ip_literal, IpAddr};
use crate::text::{
    chars_find, chars_of, chars_strip_prefix, find_char, owned, strip_prefix, text_of,
};
use vstd::prelude::*;

verus! {

broadcast use vstd::seq::group_seq_axioms;

/// The DNS zone encoded addresses live under.
pub const GDNS_ZONE: &'static str = "g-dns.net";

// ---------------------------------------------------------------------------
// Base32
// ---------------------------------------------------------------------------

/// The letter for a digit in base 32: `a` to `z`, then `2` to `7`.
pub open spec fn letter_of(v: int) -> char {
    if v < 26 {
        ('a' as int + v) as char
    } else {
        ('2' as int + v - 26) as char
    }
}

/// The power of 32.
pub open spec fn pow32(n: int) -> int
    decreases n,
{
    if n <= 0 {
        1
    } else {
        32 * pow32(n - 1)
    }
}

/// Byte `i`, or zero past the end.
pub open spec fn byte_or_zero(s: Seq<u8>, i: int) -> int {
    if i < s.len() {
        s[i] as int
    } else {
        0
    }
}

/// The first five bytes as a number, zeros standing in for missing ones.
pub open spec fn quintet_value(s: Seq<u8>) -> int {
    byte_or_zero(s, 0) * 0x1_0000_0000 + byte_or_zero(s, 1) * 0x100_0000 + byte_or_zero(s, 2)
        * 0x1_0000 + byte_or_zero(s, 3) * 0x100 + byte_or_zero(s, 4)
}

/// How many letters it takes to write so many of five bytes.
pub open spec fn letter_count(bytes: int) -> int {
    (8 * bytes + 4) / 5
}

/// The letters of one group of up to five bytes.
pub open spec fn group_letters(v: int, count: int) -> Seq<char> {
    Seq::new(count as nat, |k: int| letter_of(v / pow32(7 - k) % 32))
}

/// Bytes in base 32, without padding: each five bytes are eight letters, and a
/// shorter last group as many as its bits need.
pub open spec fn base32_of(s: Seq<u8>) -> Seq<char>
    decreases s.len(),
{
    if s.len() == 0 {
        Seq::empty()
    } else if s.len() < 5 {
        group_letters(quintet_value(s), letter_count(s.len() as int))
    } else {
        group_letters(quintet_value(s), 8) + base32_of(s.skip(5))
    }
}

fn letter(v: u8) -> (r: char)
    requires
        v < 32,
    ensures
        r == letter_of(v as int),
{
    if v < 26 {
        (97 + v) as char
    } else {
        (50 + (v - 26)) as char
    }
}

fn byte_at(b: &[u8], i: usize) -> (r: u64)
    ensures
        r == byte_or_zero(b@, i as int),
        r < 256,
{
    if i < b.len() {
        b[i] as u64
    } else {
        0
    }
}

/// Base32-encode bytes with the g-dns alphabet and no padding.
pub fn base32_nopad(data: &[u8]) -> (r: String)
    ensures
        r@ == base32_of(data@),
{
    let n: usize = data.len();
    let mut out = String::new();
    let mut i: usize = 0;
    proof {
        assert(data@.skip(0) =~= data@);
        assert(out@ + base32_of(data@) =~= base32_of(data@));
    }
    while i < n
        invariant
            i <= n == data@.len(),
            out@ + base32_of(data@.skip(i as int)) == base32_of(data@),
        decreases n - i,
    {
        let rest = tail(data, i);
        let ghost before = out@;
        let v: u64 = byte_at(rest, 0) * 0x1_0000_0000 + byte_at(rest, 1) * 0x100_0000 + byte_at(
            rest,
            2,
        ) * 0x1_0000 + byte_at(rest, 3) * 0x100 + byte_at(rest, 4);
        let m: usize = if rest.len() < 5 {
            rest.len()
        } else {
            5
        };
        let count: usize = (8 * m + 4) / 5;
        let mut d: u64 = 34359738368;
        let mut k: usize = 0;
        let ghost all = group_letters(v as int, count as int);
        proof {
            assert(pow32(7) == 34359738368) by {
                reveal_with_fuel(pow32, 8);
            }
            assert(all.take(0) =~= Seq::empty());
            assert(before + all.take(0) =~= before);
        }
        while k < count
            invariant
                k <= count <= 8,
                d == pow32(7 - k),
                d > 0,
                all == group_letters(v as int, count as int),
                out@ == before + all.take(k as int),
            decreases count - k,
        {
            let x: u8 = (v / d % 32) as u8;
            out.push(letter(x));
            proof {
                assert(all.take(k + 1) =~= all.take(k as int).push(all[k as int]));
                assert(out@ =~= before + all.take(k + 1));
                assert(pow32(7 - k) == 32 * pow32(7 - k - 1) || k == 7);
            }
            if k < 7 {
                d = d / 32;
            }
            k += 1;
            proof {
                if k == 8 {
                    assert(pow32(0) == 1);
                }
            }
        }
        proof {
            assert(all.take(count as int) =~= all);
            assert(rest@ == data@.skip(i as int));
            if rest@.len() < 5 {
                assert(data@.skip(n as int) =~= Seq::empty());
                assert(base32_of(rest@) == all);
                assert(out@ + base32_of(Seq::<u8>::empty()) =~= before + all);
            } else {
                assert(rest@.skip(5) =~= data@.skip(i + 5));
                assert(out@ + base32_of(data@.skip(i + 5)) =~= before + (all + base32_of(
                    data@.skip(i + 5),
                )));
            }
        }
        i = if n - i < 5 {
            n
        } else {
            i + 5
        };
    }
    proof {
        assert(data@.skip(n as int) =~= Seq::empty());
        assert(out@ + base32_of(Seq::<u8>::empty()) =~= out@);
    }
    out
}

// ---------------------------------------------------------------------------
// Redirects
// ---------------------------------------------------------------------------

/// The `g-dns.net` host of an address.
pub open spec fn gdns_of(ip: IpAddr) -> Seq<char> {
    base32_of(ip.bytes()) + "."@ + GDNS_ZONE@
}

/// The `g-dns.net` host for an IP address: `<base32(octets)>.g-dns.net`.
/// IPv4 uses the 4-byte form; IPv6 the 16-byte form.
pub fn gdns_host(ip: IpAddr) -> (r: String)
    ensures
        r@ == gdns_of(ip),
{
    let octets = ip.octets();
    let mut s = base32_nopad(octets.as_slice());
    s.push_str(".");
    s.push_str(GDNS_ZONE);
    s
}

/// The last position of a character.
pub open spec fn find_last(s: Seq<char>, x: char) -> Option<int>
    decreases s.len(),
{
    if s.len() == 0 {
        None
    } else if s.last() == x {
        Some(s.len() - 1)
    } else {
        find_last(s.drop_last(), x)
    }
}

/// Whether a text is a port: decimal digits.
pub open spec fn is_port(s: Seq<char>) -> bool {
    s.len() > 0 && forall|i: int| 0 <= i < s.len() ==> '0' <= #[trigger] s[i] <= '9'
}

/// The host of an authority: without its port, and without the brackets of an
/// IPv6 literal.
pub open spec fn host_of(authority: Seq<char>) -> Seq<char> {
    match strip_prefix(authority, "["@) {
        Some(rest) => match find_char(rest, ']') {
            Some(i) => rest.take(i),
            None => rest,
        },
        None => match find_last(authority, ':') {
            // The suffix is a port only if it is numeric: a bare IPv6 address
            // has many colons.
            Some(i) => if is_port(authority.skip(i + 1)) {
                authority.take(i)
            } else {
                authority
            },
            None => authority,
        },
    }
}

/// Whether a text is free of control characters.
pub open spec fn clean(s: Seq<char>) -> bool {
    forall|i: int| 0 <= i < s.len() ==> #[trigger] s[i] >= ' ' && s[i] != '\x7f'
}

/// Where an incoming HTTP request is redirected: its host if that is a DNS name,
/// else the g-dns host of the address it came to.
pub open spec fn location_of(host: Option<Seq<char>>, local: IpAddr, target: Seq<char>) -> Seq<char> {
    let authority = match host {
        Some(a) => {
            let h = host_of(a);
            if h.len() > 0 && !is_ip_literal(h) && clean(h) {
                h
            } else {
                gdns_of(local)
            }
        },
        None => gdns_of(local),
    };
    "https://"@ + authority + if clean(target) {
        target
    } else {
        "/"@
    }
}

fn rfind(c: &[char], x: char) -> (r: Option<usize>)
    ensures
        match (r, find_last(c@, x)) {
            (Some(i), Some(j)) => i == j && i < c@.len(),
            (None, None) => true,
            _ => false,
        },
{
    let mut i: usize = c.len();
    proof {
        assert(c@.take(c@.len() as int) =~= c@);
    }
    while i > 0
        invariant
            i <= c@.len(),
            find_last(c@.take(i as int), x) == find_last(c@, x),
        decreases i,
    {
        proof {
            assert(c@.take(i as int).drop_last() =~= c@.take(i - 1));
            assert(c@.take(i as int).last() == c@[i - 1]);
        }
        i -= 1;
        if c[i] == x {
            return Some(i);
        }
    }
    None
}

fn port(c: &[char]) -> (r: bool)
    ensures
        r == is_port(c@),
{
    let mut i: usize = 0;
    while i < c.len()
        invariant
            i <= c@.len(),
            forall|j: int| 0 <= j < i ==> '0' <= #[trigger] c@[j] <= '9',
        decreases c@.len() - i,
    {
        if c[i] < '0' || c[i] > '9' {
            return false;
        }
        i += 1;
    }
    c.len() > 0
}

fn host_chars(c: &[char]) -> (r: &[char])
    ensures
        r@ == host_of(c@),
{
    if let Some(rest) = chars_strip_prefix(c, "[") {
        return match chars_find(rest, ']') {
            Some(i) => head(rest, i),
            None => rest,
        };
    }
    let n: usize = c.len();
    match rfind(c, ':') {
        Some(i) => if port(tail(c, i + 1)) {
            head(c, i)
        } else {
            c
        },
        None => c,
    }
}

/// Strip a trailing `:port` from a `Host` header value, leaving the host.
/// Handles bracketed IPv6 literals (`[::1]:443`).
pub fn host_only(authority: &str) -> (r: String)
    ensures
        r@ == host_of(authority@),
{
    let c = chars_of(authority);
    text_of(host_chars(c.as_slice()))
}

fn is_clean(c: &[char]) -> (r: bool)
    ensures
        r == clean(c@),
{
    let mut i: usize = 0;
    while i < c.len()
        invariant
            i <= c@.len(),
            forall|j: int| 0 <= j < i ==> #[trigger] c@[j] >= ' ' && c@[j] != '\x7f',
        decreases c@.len() - i,
    {
        if c[i] < ' ' || c[i] == '\x7f' {
            return false;
        }
        i += 1;
    }
    true
}

/// Decide the HTTPS redirect target for an incoming HTTP request.
///
/// - A real DNS `Host` is preserved: `http://example.com/x` → `https://example.com/x`.
/// - A missing host, or a host that is a bare IP literal, becomes the
///   g-dns host for `local_ip` (the address the client connected to).
///
/// `target` is the request target (path plus optional query), used verbatim.
///
/// A control character (below space, or DEL) is never spliced into the emitted
/// `Location` header: in the host it falls back to the g-dns host, in the target
/// to `/`.
pub fn redirect_location(host_header: Option<&str>, local_ip: IpAddr, target: &str) -> (r: String)
    ensures
        r@ == location_of(
            match host_header {
                Some(h) => Some(h@),
                None => None,
            },
            local_ip,
            target@,
        ),
{
    let mut s = owned("https://");
    match host_header {
        Some(a) => {
            let c = chars_of(a);
            let h = host_chars(c.as_slice());
            if h.len() > 0 && !ip_literal(h) && is_clean(h) {
                s.push_str(text_of(h).as_str());
            } else {
                s.push_str(gdns_host(local_ip).as_str());
            }
        },
        None => {
            s.push_str(gdns_host(local_ip).as_str());
        },
    }
    let t = chars_of(target);
    if is_clean(t.as_slice()) {
        s.push_str(target);
    } else {
        s.push_str("/");
    }
    s
}

// ---------------------------------------------------------------------------
// Laws
// ---------------------------------------------------------------------------

/// A redirect location never holds a control character, so no request can inject
/// a header line through it.
pub proof fn law_location_is_clean(host: Option<Seq<char>>, local: IpAddr, target: Seq<char>)
    ensures
        clean(location_of(host, local, target)),
{
    reveal_strlit("https://");
    reveal_strlit("/");
    reveal_strlit(".");
    reveal_strlit("g-dns.net");
    lemma_base32_clean(local.bytes());
    lemma_clean_concat(base32_of(local.bytes()), "."@);
    lemma_clean_concat(base32_of(local.bytes()) + "."@, GDNS_ZONE@);
    let t = if clean(target) {
        target
    } else {
        "/"@
    };
    let h = match host {
        Some(a) => host_of(a),
        None => Seq::empty(),
    };
    let authority = if host is Some && h.len() > 0 && !is_ip_literal(h) && clean(h) {
        h
    } else {
        gdns_of(local)
    };
    lemma_clean_concat("https://"@, authority);
    lemma_clean_concat("https://"@ + authority, t);
}

proof fn lemma_clean_concat(a: Seq<char>, b: Seq<char>)
    requires
        clean(a),
        clean(b),
    ensures
        clean(a + b),
{
}

proof fn lemma_base32_clean(s: Seq<u8>)
    ensures
        clean(base32_of(s)),
    decreases s.len(),
{
    if s.len() >= 5 {
        lemma_base32_clean(s.skip(5));
    }
}

/// Without padding, `n` bytes take as many letters as their bits need.
pub proof fn law_base32_length(s: Seq<u8>)
    ensures
        base32_of(s).len() == letter_count(s.len() as int),
    decreases s.len(),
{
    if s.len() >= 5 {
        law_base32_length(s.skip(5));
    }
}

/// An encoded label gives its address back: two byte strings of one length with
/// the same letters are the same.
pub proof fn law_base32_is_injective(a: Seq<u8>, b: Seq<u8>)
    requires
        a.len() == b.len(),
        base32_of(a) == base32_of(b),
    ensures
        a == b,
    decreases a.len(),
{
    if a.len() == 0 {
        assert(a =~= b);
    } else {
        let v = quintet_value(a);
        let w = quintet_value(b);
        let n = if a.len() < 5 {
            a.len() as int
        } else {
            5
        };
        let m = letter_count(n);
        let x = group_letters(v, m);
        let y = group_letters(w, m);
        assert(base32_of(a).take(m) =~= x);
        assert(base32_of(b).take(m) =~= y);
        assert forall|k: int| 0 <= k < m implies #[trigger] (v / pow32(7 - k)) % 32 == (w / pow32(
            7 - k,
        )) % 32 by {
            assert(x[k] == y[k]);
            assert(x[k] == letter_of(v / pow32(7 - k) % 32));
            assert(y[k] == letter_of(w / pow32(7 - k) % 32));
        }
        assert(pow32(8) == 1099511627776) by {
            reveal_with_fuel(pow32, 9);
        }
        lemma_top_digits(v, w, m);
        lemma_group_bytes(a, b, n);
        if a.len() >= 5 {
            assert(base32_of(a).skip(8) =~= base32_of(a.skip(5)));
            assert(base32_of(b).skip(8) =~= base32_of(b.skip(5)));
            law_base32_is_injective(a.skip(5), b.skip(5));
            assert forall|i: int| 0 <= i < a.len() implies a[i] == b[i] by {
                if i >= 5 {
                    assert(a[i] == a.skip(5)[i - 5]);
                    assert(b[i] == b.skip(5)[i - 5]);
                }
            }
        }
        assert(a =~= b);
    }
}

/// Groups that agree in the digits that their letters show are the same.
proof fn lemma_group_bytes(a: Seq<u8>, b: Seq<u8>, n: int)
    requires
        1 <= n <= 5,
        n <= a.len(),
        n < 5 ==> a.len() == n,
        a.len() == b.len(),
        quintet_value(a) / pow32(8 - letter_count(n)) == quintet_value(b) / pow32(
            8 - letter_count(n),
        ),
    ensures
        forall|i: int| 0 <= i < n ==> a[i] == b[i],
{
    assert(pow32(0) == 1 && pow32(1) == 32 && pow32(3) == 32768 && pow32(4) == 1048576 && pow32(6)
        == 1073741824) by {
        reveal_with_fuel(pow32, 7);
    }
    let (a0, b0) = (byte_or_zero(a, 0), byte_or_zero(b, 0));
    let (a1, b1) = (byte_or_zero(a, 1), byte_or_zero(b, 1));
    let (a2, b2) = (byte_or_zero(a, 2), byte_or_zero(b, 2));
    let (a3, b3) = (byte_or_zero(a, 3), byte_or_zero(b, 3));
    let (a4, b4) = (byte_or_zero(a, 4), byte_or_zero(b, 4));
    let d = pow32(8 - letter_count(n));
    assert(quintet_value(a) % d == 0 && quintet_value(b) % d == 0) by {
        if n == 1 {
            assert(quintet_value(a) == a0 * 4 * d && quintet_value(b) == b0 * 4 * d);
        } else if n == 2 {
            assert(quintet_value(a) == (a0 * 4096 + a1 * 16) * d);
            assert(quintet_value(b) == (b0 * 4096 + b1 * 16) * d);
        } else if n == 3 {
            assert(quintet_value(a) == (a0 * 131072 + a1 * 512 + a2 * 2) * d);
            assert(quintet_value(b) == (b0 * 131072 + b1 * 512 + b2 * 2) * d);
        } else if n == 4 {
            assert(quintet_value(a) == (a0 * 134217728 + a1 * 524288 + a2 * 2048 + a3 * 8) * d);
            assert(quintet_value(b) == (b0 * 134217728 + b1 * 524288 + b2 * 2048 + b3 * 8) * d);
        }
    }
    assert(quintet_value(a) == quintet_value(b));
    assert(a0 == b0);
    assert(a1 == b1);
    assert(a2 == b2);
    assert(a3 == b3);
    assert(a4 == b4);
    assert(a[0] == b[0]);
    if n > 1 {
        assert(a[1] == b[1]);
    }
    if n > 2 {
        assert(a[2] == b[2]);
    }
    if n > 3 {
        assert(a[3] == b[3]);
    }
    if n > 4 {
        assert(a[4] == b[4]);
    }
}

/// Two numbers with the same leading digits agree as far as those reach.
proof fn lemma_top_digits(v: int, w: int, m: int)
    requires
        0 <= m <= 8,
        0 <= v < pow32(8),
        0 <= w < pow32(8),
        forall|k: int|
            0 <= k < m ==> #[trigger] (v / pow32(7 - k)) % 32 == (w / pow32(7 - k)) % 32,
    ensures
        v / pow32(8 - m) == w / pow32(8 - m),
    decreases m,
{
    if m == 0 {
        assert(v / pow32(8) == 0 && w / pow32(8) == 0) by (nonlinear_arith)
            requires
                0 <= v < pow32(8),
                0 <= w < pow32(8),
        ;
    } else {
        lemma_top_digits(v, w, m - 1);
        let p = pow32(8 - m);
        lemma_pow32_positive(8 - m);
        assert(pow32(8 - m + 1) == 32 * p);
        assert((v / p) % 32 == (w / p) % 32) by {
            assert(7 - (m - 1) == 8 - m);
            assert((v / pow32(7 - (m - 1))) % 32 == (w / pow32(7 - (m - 1))) % 32);
        }
        vstd::arithmetic::div_mod::lemma_div_denominator(v, p, 32);
        vstd::arithmetic::div_mod::lemma_div_denominator(w, p, 32);
        assert(p * 32 == 32 * p);
        let a = v / p;
        let b = w / p;
        assert(a / 32 == b / 32);
    }
}

proof fn lemma_pow32_positive(n: int)
    ensures
        pow32(n) > 0,
    decreases n,
{
    if n > 0 {
        lemma_pow32_positive(n - 1);
    }
}

} // verus!
