//! Laws of addresses and redirects.
use crate::bytes::be32;
use crate::net::gdns::{
    base32_of, find_last, group_letters, host_of, is_port, letter_of, location_of, pow32,
    quintet_value,
};
use crate::net::ip::{
    group_count, is_group, is_ip_literal, is_octet, is_v4_literal, is_v6_literal, IpAddr,
};
use crate::text::{
    concat, decimal, digit_val, find_char, find_text, hexadecimal, law_digits, law_find_text,
    law_joining_undoes_split, law_numerals_have_no_leading_zero, law_split_undoes_joining,
    law_strip_prefix, lemma_find_char, lemma_numeral, split, stands_at, strip_prefix,
};
use vstd::arithmetic::div_mod::lemma_fundamental_div_mod_converse;
use vstd::prelude::*;

verus! {

broadcast use vstd::seq::group_seq_axioms;

// ---------------------------------------------------------------------------
// Hosts
// ---------------------------------------------------------------------------

proof fn lemma_find_last(a: Seq<char>, b: Seq<char>, x: char)
    requires
        !b.contains(x),
    ensures
        find_last(a + seq![x] + b, x) == Some(a.len() as int),
    decreases b.len(),
{
    let s = a + seq![x] + b;
    if b.len() == 0 {
        assert(s.last() == x);
    } else {
        assert(b.contains(b[b.len() - 1]));
        assert(s.last() == b.last());
        let c = b.drop_last();
        assert(s.drop_last() =~= a + seq![x] + c);
        assert forall|i: int| 0 <= i < c.len() implies c[i] != x by {
            assert(b.contains(b[i]));
        }
        lemma_find_last(a, c, x);
    }
}

proof fn lemma_find_last_none(s: Seq<char>, x: char)
    requires
        !s.contains(x),
    ensures
        find_last(s, x) is None,
    decreases s.len(),
{
    if s.len() > 0 {
        assert(s.contains(s[s.len() - 1]));
        assert forall|i: int| 0 <= i < s.drop_last().len() implies s.drop_last()[i] != x by {
            assert(s.contains(s[i]));
        }
        lemma_find_last_none(s.drop_last(), x);
    }
}

/// The host of an authority is the name without the port; an address in brackets
/// comes out of them.
pub proof fn law_host_of_authority(host: Seq<char>, port: nat, v6: Seq<char>, rest: Seq<char>)
    requires
        host.len() > 0,
        !host.contains(':'),
        host[0] != '[',
        !v6.contains(']'),
    ensures
        host_of(host) == host,
        host_of(host + seq![':'] + decimal(port)) == host,
        host_of(seq!['['] + v6 + seq![']'] + rest) == v6,
{
    reveal_strlit("[");
    assert("["@ =~= seq!['[']);
    let a = host + seq![':'] + decimal(port);
    if strip_prefix(host, "["@) is Some {
        law_strip_prefix("["@, host);
        assert(host[0] == '[');
    }
    if strip_prefix(a, "["@) is Some {
        law_strip_prefix("["@, a);
        assert(a[0] == host[0]);
    }
    lemma_find_last_none(host, ':');
    lemma_numeral(port, 10);
    let d = decimal(port);
    assert(!d.contains(':')) by {
        assert(digit_val(':', 10) is None);
    }
    lemma_find_last(host, d, ':');
    assert(a.skip(host.len() as int + 1) =~= d);
    assert(a.take(host.len() as int) =~= host);
    assert(is_port(d)) by {
        assert forall|i: int| 0 <= i < d.len() implies '0' <= #[trigger] d[i] <= '9' by {
            assert(digit_val(d[i], 10) is Some);
        }
    }
    let inner = v6 + seq![']'] + rest;
    assert(seq!['['] + v6 + seq![']'] + rest =~= "["@ + inner);
    law_strip_prefix("["@, inner);
    lemma_find_char(inner, ']');
    assert(inner[v6.len() as int] == ']');
    let k = find_char(inner, ']')->0;
    if k < v6.len() {
        assert(inner[k] == v6[k]);
        assert(v6.contains(v6[k]));
    }
    assert(inner.take(k) =~= v6);
}

/// A request by name is redirected to the same name and target over HTTPS, without
/// its port.
pub proof fn law_redirect_keeps_name_and_target(
    host: Seq<char>,
    port: nat,
    local: IpAddr,
    target: Seq<char>,
    c: char,
)
    requires
        host.len() > 0,
        !host.contains(':'),
        host[0] != '[',
        forall|i: int| 0 <= i < host.len() ==> '!' <= #[trigger] host[i] && host[i] <= '~',
        host.contains(c),
        !"0123456789abcdefABCDEF.:"@.contains(c),
        forall|i: int| 0 <= i < target.len() ==> ' ' <= #[trigger] target[i] && target[i] <= '~',
    ensures
        location_of(Some(host), local, target) == "https://"@ + host + target,
        location_of(Some(host + seq![':'] + decimal(port)), local, target) == "https://"@ + host
            + target,
{
    law_host_of_authority(host, port, Seq::empty(), Seq::empty());
    law_names_are_no_addresses(host, c);
}

/// A request without a name, or by address, is redirected to the name that stands for
/// the address it came to.
pub proof fn law_redirect_by_address(v4: u32, target: Seq<char>, a: u8, b: u8, c: u8, d: u8)
    requires
        forall|i: int| 0 <= i < target.len() ==> ' ' <= #[trigger] target[i] && target[i] <= '~',
    ensures
        ({
            let local = IpAddr::V4(v4);
            let there = "https://"@ + (base32_of(be32(v4 as int)) + "."@ + "g-dns.net"@) + target;
            let dotted = concat(
                seq![
                    decimal(a as nat),
                    decimal(b as nat),
                    decimal(c as nat),
                    decimal(d as nat),
                ],
                seq!['.'],
            );
            &&& location_of(None, local, target) == there
            &&& location_of(Some(dotted), local, target) == there
        }),
{
    let parts = seq![decimal(a as nat), decimal(b as nat), decimal(c as nat), decimal(d as nat)];
    let dotted = concat(parts, seq!['.']);
    law_dotted_addresses(a, b, c, d);
    reveal_strlit("[");
    lemma_digits_and_dots(parts);
    if strip_prefix(dotted, "["@) is Some {
        law_strip_prefix("["@, dotted);
        assert(dotted[0] == '[');
    }
    assert(!dotted.contains(':'));
    lemma_find_last_none(dotted, ':');
}

proof fn lemma_digits_and_dots(parts: Seq<Seq<char>>)
    requires
        forall|i: int|
            0 <= i < parts.len() ==> exists|n: nat| #[trigger] parts[i] == #[trigger] decimal(n),
    ensures
        forall|i: int|
            0 <= i < concat(parts, seq!['.']).len() ==> digit_val(
                #[trigger] concat(parts, seq!['.'])[i],
                10,
            ) is Some || concat(parts, seq!['.'])[i] == '.',
    decreases parts.len(),
{
    if parts.len() > 0 {
        let n = choose|n: nat| parts[parts.len() - 1] == #[trigger] decimal(n);
        lemma_numeral(n, 10);
        let r = parts.drop_last();
        assert forall|i: int| 0 <= i < r.len() implies exists|n: nat|
            #[trigger] r[i] == #[trigger] decimal(n) by {
            assert(r[i] == parts[i]);
        }
        lemma_digits_and_dots(r);
        let s = concat(parts, seq!['.']);
        let t = concat(r, seq!['.']);
        assert forall|i: int| 0 <= i < s.len() implies digit_val(#[trigger] s[i], 10) is Some || s[i]
            == '.' by {
            if parts.len() == 1 {
                assert(s[i] == parts.last()[i]);
            } else if i < t.len() {
                assert(s[i] == t[i]);
            } else if i > t.len() {
                assert(s[i] == parts.last()[i - t.len() - 1]);
            }
        }
    }
}

// ---------------------------------------------------------------------------
// Literals
// ---------------------------------------------------------------------------

/// What is joined holds what its parts hold.
proof fn lemma_part_with(parts: Seq<Seq<char>>, sep: char, c: char) -> (k: int)
    requires
        concat(parts, seq![sep]).contains(c),
        c != sep,
    ensures
        0 <= k < parts.len(),
        parts[k].contains(c),
    decreases parts.len(),
{
    let s = concat(parts, seq![sep]);
    let i = choose|i: int| 0 <= i < s.len() && s[i] == c;
    if parts.len() == 1 {
        0
    } else {
        let rest = concat(parts.drop_last(), seq![sep]);
        if i < rest.len() {
            assert(rest[i] == c);
            let k = lemma_part_with(parts.drop_last(), sep, c);
            assert(parts.drop_last()[k] == parts[k]);
            k
        } else {
            assert(i > rest.len());
            assert(parts.last()[i - rest.len() - 1] == c);
            parts.len() - 1
        }
    }
}

proof fn lemma_no_v4(s: Seq<char>, c: char)
    requires
        s.contains(c),
        c != '.',
        digit_val(c, 10) is None,
    ensures
        !is_v4_literal(s),
{
    law_joining_undoes_split(s, '.');
    let k = lemma_part_with(split(s, '.'), '.', c);
    let p = split(s, '.')[k];
    let i = choose|i: int| 0 <= i < p.len() && p[i] == c;
    assert(digit_val(p[i], 10) is None);
    if split(s, '.').len() == 4 {
        assert(!is_octet(split(s, '.')[k]));
    }
}

proof fn lemma_no_groups(s: Seq<char>, c: char, dotted: bool)
    requires
        s.contains(c),
        c != '.' && c != ':',
        digit_val(c, 16) is None,
        digit_val(c, 10) is None,
    ensures
        group_count(split(s, ':'), dotted) is None,
{
    let parts = split(s, ':');
    law_joining_undoes_split(s, ':');
    let k = lemma_part_with(parts, ':', c);
    let p = parts[k];
    let i = choose|i: int| 0 <= i < p.len() && p[i] == c;
    assert(digit_val(p[i], 16) is None);
    assert(!is_group(p));
    lemma_no_v4(p, c);
    if k < parts.len() - 1 {
        assert(!is_group(parts[k]));
    }
}

/// A name with a character that no address has is no address.
pub proof fn law_names_are_no_addresses(s: Seq<char>, c: char)
    requires
        s.contains(c),
        !"0123456789abcdefABCDEF.:"@.contains(c),
    ensures
        !is_ip_literal(s),
{
    reveal_strlit("0123456789abcdefABCDEF.:");
    reveal_strlit("0123456789abcdefABCDEF");
    reveal_strlit("0123456789");
    reveal_strlit("::");
    let all = "0123456789abcdefABCDEF.:"@;
    let hex = "0123456789abcdefABCDEF"@;
    assert(c != '.') by {
        assert(all[22] == '.');
    }
    assert(c != ':') by {
        assert(all[23] == ':');
    }
    assert(!hex.contains(c)) by {
        if hex.contains(c) {
            let i = choose|i: int| 0 <= i < hex.len() && hex[i] == c;
            assert(all[i] == hex[i]);
        }
    }
    law_digits(c, 0);
    assert(digit_val(c, 16) is None);
    assert(digit_val(c, 10) is None);
    lemma_no_v4(s, c);
    lemma_no_groups(s, c, true);
    law_find_text(s, "::"@, 0);
    if let Some(k) = find_text(s, "::"@, 0) {
        let i = choose|i: int| 0 <= i < s.len() && s[i] == c;
        let w = s.subrange(k, k + 2);
        assert(w[0] == ':' && w[1] == ':');
        assert(s[k] == ':' && s[k + 1] == ':');
        if i < k {
            assert(s.take(k)[i] == c);
            assert(s.take(k).contains(c));
            lemma_no_groups(s.take(k), c, false);
        } else {
            assert(i >= k + 2);
            assert(s.skip(k + 2)[i - k - 2] == c);
            assert(s.skip(k + 2).contains(c));
            lemma_no_groups(s.skip(k + 2), c, true);
        }
    }
}

proof fn lemma_small_numeral(n: nat)
    requires
        n <= 255,
    ensures
        is_octet(decimal(n)),
        !decimal(n).contains('.'),
{
    lemma_numeral(n, 10);
    law_numerals_have_no_leading_zero(n, 10);
    let d = decimal(n);
    assert(d.len() <= 3) by {
        reveal_with_fuel(crate::text::numeral, 4);
    }
    assert(digit_val('.', 10) is None);
}

/// Four numbers up to 255 with dots between them are an address.
pub proof fn law_dotted_addresses(a: u8, b: u8, c: u8, d: u8)
    ensures
        is_ip_literal(
            concat(
                seq![
                    decimal(a as nat),
                    decimal(b as nat),
                    decimal(c as nat),
                    decimal(d as nat),
                ],
                seq!['.'],
            ),
        ),
{
    let parts = seq![decimal(a as nat), decimal(b as nat), decimal(c as nat), decimal(d as nat)];
    lemma_small_numeral(a as nat);
    lemma_small_numeral(b as nat);
    lemma_small_numeral(c as nat);
    lemma_small_numeral(d as nat);
    assert forall|i: int| 0 <= i < 4 implies is_octet(#[trigger] parts[i]) && !parts[i].contains('.') by {
        assert(i == 0 || i == 1 || i == 2 || i == 3);
    }
    law_split_undoes_joining(parts, '.');
}

/// A number above 255 makes a dotted text no address, and so does any other count of
/// numbers than four.
pub proof fn law_not_dotted_addresses(parts: Seq<Seq<char>>, k: int, n: nat)
    requires
        0 <= k < parts.len(),
        forall|i: int| 0 <= i < parts.len() ==> !(#[trigger] parts[i]).contains('.'),
        (parts[k] == decimal(n) && n > 255) || parts.len() != 4,
    ensures
        !is_v4_literal(concat(parts, seq!['.'])),
{
    law_split_undoes_joining(parts, '.');
    if parts.len() == 4 {
        lemma_numeral(n, 10);
        assert(!is_octet(parts[k]));
    }
}

proof fn lemma_hex_group(n: nat)
    requires
        n <= 0xffff,
    ensures
        is_group(hexadecimal(n)),
        !hexadecimal(n).contains(':'),
{
    lemma_numeral(n, 16);
    let d = hexadecimal(n);
    assert(d.len() <= 4) by {
        reveal_with_fuel(crate::text::numeral, 5);
    }
    assert(digit_val(':', 16) is None);
}

/// The groups of an address in hexadecimal.
pub open spec fn hex_groups(g: Seq<u16>) -> Seq<Seq<char>> {
    g.map_values(|n: u16| hexadecimal(n as nat))
}

proof fn lemma_hex_groups(g: Seq<u16>)
    requires
        g.len() > 0,
    ensures
        split(concat(hex_groups(g), seq![':']), ':') == hex_groups(g),
        group_count(hex_groups(g), true) == Some(g.len() as int),
        group_count(hex_groups(g), false) == Some(g.len() as int),
        concat(hex_groups(g), seq![':']).len() > 0,
        concat(hex_groups(g), seq![':']).last() != ':',
        concat(hex_groups(g), seq![':'])[0] != ':',
{
    let p = hex_groups(g);
    assert forall|i: int| 0 <= i < p.len() implies is_group(#[trigger] p[i]) && !p[i].contains(':') by {
        lemma_hex_group(g[i] as nat);
    }
    law_split_undoes_joining(p, ':');
    assert(is_group(p[p.len() - 1]));
    lemma_joined_edges(p);
}

proof fn lemma_joined_edges(p: Seq<Seq<char>>)
    requires
        p.len() > 0,
        forall|i: int| 0 <= i < p.len() ==> (#[trigger] p[i]).len() > 0 && !p[i].contains(':'),
    ensures
        concat(p, seq![':']).len() > 0,
        concat(p, seq![':']).last() != ':',
        concat(p, seq![':'])[0] != ':',
    decreases p.len(),
{
    let last = p[p.len() - 1];
    assert(last.contains(last[last.len() - 1]));
    assert(last.contains(last[0]));
    if p.len() > 1 {
        let r = p.drop_last();
        assert forall|i: int| 0 <= i < r.len() implies (#[trigger] r[i]).len() > 0 && !r[i].contains(
            ':',
        ) by {
            assert(r[i] == p[i]);
        }
        lemma_joined_edges(r);
        assert(concat(p, seq![':']).last() == last.last());
        assert(concat(p, seq![':'])[0] == concat(r, seq![':'])[0]);
    }
}

/// No two colons stand together in a text of groups.
proof fn lemma_no_double_colon(p: Seq<Seq<char>>, i: int)
    requires
        p.len() > 0,
        forall|k: int| 0 <= k < p.len() ==> (#[trigger] p[k]).len() > 0 && !p[k].contains(':'),
        0 <= i,
        i + 1 < concat(p, seq![':']).len(),
    ensures
        concat(p, seq![':'])[i] != ':' || concat(p, seq![':'])[i + 1] != ':',
    decreases p.len(),
{
    let s = concat(p, seq![':']);
    let last = p[p.len() - 1];
    if p.len() == 1 {
        assert(last.contains(s[i]));
    } else {
        let r = p.drop_last();
        let t = concat(r, seq![':']);
        assert forall|k: int| 0 <= k < r.len() implies (#[trigger] r[k]).len() > 0 && !r[k].contains(
            ':',
        ) by {
            assert(r[k] == p[k]);
        }
        if i + 1 < t.len() {
            lemma_no_double_colon(r, i);
            assert(s[i] == t[i] && s[i + 1] == t[i + 1]);
        } else if i + 1 == t.len() {
            lemma_joined_edges(r);
            assert(s[i] == t.last());
        } else {
            let k = i + 1 - t.len() - 1;
            assert(s[i + 1] == last[k]);
            assert(last.contains(last[k]));
        }
    }
}

/// Eight groups of hexadecimal digits with colons between them are an address, and
/// other numbers of groups are not.
pub proof fn law_full_addresses(g: Seq<u16>)
    requires
        g.len() > 0,
    ensures
        is_v6_literal(concat(hex_groups(g), seq![':'])) <==> g.len() == 8,
{
    reveal_strlit("::");
    let p = hex_groups(g);
    let s = concat(p, seq![':']);
    lemma_hex_groups(g);
    assert forall|k: int| 0 <= k < p.len() implies (#[trigger] p[k]).len() > 0 && !p[k].contains(
        ':',
    ) by {
        lemma_hex_group(g[k] as nat);
    }
    law_find_text(s, "::"@, 0);
    if let Some(k) = find_text(s, "::"@, 0) {
        let w = s.subrange(k, k + 2);
        assert(w[0] == ':' && w[1] == ':');
        lemma_no_double_colon(p, k);
    }
}

/// Fewer groups than eight with one double colon among them are an address.
pub proof fn law_shortened_addresses(a: Seq<u16>, b: Seq<u16>)
    requires
        a.len() + b.len() <= 7,
    ensures
        is_v6_literal(
            concat(hex_groups(a), seq![':']) + seq![':', ':'] + concat(hex_groups(b), seq![':']),
        ),
{
    reveal_strlit("::");
    let p = hex_groups(a);
    let q = hex_groups(b);
    let x = concat(p, seq![':']);
    let y = concat(q, seq![':']);
    let s = x + seq![':', ':'] + y;
    let n = x.len() as int;
    if a.len() > 0 {
        lemma_hex_groups(a);
        assert forall|k: int| 0 <= k < p.len() implies (#[trigger] p[k]).len() > 0 && !p[k].contains(
            ':',
        ) by {
            lemma_hex_group(a[k] as nat);
        }
    }
    if b.len() > 0 {
        lemma_hex_groups(b);
    }
    assert(s.subrange(n, n + 2) =~= "::"@);
    assert forall|j: int| 0 <= j < n implies !stands_at(s, "::"@, j) by {
        if stands_at(s, "::"@, j) {
            let w = s.subrange(j, j + 2);
            assert(w[0] == ':' && w[1] == ':');
            assert(s[j] == x[j]);
            if j + 1 < n {
                assert(s[j + 1] == x[j + 1]);
                lemma_no_double_colon(p, j);
            } else {
                assert(x.last() == ':');
            }
        }
    }
    law_find_text(s, "::"@, 0);
    assert(stands_at(s, "::"@, n));
    assert(find_text(s, "::"@, 0) == Some(n));
    assert(s.take(n) =~= x);
    assert(s.skip(n + 2) =~= y);
    if a.len() == 0 {
        assert(x =~= Seq::empty());
    }
    if b.len() == 0 {
        assert(y =~= Seq::empty());
    }
}

// ---------------------------------------------------------------------------
// Base 32
// ---------------------------------------------------------------------------

/// Five bytes are eight letters, each for five bits, the first bits first.
pub proof fn law_base32_letters(s: Seq<u8>)
    requires
        s.len() == 5,
    ensures
        ({
            let letters = "abcdefghijklmnopqrstuvwxyz234567"@;
            let (a, b, c, d, e) = (s[0] as int, s[1] as int, s[2] as int, s[3] as int, s[4] as int);
            base32_of(s) == seq![
                letters[a / 8],
                letters[a % 8 * 4 + b / 64],
                letters[b / 2 % 32],
                letters[b % 2 * 16 + c / 16],
                letters[c % 16 * 2 + d / 128],
                letters[d / 4 % 32],
                letters[d % 4 * 8 + e / 32],
                letters[e % 32],
            ]
        }),
{
    let (a, b, c, d, e) = (s[0] as int, s[1] as int, s[2] as int, s[3] as int, s[4] as int);
    let v = seq![
        a / 8,
        a % 8 * 4 + b / 64,
        b / 2 % 32,
        b % 2 * 16 + c / 16,
        c % 16 * 2 + d / 128,
        d / 4 % 32,
        d % 4 * 8 + e / 32,
        e % 32,
    ];
    let n = quintet_value(s);
    lemma_quintet(a, b, c, d, e);
    assert(n == a * 0x1_0000_0000 + b * 0x100_0000 + c * 0x1_0000 + d * 0x100 + e);
    reveal_with_fuel(pow32, 9);
    assert(pow32(7) == 0x8_0000_0000 && pow32(6) == 0x4000_0000 && pow32(5) == 0x200_0000 && pow32(4)
        == 0x10_0000 && pow32(3) == 0x8000 && pow32(2) == 0x400 && pow32(1) == 0x20 && pow32(0) == 1);
    let letters = "abcdefghijklmnopqrstuvwxyz234567"@;
    assert(s.skip(5) =~= Seq::empty());
    assert(base32_of(s.skip(5)) =~= Seq::empty());
    let w = group_letters(n, 8);
    assert forall|k: int| 0 <= k < 8 implies #[trigger] w[k] == letters[v[k]] && 0 <= v[k] < 32 by {
        assert(0 <= v[0] < 32 && 0 <= v[1] < 32 && 0 <= v[2] < 32 && 0 <= v[3] < 32 && 0 <= v[4] < 32
            && 0 <= v[5] < 32 && 0 <= v[6] < 32 && 0 <= v[7] < 32);
        assert(k == 0 || k == 1 || k == 2 || k == 3 || k == 4 || k == 5 || k == 6 || k == 7);
        assert(n / pow32(7 - k) % 32 == v[k]);
        lemma_letter(v[k]);
    }
    assert(base32_of(s) =~= w);
    assert(w =~= seq![
        letters[v[0]],
        letters[v[1]],
        letters[v[2]],
        letters[v[3]],
        letters[v[4]],
        letters[v[5]],
        letters[v[6]],
        letters[v[7]],
    ]);
}

proof fn lemma_letter(v: int)
    requires
        0 <= v < 32,
    ensures
        letter_of(v) == "abcdefghijklmnopqrstuvwxyz234567"@[v],
{
    reveal_strlit("abcdefghijklmnopqrstuvwxyz234567");
}

proof fn lemma_quintet(a: int, b: int, c: int, d: int, e: int)
    requires
        0 <= a < 256,
        0 <= b < 256,
        0 <= c < 256,
        0 <= d < 256,
        0 <= e < 256,
    ensures
        ({
            let n = a * 0x1_0000_0000 + b * 0x100_0000 + c * 0x1_0000 + d * 0x100 + e;
            &&& n / 0x8_0000_0000 % 32 == a / 8
            &&& n / 0x4000_0000 % 32 == a % 8 * 4 + b / 64
            &&& n / 0x200_0000 % 32 == b / 2 % 32
            &&& n / 0x10_0000 % 32 == b % 2 * 16 + c / 16
            &&& n / 0x8000 % 32 == c % 16 * 2 + d / 128
            &&& n / 0x400 % 32 == d / 4 % 32
            &&& n / 0x20 % 32 == d % 4 * 8 + e / 32
            &&& n / 1 % 32 == e % 32
        }),
{
    let n = a * 0x1_0000_0000 + b * 0x100_0000 + c * 0x1_0000 + d * 0x100 + e;
    let v0 = a / 8;
    let v1 = a % 8 * 4 + b / 64;
    let v2 = b / 2 % 32;
    let v3 = b % 2 * 16 + c / 16;
    let v4 = c % 16 * 2 + d / 128;
    let v5 = d / 4 % 32;
    let v6 = d % 4 * 8 + e / 32;
    let v7 = e % 32;
    lemma_split_byte(b);
    lemma_split_byte(d);
    let q1 = v0 * 32 + v1;
    let q2 = q1 * 32 + v2;
    let q3 = q2 * 32 + v3;
    let q4 = q3 * 32 + v4;
    let q5 = q4 * 32 + v5;
    let q6 = q5 * 32 + v6;
    assert(0 <= v0 < 32 && 0 <= v1 < 32 && 0 <= v2 < 32 && 0 <= v3 < 32 && 0 <= v4 < 32 && 0 <= v5
        < 32 && 0 <= v6 < 32 && 0 <= v7 < 32);
    assert(n == q6 * 32 + v7);
    lemma_fundamental_div_mod_converse(n, 0x20, q6, v7);
    lemma_fundamental_div_mod_converse(n, 0x400, q5, v6 * 0x20 + v7);
    lemma_fundamental_div_mod_converse(n, 0x8000, q4, v5 * 0x400 + v6 * 0x20 + v7);
    lemma_fundamental_div_mod_converse(n, 0x10_0000, q3, v4 * 0x8000 + v5 * 0x400 + v6 * 0x20 + v7);
    lemma_fundamental_div_mod_converse(
        n,
        0x200_0000,
        q2,
        v3 * 0x10_0000 + v4 * 0x8000 + v5 * 0x400 + v6 * 0x20 + v7,
    );
    lemma_fundamental_div_mod_converse(
        n,
        0x4000_0000,
        q1,
        v2 * 0x200_0000 + v3 * 0x10_0000 + v4 * 0x8000 + v5 * 0x400 + v6 * 0x20 + v7,
    );
    lemma_fundamental_div_mod_converse(
        n,
        0x8_0000_0000,
        v0,
        v1 * 0x4000_0000 + v2 * 0x200_0000 + v3 * 0x10_0000 + v4 * 0x8000 + v5 * 0x400 + v6 * 0x20
            + v7,
    );
    lemma_fundamental_div_mod_converse(q1, 32, v0, v1);
    lemma_fundamental_div_mod_converse(q2, 32, q1, v2);
    lemma_fundamental_div_mod_converse(q3, 32, q2, v3);
    lemma_fundamental_div_mod_converse(q4, 32, q3, v4);
    lemma_fundamental_div_mod_converse(q5, 32, q4, v5);
    lemma_fundamental_div_mod_converse(q6, 32, q5, v6);
}

proof fn lemma_split_byte(b: int)
    requires
        0 <= b < 256,
    ensures
        b == b / 64 * 64 + b / 2 % 32 * 2 + b % 2,
        b == b / 128 * 128 + b / 4 % 32 * 4 + b % 4,
{
}

} // verus!
