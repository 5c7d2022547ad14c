//! Laws of the ACME messages: what is sent reads as what was meant, and what is
//! received is taken for what it says.
use crate::acme::client::{
    account_payload_of, acme_error, directory_of, finalize_payload_of, identifier, identifiers,
    offered, order_payload_of, problem, says_bad_nonce, selected, ChallengeModel, DirectoryModel,
};
use crate::acme::jose::{
    auth_member, b64url_of, is_url_char, jwk_of, jws_members, jws_of, law_b64url_alphabet,
    law_jws_reads_back, lemma_nothing_to_escape, protected_of, signing_input,
};
use crate::acme::json::{
    document, escaped, member, nested_within, quoted, string_values, ValueModel, MAX_DEPTH,
    MAX_INPUT,
};
use crate::acme::json_laws::{
    law_members_by_key, law_written_values_are_read, shown, shown_items, shown_members, sound, white,
};
use crate::error::ErrorModel;
use crate::text::law_contains;
use vstd::prelude::*;
use vstd::utf8::{encode_utf8, encode_utf8_decode_utf8, encode_utf8_valid_utf8};

verus! {

broadcast use vstd::seq::group_seq_axioms;

/// Escaping goes character by character.
pub proof fn law_escaping_goes_piece_by_piece(a: Seq<char>, b: Seq<char>)
    ensures
        escaped(a + b) == escaped(a) + escaped(b),
    decreases b.len(),
{
    if b.len() == 0 {
        assert(a + b =~= a);
        assert(escaped(a) + escaped(b) =~= escaped(a));
    } else {
        law_escaping_goes_piece_by_piece(a, b.drop_last());
        assert((a + b).drop_last() =~= a + b.drop_last());
        assert((a + b).last() == b.last());
        assert(escaped(a + b) =~= escaped(a) + escaped(b));
    }
}

/// The members of an object, one before the rest, with nothing between the tokens.
proof fn lemma_members(f: Seq<(Seq<char>, ValueModel)>, n: nat)
    requires
        f.len() > 0,
    ensures
        f.len() == 1 ==> shown_members(f, n, Seq::empty()) == (quoted(f[0].0) + seq![':']) + shown(
            f[0].1,
            n,
            Seq::empty(),
        ),
        f.len() > 1 ==> shown_members(f, n, Seq::empty()) == (quoted(f[0].0) + seq![':']) + shown(
            f[0].1,
            n,
            Seq::empty(),
        ) + (seq![','] + shown_members(f.skip(1), n, Seq::empty())),
{
    let w = Seq::<char>::empty();
    let first = (quoted(f[0].0) + seq![':']) + shown(f[0].1, n, w);
    if f.len() == 1 {
        assert(shown_members(f, n, w) =~= first);
    } else {
        assert(shown_members(f, n, w) =~= first + (seq![','] + shown_members(f.skip(1), n, w)));
    }
}

/// Values with nothing between the tokens.
proof fn lemma_shown(
    s: Seq<char>,
    items: Seq<ValueModel>,
    f: Seq<(Seq<char>, ValueModel)>,
    n: nat,
)
    ensures
        shown(ValueModel::Str(s), n, Seq::empty()) == quoted(s),
        shown(ValueModel::Bool(true), n, Seq::empty()) == "true"@,
        shown(ValueModel::Array(items), n + 1, Seq::empty()) == seq!['['] + shown_items(
            items,
            n,
            Seq::empty(),
        ) + seq![']'],
        shown(ValueModel::Object(f), n + 1, Seq::empty()) == seq!['{'] + shown_members(
            f,
            n,
            Seq::empty(),
        ) + seq!['}'],
{
    let w = Seq::<char>::empty();
    assert(shown(ValueModel::Str(s), n, w) =~= quoted(s));
    assert(shown(ValueModel::Bool(true), n, w) =~= "true"@);
    assert(shown(ValueModel::Array(items), n + 1, w) =~= seq!['['] + shown_items(items, n, w)
        + seq![']']);
    assert(shown(ValueModel::Object(f), n + 1, w) =~= seq!['{'] + shown_members(f, n, w)
        + seq!['}']);
}

/// A text that shows a value is read as that value.
proof fn lemma_read(v: ValueModel, n: nat, text: Seq<char>)
    requires
        n <= MAX_DEPTH,
        nested_within(v, n),
        sound(v, n),
        shown(v, n, Seq::empty()) == text,
        encode_utf8(text).len() <= MAX_INPUT,
    ensures
        document(text) == Ok::<ValueModel, Seq<char>>(v),
{
    law_written_values_are_read(v, n, Seq::empty());
}

/// A request for an account, as a JSON value.
pub open spec fn account_value(email: Option<Seq<char>>) -> ValueModel {
    ValueModel::Object(
        match email {
            None => seq![("termsOfServiceAgreed"@, ValueModel::Bool(true))],
            Some(e) => seq![
                ("termsOfServiceAgreed"@, ValueModel::Bool(true)),
                ("contact"@, ValueModel::Array(seq![ValueModel::Str("mailto:"@ + e)])),
            ],
        },
    )
}

/// An account is asked for with the terms agreed to, and the address to write to
/// where one is given.
pub proof fn law_account_payload(email: Option<Seq<char>>)
    requires
        encode_utf8(account_payload_of(email)).len() <= MAX_INPUT,
    ensures
        document(account_payload_of(email)) == Ok::<ValueModel, Seq<char>>(account_value(email)),
{
    lemma_account(email);
    lemma_read(account_value(email), 3, account_payload_of(email));
}

proof fn lemma_account(email: Option<Seq<char>>)
    ensures
        shown(account_value(email), 3, Seq::empty()) == account_payload_of(email),
        sound(account_value(email), 3),
        nested_within(account_value(email), 3),
{
    let w = Seq::<char>::empty();
    let agreed = ("termsOfServiceAgreed"@, ValueModel::Bool(true));
    lemma_account_pieces();
    match email {
        None => {
            let f = seq![agreed];
            lemma_members(f, 2);
            lemma_shown(w, seq![], f, 2);
            assert(sound(agreed.1, 2) && nested_within(agreed.1, 2));
        },
        Some(e) => {
            law_escaping_goes_piece_by_piece("mailto:"@, e);
            let items = seq![ValueModel::Str("mailto:"@ + e)];
            let contact = ("contact"@, ValueModel::Array(items));
            let f = seq![agreed, contact];
            assert(f.skip(1) =~= seq![contact]);
            lemma_members(f, 2);
            lemma_members(seq![contact], 2);
            lemma_shown("mailto:"@ + e, items, f, 1);
            lemma_shown("mailto:"@ + e, items, f, 2);
            lemma_regroup_contact(
                quoted("termsOfServiceAgreed"@) + seq![':'] + "true"@,
                quoted("contact"@) + seq![':'],
                "mailto:"@,
                escaped(e),
            );
            assert(sound(items[0], 1) && nested_within(items[0], 1));
            assert(sound(contact.1, 2) && nested_within(contact.1, 2));
            assert(sound(agreed.1, 2) && nested_within(agreed.1, 2));
        },
    }
}

proof fn lemma_regroup_contact(a: Seq<char>, k: Seq<char>, m: Seq<char>, e: Seq<char>)
    ensures
        seq!['{'] + (a + (seq![','] + (k + (seq!['['] + (seq!['"'] + (m + e) + seq!['"']) + seq![
            ']',
        ])))) + seq!['}'] == (seq!['{'] + a + seq![','] + k + seq!['[', '"'] + m) + e + seq![
            '"',
            ']',
            '}',
        ],
{
    assert(seq!['{'] + (a + (seq![','] + (k + (seq!['['] + (seq!['"'] + (m + e) + seq!['"'])
        + seq![']'])))) + seq!['}'] =~= (seq!['{'] + a + seq![','] + k + seq!['[', '"'] + m) + e
        + seq!['"', ']', '}']);
}

#[verifier::spinoff_prover]
proof fn lemma_account_pieces()
    ensures
        escaped("mailto:"@) == "mailto:"@,
        "{\"termsOfServiceAgreed\":true}"@ == seq!['{'] + (quoted("termsOfServiceAgreed"@) + seq![':']
            + "true"@) + seq!['}'],
        "{\"termsOfServiceAgreed\":true,\"contact\":[\"mailto:"@ == seq!['{'] + (quoted(
            "termsOfServiceAgreed"@,
        ) + seq![':'] + "true"@) + seq![','] + (quoted("contact"@) + seq![':']) + seq!['[', '"']
            + "mailto:"@,
        "\"]}"@ == seq!['"', ']', '}'],
{
    reveal_strlit("termsOfServiceAgreed");
    reveal_strlit("contact");
    reveal_strlit("mailto:");
    reveal_strlit("true");
    reveal_strlit("{\"termsOfServiceAgreed\":true}");
    reveal_strlit("{\"termsOfServiceAgreed\":true,\"contact\":[\"mailto:");
    reveal_strlit("\"]}");
    lemma_nothing_to_escape("termsOfServiceAgreed"@);
    lemma_nothing_to_escape("contact"@);
    lemma_nothing_to_escape("mailto:"@);
    assert("{\"termsOfServiceAgreed\":true}"@ =~= seq!['{'] + (quoted("termsOfServiceAgreed"@)
        + seq![':'] + "true"@) + seq!['}']);
    assert("\"]}"@ =~= seq!['"', ']', '}']);
    assert("{\"termsOfServiceAgreed\":true,\"contact\":[\"mailto:"@ =~= seq!['{'] + (quoted(
        "termsOfServiceAgreed"@,
    ) + seq![':'] + "true"@) + seq![','] + (quoted("contact"@) + seq![':']) + seq!['[', '"']
        + "mailto:"@);
}

/// A DNS name as an order names it.
pub open spec fn named(name: Seq<char>) -> ValueModel {
    ValueModel::Object(
        seq![("type"@, ValueModel::Str("dns"@)), ("value"@, ValueModel::Str(name))],
    )
}

proof fn lemma_identifier(name: Seq<char>, n: nat)
    requires
        n > 0,
    ensures
        shown(named(name), n, Seq::empty()) == identifier(name),
        nested_within(named(name), n),
        sound(named(name), n),
{
    let w = Seq::<char>::empty();
    reveal_strlit("type");
    reveal_strlit("dns");
    reveal_strlit("value");
    reveal_strlit("{\"type\":\"dns\",\"value\":\"");
    reveal_strlit("\"}");
    reveal_with_fuel(shown, 3);
    reveal_with_fuel(shown_members, 3);
    reveal_with_fuel(sound, 3);
    reveal_with_fuel(nested_within, 3);
    lemma_nothing_to_escape("type"@);
    lemma_nothing_to_escape("dns"@);
    lemma_nothing_to_escape("value"@);
    let v = ("value"@, ValueModel::Str(name));
    let f = seq![("type"@, ValueModel::Str("dns"@)), v];
    assert(f.skip(1) =~= seq![v]);
    assert(shown(named(name), n, w) =~= identifier(name));
}

proof fn lemma_identifiers(names: Seq<Seq<char>>, n: nat)
    requires
        n > 0,
    ensures
        shown_items(names.map_values(|s: Seq<char>| named(s)), n, Seq::empty()) == identifiers(
            names,
        ),
    decreases names.len(),
{
    let w = Seq::<char>::empty();
    let f = |s: Seq<char>| named(s);
    let items = names.map_values(f);
    if names.len() == 1 {
        lemma_identifier(names[0], n);
    } else if names.len() > 1 {
        let front = names.drop_last();
        lemma_identifiers(front, n);
        lemma_identifier(names.last(), n);
        assert(front.map_values(f) =~= items.drop_last());
        lemma_items_end(items.drop_last(), named(names.last()), n);
        assert(items =~= items.drop_last().push(named(names.last())));
        reveal_strlit(",");
        assert(","@ =~= seq![',']);
    }
}

/// The last item of a list stands at its end.
proof fn lemma_items_end(items: Seq<ValueModel>, v: ValueModel, n: nat)
    requires
        items.len() > 0,
    ensures
        shown_items(items.push(v), n, Seq::empty()) == shown_items(items, n, Seq::empty()) + seq![
            ',',
        ] + shown(v, n, Seq::empty()),
    decreases items.len(),
{
    let w = Seq::<char>::empty();
    let all = items.push(v);
    if items.len() == 1 {
        assert(all.skip(1) =~= seq![v]);
        assert(shown_items(seq![v], n, w) == shown(v, n, w));
        assert(shown_items(all, n, w) =~= shown_items(items, n, w) + seq![','] + shown(v, n, w));
    } else {
        lemma_items_end(items.skip(1), v, n);
        assert(all.skip(1) =~= items.skip(1).push(v));
        assert(shown_items(all, n, w) =~= shown_items(items, n, w) + seq![','] + shown(v, n, w));
    }
}

/// An order names each of its names, as DNS names, in their order.
pub proof fn law_order_payload(names: Seq<Seq<char>>)
    requires
        encode_utf8(order_payload_of(names)).len() <= MAX_INPUT,
    ensures
        document(order_payload_of(names)) == Ok::<ValueModel, Seq<char>>(
            ValueModel::Object(
                seq![
                    (
                        "identifiers"@,
                        ValueModel::Array(names.map_values(|s: Seq<char>| named(s))),
                    ),
                ],
            ),
        ),
{
    let w = Seq::<char>::empty();
    let items = names.map_values(|s: Seq<char>| named(s));
    let f = seq![("identifiers"@, ValueModel::Array(items))];
    let v = ValueModel::Object(f);
    reveal_strlit("identifiers");
    reveal_strlit("{\"identifiers\":[");
    reveal_strlit("]}");
    lemma_nothing_to_escape("identifiers"@);
    lemma_identifiers(names, 2);
    assert forall|i: int| 0 <= i < items.len() implies sound(#[trigger] items[i], 2)
        && nested_within(items[i], 2) by {
        lemma_identifier(names[i], 2);
    }
    assert(sound(ValueModel::Array(items), 3) && nested_within(ValueModel::Array(items), 3));
    assert(shown(ValueModel::Array(items), 3, w) =~= seq!['['] + identifiers(names) + seq![']']);
    assert(shown(v, 4, w) =~= order_payload_of(names));
    law_written_values_are_read(v, 4, w);
}

/// A finished order hands in the signing request, as base64url.
pub proof fn law_finalize_payload(csr: Seq<u8>)
    requires
        encode_utf8(finalize_payload_of(csr)).len() <= MAX_INPUT,
    ensures
        document(finalize_payload_of(csr)) == Ok::<ValueModel, Seq<char>>(
            ValueModel::Object(seq![("csr"@, ValueModel::Str(b64url_of(csr)))]),
        ),
{
    let w = Seq::<char>::empty();
    let f = seq![("csr"@, ValueModel::Str(b64url_of(csr)))];
    let v = ValueModel::Object(f);
    reveal_strlit("csr");
    reveal_strlit("{\"csr\":\"");
    reveal_strlit("\"}");
    lemma_nothing_to_escape("csr"@);
    lemma_plain(csr);
    assert("{\"csr\":\""@ =~= seq!['{'] + (quoted("csr"@) + seq![':']) + seq!['"']);
    assert("\"}"@ =~= seq!['"', '}']);
    lemma_members(f, 0);
    lemma_shown(b64url_of(csr), seq![], f, 0);
    assert(shown(v, 1, w) =~= finalize_payload_of(csr));
    assert(f[0].1 is Str);
    assert(sound(f[0].1, 0) && nested_within(f[0].1, 0));
    assert(sound(v, 1) && nested_within(v, 1));
    law_written_values_are_read(v, 1, w);
}

/// Base64url needs no escapes.
proof fn lemma_plain(s: Seq<u8>)
    ensures
        escaped(b64url_of(s)) == b64url_of(s),
{
    law_b64url_alphabet(s);
    let t = b64url_of(s);
    assert forall|i: int| 0 <= i < t.len() implies #[trigger] t[i] != '"' && t[i] != '\\' && (
    t[i] as u32) >= 0x20 by {
        assert(is_url_char(t[i]));
    }
    lemma_nothing_to_escape(t);
}

/// A public key is a JSON object that gives its curve and its two coordinates.
pub proof fn law_jwk(x: Seq<u8>, y: Seq<u8>)
    requires
        encode_utf8(jwk_of(x, y)).len() <= MAX_INPUT,
    ensures
        document(jwk_of(x, y)) == Ok::<ValueModel, Seq<char>>(key_value(x, y)),
{
    lemma_jwk(x, y, 1);
    law_written_values_are_read(key_value(x, y), 1, Seq::empty());
}

/// A public key as a JSON value.
pub open spec fn key_value(x: Seq<u8>, y: Seq<u8>) -> ValueModel {
    ValueModel::Object(
        seq![
            ("crv"@, ValueModel::Str("P-256"@)),
            ("kty"@, ValueModel::Str("EC"@)),
            ("x"@, ValueModel::Str(b64url_of(x))),
            ("y"@, ValueModel::Str(b64url_of(y))),
        ],
    )
}

#[verifier::spinoff_prover]
proof fn lemma_jwk_pieces()
    ensures
        "{\"crv\":\"P-256\",\"kty\":\"EC\",\"x\":\""@ == seq!['{'] + (quoted("crv"@) + seq![':']
            + quoted("P-256"@)) + seq![','] + (quoted("kty"@) + seq![':'] + quoted("EC"@)) + seq![',']
            + (quoted("x"@) + seq![':']) + seq!['"'],
        "\",\"y\":\""@ == seq!['"', ','] + (quoted("y"@) + seq![':']) + seq!['"'],
        "\"}"@ == seq!['"', '}'],
{
    reveal_strlit("crv");
    reveal_strlit("P-256");
    reveal_strlit("kty");
    reveal_strlit("EC");
    reveal_strlit("x");
    reveal_strlit("y");
    reveal_strlit("{\"crv\":\"P-256\",\"kty\":\"EC\",\"x\":\"");
    reveal_strlit("\",\"y\":\"");
    reveal_strlit("\"}");
    lemma_nothing_to_escape("crv"@);
    lemma_nothing_to_escape("P-256"@);
    lemma_nothing_to_escape("kty"@);
    lemma_nothing_to_escape("EC"@);
    lemma_nothing_to_escape("x"@);
    lemma_nothing_to_escape("y"@);
    assert("{\"crv\":\"P-256\",\"kty\":\"EC\",\"x\":\""@ =~= seq!['{'] + (quoted("crv"@)
        + seq![':'] + quoted("P-256"@)) + seq![','] + (quoted("kty"@) + seq![':'] + quoted("EC"@))
        + seq![','] + (quoted("x"@) + seq![':']) + seq!['"']);
    assert("\",\"y\":\""@ =~= seq!['"', ','] + (quoted("y"@) + seq![':']) + seq!['"']);
    assert("\"}"@ =~= seq!['"', '}']);
}

proof fn lemma_regroup_key(
    a: Seq<char>,
    b: Seq<char>,
    kx: Seq<char>,
    x: Seq<char>,
    ky: Seq<char>,
    y: Seq<char>,
)
    ensures
        seq!['{'] + (a + (seq![','] + (b + (seq![','] + (kx + (seq!['"'] + x + seq!['"']) + (seq![
            ',',
        ] + (ky + (seq!['"'] + y + seq!['"'])))))))) + seq!['}'] == (seq!['{'] + a + seq![','] + b
            + seq![','] + kx + seq!['"']) + x + (seq!['"', ','] + ky + seq!['"']) + y + seq![
            '"',
            '}',
        ],
{
    assert(seq!['{'] + (a + (seq![','] + (b + (seq![','] + (kx + (seq!['"'] + x + seq!['"']) + (seq![
        ',',
    ] + (ky + (seq!['"'] + y + seq!['"'])))))))) + seq!['}'] =~= (seq!['{'] + a + seq![','] + b
        + seq![','] + kx + seq!['"']) + x + (seq!['"', ','] + ky + seq!['"']) + y + seq!['"', '}']);
}

proof fn lemma_jwk(x: Seq<u8>, y: Seq<u8>, n: nat)
    requires
        n > 0,
    ensures
        shown(key_value(x, y), n, Seq::empty()) == jwk_of(x, y),
        sound(key_value(x, y), n),
        nested_within(key_value(x, y), n),
{
    let w = Seq::<char>::empty();
    let a = ("crv"@, ValueModel::Str("P-256"@));
    let b = ("kty"@, ValueModel::Str("EC"@));
    let c = ("x"@, ValueModel::Str(b64url_of(x)));
    let d = ("y"@, ValueModel::Str(b64url_of(y)));
    let f = seq![a, b, c, d];
    let m = (n - 1) as nat;
    lemma_jwk_pieces();
    lemma_plain(x);
    lemma_plain(y);
    assert(seq![c, d].skip(1) =~= seq![d]);
    assert(seq![b, c, d].skip(1) =~= seq![c, d]);
    assert(f.skip(1) =~= seq![b, c, d]);
    lemma_members(f, m);
    lemma_members(seq![b, c, d], m);
    lemma_members(seq![c, d], m);
    lemma_members(seq![d], m);
    lemma_shown("P-256"@, seq![], f, m);
    lemma_shown("EC"@, seq![], f, m);
    lemma_shown(b64url_of(x), seq![], f, m);
    lemma_shown(b64url_of(y), seq![], f, m);
    lemma_regroup_key(
        quoted("crv"@) + seq![':'] + quoted("P-256"@),
        quoted("kty"@) + seq![':'] + quoted("EC"@),
        quoted("x"@) + seq![':'],
        b64url_of(x),
        quoted("y"@) + seq![':'],
        b64url_of(y),
    );
    assert(shown(key_value(x, y), n, w) == jwk_of(x, y));
    assert forall|i: int| 0 <= i < f.len() implies sound((#[trigger] f[i]).1, m) && nested_within(
        f[i].1,
        m,
    ) by {
        assert(f[i].1 is Str);
    }
}

/// Who signs: a key where there is no account yet, and the account otherwise.
pub open spec fn signer(x: Seq<u8>, y: Seq<u8>, kid: Option<Seq<char>>) -> (Seq<char>, ValueModel) {
    match kid {
        None => ("jwk"@, key_value(x, y)),
        Some(k) => ("kid"@, ValueModel::Str(k)),
    }
}

proof fn lemma_auth_member(x: Seq<u8>, y: Seq<u8>, kid: Option<Seq<char>>)
    ensures
        shown_members(seq![signer(x, y, kid)], 1, Seq::empty()) == auth_member(jwk_of(x, y), kid),
        sound(signer(x, y, kid).1, 1),
        nested_within(signer(x, y, kid).1, 1),
{
    let f = seq![signer(x, y, kid)];
    lemma_header_pieces();
    lemma_jwk(x, y, 1);
    lemma_members(f, 1);
    if let Some(k) = kid {
        lemma_shown(k, seq![], f, 1);
        let q = quoted("kid"@) + seq![':'];
        assert(q + (seq!['"'] + escaped(k) + seq!['"']) =~= q + seq!['"'] + escaped(k) + seq!['"']);
    }
}

proof fn lemma_regroup_header(
    a: Seq<char>,
    kx: Seq<char>,
    x: Seq<char>,
    ky: Seq<char>,
    y: Seq<char>,
    d: Seq<char>,
)
    ensures
        seq!['{'] + (a + (seq![','] + (kx + (seq!['"'] + x + seq!['"']) + (seq![','] + (ky + (seq![
            '"',
        ] + y + seq!['"']) + (seq![','] + d)))))) + seq!['}'] == (seq!['{'] + a + seq![','] + kx
            + seq!['"']) + x + (seq!['"', ','] + ky + seq!['"']) + y + seq!['"', ','] + d + seq!['}'],
{
    assert(seq!['{'] + (a + (seq![','] + (kx + (seq!['"'] + x + seq!['"']) + (seq![','] + (ky + (seq![
        '"',
    ] + y + seq!['"']) + (seq![','] + d)))))) + seq!['}'] =~= (seq!['{'] + a + seq![','] + kx
        + seq!['"']) + x + (seq!['"', ','] + ky + seq!['"']) + y + seq!['"', ','] + d + seq!['}']);
}

#[verifier::spinoff_prover]
proof fn lemma_header_pieces()
    ensures
        "{\"alg\":\"ES256\",\"nonce\":\""@ == seq!['{'] + (quoted("alg"@) + seq![':'] + quoted(
            "ES256"@,
        )) + seq![','] + (quoted("nonce"@) + seq![':']) + seq!['"'],
        "\",\"url\":\""@ == seq!['"', ','] + (quoted("url"@) + seq![':']) + seq!['"'],
        "\","@ == seq!['"', ','],
        "}"@ == seq!['}'],
        "\""@ == seq!['"'],
        "\"jwk\":"@ == quoted("jwk"@) + seq![':'],
        "\"kid\":\""@ == quoted("kid"@) + seq![':'] + seq!['"'],
{
    reveal_strlit("alg");
    reveal_strlit("ES256");
    reveal_strlit("nonce");
    reveal_strlit("url");
    reveal_strlit("jwk");
    reveal_strlit("kid");
    reveal_strlit("\"jwk\":");
    reveal_strlit("\"kid\":\"");
    reveal_strlit("\"");
    reveal_strlit("{\"alg\":\"ES256\",\"nonce\":\"");
    reveal_strlit("\",\"url\":\"");
    reveal_strlit("\",");
    reveal_strlit("}");
    lemma_nothing_to_escape("alg"@);
    lemma_nothing_to_escape("ES256"@);
    lemma_nothing_to_escape("nonce"@);
    lemma_nothing_to_escape("url"@);
    lemma_nothing_to_escape("jwk"@);
    lemma_nothing_to_escape("kid"@);
    assert("{\"alg\":\"ES256\",\"nonce\":\""@ =~= seq!['{'] + (quoted("alg"@) + seq![':'] + quoted(
        "ES256"@,
    )) + seq![','] + (quoted("nonce"@) + seq![':']) + seq!['"']);
    assert("\",\"url\":\""@ =~= seq!['"', ','] + (quoted("url"@) + seq![':']) + seq!['"']);
    assert("\"jwk\":"@ =~= quoted("jwk"@) + seq![':']);
    assert("\"kid\":\""@ =~= quoted("kid"@) + seq![':'] + seq!['"']);
    assert("\","@ =~= seq!['"', ',']);
    assert("}"@ =~= seq!['}']);
    assert("\""@ =~= seq!['"']);
}

/// The protected header, as a JSON value.
pub open spec fn header_value(
    x: Seq<u8>,
    y: Seq<u8>,
    url: Seq<char>,
    nonce: Seq<char>,
    kid: Option<Seq<char>>,
) -> ValueModel {
    ValueModel::Object(
        seq![
            ("alg"@, ValueModel::Str("ES256"@)),
            ("nonce"@, ValueModel::Str(nonce)),
            ("url"@, ValueModel::Str(url)),
            signer(x, y, kid),
        ],
    )
}

/// The protected header names the algorithm, the nonce, the address and who signs.
pub proof fn law_protected_header(
    x: Seq<u8>,
    y: Seq<u8>,
    url: Seq<char>,
    nonce: Seq<char>,
    kid: Option<Seq<char>>,
)
    requires
        encode_utf8(protected_of(jwk_of(x, y), url, nonce, kid)).len() <= MAX_INPUT,
    ensures
        document(protected_of(jwk_of(x, y), url, nonce, kid)) == Ok::<ValueModel, Seq<char>>(
            header_value(x, y, url, nonce, kid),
        ),
{
    lemma_header(x, y, url, nonce, kid);
    lemma_read(
        header_value(x, y, url, nonce, kid),
        2,
        protected_of(jwk_of(x, y), url, nonce, kid),
    );
}

proof fn lemma_header(
    x: Seq<u8>,
    y: Seq<u8>,
    url: Seq<char>,
    nonce: Seq<char>,
    kid: Option<Seq<char>>,
)
    ensures
        shown(header_value(x, y, url, nonce, kid), 2, Seq::empty()) == protected_of(
            jwk_of(x, y),
            url,
            nonce,
            kid,
        ),
        sound(header_value(x, y, url, nonce, kid), 2),
        nested_within(header_value(x, y, url, nonce, kid), 2),
{
    let a = ("alg"@, ValueModel::Str("ES256"@));
    let b = ("nonce"@, ValueModel::Str(nonce));
    let c = ("url"@, ValueModel::Str(url));
    let d = signer(x, y, kid);
    let f = seq![a, b, c, d];
    lemma_header_pieces();
    lemma_auth_member(x, y, kid);
    assert(seq![c, d].skip(1) =~= seq![d]);
    assert(seq![b, c, d].skip(1) =~= seq![c, d]);
    assert(f.skip(1) =~= seq![b, c, d]);
    lemma_members(f, 1);
    lemma_members(seq![b, c, d], 1);
    lemma_members(seq![c, d], 1);
    lemma_shown("ES256"@, seq![], f, 1);
    lemma_shown(nonce, seq![], f, 1);
    lemma_shown(url, seq![], f, 1);
    lemma_regroup_header(
        quoted("alg"@) + seq![':'] + quoted("ES256"@),
        quoted("nonce"@) + seq![':'],
        escaped(nonce),
        quoted("url"@) + seq![':'],
        escaped(url),
        auth_member(jwk_of(x, y), kid),
    );
    assert forall|i: int| 0 <= i < f.len() implies sound((#[trigger] f[i]).1, 1) && nested_within(
        f[i].1,
        1,
    ) by {
        assert(i < 3 ==> f[i].1 is Str);
    }
}

/// The signed body carries the header, the payload and the signature, each as
/// base64url, under their own names.
pub proof fn law_jws_members(protected: Seq<char>, payload: Seq<char>, sig: Seq<u8>)
    requires
        encode_utf8(jws_of(protected, payload, sig)).len() <= MAX_INPUT,
    ensures
        document(jws_of(protected, payload, sig)) == Ok::<ValueModel, Seq<char>>(
            ValueModel::Object(
                seq![
                    ("protected"@, ValueModel::Str(b64url_of(encode_utf8(protected)))),
                    ("payload"@, ValueModel::Str(b64url_of(encode_utf8(payload)))),
                    ("signature"@, ValueModel::Str(b64url_of(sig))),
                ],
            ),
        ),
        signing_input(protected, payload) == b64url_of(encode_utf8(protected)) + "."@ + b64url_of(
            encode_utf8(payload),
        ),
{
    law_jws_reads_back(protected, payload, sig);
    reveal_strlit(".");
    assert("."@ =~= seq!['.']);
    assert(string_values(jws_members(protected, payload, sig)) =~= seq![
        ("protected"@, ValueModel::Str(b64url_of(encode_utf8(protected)))),
        ("payload"@, ValueModel::Str(b64url_of(encode_utf8(payload)))),
        ("signature"@, ValueModel::Str(b64url_of(sig))),
    ]);
}

/// Whether the first member with this key holds this text.
pub open spec fn says(f: Seq<(Seq<char>, ValueModel)>, key: Seq<char>, text: Seq<char>) -> bool {
    exists|i: int|
        0 <= i < f.len() && #[trigger] f[i] == (key, ValueModel::Str(text)) && forall|j: int|
            0 <= j < i ==> (#[trigger] f[j]).0 != key
}

/// Whether no member has this key.
pub open spec fn lacks(f: Seq<(Seq<char>, ValueModel)>, key: Seq<char>) -> bool {
    forall|i: int| 0 <= i < f.len() ==> (#[trigger] f[i]).0 != key
}

/// The bytes of an object as JSON.
pub open spec fn object_bytes(f: Seq<(Seq<char>, ValueModel)>, n: nat, w: Seq<char>) -> Seq<u8> {
    encode_utf8(shown(ValueModel::Object(f), n, w))
}

/// Whether an object can be written and read within the limits.
pub open spec fn readable(f: Seq<(Seq<char>, ValueModel)>, n: nat, w: Seq<char>) -> bool {
    &&& n <= MAX_DEPTH
    &&& nested_within(ValueModel::Object(f), n)
    &&& sound(ValueModel::Object(f), n)
    &&& white(w)
    &&& object_bytes(f, n, w).len() <= MAX_INPUT
}

proof fn lemma_says(f: Seq<(Seq<char>, ValueModel)>, key: Seq<char>, text: Seq<char>)
    requires
        says(f, key, text),
    ensures
        ValueModel::Object(f).text_at(key) == Some(text),
{
    law_members_by_key(f, key);
    let i = choose|i: int|
        0 <= i < f.len() && #[trigger] f[i] == (key, ValueModel::Str(text)) && forall|j: int|
            0 <= j < i ==> (#[trigger] f[j]).0 != key;
    assert(f[i].0 == key);
    match member(f, key) {
        None => {},
        Some(v) => {
            let k = choose|k: int|
                0 <= k < f.len() && (#[trigger] f[k]) == (key, v) && forall|j: int|
                    0 <= j < k ==> (#[trigger] f[j]).0 != key;
            assert(k == i);
        },
    }
}

proof fn lemma_lacks(f: Seq<(Seq<char>, ValueModel)>, key: Seq<char>)
    requires
        lacks(f, key),
    ensures
        ValueModel::Object(f).text_at(key) is None,
{
    law_members_by_key(f, key);
}

proof fn lemma_body(f: Seq<(Seq<char>, ValueModel)>, n: nat, w: Seq<char>)
    requires
        readable(f, n, w),
    ensures
        crate::acme::client::json_in(object_bytes(f, n, w)) == Ok::<ValueModel, ErrorModel>(
            ValueModel::Object(f),
        ),
{
    let text = shown(ValueModel::Object(f), n, w);
    encode_utf8_valid_utf8(text);
    encode_utf8_decode_utf8(text);
    law_written_values_are_read(ValueModel::Object(f), n, w);
}

/// The directory gives each address under its own name; one that is missing is an
/// error that names it.
pub proof fn law_directory(
    f: Seq<(Seq<char>, ValueModel)>,
    n: nat,
    w: Seq<char>,
    nonce: Seq<char>,
    account: Seq<char>,
    order: Seq<char>,
)
    requires
        readable(f, n, w),
    ensures
        says(f, "newNonce"@, nonce) && says(f, "newAccount"@, account) && says(f, "newOrder"@, order)
            ==> directory_of(object_bytes(f, n, w)) == Ok::<DirectoryModel, ErrorModel>(
            DirectoryModel { new_nonce: nonce, new_account: account, new_order: order },
        ),
        lacks(f, "newNonce"@) ==> directory_of(object_bytes(f, n, w)) == Err::<
            DirectoryModel,
            ErrorModel,
        >(acme_error("directory missing "@ + "newNonce"@)),
        says(f, "newNonce"@, nonce) && lacks(f, "newAccount"@) ==> directory_of(
            object_bytes(f, n, w),
        ) == Err::<DirectoryModel, ErrorModel>(acme_error("directory missing "@ + "newAccount"@)),
        says(f, "newNonce"@, nonce) && says(f, "newAccount"@, account) && lacks(f, "newOrder"@)
            ==> directory_of(object_bytes(f, n, w)) == Err::<DirectoryModel, ErrorModel>(
            acme_error("directory missing "@ + "newOrder"@),
        ),
{
    lemma_body(f, n, w);
    if says(f, "newNonce"@, nonce) {
        lemma_says(f, "newNonce"@, nonce);
    }
    if says(f, "newAccount"@, account) {
        lemma_says(f, "newAccount"@, account);
    }
    if says(f, "newOrder"@, order) {
        lemma_says(f, "newOrder"@, order);
    }
    if lacks(f, "newNonce"@) {
        lemma_lacks(f, "newNonce"@);
    }
    if lacks(f, "newAccount"@) {
        lemma_lacks(f, "newAccount"@);
    }
    if lacks(f, "newOrder"@) {
        lemma_lacks(f, "newOrder"@);
    }
}

/// A problem is reported by its detail, behind what was being done; it is about the
/// nonce just where its type says so.
pub proof fn law_problems(
    f: Seq<(Seq<char>, ValueModel)>,
    n: nat,
    w: Seq<char>,
    ctx: Seq<char>,
    detail: Seq<char>,
    a: Seq<char>,
    b: Seq<char>,
)
    requires
        readable(f, n, w),
    ensures
        says(f, "detail"@, detail) ==> problem(ctx, object_bytes(f, n, w)) == ErrorModel::Acme(
            ctx + ": "@ + detail,
        ),
        says(f, "type"@, a + "badNonce"@ + b) ==> says_bad_nonce(object_bytes(f, n, w)),
        says(f, "type"@, a) && a.len() < "badNonce"@.len() ==> !says_bad_nonce(
            object_bytes(f, n, w),
        ),
        lacks(f, "type"@) ==> !says_bad_nonce(object_bytes(f, n, w)),
{
    lemma_body(f, n, w);
    if says(f, "detail"@, detail) {
        lemma_says(f, "detail"@, detail);
    }
    law_contains(a, "badNonce"@, b);
    if says(f, "type"@, a + "badNonce"@ + b) {
        lemma_says(f, "type"@, a + "badNonce"@ + b);
    }
    if says(f, "type"@, a) {
        lemma_says(f, "type"@, a);
    }
    if lacks(f, "type"@) {
        lemma_lacks(f, "type"@);
    }
}

/// The challenge taken is the first of its type, and of the most preferred type that
/// is offered at all.
pub proof fn law_chosen_challenge(
    challenges: Seq<ValueModel>,
    preferred: Seq<Seq<char>>,
    p: int,
    c: int,
    url: Seq<char>,
    token: Seq<char>,
)
    requires
        0 <= p < preferred.len(),
        0 <= c < challenges.len(),
        forall|q: int, d: int|
            0 <= q < p && 0 <= d < challenges.len() ==> (#[trigger] challenges[d]).text_at("type"@)
                != Some(#[trigger] preferred[q]),
        forall|d: int|
            0 <= d < c ==> (#[trigger] challenges[d]).text_at("type"@) != Some(preferred[p]),
        challenges[c].text_at("type"@) == Some(preferred[p]),
        challenges[c].text_at("url"@) == Some(url),
        challenges[c].text_at("token"@) == Some(token),
    ensures
        selected(challenges, preferred) == Some(ChallengeModel { typ: preferred[p], url, token }),
    decreases p,
{
    if p == 0 {
        lemma_offered(challenges, preferred[0], c);
    } else {
        lemma_not_offered(challenges, preferred[0]);
        let rest = preferred.skip(1);
        assert(rest[p - 1] == preferred[p]);
        assert forall|q: int, d: int| 0 <= q < p - 1 && 0 <= d < challenges.len() implies (
        #[trigger] challenges[d]).text_at("type"@) != Some(#[trigger] rest[q]) by {
            assert(rest[q] == preferred[q + 1]);
        }
        law_chosen_challenge(challenges, rest, p - 1, c, url, token);
    }
}

proof fn lemma_offered(challenges: Seq<ValueModel>, typ: Seq<char>, c: int)
    requires
        0 <= c < challenges.len(),
        forall|d: int| 0 <= d < c ==> (#[trigger] challenges[d]).text_at("type"@) != Some(typ),
        challenges[c].text_at("type"@) == Some(typ),
    ensures
        offered(challenges, typ) == Some(challenges[c]),
    decreases c,
{
    if c > 0 {
        let rest = challenges.skip(1);
        assert(rest[c - 1] == challenges[c]);
        assert forall|d: int| 0 <= d < c - 1 implies (#[trigger] rest[d]).text_at("type"@) != Some(
            typ,
        ) by {
            assert(rest[d] == challenges[d + 1]);
        }
        assert(challenges[0].text_at("type"@) != Some(typ));
        lemma_offered(rest, typ, c - 1);
    }
}

proof fn lemma_not_offered(challenges: Seq<ValueModel>, typ: Seq<char>)
    requires
        forall|d: int|
            0 <= d < challenges.len() ==> (#[trigger] challenges[d]).text_at("type"@) != Some(typ),
    ensures
        offered(challenges, typ) is None,
    decreases challenges.len(),
{
    if challenges.len() > 0 {
        let rest = challenges.skip(1);
        assert(challenges[0].text_at("type"@) != Some(typ));
        assert forall|d: int| 0 <= d < rest.len() implies (#[trigger] rest[d]).text_at("type"@)
            != Some(typ) by {
            assert(rest[d] == challenges[d + 1]);
        }
        lemma_not_offered(rest, typ);
    }
}

/// Where no challenge of a preferred type is offered, none is taken.
pub proof fn law_no_challenge(challenges: Seq<ValueModel>, preferred: Seq<Seq<char>>)
    requires
        forall|q: int, d: int|
            0 <= q < preferred.len() && 0 <= d < challenges.len() ==> (
            #[trigger] challenges[d]).text_at("type"@) != Some(#[trigger] preferred[q]),
    ensures
        selected(challenges, preferred) is None,
    decreases preferred.len(),
{
    if preferred.len() > 0 {
        assert forall|d: int| 0 <= d < challenges.len() implies (
        #[trigger] challenges[d]).text_at("type"@) != Some(preferred[0]) by {}
        lemma_not_offered(challenges, preferred[0]);
        let rest = preferred.skip(1);
        assert forall|q: int, d: int| 0 <= q < rest.len() && 0 <= d < challenges.len() implies (
        #[trigger] challenges[d]).text_at("type"@) != Some(#[trigger] rest[q]) by {
            assert(rest[q] == preferred[q + 1]);
        }
        law_no_challenge(challenges, rest);
    }
}

} // verus!
