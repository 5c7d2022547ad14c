//! Non-consuming TLS ClientHello inspection: extract the SNI host and offered
//! ALPN protocols from buffered handshake bytes, so the server can choose which
//! certificate to present (a cached one, an on-demand ACME issuance, or the
//! `acme-tls/1` challenge cert) *before* committing to a TLS connection.
use crate::bytes::bytes_are;
use crate::error::{Error, ErrorModel, Result};
use crate::text::{opt_text, owned};
use crate::tls::byte_views;
use vstd::prelude::*;
use vstd::utf8::encode_utf8;

verus! {

broadcast use vstd::seq::group_seq_axioms;

/// What is learnt from a ClientHello before the handshake proper.
#[derive(Debug)]
pub struct ClientHelloInfo {
    /// The SNI host name (RFC 6066), if the client sent one.
    pub server_name: Option<String>,
    /// The ALPN protocol IDs the client offered (RFC 7301), in order.
    pub alpn_protocols: Vec<Vec<u8>>,
}

/// The model of what a ClientHello says: the host name and the protocols.
pub type HelloModel = (Option<Seq<char>>, Seq<Seq<u8>>);

impl View for ClientHelloInfo {
    type V = HelloModel;

    open spec fn view(&self) -> HelloModel {
        (opt_text(self.server_name), byte_views(self.alpn_protocols@))
    }
}

/// Whether the `acme-tls/1` protocol is among those offered.
pub open spec fn offers_acme(protocols: Seq<Seq<u8>>) -> bool {
    exists|i: int| 0 <= i < protocols.len() && #[trigger] protocols[i] == encode_utf8("acme-tls/1"@)
}

impl ClientHelloInfo {
    /// Whether the client offered the `acme-tls/1` protocol (TLS-ALPN-01).
    pub fn wants_acme_tls(&self) -> (r: bool)
        ensures
            r == offers_acme(self@.1),
    {
        let mut i: usize = 0;
        while i < self.alpn_protocols.len()
            invariant
                i <= self.alpn_protocols@.len(),
                forall|j: int| 0 <= j < i ==> #[trigger] self@.1[j] != encode_utf8("acme-tls/1"@),
            decreases self.alpn_protocols.len() - i,
        {
            proof {
                assert(self@.1[i as int] == self.alpn_protocols@[i as int]@);
            }
            if bytes_are(self.alpn_protocols[i].as_slice(), "acme-tls/1") {
                return true;
            }
            i += 1;
        }
        false
    }
}

/// What `peek_client_hello` makes of buffered bytes: the host name and the
/// protocols of a complete ClientHello, nothing while more bytes are needed, or
/// what is wrong with them.
pub uninterp spec fn client_hello_in(buf: Seq<u8>) -> core::result::Result<
    Option<(Option<Seq<char>>, Seq<Seq<u8>>)>,
    Seq<char>,
>;

/// The model of a raw inspection result.
pub open spec fn raw_hello(r: core::result::Result<Option<ClientHelloInfo>, String>) -> core::result::Result<
    Option<HelloModel>,
    Seq<char>,
> {
    match r {
        Ok(Some(info)) => Ok(Some(info@)),
        Ok(None) => Ok(None),
        Err(m) => Err(m@),
    }
}

/// `purecrypto::tls::peek_client_hello`: its result is a function of the bytes.
#[verifier::external_body]
pub(crate) fn inspect(buf: &[u8]) -> (r: core::result::Result<Option<ClientHelloInfo>, String>)
    ensures
        raw_hello(r) == client_hello_in(buf@),
{
    match purecrypto::tls::peek_client_hello(buf) {
        Ok(Some(info)) => Ok(
            Some(
                ClientHelloInfo {
                    server_name: info.server_name,
                    alpn_protocols: info.alpn_protocols,
                },
            ),
        ),
        Ok(None) => Ok(None),
        Err(e) => Err(format!("{e:?}")),
    }
}

/// The model of an inspection result.
pub open spec fn hello_result(r: Result<Option<ClientHelloInfo>>) -> core::result::Result<
    Option<HelloModel>,
    ErrorModel,
> {
    match r {
        Ok(Some(info)) => Ok(Some(info@)),
        Ok(None) => Ok(None),
        Err(e) => Err(e@),
    }
}

/// What an inspection reports.
pub open spec fn reported(
    raw: core::result::Result<Option<HelloModel>, Seq<char>>,
) -> core::result::Result<Option<HelloModel>, ErrorModel> {
    match raw {
        Ok(h) => Ok(h),
        Err(m) => Err(ErrorModel::Tls("client hello: "@ + m)),
    }
}

/// Report a raw inspection result.
pub fn report(raw: core::result::Result<Option<ClientHelloInfo>, String>) -> (r: Result<
    Option<ClientHelloInfo>,
>)
    ensures
        hello_result(r) == reported(raw_hello(raw)),
{
    match raw {
        Ok(h) => Ok(h),
        Err(m) => {
            let mut s = owned("client hello: ");
            s.push_str(m.as_str());
            Err(Error::Tls(s))
        },
    }
}

/// Inspect buffered bytes from the start of a TLS connection.
///
/// Returns `Ok(None)` if more bytes are needed, `Ok(Some(info))` once the
/// ClientHello is fully present, or `Err(..)` if the bytes are clearly not a
/// TLS ClientHello (e.g. someone spoke HTTP to the TLS port). Non-consuming.
pub fn peek(buf: &[u8]) -> (r: Result<Option<ClientHelloInfo>>)
    ensures
        hello_result(r) == reported(client_hello_in(buf@)),
{
    report(inspect(buf))
}

} // verus!
