//! QPACK field compression without a dynamic table, as HTTP/3 uses it here:
//! both coders are advertised a zero-capacity table, so every section stands
//! for itself.
use crate::proto::fields::raw_model;
use compcol::hpack::HeaderField;
use compcol::qpack::{QpackDecoder, QpackEncoder};
use vstd::prelude::*;

verus! {

/// What a decoder without dynamic entries makes of a field section.
pub uninterp spec fn qpack_decoding(block: Seq<u8>) -> Option<Seq<(Seq<u8>, Seq<u8>)>>;

/// The self-contained field section of a list of fields.
pub uninterp spec fn qpack_encoding(fields: Seq<(Seq<u8>, Seq<u8>)>) -> Seq<u8>;

/// `QpackDecoder::decode_field_section` on a decoder fresh from
/// `QpackDecoder::new`: the fields of the section, or nothing where it is
/// malformed, too large, or refers to dynamic entries.
#[allow(deprecated)]
#[verifier::external_body]
pub(crate) fn decode_section(block: &[u8]) -> (r: Option<Vec<(Vec<u8>, Vec<u8>)>>)
    ensures
        match r {
            Some(f) => qpack_decoding(block@) == Some(raw_model(f@)),
            None => qpack_decoding(block@) is None,
        },
{
    match QpackDecoder::new().decode_field_section(block) {
        Ok(fields) => Some(fields.into_iter().map(|f| (f.name, f.value)).collect()),
        Err(_) => None,
    }
}

/// `QpackEncoder::encode_field_section` on an encoder fresh from
/// `QpackEncoder::new`, for (non-sensitive) fields.
#[verifier::external_body]
pub(crate) fn encode_section(fields: &Vec<(Vec<u8>, Vec<u8>)>) -> (r: Vec<u8>)
    ensures
        r@ == qpack_encoding(raw_model(fields@)),
{
    let list: Vec<HeaderField> = fields.iter().map(|f| HeaderField::new(&f.0, &f.1)).collect();
    QpackEncoder::new().encode_field_section(&list)
}

} // verus!
