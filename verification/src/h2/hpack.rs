//! HPACK header compression, as far as the connection engine needs it: one
//! decoder and one encoder per connection, both stateful across header blocks.
//!
//! What the coders do with their dynamic tables is not spelled out. It is a
//! function of how a coder was made and of everything it has coded so far, and
//! that function is only named.
use crate::proto::fields::raw_model;
use compcol::hpack::{HeaderField, HpackDecoder, HpackEncoder};
use vstd::prelude::*;

verus! {

/// The HPACK decoder of `compcol`.
#[verifier::external_type_specification]
#[verifier::external_body]
pub struct ExHpackDecoder(compcol::hpack::HpackDecoder);

/// The HPACK encoder of `compcol`.
#[verifier::external_type_specification]
#[verifier::external_body]
pub struct ExHpackEncoder(compcol::hpack::HpackEncoder);

/// The header blocks that a decoder has been given, in order.
pub uninterp spec fn hpack_decoder_blocks(d: HpackDecoder) -> Seq<Seq<u8>>;

/// The table size and the header list size that a decoder was made for.
pub uninterp spec fn hpack_decoder_limits(d: HpackDecoder) -> (nat, nat);

/// What a decoder with the given limits makes of `block` after `blocks`.
pub uninterp spec fn hpack_decoding(
    limits: (nat, nat),
    blocks: Seq<Seq<u8>>,
    block: Seq<u8>,
) -> Option<Seq<(Seq<u8>, Seq<u8>)>>;

/// The field lists that an encoder has been given, in order.
pub uninterp spec fn hpack_encoder_lists(e: HpackEncoder) -> Seq<Seq<(Seq<u8>, Seq<u8>)>>;

/// The table size that an encoder was bounded to, if it was.
pub uninterp spec fn hpack_encoder_size(e: HpackEncoder) -> Option<nat>;

/// The header block that an encoder of the given size makes of `fields` after
/// `lists`.
pub uninterp spec fn hpack_encoding(
    size: Option<nat>,
    lists: Seq<Seq<(Seq<u8>, Seq<u8>)>>,
    fields: Seq<(Seq<u8>, Seq<u8>)>,
) -> Seq<u8>;

/// `HpackDecoder::new`: the default table of 4096 bytes and header lists of at
/// most 65536 bytes, with nothing decoded yet.
#[allow(deprecated)]
#[verifier::external_body]
pub(crate) fn new_decoder() -> (r: HpackDecoder)
    ensures
        hpack_decoder_blocks(r) == Seq::<Seq<u8>>::empty(),
        hpack_decoder_limits(r) == (4096nat, 65536nat),
{
    HpackDecoder::new()
}

/// `HpackDecoder::decode`: the fields of one more block (names and values), or
/// nothing where the block is malformed or too large. The block counts as seen
/// either way, and the limits stay.
#[verifier::external_body]
pub(crate) fn decode_block(d: &mut HpackDecoder, block: &[u8]) -> (r: Option<
    Vec<(Vec<u8>, Vec<u8>)>,
>)
    ensures
        hpack_decoder_blocks(*final(d)) == hpack_decoder_blocks(*old(d)).push(block@),
        hpack_decoder_limits(*final(d)) == hpack_decoder_limits(*old(d)),
        match r {
            Some(f) => hpack_decoding(
                hpack_decoder_limits(*old(d)),
                hpack_decoder_blocks(*old(d)),
                block@,
            ) == Some(raw_model(f@)),
            None => hpack_decoding(
                hpack_decoder_limits(*old(d)),
                hpack_decoder_blocks(*old(d)),
                block@,
            ) is None,
        },
{
    match d.decode(block) {
        Ok(fields) => Some(fields.into_iter().map(|f| (f.name, f.value)).collect()),
        Err(_) => None,
    }
}

/// `HpackEncoder::new`: the default table, with nothing encoded yet.
#[verifier::external_body]
pub(crate) fn new_encoder() -> (r: HpackEncoder)
    ensures
        hpack_encoder_lists(r) == Seq::<Seq<(Seq<u8>, Seq<u8>)>>::empty(),
        hpack_encoder_size(r) is None,
{
    HpackEncoder::new()
}

/// `HpackEncoder::with_max_table_size`: a table bounded to `max` bytes, with
/// nothing encoded yet.
#[verifier::external_body]
pub(crate) fn sized_encoder(max: usize) -> (r: HpackEncoder)
    ensures
        hpack_encoder_lists(r) == Seq::<Seq<(Seq<u8>, Seq<u8>)>>::empty(),
        hpack_encoder_size(r) == Some(max as nat),
{
    HpackEncoder::with_max_table_size(max)
}

/// `HpackEncoder::encode`: the block for one more list of (non-sensitive)
/// fields.
#[verifier::external_body]
pub(crate) fn encode_fields(e: &mut HpackEncoder, fields: &Vec<(Vec<u8>, Vec<u8>)>) -> (r: Vec<u8>)
    ensures
        hpack_encoder_lists(*final(e)) == hpack_encoder_lists(*old(e)).push(raw_model(fields@)),
        hpack_encoder_size(*final(e)) == hpack_encoder_size(*old(e)),
        r@ == hpack_encoding(
            hpack_encoder_size(*old(e)),
            hpack_encoder_lists(*old(e)),
            raw_model(fields@),
        ),
{
    let list: Vec<HeaderField> = fields.iter().map(|f| HeaderField::new(&f.0, &f.1)).collect();
    e.encode(&list)
}

} // verus!
