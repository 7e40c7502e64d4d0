//! Structured messages as stored bytes.
//!
//! The layer never looks inside a message. Reading hands the stored bytes
//! to a parser that the caller supplies; writing takes the bytes that the
//! caller's serialiser produced. Only the failure of either is mapped here.

use vstd::prelude::*;
use protobuf::ProtobufError;
use crate::error::Error;

verus! {

/// The failure type of the message codec. Nothing is known of its inside.
#[verifier::external_type_specification]
#[verifier::external_body]
pub struct ExProtobufError(ProtobufError);

/// `ProtobufError`'s `Display`, through `to_string`: the codec's own words
/// for a failure. Nothing is claimed of the text.
#[verifier::external_body]
pub(crate) fn failure_text(e: &ProtobufError) -> (text: String) {
    e.to_string()
}

/// The layer's error for a failure of the message codec: the failure itself.
pub fn codec_error(e: ProtobufError) -> (r: Error)
    ensures
        r == Error::Codec(e),
{
    Error::Codec(e)
}

/// Whether `parse`, shown the stored bytes `held`, may answer `out`.
pub open spec fn parsed_as<M, P: FnOnce(&[u8]) -> Result<M, ProtobufError>>(
    parse: P,
    held: Seq<u8>,
    out: Result<M, ProtobufError>,
) -> bool {
    exists|bytes: &[u8]| bytes@ == held && #[trigger] call_ensures(parse, (bytes,), out)
}

/// How the typed result `r` relates to what was found under a key: absence
/// stays absence; bytes that are present are parsed, a message is the
/// parser's, and an error is the failure with which the parser refused
/// them.
pub open spec fn decoded_msg<M, P: FnOnce(&[u8]) -> Result<M, ProtobufError>>(
    parse: P,
    held: Option<Seq<u8>>,
    r: Result<Option<M>, Error>,
) -> bool {
    match held {
        None => r == Ok::<Option<M>, Error>(None),
        Some(bytes) => match r {
            Ok(Some(m)) => parsed_as(parse, bytes, Ok(m)),
            Ok(None) => false,
            Err(e) => e matches Error::Codec(failure) && parsed_as(
                parse,
                bytes,
                Err::<M, ProtobufError>(failure),
            ),
        },
    }
}

/// Turns the outcome of a raw lookup into a message: an absent value stays
/// absent, a present one is parsed, and a parse failure is an error rather
/// than absence.
pub fn msg_from_value<M, P>(value: Option<Vec<u8>>, parse: P) -> (r: Result<Option<M>, Error>) where
    P: FnOnce(&[u8]) -> Result<M, ProtobufError>,

    requires
        forall|bytes: &[u8]| call_requires(parse, (bytes,)),
    ensures
        decoded_msg(parse, crate::store::value_view(value), r),
{
    match value {
        None => Ok(None),
        Some(bytes) => {
            let shown = bytes.as_slice();
            match parse(shown) {
                Ok(m) => {
                    assert(parsed_as(parse, bytes@, Ok::<M, ProtobufError>(m)));
                    Ok(Some(m))
                },
                Err(e) => {
                    assert(parsed_as(parse, bytes@, Err::<M, ProtobufError>(e)));
                    Err(codec_error(e))
                },
            }
        },
    }
}

/// Turns the outcome of serialising a message into the bytes to store, or
/// into the error that hands the serialiser's failure on.
pub fn bytes_from_encoded(encoded: Result<Vec<u8>, ProtobufError>) -> (r: Result<Vec<u8>, Error>)
    ensures
        match encoded {
            Ok(bytes) => r == Ok::<Vec<u8>, Error>(bytes),
            Err(failure) => r == Err::<Vec<u8>, Error>(Error::Codec(failure)),
        },
{
    match encoded {
        Ok(bytes) => Ok(bytes),
        Err(e) => Err(codec_error(e)),
    }
}

} // verus!
