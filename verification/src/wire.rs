//! The binary encoding of a snapshot, which is `bincode`'s.

use bincode::error::{DecodeError, EncodeError};
use vstd::prelude::*;

verus! {

/// The error of `bincode`'s encoders.
#[verifier::external_type_specification]
#[verifier::external_body]
pub struct ExEncodeError(EncodeError);

/// The error of `bincode`'s decoders.
#[verifier::external_type_specification]
#[verifier::external_body]
pub struct ExDecodeError(DecodeError);

/// A snapshot as it is laid out in a file: the header fields, then for each
/// type identifier its records. A type identifier or an instance identifier
/// may occur more than once.
#[derive(Debug)]
pub struct RawSnapshot {
    pub system_name: String,
    pub execution_time_ms: u64,
    pub timestamp: u64,
    pub component_data: Vec<(String, Vec<(u64, Vec<u8>)>)>,
}

/// The bytes that `bincode`, in its standard configuration, writes for a
/// snapshot, or `None` where it reports an error.
pub uninterp spec fn bincode_encoding(
    system_name: Seq<char>,
    execution_time_ms: u64,
    timestamp: u64,
    component_data: Seq<(Seq<char>, Seq<(u64, Seq<u8>)>)>,
) -> Option<Seq<u8>>;

/// The snapshot that `bincode`, in its standard configuration, reads from
/// the front of `bytes`, or `None` where it reports an error.
pub uninterp spec fn bincode_decoding(bytes: Seq<u8>) -> Option<
    (Seq<char>, u64, u64, Seq<(Seq<char>, Seq<(u64, Seq<u8>)>)>),
>;

/// Calls `bincode::serde::encode_to_vec` with `bincode::config::standard()`
/// on the four fields of `raw`, as a tuple. The contract gives the result a
/// name and claims that it depends on the fields alone; it claims nothing of
/// what the bytes are.
#[verifier::external_body]
pub(crate) fn bincode_encode(raw: &RawSnapshot) -> (encoded: Result<Vec<u8>, EncodeError>)
    ensures
        match encoded {
            Ok(bytes) => bincode_encoding(
                raw.system_name@,
                raw.execution_time_ms,
                raw.timestamp,
                raw.component_data.deep_view(),
            ) == Some(bytes@),
            Err(_) => bincode_encoding(
                raw.system_name@,
                raw.execution_time_ms,
                raw.timestamp,
                raw.component_data.deep_view(),
            ) is None,
        },
{
    bincode::serde::encode_to_vec(
        (&raw.system_name, raw.execution_time_ms, raw.timestamp, &raw.component_data),
        bincode::config::standard(),
    )
}

/// Calls `bincode::serde::borrow_decode_from_slice`, to which
/// `decode_from_slice` hands on, with `bincode::config::standard()` for a
/// tuple of the four fields, and moves them into a `RawSnapshot`. The
/// strings are decoded as borrowed text and copied then, so that a length
/// in the input is held against the input before anything is allocated for
/// it. Bytes behind the snapshot are ignored, as the call ignores them. The
/// contract gives the result a name and claims that it depends on the bytes
/// alone.
#[verifier::external_body]
pub(crate) fn bincode_decode(bytes: &[u8]) -> (decoded: Result<RawSnapshot, DecodeError>)
    ensures
        match decoded {
            Ok(raw) => bincode_decoding(bytes@) == Some(
                (
                    raw.system_name@,
                    raw.execution_time_ms,
                    raw.timestamp,
                    raw.component_data.deep_view(),
                ),
            ),
            Err(_) => bincode_decoding(bytes@) is None,
        },
{
    let decoded: Result<((&str, u64, u64, Vec<(&str, Vec<(u64, Vec<u8>)>)>), usize), _> =
        bincode::serde::borrow_decode_from_slice(bytes, bincode::config::standard());
    match decoded {
        Ok(((system_name, execution_time_ms, timestamp, data), _)) => Ok(
            RawSnapshot {
                system_name: system_name.to_owned(),
                execution_time_ms,
                timestamp,
                component_data: data.into_iter().map(|(id, rs)| (id.to_owned(), rs)).collect(),
            },
        ),
        Err(error) => Err(error),
    }
}

} // verus!
