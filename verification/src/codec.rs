//! Compressed data and JSON.

use vstd::prelude::*;

verus! {

/// What a zstd stream holds, if it is one.
pub uninterp spec fn zstd_decoded(stream: Seq<u8>) -> Option<Seq<u8>>;

/// The zstd stream that data is compressed to at a level, if it can be.
pub uninterp spec fn zstd_encoded(data: Seq<u8>, level: i32) -> Option<Seq<u8>>;

/// Calls `zstd::stream::decode_all`. What comes out depends on the stream alone;
/// the text of an error is left open.
#[verifier::external_body]
pub(crate) fn zstd_decode(stream: &Vec<u8>) -> (out: Result<Vec<u8>, String>)
    ensures
        match out {
            Ok(data) => zstd_decoded(stream@) == Some(data@),
            Err(_) => zstd_decoded(stream@) is None,
        },
{
    zstd::stream::decode_all(stream.as_slice()).map_err(|e| e.to_string())
}

/// Calls `zstd::stream::encode_all`. What it hands out is determined by the data
/// and the level, and decoding it gives the data back. The text of an error is
/// left open.
#[verifier::external_body]
pub(crate) fn zstd_encode(data: &Vec<u8>, level: i32) -> (out: Result<Vec<u8>, String>)
    ensures
        match out {
            Ok(stream) => zstd_encoded(data@, level) == Some(stream@) && zstd_decoded(stream@)
                == Some(data@),
            Err(_) => zstd_encoded(data@, level) is None,
        },
{
    zstd::stream::encode_all(data.as_slice(), level).map_err(|e| e.to_string())
}

/// What is wrong with JSON: it cannot be read, or not be written.
pub enum JsonFault {
    Unreadable(String),
    Unwritable(String),
}

/// Whether bytes are JSON that can be read.
pub uninterp spec fn json_readable(raw: Seq<u8>) -> bool;

/// JSON as it is written once it was read: without white space, and with the
/// keys of each object in order; nothing where it cannot be read or written.
pub uninterp spec fn json_rewritten(raw: Seq<u8>) -> Option<Seq<u8>>;

/// Reads JSON with `serde_json::from_slice` into a `serde_json::Value` and writes
/// that with `serde_json::to_vec`. Whether it can be read, what is written, and whether
/// anything is, depends on the bytes alone; nothing is written of what cannot be read.
/// The texts of the errors are left open.
#[verifier::external_body]
pub(crate) fn rewrite_json(raw: &Vec<u8>) -> (out: Result<Vec<u8>, JsonFault>)
    ensures
        match out {
            Ok(json) => json_readable(raw@) && json_rewritten(raw@) == Some(json@),
            Err(JsonFault::Unreadable(_)) => !json_readable(raw@) && json_rewritten(raw@) is None,
            Err(JsonFault::Unwritable(_)) => json_readable(raw@) && json_rewritten(raw@) is None,
        },
{
    let value: serde_json::Value = serde_json::from_slice(raw)
        .map_err(|e| JsonFault::Unreadable(e.to_string()))?;
    serde_json::to_vec(&value).map_err(|e| JsonFault::Unwritable(e.to_string()))
}

} // verus!
