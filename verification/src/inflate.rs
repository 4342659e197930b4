//! Decompression of document streams, which are zlib or raw deflate.
use vstd::prelude::*;

verus! {

/// What `miniz_oxide::inflate::decompress_to_vec_zlib_with_limit` makes of `data`: the bytes
/// of the zlib stream at its start, or the text of the error.
pub uninterp spec fn zlib_inflated(data: Seq<u8>, limit: nat) -> Result<Seq<u8>, Seq<char>>;

/// What `miniz_oxide::inflate::decompress_to_vec_with_limit` makes of `data`: the bytes of
/// the deflate stream at its start, or the text of the error.
pub uninterp spec fn deflate_inflated(data: Seq<u8>, limit: nat) -> Result<Seq<u8>, Seq<char>>;

/// What the result of a decompression says.
pub open spec fn inflate_outcome(r: Result<Vec<u8>, String>) -> Result<Seq<u8>, Seq<char>> {
    match r {
        Ok(bytes) => Ok(bytes@),
        Err(e) => Err(e@),
    }
}

/// Calls `miniz_oxide::inflate::decompress_to_vec_zlib_with_limit`. The result depends on
/// `data` and `limit` alone, and is never longer than `limit` bytes. What the bytes are is
/// left to the zlib and deflate formats. `limit` stays within what a vector can hold,
/// because the call makes room for up to `limit` bytes.
#[verifier::external_body]
fn inflate_zlib(data: &[u8], limit: usize) -> (r: Result<Vec<u8>, String>)
    requires
        limit <= isize::MAX,
    ensures
        inflate_outcome(r) == zlib_inflated(data@, limit as nat),
        r matches Ok(bytes) ==> bytes@.len() <= limit,
{
    miniz_oxide::inflate::decompress_to_vec_zlib_with_limit(data, limit).map_err(|e| e.to_string())
}

/// Calls `miniz_oxide::inflate::decompress_to_vec_with_limit`. The result depends on `data`
/// and `limit` alone, and is never longer than `limit` bytes. What the bytes are is left to
/// the deflate format. `limit` stays within what a vector can hold, because the call makes
/// room for up to `limit` bytes.
#[verifier::external_body]
fn inflate_deflate(data: &[u8], limit: usize) -> (r: Result<Vec<u8>, String>)
    requires
        limit <= isize::MAX,
    ensures
        inflate_outcome(r) == deflate_inflated(data@, limit as nat),
        r matches Ok(bytes) ==> bytes@.len() <= limit,
{
    miniz_oxide::inflate::decompress_to_vec_with_limit(data, limit).map_err(|e| e.to_string())
}

/// The stream in `data`, read as zlib or else as raw deflate. The limit is the most that a
/// vector can hold.
pub open spec fn inflated(data: Seq<u8>) -> Result<Seq<u8>, Seq<char>> {
    match zlib_inflated(data, isize::MAX as nat) {
        Ok(bytes) => Ok(bytes),
        Err(_) => deflate_inflated(data, isize::MAX as nat),
    }
}

/// What reads as zlib is taken as zlib, whatever it would be as raw deflate; of everything
/// else the result is that of raw deflate, its error too.
pub proof fn law_inflated_prefers_zlib(data: Seq<u8>)
    ensures
        zlib_inflated(data, isize::MAX as nat) is Ok ==> inflated(data) is Ok && inflated(data)->Ok_0
            == zlib_inflated(data, isize::MAX as nat)->Ok_0,
        zlib_inflated(data, isize::MAX as nat) is Err ==> inflated(data) == deflate_inflated(
            data,
            isize::MAX as nat,
        ),
{
}

/// Decompresses a zlib stream, or else a raw deflate stream. Where both fail the error is
/// that of the second.
pub fn decompress_stream(data: &[u8]) -> (r: Result<Vec<u8>, String>)
    ensures
        inflate_outcome(r) == inflated(data@),
        match zlib_inflated(data@, isize::MAX as nat) {
            Ok(bytes) => r is Ok && r->Ok_0@ == bytes,
            Err(_) => match deflate_inflated(data@, isize::MAX as nat) {
                Ok(bytes) => r is Ok && r->Ok_0@ == bytes,
                Err(e) => r is Err && r->Err_0@ == e,
            },
        },
{
    let limit: usize = isize::MAX as usize;
    match inflate_zlib(data, limit) {
        Ok(bytes) => Ok(bytes),
        Err(_) => inflate_deflate(data, limit),
    }
}

} // verus!
