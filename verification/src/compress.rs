//! Optional whole-file compression of the run stream, and the transparent
//! decode path over compressed or raw input.

use vstd::prelude::*;
use crate::codec::{DecodedRun, RunMetadata, CodecError, decode_spec, runs_view, decode_all, scan_metadata};

verus! {

/// What zstd compression makes of a byte stream at a given level: a pure
/// function of its input.
pub uninterp spec fn zstd_frame_of(data: Seq<u8>, level: int) -> Seq<u8>;

/// What zstd decompression makes of a byte stream: the decompressed bytes,
/// or nothing where the input is no valid frame sequence.
pub uninterp spec fn zstd_unframe_of(data: Seq<u8>) -> Option<Seq<u8>>;

#[derive(Debug, Clone, Copy, PartialEq, Eq, Structural)]
pub enum CompressError {
    /// The compressor or decompressor reported a failure.
    Codec,
}

/// Relies on zstd::encode_all: the output is a deterministic function of the
/// input bytes and the level, zstd::decode_all losslessly inverts it, and
/// compressing an in-memory slice succeeds -- out-of-range levels are clamped
/// into bounds by libzstd, never rejected, and no other failure path exists
/// short of allocation failure.
#[verifier::external_body]
fn zstd_compress(data: &Vec<u8>, level: i32) -> (r: Result<Vec<u8>, CompressError>)
    ensures
        r is Ok,
        r->Ok_0@ == zstd_frame_of(data@, level as int),
        zstd_unframe_of(r->Ok_0@) == Some(data@),
{
    match zstd::encode_all(data.as_slice(), level) {
        Ok(v) => Ok(v),
        Err(_) => Err(CompressError::Codec),
    }
}

/// Relies on zstd::decode_all: the result is a deterministic function of the
/// input bytes, and decoding fails exactly where the input is no valid frame
/// sequence.
#[verifier::external_body]
fn zstd_decompress(data: &Vec<u8>) -> (r: Result<Vec<u8>, CompressError>)
    ensures
        match r {
            Ok(v) => zstd_unframe_of(data@) == Some(v@),
            Err(_) => zstd_unframe_of(data@) is None,
        },
{
    match zstd::decode_all(data.as_slice()) {
        Ok(v) => Ok(v),
        Err(_) => Err(CompressError::Codec),
    }
}

/// Compress a finished run stream once, after extraction completes. It
/// always succeeds, and the output decompresses back to exactly the input.
pub fn compress_output(data: &Vec<u8>, level: i32) -> (r: Result<Vec<u8>, CompressError>)
    ensures
        r is Ok,
        r->Ok_0@ == zstd_frame_of(data@, level as int),
        zstd_unframe_of(r->Ok_0@) == Some(data@),
{
    zstd_compress(data, level)
}

/// The logical payload of an input: the bytes themselves where raw, the
/// decompressed bytes where compressed, nothing where decompression fails.
pub open spec fn payload_of(bytes: Seq<u8>, compressed: bool) -> Option<Seq<u8>> {
    if compressed {
        zstd_unframe_of(bytes)
    } else {
        Some(bytes)
    }
}

/// Errors of the transparent read path.
#[derive(Debug, Clone, Copy, PartialEq, Eq, Structural)]
pub enum ReadError {
    /// The compressed input does not decompress.
    Decompress,
    /// The decoded stream ends inside a record.
    Truncated,
}

/// Recover the logical (decompressed) run stream from raw or compressed
/// input bytes.
pub fn decompress_input(bytes: &Vec<u8>, compressed: bool) -> (r: Result<Vec<u8>, CompressError>)
    ensures
        match r {
            Ok(v) => payload_of(bytes@, compressed) == Some(v@),
            Err(_) => compressed && payload_of(bytes@, compressed) is None,
        },
{
    if compressed {
        zstd_decompress(bytes)
    } else {
        let mut copy: Vec<u8> = Vec::new();
        let mut i: usize = 0;
        while i < bytes.len()
            invariant
                i <= bytes@.len(),
                copy@ == bytes@.take(i as int),
            decreases bytes@.len() - i,
        {
            copy.push(bytes[i]);
            proof {
                assert(bytes@.take(i + 1) =~= bytes@.take(i as int).push(bytes@[i as int]));
            }
            i += 1;
        }
        proof {
            assert(copy@ =~= bytes@);
        }
        Ok(copy)
    }
}

/// Decode a whole run file, raw or compressed, into materialized runs.
pub fn read_runs(bytes: &Vec<u8>, compressed: bool) -> (r: Result<Vec<DecodedRun>, ReadError>)
    ensures
        match r {
            Ok(runs) => payload_of(bytes@, compressed) is Some && decode_spec(
                payload_of(bytes@, compressed)->0,
            ) == Some(runs_view(runs@)),
            Err(ReadError::Decompress) => compressed && payload_of(bytes@, compressed) is None,
            Err(ReadError::Truncated) => payload_of(bytes@, compressed) is Some && decode_spec(
                payload_of(bytes@, compressed)->0,
            ) is None,
        },
{
    let payload = match decompress_input(bytes, compressed) {
        Ok(v) => v,
        Err(_) => {
            return Err(ReadError::Decompress);
        },
    };
    match decode_all(&payload) {
        Ok(runs) => Ok(runs),
        Err(CodecError::TruncatedRecord) => Err(ReadError::Truncated),
    }
}

/// Scan a whole run file, raw or compressed, for per-run metadata. The
/// recorded offsets address the decompressed stream and are pinned to the
/// byte position after each record's header, so a raw scan and a compressed
/// scan of the same logical stream record identical metadata.
pub fn read_metadata(bytes: &Vec<u8>, compressed: bool) -> (r: Result<Vec<RunMetadata>, ReadError>)
    ensures
        match r {
            Ok(metas) => payload_of(bytes@, compressed) is Some && decode_spec(
                payload_of(bytes@, compressed)->0,
            ) is Some && crate::codec::metadata_matches(
                payload_of(bytes@, compressed)->0,
                decode_spec(payload_of(bytes@, compressed)->0)->0,
                metas@,
            ),
            Err(ReadError::Decompress) => compressed && payload_of(bytes@, compressed) is None,
            Err(ReadError::Truncated) => payload_of(bytes@, compressed) is Some && decode_spec(
                payload_of(bytes@, compressed)->0,
            ) is None,
        },
{
    let payload = match decompress_input(bytes, compressed) {
        Ok(v) => v,
        Err(_) => {
            return Err(ReadError::Decompress);
        },
    };
    match scan_metadata(&payload) {
        Ok(metas) => Ok(metas),
        Err(CodecError::TruncatedRecord) => Err(ReadError::Truncated),
    }
}

} // verus!
