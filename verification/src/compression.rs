//! Literal-payload compression for the delta transfer.
//!
//! Two backends are recognized, zstd and lz4, plus an identity codec.
//! Compression is memoryless per call; decompression is bounded to
//! resist decompression bombs.

use vstd::prelude::*;
use crate::errors::SyncError;

verus! {

/// Largest decompressed payload accepted by a single call.
pub const DECOMPRESS_BOUND: usize = 16 * 1024 * 1024;

/// Compression algorithms supported.
#[derive(Debug, Clone, Copy, PartialEq, Eq, Structural)]
pub enum CompressionType {
    Off,
    Zstd,
    Lz4,
}

/// Compression algorithm and level settings.
#[derive(Debug, Clone, Copy)]
pub struct CompressionConfig {
    pub algorithm: CompressionType,
    pub level: i32,
}

impl Default for CompressionConfig {
    /// Balanced speed and ratio: zstd at level 3.
    fn default() -> (r: Self)
        ensures
            r.algorithm is Zstd,
            r.level == 3,
    {
        CompressionConfig { algorithm: CompressionType::Zstd, level: 3 }
    }
}

impl CompressionConfig {
    /// Config optimized for speed.
    pub fn fast() -> (r: Self)
        ensures
            r.algorithm is Lz4,
            r.level == 1,
    {
        CompressionConfig { algorithm: CompressionType::Lz4, level: 1 }
    }

    /// Config optimized for compression ratio.
    pub fn best() -> (r: Self)
        ensures
            r.algorithm is Zstd,
            r.level == 19,
    {
        CompressionConfig { algorithm: CompressionType::Zstd, level: 19 }
    }

    /// Config balanced for speed and ratio.
    pub fn balanced() -> (r: Self)
        ensures
            r.algorithm is Zstd,
            r.level == 3,
    {
        CompressionConfig { algorithm: CompressionType::Zstd, level: 3 }
    }
}

/// The bytes that zstd produces for the given input at the given level.
pub uninterp spec fn zstd_compressed(data: Seq<u8>, level: i32) -> Seq<u8>;

/// The bytes that zstd recovers from the given input; `None` when the
/// input is not valid zstd data.
pub uninterp spec fn zstd_decompressed(data: Seq<u8>) -> Option<Seq<u8>>;

/// The bytes that lz4 (size-prepended framing) produces for the given input.
pub uninterp spec fn lz4_compressed(data: Seq<u8>) -> Seq<u8>;

/// The bytes that lz4 recovers from the given size-prepended input;
/// `None` when the input is not valid.
pub uninterp spec fn lz4_decompressed(data: Seq<u8>) -> Option<Seq<u8>>;

/// Relies on `zstd::bulk::compress`: deterministic, lossless
/// compression of the whole buffer at the given level; decompressing
/// its output recovers the input bytes exactly.  The output buffer is
/// sized by the worst-case bound, so at a valid level (1 through 22)
/// the call succeeds.
#[verifier::external_body]
fn zstd_compress(data: &[u8], level: i32) -> (r: Option<Vec<u8>>)
    ensures
        match r {
            Some(v) => v@ == zstd_compressed(data@, level) && zstd_decompressed(v@)
                == Some(data@),
            None => true,
        },
        1 <= level <= 22 ==> r is Some,
{
    match zstd::bulk::compress(data, level) {
        Ok(v) => Some(v),
        Err(_) => None,
    }
}

/// Relies on `zstd::bulk::decompress`: recovers the exact original
/// bytes when the input is valid zstd data whose content fits in
/// `capacity`, and fails otherwise.
#[verifier::external_body]
fn zstd_decompress(data: &[u8], capacity: usize) -> (r: Option<Vec<u8>>)
    ensures
        match r {
            Some(v) => zstd_decompressed(data@) == Some(v@) && v@.len() <= capacity,
            None => zstd_decompressed(data@) is None || zstd_decompressed(data@)->Some_0.len()
                > capacity,
        },
{
    match zstd::bulk::decompress(data, capacity) {
        Ok(v) => Some(v),
        Err(_) => None,
    }
}

/// Relies on `lz4_flex::compress_prepend_size`: deterministic,
/// lossless compression with the decompressed length prepended as a
/// little-endian u32 — which silently wraps for inputs of 4 GiB or
/// more, so such inputs are excluded.
#[verifier::external_body]
fn lz4_compress(data: &[u8]) -> (r: Vec<u8>)
    requires
        data@.len() < 4294967296,
    ensures
        r@ == lz4_compressed(data@),
        lz4_decompressed(r@) == Some(data@),
        r@.len() >= 4,
        lz4_prepended_len(r@) == data@.len(),
{
    lz4_flex::compress_prepend_size(data)
}

/// The length prepended to a size-framed lz4 payload, read
/// little-endian from its first four bytes.
pub open spec fn lz4_prepended_len(data: Seq<u8>) -> int {
    data[0] + 256 * data[1] + 65536 * data[2] + 16777216 * data[3]
}

/// Relies on `lz4_flex::decompress_size_prepended`: recovers the exact
/// original bytes when the input is valid size-prepended lz4 data, and
/// fails otherwise.  The function allocates the prepended length up
/// front, so the caller keeps that length under the decompression
/// bound before calling.
#[verifier::external_body]
fn lz4_decompress(data: &[u8]) -> (r: Option<Vec<u8>>)
    requires
        data@.len() >= 4,
        lz4_prepended_len(data@) <= DECOMPRESS_BOUND,
    ensures
        match r {
            Some(v) => lz4_decompressed(data@) == Some(v@),
            None => lz4_decompressed(data@) is None,
        },
{
    match lz4_flex::decompress_size_prepended(data) {
        Ok(v) => Some(v),
        Err(_) => None,
    }
}

/// The bytes `compress_data` produces for the given input and config.
pub open spec fn spec_compressed(data: Seq<u8>, config: CompressionConfig) -> Seq<u8> {
    match config.algorithm {
        CompressionType::Off => data,
        CompressionType::Zstd => zstd_compressed(data, config.level),
        CompressionType::Lz4 => lz4_compressed(data),
    }
}

/// The bytes `decompress_data` recovers from the given input, `None`
/// when the input is invalid or its content exceeds the bound.
pub open spec fn spec_decompressed(data: Seq<u8>, algorithm: CompressionType) -> Option<
    Seq<u8>,
> {
    match algorithm {
        CompressionType::Off => Some(data),
        CompressionType::Zstd => match zstd_decompressed(data) {
            Some(v) => if v.len() <= DECOMPRESS_BOUND { Some(v) } else { None },
            None => None,
        },
        CompressionType::Lz4 => if data.len() >= 4 && lz4_prepended_len(data)
            <= DECOMPRESS_BOUND {
            lz4_decompressed(data)
        } else {
            None
        },
    }
}

/// Compress data using the configured algorithm.  Success is owed
/// for the identity codec, for zstd at a valid level, and for lz4 on
/// inputs below 4 GiB (whose length the lz4 framing can record).
pub fn compress_data(data: &[u8], config: CompressionConfig) -> (r: Result<Vec<u8>, SyncError>)
    ensures
        match r {
            Ok(v) => {
                &&& v@ == spec_compressed(data@, config)
                &&& data@.len() <= DECOMPRESS_BOUND ==> spec_decompressed(v@, config.algorithm)
                    == Some(data@)
            },
            Err(e) => e is CompressionFailed && (config.algorithm is Zstd || (config.algorithm
                is Lz4 && data@.len() >= 4294967296)),
        },
        (match config.algorithm {
            CompressionType::Off => true,
            CompressionType::Zstd => 1 <= config.level <= 22,
            CompressionType::Lz4 => data@.len() < 4294967296,
        }) ==> r is Ok,
{
    match config.algorithm {
        CompressionType::Off => Ok(vstd::slice::slice_to_vec(data)),
        CompressionType::Zstd => match zstd_compress(data, config.level) {
            Some(v) => Ok(v),
            None => Err(SyncError::CompressionFailed),
        },
        CompressionType::Lz4 => {
            if (data.len() as u64) >= 4294967296 {
                return Err(SyncError::CompressionFailed);
            }
            Ok(lz4_compress(data))
        },
    }
}

/// Decompress data using the given algorithm, rejecting content above
/// the decompression bound.
pub fn decompress_data(data: &[u8], algorithm: CompressionType) -> (r: Result<
    Vec<u8>,
    SyncError,
>)
    ensures
        match r {
            Ok(v) => spec_decompressed(data@, algorithm) == Some(v@),
            Err(e) => e is DecompressionFailed && spec_decompressed(data@, algorithm) is None,
        },
{
    match algorithm {
        CompressionType::Off => Ok(vstd::slice::slice_to_vec(data)),
        CompressionType::Zstd => match zstd_decompress(data, DECOMPRESS_BOUND) {
            Some(v) => Ok(v),
            None => Err(SyncError::DecompressionFailed),
        },
        CompressionType::Lz4 => {
            if data.len() < 4 {
                return Err(SyncError::DecompressionFailed);
            }
            let prepended: u64 = (data[0] as u64) + 256 * (data[1] as u64) + 65536 * (
            data[2] as u64) + 16777216 * (data[3] as u64);
            if prepended > DECOMPRESS_BOUND as u64 {
                return Err(SyncError::DecompressionFailed);
            }
            match lz4_decompress(data) {
                Some(v) => Ok(v),
                None => Err(SyncError::DecompressionFailed),
            }
        },
    }
}

/// What `compress_literal_data` returns: the compressed form exactly
/// when the literal is long enough to be worth compressing, small
/// enough to stay under the decompression bound, and actually shrinks.
pub open spec fn spec_literal_compressed(data: Seq<u8>, config: CompressionConfig) -> Seq<
    u8,
> {
    if 64 <= data.len() && data.len() <= DECOMPRESS_BOUND && spec_compressed(data, config).len()
        < data.len() {
        spec_compressed(data, config)
    } else {
        data
    }
}

/// Compress a delta-transfer literal payload when worthwhile: payloads
/// under 64 bytes, payloads over the decompression bound, and payloads
/// that the backend does not shrink are passed through unchanged.
/// Only a zstd backend failure at an invalid level can make this
/// fail; every other configuration is owed a result.
pub fn compress_literal_data(literal_data: &[u8], config: CompressionConfig) -> (r: Result<
    Vec<u8>,
    SyncError,
>)
    ensures
        match r {
            Ok(v) => {
                &&& v@ == spec_literal_compressed(literal_data@, config)
                &&& v@.len() < literal_data@.len() ==> spec_decompressed(v@, config.algorithm)
                    == Some(literal_data@)
            },
            Err(e) => e is CompressionFailed && config.algorithm is Zstd && literal_data@.len()
                >= 64,
        },
        (match config.algorithm {
            CompressionType::Off => true,
            CompressionType::Lz4 => true,
            CompressionType::Zstd => 1 <= config.level <= 22 || literal_data@.len() < 64
                || literal_data@.len() > DECOMPRESS_BOUND,
        }) ==> r is Ok,
{
    if literal_data.len() < 64 || literal_data.len() > DECOMPRESS_BOUND {
        return Ok(vstd::slice::slice_to_vec(literal_data));
    }
    let compressed = compress_data(literal_data, config)?;
    if compressed.len() < literal_data.len() {
        Ok(compressed)
    } else {
        Ok(vstd::slice::slice_to_vec(literal_data))
    }
}


/// The value of a four-byte little-endian length header.
pub open spec fn le32_value(b: Seq<u8>) -> int
    recommends
        b.len() >= 4,
{
    b[0] + 256 * b[1] + 65536 * b[2] + 16777216 * b[3]
}

/// Frame one chunk of the streaming wire format: a four-byte
/// little-endian length followed by the chunk bytes.  The frame of an
/// empty chunk — four zero bytes — terminates a stream.
pub fn encode_frame(payload: &[u8]) -> (r: Vec<u8>)
    requires
        payload@.len() < 4294967296,
    ensures
        r@.len() == payload@.len() + 4,
        le32_value(r@) == payload@.len(),
        r@.subrange(4, r@.len() as int) == payload@,
{
    let n = payload.len() as u32;
    let mut r: Vec<u8> = Vec::new();
    r.push((n % 256) as u8);
    r.push(((n / 256) % 256) as u8);
    r.push(((n / 65536) % 256) as u8);
    r.push(((n / 16777216) % 256) as u8);
    proof {
        let x = n as int;
        vstd::arithmetic::div_mod::lemma_fundamental_div_mod(x, 256);
        vstd::arithmetic::div_mod::lemma_fundamental_div_mod(x / 256, 256);
        vstd::arithmetic::div_mod::lemma_fundamental_div_mod(x / 65536, 256);
        vstd::arithmetic::div_mod::lemma_div_denominator(x, 256, 256);
        vstd::arithmetic::div_mod::lemma_div_denominator(x, 65536, 256);
        vstd::arithmetic::div_mod::lemma_small_mod((x / 16777216) as nat, 256);
        assert(le32_value(r@) == x);
    }
    let ghost header = r@;
    let mut k: usize = 0;
    while k < payload.len()
        invariant
            header.len() == 4,
            r@ == header + payload@.take(k as int),
            k <= payload@.len(),
        decreases payload@.len() - k,
    {
        r.push(payload[k]);
        proof {
            assert(r@ =~= header + payload@.take(k + 1));
        }
        k += 1;
    }
    proof {
        assert(payload@.take(payload@.len() as int) =~= payload@);
        assert(r@.subrange(4, r@.len() as int) =~= payload@);
        assert(r@[0] == header[0] && r@[1] == header[1] && r@[2] == header[2] && r@[3]
            == header[3]);
    }
    r
}

/// Read the length of the next frame from its header; `None` when
/// fewer than four bytes remain.
pub fn read_frame_len(header: &[u8]) -> (r: Option<u32>)
    ensures
        match r {
            Some(n) => header@.len() >= 4 && (n as int) == le32_value(header@),
            None => header@.len() < 4,
        },
{
    if header.len() < 4 {
        return None;
    }
    let n = (header[0] as u32) + 256 * (header[1] as u32) + 65536 * (header[2] as u32)
        + 16777216 * (header[3] as u32);
    Some(n)
}

/// Streaming compressor configuration for large files; the byte
/// streaming itself is I/O and lives with the caller.
pub struct StreamingCompressor {
    pub config: CompressionConfig,
}

impl StreamingCompressor {
    pub fn new(config: CompressionConfig) -> (r: Self)
        ensures
            r.config == config,
    {
        StreamingCompressor { config }
    }
}

/// Streaming decompressor configuration for large files.
pub struct StreamingDecompressor {
    pub algorithm: CompressionType,
}

impl StreamingDecompressor {
    pub fn new(algorithm: CompressionType) -> (r: Self)
        ensures
            r.algorithm == algorithm,
    {
        StreamingDecompressor { algorithm }
    }
}

} // verus!
