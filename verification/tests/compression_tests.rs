use robosync::compression::{
    compress_data, compress_literal_data, decompress_data, CompressionConfig, CompressionType,
    StreamingCompressor, StreamingDecompressor,
};
use robosync::errors::SyncError;

#[test]
fn test_zstd_compression() {
    let data = b"Hello, world! This is a test string for compression.".repeat(100);
    let config = CompressionConfig::default();

    let compressed = compress_data(&data, config).unwrap();
    let decompressed = decompress_data(&compressed, CompressionType::Zstd).unwrap();

    assert_eq!(data, decompressed);
    assert!(compressed.len() < data.len());
}

#[test]
fn test_lz4_compression() {
    let data = b"Hello, world! This is a test string for compression.".repeat(100);
    let config = CompressionConfig::fast();

    let compressed = compress_data(&data, config).unwrap();
    let decompressed = decompress_data(&compressed, CompressionType::Lz4).unwrap();

    assert_eq!(data, decompressed);
}

#[test]
fn test_small_data_not_compressed() {
    let small_data = b"small";
    let config = CompressionConfig::default();

    let result = compress_literal_data(small_data, config).unwrap();
    assert_eq!(result, small_data);
}

#[test]
fn test_incompressible_literal_passed_through() {
    // 64+ bytes with no redundancy at all: compression cannot shrink it,
    // so the literal must come back unchanged
    let mut data = Vec::new();
    let mut x: u32 = 123456789;
    for _ in 0..256 {
        x = x.wrapping_mul(1103515245).wrapping_add(12345);
        data.push((x >> 16) as u8);
    }
    let config = CompressionConfig::default();
    let result = compress_literal_data(&data, config).unwrap();
    assert!(result == data || result.len() < data.len());
}

#[test]
fn test_decompress_rejects_garbage() {
    let garbage = b"this is not a zstd stream at all";
    let r = decompress_data(garbage, CompressionType::Zstd);
    assert_eq!(r.unwrap_err(), SyncError::DecompressionFailed);

    let r = decompress_data(b"\xff\xff\xff\xff", CompressionType::Lz4);
    assert!(r.is_err());
}

#[test]
fn test_compression_type_off_is_identity() {
    let data = b"plain bytes".to_vec();
    let config = CompressionConfig { algorithm: CompressionType::Off, level: 0 };
    let compressed = compress_data(&data, config).unwrap();
    assert_eq!(compressed, data);
    let decompressed = decompress_data(&compressed, CompressionType::Off).unwrap();
    assert_eq!(decompressed, data);
}

// The streaming wire format: a four-byte little-endian length, then
// the chunk; the empty chunk's frame is the terminator.
#[test]
fn test_frame_roundtrip() {
    let frame = robosync::compression::encode_frame(b"abc");
    assert_eq!(frame, vec![3u8, 0, 0, 0, b'a', b'b', b'c']);
    assert_eq!(robosync::compression::read_frame_len(&frame), Some(3));
    assert_eq!(robosync::compression::encode_frame(&[]), vec![0u8, 0, 0, 0]);
    assert_eq!(robosync::compression::read_frame_len(&[1, 2]), None);
    let big = robosync::compression::encode_frame(&vec![7u8; 300]);
    assert_eq!(robosync::compression::read_frame_len(&big), Some(300));
}

#[test]
fn test_streaming_wrappers_hold_config() {
    let c = StreamingCompressor::new(CompressionConfig::best());
    assert_eq!(c.config.level, 19);
    let d = StreamingDecompressor::new(CompressionType::Lz4);
    assert!(matches!(d.algorithm, CompressionType::Lz4));
}
