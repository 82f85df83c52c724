use robosync::algorithm::{DeltaAlgorithm, Match};
use robosync::compression::{CompressionConfig, CompressionType};
use robosync::errors::SyncError;
use robosync::sync::apply_delta;

#[test]
fn test_apply_delta() {
    let dest_data = b"Hello, World!";
    let matches = vec![
        Match::Block { source_offset: 0, target_offset: 0, length: 5 }, // "Hello"
        Match::Literal { offset: 5, data: b" Rust".to_vec(), is_compressed: false }, // " Rust"
        Match::Block { source_offset: 10, target_offset: 5, length: 8 }, // ", World!"
    ];

    let result = apply_delta(dest_data, &matches).unwrap();
    assert_eq!(result, b"Hello Rust, World!");
}

#[test]
fn test_apply_delta_rejects_out_of_range_block() {
    let dest_data = b"abc";
    let matches = vec![Match::Block { source_offset: 0, target_offset: 1, length: 5 }];
    let r = apply_delta(dest_data, &matches);
    assert_eq!(r.unwrap_err(), SyncError::BlockOutOfRange);
}

#[test]
fn test_apply_delta_rejects_bad_compressed_literal() {
    let dest_data = b"";
    let matches =
        vec![Match::Literal { offset: 0, data: b"garbage".to_vec(), is_compressed: true }];
    let r = robosync::algorithm::apply_delta_bytes(dest_data, &matches, CompressionType::Zstd);
    assert_eq!(r.unwrap_err(), SyncError::DecompressionFailed);
}

fn pattern_data(len: usize) -> Vec<u8> {
    let mut v = Vec::with_capacity(len);
    for i in 0..len {
        v.push((i % 251) as u8);
    }
    v
}

fn literal_bytes(matches: &[Match]) -> usize {
    matches
        .iter()
        .map(|m| match m {
            Match::Literal { data, .. } => data.len(),
            _ => 0,
        })
        .sum()
}

// Delta update of a large file with a small change transfers little:
// one block-aligned literal plus rolling adjustment, and the
// reconstruction matches the source byte for byte.
#[test]
fn test_delta_update_small_change() {
    let block_size = 1024;
    let dest = pattern_data(10_000);
    let mut source = dest.clone();
    for k in 5000..5010 {
        source[k] = source[k].wrapping_add(7);
    }

    let algorithm = DeltaAlgorithm::new(block_size);
    let checksums = algorithm.generate_checksums(&dest);
    let matches = algorithm.find_matches(&source, &dest, &checksums);

    assert!(literal_bytes(&matches) <= 1024 + block_size);
    let rebuilt = apply_delta(&dest, &matches).unwrap();
    assert_eq!(rebuilt, source);
}

// Reconstruction holds for arbitrary inputs, with and without
// literal compression.
#[test]
fn test_delta_reconstruction_roundtrip() {
    let dest = pattern_data(5000);
    let mut source = Vec::new();
    source.extend_from_slice(&dest[2048..4096]);
    source.extend_from_slice(b"fresh bytes in the middle of the file ........ with some padding");
    source.extend_from_slice(&dest[0..1024]);

    let plain = DeltaAlgorithm::new(512);
    let checksums = plain.generate_checksums(&dest);
    let matches = plain.find_matches(&source, &dest, &checksums);
    let rebuilt = apply_delta(&dest, &matches).unwrap();
    assert_eq!(rebuilt, source);
}

// The same, with compressed literals.
#[test]
fn test_delta_reconstruction_roundtrip_compressed() {
    let dest = pattern_data(4096);
    let mut source = vec![42u8; 3000];
    source.extend_from_slice(&dest[1024..2048]);

    let compressing = DeltaAlgorithm::new(512).with_compression(CompressionConfig::balanced());
    let checksums = compressing.generate_checksums(&dest);
    let matches = compressing.find_matches(&source, &dest, &checksums);
    let rebuilt = robosync::algorithm::apply_delta_bytes(&dest, &matches, CompressionType::Zstd)
        .unwrap();
    assert_eq!(rebuilt, source);
    // the long run of equal bytes compresses, so little is transferred raw
    assert!(literal_bytes(&matches) < 3000);
}

// Checksums: one entry per block, 32-byte strong hashes, and the
// documented weak checksum value.
#[test]
fn test_generate_checksums() {
    let algorithm = DeltaAlgorithm::new(4);
    let data = b"hello world";
    let checksums = algorithm.generate_checksums(data);
    assert_eq!(checksums.len(), 3); // 4 + 4 + 3 bytes
    assert_eq!(checksums[0].offset, 0);
    assert_eq!(checksums[1].offset, 4);
    assert_eq!(checksums[2].offset, 8);
    for c in &checksums {
        assert_eq!(c.strong.len(), 32);
    }
    // weak("hell"): byte sum 104+101+108+108 = 421; prefix sums
    // 104, 205, 313, 421 sum to 1043; low half 421, high half 1043
    assert_eq!(checksums[0].weak, 421 + 1043 * 65536);
}

#[test]
fn test_default_block_size() {
    let algorithm = DeltaAlgorithm::default();
    assert_eq!(algorithm.block_size, 1024);
    assert!(algorithm.compression.is_none());
}
