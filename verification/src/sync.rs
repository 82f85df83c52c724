//! Core helpers of the sequential synchronizer: applying a delta
//! stream and mapping source paths into the destination tree.  The
//! file reads and writes around them belong to the caller.

use vstd::prelude::*;
use crate::algorithm::{apply_matches, Match};
use crate::compression::CompressionType;
use crate::errors::SyncError;

verus! {

/// Apply delta matches (uncompressed literals and block references)
/// to reconstruct a file from the destination bytes.
pub fn apply_delta(dest_data: &[u8], matches: &Vec<Match>) -> (r: Result<Vec<u8>, SyncError>)
    ensures
        match r {
            Ok(v) => apply_matches(dest_data@, CompressionType::Off, matches@) == Some(v@),
            Err(e) => apply_matches(dest_data@, CompressionType::Off, matches@) is None && (e
                is DecompressionFailed || e is BlockOutOfRange),
        },
{
    crate::algorithm::apply_delta_bytes(dest_data, matches, CompressionType::Off)
}

/// Map a source path to the corresponding destination path: the path
/// relative to the source root, joined onto the destination root.
pub fn map_source_to_dest(source_file: &str, source_root: &str, dest_root: &str) -> (r: Result<
    String,
    SyncError,
>)
    ensures
        match r {
            Ok(p) => crate::paths::rel_of(source_file@, source_root@) is Some && p@
                == crate::paths::join_of(
                dest_root@,
                crate::paths::rel_of(source_file@, source_root@)->0,
            ),
            Err(e) => crate::paths::rel_of(source_file@, source_root@) is None && e
                is PathNotUnderRoot,
        },
{
    match crate::paths::strip_prefix(source_file, source_root) {
        Some(rel) => Ok(crate::paths::join_path(dest_root, rel.as_str())),
        None => Err(SyncError::PathNotUnderRoot),
    }
}

} // verus!
