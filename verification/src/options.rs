//! Synchronization options shared by the scanner, differ and executor.

use vstd::prelude::*;

verus! {

/// Options controlling a synchronization run.
///
/// `copy_flags` holds the metadata-selection letters (`D`, `A`, `T`,
/// `S`, `O`, `U`); `exclude_files` and `exclude_dirs` hold glob
/// patterns; `min_size` and `max_size` bound the sizes of regular
/// files taken into account.
#[derive(Debug, Clone)]
pub struct SyncOptions {
    pub recursive: bool,
    pub purge: bool,
    pub mirror: bool,
    pub dry_run: bool,
    pub verbose: u8,
    pub confirm: bool,
    pub no_progress: bool,
    pub move_files: bool,
    pub exclude_files: Vec<String>,
    pub exclude_dirs: Vec<String>,
    pub min_size: Option<u64>,
    pub max_size: Option<u64>,
    pub copy_flags: String,
    pub log_file: Option<String>,
    pub compress: bool,
    pub compression_config: crate::compression::CompressionConfig,
    pub show_eta: bool,
    pub retry_count: u32,
    pub retry_wait: u32,
    pub checksum: bool,
}

impl Default for SyncOptions {
    /// A quiet, non-destructive run: no purge, no move, no filters,
    /// `DAT` metadata, no compression, no retries.
    fn default() -> (r: Self)
        ensures
            !r.recursive && !r.purge && !r.mirror && !r.dry_run,
            r.verbose == 0 && !r.confirm && !r.no_progress && !r.move_files,
            r.exclude_files@ =~= Seq::<String>::empty(),
            r.exclude_dirs@ =~= Seq::<String>::empty(),
            r.min_size is None && r.max_size is None,
            r.copy_flags@ == "DAT"@,
            r.log_file is None,
            !r.compress,
            !r.show_eta,
            r.retry_count == 0 && r.retry_wait == 30,
            !r.checksum,
            r.compression_config.algorithm is Zstd,
            r.compression_config.level == 3,
    {
        SyncOptions {
            recursive: false,
            purge: false,
            mirror: false,
            dry_run: false,
            verbose: 0,
            confirm: false,
            no_progress: false,
            move_files: false,
            exclude_files: Vec::new(),
            exclude_dirs: Vec::new(),
            min_size: None,
            max_size: None,
            copy_flags: String::from_str("DAT"),
            log_file: None,
            compress: false,
            compression_config: crate::compression::CompressionConfig::balanced(),
            show_eta: false,
            retry_count: 0,
            retry_wait: 30,
            checksum: false,
        }
    }
}

} // verus!
