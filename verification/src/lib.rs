//! Parallel directory-tree synchronizer core.
//!
//! The library holds the logic of the synchronizer: filtering, tree
//! diffing, the block delta-transfer algorithm, literal compression,
//! retry policy and the ordering rules of the execution plan.  All file
//! system work is left to the surrounding application, which hands the
//! library plain values and executes the plans it returns.

pub mod algorithm;
pub mod compression;
pub mod errors;
pub mod file_list;
pub mod linux_fast_copy;
pub mod logging;
pub mod metadata;
pub mod options;
pub mod parallel_sync;
pub mod paths;
pub mod retry;
pub mod sync;
