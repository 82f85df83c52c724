//! Plan building and executor bookkeeping for the parallel
//! synchronizer.
//!
//! The caller scans the two trees and hands the entry lists here; the
//! functions of this module build the ordered plan (diff plus purge),
//! split it into the executor's phases, and compile each operation
//! into the primitive filesystem actions the caller performs.  The
//! thread pool, the file I/O and the progress display stay with the
//! caller.

use vstd::prelude::*;
use vstd::multiset::Multiset;
use crate::algorithm::{apply_matches, Match};
use crate::compression::CompressionType;
use crate::errors::SyncError;
use crate::file_list::{
    create_dir_pred, delete_of, delete_pred, find_entry, is_create_dir, is_delete, middle_pred,
    op_path, plan_phase_ordered, sorted_by_depth_desc, sorted_by_path, source_has_rel,
    source_ops_roots, FileInfo, FileOperation,
};
use crate::metadata::CopyFlags;
use crate::options::SyncOptions;

verus! {

/// Configuration for multithreaded synchronization: worker and I/O
/// thread counts, the delta block size, and the bound on files
/// processed in parallel.  Hardware-sized pools are chosen by the
/// caller; the defaults here are fixed, conservative values.
#[derive(Debug, Clone)]
pub struct ParallelSyncConfig {
    pub worker_threads: usize,
    pub io_threads: usize,
    pub block_size: usize,
    pub max_parallel_files: usize,
}

impl Default for ParallelSyncConfig {
    fn default() -> (r: Self)
        ensures
            r.worker_threads == 4,
            r.io_threads == 4,
            r.block_size == 1024,
            r.max_parallel_files == 8,
    {
        ParallelSyncConfig { worker_threads: 4, io_threads: 4, block_size: 1024, max_parallel_files: 8 }
    }
}

/// The worker-thread ceiling derived from the file-descriptor soft
/// limit: a quarter of the limit, kept between 64 and 512; 256 when
/// the limit is unknown.
pub open spec fn spec_max_thread_count(fd_soft_limit: Option<u64>) -> int {
    match fd_soft_limit {
        Some(l) => if l / 4 < 64 {
            64
        } else if l / 4 > 512 {
            512
        } else {
            (l / 4) as int
        },
        None => 256,
    }
}

/// The maximum safe worker-thread count for a given file-descriptor
/// soft limit.
pub fn max_thread_count(fd_soft_limit: Option<u64>) -> (r: usize)
    ensures
        r == spec_max_thread_count(fd_soft_limit),
{
    match fd_soft_limit {
        Some(l) => {
            let quarter = l / 4;
            if quarter < 64 {
                64
            } else if quarter > 512 {
                512
            } else {
                quarter as usize
            }
        },
        None => 256,
    }
}

/// The warning text is already recorded.
pub open spec fn spec_has_warning(ws: Seq<String>, w: Seq<char>) -> bool {
    exists|i: int| 0 <= i < ws.len() && (#[trigger] ws[i])@ == w
}

/// Counters and warnings collected over a run.
#[derive(Debug)]
pub struct SyncStats {
    pub files_processed: u64,
    pub bytes_transferred: u64,
    pub blocks_matched: u64,
    pub warnings: Vec<String>,
}

impl Default for SyncStats {
    fn default() -> (r: Self)
        ensures
            r.files_processed == 0,
            r.bytes_transferred == 0,
            r.blocks_matched == 0,
            r.warnings@ =~= Seq::<String>::empty(),
    {
        SyncStats { files_processed: 0, bytes_transferred: 0, blocks_matched: 0, warnings: Vec::new() }
    }
}

impl SyncStats {
    pub fn new() -> (r: Self)
        ensures
            r.files_processed == 0,
            r.bytes_transferred == 0,
            r.blocks_matched == 0,
            r.warnings@ =~= Seq::<String>::empty(),
    {
        SyncStats { files_processed: 0, bytes_transferred: 0, blocks_matched: 0, warnings: Vec::new() }
    }

    /// Record a warning; a message already recorded is not stored
    /// again.
    pub fn add_warning(&mut self, warning: String)
        ensures
            final(self).warnings@ == if spec_has_warning(old(self).warnings@, warning@) {
                old(self).warnings@
            } else {
                old(self).warnings@.push(warning)
            },
            final(self).files_processed == old(self).files_processed,
            final(self).bytes_transferred == old(self).bytes_transferred,
            final(self).blocks_matched == old(self).blocks_matched,
    {
        let mut i: usize = 0;
        while i < self.warnings.len()
            invariant
                i <= self.warnings@.len(),
                self == old(self),
                forall|j: int| 0 <= j < i ==> (#[trigger] self.warnings@[j])@ != warning@,
            decreases self.warnings@.len() - i,
        {
            if crate::paths::str_eq(self.warnings[i].as_str(), warning.as_str()) {
                proof {
                    assert(spec_has_warning(self.warnings@, warning@));
                }
                return ;
            }
            i += 1;
        }
        self.warnings.push(warning);
    }

    /// Add to the transferred-bytes counter, saturating at the
    /// counter's maximum.
    pub fn add_bytes_transferred(&mut self, bytes: u64)
        ensures
            final(self).bytes_transferred == if old(self).bytes_transferred + bytes <= u64::MAX {
                old(self).bytes_transferred + bytes
            } else {
                u64::MAX as int
            },
            final(self).warnings@ == old(self).warnings@,
            final(self).files_processed == old(self).files_processed,
            final(self).blocks_matched == old(self).blocks_matched,
    {
        self.bytes_transferred = match self.bytes_transferred.checked_add(bytes) {
            Some(v) => v,
            None => u64::MAX,
        };
    }

    pub fn get_bytes_transferred(&self) -> (r: u64)
        ensures
            r == self.bytes_transferred,
    {
        self.bytes_transferred
    }
}

/// A destination entry is purged when it resolves under the
/// destination root to a relative path that no source entry has.
pub open spec fn purge_deletable(
    e: FileInfo,
    src: Seq<FileInfo>,
    sroot: Seq<char>,
    droot: Seq<char>,
) -> bool {
    match crate::paths::rel_of(e.path@, droot) {
        Some(rel) => !source_has_rel(src, sroot, rel),
        None => false,
    }
}

pub open spec fn purge_file_pred(src: Seq<FileInfo>, sroot: Seq<char>, droot: Seq<char>) -> spec_fn(
    FileInfo,
) -> bool {
    |e: FileInfo| purge_deletable(e, src, sroot, droot) && !e.is_directory
}

pub open spec fn purge_dir_pred(src: Seq<FileInfo>, sroot: Seq<char>, droot: Seq<char>) -> spec_fn(
    FileInfo,
) -> bool {
    |e: FileInfo| purge_deletable(e, src, sroot, droot) && e.is_directory
}

/// The purge deletions for the given lists: non-directory entries in
/// destination order, then directory entries deepest first.
pub open spec fn purge_files_spec(
    src: Seq<FileInfo>,
    dst: Seq<FileInfo>,
    sroot: Seq<char>,
    droot: Seq<char>,
) -> Seq<FileOperation> {
    dst.filter(purge_file_pred(src, sroot, droot)).map_values(delete_of())
}

pub open spec fn purge_dirs_spec(
    src: Seq<FileInfo>,
    dst: Seq<FileInfo>,
    sroot: Seq<char>,
    droot: Seq<char>,
) -> Seq<FileOperation> {
    dst.filter(purge_dir_pred(src, sroot, droot)).map_values(delete_of())
}

/// The multithreaded synchronization engine's verified core.
pub struct ParallelSyncer {
    pub config: ParallelSyncConfig,
}

impl ParallelSyncer {
    pub fn new(config: ParallelSyncConfig) -> (r: Self)
        ensures
            r.config == config,
    {
        ParallelSyncer { config }
    }

    /// Apply delta matches to reconstruct a file, decompressing
    /// literals with the given codec.
    pub fn apply_delta(
        &self,
        dest_data: &[u8],
        matches: &Vec<Match>,
        compression_type: CompressionType,
    ) -> (r: Result<Vec<u8>, SyncError>)
        ensures
            match r {
                Ok(v) => apply_matches(dest_data@, compression_type, matches@) == Some(v@),
                Err(e) => apply_matches(dest_data@, compression_type, matches@) is None && (e
                    is DecompressionFailed || e is BlockOutOfRange),
            },
    {
        crate::algorithm::apply_delta_bytes(dest_data, matches, compression_type)
    }

    /// Map a source path to the corresponding destination path.
    pub fn map_source_to_dest(
        &self,
        source_file: &str,
        source_root: &str,
        dest_root: &str,
    ) -> (r: Result<String, SyncError>)
        ensures
            match r {
                Ok(p) => crate::paths::rel_of(source_file@, source_root@) is Some && p@
                    == crate::paths::join_of(
                    dest_root@,
                    crate::paths::rel_of(source_file@, source_root@)->0,
                ),
                Err(e) => crate::paths::rel_of(source_file@, source_root@) is None && e
                    is PathNotUnderRoot,
            },
    {
        crate::sync::map_source_to_dest(source_file, source_root, dest_root)
    }

    /// Whether a create or update moves a small file (below 1 MiB),
    /// so that it is worth batching; operations on unknown paths and
    /// all other operations count as small.
    pub fn is_small_file_operation(
        &self,
        operation: &FileOperation,
        source_files: &Vec<FileInfo>,
    ) -> (r: bool)
        ensures
            r == (match *operation {
                FileOperation::Create { path } | FileOperation::Update { path, .. } => match
                    find_entry(source_files@, path@) {
                    Some(f) => f.size < 1048576,
                    None => true,
                },
                _ => true,
            }),
    {
        match operation {
            FileOperation::Create { path } | FileOperation::Update { path, .. } => {
                match crate::file_list::find_entry_index(source_files, path) {
                    Some(i) => source_files[i].size < 1048576,
                    None => true,
                }
            },
            _ => true,
        }
    }

    /// The deletions that purge mode adds: one for every destination
    /// entry whose relative path has no source counterpart, files
    /// first in destination order, directories after them ordered
    /// deepest first.
    pub fn find_purge_operations(
        &self,
        source_files: &Vec<FileInfo>,
        dest_files: &Vec<FileInfo>,
        source_root: &str,
        dest_root: &str,
    ) -> (r: Vec<FileOperation>)
        ensures
            ({
                let files = purge_files_spec(source_files@, dest_files@, source_root@, dest_root@);
                let dirs = purge_dirs_spec(source_files@, dest_files@, source_root@, dest_root@);
                &&& r@.len() == files.len() + dirs.len()
                &&& r@.subrange(0, files.len() as int) == files
                &&& r@.subrange(files.len() as int, r@.len() as int).to_multiset()
                    == dirs.to_multiset()
                &&& sorted_by_depth_desc(r@.subrange(files.len() as int, r@.len() as int))
            }),
    {
        let ghost fp = purge_file_pred(source_files@, source_root@, dest_root@);
        let ghost dp = purge_dir_pred(source_files@, source_root@, dest_root@);
        let mut files: Vec<FileOperation> = Vec::new();
        let mut dirs: Vec<FileOperation> = Vec::new();
        proof {
            reveal(Seq::filter);
            assert(dest_files@.take(0) =~= Seq::<FileInfo>::empty());
            assert(files@ =~= dest_files@.take(0).filter(fp).map_values(delete_of()));
            assert(dirs@ =~= dest_files@.take(0).filter(dp).map_values(delete_of()));
        }
        let mut j: usize = 0;
        while j < dest_files.len()
            invariant
                fp == purge_file_pred(source_files@, source_root@, dest_root@),
                dp == purge_dir_pred(source_files@, source_root@, dest_root@),
                j <= dest_files@.len(),
                files@ == dest_files@.take(j as int).filter(fp).map_values(delete_of()),
                dirs@ == dest_files@.take(j as int).filter(dp).map_values(delete_of()),
            decreases dest_files@.len() - j,
        {
            let t = &dest_files[j];
            let deletable = match crate::paths::strip_prefix(t.path.as_str(), dest_root) {
                Some(rel) => !crate::file_list::has_rel(source_files, source_root, &rel),
                None => false,
            };
            proof {
                assert(deletable == purge_deletable(
                    dest_files@[j as int],
                    source_files@,
                    source_root@,
                    dest_root@,
                ));
                crate::file_list::lemma_filter_snoc_info(
                    dest_files@.take(j as int),
                    dest_files@[j as int],
                    fp,
                );
                crate::file_list::lemma_filter_snoc_info(
                    dest_files@.take(j as int),
                    dest_files@[j as int],
                    dp,
                );
                assert(dest_files@.take(j + 1) =~= dest_files@.take(j as int).push(
                    dest_files@[j as int],
                ));
            }
            if deletable {
                let op = FileOperation::Delete { path: t.path.clone() };
                let ghost opg = op;
                proof {
                    assert(opg == delete_of()(dest_files@[j as int]));
                }
                if t.is_directory {
                    dirs.push(op);
                    proof {
                        assert(dirs@ =~= dest_files@.take(j + 1).filter(dp).map_values(
                            delete_of(),
                        ));
                        assert(files@ =~= dest_files@.take(j + 1).filter(fp).map_values(
                            delete_of(),
                        ));
                    }
                } else {
                    files.push(op);
                    proof {
                        assert(files@ =~= dest_files@.take(j + 1).filter(fp).map_values(
                            delete_of(),
                        ));
                        assert(dirs@ =~= dest_files@.take(j + 1).filter(dp).map_values(
                            delete_of(),
                        ));
                    }
                }
            } else {
                proof {
                    assert(files@ =~= dest_files@.take(j + 1).filter(fp).map_values(delete_of()));
                    assert(dirs@ =~= dest_files@.take(j + 1).filter(dp).map_values(delete_of()));
                }
            }
            j += 1;
        }
        proof {
            assert(dest_files@.take(dest_files@.len() as int) =~= dest_files@);
        }
        let mut r = files;
        let mut dirs_sorted = crate::file_list::sort_ops_by_depth_desc(dirs);
        let ghost files_s = r@;
        let ghost dirs_s = dirs_sorted@;
        r.append(&mut dirs_sorted);
        proof {
            broadcast use vstd::seq_lib::group_to_multiset_ensures;

            assert(r@.subrange(0, files_s.len() as int) =~= files_s);
            assert(r@.subrange(files_s.len() as int, r@.len() as int) =~= dirs_s);
            let dirs_spec = purge_dirs_spec(source_files@, dest_files@, source_root@, dest_root@);
            assert(dirs_s.to_multiset().len() == dirs_s.len());
            assert(dirs_spec.to_multiset().len() == dirs_spec.len());
        }
        r
    }

/// Build the full plan for one run: the ordered diff of the two
/// trees — replacement removals, then directory creations (parents
/// before children), then the remaining creations and updates —
/// followed, only when purge or mirror mode is set, by the purge
/// deletions: destination-only files in scan order, then
/// destination-only directories deepest first.
    pub fn build_plan(
        &self,
        source_files: &Vec<FileInfo>,
        dest_files: &Vec<FileInfo>,
        source_root: &str,
        dest_root: &str,
        options: &SyncOptions,
    ) -> (r: Vec<FileOperation>)
        ensures
            ({
                let ops = source_ops_roots(
                    source_files@,
                    dest_files@,
                    source_root@,
                    dest_root@,
                    options.checksum,
                );
                let exf = if options.purge || options.mirror {
                    purge_files_spec(source_files@, dest_files@, source_root@, dest_root@)
                } else {
                    Seq::<FileOperation>::empty()
                };
                let exd = if options.purge || options.mirror {
                    purge_dirs_spec(source_files@, dest_files@, source_root@, dest_root@)
                } else {
                    Seq::<FileOperation>::empty()
                };
                let na = ops.filter(delete_pred()).len() as int;
                let nb = ops.filter(create_dir_pred()).len() as int;
                let nc = ops.filter(middle_pred()).len() as int;
                &&& r@.len() == na + nb + nc + exf.len() + exd.len()
                &&& r@.subrange(0, na) == ops.filter(delete_pred())
                &&& r@.subrange(na, na + nb).to_multiset() == ops.filter(
                    create_dir_pred(),
                ).to_multiset()
                &&& sorted_by_path(r@.subrange(na, na + nb))
                &&& r@.subrange(na + nb, na + nb + nc) == ops.filter(middle_pred())
                &&& r@.subrange(na + nb + nc, na + nb + nc + exf.len()) == exf
                &&& r@.subrange(na + nb + nc + exf.len(), r@.len() as int).to_multiset()
                    == exd.to_multiset()
                &&& sorted_by_depth_desc(
                    r@.subrange(na + nb + nc + exf.len(), r@.len() as int),
                )
                &&& plan_phase_ordered(r@, na, na + nb + nc)
            }),
    {
        let mut plan = crate::file_list::compare_file_lists_with_roots(
            source_files,
            dest_files,
            source_root,
            dest_root,
            options,
        );
        let ghost ops = source_ops_roots(
            source_files@,
            dest_files@,
            source_root@,
            dest_root@,
            options.checksum,
        );
        let ghost na = ops.filter(delete_pred()).len() as int;
        let ghost nb = ops.filter(create_dir_pred()).len() as int;
        let ghost nc = ops.filter(middle_pred()).len() as int;
        if options.purge || options.mirror {
            let ghost files = purge_files_spec(
                source_files@,
                dest_files@,
                source_root@,
                dest_root@,
            );
            let ghost dirs = purge_dirs_spec(source_files@, dest_files@, source_root@, dest_root@);
            let mut purge_ops = self.find_purge_operations(
                source_files,
                dest_files,
                source_root,
                dest_root,
            );
            let ghost plan0 = plan@;
            let ghost purge0 = purge_ops@;
            proof {
                broadcast use vstd::seq_lib::group_to_multiset_ensures;
                broadcast use vstd::seq_lib::group_filter_ensures;

                // every purge operation is a delete
                assert forall|k: int| 0 <= k < purge0.len() implies is_delete(
                    #[trigger] purge0[k],
                ) by {
                    if k < files.len() {
                        assert(purge0.subrange(0, files.len() as int)[k] == purge0[k]);
                        assert(files[k] == delete_of()(
                            dest_files@.filter(
                                purge_file_pred(source_files@, source_root@, dest_root@),
                            )[k],
                        ));
                    } else {
                        let tail = purge0.subrange(files.len() as int, purge0.len() as int);
                        assert(tail[k - files.len()] == purge0[k]);
                        assert(tail.contains(purge0[k])) by {
                            assert(tail[k - files.len()] == purge0[k]);
                        }
                        assert(tail.to_multiset().count(purge0[k]) > 0);
                        assert(dirs.to_multiset().count(purge0[k]) > 0);
                        assert(dirs.contains(purge0[k]));
                        let t = choose|t: int| 0 <= t < dirs.len() && dirs[t] == purge0[k];
                        assert(dirs[t] == delete_of()(
                            dest_files@.filter(
                                purge_dir_pred(source_files@, source_root@, dest_root@),
                            )[t],
                        ));
                    }
                }
            }
            plan.append(&mut purge_ops);
            proof {
                let n0 = plan0.len() as int;
                let nf = files.len() as int;
                assert(plan@ == plan0 + purge0);
                assert(n0 == na + nb + nc);
                assert(plan@.subrange(0, na) =~= plan0.subrange(0, na));
                assert(plan@.subrange(na, na + nb) =~= plan0.subrange(na, na + nb));
                assert(plan@.subrange(na + nb, na + nb + nc) =~= plan0.subrange(
                    na + nb,
                    na + nb + nc,
                ));
                assert(plan@.subrange(n0, n0 + nf) =~= purge0.subrange(0, nf));
                assert(plan@.subrange(n0 + nf, plan@.len() as int) =~= purge0.subrange(
                    nf,
                    purge0.len() as int,
                ));
                assert forall|i: int| 0 <= i < plan@.len() implies (i < n0 ==> plan@[i]
                    == plan0[i]) && (n0 <= i ==> plan@[i] == purge0[i - n0]) by {}
                assert(plan_phase_ordered(plan@, na, na + nb + nc));
            }
        } else {
            proof {
                assert(plan@.subrange(na + nb + nc, na + nb + nc + 0)
                    =~= Seq::<FileOperation>::empty());
            }
        }
        plan
    }
}

/// Length of the plan's leading run of deletions: the replacement
/// removals that must run before anything is created.
pub open spec fn delete_prefix_len(p: Seq<FileOperation>) -> int
    decreases p.len(),
{
    if p.len() == 0 {
        0
    } else if is_delete(p[0]) {
        1 + delete_prefix_len(p.skip(1))
    } else {
        0
    }
}

/// A run of deletions followed by anything that does not start with
/// one has exactly that run as its delete prefix.
proof fn lemma_delete_prefix_split(lead: Seq<FileOperation>, rest: Seq<FileOperation>)
    requires
        forall|i: int| 0 <= i < lead.len() ==> is_delete(#[trigger] lead[i]),
        rest.len() == 0 || !is_delete(rest[0]),
    ensures
        delete_prefix_len(lead + rest) == lead.len(),
    decreases lead.len(),
{
    if lead.len() == 0 {
        assert(lead + rest =~= rest);
    } else {
        assert((lead + rest)[0] == lead[0]);
        assert((lead + rest).skip(1) =~= lead.skip(1) + rest);
        assert forall|i: int| 0 <= i < lead.skip(1).len() implies is_delete(
            #[trigger] lead.skip(1)[i],
        ) by {
            assert(lead.skip(1)[i] == lead[i + 1]);
        }
        lemma_delete_prefix_split(lead.skip(1), rest);
    }
}

/// Split a plan into the executor's four phases: the leading
/// replacement removals (run first, sequentially), directory
/// creations (sequentially, parents first), transfer operations (in
/// parallel), and the trailing deletions of destination-only entries
/// (last, in plan order).
#[verifier::rlimit(50)]
pub fn partition_plan(operations: Vec<FileOperation>) -> (r: (
    Vec<FileOperation>,
    Vec<FileOperation>,
    Vec<FileOperation>,
    Vec<FileOperation>,
))
    ensures
        ({
            let n = delete_prefix_len(operations@);
            let rest = operations@.skip(n);
            &&& r.0@ == operations@.subrange(0, n)
            &&& r.1@ == rest.filter(create_dir_pred())
            &&& r.2@ == rest.filter(middle_pred())
            &&& r.3@ == rest.filter(delete_pred())
        }),
{
    let ghost v0 = operations@;
    let mut rest = operations;
    let total = rest.len();
    let mut lead: Vec<FileOperation> = Vec::new();
    let mut k: usize = 0;
    while k < total
        invariant_except_break
            total == v0.len(),
            k + rest@.len() == v0.len(),
            rest@ == v0.skip(k as int),
            lead@ == v0.subrange(0, k as int),
            forall|i: int| 0 <= i < lead@.len() ==> is_delete(#[trigger] lead@[i]),
        ensures
            total == v0.len(),
            k + rest@.len() == v0.len(),
            rest@ == v0.skip(k as int),
            lead@ == v0.subrange(0, k as int),
            forall|i: int| 0 <= i < lead@.len() ==> is_delete(#[trigger] lead@[i]),
            rest@.len() == 0 || !is_delete(rest@[0]),
        decreases total - k,
    {
        let front_is_delete = matches!(&rest[0], FileOperation::Delete { .. });
        if !front_is_delete {
            break ;
        }
        let op = rest.remove(0);
        proof {
            assert(op == v0[k as int]);
            assert(rest@ =~= v0.skip(k + 1));
            assert(lead@.push(op) =~= v0.subrange(0, k + 1));
        }
        lead.push(op);
        k += 1;
    }
    proof {
        lemma_delete_prefix_split(lead@, rest@);
        assert(lead@ + rest@ =~= v0);
        assert(delete_prefix_len(v0) == k as int);
    }
    let ghost rest0 = rest@;
    let rest_total = rest.len();
    let mut dirs: Vec<FileOperation> = Vec::new();
    let mut transfers: Vec<FileOperation> = Vec::new();
    let mut deletes: Vec<FileOperation> = Vec::new();
    proof {
        reveal(Seq::filter);
        assert(rest0.take(0) =~= Seq::<FileOperation>::empty());
        assert(dirs@ =~= rest0.take(0).filter(create_dir_pred()));
        assert(transfers@ =~= rest0.take(0).filter(middle_pred()));
        assert(deletes@ =~= rest0.take(0).filter(delete_pred()));
    }
    let mut j: usize = 0;
    while rest.len() > 0
        invariant
            rest_total == rest0.len(),
            j + rest@.len() == rest0.len(),
            rest@ == rest0.skip(j as int),
            dirs@ == rest0.take(j as int).filter(create_dir_pred()),
            transfers@ == rest0.take(j as int).filter(middle_pred()),
            deletes@ == rest0.take(j as int).filter(delete_pred()),
        decreases rest@.len(),
    {
        let op = rest.remove(0);
        proof {
            assert(op == rest0[j as int]);
            assert(rest@ =~= rest0.skip(j + 1));
            crate::file_list::lemma_filter_snoc(
                rest0.take(j as int),
                rest0[j as int],
                create_dir_pred(),
            );
            crate::file_list::lemma_filter_snoc(
                rest0.take(j as int),
                rest0[j as int],
                middle_pred(),
            );
            crate::file_list::lemma_filter_snoc(
                rest0.take(j as int),
                rest0[j as int],
                delete_pred(),
            );
            assert(rest0.take(j + 1) =~= rest0.take(j as int).push(rest0[j as int]));
        }
        let is_cd = matches!(&op, FileOperation::CreateDirectory { .. });
        let is_del = matches!(&op, FileOperation::Delete { .. });
        if is_cd {
            dirs.push(op);
        } else if is_del {
            deletes.push(op);
        } else {
            transfers.push(op);
        }
        j += 1;
    }
    proof {
        assert(rest0.take(rest0.len() as int) =~= rest0);
    }
    (lead, dirs, transfers, deletes)
}


/// One primitive filesystem step of the executor; the caller
/// performs it.
#[derive(Debug, Clone)]
pub enum FsAction {
    /// Create the directory (and its ancestors) if missing.
    EnsureDir { path: String },
    /// Copy the file's bytes and the selected metadata.
    CopyFile { source: String, dest: String, flags: CopyFlags },
    /// Remove the source file after a successful move.
    RemoveSourceFile { path: String },
    /// Remove the destination entry: file or symlink directly, a
    /// directory recursively.
    RemoveDestEntry { path: String },
    /// Create a symlink at `dest` pointing at `target`.
    CreateSymlinkAt { target: String, dest: String },
}

/// The action list of a file copy: make sure the parent directory
/// exists, copy the bytes and the selected metadata, and in move
/// mode remove the source file afterwards.
pub open spec fn copy_actions(
    acts: Seq<FsAction>,
    path: Seq<char>,
    sroot: Seq<char>,
    droot: Seq<char>,
    flags: CopyFlags,
    mv: bool,
) -> bool {
    let dest = crate::paths::join_of(droot, crate::paths::rel_of(path, sroot)->0);
    &&& crate::paths::rel_of(path, sroot) is Some
    &&& acts.len() == (if mv {
        3int
    } else {
        2int
    })
    &&& (acts[0] matches FsAction::EnsureDir { path: p } && p@ == crate::paths::parent_of(dest))
    &&& (acts[1] matches FsAction::CopyFile { source, dest: d, flags: f } && source@ == path && d@
        == dest && f == flags)
    &&& (mv ==> (acts[2] matches FsAction::RemoveSourceFile { path: p } && p@ == path))
}

/// Compile one plan operation into the exact filesystem actions that
/// execute it.  The source tree is touched only by the
/// `RemoveSourceFile` action, and that action is emitted only in
/// move mode (and never in a dry run): with `move_files` unset the
/// executor never mutates the source tree.
pub fn operation_actions(
    operation: &FileOperation,
    source_root: &str,
    dest_root: &str,
    options: &SyncOptions,
) -> (r: Result<Vec<FsAction>, SyncError>)
    ensures
        match r {
            Ok(acts) => ({
                let flags = crate::metadata::spec_copy_flags(options.copy_flags@);
                let mv = options.move_files && !options.dry_run;
                &&& forall|k: int|
                    0 <= k < acts@.len() ==> ((#[trigger] acts@[k]) is RemoveSourceFile
                        ==> options.move_files && !options.dry_run)
                &&& (operation matches FileOperation::Delete { path } ==> acts@.len() == 1 && (
                acts@[0] matches FsAction::RemoveDestEntry { path: p } && p@ == path@))
                &&& (operation matches FileOperation::CreateDirectory { path } ==> acts@.len()
                    == 1 && (acts@[0] matches FsAction::EnsureDir { path: p } && p@
                    == crate::paths::join_of(
                    dest_root@,
                    crate::paths::rel_of(path@, source_root@)->0,
                )))
                &&& (operation matches FileOperation::Create { path } ==> copy_actions(
                    acts@,
                    path@,
                    source_root@,
                    dest_root@,
                    flags,
                    mv,
                ))
                &&& (operation matches FileOperation::Update { path, .. } ==> copy_actions(
                    acts@,
                    path@,
                    source_root@,
                    dest_root@,
                    flags,
                    mv,
                ))
                &&& (operation matches FileOperation::CreateSymlink { path, target } ==> ({
                    let dest = crate::paths::join_of(
                        dest_root@,
                        crate::paths::rel_of(path@, source_root@)->0,
                    );
                    &&& acts@.len() == 2
                    &&& (acts@[0] matches FsAction::EnsureDir { path: p } && p@
                        == crate::paths::parent_of(dest))
                    &&& (acts@[1] matches FsAction::CreateSymlinkAt { target: t, dest: d } && t@
                        == target@ && d@ == dest)
                }))
                &&& (operation matches FileOperation::UpdateSymlink { path, target } ==> ({
                    let dest = crate::paths::join_of(
                        dest_root@,
                        crate::paths::rel_of(path@, source_root@)->0,
                    );
                    &&& acts@.len() == 2
                    &&& (acts@[0] matches FsAction::RemoveDestEntry { path: p } && p@ == dest)
                    &&& (acts@[1] matches FsAction::CreateSymlinkAt { target: t, dest: d } && t@
                        == target@ && d@ == dest)
                }))
            }),
            Err(e) => ({
                ||| (e is PathNotUnderRoot && !(operation is Delete) && crate::paths::rel_of(
                    op_path(*operation),
                    source_root@,
                ) is None)
                ||| (e is DataFlagMissing && (operation is Create || operation is Update)
                    && !crate::metadata::spec_copy_flags(options.copy_flags@).data)
            }),
        },
        (operation is Delete || (crate::paths::rel_of(op_path(*operation), source_root@) is Some
            && ((operation is Create || operation is Update)
            ==> crate::metadata::spec_copy_flags(options.copy_flags@).data))) ==> r is Ok,
{
    match operation {
        FileOperation::Delete { path } => {
            let mut acts: Vec<FsAction> = Vec::new();
            acts.push(FsAction::RemoveDestEntry { path: path.clone() });
            Ok(acts)
        },
        FileOperation::CreateDirectory { path } => {
            let dest = crate::sync::map_source_to_dest(path.as_str(), source_root, dest_root)?;
            let mut acts: Vec<FsAction> = Vec::new();
            acts.push(FsAction::EnsureDir { path: dest });
            Ok(acts)
        },
        FileOperation::Create { path } | FileOperation::Update { path, .. } => {
            let dest = crate::sync::map_source_to_dest(path.as_str(), source_root, dest_root)?;
            let flags = CopyFlags::from_string(options.copy_flags.as_str());
            if !flags.data {
                return Err(SyncError::DataFlagMissing);
            }
            let mut acts: Vec<FsAction> = Vec::new();
            acts.push(FsAction::EnsureDir { path: crate::paths::parent_dir(dest.as_str()) });
            acts.push(FsAction::CopyFile { source: path.clone(), dest, flags });
            if options.move_files && !options.dry_run {
                acts.push(FsAction::RemoveSourceFile { path: path.clone() });
            }
            Ok(acts)
        },
        FileOperation::CreateSymlink { path, target } => {
            let dest = crate::sync::map_source_to_dest(path.as_str(), source_root, dest_root)?;
            let mut acts: Vec<FsAction> = Vec::new();
            acts.push(FsAction::EnsureDir { path: crate::paths::parent_dir(dest.as_str()) });
            acts.push(FsAction::CreateSymlinkAt { target: target.clone(), dest });
            Ok(acts)
        },
        FileOperation::UpdateSymlink { path, target } => {
            let dest = crate::sync::map_source_to_dest(path.as_str(), source_root, dest_root)?;
            let mut acts: Vec<FsAction> = Vec::new();
            acts.push(FsAction::RemoveDestEntry { path: dest.clone() });
            acts.push(FsAction::CreateSymlinkAt { target: target.clone(), dest });
            Ok(acts)
        },
    }
}

/// When every destination entry under the root has a source
/// counterpart at its relative path, the purge pass finds nothing to
/// delete: the other half of the idempotence of a mirrored pair of
/// trees.
pub proof fn lemma_mirrored_trees_no_purge(
    src: Seq<FileInfo>,
    dst: Seq<FileInfo>,
    sroot: Seq<char>,
    droot: Seq<char>,
)
    requires
        forall|j: int|
            0 <= j < dst.len() ==> (crate::paths::rel_of((#[trigger] dst[j]).path@, droot)
                is Some ==> source_has_rel(src, sroot, crate::paths::rel_of(
                dst[j].path@,
                droot,
            )->0)),
    ensures
        purge_files_spec(src, dst, sroot, droot) == Seq::<FileOperation>::empty(),
        purge_dirs_spec(src, dst, sroot, droot) == Seq::<FileOperation>::empty(),
{
    let fp = purge_file_pred(src, sroot, droot);
    let dp = purge_dir_pred(src, sroot, droot);
    assert(dst.all(|x: FileInfo| !fp(x)));
    assert(dst.all(|x: FileInfo| !dp(x)));
    dst.lemma_all_neg_filter_empty(fp);
    dst.lemma_all_neg_filter_empty(dp);
    assert(purge_files_spec(src, dst, sroot, droot) =~= Seq::<FileOperation>::empty());
    assert(purge_dirs_spec(src, dst, sroot, droot) =~= Seq::<FileOperation>::empty());
}

/// Completeness of the purge: every destination entry that resolves
/// under the destination root to a relative path without a source
/// counterpart has its deletion among the purge operations.
pub proof fn lemma_purge_deletes_every_extra(
    src: Seq<FileInfo>,
    dst: Seq<FileInfo>,
    sroot: Seq<char>,
    droot: Seq<char>,
    j: int,
)
    requires
        0 <= j < dst.len(),
        purge_deletable(dst[j], src, sroot, droot),
    ensures
        (purge_files_spec(src, dst, sroot, droot) + purge_dirs_spec(
            src,
            dst,
            sroot,
            droot,
        )).contains(FileOperation::Delete { path: dst[j].path }),
{
    broadcast use vstd::seq_lib::group_filter_ensures;

    let op = FileOperation::Delete { path: dst[j].path };
    let files = purge_files_spec(src, dst, sroot, droot);
    let dirs = purge_dirs_spec(src, dst, sroot, droot);
    if dst[j].is_directory {
        let dp = purge_dir_pred(src, sroot, droot);
        assert(dp(dst[j]));
        assert(dst.filter(dp).contains(dst[j]));
        let k = choose|k: int| 0 <= k < dst.filter(dp).len() && dst.filter(dp)[k] == dst[j];
        assert(dirs[k] == delete_of()(dst.filter(dp)[k]));
        assert(dirs[k] == op);
        assert((files + dirs)[files.len() + k] == op);
    } else {
        let fp = purge_file_pred(src, sroot, droot);
        assert(fp(dst[j]));
        assert(dst.filter(fp).contains(dst[j]));
        let k = choose|k: int| 0 <= k < dst.filter(fp).len() && dst.filter(fp)[k] == dst[j];
        assert(files[k] == delete_of()(dst.filter(fp)[k]));
        assert(files[k] == op);
        assert((files + dirs)[k] == op);
    }
}

} // verus!
