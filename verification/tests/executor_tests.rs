use robosync::errors::SyncError;
use robosync::file_list::{operation_path, FileInfo, FileOperation};
use robosync::linux_fast_copy::{SmallFileBuffer, SMALL_FILE_THRESHOLD};
use robosync::logging::format_duration;
use robosync::options::SyncOptions;
use robosync::parallel_sync::{
    max_thread_count, operation_actions, partition_plan, FsAction, ParallelSyncConfig,
    ParallelSyncer, SyncStats,
};

fn entry(path: &str, size: u64, is_dir: bool) -> FileInfo {
    FileInfo {
        path: path.to_string(),
        size,
        modified: 1000,
        is_directory: is_dir,
        is_symlink: false,
        symlink_target: None,
        checksum: None,
    }
}

#[test]
fn test_parallel_sync_config() {
    let config = ParallelSyncConfig::default();
    assert!(config.worker_threads > 0);
    assert!(config.io_threads > 0);
    assert!(config.block_size > 0);
}

#[test]
fn test_map_source_to_dest() {
    let config = ParallelSyncConfig::default();
    let syncer = ParallelSyncer::new(config);

    let result = syncer.map_source_to_dest("/source/subdir/file.txt", "/source", "/dest").unwrap();
    assert_eq!(result, "/dest/subdir/file.txt");
}

#[test]
fn test_map_source_to_dest_outside_root() {
    let syncer = ParallelSyncer::new(ParallelSyncConfig::default());
    let r = syncer.map_source_to_dest("/elsewhere/file.txt", "/source", "/dest");
    assert_eq!(r.unwrap_err(), SyncError::PathNotUnderRoot);
}

#[test]
fn test_small_file_buffer() {
    let mut buffer = SmallFileBuffer::new(4);
    let buf1 = buffer.get_buffer();
    assert_eq!(buf1.len(), SMALL_FILE_THRESHOLD);
}

#[test]
fn test_format_duration() {
    assert_eq!(format_duration(30), "30s");
    assert_eq!(format_duration(90), "1m 30s");
    assert_eq!(format_duration(3661), "1h 1m 1s");
}

#[test]
fn test_format_duration_edges() {
    assert_eq!(format_duration(0), "0s");
    assert_eq!(format_duration(60), "1m 0s");
    assert_eq!(format_duration(3600), "1h 0m 0s");
}

#[test]
fn test_max_thread_count() {
    assert_eq!(max_thread_count(Some(1024)), 256);
    assert_eq!(max_thread_count(Some(100)), 64);
    assert_eq!(max_thread_count(Some(1_000_000)), 512);
    assert_eq!(max_thread_count(None), 256);
}

#[test]
fn test_sync_stats_counters() {
    let mut stats = SyncStats::new();
    assert_eq!(stats.get_bytes_transferred(), 0);
    stats.add_bytes_transferred(100);
    stats.add_bytes_transferred(23);
    assert_eq!(stats.get_bytes_transferred(), 123);
    stats.add_warning("something odd".to_string());
    assert_eq!(stats.warnings, vec!["something odd".to_string()]);
}

// Purge of an empty source: every destination entry is deleted,
// files first, directories deepest first.
#[test]
fn test_purge_empty_source_deletes_everything() {
    let syncer = ParallelSyncer::new(ParallelSyncConfig::default());
    let source: Vec<FileInfo> = vec![];
    let dest = vec![
        entry("/dst/x", 0, true),
        entry("/dst/x/y", 0, true),
        entry("/dst/x/y/z", 4, false),
    ];
    let ops = syncer.find_purge_operations(&source, &dest, "/src", "/dst");
    assert_eq!(ops.len(), 3);
    for op in &ops {
        assert!(matches!(op, FileOperation::Delete { .. }));
    }
    // delete order: the file first, then directories deepest first
    assert_eq!(operation_path(&ops[0]), "/dst/x/y/z");
    assert_eq!(operation_path(&ops[1]), "/dst/x/y");
    assert_eq!(operation_path(&ops[2]), "/dst/x");
}

// Purge scenario: src has a, dst has a and b; the plan ends with the
// deletion of b.
#[test]
fn test_purge_plan_ends_with_delete() {
    let syncer = ParallelSyncer::new(ParallelSyncConfig::default());
    let source = vec![entry("/src/a", 3, false)];
    let dest = vec![entry("/dst/a", 3, false), entry("/dst/b", 3, false)];
    let options = SyncOptions { purge: true, ..Default::default() };
    let plan = syncer.build_plan(&source, &dest, "/src", "/dst", &options);
    assert!(!plan.is_empty());
    let last = &plan[plan.len() - 1];
    assert!(matches!(last, FileOperation::Delete { .. }));
    assert_eq!(operation_path(last), "/dst/b");
}

// Symlink replacement: the plan deletes the old regular file first,
// then creates the link in its place.
#[test]
fn test_symlink_replacement_plan() {
    let syncer = ParallelSyncer::new(ParallelSyncConfig::default());
    let source = vec![FileInfo {
        path: "/src/link".to_string(),
        size: 0,
        modified: 1,
        is_directory: false,
        is_symlink: true,
        symlink_target: Some("t1".to_string()),
        checksum: None,
    }];
    let dest = vec![entry("/dst/link", 10, false)];
    let options = SyncOptions::default();
    let plan = syncer.build_plan(&source, &dest, "/src", "/dst", &options);
    assert_eq!(plan.len(), 2);
    assert!(matches!(plan[0], FileOperation::Delete { .. }));
    assert_eq!(operation_path(&plan[0]), "/dst/link");
    assert!(matches!(&plan[1], FileOperation::CreateSymlink { target, .. } if target == "t1"));
}

#[test]
fn test_partition_plan_phases() {
    let plan = vec![
        FileOperation::Delete { path: "/dst/replaced".to_string() },
        FileOperation::CreateDirectory { path: "/dst/d".to_string() },
        FileOperation::Create { path: "/src/a".to_string() },
        FileOperation::Update { path: "/src/b".to_string(), use_delta: false },
        FileOperation::Delete { path: "/dst/gone".to_string() },
    ];
    let (replacements, dirs, transfers, deletes) = partition_plan(plan);
    assert_eq!(replacements.len(), 1);
    assert_eq!(operation_path(&replacements[0]), "/dst/replaced");
    assert_eq!(dirs.len(), 1);
    assert_eq!(transfers.len(), 2);
    assert_eq!(deletes.len(), 1);
    assert_eq!(operation_path(&dirs[0]), "/dst/d");
    assert_eq!(operation_path(&deletes[0]), "/dst/gone");
}

// A copy without the data flag is refused before any action is built.
#[test]
fn test_data_flag_missing() {
    let op = FileOperation::Create { path: "/src/a.txt".to_string() };
    let options = SyncOptions { copy_flags: "AT".to_string(), ..Default::default() };
    let r = operation_actions(&op, "/src", "/dst", &options);
    assert_eq!(r.unwrap_err(), SyncError::DataFlagMissing);
}

// The same warning recorded twice is stored once.
#[test]
fn test_warning_dedup() {
    let mut stats = SyncStats::new();
    stats.add_warning("auditing is not supported".to_string());
    stats.add_warning("auditing is not supported".to_string());
    stats.add_warning("another note".to_string());
    assert_eq!(stats.warnings.len(), 2);
}

#[test]
fn test_is_small_file_operation() {
    let syncer = ParallelSyncer::new(ParallelSyncConfig::default());
    let source = vec![entry("/src/small", 1000, false), entry("/src/big", 5_000_000, false)];
    let small = FileOperation::Create { path: "/src/small".to_string() };
    let big = FileOperation::Update { path: "/src/big".to_string(), use_delta: false };
    let unknown = FileOperation::Create { path: "/src/other".to_string() };
    assert!(syncer.is_small_file_operation(&small, &source));
    assert!(!syncer.is_small_file_operation(&big, &source));
    assert!(syncer.is_small_file_operation(&unknown, &source));
}

// Source mutation is gated on move mode: without `--mov` no action
// ever touches the source tree; with it, the copy is followed by the
// removal of the source file.
#[test]
fn test_operation_actions_source_mutation() {
    let op = FileOperation::Create { path: "/src/a.txt".to_string() };
    let plain = SyncOptions::default();
    let acts = operation_actions(&op, "/src", "/dst", &plain).unwrap();
    assert!(acts.iter().all(|a| !matches!(a, FsAction::RemoveSourceFile { .. })));

    let moving = SyncOptions { move_files: true, ..Default::default() };
    let acts = operation_actions(&op, "/src", "/dst", &moving).unwrap();
    assert!(acts
        .iter()
        .any(|a| matches!(a, FsAction::RemoveSourceFile { path } if path == "/src/a.txt")));
}

#[test]
fn test_operation_actions_create_dir() {
    let op = FileOperation::CreateDirectory { path: "/src/sub".to_string() };
    let options = SyncOptions::default();
    let acts = operation_actions(&op, "/src", "/dst", &options).unwrap();
    assert_eq!(acts.len(), 1);
    assert!(matches!(&acts[0], FsAction::EnsureDir { path } if path == "/dst/sub"));
}
