use robosync::compression::CompressionConfig;
use robosync::file_list::{
    compare_file_lists, compare_file_lists_with_options, compare_file_lists_with_roots,
    matches_pattern, needs_update, operation_path, should_include_file, should_use_delta,
    FileInfo, FileOperation,
};
use robosync::options::SyncOptions;

fn create_test_file(path: &str, size: u64, modified_offset: u64, is_dir: bool) -> FileInfo {
    FileInfo {
        path: path.to_string(),
        size,
        modified: modified_offset,
        is_directory: is_dir,
        is_symlink: false,
        symlink_target: None,
        checksum: None,
    }
}

#[test]
fn test_compare_identical_lists() {
    let files = vec![
        create_test_file("file1.txt", 100, 1000, false),
        create_test_file("dir1", 0, 1000, true),
    ];

    let operations = compare_file_lists(&files, &files);
    assert!(operations.is_empty());
}

#[test]
fn test_compare_new_files() {
    let source = vec![
        create_test_file("file1.txt", 100, 1000, false),
        create_test_file("dir1", 0, 1000, true),
    ];
    let target = vec![];

    let operations = compare_file_lists(&source, &target);
    assert_eq!(operations.len(), 2);

    // Should create directory first, then file
    assert!(matches!(operations[0], FileOperation::CreateDirectory { .. }));
    assert!(matches!(operations[1], FileOperation::Create { .. }));
}

#[test]
fn test_needs_update() {
    let old_file = create_test_file("file.txt", 100, 1000, false);
    let new_file = create_test_file("file.txt", 100, 2000, false);
    let different_size = create_test_file("file.txt", 200, 1000, false);
    let options = SyncOptions::default(); // No checksum comparison

    assert!(needs_update(&new_file, &old_file, &options)); // Newer modification time
    assert!(needs_update(&different_size, &old_file, &options)); // Different size
    assert!(!needs_update(&old_file, &new_file, &options)); // Older file
}

#[test]
fn test_should_use_delta() {
    let small_file = create_test_file("small.txt", 500, 1000, false);
    let large_file = create_test_file("large.txt", 10000, 1000, false);
    let similar_large = create_test_file("large.txt", 10100, 1000, false);
    let very_different = create_test_file("large.txt", 20000, 1000, false);

    assert!(!should_use_delta(&small_file, &small_file)); // Too small
    assert!(should_use_delta(&large_file, &similar_large)); // Similar size
    assert!(!should_use_delta(&large_file, &very_different)); // Too different
}

#[test]
fn test_pattern_matching() {
    // Exact matches
    assert!(matches_pattern("file.txt", "file.txt"));
    assert!(!matches_pattern("file.txt", "other.txt"));

    // Wildcard * matches
    assert!(matches_pattern("file.txt", "*.txt"));
    assert!(matches_pattern("document.pdf", "*.pdf"));
    assert!(matches_pattern("backup_2023.txt", "backup_*.txt"));
    assert!(!matches_pattern("file.pdf", "*.txt"));

    // Wildcard ? matches
    assert!(matches_pattern("file1.txt", "file?.txt"));
    assert!(matches_pattern("fileA.txt", "file?.txt"));
    assert!(!matches_pattern("file12.txt", "file?.txt"));

    // Complex patterns
    assert!(matches_pattern("temp_file_123.tmp", "temp_*_*.tmp"));
    assert!(matches_pattern("log.2023-01-01", "log.????-??-??"));
}

#[test]
fn test_file_filtering() {
    let options = SyncOptions {
        recursive: true,
        purge: false,
        mirror: false,
        dry_run: false,
        verbose: 0,
        confirm: false,
        no_progress: false,
        move_files: false,
        exclude_files: vec!["*.tmp".to_string(), "*.log".to_string()],
        exclude_dirs: vec!["cache".to_string(), ".git".to_string()],
        min_size: Some(100),
        max_size: Some(10000),
        copy_flags: "DAT".to_string(),
        log_file: None,
        compress: false,
        compression_config: CompressionConfig::default(),
        show_eta: false,
        retry_count: 0,
        retry_wait: 30,
        checksum: false,
    };

    let root = "/test";

    // File should be excluded by pattern
    let tmp_file = FileInfo {
        path: "/test/temp.tmp".to_string(),
        size: 500,
        modified: 0,
        is_directory: false,
        is_symlink: false,
        symlink_target: None,
        checksum: None,
    };
    assert!(!should_include_file(&tmp_file, root, &options));

    // File should be excluded by size (too small)
    let small_file = FileInfo {
        path: "/test/small.txt".to_string(),
        size: 50,
        modified: 0,
        is_directory: false,
        is_symlink: false,
        symlink_target: None,
        checksum: None,
    };
    assert!(!should_include_file(&small_file, root, &options));

    // File should be excluded by size (too large)
    let large_file = FileInfo {
        path: "/test/large.txt".to_string(),
        size: 20000,
        modified: 0,
        is_directory: false,
        is_symlink: false,
        symlink_target: None,
        checksum: None,
    };
    assert!(!should_include_file(&large_file, root, &options));

    // File should be included
    let good_file = FileInfo {
        path: "/test/document.txt".to_string(),
        size: 5000,
        modified: 0,
        is_directory: false,
        is_symlink: false,
        symlink_target: None,
        checksum: None,
    };
    assert!(should_include_file(&good_file, root, &options));

    // Directory should be excluded
    let cache_dir = FileInfo {
        path: "/test/cache".to_string(),
        size: 0,
        modified: 0,
        is_directory: true,
        is_symlink: false,
        symlink_target: None,
        checksum: None,
    };
    assert!(!should_include_file(&cache_dir, root, &options));
}

#[test]
fn test_symlink_operations() {
    // Create test symlink file info
    let symlink_file = FileInfo {
        path: "/test/link.txt".to_string(),
        size: 0,
        modified: 0,
        is_directory: false,
        is_symlink: true,
        symlink_target: Some("target.txt".to_string()),
        checksum: None,
    };

    let target_regular_file = FileInfo {
        path: "/test/link.txt".to_string(),
        size: 100,
        modified: 0,
        is_directory: false,
        is_symlink: false,
        symlink_target: None,
        checksum: None,
    };

    // Test symlink to regular file replacement: the removal of the
    // old entry precedes the creation that takes its place
    let operations = compare_file_lists(&vec![symlink_file.clone()], &vec![
        target_regular_file.clone(),
    ]);
    assert_eq!(operations.len(), 2);
    assert!(matches!(operations[0], FileOperation::Delete { .. }));
    assert!(matches!(operations[1], FileOperation::CreateSymlink { .. }));

    // Test regular file to symlink replacement
    let operations = compare_file_lists(&vec![target_regular_file], &vec![symlink_file.clone()]);
    assert_eq!(operations.len(), 2);
    assert!(matches!(operations[0], FileOperation::Delete { .. }));
    assert!(matches!(operations[1], FileOperation::Create { .. }));

    // Test symlink target change
    let symlink_file2 = FileInfo {
        path: "/test/link.txt".to_string(),
        size: 0,
        modified: 0,
        is_directory: false,
        is_symlink: true,
        symlink_target: Some("different_target.txt".to_string()),
        checksum: None,
    };

    let operations = compare_file_lists(&vec![symlink_file2], &vec![symlink_file]);
    assert_eq!(operations.len(), 1);
    assert!(matches!(operations[0], FileOperation::UpdateSymlink { .. }));
}

#[test]
fn test_checksum_comparison() {
    // Create files with same size and time but different content (different checksums)
    let checksum1 = Some(vec![1, 2, 3, 4]);
    let checksum2 = Some(vec![5, 6, 7, 8]);

    let file1 = FileInfo {
        path: "/test/file.txt".to_string(),
        size: 100,
        modified: 1000,
        is_directory: false,
        is_symlink: false,
        symlink_target: None,
        checksum: checksum1.clone(),
    };

    let file2 = FileInfo {
        path: "/test/file.txt".to_string(),
        size: 100,                  // Same size
        modified: 1000,             // Same time
        is_directory: false,
        is_symlink: false,
        symlink_target: None,
        checksum: checksum2, // Different checksum
    };

    // Test with checksum mode enabled
    let checksum_options = SyncOptions { checksum: true, ..Default::default() };

    // Should detect difference with checksum mode
    assert!(needs_update(&file1, &file2, &checksum_options));

    // Test with checksum mode disabled (default behavior)
    let normal_options = SyncOptions::default();

    // Should NOT detect difference without checksum mode (same size and time)
    assert!(!needs_update(&file1, &file2, &normal_options));

    // Test with identical checksums
    let file3 = FileInfo { checksum: checksum1.clone(), ..file2.clone() };

    assert!(!needs_update(&file1, &file3, &checksum_options));
}

// Identical trees compared in checksum mode produce an empty plan.
#[test]
fn test_identical_trees_with_checksum_empty_plan() {
    let files = vec![
        FileInfo {
            path: "/t/a".to_string(),
            size: 10,
            modified: 5,
            is_directory: false,
            is_symlink: false,
            symlink_target: None,
            checksum: Some(vec![9, 9, 9]),
        },
        create_test_file("/t/d", 0, 5, true),
    ];
    let options = SyncOptions { checksum: true, ..Default::default() };
    let plan = compare_file_lists_with_options(&files, &files, &options);
    assert!(plan.is_empty());
}

// A file whose mtime is newer but whose content hash is identical
// produces no operation in checksum mode.
#[test]
fn test_newer_mtime_same_hash_no_operation() {
    let newer = FileInfo {
        path: "/t/f".to_string(),
        size: 4,
        modified: 2000,
        is_directory: false,
        is_symlink: false,
        symlink_target: None,
        checksum: Some(vec![1, 2]),
    };
    let older = FileInfo { modified: 1000, ..newer.clone() };
    let options = SyncOptions { checksum: true, ..Default::default() };
    let plan = compare_file_lists_with_options(&vec![newer], &vec![older], &options);
    assert!(plan.is_empty());
}

// New file: one source file, empty destination, plan is a single create.
#[test]
fn test_new_file_plan() {
    let source = vec![create_test_file("/src/a.txt", 5, 1, false)];
    let target = vec![];
    let options = SyncOptions::default();
    let plan = compare_file_lists_with_roots(&source, &target, "/src", "/dst", &options);
    assert_eq!(plan.len(), 1);
    assert!(matches!(plan[0], FileOperation::Create { .. }));
    assert_eq!(operation_path(&plan[0]), "/src/a.txt");
}

// Adding an exclude pattern never turns an excluded entry into an
// included one: the filtered source list shrinks, and so does the plan.
#[test]
fn test_exclude_pattern_shrinks_plan() {
    let entries = vec![
        create_test_file("/src/keep.txt", 10, 1, false),
        create_test_file("/src/drop.log", 10, 1, false),
    ];
    let base = SyncOptions::default();
    let more = SyncOptions { exclude_files: vec!["*.log".to_string()], ..Default::default() };

    let kept_base: Vec<&FileInfo> =
        entries.iter().filter(|e| should_include_file(e, "/src", &base)).collect();
    let kept_more: Vec<&FileInfo> =
        entries.iter().filter(|e| should_include_file(e, "/src", &more)).collect();
    assert_eq!(kept_base.len(), 2);
    assert_eq!(kept_more.len(), 1);
    // every entry included under the longer pattern list is included under the shorter
    for e in &kept_more {
        assert!(should_include_file(e, "/src", &base));
    }

    let source_base: Vec<FileInfo> = kept_base.into_iter().cloned().collect();
    let source_more: Vec<FileInfo> = kept_more.into_iter().cloned().collect();
    let plan_base = compare_file_lists_with_roots(&source_base, &vec![], "/src", "/dst", &base);
    let plan_more = compare_file_lists_with_roots(&source_more, &vec![], "/src", "/dst", &more);
    assert!(plan_more.len() <= plan_base.len());
}

// Plan ordering: replacement removals first, then directory
// creations (parents before children), then the other operations,
// and the purge deletions last.
#[test]
fn test_plan_ordering() {
    let source = vec![
        create_test_file("/r/d", 0, 1, true),
        create_test_file("/r/d/f.txt", 10, 1, false),
        create_test_file("/r/d/sub", 0, 1, true),
        create_test_file("/r/x", 10, 1, false),
    ];
    let target = vec![
        create_test_file("/r/x", 0, 1, true),    // a directory a file replaces
        create_test_file("/r/gone.txt", 3, 1, false),
    ];
    let options = SyncOptions { purge: true, ..Default::default() };
    let plan = compare_file_lists_with_options(&source, &target, &options);
    assert_eq!(plan.len(), 6);
    assert!(matches!(plan[0], FileOperation::Delete { .. }));
    assert_eq!(operation_path(&plan[0]), "/r/x");
    assert!(matches!(plan[1], FileOperation::CreateDirectory { .. }));
    assert!(matches!(plan[2], FileOperation::CreateDirectory { .. }));
    assert_eq!(operation_path(&plan[1]), "/r/d");
    assert_eq!(operation_path(&plan[2]), "/r/d/sub");
    assert!(matches!(plan[3], FileOperation::Create { .. }));
    assert!(matches!(plan[4], FileOperation::Create { .. }));
    assert!(matches!(plan[5], FileOperation::Delete { .. }));
    assert_eq!(operation_path(&plan[5]), "/r/gone.txt");
}

// Without purge, destination-only entries are left alone.
#[test]
fn test_no_deletes_without_purge() {
    let source = vec![create_test_file("/r/a", 3, 1, false)];
    let target = vec![
        create_test_file("/r/a", 3, 1, false),
        create_test_file("/r/b", 3, 1, false),
    ];
    let plan = compare_file_lists(&source, &target);
    assert!(plan.is_empty());

    let options = SyncOptions { purge: true, ..Default::default() };
    let plan = compare_file_lists_with_options(&source, &target, &options);
    assert_eq!(plan.len(), 1);
    assert!(matches!(plan[0], FileOperation::Delete { .. }));
    assert_eq!(operation_path(&plan[0]), "/r/b");
}
