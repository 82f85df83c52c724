//! File entries, filtering, and the diffing of two trees.
//!
//! A scan of a tree (done by the caller, which owns all I/O) yields a
//! list of [`FileInfo`] entries.  The functions here filter entries,
//! pair the two lists by path, and emit the ordered plan of
//! [`FileOperation`]s that makes the destination match the source.

use vstd::prelude::*;
use vstd::multiset::Multiset;
use crate::options::SyncOptions;

verus! {

/// File metadata for synchronization.
///
/// `path` is the absolute path as seen by the scan; `modified` is the
/// modification time in seconds since the epoch; `size` is 0 for
/// directories and symlinks; `symlink_target` is present exactly for
/// symlink entries; `checksum` is present when the caller hashed the
/// content of a regular file.
#[derive(Debug, Clone)]
pub struct FileInfo {
    pub path: String,
    pub size: u64,
    pub modified: u64,
    pub is_directory: bool,
    pub is_symlink: bool,
    pub symlink_target: Option<String>,
    pub checksum: Option<Vec<u8>>,
}

/// Operations that need to be performed during sync.
#[derive(Debug, Clone)]
pub enum FileOperation {
    Create { path: String },
    Update { path: String, use_delta: bool },
    Delete { path: String },
    CreateDirectory { path: String },
    CreateSymlink { path: String, target: String },
    UpdateSymlink { path: String, target: String },
}

/// Glob matching: `*` matches any run of characters including none,
/// `?` matches exactly one, every other character matches itself.
pub open spec fn glob_match(t: Seq<char>, p: Seq<char>) -> bool
    decreases p.len() + t.len(),
{
    if p.len() == 0 {
        t.len() == 0
    } else if p[0] == '*' {
        glob_match(t, p.skip(1)) || (t.len() > 0 && glob_match(t.skip(1), p))
    } else {
        t.len() > 0 && (p[0] == '?' || p[0] == t[0]) && glob_match(t.skip(1), p.skip(1))
    }
}

/// Match the tails of `text` and `pattern` from the given positions.
fn glob_match_at(text: &str, pattern: &str, ti: usize, pi: usize) -> (r: bool)
    requires
        ti <= text@.len(),
        pi <= pattern@.len(),
    ensures
        r == glob_match(text@.skip(ti as int), pattern@.skip(pi as int)),
    decreases text@.len() + pattern@.len() - ti - pi,
{
    let tlen = text.unicode_len();
    let plen = pattern.unicode_len();
    proof {
        assert(pattern@.skip(pi as int).len() == plen - pi);
        assert(text@.skip(ti as int).len() == tlen - ti);
    }
    if pi == plen {
        return ti == tlen;
    }
    let pc = pattern.get_char(pi);
    proof {
        assert(pattern@.skip(pi as int)[0] == pattern@[pi as int]);
        assert(pattern@.skip(pi as int).skip(1) =~= pattern@.skip(pi + 1));
    }
    if pc == '*' {
        if glob_match_at(text, pattern, ti, pi + 1) {
            return true;
        }
        if ti < tlen {
            proof {
                assert(text@.skip(ti as int).skip(1) =~= text@.skip(ti + 1));
            }
            if glob_match_at(text, pattern, ti + 1, pi) {
                return true;
            }
        }
        false
    } else {
        if ti == tlen {
            return false;
        }
        let tc = text.get_char(ti);
        proof {
            assert(text@.skip(ti as int)[0] == text@[ti as int]);
            assert(text@.skip(ti as int).skip(1) =~= text@.skip(ti + 1));
        }
        if pc == '?' || pc == tc {
            glob_match_at(text, pattern, ti + 1, pi + 1)
        } else {
            false
        }
    }
}

/// Whether `text` matches the glob `pattern`.
pub fn matches_pattern(text: &str, pattern: &str) -> (r: bool)
    ensures
        r == glob_match(text@, pattern@),
{
    proof {
        assert(text@.skip(0) =~= text@);
        assert(pattern@.skip(0) =~= pattern@);
    }
    glob_match_at(text, pattern, 0, 0)
}

/// Some pattern in the list matches the entry's name or its full
/// relative path.
pub open spec fn matches_any(name: Seq<char>, rel: Seq<char>, patterns: Seq<String>) -> bool {
    exists|k: int|
        0 <= k < patterns.len() && (glob_match(name, patterns[k]@) || glob_match(
            rel,
            patterns[k]@,
        ))
}

/// The ancestor of the relative path that ends at position `i` (a
/// component boundary) matches a directory-exclude pattern, by its
/// basename or by its full relative path.
pub open spec fn boundary_excluded(rel: Seq<char>, patterns: Seq<String>, i: int) -> bool {
    0 < i <= rel.len() && (i == rel.len() || rel[i] == '/') && matches_any(
        crate::paths::basename_of(rel.take(i)),
        rel.take(i),
        patterns,
    )
}

/// Some ancestor of the relative path (itself included) matches a
/// directory-exclude pattern.
pub open spec fn ancestor_excluded(rel: Seq<char>, patterns: Seq<String>) -> bool {
    exists|i: int| boundary_excluded(rel, patterns, i)
}

/// The file size lies within the configured bounds.
pub open spec fn size_within_bounds(size: u64, opts: SyncOptions) -> bool {
    &&& (opts.min_size is None || size >= opts.min_size->0)
    &&& (opts.max_size is None || size <= opts.max_size->0)
}

/// Whether the filter includes an entry: an entry outside the root is
/// included; otherwise no file-exclude pattern may match its name or
/// relative path, no directory-exclude pattern may match any ancestor,
/// and a regular file must lie within the size bounds.
pub open spec fn spec_included(f: FileInfo, root: Seq<char>, opts: SyncOptions) -> bool {
    match crate::paths::rel_of(f.path@, root) {
        None => true,
        Some(rel) => {
            &&& !matches_any(crate::paths::basename_of(f.path@), rel, opts.exclude_files@)
            &&& !ancestor_excluded(rel, opts.exclude_dirs@)
            &&& (f.is_directory || f.is_symlink || size_within_bounds(f.size, opts))
        },
    }
}

/// Whether some pattern matches the name or the relative path.
fn matches_any_pattern(name: &str, rel: &str, patterns: &Vec<String>) -> (r: bool)
    ensures
        r == matches_any(name@, rel@, patterns@),
{
    let mut k: usize = 0;
    while k < patterns.len()
        invariant
            k <= patterns@.len(),
            forall|j: int|
                0 <= j < k ==> !glob_match(name@, patterns@[j]@) && !glob_match(
                    rel@,
                    patterns@[j]@,
                ),
        decreases patterns@.len() - k,
    {
        let p = &patterns[k];
        if matches_pattern(name, p.as_str()) || matches_pattern(rel, p.as_str()) {
            return true;
        }
        k += 1;
    }
    false
}

/// Whether some ancestor of the relative path is excluded by the
/// directory patterns.
fn any_ancestor_excluded(rel: &str, patterns: &Vec<String>) -> (r: bool)
    ensures
        r == ancestor_excluded(rel@, patterns@),
{
    let len = rel.unicode_len();
    let mut j: usize = 0;
    while j < len
        invariant
            len == rel@.len(),
            j <= len,
            forall|b: int| b <= j ==> !#[trigger] boundary_excluded(rel@, patterns@, b),
        decreases len - j,
    {
        let i = j + 1;
        if i == len || rel.get_char(i) == '/' {
            let anc = rel.substring_char(0, i);
            proof {
                assert(anc@ =~= rel@.take(i as int));
            }
            let name = crate::paths::basename(anc);
            if matches_any_pattern(name.as_str(), anc, patterns) {
                proof {
                    assert(boundary_excluded(rel@, patterns@, i as int));
                }
                return true;
            }
        }
        j = i;
    }
    proof {
        assert(forall|b: int| !#[trigger] boundary_excluded(rel@, patterns@, b));
    }
    false
}

/// Check if a file should be included based on the filtering options.
pub fn should_include_file(file_info: &FileInfo, root: &str, options: &SyncOptions) -> (r: bool)
    ensures
        r == spec_included(*file_info, root@, *options),
{
    let rel_opt = crate::paths::strip_prefix(file_info.path.as_str(), root);
    let rel = match rel_opt {
        None => { return true },
        Some(rel) => rel,
    };
    let name = crate::paths::basename(file_info.path.as_str());
    if matches_any_pattern(name.as_str(), rel.as_str(), &options.exclude_files) {
        return false;
    }
    if any_ancestor_excluded(rel.as_str(), &options.exclude_dirs) {
        return false;
    }
    if !file_info.is_directory && !file_info.is_symlink {
        match options.min_size {
            Some(min_size) => {
                if file_info.size < min_size {
                    return false;
                }
            },
            None => {},
        }
        match options.max_size {
            Some(max_size) => {
                if file_info.size > max_size {
                    return false;
                }
            },
            None => {},
        }
    }
    true
}

/// Adding a file-exclude pattern can only shrink the set of included
/// entries: an entry included under the longer pattern list is
/// included under the shorter one.
pub proof fn lemma_exclude_files_monotone(
    f: FileInfo,
    root: Seq<char>,
    opts: SyncOptions,
    opts2: SyncOptions,
    p: String,
)
    requires
        opts2.exclude_files@ == opts.exclude_files@.push(p),
        opts2.exclude_dirs@ == opts.exclude_dirs@,
        opts2.min_size == opts.min_size,
        opts2.max_size == opts.max_size,
        spec_included(f, root, opts2),
    ensures
        spec_included(f, root, opts),
{
    lemma_matches_any_push(opts.exclude_files@, p);
}

/// Adding a directory-exclude pattern can only shrink the set of
/// included entries.
pub proof fn lemma_exclude_dirs_monotone(
    f: FileInfo,
    root: Seq<char>,
    opts: SyncOptions,
    opts2: SyncOptions,
    p: String,
)
    requires
        opts2.exclude_dirs@ == opts.exclude_dirs@.push(p),
        opts2.exclude_files@ == opts.exclude_files@,
        opts2.min_size == opts.min_size,
        opts2.max_size == opts.max_size,
        spec_included(f, root, opts2),
    ensures
        spec_included(f, root, opts),
{
    lemma_matches_any_push(opts.exclude_dirs@, p);
    let relopt = crate::paths::rel_of(f.path@, root);
    if relopt is Some {
        let rel = relopt->0;
        if ancestor_excluded(rel, opts.exclude_dirs@) {
            let b = choose|b: int| boundary_excluded(rel, opts.exclude_dirs@, b);
            assert(matches_any(
                crate::paths::basename_of(rel.take(b)),
                rel.take(b),
                opts2.exclude_dirs@,
            ));
            assert(boundary_excluded(rel, opts2.exclude_dirs@, b));
        }
    }
}

/// Whatever a pattern list matches, the list with one more pattern
/// matches as well.
proof fn lemma_matches_any_push(patterns: Seq<String>, p: String)
    ensures
        forall|name: Seq<char>, rel: Seq<char>|
            #[trigger] matches_any(name, rel, patterns) ==> matches_any(
                name,
                rel,
                patterns.push(p),
            ),
{
    assert forall|name: Seq<char>, rel: Seq<char>| #[trigger]
        matches_any(name, rel, patterns) implies matches_any(name, rel, patterns.push(p)) by {
        let k = choose|k: int|
            0 <= k < patterns.len() && (glob_match(name, patterns[k]@) || glob_match(
                rel,
                patterns[k]@,
            ));
        assert(patterns.push(p)[k] == patterns[k]);
    }
}

/// Byte-for-byte equality of two checksums.
fn bytes_eq(a: &Vec<u8>, b: &Vec<u8>) -> (r: bool)
    ensures
        r == (a@ == b@),
{
    if a.len() != b.len() {
        return false;
    }
    let mut i: usize = 0;
    while i < a.len()
        invariant
            a@.len() == b@.len(),
            i <= a@.len(),
            forall|j: int| 0 <= j < i ==> a@[j] == b@[j],
        decreases a@.len() - i,
    {
        if a[i] != b[i] {
            return false;
        }
        i += 1;
    }
    proof {
        assert(a@ =~= b@);
    }
    true
}

/// When a pair of regular files differs: by content hash when checksum
/// mode is on and both hashes are present, else by newer modification
/// time or different size.
pub open spec fn spec_needs_update(source: FileInfo, target: FileInfo, checksum: bool) -> bool {
    if checksum && source.checksum is Some && target.checksum is Some {
        source.checksum->0@ != target.checksum->0@
    } else {
        source.modified > target.modified || source.size != target.size
    }
}

/// Determine if a file needs to be updated.
pub fn needs_update(source: &FileInfo, target: &FileInfo, options: &SyncOptions) -> (r: bool)
    ensures
        r == spec_needs_update(*source, *target, options.checksum),
{
    if options.checksum {
        match (&source.checksum, &target.checksum) {
            (Some(source_checksum), Some(target_checksum)) => {
                return !bytes_eq(source_checksum, target_checksum);
            },
            _ => {},
        }
    }
    source.modified > target.modified || source.size != target.size
}

/// Delta transfer pays off for files of at least 1024 bytes whose
/// sizes differ by less than half of the larger size.
pub open spec fn spec_should_use_delta(source: FileInfo, target: FileInfo) -> bool {
    let d = if source.size >= target.size {
        source.size - target.size
    } else {
        target.size - source.size
    };
    let m = if source.size >= target.size {
        source.size
    } else {
        target.size
    };
    source.size >= 1024 && target.size >= 1024 && 2 * d < m
}

/// Determine if the delta algorithm should be used for an update.
pub fn should_use_delta(source: &FileInfo, target: &FileInfo) -> (r: bool)
    ensures
        r == spec_should_use_delta(*source, *target),
{
    if source.size < 1024 || target.size < 1024 {
        return false;
    }
    let d: u64 = if source.size >= target.size {
        source.size - target.size
    } else {
        target.size - source.size
    };
    let m: u64 = if source.size >= target.size {
        source.size
    } else {
        target.size
    };
    2 * (d as u128) < (m as u128)
}

/// The symlink targets of two symlink entries differ.
pub open spec fn symlink_differs(s: FileInfo, t: FileInfo) -> bool {
    match (s.symlink_target, t.symlink_target) {
        (Some(a), Some(b)) => a@ != b@,
        (None, None) => false,
        _ => true,
    }
}

/// The operations emitted for one source entry paired with its
/// destination counterpart (or with nothing).  Creates carry the
/// source path; deletes carry the destination entry's path.
pub open spec fn pair_ops(s: FileInfo, t: Option<FileInfo>, checksum: bool) -> Seq<
    FileOperation,
> {
    match t {
        None => {
            if s.is_symlink {
                match s.symlink_target {
                    Some(tg) => seq![FileOperation::CreateSymlink { path: s.path, target: tg }],
                    None => Seq::empty(),
                }
            } else if s.is_directory {
                seq![FileOperation::CreateDirectory { path: s.path }]
            } else {
                seq![FileOperation::Create { path: s.path }]
            }
        },
        Some(t) => {
            if s.is_symlink && t.is_symlink {
                if symlink_differs(s, t) {
                    match s.symlink_target {
                        Some(tg) => seq![
                            FileOperation::UpdateSymlink { path: s.path, target: tg },
                        ],
                        None => Seq::empty(),
                    }
                } else {
                    Seq::empty()
                }
            } else if s.is_symlink && !t.is_symlink {
                match s.symlink_target {
                    Some(tg) => seq![
                        FileOperation::Delete { path: t.path },
                        FileOperation::CreateSymlink { path: s.path, target: tg },
                    ],
                    None => seq![FileOperation::Delete { path: t.path }],
                }
            } else if !s.is_symlink && t.is_symlink {
                if s.is_directory {
                    seq![
                        FileOperation::Delete { path: t.path },
                        FileOperation::CreateDirectory { path: s.path },
                    ]
                } else {
                    seq![
                        FileOperation::Delete { path: t.path },
                        FileOperation::Create { path: s.path },
                    ]
                }
            } else if s.is_directory && t.is_directory {
                Seq::empty()
            } else if s.is_directory && !t.is_directory {
                seq![
                    FileOperation::Delete { path: t.path },
                    FileOperation::CreateDirectory { path: s.path },
                ]
            } else if !s.is_directory && t.is_directory {
                seq![
                    FileOperation::Delete { path: t.path },
                    FileOperation::Create { path: s.path },
                ]
            } else {
                if spec_needs_update(s, t, checksum) {
                    seq![
                        FileOperation::Update {
                            path: s.path,
                            use_delta: spec_should_use_delta(s, t),
                        },
                    ]
                } else {
                    Seq::empty()
                }
            }
        },
    }
}

/// First entry in the list with the given path.
pub open spec fn find_entry(list: Seq<FileInfo>, path: Seq<char>) -> Option<FileInfo>
    decreases list.len(),
{
    if list.len() == 0 {
        None
    } else if list[0].path@ == path {
        Some(list[0])
    } else {
        find_entry(list.skip(1), path)
    }
}

/// Operations emitted by pairing every source entry with its
/// destination counterpart, in source order.
pub open spec fn source_ops(src: Seq<FileInfo>, dst: Seq<FileInfo>, checksum: bool) -> Seq<
    FileOperation,
>
    decreases src.len(),
{
    if src.len() == 0 {
        Seq::empty()
    } else {
        pair_ops(src[0], find_entry(dst, src[0].path@), checksum) + source_ops(
            src.skip(1),
            dst,
            checksum,
        )
    }
}

/// The delete operation for one entry.
pub open spec fn delete_of() -> spec_fn(FileInfo) -> FileOperation {
    |e: FileInfo| FileOperation::Delete { path: e.path }
}

/// A destination entry with no source counterpart (matching by full
/// path), split by kind.
pub open spec fn extra_file_pred(src: Seq<FileInfo>) -> spec_fn(FileInfo) -> bool {
    |e: FileInfo| find_entry(src, e.path@) is None && !e.is_directory
}

pub open spec fn extra_dir_pred(src: Seq<FileInfo>) -> spec_fn(FileInfo) -> bool {
    |e: FileInfo| find_entry(src, e.path@) is None && e.is_directory
}

/// Deletions for the destination-only non-directory entries, in
/// destination order.
pub open spec fn extra_file_deletes(src: Seq<FileInfo>, dst: Seq<FileInfo>) -> Seq<
    FileOperation,
> {
    dst.filter(extra_file_pred(src)).map_values(delete_of())
}

/// Deletions for the destination-only directory entries.
pub open spec fn extra_dir_deletes(src: Seq<FileInfo>, dst: Seq<FileInfo>) -> Seq<
    FileOperation,
> {
    dst.filter(extra_dir_pred(src)).map_values(delete_of())
}

/// Searching an unmatched prefix does not change the result.
proof fn lemma_find_entry_prefix(list: Seq<FileInfo>, path: Seq<char>, i: int)
    requires
        0 <= i <= list.len(),
        forall|j: int| 0 <= j < i ==> list[j].path@ != path,
    ensures
        find_entry(list, path) == find_entry(list.skip(i), path),
    decreases i,
{
    if i > 0 {
        assert(list[0].path@ != path);
        lemma_find_entry_prefix(list.skip(1), path, i - 1);
        assert(list.skip(1).skip(i - 1) =~= list.skip(i));
    } else {
        assert(list.skip(0) =~= list);
    }
}

/// Index of the first entry with the given path.
pub(crate) fn find_entry_index(list: &Vec<FileInfo>, path: &String) -> (r: Option<usize>)
    ensures
        match r {
            Some(i) => i < list@.len() && find_entry(list@, path@) == Some(list@[i as int]),
            None => find_entry(list@, path@) is None,
        },
{
    let mut i: usize = 0;
    while i < list.len()
        invariant
            i <= list@.len(),
            forall|j: int| 0 <= j < i ==> list@[j].path@ != path@,
        decreases list@.len() - i,
    {
        if crate::paths::str_eq(list[i].path.as_str(), path.as_str()) {
            proof {
                lemma_find_entry_prefix(list@, path@, i as int);
                assert(list@.skip(i as int)[0] == list@[i as int]);
            }
            return Some(i);
        }
        i += 1;
    }
    proof {
        lemma_find_entry_prefix(list@, path@, list@.len() as int);
        assert(list@.skip(list@.len() as int) =~= Seq::<FileInfo>::empty());
    }
    None
}

/// Extending the source list by one entry appends that entry's pair
/// operations.
proof fn lemma_source_ops_snoc(src: Seq<FileInfo>, x: FileInfo, dst: Seq<FileInfo>, checksum: bool)
    ensures
        source_ops(src.push(x), dst, checksum) == source_ops(src, dst, checksum) + pair_ops(
            x,
            find_entry(dst, x.path@),
            checksum,
        ),
    decreases src.len(),
{
    if src.len() == 0 {
        assert(src.push(x)[0] == x);
        assert(src.push(x).skip(1) =~= Seq::<FileInfo>::empty());
        assert(source_ops(src.push(x), dst, checksum) == pair_ops(
            x,
            find_entry(dst, x.path@),
            checksum,
        ) + source_ops(src.push(x).skip(1), dst, checksum));
        assert(source_ops(src.push(x).skip(1), dst, checksum) == Seq::<FileOperation>::empty());
        assert(source_ops(src, dst, checksum) == Seq::<FileOperation>::empty());
        assert(source_ops(src.push(x), dst, checksum) =~= source_ops(src, dst, checksum)
            + pair_ops(x, find_entry(dst, x.path@), checksum));
    } else {
        assert(src.push(x)[0] == src[0]);
        assert(src.push(x).skip(1) =~= src.skip(1).push(x));
        lemma_source_ops_snoc(src.skip(1), x, dst, checksum);
        assert(source_ops(src.push(x), dst, checksum) =~= source_ops(src, dst, checksum)
            + pair_ops(x, find_entry(dst, x.path@), checksum));
    }
}

/// The path an operation refers to.
pub open spec fn op_path(op: FileOperation) -> Seq<char> {
    match op {
        FileOperation::Create { path } => path@,
        FileOperation::Update { path, .. } => path@,
        FileOperation::Delete { path } => path@,
        FileOperation::CreateDirectory { path } => path@,
        FileOperation::CreateSymlink { path, .. } => path@,
        FileOperation::UpdateSymlink { path, .. } => path@,
    }
}

pub open spec fn is_create_dir(op: FileOperation) -> bool {
    op is CreateDirectory
}

pub open spec fn is_delete(op: FileOperation) -> bool {
    op is Delete
}

/// Operations that run between directory creation and deletion.
pub open spec fn is_middle(op: FileOperation) -> bool {
    !(op is CreateDirectory) && !(op is Delete)
}

/// The path an operation refers to.
pub fn operation_path(op: &FileOperation) -> (r: &String)
    ensures
        r@ == op_path(*op),
{
    match op {
        FileOperation::Create { path } => path,
        FileOperation::Update { path, .. } => path,
        FileOperation::Delete { path } => path,
        FileOperation::CreateDirectory { path } => path,
        FileOperation::CreateSymlink { path, .. } => path,
        FileOperation::UpdateSymlink { path, .. } => path,
    }
}

/// Paths weakly increase, so every directory precedes the paths
/// beneath it.
pub open spec fn sorted_by_path(s: Seq<FileOperation>) -> bool {
    forall|i: int, j: int|
        0 <= i < j < s.len() ==> crate::paths::lex_le(
            op_path(#[trigger] s[i]),
            op_path(#[trigger] s[j]),
        )
}

/// Depth weakly decreases, so deeper paths come first.
pub open spec fn sorted_by_depth_desc(s: Seq<FileOperation>) -> bool {
    forall|i: int, j: int|
        0 <= i < j < s.len() ==> crate::paths::depth_of(op_path(#[trigger] s[i]))
            >= crate::paths::depth_of(op_path(#[trigger] s[j]))
}

/// The ordering discipline of a plan.  Replacement removals — the
/// deletes a kind change emits so that the new entry can take the
/// old one's place — form the prefix `[0, head)`; the deletions of
/// destination-only entries form the suffix `[trail, len)`; between
/// them no operation deletes, directory creations lead and are
/// sorted so that parents precede children.
pub open spec fn plan_phase_ordered(p: Seq<FileOperation>, head: int, trail: int) -> bool {
    &&& 0 <= head <= trail <= p.len()
    &&& forall|i: int| 0 <= i < head ==> is_delete(#[trigger] p[i])
    &&& forall|i: int| trail <= i < p.len() ==> is_delete(#[trigger] p[i])
    &&& forall|i: int| head <= i < trail ==> !is_delete(#[trigger] p[i])
    &&& forall|i: int, j: int|
        head <= i < j < trail && is_create_dir(#[trigger] p[j]) ==> is_create_dir(#[trigger] p[i])
    &&& forall|i: int, j: int|
        head <= i < j < trail && is_create_dir(#[trigger] p[i]) && is_create_dir(
            #[trigger] p[j],
        ) ==> crate::paths::lex_le(op_path(p[i]), op_path(p[j]))
}

/// Every operation whose path lies beneath a directory created by the
/// plan comes after that directory's creation.  (Replacement removals
/// precede all creations, and the deletions of destination-only
/// entries follow them; both facts are conjuncts of
/// `plan_phase_ordered` itself.)
pub proof fn lemma_plan_ordering(
    plan: Seq<FileOperation>,
    head: int,
    trail: int,
    d: int,
    o: int,
)
    requires
        plan_phase_ordered(plan, head, trail),
        head <= d < trail,
        head <= o < trail,
        is_create_dir(plan[d]),
        crate::paths::beneath(op_path(plan[o]), op_path(plan[d])),
    ensures
        d < o,
{
    let po = op_path(plan[o]);
    let pd = op_path(plan[d]);
    crate::paths::lemma_beneath_lex(po, pd);
    assert(po.len() > pd.len()) by {
        assert(crate::paths::starts_with(po, pd + seq!['/']));
    }
    if o < d {
        if is_create_dir(plan[o]) {
            assert(crate::paths::lex_le(po, pd));
            crate::paths::lemma_lex_both_ways(po, pd);
        }
    }
}

pub open spec fn create_dir_pred() -> spec_fn(FileOperation) -> bool {
    |op: FileOperation| is_create_dir(op)
}

pub open spec fn delete_pred() -> spec_fn(FileOperation) -> bool {
    |op: FileOperation| is_delete(op)
}

pub open spec fn middle_pred() -> spec_fn(FileOperation) -> bool {
    |op: FileOperation| is_middle(op)
}

/// The three working vectors of the pairing pass hold exactly the
/// emitted operations `e`: replacement removals, directory
/// creations, and the middle operations, each as a filtered
/// subsequence.
pub open spec fn pairing_partition(
    repl: Seq<FileOperation>,
    dc: Seq<FileOperation>,
    mid: Seq<FileOperation>,
    e: Seq<FileOperation>,
) -> bool {
    &&& repl == e.filter(delete_pred())
    &&& dc == e.filter(create_dir_pred())
    &&& mid == e.filter(middle_pred())
}

/// Filtering a sequence extended by one element.
pub(crate) proof fn lemma_filter_snoc(e: Seq<FileOperation>, op: FileOperation, pred: spec_fn(FileOperation) -> bool)
    ensures
        e.push(op).filter(pred) == (if pred(op) {
            e.filter(pred).push(op)
        } else {
            e.filter(pred)
        }),
{
    reveal(Seq::filter);
    assert(e.push(op).drop_last() =~= e);
    assert(e.push(op).last() == op);
}

/// Append one emitted operation to the working vector it belongs in.
fn route_op(
    repl: &mut Vec<FileOperation>,
    dc: &mut Vec<FileOperation>,
    mid: &mut Vec<FileOperation>,
    op: FileOperation,
    Ghost(e): Ghost<Seq<FileOperation>>,
)
    requires
        pairing_partition(old(repl)@, old(dc)@, old(mid)@, e),
    ensures
        pairing_partition(final(repl)@, final(dc)@, final(mid)@, e.push(op)),
{
    proof {
        lemma_filter_snoc(e, op, create_dir_pred());
        lemma_filter_snoc(e, op, delete_pred());
        lemma_filter_snoc(e, op, middle_pred());
    }
    let is_del = matches!(&op, FileOperation::Delete { .. });
    let is_cd = matches!(&op, FileOperation::CreateDirectory { .. });
    if is_cd {
        dc.push(op);
    } else if is_del {
        repl.push(op);
    } else {
        mid.push(op);
    }
}

/// Sort operations so that their paths weakly increase.
fn sort_ops_by_path(v: Vec<FileOperation>) -> (r: Vec<FileOperation>)
    ensures
        r@.to_multiset() == v@.to_multiset(),
        sorted_by_path(r@),
        forall|i: int| 0 <= i < r@.len() ==> v@.contains(#[trigger] r@[i]),
{
    let ghost v0 = v@;
    let mut input = v;
    let mut out: Vec<FileOperation> = Vec::new();
    proof {
        broadcast use vstd::seq_lib::group_to_multiset_ensures;

        assert(out@.to_multiset().len() == 0);
        assert(out@.to_multiset() =~= Multiset::<FileOperation>::empty());
        assert(out@.to_multiset().add(input@.to_multiset()) =~= input@.to_multiset());
    }
    while input.len() > 0
        invariant
            out@.to_multiset().add(input@.to_multiset()) == v0.to_multiset(),
            sorted_by_path(out@),
            forall|i: int, j: int|
                0 <= i < out@.len() && 0 <= j < input@.len() ==> crate::paths::lex_le(
                    op_path(#[trigger] out@[i]),
                    op_path(#[trigger] input@[j]),
                ),
        decreases input@.len(),
    {
        let mut min: usize = 0;
        let mut k: usize = 1;
        proof {
            crate::paths::lemma_lex_refl(op_path(input@[0]));
        }
        while k < input.len()
            invariant
                0 < input@.len(),
                min < k,
                k <= input@.len(),
                forall|j: int|
                    0 <= j < k ==> crate::paths::lex_le(
                        op_path(input@[min as int]),
                        op_path(#[trigger] input@[j]),
                    ),
            decreases input@.len() - k,
        {
            if !crate::paths::path_le(
                operation_path(&input[min]).as_str(),
                operation_path(&input[k]).as_str(),
            ) {
                proof {
                    crate::paths::lemma_lex_total(
                        op_path(input@[min as int]),
                        op_path(input@[k as int]),
                    );
                    assert forall|j: int| 0 <= j < k + 1 implies crate::paths::lex_le(
                        op_path(input@[k as int]),
                        op_path(#[trigger] input@[j]),
                    ) by {
                        if j < k {
                            crate::paths::lemma_lex_trans(
                                op_path(input@[k as int]),
                                op_path(input@[min as int]),
                                op_path(input@[j]),
                            );
                        } else {
                            crate::paths::lemma_lex_refl(op_path(input@[k as int]));
                        }
                    }
                }
                min = k;
            }
            k += 1;
        }
        let ghost pre = input@;
        let m = input.remove(min);
        proof {
            broadcast use vstd::seq_lib::group_to_multiset_ensures;

            assert(input@.to_multiset() =~= pre.to_multiset().remove(m));
            assert(out@.push(m).to_multiset() =~= out@.to_multiset().insert(m));
            assert(out@.push(m).to_multiset().add(input@.to_multiset()) =~= v0.to_multiset());
            assert forall|i: int, j: int|
                0 <= i < out@.push(m).len() && 0 <= j < input@.len() implies crate::paths::lex_le(
                op_path(#[trigger] out@.push(m)[i]),
                op_path(#[trigger] input@[j]),
            ) by {
                let jj = if j < min { j } else { j + 1 };
                assert(input@[j] == pre[jj]);
                if i < out@.len() {
                    assert(out@.push(m)[i] == out@[i]);
                } else {
                    assert(out@.push(m)[i] == m);
                    assert(m == pre[min as int]);
                }
            }
            assert(sorted_by_path(out@.push(m))) by {
                assert forall|i: int, j: int|
                    0 <= i < j < out@.push(m).len() implies crate::paths::lex_le(
                    op_path(#[trigger] out@.push(m)[i]),
                    op_path(#[trigger] out@.push(m)[j]),
                ) by {
                    if j < out@.len() {
                        assert(out@.push(m)[i] == out@[i]);
                        assert(out@.push(m)[j] == out@[j]);
                    } else {
                        assert(out@.push(m)[j] == m);
                        assert(out@.push(m)[i] == out@[i]);
                        assert(m == pre[min as int]);
                    }
                }
            }
        }
        out.push(m);
    }
    proof {
        broadcast use vstd::seq_lib::group_to_multiset_ensures;

        assert(input@ =~= Seq::<FileOperation>::empty());
        assert(input@.to_multiset() =~= Multiset::<FileOperation>::empty());
        assert(out@.to_multiset().add(Multiset::<FileOperation>::empty()) =~= out@.to_multiset());
        assert forall|i: int| 0 <= i < out@.len() implies v0.contains(#[trigger] out@[i]) by {
            assert(out@.contains(out@[i]));
            assert(out@.to_multiset().count(out@[i]) > 0);
            assert(v0.to_multiset().count(out@[i]) > 0);
        }
    }
    out
}

/// Sort operations so that their depths weakly decrease: deepest
/// paths first.
pub(crate) fn sort_ops_by_depth_desc(v: Vec<FileOperation>) -> (r: Vec<FileOperation>)
    ensures
        r@.to_multiset() == v@.to_multiset(),
        sorted_by_depth_desc(r@),
        forall|i: int| 0 <= i < r@.len() ==> v@.contains(#[trigger] r@[i]),
{
    let ghost v0 = v@;
    let mut input = v;
    let mut out: Vec<FileOperation> = Vec::new();
    proof {
        broadcast use vstd::seq_lib::group_to_multiset_ensures;

        assert(out@.to_multiset().len() == 0);
        assert(out@.to_multiset() =~= Multiset::<FileOperation>::empty());
        assert(out@.to_multiset().add(input@.to_multiset()) =~= input@.to_multiset());
    }
    while input.len() > 0
        invariant
            out@.to_multiset().add(input@.to_multiset()) == v0.to_multiset(),
            sorted_by_depth_desc(out@),
            forall|i: int, j: int|
                0 <= i < out@.len() && 0 <= j < input@.len() ==> crate::paths::depth_of(
                    op_path(#[trigger] out@[i]),
                ) >= crate::paths::depth_of(op_path(#[trigger] input@[j])),
        decreases input@.len(),
    {
        let mut max: usize = 0;
        let mut k: usize = 1;
        while k < input.len()
            invariant
                0 < input@.len(),
                max < k,
                k <= input@.len(),
                forall|j: int|
                    0 <= j < k ==> crate::paths::depth_of(op_path(input@[max as int]))
                        >= crate::paths::depth_of(op_path(#[trigger] input@[j])),
            decreases input@.len() - k,
        {
            let dk = crate::paths::slashes(operation_path(&input[k]).as_str());
            let dm = crate::paths::slashes(operation_path(&input[max]).as_str());
            if dk > dm {
                max = k;
            }
            k += 1;
        }
        let ghost pre = input@;
        let m = input.remove(max);
        proof {
            broadcast use vstd::seq_lib::group_to_multiset_ensures;

            assert(input@.to_multiset() =~= pre.to_multiset().remove(m));
            assert(out@.push(m).to_multiset() =~= out@.to_multiset().insert(m));
            assert(out@.push(m).to_multiset().add(input@.to_multiset()) =~= v0.to_multiset());
            assert forall|i: int, j: int|
                0 <= i < out@.push(m).len() && 0 <= j < input@.len() implies crate::paths::depth_of(
                op_path(#[trigger] out@.push(m)[i]),
            ) >= crate::paths::depth_of(op_path(#[trigger] input@[j])) by {
                let jj = if j < max { j } else { j + 1 };
                assert(input@[j] == pre[jj]);
                if i < out@.len() {
                    assert(out@.push(m)[i] == out@[i]);
                } else {
                    assert(out@.push(m)[i] == m);
                    assert(m == pre[max as int]);
                }
            }
            assert(sorted_by_depth_desc(out@.push(m))) by {
                assert forall|i: int, j: int|
                    0 <= i < j < out@.push(m).len() implies crate::paths::depth_of(
                    op_path(#[trigger] out@.push(m)[i]),
                ) >= crate::paths::depth_of(op_path(#[trigger] out@.push(m)[j])) by {
                    if j < out@.len() {
                        assert(out@.push(m)[i] == out@[i]);
                        assert(out@.push(m)[j] == out@[j]);
                    } else {
                        assert(out@.push(m)[j] == m);
                        assert(out@.push(m)[i] == out@[i]);
                        assert(m == pre[max as int]);
                    }
                }
            }
        }
        out.push(m);
    }
    proof {
        broadcast use vstd::seq_lib::group_to_multiset_ensures;

        assert(input@ =~= Seq::<FileOperation>::empty());
        assert(input@.to_multiset() =~= Multiset::<FileOperation>::empty());
        assert(out@.to_multiset().add(Multiset::<FileOperation>::empty()) =~= out@.to_multiset());
        assert forall|i: int| 0 <= i < out@.len() implies v0.contains(#[trigger] out@[i]) by {
            assert(out@.contains(out@[i]));
            assert(out@.to_multiset().count(out@[i]) > 0);
            assert(v0.to_multiset().count(out@[i]) > 0);
        }
    }
    out
}

/// Concatenate the five working vectors into the final plan:
/// replacement removals first, then directory creations sorted
/// parent-first, the middle operations, and last the deletions of
/// destination-only entries — files in scan order, directories
/// deepest first.
fn assemble_plan(
    repl: Vec<FileOperation>,
    dc: Vec<FileOperation>,
    mid: Vec<FileOperation>,
    fd: Vec<FileOperation>,
    dd: Vec<FileOperation>,
) -> (r: Vec<FileOperation>)
    requires
        forall|i: int| 0 <= i < repl@.len() ==> is_delete(#[trigger] repl@[i]),
        forall|i: int| 0 <= i < dc@.len() ==> is_create_dir(#[trigger] dc@[i]),
        forall|i: int| 0 <= i < mid@.len() ==> is_middle(#[trigger] mid@[i]),
        forall|i: int| 0 <= i < fd@.len() ==> is_delete(#[trigger] fd@[i]),
        forall|i: int| 0 <= i < dd@.len() ==> is_delete(#[trigger] dd@[i]),
    ensures
        ({
            let na = repl@.len() as int;
            let nb = dc@.len() as int;
            let nc = mid@.len() as int;
            let nf = fd@.len() as int;
            let nd = dd@.len() as int;
            &&& r@.len() == na + nb + nc + nf + nd
            &&& r@.subrange(0, na) == repl@
            &&& r@.subrange(na, na + nb).to_multiset() == dc@.to_multiset()
            &&& sorted_by_path(r@.subrange(na, na + nb))
            &&& r@.subrange(na + nb, na + nb + nc) == mid@
            &&& r@.subrange(na + nb + nc, na + nb + nc + nf) == fd@
            &&& r@.subrange(na + nb + nc + nf, r@.len() as int).to_multiset() == dd@.to_multiset()
            &&& sorted_by_depth_desc(r@.subrange(na + nb + nc + nf, r@.len() as int))
            &&& plan_phase_ordered(r@, na, na + nb + nc)
        }),
{
    let ghost dc0 = dc@;
    let ghost dd0 = dd@;
    let mut r = repl;
    let mut dc_sorted = sort_ops_by_path(dc);
    let mut mid = mid;
    let mut fd = fd;
    let mut dd_sorted = sort_ops_by_depth_desc(dd);
    proof {
        broadcast use vstd::seq_lib::group_to_multiset_ensures;

        assert forall|i: int| 0 <= i < dc_sorted@.len() implies is_create_dir(
            #[trigger] dc_sorted@[i],
        ) by {
            assert(dc0.contains(dc_sorted@[i]));
            let j = choose|j: int| 0 <= j < dc0.len() && dc0[j] == dc_sorted@[i];
        }
        assert forall|i: int| 0 <= i < dd_sorted@.len() implies is_delete(
            #[trigger] dd_sorted@[i],
        ) by {
            assert(dd0.contains(dd_sorted@[i]));
            let j = choose|j: int| 0 <= j < dd0.len() && dd0[j] == dd_sorted@[i];
        }
    }
    let ghost ra = r@;
    let ghost rb = dc_sorted@;
    let ghost rc = mid@;
    let ghost rf = fd@;
    let ghost rd = dd_sorted@;
    r.append(&mut dc_sorted);
    r.append(&mut mid);
    r.append(&mut fd);
    r.append(&mut dd_sorted);
    proof {
        let na = ra.len() as int;
        let nb = rb.len() as int;
        let nc = rc.len() as int;
        let nf = rf.len() as int;
        assert(r@ == ra + rb + rc + rf + rd);
        assert(rb.to_multiset().len() == rb.len());
        assert(dc0.to_multiset().len() == dc0.len());
        assert(rd.to_multiset().len() == rd.len());
        assert(dd0.to_multiset().len() == dd0.len());
        assert(r@.subrange(0, na) =~= ra);
        assert(r@.subrange(na, na + nb) =~= rb);
        assert(r@.subrange(na + nb, na + nb + nc) =~= rc);
        assert(r@.subrange(na + nb + nc, na + nb + nc + nf) =~= rf);
        assert(r@.subrange(na + nb + nc + nf, r@.len() as int) =~= rd);
        assert forall|i: int| 0 <= i < r@.len() implies ((is_delete(#[trigger] r@[i]) ==> (i < na
            || i >= na + nb + nc)) && (i < na || i >= na + nb + nc ==> is_delete(r@[i])) && (
        is_create_dir(r@[i]) ==> na <= i < na + nb) && (na <= i < na + nb ==> is_create_dir(
            r@[i],
        ))) by {
            if i < na {
                assert(r@[i] == ra[i]);
            } else if i < na + nb {
                assert(r@[i] == rb[i - na]);
            } else if i < na + nb + nc {
                assert(r@[i] == rc[i - na - nb]);
            } else if i < na + nb + nc + nf {
                assert(r@[i] == rf[i - na - nb - nc]);
            } else {
                assert(r@[i] == rd[i - na - nb - nc - nf]);
            }
        }
        assert forall|i: int, j: int|
            na <= i < j < na + nb + nc && is_create_dir(#[trigger] r@[i]) && is_create_dir(
                #[trigger] r@[j],
            ) implies crate::paths::lex_le(op_path(r@[i]), op_path(r@[j])) by {
            assert(r@[i] == rb[i - na]);
            assert(r@[j] == rb[j - na]);
        }
    }
    r
}

/// View an optional borrowed entry as an optional entry value.
pub open spec fn deref_entry(t: Option<&FileInfo>) -> Option<FileInfo> {
    match t {
        Some(x) => Some(*x),
        None => None,
    }
}

/// Whether two symlink entries point at different targets.
fn symlink_targets_differ(s: &FileInfo, t: &FileInfo) -> (r: bool)
    ensures
        r == symlink_differs(*s, *t),
{
    match (&s.symlink_target, &t.symlink_target) {
        (Some(a), Some(b)) => !crate::paths::str_eq(a.as_str(), b.as_str()),
        (None, None) => false,
        _ => true,
    }
}

/// Emit the operations for one source entry paired with its optional
/// destination counterpart, routing each into the working vector it
/// belongs in.
fn emit_pair(
    repl: &mut Vec<FileOperation>,
    dc: &mut Vec<FileOperation>,
    mid: &mut Vec<FileOperation>,
    s: &FileInfo,
    t: Option<&FileInfo>,
    options: &SyncOptions,
    Ghost(e): Ghost<Seq<FileOperation>>,
)
    requires
        pairing_partition(old(repl)@, old(dc)@, old(mid)@, e),
    ensures
        pairing_partition(
            final(repl)@,
            final(dc)@,
            final(mid)@,
            e + pair_ops(*s, deref_entry(t), options.checksum),
        ),
{
    let ghost emitted = pair_ops(*s, deref_entry(t), options.checksum);
    match t {
        None => {
            if s.is_symlink {
                match &s.symlink_target {
                    Some(tg) => {
                        let op = FileOperation::CreateSymlink {
                            path: s.path.clone(),
                            target: tg.clone(),
                        };
                        proof {
                            assert(e + emitted =~= e.push(op));
                        }
                        route_op(repl, dc, mid, op, Ghost(e));
                    },
                    None => {
                        proof {
                            assert(e + emitted =~= e);
                        }
                    },
                }
            } else if s.is_directory {
                let op = FileOperation::CreateDirectory { path: s.path.clone() };
                proof {
                    assert(e + emitted =~= e.push(op));
                }
                route_op(repl, dc, mid, op, Ghost(e));
            } else {
                let op = FileOperation::Create { path: s.path.clone() };
                proof {
                    assert(e + emitted =~= e.push(op));
                }
                route_op(repl, dc, mid, op, Ghost(e));
            }
        },
        Some(t) => {
            if s.is_symlink && t.is_symlink {
                if symlink_targets_differ(s, t) {
                    match &s.symlink_target {
                        Some(tg) => {
                            let op = FileOperation::UpdateSymlink {
                                path: s.path.clone(),
                                target: tg.clone(),
                            };
                            proof {
                                assert(e + emitted =~= e.push(op));
                            }
                            route_op(repl, dc, mid, op, Ghost(e));
                        },
                        None => {
                            proof {
                                assert(e + emitted =~= e);
                            }
                        },
                    }
                } else {
                    proof {
                        assert(e + emitted =~= e);
                    }
                }
            } else if s.is_symlink && !t.is_symlink {
                let del = FileOperation::Delete { path: t.path.clone() };
                match &s.symlink_target {
                    Some(tg) => {
                        let op2 = FileOperation::CreateSymlink {
                            path: s.path.clone(),
                            target: tg.clone(),
                        };
                        proof {
                            assert(e + emitted =~= e.push(del).push(op2));
                        }
                        let ghost e1 = e.push(del);
                        route_op(repl, dc, mid, del, Ghost(e));
                        route_op(repl, dc, mid, op2, Ghost(e1));
                    },
                    None => {
                        proof {
                            assert(e + emitted =~= e.push(del));
                        }
                        route_op(repl, dc, mid, del, Ghost(e));
                    },
                }
            } else if !s.is_symlink && t.is_symlink {
                let del = FileOperation::Delete { path: t.path.clone() };
                let ghost e1 = e.push(del);
                if s.is_directory {
                    let op2 = FileOperation::CreateDirectory { path: s.path.clone() };
                    proof {
                        assert(e + emitted =~= e.push(del).push(op2));
                    }
                    route_op(repl, dc, mid, del, Ghost(e));
                    route_op(repl, dc, mid, op2, Ghost(e1));
                } else {
                    let op2 = FileOperation::Create { path: s.path.clone() };
                    proof {
                        assert(e + emitted =~= e.push(del).push(op2));
                    }
                    route_op(repl, dc, mid, del, Ghost(e));
                    route_op(repl, dc, mid, op2, Ghost(e1));
                }
            } else if s.is_directory && t.is_directory {
                proof {
                    assert(e + emitted =~= e);
                }
            } else if s.is_directory && !t.is_directory {
                let del = FileOperation::Delete { path: t.path.clone() };
                let op2 = FileOperation::CreateDirectory { path: s.path.clone() };
                proof {
                    assert(e + emitted =~= e.push(del).push(op2));
                }
                let ghost e1 = e.push(del);
                route_op(repl, dc, mid, del, Ghost(e));
                route_op(repl, dc, mid, op2, Ghost(e1));
            } else if !s.is_directory && t.is_directory {
                let del = FileOperation::Delete { path: t.path.clone() };
                let op2 = FileOperation::Create { path: s.path.clone() };
                proof {
                    assert(e + emitted =~= e.push(del).push(op2));
                }
                let ghost e1 = e.push(del);
                route_op(repl, dc, mid, del, Ghost(e));
                route_op(repl, dc, mid, op2, Ghost(e1));
            } else {
                if needs_update(s, t, options) {
                    let op = FileOperation::Update {
                        path: s.path.clone(),
                        use_delta: should_use_delta(s, t),
                    };
                    proof {
                        assert(e + emitted =~= e.push(op));
                    }
                    route_op(repl, dc, mid, op, Ghost(e));
                } else {
                    proof {
                        assert(e + emitted =~= e);
                    }
                }
            }
        },
    }
}

/// Compare two file lists, pairing entries by their full paths, and
/// return the ordered plan.  The plan is exactly the pairing table's
/// operations — replacement removals first, then directory creations
/// (parents before children), then the remaining creations and
/// updates — followed, only when purge or mirror mode is set, by a
/// deletion for every destination-only entry: files in destination
/// order, directories deepest first.
pub fn compare_file_lists_with_options(
    source: &Vec<FileInfo>,
    target: &Vec<FileInfo>,
    options: &SyncOptions,
) -> (r: Vec<FileOperation>)
    ensures
        ({
            let ops = source_ops(source@, target@, options.checksum);
            let exf = if options.purge || options.mirror {
                extra_file_deletes(source@, target@)
            } else {
                Seq::<FileOperation>::empty()
            };
            let exd = if options.purge || options.mirror {
                extra_dir_deletes(source@, target@)
            } else {
                Seq::<FileOperation>::empty()
            };
            let na = ops.filter(delete_pred()).len() as int;
            let nb = ops.filter(create_dir_pred()).len() as int;
            let nc = ops.filter(middle_pred()).len() as int;
            &&& r@.len() == na + nb + nc + exf.len() + exd.len()
            &&& r@.subrange(0, na) == ops.filter(delete_pred())
            &&& r@.subrange(na, na + nb).to_multiset() == ops.filter(
                create_dir_pred(),
            ).to_multiset()
            &&& sorted_by_path(r@.subrange(na, na + nb))
            &&& r@.subrange(na + nb, na + nb + nc) == ops.filter(middle_pred())
            &&& r@.subrange(na + nb + nc, na + nb + nc + exf.len()) == exf
            &&& r@.subrange(na + nb + nc + exf.len(), r@.len() as int).to_multiset()
                == exd.to_multiset()
            &&& sorted_by_depth_desc(r@.subrange(na + nb + nc + exf.len(), r@.len() as int))
            &&& plan_phase_ordered(r@, na, na + nb + nc)
        }),
{
    let mut repl: Vec<FileOperation> = Vec::new();
    let mut dc: Vec<FileOperation> = Vec::new();
    let mut mid: Vec<FileOperation> = Vec::new();
    let ghost mut e = Seq::<FileOperation>::empty();
    proof {
        reveal(Seq::filter);
        assert(e.filter(delete_pred()) =~= repl@);
        assert(e.filter(create_dir_pred()) =~= dc@);
        assert(e.filter(middle_pred()) =~= mid@);
        assert(source@.take(0) =~= Seq::<FileInfo>::empty());
    }
    let mut i: usize = 0;
    while i < source.len()
        invariant
            pairing_partition(repl@, dc@, mid@, e),
            e == source_ops(source@.take(i as int), target@, options.checksum),
            i <= source@.len(),
        decreases source@.len() - i,
    {
        let s = &source[i];
        let found = find_entry_index(target, &s.path);
        let ghost tspec = find_entry(target@, source@[i as int].path@);
        match found {
            Some(ti) => {
                emit_pair(&mut repl, &mut dc, &mut mid, s, Some(&target[ti]), options, Ghost(e));
            },
            None => {
                emit_pair(&mut repl, &mut dc, &mut mid, s, None, options, Ghost(e));
            },
        }
        proof {
            e = e + pair_ops(source@[i as int], tspec, options.checksum);
            lemma_source_ops_snoc(
                source@.take(i as int),
                source@[i as int],
                target@,
                options.checksum,
            );
            assert(source@.take(i + 1) =~= source@.take(i as int).push(source@[i as int]));
        }
        i += 1;
    }
    proof {
        assert(source@.take(source@.len() as int) =~= source@);
    }
    let mut fd: Vec<FileOperation> = Vec::new();
    let mut dd: Vec<FileOperation> = Vec::new();
    let ghost fp = extra_file_pred(source@);
    let ghost dp = extra_dir_pred(source@);
    if options.purge || options.mirror {
        proof {
            reveal(Seq::filter);
            assert(target@.take(0) =~= Seq::<FileInfo>::empty());
            assert(fd@ =~= target@.take(0).filter(fp).map_values(delete_of()));
            assert(dd@ =~= target@.take(0).filter(dp).map_values(delete_of()));
        }
        let mut j: usize = 0;
        while j < target.len()
            invariant
                fp == extra_file_pred(source@),
                dp == extra_dir_pred(source@),
                j <= target@.len(),
                fd@ == target@.take(j as int).filter(fp).map_values(delete_of()),
                dd@ == target@.take(j as int).filter(dp).map_values(delete_of()),
            decreases target@.len() - j,
        {
            let t = &target[j];
            let found = find_entry_index(source, &t.path);
            proof {
                lemma_filter_snoc_info(target@.take(j as int), target@[j as int], fp);
                lemma_filter_snoc_info(target@.take(j as int), target@[j as int], dp);
                assert(target@.take(j + 1) =~= target@.take(j as int).push(target@[j as int]));
            }
            match found {
                None => {
                    let op = FileOperation::Delete { path: t.path.clone() };
                    let ghost opg = op;
                    proof {
                        assert(opg == delete_of()(target@[j as int]));
                    }
                    if t.is_directory {
                        dd.push(op);
                        proof {
                            assert(dd@ =~= target@.take(j + 1).filter(dp).map_values(
                                delete_of(),
                            ));
                            assert(fd@ =~= target@.take(j + 1).filter(fp).map_values(
                                delete_of(),
                            ));
                        }
                    } else {
                        fd.push(op);
                        proof {
                            assert(fd@ =~= target@.take(j + 1).filter(fp).map_values(
                                delete_of(),
                            ));
                            assert(dd@ =~= target@.take(j + 1).filter(dp).map_values(
                                delete_of(),
                            ));
                        }
                    }
                },
                Some(_) => {
                    proof {
                        assert(fd@ =~= target@.take(j + 1).filter(fp).map_values(delete_of()));
                        assert(dd@ =~= target@.take(j + 1).filter(dp).map_values(delete_of()));
                    }
                },
            }
            j += 1;
        }
        proof {
            assert(target@.take(target@.len() as int) =~= target@);
        }
    }
    proof {
        broadcast use vstd::seq_lib::group_filter_ensures;

        assert forall|k: int| 0 <= k < repl@.len() implies is_delete(#[trigger] repl@[k]) by {
            assert(delete_pred()(e.filter(delete_pred())[k]));
        }
        assert forall|k: int| 0 <= k < dc@.len() implies is_create_dir(#[trigger] dc@[k]) by {
            assert(create_dir_pred()(e.filter(create_dir_pred())[k]));
        }
        assert forall|k: int| 0 <= k < mid@.len() implies is_middle(#[trigger] mid@[k]) by {
            assert(middle_pred()(e.filter(middle_pred())[k]));
        }
        assert forall|k: int| 0 <= k < fd@.len() implies is_delete(#[trigger] fd@[k]) by {
            assert(fd@[k] == delete_of()(target@.filter(fp)[k]));
        }
        assert forall|k: int| 0 <= k < dd@.len() implies is_delete(#[trigger] dd@[k]) by {
            assert(dd@[k] == delete_of()(target@.filter(dp)[k]));
        }
    }
    assemble_plan(repl, dc, mid, fd, dd)
}

/// Compare two file lists with the default options: no checksum
/// comparison, no purge, so destination-only entries are left alone.
pub fn compare_file_lists(source: &Vec<FileInfo>, target: &Vec<FileInfo>) -> (r: Vec<
    FileOperation,
>)
    ensures
        ({
            let ops = source_ops(source@, target@, false);
            let na = ops.filter(delete_pred()).len() as int;
            let nb = ops.filter(create_dir_pred()).len() as int;
            let nc = ops.filter(middle_pred()).len() as int;
            &&& r@.len() == na + nb + nc
            &&& r@.subrange(0, na) == ops.filter(delete_pred())
            &&& r@.subrange(na, na + nb).to_multiset() == ops.filter(
                create_dir_pred(),
            ).to_multiset()
            &&& sorted_by_path(r@.subrange(na, na + nb))
            &&& r@.subrange(na + nb, na + nb + nc) == ops.filter(middle_pred())
            &&& plan_phase_ordered(r@, na, r@.len() as int)
        }),
{
    let default_options = SyncOptions::default();
    let r = compare_file_lists_with_options(source, target, &default_options);
    proof {
        let ops = source_ops(source@, target@, false);
        let na = ops.filter(delete_pred()).len() as int;
        let nb = ops.filter(create_dir_pred()).len() as int;
        let nc = ops.filter(middle_pred()).len() as int;
        assert(r@.subrange(na + nb + nc, na + nb + nc + 0) =~= Seq::<FileOperation>::empty());
    }
    r
}

/// An entry's path resolves to the given path relative to `root`.
pub open spec fn entry_has_rel(f: FileInfo, root: Seq<char>, rel: Seq<char>) -> bool {
    crate::paths::rel_of(f.path@, root) == Some(rel)
}

/// First destination entry whose path is `rel` relative to `droot`.
pub open spec fn find_entry_rel(dst: Seq<FileInfo>, droot: Seq<char>, rel: Seq<char>) -> Option<
    FileInfo,
>
    decreases dst.len(),
{
    if dst.len() == 0 {
        None
    } else if entry_has_rel(dst[0], droot, rel) {
        Some(dst[0])
    } else {
        find_entry_rel(dst.skip(1), droot, rel)
    }
}

/// Some source entry resolves to the given relative path.
pub open spec fn source_has_rel(src: Seq<FileInfo>, sroot: Seq<char>, rel: Seq<char>) -> bool {
    exists|k: int| 0 <= k < src.len() && entry_has_rel(#[trigger] src[k], sroot, rel)
}

/// Operations emitted by pairing source and destination entries by
/// their root-relative paths; source entries outside the source root
/// are skipped.
pub open spec fn source_ops_roots(
    src: Seq<FileInfo>,
    dst: Seq<FileInfo>,
    sroot: Seq<char>,
    droot: Seq<char>,
    checksum: bool,
) -> Seq<FileOperation>
    decreases src.len(),
{
    if src.len() == 0 {
        Seq::empty()
    } else {
        (match crate::paths::rel_of(src[0].path@, sroot) {
            None => Seq::<FileOperation>::empty(),
            Some(rel) => pair_ops(src[0], find_entry_rel(dst, droot, rel), checksum),
        }) + source_ops_roots(src.skip(1), dst, sroot, droot, checksum)
    }
}

/// Searching an unmatched prefix does not change the result.
proof fn lemma_find_entry_rel_prefix(dst: Seq<FileInfo>, droot: Seq<char>, rel: Seq<char>, i: int)
    requires
        0 <= i <= dst.len(),
        forall|j: int| 0 <= j < i ==> !entry_has_rel(#[trigger] dst[j], droot, rel),
    ensures
        find_entry_rel(dst, droot, rel) == find_entry_rel(dst.skip(i), droot, rel),
    decreases i,
{
    if i > 0 {
        lemma_find_entry_rel_prefix(dst.skip(1), droot, rel, i - 1);
        assert(dst.skip(1).skip(i - 1) =~= dst.skip(i));
    } else {
        assert(dst.skip(0) =~= dst);
    }
}

/// Index of the first entry with the given relative path.
fn find_rel_index(list: &Vec<FileInfo>, root: &str, rel: &String) -> (r: Option<usize>)
    ensures
        match r {
            Some(i) => i < list@.len() && find_entry_rel(list@, root@, rel@) == Some(
                list@[i as int],
            ),
            None => find_entry_rel(list@, root@, rel@) is None,
        },
{
    let mut i: usize = 0;
    while i < list.len()
        invariant
            i <= list@.len(),
            forall|j: int| 0 <= j < i ==> !entry_has_rel(#[trigger] list@[j], root@, rel@),
        decreases list@.len() - i,
    {
        let matched = match crate::paths::strip_prefix(list[i].path.as_str(), root) {
            Some(rp) => crate::paths::str_eq(rp.as_str(), rel.as_str()),
            None => false,
        };
        if matched {
            proof {
                lemma_find_entry_rel_prefix(list@, root@, rel@, i as int);
                assert(list@.skip(i as int)[0] == list@[i as int]);
            }
            return Some(i);
        }
        i += 1;
    }
    proof {
        lemma_find_entry_rel_prefix(list@, root@, rel@, list@.len() as int);
        assert(list@.skip(list@.len() as int) =~= Seq::<FileInfo>::empty());
    }
    None
}

/// Whether some source entry resolves to the given relative path.
pub(crate) fn has_rel(src: &Vec<FileInfo>, root: &str, rel: &String) -> (r: bool)
    ensures
        r == source_has_rel(src@, root@, rel@),
{
    let mut i: usize = 0;
    while i < src.len()
        invariant
            i <= src@.len(),
            forall|j: int| 0 <= j < i ==> !entry_has_rel(#[trigger] src@[j], root@, rel@),
        decreases src@.len() - i,
    {
        let matched = match crate::paths::strip_prefix(src[i].path.as_str(), root) {
            Some(rp) => crate::paths::str_eq(rp.as_str(), rel.as_str()),
            None => false,
        };
        if matched {
            proof {
                assert(entry_has_rel(src@[i as int], root@, rel@));
            }
            return true;
        }
        i += 1;
    }
    false
}

/// Extending the source list by one entry appends that entry's pair
/// operations (or nothing, outside the root).
proof fn lemma_source_ops_roots_snoc(
    src: Seq<FileInfo>,
    x: FileInfo,
    dst: Seq<FileInfo>,
    sroot: Seq<char>,
    droot: Seq<char>,
    checksum: bool,
)
    ensures
        source_ops_roots(src.push(x), dst, sroot, droot, checksum) == source_ops_roots(
            src,
            dst,
            sroot,
            droot,
            checksum,
        ) + (match crate::paths::rel_of(x.path@, sroot) {
            None => Seq::<FileOperation>::empty(),
            Some(rel) => pair_ops(x, find_entry_rel(dst, droot, rel), checksum),
        }),
    decreases src.len(),
{
    let cx: Seq<FileOperation> = match crate::paths::rel_of(x.path@, sroot) {
        None => Seq::<FileOperation>::empty(),
        Some(rel) => pair_ops(x, find_entry_rel(dst, droot, rel), checksum),
    };
    if src.len() == 0 {
        assert(src.push(x)[0] == x);
        assert(src.push(x).skip(1) =~= Seq::<FileInfo>::empty());
        assert(source_ops_roots(src.push(x), dst, sroot, droot, checksum) == cx
            + source_ops_roots(src.push(x).skip(1), dst, sroot, droot, checksum));
        assert(source_ops_roots(src.push(x).skip(1), dst, sroot, droot, checksum)
            == Seq::<FileOperation>::empty());
        assert(source_ops_roots(src, dst, sroot, droot, checksum)
            == Seq::<FileOperation>::empty());
        assert(source_ops_roots(src.push(x), dst, sroot, droot, checksum) =~= source_ops_roots(
            src,
            dst,
            sroot,
            droot,
            checksum,
        ) + cx);
    } else {
        let c0: Seq<FileOperation> = match crate::paths::rel_of(src[0].path@, sroot) {
            None => Seq::<FileOperation>::empty(),
            Some(rel) => pair_ops(src[0], find_entry_rel(dst, droot, rel), checksum),
        };
        assert(src.push(x)[0] == src[0]);
        assert(src.push(x).skip(1) =~= src.skip(1).push(x));
        lemma_source_ops_roots_snoc(src.skip(1), x, dst, sroot, droot, checksum);
        assert(source_ops_roots(src.push(x), dst, sroot, droot, checksum) == c0
            + source_ops_roots(src.skip(1).push(x), dst, sroot, droot, checksum));
        assert(source_ops_roots(src, dst, sroot, droot, checksum) == c0 + source_ops_roots(
            src.skip(1),
            dst,
            sroot,
            droot,
            checksum,
        ));
        assert(c0 + (source_ops_roots(src.skip(1), dst, sroot, droot, checksum) + cx) =~= (c0
            + source_ops_roots(src.skip(1), dst, sroot, droot, checksum)) + cx);
    }
}

/// Compare two file lists, pairing entries by their paths relative to
/// the given roots, and return the ordered plan: replacement removals
/// first, then directory creations (parents before children), then
/// the remaining creations and updates.  Deletions of
/// destination-only entries are not emitted here at all: they belong
/// to the purge pass, which runs only in purge or mirror mode.
pub fn compare_file_lists_with_roots(
    source: &Vec<FileInfo>,
    target: &Vec<FileInfo>,
    source_root: &str,
    dest_root: &str,
    options: &SyncOptions,
) -> (r: Vec<FileOperation>)
    ensures
        ({
            let ops = source_ops_roots(
                source@,
                target@,
                source_root@,
                dest_root@,
                options.checksum,
            );
            let na = ops.filter(delete_pred()).len() as int;
            let nb = ops.filter(create_dir_pred()).len() as int;
            let nc = ops.filter(middle_pred()).len() as int;
            &&& r@.len() == na + nb + nc
            &&& r@.subrange(0, na) == ops.filter(delete_pred())
            &&& r@.subrange(na, na + nb).to_multiset() == ops.filter(
                create_dir_pred(),
            ).to_multiset()
            &&& sorted_by_path(r@.subrange(na, na + nb))
            &&& r@.subrange(na + nb, na + nb + nc) == ops.filter(middle_pred())
            &&& plan_phase_ordered(r@, na, r@.len() as int)
        }),
{
    let mut repl: Vec<FileOperation> = Vec::new();
    let mut dc: Vec<FileOperation> = Vec::new();
    let mut mid: Vec<FileOperation> = Vec::new();
    let ghost mut e = Seq::<FileOperation>::empty();
    proof {
        reveal(Seq::filter);
        assert(e.filter(delete_pred()) =~= repl@);
        assert(e.filter(create_dir_pred()) =~= dc@);
        assert(e.filter(middle_pred()) =~= mid@);
        assert(source@.take(0) =~= Seq::<FileInfo>::empty());
    }
    let mut i: usize = 0;
    while i < source.len()
        invariant
            pairing_partition(repl@, dc@, mid@, e),
            e == source_ops_roots(
                source@.take(i as int),
                target@,
                source_root@,
                dest_root@,
                options.checksum,
            ),
            i <= source@.len(),
        decreases source@.len() - i,
    {
        let s = &source[i];
        let ghost step: Seq<FileOperation> = match crate::paths::rel_of(
            source@[i as int].path@,
            source_root@,
        ) {
            None => Seq::<FileOperation>::empty(),
            Some(rel) => pair_ops(
                source@[i as int],
                find_entry_rel(target@, dest_root@, rel),
                options.checksum,
            ),
        };
        match crate::paths::strip_prefix(s.path.as_str(), source_root) {
            None => {
                proof {
                    assert(e + step =~= e);
                }
            },
            Some(rel) => {
                let found = find_rel_index(target, dest_root, &rel);
                match found {
                    Some(ti) => {
                        emit_pair(
                            &mut repl,
                            &mut dc,
                            &mut mid,
                            s,
                            Some(&target[ti]),
                            options,
                            Ghost(e),
                        );
                    },
                    None => {
                        emit_pair(&mut repl, &mut dc, &mut mid, s, None, options, Ghost(e));
                    },
                }
            },
        }
        proof {
            e = e + step;
            lemma_source_ops_roots_snoc(
                source@.take(i as int),
                source@[i as int],
                target@,
                source_root@,
                dest_root@,
                options.checksum,
            );
            assert(source@.take(i + 1) =~= source@.take(i as int).push(source@[i as int]));
        }
        i += 1;
    }
    proof {
        broadcast use vstd::seq_lib::group_filter_ensures;

        assert(source@.take(source@.len() as int) =~= source@);
        assert forall|k: int| 0 <= k < repl@.len() implies is_delete(#[trigger] repl@[k]) by {
            assert(delete_pred()(e.filter(delete_pred())[k]));
        }
        assert forall|k: int| 0 <= k < dc@.len() implies is_create_dir(#[trigger] dc@[k]) by {
            assert(create_dir_pred()(e.filter(create_dir_pred())[k]));
        }
        assert forall|k: int| 0 <= k < mid@.len() implies is_middle(#[trigger] mid@[k]) by {
            assert(middle_pred()(e.filter(middle_pred())[k]));
        }
    }
    let fd: Vec<FileOperation> = Vec::new();
    let dd: Vec<FileOperation> = Vec::new();
    let r = assemble_plan(repl, dc, mid, fd, dd);
    proof {
        let ops = source_ops_roots(source@, target@, source_root@, dest_root@, options.checksum);
        let na = ops.filter(delete_pred()).len() as int;
        let nb = ops.filter(create_dir_pred()).len() as int;
        let nc = ops.filter(middle_pred()).len() as int;
        assert(r@.subrange(na + nb + nc, na + nb + nc + 0) =~= Seq::<FileOperation>::empty());
    }
    r
}

/// Pairing an entry with an identical counterpart emits nothing.
proof fn lemma_pair_ops_self(x: FileInfo, checksum: bool)
    ensures
        pair_ops(x, Some(x), checksum) == Seq::<FileOperation>::empty(),
{
    assert(pair_ops(x, Some(x), checksum) =~= Seq::<FileOperation>::empty());
}

/// When every entry of `l` finds itself in `full`, the pairing pass
/// emits nothing.
proof fn lemma_source_ops_all_matched(l: Seq<FileInfo>, full: Seq<FileInfo>, checksum: bool)
    requires
        forall|i: int| 0 <= i < l.len() ==> find_entry(full, (#[trigger] l[i]).path@) == Some(l[i]),
    ensures
        source_ops(l, full, checksum) == Seq::<FileOperation>::empty(),
    decreases l.len(),
{
    if l.len() > 0 {
        lemma_pair_ops_self(l[0], checksum);
        assert forall|i: int| 0 <= i < l.skip(1).len() implies find_entry(
            full,
            (#[trigger] l.skip(1)[i]).path@,
        ) == Some(l.skip(1)[i]) by {
            assert(l.skip(1)[i] == l[i + 1]);
        }
        lemma_source_ops_all_matched(l.skip(1), full, checksum);
        assert(source_ops(l, full, checksum) =~= Seq::<FileOperation>::empty());
    }
}

/// When every entry of `d` has a counterpart in `full`, there are no
/// destination-only entries to delete.
proof fn lemma_extras_all_matched(full: Seq<FileInfo>, d: Seq<FileInfo>)
    requires
        forall|i: int| 0 <= i < d.len() ==> find_entry(full, (#[trigger] d[i]).path@) is Some,
    ensures
        extra_file_deletes(full, d) == Seq::<FileOperation>::empty(),
        extra_dir_deletes(full, d) == Seq::<FileOperation>::empty(),
{
    let fp = extra_file_pred(full);
    let dp = extra_dir_pred(full);
    assert(d.all(|x: FileInfo| !fp(x)));
    assert(d.all(|x: FileInfo| !dp(x)));
    d.lemma_all_neg_filter_empty(fp);
    d.lemma_all_neg_filter_empty(dp);
    assert(extra_file_deletes(full, d) =~= Seq::<FileOperation>::empty());
    assert(extra_dir_deletes(full, d) =~= Seq::<FileOperation>::empty());
}

/// Idempotence: diffing a list of entries (with distinct paths, as a
/// tree scan yields) against an identical copy of itself emits no
/// operations at all, whether or not checksum comparison is on.  A
/// second synchronizer run over the result of a successful first run
/// therefore has an empty plan.
pub proof fn lemma_identical_lists_no_ops(l: Seq<FileInfo>, checksum: bool)
    requires
        forall|i: int, j: int|
            #![trigger l[i], l[j]]
            0 <= i < j < l.len() ==> l[i].path@ != l[j].path@,
    ensures
        source_ops(l, l, checksum) == Seq::<FileOperation>::empty(),
        extra_file_deletes(l, l) == Seq::<FileOperation>::empty(),
        extra_dir_deletes(l, l) == Seq::<FileOperation>::empty(),
{
    assert forall|k: int| 0 <= k < l.len() implies find_entry(l, (#[trigger] l[k]).path@) == Some(
        l[k],
    ) by {
        lemma_find_entry_prefix(l, l[k].path@, k);
        assert(l.skip(k)[0] == l[k]);
    }
    lemma_source_ops_all_matched(l, l, checksum);
    lemma_extras_all_matched(l, l);
}

/// Completeness of creation: every source entry without a destination
/// counterpart (and able to be created: a symlink entry must carry
/// its target) contributes its creation operation to the plan.
pub proof fn lemma_plan_creates_missing(
    src: Seq<FileInfo>,
    dst: Seq<FileInfo>,
    checksum: bool,
    i: int,
)
    requires
        0 <= i < src.len(),
        find_entry(dst, src[i].path@) is None,
        !(src[i].is_symlink && src[i].symlink_target is None),
    ensures
        source_ops(src, dst, checksum).contains(pair_ops(src[i], None, checksum)[0]),
    decreases i,
{
    let op = pair_ops(src[i], None, checksum)[0];
    let h = pair_ops(src[0], find_entry(dst, src[0].path@), checksum);
    let rest = source_ops(src.skip(1), dst, checksum);
    assert(source_ops(src, dst, checksum) == h + rest);
    if i == 0 {
        assert(pair_ops(src[0], None, checksum).len() > 0);
        assert((h + rest)[0] == op);
        assert(source_ops(src, dst, checksum).contains(op));
    } else {
        assert(src.skip(1)[i - 1] == src[i]);
        lemma_plan_creates_missing(src.skip(1), dst, checksum, i - 1);
        let k = choose|k: int| 0 <= k < rest.len() && rest[k] == op;
        assert((h + rest)[h.len() + k] == op);
        assert(source_ops(src, dst, checksum).contains(op));
    }
}

/// Completeness of deletion: in purge mode, every destination entry
/// without a source counterpart contributes a delete of its path.
pub proof fn lemma_plan_deletes_extra(src: Seq<FileInfo>, dst: Seq<FileInfo>, j: int)
    requires
        0 <= j < dst.len(),
        find_entry(src, dst[j].path@) is None,
    ensures
        (extra_file_deletes(src, dst) + extra_dir_deletes(src, dst)).contains(
            FileOperation::Delete { path: dst[j].path },
        ),
{
    broadcast use vstd::seq_lib::group_filter_ensures;

    let op = FileOperation::Delete { path: dst[j].path };
    let files = extra_file_deletes(src, dst);
    let dirs = extra_dir_deletes(src, dst);
    if dst[j].is_directory {
        let dp = extra_dir_pred(src);
        assert(dp(dst[j]));
        assert(dst.filter(dp).contains(dst[j]));
        let k = choose|k: int| 0 <= k < dst.filter(dp).len() && dst.filter(dp)[k] == dst[j];
        assert(dirs[k] == delete_of()(dst.filter(dp)[k]));
        assert((files + dirs)[files.len() + k] == op);
    } else {
        let fp = extra_file_pred(src);
        assert(fp(dst[j]));
        assert(dst.filter(fp).contains(dst[j]));
        let k = choose|k: int| 0 <= k < dst.filter(fp).len() && dst.filter(fp)[k] == dst[j];
        assert(files[k] == delete_of()(dst.filter(fp)[k]));
        assert((files + dirs)[k] == op);
    }
}

/// Filtering an entry list extended by one entry.
pub(crate) proof fn lemma_filter_snoc_info(e: Seq<FileInfo>, x: FileInfo, pred: spec_fn(FileInfo) -> bool)
    ensures
        e.push(x).filter(pred) == (if pred(x) {
            e.filter(pred).push(x)
        } else {
            e.filter(pred)
        }),
{
    reveal(Seq::filter);
    assert(e.push(x).drop_last() =~= e);
    assert(e.push(x).last() == x);
}

/// Two entries describe the same filesystem object: same kind, size,
/// modification time, symlink target and content hash.
pub open spec fn same_entry_content(s: FileInfo, t: FileInfo) -> bool {
    &&& s.is_directory == t.is_directory
    &&& s.is_symlink == t.is_symlink
    &&& s.size == t.size
    &&& s.modified == t.modified
    &&& (match (s.symlink_target, t.symlink_target) {
        (Some(a), Some(b)) => a@ == b@,
        (None, None) => true,
        _ => false,
    })
    &&& (match (s.checksum, t.checksum) {
        (Some(a), Some(b)) => a@ == b@,
        (None, None) => true,
        _ => false,
    })
}

/// Pairing an entry with a counterpart of identical content emits
/// nothing.
proof fn lemma_pair_ops_same(s: FileInfo, t: FileInfo, checksum: bool)
    requires
        same_entry_content(s, t),
    ensures
        pair_ops(s, Some(t), checksum) == Seq::<FileOperation>::empty(),
{
    assert(pair_ops(s, Some(t), checksum) =~= Seq::<FileOperation>::empty());
}

/// When every source entry under the root finds a counterpart of
/// identical content at its relative path, the pairing pass emits
/// nothing.
proof fn lemma_source_ops_roots_matched(
    l: Seq<FileInfo>,
    dst: Seq<FileInfo>,
    sroot: Seq<char>,
    droot: Seq<char>,
    checksum: bool,
)
    requires
        forall|i: int|
            0 <= i < l.len() ==> (crate::paths::rel_of((#[trigger] l[i]).path@, sroot) is Some
                ==> find_entry_rel(dst, droot, crate::paths::rel_of(l[i].path@, sroot)->0)
                is Some && same_entry_content(
                l[i],
                find_entry_rel(dst, droot, crate::paths::rel_of(l[i].path@, sroot)->0)->0,
            )),
    ensures
        source_ops_roots(l, dst, sroot, droot, checksum) == Seq::<FileOperation>::empty(),
    decreases l.len(),
{
    if l.len() > 0 {
        match crate::paths::rel_of(l[0].path@, sroot) {
            None => {},
            Some(rel) => {
                lemma_pair_ops_same(l[0], find_entry_rel(dst, droot, rel)->0, checksum);
            },
        }
        assert forall|i: int|
            0 <= i < l.skip(1).len() implies (crate::paths::rel_of(
            (#[trigger] l.skip(1)[i]).path@,
            sroot,
        ) is Some ==> find_entry_rel(
            dst,
            droot,
            crate::paths::rel_of(l.skip(1)[i].path@, sroot)->0,
        ) is Some && same_entry_content(
            l.skip(1)[i],
            find_entry_rel(dst, droot, crate::paths::rel_of(l.skip(1)[i].path@, sroot)->0)->0,
        )) by {
            assert(l.skip(1)[i] == l[i + 1]);
        }
        lemma_source_ops_roots_matched(l.skip(1), dst, sroot, droot, checksum);
        assert(source_ops_roots(l, dst, sroot, droot, checksum)
            =~= Seq::<FileOperation>::empty());
    }
}

/// Idempotence of the root-relative pairing: when the two trees
/// mirror each other — every source entry under its root finds a
/// destination counterpart of identical content at the same relative
/// path — the pairing pass emits no operations at all, whether or
/// not checksum comparison is on; and when every destination entry
/// under its root has a source counterpart, the purge pass finds
/// nothing to delete either (`lemma_mirrored_trees_no_purge`).
/// After a successful run the trees mirror each other, so a second
/// run has an empty plan.
pub proof fn lemma_mirrored_trees_no_ops(
    src: Seq<FileInfo>,
    dst: Seq<FileInfo>,
    sroot: Seq<char>,
    droot: Seq<char>,
    checksum: bool,
)
    requires
        forall|i: int|
            0 <= i < src.len() ==> (crate::paths::rel_of((#[trigger] src[i]).path@, sroot)
                is Some ==> find_entry_rel(
                dst,
                droot,
                crate::paths::rel_of(src[i].path@, sroot)->0,
            ) is Some && same_entry_content(
                src[i],
                find_entry_rel(dst, droot, crate::paths::rel_of(src[i].path@, sroot)->0)->0,
            )),
    ensures
        source_ops_roots(src, dst, sroot, droot, checksum) == Seq::<FileOperation>::empty(),
{
    lemma_source_ops_roots_matched(src, dst, sroot, droot, checksum);
}

/// Completeness of creation, root-relative: every source entry that
/// resolves under the source root, has no destination counterpart at
/// its relative path, and can be created (a symlink entry must carry
/// its target) contributes its creation operation to the pairing
/// pass.
pub proof fn lemma_roots_plan_creates_missing(
    src: Seq<FileInfo>,
    dst: Seq<FileInfo>,
    sroot: Seq<char>,
    droot: Seq<char>,
    checksum: bool,
    i: int,
)
    requires
        0 <= i < src.len(),
        crate::paths::rel_of(src[i].path@, sroot) is Some,
        find_entry_rel(dst, droot, crate::paths::rel_of(src[i].path@, sroot)->0) is None,
        !(src[i].is_symlink && src[i].symlink_target is None),
    ensures
        source_ops_roots(src, dst, sroot, droot, checksum).contains(
            pair_ops(src[i], None, checksum)[0],
        ),
    decreases i,
{
    let op = pair_ops(src[i], None, checksum)[0];
    let h: Seq<FileOperation> = match crate::paths::rel_of(src[0].path@, sroot) {
        None => Seq::<FileOperation>::empty(),
        Some(rel) => pair_ops(src[0], find_entry_rel(dst, droot, rel), checksum),
    };
    let rest = source_ops_roots(src.skip(1), dst, sroot, droot, checksum);
    assert(source_ops_roots(src, dst, sroot, droot, checksum) == h + rest);
    if i == 0 {
        assert(pair_ops(src[0], None, checksum).len() > 0);
        assert((h + rest)[0] == op);
        assert(source_ops_roots(src, dst, sroot, droot, checksum).contains(op));
    } else {
        assert(src.skip(1)[i - 1] == src[i]);
        lemma_roots_plan_creates_missing(src.skip(1), dst, sroot, droot, checksum, i - 1);
        let k = choose|k: int| 0 <= k < rest.len() && rest[k] == op;
        assert((h + rest)[h.len() + k] == op);
        assert(source_ops_roots(src, dst, sroot, droot, checksum).contains(op));
    }
}

/// The filter as a predicate on entries, for a fixed root and options.
pub open spec fn included_pred(root: Seq<char>, opts: SyncOptions) -> spec_fn(FileInfo) -> bool {
    |e: FileInfo| spec_included(e, root, opts)
}

/// Filter monotonicity over a whole scan: with one more file-exclude
/// pattern, every entry the filter keeps was already kept without it,
/// so the list handed to the differ only shrinks.
pub proof fn lemma_filtered_list_monotone_files(
    entries: Seq<FileInfo>,
    root: Seq<char>,
    opts: SyncOptions,
    opts2: SyncOptions,
    p: String,
)
    requires
        opts2.exclude_files@ == opts.exclude_files@.push(p),
        opts2.exclude_dirs@ == opts.exclude_dirs@,
        opts2.min_size == opts.min_size,
        opts2.max_size == opts.max_size,
    ensures
        forall|x: FileInfo|
            #[trigger] entries.filter(included_pred(root, opts2)).contains(x)
                ==> entries.filter(included_pred(root, opts)).contains(x),
{
    broadcast use vstd::seq_lib::group_filter_ensures;

    let f2 = included_pred(root, opts2);
    let f1 = included_pred(root, opts);
    assert forall|x: FileInfo| #[trigger]
        entries.filter(f2).contains(x) implies entries.filter(f1).contains(x) by {
        let k = choose|k: int| 0 <= k < entries.filter(f2).len() && entries.filter(f2)[k] == x;
        assert(f2(entries.filter(f2)[k]));
        lemma_exclude_files_monotone(x, root, opts, opts2, p);
        entries.lemma_filter_contains_rev(f2, x);
        let j = choose|j: int| 0 <= j < entries.len() && entries[j] == x;
        assert(f1(entries[j]));
        assert(entries.filter(f1).contains(entries[j]));
    }
}

} // verus!
