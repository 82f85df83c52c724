//! Metadata-selection flags and path classification.
//!
//! The flags say which parts of a file's metadata the executor copies
//! after the destination bytes land; the copying itself is filesystem
//! work done by the caller.

use vstd::prelude::*;

verus! {

/// The string holds the given character.
pub open spec fn has_char(s: Seq<char>, c: char) -> bool {
    exists|i: int| 0 <= i < s.len() && s[i] == c
}

/// Whether the string holds either of the two characters (used for
/// case-insensitive flag letters).
fn str_has_either(s: &str, c1: char, c2: char) -> (r: bool)
    ensures
        r == (has_char(s@, c1) || has_char(s@, c2)),
{
    let len = s.unicode_len();
    let mut i: usize = 0;
    while i < len
        invariant
            len == s@.len(),
            i <= len,
            forall|j: int| 0 <= j < i ==> s@[j] != c1 && s@[j] != c2,
        decreases len - i,
    {
        let c = s.get_char(i);
        if c == c1 || c == c2 {
            return true;
        }
        i += 1;
    }
    false
}

/// Copy flags that determine what metadata to copy: data,
/// attributes, timestamps, security (permission bits), owner, and
/// auditing info.
#[derive(Debug, Clone)]
pub struct CopyFlags {
    pub data: bool,
    pub attributes: bool,
    pub timestamps: bool,
    pub security: bool,
    pub owner: bool,
    pub auditing: bool,
}

/// Which flags the letter string selects, case-insensitively.
pub open spec fn spec_copy_flags(f: Seq<char>) -> CopyFlags {
    CopyFlags {
        data: has_char(f, 'D') || has_char(f, 'd'),
        attributes: has_char(f, 'A') || has_char(f, 'a'),
        timestamps: has_char(f, 'T') || has_char(f, 't'),
        security: has_char(f, 'S') || has_char(f, 's'),
        owner: has_char(f, 'O') || has_char(f, 'o'),
        auditing: has_char(f, 'U') || has_char(f, 'u'),
    }
}

impl CopyFlags {
    /// Parse copy flags from a letter string such as `DAT` or
    /// `DATSOU`.
    pub fn from_string(flags: &str) -> (r: Self)
        ensures
            r == spec_copy_flags(flags@),
    {
        CopyFlags {
            data: str_has_either(flags, 'D', 'd'),
            attributes: str_has_either(flags, 'A', 'a'),
            timestamps: str_has_either(flags, 'T', 't'),
            security: str_has_either(flags, 'S', 's'),
            owner: str_has_either(flags, 'O', 'o'),
            auditing: str_has_either(flags, 'U', 'u'),
        }
    }

    /// All copy flags (`DATSOU`).
    pub fn all() -> (r: Self)
        ensures
            r.data && r.attributes && r.timestamps && r.security && r.owner && r.auditing,
    {
        let r = Self::from_string("DATSOU");
        proof {
            reveal_strlit("DATSOU");
            assert("DATSOU"@[0] == 'D' && "DATSOU"@[1] == 'A' && "DATSOU"@[2] == 'T'
                && "DATSOU"@[3] == 'S' && "DATSOU"@[4] == 'O' && "DATSOU"@[5] == 'U');
        }
        r
    }
}

impl Default for CopyFlags {
    /// The default selection: data, attributes and timestamps.
    fn default() -> (r: Self)
        ensures
            r.data && r.attributes && r.timestamps,
            !r.security && !r.owner && !r.auditing,
    {
        let r = Self::from_string("DAT");
        proof {
            reveal_strlit("DAT");
            assert("DAT"@[0] == 'D' && "DAT"@[1] == 'A' && "DAT"@[2] == 'T');
            assert("DAT"@.len() == 3);
        }
        r
    }
}

/// Whether the path looks like a network mount: it starts with one of
/// the common network mount points.
pub open spec fn spec_is_network_path(p: Seq<char>) -> bool {
    ||| crate::paths::starts_with(p, "/mnt/"@)
    ||| crate::paths::starts_with(p, "/media/"@)
    ||| crate::paths::starts_with(p, "/net/"@)
    ||| crate::paths::starts_with(p, "/smb/"@)
}

/// Check if a path is under one of the common network mount points.
pub fn is_network_path(path: &str) -> (r: bool)
    ensures
        r == spec_is_network_path(path@),
{
    crate::paths::str_starts_with(path, "/mnt/") || crate::paths::str_starts_with(path, "/media/")
        || crate::paths::str_starts_with(path, "/net/") || crate::paths::str_starts_with(
        path,
        "/smb/",
    )
}

} // verus!
