//! Path values and the operations the synchronizer needs on them.
//!
//! Paths are plain strings whose components are separated by `/`.
//! Roots are written without a trailing separator.  The functions here
//! are the only place the rest of the library reasons about path
//! syntax: relativization against a root, joining, basenames, depth
//! (component count) and lexicographic order.

use vstd::prelude::*;

verus! {

/// `p` is a prefix of `s`.
pub open spec fn starts_with(s: Seq<char>, p: Seq<char>) -> bool {
    p.len() <= s.len() && s.subrange(0, p.len() as int) == p
}

/// The path relative to `root`: empty for the root itself, the suffix
/// after the separator for a path below it, and `None` for anything
/// else.
pub open spec fn rel_of(path: Seq<char>, root: Seq<char>) -> Option<Seq<char>> {
    if path == root {
        Some(Seq::<char>::empty())
    } else if root.len() < path.len() && path.subrange(0, root.len() as int) == root && path[
        root.len() as int
    ] == '/' {
        Some(path.skip(root.len() + 1int))
    } else {
        None
    }
}

/// `root` extended by the relative path `rel`.
pub open spec fn join_of(root: Seq<char>, rel: Seq<char>) -> Seq<char> {
    if rel.len() == 0 {
        root
    } else {
        root + seq!['/'] + rel
    }
}

/// The component after the last separator (the whole path when it has
/// no separator).
pub open spec fn basename_of(p: Seq<char>) -> Seq<char>
    decreases p.len(),
{
    if p.len() == 0 {
        p
    } else if p.last() == '/' {
        Seq::<char>::empty()
    } else {
        basename_of(p.drop_last()).push(p.last())
    }
}

/// Number of separators in the path.
pub open spec fn slash_count(p: Seq<char>) -> nat
    decreases p.len(),
{
    if p.len() == 0 {
        0
    } else {
        slash_count(p.drop_last()) + if p.last() == '/' {
            1nat
        } else {
            0nat
        }
    }
}

/// Number of components of the path, used to order directory deletes
/// deepest first.
pub open spec fn depth_of(p: Seq<char>) -> nat {
    slash_count(p) + 1
}

/// Lexicographic order on paths by character code.  A path precedes
/// every path it is a prefix of, so parents precede their children.
pub open spec fn lex_le(a: Seq<char>, b: Seq<char>) -> bool
    decreases a.len(),
{
    if a.len() == 0 {
        true
    } else if b.len() == 0 {
        false
    } else if (a[0] as u32) < (b[0] as u32) {
        true
    } else if (a[0] as u32) > (b[0] as u32) {
        false
    } else {
        lex_le(a.skip(1), b.skip(1))
    }
}

/// `child` lies strictly beneath the directory `dir`.
pub open spec fn beneath(child: Seq<char>, dir: Seq<char>) -> bool {
    starts_with(child, dir + seq!['/'])
}

/// Stripping a shared prefix of equal characters does not change the
/// lexicographic comparison.
pub proof fn lemma_lex_skip(a: Seq<char>, b: Seq<char>, i: int)
    requires
        0 <= i <= a.len(),
        i <= b.len(),
        forall|j: int| 0 <= j < i ==> a[j] == b[j],
    ensures
        lex_le(a, b) == lex_le(a.skip(i), b.skip(i)),
    decreases i,
{
    if i > 0 {
        assert(a.len() > 0 && b.len() > 0);
        assert(a[0] == b[0]);
        assert((a[0] as u32) == (b[0] as u32));
        assert(lex_le(a, b) == lex_le(a.skip(1), b.skip(1)));
        lemma_lex_skip(a.skip(1), b.skip(1), i - 1);
        assert(a.skip(1).skip(i - 1) =~= a.skip(i));
        assert(b.skip(1).skip(i - 1) =~= b.skip(i));
    } else {
        assert(a.skip(0) =~= a);
        assert(b.skip(0) =~= b);
    }
}

/// The lexicographic order is total.
pub proof fn lemma_lex_total(a: Seq<char>, b: Seq<char>)
    ensures
        lex_le(a, b) || lex_le(b, a),
    decreases a.len(),
{
    if a.len() > 0 && b.len() > 0 && (a[0] as u32) == (b[0] as u32) {
        lemma_lex_total(a.skip(1), b.skip(1));
    }
}

/// The lexicographic order is transitive.
pub proof fn lemma_lex_trans(a: Seq<char>, b: Seq<char>, c: Seq<char>)
    requires
        lex_le(a, b),
        lex_le(b, c),
    ensures
        lex_le(a, c),
    decreases a.len(),
{
    if a.len() > 0 && b.len() > 0 && c.len() > 0 {
        if (a[0] as u32) == (b[0] as u32) && (b[0] as u32) == (c[0] as u32) {
            lemma_lex_trans(a.skip(1), b.skip(1), c.skip(1));
        }
    }
}

/// The lexicographic order is reflexive.
pub proof fn lemma_lex_refl(a: Seq<char>)
    ensures
        lex_le(a, a),
    decreases a.len(),
{
    if a.len() > 0 {
        lemma_lex_refl(a.skip(1));
    }
}

/// Two paths each lexicographically at most the other have the same
/// length.
pub proof fn lemma_lex_both_ways(a: Seq<char>, b: Seq<char>)
    requires
        lex_le(a, b),
        lex_le(b, a),
    ensures
        a.len() == b.len(),
    decreases a.len(),
{
    if a.len() > 0 && b.len() > 0 {
        assert((a[0] as u32) == (b[0] as u32));
        lemma_lex_both_ways(a.skip(1), b.skip(1));
    }
}

/// A directory precedes, lexicographically, every path beneath it.
pub proof fn lemma_beneath_lex(child: Seq<char>, dir: Seq<char>)
    requires
        beneath(child, dir),
    ensures
        lex_le(dir, child),
        dir != child,
{
    let dirs = dir + seq!['/'];
    assert forall|j: int| 0 <= j < dir.len() implies dir[j] == child[j] by {
        assert(child.subrange(0, dirs.len() as int)[j] == child[j]);
        assert(dirs[j] == dir[j]);
    }
    lemma_lex_skip(dir, child, dir.len() as int);
    assert(dir.skip(dir.len() as int) =~= Seq::<char>::empty());
    assert(lex_le(dir.skip(dir.len() as int), child.skip(dir.len() as int)));
    assert(child.len() > dir.len());
}

/// Character-for-character string equality.
pub fn str_eq(a: &str, b: &str) -> (r: bool)
    ensures
        r == (a@ == b@),
{
    let alen = a.unicode_len();
    let blen = b.unicode_len();
    if alen != blen {
        return false;
    }
    let mut i: usize = 0;
    while i < alen
        invariant
            alen == a@.len(),
            blen == b@.len(),
            alen == blen,
            i <= alen,
            forall|j: int| 0 <= j < i ==> a@[j] == b@[j],
        decreases alen - i,
    {
        if a.get_char(i) != b.get_char(i) {
            return false;
        }
        i += 1;
    }
    proof {
        assert(a@ =~= b@);
    }
    true
}

/// Whether `s` starts with `prefix`.
pub fn str_starts_with(s: &str, prefix: &str) -> (r: bool)
    ensures
        r == starts_with(s@, prefix@),
{
    let slen = s.unicode_len();
    let plen = prefix.unicode_len();
    if plen > slen {
        return false;
    }
    let mut i: usize = 0;
    while i < plen
        invariant
            slen == s@.len(),
            plen == prefix@.len(),
            plen <= slen,
            i <= plen,
            forall|j: int| 0 <= j < i ==> s@[j] == prefix@[j],
        decreases plen - i,
    {
        if s.get_char(i) != prefix.get_char(i) {
            proof {
                assert(s@.subrange(0, plen as int)[i as int] == s@[i as int]);
            }
            return false;
        }
        i += 1;
    }
    proof {
        assert(s@.subrange(0, plen as int) =~= prefix@);
    }
    true
}

/// The path relative to `root`, or `None` when the path does not lie
/// at or under the root.
pub fn strip_prefix(path: &str, root: &str) -> (r: Option<String>)
    ensures
        match r {
            Some(rel) => rel_of(path@, root@) == Some(rel@),
            None => rel_of(path@, root@) is None,
        },
{
    let plen = path.unicode_len();
    let rlen = root.unicode_len();
    if str_eq(path, root) {
        return Some(String::new());
    }
    if rlen < plen && str_starts_with(path, root) && path.get_char(rlen) == '/' {
        let rel = path.substring_char(rlen + 1, plen).to_owned();
        proof {
            assert(path@.subrange(rlen + 1, plen as int) =~= path@.skip(rlen + 1));
        }
        Some(rel)
    } else {
        None
    }
}

/// `root` extended by the relative path `rel`.
pub fn join_path(root: &str, rel: &str) -> (r: String)
    ensures
        r@ == join_of(root@, rel@),
{
    if rel.unicode_len() == 0 {
        root.to_owned()
    } else {
        let mut s = root.to_owned();
        s.append("/");
        s.append(rel);
        proof {
            reveal_strlit("/");
            assert("/"@ =~= seq!['/']);
            assert(s@ =~= root@ + seq!['/'] + rel@);
        }
        s
    }
}

/// Index just past the last separator: every character from the result
/// to the end is a non-separator, and the character before it (if any)
/// is a separator.
fn after_last_slash(p: &str) -> (j: usize)
    ensures
        j <= p@.len(),
        forall|k: int| j <= k < p@.len() ==> p@[k] != '/',
        j > 0 ==> j <= p@.len() && p@[j - 1] == '/',
{
    let len = p.unicode_len();
    let mut j: usize = len;
    while j > 0
        invariant
            len == p@.len(),
            j <= len,
            forall|k: int| j <= k < len ==> p@[k] != '/',
        decreases j,
    {
        if p.get_char(j - 1) == '/' {
            return j;
        }
        j -= 1;
    }
    0
}

/// The basename equals the suffix that follows the last separator.
proof fn lemma_basename_suffix(p: Seq<char>, j: int)
    requires
        0 <= j <= p.len(),
        forall|k: int| j <= k < p.len() ==> p[k] != '/',
        j > 0 ==> p[j - 1] == '/',
    ensures
        basename_of(p) == p.skip(j),
    decreases p.len(),
{
    if j == p.len() {
        if p.len() == 0 {
            assert(basename_of(p) =~= p.skip(j));
        } else {
            assert(p[j - 1] == '/');
            assert(p.last() == '/');
            assert(basename_of(p) =~= p.skip(j));
        }
    } else {
        assert(p.last() != '/');
        let q = p.drop_last();
        lemma_basename_suffix(q, j);
        assert(basename_of(p) == basename_of(q).push(p.last()));
        assert(q.skip(j).push(p.last()) =~= p.skip(j));
    }
}

/// The component after the last separator.
pub fn basename(p: &str) -> (r: String)
    ensures
        r@ == basename_of(p@),
{
    let len = p.unicode_len();
    let j = after_last_slash(p);
    let r = p.substring_char(j, len).to_owned();
    proof {
        lemma_basename_suffix(p@, j as int);
        assert(p@.subrange(j as int, len as int) =~= p@.skip(j as int));
    }
    r
}

/// The path up to (not including) the last separator; empty when the
/// path has no separator.
pub open spec fn parent_of(p: Seq<char>) -> Seq<char> {
    if basename_of(p).len() < p.len() {
        p.take(p.len() - basename_of(p).len() - 1)
    } else {
        Seq::<char>::empty()
    }
}

/// The directory part of a path.
pub fn parent_dir(p: &str) -> (r: String)
    ensures
        r@ == parent_of(p@),
{
    let j = after_last_slash(p);
    proof {
        lemma_basename_suffix(p@, j as int);
    }
    if j > 0 {
        let r = p.substring_char(0, j - 1).to_owned();
        proof {
            assert(p@.subrange(0, j - 1) =~= p@.take(p@.len() - basename_of(p@).len() - 1));
        }
        r
    } else {
        String::new()
    }
}

/// Number of separators in the path; orders paths by depth, since a
/// path of `n` components has `n - 1` separators.
pub fn slashes(p: &str) -> (r: usize)
    ensures
        r == slash_count(p@),
{
    let len = p.unicode_len();
    let mut count: usize = 0;
    let mut i: usize = 0;
    while i < len
        invariant
            len == p@.len(),
            i <= len,
            count <= i,
            count == slash_count(p@.subrange(0, i as int)),
        decreases len - i,
    {
        let c = p.get_char(i);
        proof {
            assert(p@.subrange(0, i + 1).drop_last() =~= p@.subrange(0, i as int));
            assert(p@.subrange(0, i + 1).last() == p@[i as int]);
        }
        if c == '/' {
            count += 1;
        }
        i += 1;
    }
    proof {
        assert(p@.subrange(0, len as int) =~= p@);
    }
    count
}

/// Lexicographic comparison of two paths.
pub fn path_le(a: &str, b: &str) -> (r: bool)
    ensures
        r == lex_le(a@, b@),
{
    let alen = a.unicode_len();
    let blen = b.unicode_len();
    let mut i: usize = 0;
    while i < alen && i < blen
        invariant
            alen == a@.len(),
            blen == b@.len(),
            i <= alen,
            i <= blen,
            forall|j: int| 0 <= j < i ==> a@[j] == b@[j],
        decreases alen - i,
    {
        let ca = a.get_char(i);
        let cb = b.get_char(i);
        if (ca as u32) < (cb as u32) {
            proof {
                lemma_lex_skip(a@, b@, i as int);
            }
            return true;
        }
        if (ca as u32) > (cb as u32) {
            proof {
                lemma_lex_skip(a@, b@, i as int);
            }
            return false;
        }
        proof {
            assert((ca as u32) == (cb as u32));
            assert(ca == cb) by {
                assert(ca as u32 == cb as u32 ==> ca == cb);
            }
        }
        i += 1;
    }
    proof {
        lemma_lex_skip(a@, b@, i as int);
    }
    i == alen
}

} // verus!
