//! The block delta-transfer algorithm.
//!
//! The destination file is split into fixed-size blocks, each
//! summarized by a cheap rolling checksum and a strong hash.  A scan
//! over the source bytes looks the rolling checksum of every window
//! up in an index of the destination blocks; a candidate found there
//! is confirmed by comparing the block bytes themselves, so a
//! confirmed reference is exact by construction.  The output is a
//! stream of instructions — literal runs and block references — whose
//! application to the destination bytes reproduces the source bytes.

use vstd::prelude::*;
use std::collections::HashMap;
use crate::compression::{CompressionConfig, CompressionType};
use crate::errors::SyncError;

verus! {

/// Checksums of one destination block.
#[derive(Debug, Clone)]
pub struct BlockChecksum {
    pub offset: u64,
    pub weak: u32,
    pub strong: Vec<u8>,
}

/// One instruction of the delta stream: bytes to copy verbatim (or
/// decompress first), or a reference to a block of the destination.
#[derive(Debug, Clone)]
pub enum Match {
    Literal { offset: u64, data: Vec<u8>, is_compressed: bool },
    Block { source_offset: u64, target_offset: u64, length: usize },
}

/// Sum of the bytes of a window.
pub open spec fn sum_bytes(s: Seq<u8>) -> int
    decreases s.len(),
{
    if s.len() == 0 {
        0
    } else {
        sum_bytes(s.drop_last()) + s.last()
    }
}

/// Sum of the byte sums of all prefixes; equals the position-weighted
/// sum of the window's bytes.
pub open spec fn weighted_sum(s: Seq<u8>) -> int
    decreases s.len(),
{
    if s.len() == 0 {
        0
    } else {
        weighted_sum(s.drop_last()) + sum_bytes(s)
    }
}

/// The weak rolling checksum of a window: the byte sum in the low
/// half, the weighted sum in the high half, both modulo 2^16.
pub open spec fn weak_of(s: Seq<u8>) -> int {
    (sum_bytes(s) % 65536) + 65536 * (weighted_sum(s) % 65536)
}

/// The two halves of the weak checksum of `data[start..start + len]`.
fn weak_parts(data: &[u8], start: usize, len: usize) -> (r: (u32, u32))
    requires
        start + len <= data@.len(),
    ensures
        r.0 == sum_bytes(data@.subrange(start as int, start + len)) % 65536,
        r.1 == weighted_sum(data@.subrange(start as int, start + len)) % 65536,
{
    let dlen = data.len();
    let mut a: u32 = 0;
    let mut b: u32 = 0;
    let mut idx: usize = 0;
    while idx < len
        invariant
            dlen == data@.len(),
            start + len <= dlen,
            idx <= len,
            a == sum_bytes(data@.subrange(start as int, start + idx)) % 65536,
            b == weighted_sum(data@.subrange(start as int, start + idx)) % 65536,
        decreases len - idx,
    {
        let byte = data[start + idx];
        proof {
            let pref = data@.subrange(start as int, start + idx);
            let pref2 = data@.subrange(start as int, start + idx + 1);
            assert(pref2.drop_last() =~= pref);
            assert(pref2.last() == byte);
            vstd::arithmetic::div_mod::lemma_add_mod_noop(sum_bytes(pref), byte as int, 65536);
            vstd::arithmetic::div_mod::lemma_small_mod(byte as nat, 65536);
            vstd::arithmetic::div_mod::lemma_add_mod_noop(
                weighted_sum(pref),
                sum_bytes(pref2),
                65536,
            );
            vstd::arithmetic::div_mod::lemma_mod_twice(sum_bytes(pref2), 65536);
        }
        a = (a + byte as u32) % 65536;
        b = (b + a) % 65536;
        idx += 1;
    }
    (a, b)
}

/// Weak checksum of `data[start..start + len]`.
fn weak_checksum(data: &[u8], start: usize, len: usize) -> (r: u32)
    requires
        start + len <= data@.len(),
    ensures
        r == weak_of(data@.subrange(start as int, start + len)),
{
    let (a, b) = weak_parts(data, start, len);
    a + b * 65536
}

/// The strong hash of the given bytes.
pub uninterp spec fn blake3_of(data: Seq<u8>) -> Seq<u8>;

/// Relies on `blake3::hash`: a deterministic 32-byte digest of the
/// input bytes.
#[verifier::external_body]
fn blake3_hash(data: &[u8]) -> (r: Vec<u8>)
    ensures
        r@ == blake3_of(data@),
        r@.len() == 32,
{
    blake3::hash(data).as_bytes().to_vec()
}

/// The delta matcher: block size and optional literal compression.
#[derive(Debug, Clone)]
pub struct DeltaAlgorithm {
    pub block_size: usize,
    pub compression: Option<CompressionConfig>,
}

impl Default for DeltaAlgorithm {
    /// Blocks of 1024 bytes, literals uncompressed.
    fn default() -> (r: Self)
        ensures
            r.block_size == 1024,
            r.compression is None,
    {
        DeltaAlgorithm { block_size: 1024, compression: None }
    }
}

impl DeltaAlgorithm {
    /// A matcher with the given block size.
    pub fn new(block_size: usize) -> (r: Self)
        requires
            block_size >= 1,
        ensures
            r.block_size == block_size,
            r.compression is None,
    {
        DeltaAlgorithm { block_size, compression: None }
    }

    /// Enable compression of literal payloads.
    pub fn with_compression(self, config: CompressionConfig) -> (r: Self)
        ensures
            r.block_size == self.block_size,
            r.compression == Some(config),
    {
        DeltaAlgorithm { block_size: self.block_size, compression: Some(config) }
    }

    /// The codec literals of this matcher are compressed with.
    pub open spec fn codec(self) -> CompressionType {
        match self.compression {
            Some(c) => c.algorithm,
            None => CompressionType::Off,
        }
    }
}

/// The bytes of block `k` of the destination: `block_size` bytes,
/// fewer for the final block.
pub open spec fn block_at(data: Seq<u8>, bs: int, k: int) -> Seq<u8> {
    data.subrange(
        k * bs,
        if (k + 1) * bs <= data.len() {
            (k + 1) * bs
        } else {
            data.len() as int
        },
    )
}

/// The checksums describe the destination: each entry whose full
/// block fits carries the weak checksum of the destination bytes at
/// its offset.
pub open spec fn checksums_valid(cs: Seq<BlockChecksum>, dest: Seq<u8>, bs: int) -> bool {
    forall|j: int|
        0 <= j < cs.len() ==> ((#[trigger] cs[j]).offset + bs <= dest.len() ==> cs[j].weak
            == weak_of(dest.subrange(cs[j].offset as int, cs[j].offset + bs)))
}

/// Some indexed full block of the destination equals the source
/// window starting at `q`.
pub open spec fn window_matches(
    source: Seq<u8>,
    dest: Seq<u8>,
    cs: Seq<BlockChecksum>,
    bs: int,
    q: int,
) -> bool {
    exists|j: int|
        0 <= j < cs.len() && (#[trigger] cs[j]).offset + bs <= dest.len() && dest.subrange(
            cs[j].offset as int,
            cs[j].offset + bs,
        ) == source.subrange(q, q + bs)
}

/// Every literal of the stream covers only source positions where no
/// indexed destination block matches the window: bytes are sent
/// verbatim only where no block reference was possible.
pub open spec fn literals_unmatched(
    r: Seq<Match>,
    source: Seq<u8>,
    dest: Seq<u8>,
    cs: Seq<BlockChecksum>,
    bs: int,
    codec: CompressionType,
) -> bool {
    forall|k: int|
        0 <= k < r.len() ==> (match #[trigger] r[k] {
            Match::Literal { offset, .. } => match match_bytes(dest, codec, r[k]) {
                Some(b) => forall|q: int|
                    offset <= q && q + bs <= source.len() && q < offset + b.len()
                        ==> !window_matches(source, dest, cs, bs, q),
                None => true,
            },
            Match::Block { .. } => true,
        })
}

/// The index holds, under each entry's weak checksum, that entry's
/// offset.
pub open spec fn index_complete(m: Map<u32, Vec<u64>>, cs: Seq<BlockChecksum>, upto: int) -> bool {
    forall|u: int|
        0 <= u < upto ==> (m.contains_key((#[trigger] cs[u]).weak) && m[cs[u].weak]@.contains(
            cs[u].offset,
        ))
}

/// The bytes one instruction stands for: literal payload (possibly
/// decompressed), or a slice of the destination; `None` when the
/// payload cannot be decompressed or the reference leaves the
/// destination.
pub open spec fn match_bytes(dest: Seq<u8>, codec: CompressionType, m: Match) -> Option<Seq<u8>> {
    match m {
        Match::Literal { data, is_compressed, .. } => if is_compressed {
            crate::compression::spec_decompressed(data@, codec)
        } else {
            Some(data@)
        },
        Match::Block { target_offset, length, .. } => if target_offset + length <= dest.len() {
            Some(dest.subrange(target_offset as int, target_offset + length))
        } else {
            None
        },
    }
}

/// The bytes an instruction stream reconstructs when applied to the
/// destination, in order.
pub open spec fn apply_matches(dest: Seq<u8>, codec: CompressionType, ms: Seq<Match>) -> Option<
    Seq<u8>,
>
    decreases ms.len(),
{
    if ms.len() == 0 {
        Some(Seq::<u8>::empty())
    } else {
        match (apply_matches(dest, codec, ms.drop_last()), match_bytes(dest, codec, ms.last())) {
            (Some(a), Some(b)) => Some(a + b),
            _ => None,
        }
    }
}

/// Applying one more instruction extends the reconstruction by that
/// instruction's bytes.
proof fn lemma_apply_push(dest: Seq<u8>, codec: CompressionType, ms: Seq<Match>, m: Match)
    ensures
        apply_matches(dest, codec, ms.push(m)) == (match (
            apply_matches(dest, codec, ms),
            match_bytes(dest, codec, m),
        ) {
            (Some(a), Some(b)) => Some(a + b),
            _ => None,
        }),
{
    assert(ms.push(m).drop_last() =~= ms);
    assert(ms.push(m).last() == m);
}

/// Once a prefix fails to apply, the whole stream fails to apply.
proof fn lemma_apply_none_extends(dest: Seq<u8>, codec: CompressionType, ms: Seq<Match>, j: int)
    requires
        0 <= j <= ms.len(),
        apply_matches(dest, codec, ms.take(j)) is None,
    ensures
        apply_matches(dest, codec, ms) is None,
    decreases ms.len() - j,
{
    if j == ms.len() {
        assert(ms.take(j) =~= ms);
    } else {
        lemma_apply_push(dest, codec, ms.take(j), ms[j]);
        assert(ms.take(j).push(ms[j]) =~= ms.take(j + 1));
        lemma_apply_none_extends(dest, codec, ms, j + 1);
    }
}

impl DeltaAlgorithm {
    /// Split the destination bytes into blocks and checksum each one.
    pub fn generate_checksums(&self, data: &[u8]) -> (r: Vec<BlockChecksum>)
        requires
            self.block_size >= 1,
        ensures
            r@.len() == (data@.len() + self.block_size - 1) / (self.block_size as int),
            forall|k: int|
                0 <= k < r@.len() ==> {
                    &&& (#[trigger] r@[k]).offset == k * self.block_size
                    &&& r@[k].weak == weak_of(block_at(data@, self.block_size as int, k))
                    &&& r@[k].strong@ == blake3_of(block_at(data@, self.block_size as int, k))
                },
            checksums_valid(r@, data@, self.block_size as int),
    {
        let bs = self.block_size;
        let mut r: Vec<BlockChecksum> = Vec::new();
        let mut off: usize = 0;
        proof {
            let n0 = r@.len() as int;
            assert(n0 == 0);
            assert(n0 * bs == 0) by (nonlinear_arith)
                requires
                    n0 == 0,
            ;
        }
        while off < data.len()
            invariant
                bs == self.block_size,
                bs >= 1,
                off <= data@.len(),
                off == r@.len() * bs || (off == data@.len() && (r@.len() - 1) * bs < data@.len()
                    < r@.len() * bs),
                forall|k: int|
                    0 <= k < r@.len() ==> {
                        &&& (#[trigger] r@[k]).offset == k * bs
                        &&& r@[k].weak == weak_of(block_at(data@, bs as int, k))
                        &&& r@[k].strong@ == blake3_of(block_at(data@, bs as int, k))
                    },
            decreases data@.len() - off,
        {
            proof {
                assert(off == r@.len() * bs);
            }
            let full = bs <= data.len() - off;
            let end = if full {
                off + bs
            } else {
                data.len()
            };
            let weak = weak_checksum(data, off, end - off);
            let strong = blake3_hash(&data[off..end]);
            let ghost n = r@.len() as int;
            let bc = BlockChecksum { offset: off as u64, weak, strong };
            r.push(bc);
            proof {
                assert((n + 1) * bs == n * bs + bs) by (nonlinear_arith);
                assert(block_at(data@, bs as int, n) =~= data@.subrange(off as int, end as int));
                assert(data@.subrange(off as int, off + (end - off)) =~= data@.subrange(
                    off as int,
                    end as int,
                ));
                assert(forall|k: int| 0 <= k < n ==> r@[k] == #[trigger] r@.take(n)[k]);
            }
            off = end;
        }
        proof {
            let bsi = bs as int;
            assert forall|k: int|
                0 <= k < r@.len() && (#[trigger] r@[k]).offset + bsi <= data@.len() implies r@[
                k
            ].weak == weak_of(data@.subrange(r@[k].offset as int, r@[k].offset + bsi)) by {
                assert((k + 1) * bsi == k * bsi + bsi) by (nonlinear_arith);
                assert(block_at(data@, bsi, k) =~= data@.subrange(k * bsi, k * bsi + bsi));
            }
            let n = r@.len() as int;
            let len = data@.len() as int;
            if off == n * bs {
                assert(len == n * bs);
                assert((len + bs - 1) / (bs as int) == n) by (nonlinear_arith)
                    requires
                        len == n * bs,
                        bs >= 1,
                ;
            } else {
                assert((len + bs - 1) / (bs as int) == n) by (nonlinear_arith)
                    requires
                        (n - 1) * bs < len < n * bs,
                        bs >= 1,
                ;
            }
        }
        r
    }
}

/// Apply a delta instruction stream to the destination bytes,
/// reconstructing the source bytes it was produced from.  Fails
/// exactly when a block reference leaves the destination or a
/// compressed literal cannot be decompressed within the bound.
pub fn apply_delta_bytes(
    dest_data: &[u8],
    matches: &Vec<Match>,
    compression_type: CompressionType,
) -> (r: Result<Vec<u8>, SyncError>)
    ensures
        match r {
            Ok(v) => apply_matches(dest_data@, compression_type, matches@) == Some(v@),
            Err(e) => apply_matches(dest_data@, compression_type, matches@) is None && (e
                is DecompressionFailed || e is BlockOutOfRange),
        },
{
    let mut result: Vec<u8> = Vec::new();
    let mut k: usize = 0;
    proof {
        assert(matches@.take(0) =~= Seq::<Match>::empty());
    }
    while k < matches.len()
        invariant
            k <= matches@.len(),
            apply_matches(dest_data@, compression_type, matches@.take(k as int)) == Some(result@),
        decreases matches@.len() - k,
    {
        let ghost pre = matches@.take(k as int);
        let ghost prev = result@;
        proof {
            lemma_apply_push(dest_data@, compression_type, pre, matches@[k as int]);
            assert(matches@.take(k + 1) =~= pre.push(matches@[k as int]));
        }
        match &matches[k] {
            Match::Literal { data, is_compressed, .. } => {
                if *is_compressed {
                    match crate::compression::decompress_data(
                        data.as_slice(),
                        compression_type,
                    ) {
                        Ok(v) => {
                            result.extend_from_slice(v.as_slice());
                            proof {
                                assert(result@ =~= prev + v@);
                            }
                        },
                        Err(_) => {
                            proof {
                                lemma_apply_none_extends(
                                    dest_data@,
                                    compression_type,
                                    matches@,
                                    k + 1,
                                );
                            }
                            return Err(SyncError::DecompressionFailed);
                        },
                    }
                } else {
                    result.extend_from_slice(data.as_slice());
                    proof {
                        assert(result@ =~= prev + data@);
                    }
                }
            },
            Match::Block { target_offset, length, .. } => {
                let off = *target_offset;
                let blen = *length;
                if off <= (dest_data.len() as u64) && (blen as u64) <= (dest_data.len() as u64)
                    - off {
                    let start = off as usize;
                    result.extend_from_slice(&dest_data[start..start + blen]);
                    proof {
                        assert(result@ =~= prev + dest_data@.subrange(
                            start as int,
                            start + blen,
                        ));
                    }
                } else {
                    proof {
                        lemma_apply_none_extends(dest_data@, compression_type, matches@, k + 1);
                    }
                    return Err(SyncError::BlockOutOfRange);
                }
            },
        }
        k += 1;
    }
    proof {
        assert(matches@.take(matches@.len() as int) =~= matches@);
    }
    Ok(result)
}


/// Appending one byte adds it to the byte sum.
proof fn lemma_sum_bytes_push(t: Seq<u8>, x: u8)
    ensures
        sum_bytes(t.push(x)) == sum_bytes(t) + x,
{
    assert(t.push(x).drop_last() =~= t);
    assert(t.push(x).last() == x);
}

/// Appending one byte adds the new byte sum to the weighted sum.
proof fn lemma_weighted_push(t: Seq<u8>, x: u8)
    ensures
        weighted_sum(t.push(x)) == weighted_sum(t) + sum_bytes(t.push(x)),
{
    assert(t.push(x).drop_last() =~= t);
    assert(t.push(x).last() == x);
}

/// Dropping the first byte removes it from the byte sum.
proof fn lemma_sum_bytes_skip1(s: Seq<u8>)
    requires
        s.len() > 0,
    ensures
        sum_bytes(s.skip(1)) == sum_bytes(s) - s[0],
    decreases s.len(),
{
    if s.len() == 1 {
        assert(s.skip(1) =~= Seq::<u8>::empty());
        assert(s.drop_last() =~= Seq::<u8>::empty());
        assert(s.last() == s[0]);
    } else {
        assert(s.skip(1).drop_last() =~= s.drop_last().skip(1));
        lemma_sum_bytes_skip1(s.drop_last());
        assert(s.skip(1).last() == s.last());
        assert(s.drop_last()[0] == s[0]);
    }
}

/// Dropping the first byte removes one window-length multiple of it
/// from the weighted sum.
proof fn lemma_weighted_skip1(s: Seq<u8>)
    requires
        s.len() > 0,
    ensures
        weighted_sum(s.skip(1)) == weighted_sum(s) - s.len() * s[0],
    decreases s.len(),
{
    if s.len() == 1 {
        assert(s.skip(1) =~= Seq::<u8>::empty());
        assert(s.drop_last() =~= Seq::<u8>::empty());
        assert(s.last() == s[0]);
        assert(weighted_sum(s.skip(1)) == 0);
        assert(sum_bytes(s.drop_last()) == 0);
        assert(weighted_sum(s.drop_last()) == 0);
        assert(sum_bytes(s) == s[0]);
        assert(weighted_sum(s) == s[0]);
        assert(s.len() * s[0] == 1 * s[0]);
        assert(1 * s[0] == s[0]) by (nonlinear_arith);
    } else {
        let d = s.drop_last();
        let n = s.len() as int;
        assert(s.skip(1).len() == n - 1);
        assert(s.skip(1).drop_last() =~= d.skip(1));
        lemma_weighted_skip1(d);
        lemma_sum_bytes_skip1(s);
        assert(d[0] == s[0]);
        assert(weighted_sum(s.skip(1)) == weighted_sum(s.skip(1).drop_last()) + sum_bytes(
            s.skip(1),
        ));
        assert(weighted_sum(s.skip(1).drop_last()) == weighted_sum(d.skip(1)));
        assert(weighted_sum(d.skip(1)) == weighted_sum(d) - (n - 1) * s[0]);
        assert(sum_bytes(s.skip(1)) == sum_bytes(s) - s[0]);
        assert(weighted_sum(s) == weighted_sum(d) + sum_bytes(s));
        assert((n - 1) * s[0] + s[0] == n * s[0]) by (nonlinear_arith);
        assert(weighted_sum(s.skip(1)) == weighted_sum(s) - n * s[0]);
    }
}

/// Byte-for-byte equality of `a[ai..ai + len]` and `b[bi..bi + len]`.
fn ranges_equal(a: &[u8], ai: usize, b: &[u8], bi: usize, len: usize) -> (r: bool)
    requires
        ai + len <= a@.len(),
        bi + len <= b@.len(),
    ensures
        r == (a@.subrange(ai as int, ai + len) == b@.subrange(bi as int, bi + len)),
{
    let alen = a.len();
    let blen = b.len();
    let mut i: usize = 0;
    while i < len
        invariant
            alen == a@.len(),
            blen == b@.len(),
            ai + len <= alen,
            bi + len <= blen,
            i <= len,
            forall|j: int| ai <= j < ai + i ==> #[trigger] a@[j] == b@[j - ai + bi],
        decreases len - i,
    {
        if a[ai + i] != b[bi + i] {
            proof {
                assert(a@.subrange(ai as int, ai + len)[i as int] == a@[ai + i]);
                assert(b@.subrange(bi as int, bi + len)[i as int] == b@[bi + i]);
            }
            return false;
        }
        i += 1;
    }
    proof {
        assert(a@.subrange(ai as int, ai + len) =~= b@.subrange(bi as int, bi + len));
    }
    true
}

/// Look the window's weak checksum up in the block index and confirm
/// a candidate by comparing bytes.  A hit is an exact block match; a
/// miss proves that no indexed full block equals the window, since
/// the index is complete and equal bytes have equal weak checksums.
fn probe_candidates(
    index: &HashMap<u32, Vec<u64>>,
    w: u32,
    source: &[u8],
    dest: &[u8],
    i: usize,
    bs: usize,
    Ghost(cs): Ghost<Seq<BlockChecksum>>,
) -> (found: Option<u64>)
    requires
        bs >= 1,
        i + bs <= source@.len(),
        index_complete(index@, cs, cs.len() as int),
        checksums_valid(cs, dest@, bs as int),
        (w as int) == weak_of(source@.subrange(i as int, i + bs)),
    ensures
        match found {
            Some(off) => off + bs <= dest@.len() && source@.subrange(i as int, i + bs)
                == dest@.subrange(off as int, off + bs),
            None => !window_matches(source@, dest@, cs, bs as int, i as int),
        },
{
    let dlen = dest.len();
    let mut found: Option<u64> = None;
    match index.get(&w) {
        Some(list) => {
            let mut c: usize = 0;
            while c < list.len() && found.is_none()
                invariant
                    bs >= 1,
                    i + bs <= source@.len(),
                    dlen == dest@.len(),
                    c <= list@.len(),
                    match found {
                        Some(off) => off + bs <= dlen && source@.subrange(i as int, i + bs)
                            == dest@.subrange(off as int, off + bs),
                        None => forall|t: int|
                            0 <= t < c ==> !((#[trigger] list@[t]) + bs <= dlen && dest@.subrange(
                                list@[t] as int,
                                list@[t] + bs,
                            ) == source@.subrange(i as int, i + bs)),
                    },
                decreases list@.len() - c,
            {
                let off = list[c];
                if off <= (dlen as u64) && (bs as u64) <= (dlen as u64) - off {
                    let offu = off as usize;
                    if ranges_equal(source, i, dest, offu, bs) {
                        found = Some(off);
                    }
                }
                c += 1;
            }
            proof {
                broadcast use vstd::std_specs::hash::group_hash_axioms;

                if found is None {
                    assert(c == list@.len());
                    assert(!window_matches(source@, dest@, cs, bs as int, i as int)) by {
                        if window_matches(source@, dest@, cs, bs as int, i as int) {
                            let j0 = choose|j0: int|
                                0 <= j0 < cs.len() && (#[trigger] cs[j0]).offset + bs
                                    <= dest@.len() && dest@.subrange(
                                    cs[j0].offset as int,
                                    cs[j0].offset + bs,
                                ) == source@.subrange(i as int, i + bs);
                            assert(cs[j0].weak == weak_of(dest@.subrange(
                                cs[j0].offset as int,
                                cs[j0].offset + bs,
                            )));
                            assert(cs[j0].weak == w);
                            assert(index@.contains_key(cs[j0].weak));
                            assert(index@[cs[j0].weak]@.contains(cs[j0].offset));
                            assert(list@ == index@[w]@);
                            let t = choose|t: int|
                                0 <= t < list@.len() && list@[t] == cs[j0].offset;
                            assert(!(list@[t] + bs <= dlen && dest@.subrange(
                                list@[t] as int,
                                list@[t] + bs,
                            ) == source@.subrange(i as int, i + bs)));
                        }
                    }
                }
            }
        },
        None => {
            proof {
                broadcast use vstd::std_specs::hash::group_hash_axioms;

                assert(!index@.contains_key(w));
                assert(!window_matches(source@, dest@, cs, bs as int, i as int)) by {
                    if window_matches(source@, dest@, cs, bs as int, i as int) {
                        let j0 = choose|j0: int|
                            0 <= j0 < cs.len() && (#[trigger] cs[j0]).offset + bs <= dest@.len()
                                && dest@.subrange(cs[j0].offset as int, cs[j0].offset + bs)
                                == source@.subrange(i as int, i + bs);
                        assert(cs[j0].weak == weak_of(dest@.subrange(
                            cs[j0].offset as int,
                            cs[j0].offset + bs,
                        )));
                        assert(cs[j0].weak == w);
                        assert(index@.contains_key(cs[j0].weak));
                    }
                }
            }
        },
    }
    found
}

impl DeltaAlgorithm {
    /// Append the pending literalimpl DeltaAlgorithm {
    /// Append the pending literal `source[lit_start..end]` to the
    /// instruction stream, compressed when that is configured and
    /// pays off.
    fn flush_literal(
        &self,
        result: &mut Vec<Match>,
        source: &[u8],
        lit_start: usize,
        end: usize,
        Ghost(dest): Ghost<Seq<u8>>,
    )
        requires
            lit_start <= end <= source@.len(),
            apply_matches(dest, self.codec(), old(result)@) == Some(
                source@.subrange(0, lit_start as int),
            ),
        ensures
            apply_matches(dest, self.codec(), final(result)@) == Some(
                source@.subrange(0, end as int),
            ),
            end == lit_start ==> final(result)@ == old(result)@,
            end > lit_start ==> ({
                &&& final(result)@.len() == old(result)@.len() + 1
                &&& final(result)@.subrange(0, old(result)@.len() as int) == old(result)@
                &&& (final(result)@.last() matches Match::Literal { offset, .. } && offset
                    == lit_start)
                &&& match_bytes(dest, self.codec(), final(result)@.last()) == Some(
                    source@.subrange(lit_start as int, end as int),
                )
            }),
    {
        if end > lit_start {
            let ghost lit = source@.subrange(lit_start as int, end as int);
            let mut payload = vstd::slice::slice_to_vec(&source[lit_start..end]);
            let mut compressed = false;
            match self.compression {
                Some(cfg) => {
                    match crate::compression::compress_literal_data(payload.as_slice(), cfg) {
                        Ok(v) => {
                            if v.len() < payload.len() {
                                proof {
                                    assert(crate::compression::spec_decompressed(
                                        v@,
                                        cfg.algorithm,
                                    ) == Some(lit));
                                }
                                payload = v;
                                compressed = true;
                            }
                        },
                        Err(_) => {},  // keep the raw literal
                    }
                },
                None => {},
            }
            let m = Match::Literal {
                offset: lit_start as u64,
                data: payload,
                is_compressed: compressed,
            };
            let ghost mg = m;
            proof {
                lemma_apply_push(dest, self.codec(), result@, mg);
                assert(match_bytes(dest, self.codec(), mg) == Some(lit));
                assert(source@.subrange(0, lit_start as int) + lit =~= source@.subrange(
                    0,
                    end as int,
                ));
            }
            result.push(m);
            proof {
                assert(result@.subrange(0, result@.len() - 1) =~= result@.drop_last());
            }
        } else {
            proof {
                assert(source@.subrange(0, lit_start as int) =~= source@.subrange(0, end as int));
            }
        }
    }

    /// Scan the source bytes against the destination block index and
    /// produce the delta instruction stream.  Candidate blocks found
    /// by weak checksum are confirmed by comparing the block bytes,
    /// so applying the result to the destination bytes reconstructs
    /// the source bytes exactly.
    pub fn find_matches(
        &self,
        source: &[u8],
        dest: &[u8],
        checksums: &Vec<BlockChecksum>,
    ) -> (r: Vec<Match>)
        requires
            self.block_size >= 1,
            checksums_valid(checksums@, dest@, self.block_size as int),
        ensures
            apply_matches(dest@, self.codec(), r@) == Some(source@),
            literals_unmatched(
                r@,
                source@,
                dest@,
                checksums@,
                self.block_size as int,
                self.codec(),
            ),
    {
        let bs = self.block_size;
        let slen = source.len();
        let dlen = dest.len();
        // index the destination blocks by weak checksum
        let mut index: HashMap<u32, Vec<u64>> = HashMap::new();
        let mut j: usize = 0;
        while j < checksums.len()
            invariant
                j <= checksums@.len(),
                index_complete(index@, checksums@, j as int),
            decreases checksums@.len() - j,
        {
            let w = checksums[j].weak;
            let ghost old_map = index@;
            let ghost mut old_list = Seq::<u64>::empty();
            let mut lst: Vec<u64> = Vec::new();
            match index.get(&w) {
                Some(v) => {
                    proof {
                        broadcast use vstd::std_specs::hash::group_hash_axioms;

                        old_list = v@;
                        assert(old_map.contains_key(w) && old_map[w]@ == v@);
                    }
                    let mut t: usize = 0;
                    while t < v.len()
                        invariant
                            t <= v@.len(),
                            lst@ == v@.take(t as int),
                        decreases v@.len() - t,
                    {
                        lst.push(v[t]);
                        proof {
                            assert(lst@ =~= v@.take(t + 1));
                        }
                        t += 1;
                    }
                    proof {
                        assert(lst@ =~= v@);
                    }
                },
                None => {
                    proof {
                        broadcast use vstd::std_specs::hash::group_hash_axioms;

                        assert(!old_map.contains_key(w));
                    }
                },
            }
            lst.push(checksums[j].offset);
            let ghost lst_g = lst@;
            proof {
                assert(lst_g == old_list.push(checksums@[j as int].offset));
            }
            index.insert(w, lst);
            proof {
                broadcast use vstd::std_specs::hash::group_hash_axioms;

                assert(index@ == old_map.insert(w, index@[w]) && index@[w]@ == lst_g);
                assert forall|u: int| 0 <= u < j + 1 implies (index@.contains_key(
                    (#[trigger] checksums@[u]).weak,
                ) && index@[checksums@[u].weak]@.contains(checksums@[u].offset)) by {
                    let x = checksums@[u].offset;
                    if u == j {
                        assert(lst_g.last() == x);
                        assert(lst_g.contains(x));
                    } else if checksums@[u].weak == w {
                        assert(old_map.contains_key(w));
                        assert(old_map[w]@.contains(x));
                        let idx = choose|idx: int|
                            0 <= idx < old_list.len() && old_list[idx] == x;
                        assert(lst_g[idx] == x);
                        assert(lst_g.contains(x));
                    } else {
                        assert(index@.contains_key(checksums@[u].weak));
                        assert(index@[checksums@[u].weak] == old_map[checksums@[u].weak]);
                    }
                }
            }
            j += 1;
        }
        let mut result: Vec<Match> = Vec::new();
        let mut lit_start: usize = 0;
        let mut i: usize = 0;
        proof {
            assert(source@.subrange(0, 0) =~= Seq::<u8>::empty());
        }
        // rolling checksum halves of the window starting at `i`
        let mut a: u32 = 0;
        let mut b: u32 = 0;
        if bs <= slen {
            let parts = weak_parts(source, 0, bs);
            a = parts.0;
            b = parts.1;
        }
        while i <= slen && bs <= slen - i
            invariant
                bs == self.block_size,
                bs >= 1,
                slen == source@.len(),
                dlen == dest@.len(),
                lit_start <= i,
                i <= slen,
                a < 65536,
                b < 65536,
                i + bs <= slen ==> a == sum_bytes(source@.subrange(i as int, i + bs)) % 65536,
                i + bs <= slen ==> b == weighted_sum(source@.subrange(i as int, i + bs)) % 65536,
                apply_matches(dest@, self.codec(), result@) == Some(
                    source@.subrange(0, lit_start as int),
                ),
                index_complete(index@, checksums@, checksums@.len() as int),
                checksums_valid(checksums@, dest@, bs as int),
                forall|q: int|
                    lit_start <= q && q + bs <= slen && q < i ==> !window_matches(
                        source@,
                        dest@,
                        checksums@,
                        bs as int,
                        q,
                    ),
                literals_unmatched(
                    result@,
                    source@,
                    dest@,
                    checksums@,
                    bs as int,
                    self.codec(),
                ),
            decreases slen - i,
        {
            let w = a + b * 65536;
            proof {
                assert((w as int) == weak_of(source@.subrange(i as int, i + bs)));
            }
            let found = probe_candidates(
                &index,
                w,
                source,
                dest,
                i,
                bs,
                Ghost(checksums@),
            );
            match found {
                Some(off) => {
                    let ghost before_flush = result@;
                    self.flush_literal(&mut result, source, lit_start, i, Ghost(dest@));
                    proof {
                        assert forall|k: int|
                            0 <= k < result@.len() implies (match #[trigger] result@[k] {
                            Match::Literal { offset, .. } => match match_bytes(
                                dest@,
                                self.codec(),
                                result@[k],
                            ) {
                                Some(bts) => forall|q: int|
                                    offset <= q && q + bs <= slen && q < offset + bts.len()
                                        ==> !window_matches(
                                        source@,
                                        dest@,
                                        checksums@,
                                        bs as int,
                                        q,
                                    ),
                                None => true,
                            },
                            Match::Block { .. } => true,
                        }) by {
                            if k < before_flush.len() {
                                assert(result@.subrange(0, before_flush.len() as int)[k]
                                    == result@[k]);
                                assert(result@[k] == before_flush[k]);
                            }
                        }
                    }
                    let ghost before_block = result@;
                    let m = Match::Block {
                        source_offset: i as u64,
                        target_offset: off,
                        length: bs,
                    };
                    let ghost mg = m;
                    proof {
                        lemma_apply_push(dest@, self.codec(), result@, mg);
                        assert(match_bytes(dest@, self.codec(), mg) == Some(dest@.subrange(
                            off as int,
                            off + bs,
                        )));
                        assert(source@.subrange(0, i as int) + source@.subrange(i as int, i + bs)
                            =~= source@.subrange(0, i + bs));
                    }
                    result.push(m);
                    proof {
                        assert forall|k: int|
                            0 <= k < result@.len() implies (match #[trigger] result@[k] {
                            Match::Literal { offset, .. } => match match_bytes(
                                dest@,
                                self.codec(),
                                result@[k],
                            ) {
                                Some(bts) => forall|q: int|
                                    offset <= q && q + bs <= slen && q < offset + bts.len()
                                        ==> !window_matches(
                                        source@,
                                        dest@,
                                        checksums@,
                                        bs as int,
                                        q,
                                    ),
                                None => true,
                            },
                            Match::Block { .. } => true,
                        }) by {
                            if k < before_block.len() {
                                assert(result@[k] == before_block[k]);
                            } else {
                                assert(result@[k] == mg);
                            }
                        }
                    }
                    i = i + bs;
                    lit_start = i;
                    if bs <= slen - i {
                        let parts = weak_parts(source, i, bs);
                        a = parts.0;
                        b = parts.1;
                    }
                },
                None => {
                    if i + 1 <= slen && bs <= slen - (i + 1) {
                        let out = source[i];
                        let inc = source[i + bs];
                        let bl = (bs % 65536) as u32;
                        let ow = out as u32;
                        let ghost w = source@.subrange(i as int, i + bs);
                        let ghost w2 = source@.subrange(i + 1, i + 1 + bs);
                        let ghost sum0 = sum_bytes(w);
                        let ghost wsum0 = weighted_sum(w);
                        let ghost sum2 = sum_bytes(w2);
                        let ghost wsum2 = weighted_sum(w2);
                        proof {
                            assert(bl * ow < 16777216) by (nonlinear_arith)
                                requires
                                    bl < 65536,
                                    ow < 256,
                            ;
                            assert(w2 =~= w.skip(1).push(source@[i + bs]));
                            assert(w[0] == source@[i as int]);
                            assert(w.len() == bs);
                            lemma_sum_bytes_skip1(w);
                            lemma_sum_bytes_push(w.skip(1), source@[i + bs]);
                            lemma_weighted_skip1(w);
                            lemma_weighted_push(w.skip(1), source@[i + bs]);
                            assert(sum2 == sum0 - out + inc);
                            assert(wsum2 == wsum0 - bs * out + sum2);
                        }
                        a = (a + 65536 - ow) % 65536;
                        proof {
                            vstd::arithmetic::div_mod::lemma_mod_multiples_vanish(
                                1,
                                sum0 % 65536 - out,
                                65536,
                            );
                            vstd::arithmetic::div_mod::lemma_sub_mod_noop(sum0, out as int, 65536);
                            vstd::arithmetic::div_mod::lemma_small_mod(out as nat, 65536);
                            assert(a == (sum0 - out) % 65536);
                        }
                        a = (a + (inc as u32)) % 65536;
                        proof {
                            vstd::arithmetic::div_mod::lemma_add_mod_noop(
                                sum0 - out,
                                inc as int,
                                65536,
                            );
                            vstd::arithmetic::div_mod::lemma_small_mod(inc as nat, 65536);
                            assert(a == sum2 % 65536);
                        }
                        b = (b + 16777216 - (bl * ow) % 65536 + a) % 65536;
                        proof {
                            vstd::arithmetic::div_mod::lemma_mul_mod_noop_left(
                                bs as int,
                                out as int,
                                65536,
                            );
                            assert((bl * ow) % 65536 == (bs * out) % 65536);
                            let g = (wsum0 % 65536) - ((bs * out) % 65536);
                            vstd::arithmetic::div_mod::lemma_mod_multiples_vanish(
                                256,
                                g + sum2 % 65536,
                                65536,
                            );
                            assert((wsum0 % 65536 + 16777216 - (bs * out) % 65536 + sum2 % 65536)
                                % 65536 == (g + sum2 % 65536) % 65536);
                            vstd::arithmetic::div_mod::lemma_add_mod_noop_right(g, sum2, 65536);
                            vstd::arithmetic::div_mod::lemma_add_mod_noop(g, sum2, 65536);
                            vstd::arithmetic::div_mod::lemma_sub_mod_noop(
                                wsum0,
                                bs * out,
                                65536,
                            );
                            vstd::arithmetic::div_mod::lemma_add_mod_noop(
                                wsum0 - bs * out,
                                sum2,
                                65536,
                            );
                            vstd::arithmetic::div_mod::lemma_mod_twice(
                                wsum0 - bs * out,
                                65536,
                            );
                            assert(b == wsum2 % 65536);
                        }
                    }
                    i += 1;
                },
            }
        }
        let ghost before_tail = result@;
        self.flush_literal(&mut result, source, lit_start, slen, Ghost(dest@));
        proof {
            assert(source@.subrange(0, slen as int) =~= source@);
            assert forall|k: int|
                0 <= k < result@.len() implies (match #[trigger] result@[k] {
                Match::Literal { offset, .. } => match match_bytes(
                    dest@,
                    self.codec(),
                    result@[k],
                ) {
                    Some(bts) => forall|q: int|
                        offset <= q && q + bs <= slen && q < offset + bts.len()
                            ==> !window_matches(source@, dest@, checksums@, bs as int, q),
                    None => true,
                },
                Match::Block { .. } => true,
            }) by {
                if k < before_tail.len() {
                    assert(result@.subrange(0, before_tail.len() as int)[k] == result@[k]);
                    assert(result@[k] == before_tail[k]);
                }
            }
        }
        result
    }
}

} // verus!
