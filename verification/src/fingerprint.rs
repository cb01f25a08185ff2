//! Fingerprints of file sets for watch mode and the incremental cache.
//!
//! A fingerprint hashes one number per file (the file's path, size and
//! modification time, hashed by the caller) in an order-independent way:
//! the numbers are sorted first.
use vstd::prelude::*;
use vstd::relations::{sorted_by, total_ordering};
use vstd::std_specs::hash::DefaultHasherAdditionalSpecFns;
use std::collections::hash_map::DefaultHasher;
use std::hash::Hasher;

use crate::text::{chars_of, eq_str};

verus! {

/// Directories never worth watching or hashing.
pub open spec fn skipped_dir(name: Seq<char>) -> bool {
    name == ".git"@ || name == "target"@ || name == "node_modules"@ || name == ".x-cache"@
}

/// Directories never worth watching or hashing.
pub fn is_skipped_dir(name: &str) -> (b: bool)
    ensures
        b == skipped_dir(name@),
{
    let v = chars_of(name);
    eq_str(&v, ".git") || eq_str(&v, "target") || eq_str(&v, "node_modules") || eq_str(
        &v,
        ".x-cache",
    )
}

/// The order of file hashes.
pub open spec fn hash_leq() -> spec_fn(u64, u64) -> bool {
    |a: u64, b: u64| a <= b
}

/// The file hashes in increasing order.
pub open spec fn sorted_hashes(hashes: Seq<u64>) -> Seq<u64> {
    hashes.sort_by(hash_leq())
}

proof fn lemma_hash_leq_total()
    ensures
        total_ordering(hash_leq()),
{
}

/// The eight bytes of `h`, least significant first.
pub open spec fn le_bytes(h: u64) -> Seq<u8> {
    Seq::new(8, |i: int| ((h >> ((8 * i) as u64)) & 0xff) as u8)
}

/// The eight bytes of `h`, most significant first.
pub open spec fn be_bytes(h: u64) -> Seq<u8> {
    Seq::new(8, |i: int| ((h >> ((8 * (7 - i)) as u64)) & 0xff) as u8)
}

/// The eight bytes of `h` in the given byte order, as `u64::hash` writes them
/// on a machine of that order.
pub open spec fn hash_bytes(h: u64, little_endian: bool) -> Seq<u8> {
    if little_endian {
        le_bytes(h)
    } else {
        be_bytes(h)
    }
}

/// The fingerprint of a set of file hashes: the hasher fed with the sorted
/// hashes, eight bytes each, in the given byte order.
pub open spec fn fingerprint_spec(hashes: Seq<u64>, little_endian: bool) -> u64 {
    DefaultHasher::spec_finish(
        sorted_hashes(hashes).map_values(|h: u64| hash_bytes(h, little_endian)),
    )
}

/// Sorts file hashes into increasing order.
pub fn sort_hashes(hashes: &Vec<u64>) -> (r: Vec<u64>)
    ensures
        r@ == sorted_hashes(hashes@),
{
    let mut out: Vec<u64> = Vec::new();
    let mut i: usize = 0;
    assert(hashes@.take(0) =~= out@);
    while i < hashes.len()
        invariant
            i <= hashes.len(),
            sorted_by(out@, hash_leq()),
            out@.to_multiset() == hashes@.take(i as int).to_multiset(),
        decreases hashes.len() - i,
    {
        let x = hashes[i];
        let mut j: usize = 0;
        while j < out.len() && out[j] <= x
            invariant
                j <= out.len(),
                forall|k: int| 0 <= k < j ==> out@[k] <= x,
            decreases out.len() - j,
        {
            j += 1;
        }
        let ghost before = out@;
        out.insert(j, x);
        proof {
            vstd::seq_lib::to_multiset_insert(before, j as int, x);
            assert(hashes@.take(i + 1) =~= hashes@.take(i as int).push(x));
            vstd::seq_lib::to_multiset_build(hashes@.take(i as int), x);
            assert forall|a: int, b: int| 0 <= a < b < out@.len() implies (hash_leq())(
                out@[a],
                out@[b],
            ) by {
                assert(out@ == before.insert(j as int, x));
                if b < j {
                    assert((hash_leq())(before[a], before[b]));
                } else if b == j {
                } else if a < j {
                    assert((hash_leq())(before[a], before[b - 1]));
                } else if a == j {
                    if j < before.len() {
                        assert((hash_leq())(before[j as int], before[b - 1]));
                    }
                } else {
                    assert((hash_leq())(before[a - 1], before[b - 1]));
                }
            }
        }
        i += 1;
    }
    proof {
        assert(hashes@.take(hashes.len() as int) =~= hashes@);
        lemma_hash_leq_total();
        hashes@.lemma_sort_by_ensures(hash_leq());
        vstd::seq_lib::lemma_sorted_unique(out@, sorted_hashes(hashes@), hash_leq());
    }
    out
}

fn hash_bytes_exec(h: u64, little_endian: bool) -> (b: Vec<u8>)
    ensures
        b@ == hash_bytes(h, little_endian),
{
    let mut b: Vec<u8> = Vec::new();
    let mut i: u64 = 0;
    while i < 8
        invariant
            i <= 8,
            b@ == hash_bytes(h, little_endian).take(i as int),
        decreases 8 - i,
    {
        let shift: u64 = if little_endian { 8 * i } else { 8 * (7 - i) };
        b.push(((h >> shift) & 0xff) as u8);
        assert(b@ =~= hash_bytes(h, little_endian).take(i + 1));
        i += 1;
    }
    assert(hash_bytes(h, little_endian).take(8) =~= hash_bytes(h, little_endian));
    b
}

/// `u16::from_ne_bytes([1, 0])`: 1 on a little-endian machine, 256 on a
/// big-endian one. Nothing is claimed of it: it depends on the machine.
#[verifier::external_body]
fn native_u16_of_1_0() -> (v: u16) {
    u16::from_ne_bytes([1, 0])
}

/// Fingerprint a set of files, given one hash per file and the byte order
/// in which the hashes are fed to the hasher; the order of the hashes does
/// not matter.
pub fn fingerprint_in_order(file_hashes: &Vec<u64>, little_endian: bool) -> (fp: u64)
    ensures
        fp == fingerprint_spec(file_hashes@, little_endian),
{
    let sorted = sort_hashes(file_hashes);
    let mut hasher = DefaultHasher::new();
    let mut i: usize = 0;
    let ghost chunks = sorted@.map_values(|h: u64| hash_bytes(h, little_endian));
    while i < sorted.len()
        invariant
            i <= sorted.len(),
            chunks == sorted@.map_values(|h: u64| hash_bytes(h, little_endian)),
            hasher@ == chunks.take(i as int),
        decreases sorted.len() - i,
    {
        let bytes = hash_bytes_exec(sorted[i], little_endian);
        hasher.write(bytes.as_slice());
        assert(hasher@ =~= chunks.take(i + 1));
        i += 1;
    }
    assert(chunks.take(sorted.len() as int) =~= chunks);
    hasher.finish()
}

/// Fingerprint a set of files, given one hash per file: the hashes, sorted,
/// fed to the hasher in the machine's byte order, as `u64::hash` does.
pub fn fingerprint_inputs(file_hashes: &Vec<u64>) -> (fp: u64)
    ensures
        fp == fingerprint_spec(file_hashes@, true) || fp == fingerprint_spec(file_hashes@, false),
{
    let little = native_u16_of_1_0() == 1;
    fingerprint_in_order(file_hashes, little)
}

/// The fingerprint depends only on which file hashes occur, and how often,
/// not on their order.
pub proof fn lemma_fingerprint_order_independent(a: Seq<u64>, b: Seq<u64>, little_endian: bool)
    requires
        a.to_multiset() == b.to_multiset(),
    ensures
        fingerprint_spec(a, little_endian) == fingerprint_spec(b, little_endian),
{
    lemma_hash_leq_total();
    a.lemma_sort_by_ensures(hash_leq());
    b.lemma_sort_by_ensures(hash_leq());
    vstd::seq_lib::lemma_sorted_unique(sorted_hashes(a), sorted_hashes(b), hash_leq());
    assert(sorted_hashes(a) == sorted_hashes(b));
}

} // verus!
