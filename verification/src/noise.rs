//! Permutation tables for Perlin noise.
//!
//! The noise function itself works on floating-point lattice weights and
//! lives with the caller; what is verified here is the part that can go
//! wrong silently: the tables really are permutations of `0..256`, and the
//! lattice lookup built from them always lands inside a 256-entry table.

use vstd::prelude::*;
use crate::random::random_below;

verus! {

/// The table length shared by the permutation tables and the gradient table.
pub const PERLIN_TABLE_LEN: usize = 256;

/// The sequence `0, 1, ..., n - 1` as `i32` entries.
pub open spec fn identity_table(n: nat) -> Seq<i32> {
    Seq::new(n, |i: int| i as i32)
}

/// A permutation table: some rearrangement of `0..256`.
pub open spec fn is_permutation_table(s: Seq<i32>) -> bool {
    s.to_multiset() == identity_table(PERLIN_TABLE_LEN as nat).to_multiset()
}

/// Swapping two entries of a sequence leaves its multiset of entries as it
/// was; shared by this module's shuffle and the hierarchy build's sort.
pub proof fn lemma_swap_preserves_multiset<A>(s: Seq<A>, i: int, j: int)
    requires
        0 <= i < s.len(),
        0 <= j < s.len(),
    ensures
        s.update(i, s[j]).update(j, s[i]).to_multiset() == s.to_multiset(),
{
    broadcast use vstd::seq_lib::group_to_multiset_ensures;
    broadcast use vstd::seq_lib::to_multiset_update;

    let s1 = s.update(i, s[j]);
    if i == j {
        assert(s1 =~= s);
        assert(s1.update(j, s[i]) =~= s);
    } else {
        let m = s.to_multiset();
        assert(s.contains(s[i]));
        assert(s.contains(s[j]));
        assert(m.count(s[i]) > 0);
        assert(m.count(s[j]) > 0);
        assert(s1[j] == s[j]);
        assert(s1.to_multiset() == m.insert(s[j]).remove(s[i]));
        assert(s1.update(j, s[i]).to_multiset() == m.insert(s[j]).remove(s[i]).insert(
            s[i],
        ).remove(s[j]));
        assert(m.insert(s[j]).remove(s[i]).insert(s[i]).remove(s[j]) =~= m);
    }
}

/// Fisher-Yates shuffling, from the back of the table down: each entry is
/// exchanged with an entry drawn at or below it. The entries are
/// rearranged, never changed.
pub fn permute(p: &mut Vec<i32>)
    ensures
        final(p)@.len() == old(p)@.len(),
        final(p)@.to_multiset() == old(p)@.to_multiset(),
{
    let n = p.len();
    let mut i: usize = n;
    while i > 0
        invariant
            i <= n,
            p@.len() == n,
            p@.to_multiset() == old(p)@.to_multiset(),
        decreases i,
    {
        i = i - 1;
        let target = random_below(i + 1);
        let tmp = p[i];
        let other = p[target];
        proof {
            lemma_swap_preserves_multiset(p@, i as int, target as int);
        }
        p.set(i, other);
        p.set(target, tmp);
    }
}

/// Builds a permutation of `0..256` by shuffling the identity table.
pub fn perlin_generate_perm() -> (r: Vec<i32>)
    ensures
        r@.len() == PERLIN_TABLE_LEN,
        is_permutation_table(r@),
        forall|i: int| 0 <= i < r@.len() ==> 0 <= #[trigger] r@[i] < PERLIN_TABLE_LEN,
{
    let mut p: Vec<i32> = Vec::new();
    let mut i: usize = 0;
    while i < PERLIN_TABLE_LEN
        invariant
            i <= PERLIN_TABLE_LEN,
            p@.len() == i,
            forall|k: int| 0 <= k < i ==> #[trigger] p@[k] == k as i32,
        decreases PERLIN_TABLE_LEN - i,
    {
        p.push(i as i32);
        i = i + 1;
    }
    assert(p@ =~= identity_table(PERLIN_TABLE_LEN as nat));
    permute(&mut p);
    proof {
        lemma_permutation_table_entries_in_range(p@);
    }
    p
}

/// Every entry of a permutation table lies in `0..256`.
pub proof fn lemma_permutation_table_entries_in_range(s: Seq<i32>)
    requires
        is_permutation_table(s),
    ensures
        s.len() == PERLIN_TABLE_LEN,
        forall|i: int| 0 <= i < s.len() ==> 0 <= #[trigger] s[i] < PERLIN_TABLE_LEN,
{
    broadcast use vstd::seq_lib::group_to_multiset_ensures;

    let id = identity_table(PERLIN_TABLE_LEN as nat);
    assert(s.to_multiset().len() == id.to_multiset().len());
    assert forall|i: int| 0 <= i < s.len() implies 0 <= #[trigger] s[i] < PERLIN_TABLE_LEN by {
        assert(s.to_multiset().count(s[i]) > 0);
        assert(id.to_multiset().count(s[i]) > 0);
        assert(id.contains(s[i]));
        let j = choose|j: int| 0 <= j < id.len() && id[j] == s[i];
        assert(id[j] == j as i32);
    }
}

/// The noise lattice. The caller owns three permutation tables from
/// `perlin_generate_perm` and a gradient table of the same length; the
/// lookup that folds the tables together is verified here.
pub struct Perlin;

impl Perlin {
    /// Folds a lattice coordinate into the tables: each coordinate is masked
    /// to eight bits, looked up in its own permutation table, and the three
    /// results are combined by exclusive or. The result is exactly that
    /// fold, and always indexes a 256-entry gradient table.
    pub fn lattice_index(
        perm_x: &Vec<i32>,
        perm_y: &Vec<i32>,
        perm_z: &Vec<i32>,
        i: i32,
        j: i32,
        k: i32,
    ) -> (r: usize)
        requires
            perm_x@.len() == PERLIN_TABLE_LEN,
            perm_y@.len() == PERLIN_TABLE_LEN,
            perm_z@.len() == PERLIN_TABLE_LEN,
            forall|t: int| 0 <= t < perm_x@.len() ==> 0 <= #[trigger] perm_x@[t] < PERLIN_TABLE_LEN,
            forall|t: int| 0 <= t < perm_y@.len() ==> 0 <= #[trigger] perm_y@[t] < PERLIN_TABLE_LEN,
            forall|t: int| 0 <= t < perm_z@.len() ==> 0 <= #[trigger] perm_z@[t] < PERLIN_TABLE_LEN,
        ensures
            r < PERLIN_TABLE_LEN,
            r == (perm_x@[(i & 255) as int] ^ perm_y@[(j & 255) as int] ^ perm_z@[(k
                & 255) as int]) as usize,
    {
        let mi = i & 255;
        let mj = j & 255;
        let mk = k & 255;
        assert(0 <= i & 255 < 256 && 0 <= j & 255 < 256 && 0 <= k & 255 < 256) by (bit_vector);
        let x = perm_x[mi as usize];
        let y = perm_y[mj as usize];
        let z = perm_z[mk as usize];
        let folded = x ^ y ^ z;
        assert(0 <= (x ^ y ^ z) < 256) by (bit_vector)
            requires
                0 <= x < 256 && 0 <= y < 256 && 0 <= z < 256,
        ;
        folded as usize
    }
}

} // verus!
