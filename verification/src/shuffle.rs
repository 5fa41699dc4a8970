//! Shuffling the sample order: a Fisher–Yates pass over the index
//! vector, drawing positions from the process-wide random generator.
//!
//! Nothing can be promised about which order comes out; what is proved
//! is that whatever comes out is a permutation of `0..n` — every sample
//! index appears, none twice — so an epoch visits each sample once.

use vstd::prelude::*;

use rand::Rng;

verus! {

/// Relies on `rand::Rng::gen_range` over `0..bound`: a value drawn from
/// that range, which is non-empty. Which value comes back is left open.
#[verifier::external_body]
fn random_index_below(bound: usize) -> (r: usize)
    requires
        bound >= 1,
    ensures
        r < bound,
{
    rand::thread_rng().gen_range(0..bound)
}

/// A permutation of `0..n`: the right length, every entry in range,
/// no entry repeated, every index present.
pub open spec fn is_index_permutation(s: Seq<usize>, n: nat) -> bool {
    &&& s.len() == n
    &&& forall|k: int| 0 <= k < s.len() ==> (#[trigger] s[k]) < n
    &&& forall|k1: int, k2: int| 0 <= k1 < k2 < s.len() ==> s[k1] != s[k2]
    &&& forall|v: usize| v < n ==> s.contains(v)
}

/// Exchanging two entries keeps every value the sequence contains.
proof fn lemma_swap_preserves_contains(s1: Seq<usize>, s2: Seq<usize>, i: int, j: int)
    requires
        0 <= i < s1.len(),
        0 <= j < s1.len(),
        s2 == s1.update(i, s1[j]).update(j, s1[i]),
    ensures
        forall|v: usize| s1.contains(v) ==> s2.contains(v),
{
    assert forall|v: usize| s1.contains(v) implies s2.contains(v) by {
        let k = choose|k: int| 0 <= k < s1.len() && s1[k] == v;
        if k == i {
            assert(s2[j] == v);
        } else if k == j {
            assert(s2[i] == v);
        } else {
            assert(s2[k] == v);
        }
    }
}

/// Returns the indices `0..n` in a uniformly shuffled order: always a
/// permutation, whatever the generator returned.
pub fn shuffle_indices(n: usize) -> (r: Vec<usize>)
    ensures
        is_index_permutation(r@, n as nat),
{
    let mut r: Vec<usize> = Vec::new();
    let mut k: usize = 0;
    while k < n
        invariant
            k <= n,
            r@.len() == k,
            forall|m: int| 0 <= m < k ==> (#[trigger] r@[m]) == m,
        decreases n - k,
    {
        r.push(k);
        k += 1;
    }
    proof {
        assert forall|v: usize| v < n implies r@.contains(v) by {
            assert(r@[v as int] == v);
        }
    }
    if n <= 1 {
        return r;
    }
    let mut i: usize = n - 1;
    while i >= 1
        invariant
            n >= 2,
            i <= n - 1,
            r@.len() == n,
            forall|m: int| 0 <= m < n ==> (#[trigger] r@[m]) < n,
            forall|k1: int, k2: int| 0 <= k1 < k2 < n ==> r@[k1] != r@[k2],
            forall|v: usize| v < n ==> r@.contains(v),
        decreases i,
    {
        let j = random_index_below(i + 1);
        let ghost before = r@;
        let a = r[i];
        let b = r[j];
        r[i] = b;
        r[j] = a;
        proof {
            assert(r@ == before.update(i as int, b).update(j as int, a));
            lemma_swap_preserves_contains(before, r@, i as int, j as int);
            assert forall|k1: int, k2: int| 0 <= k1 < k2 < n implies r@[k1] != r@[k2] by {
                let m1 = if k1 == i as int {
                    j as int
                } else if k1 == j as int {
                    i as int
                } else {
                    k1
                };
                let m2 = if k2 == i as int {
                    j as int
                } else if k2 == j as int {
                    i as int
                } else {
                    k2
                };
                assert(r@[k1] == before[m1]);
                assert(r@[k2] == before[m2]);
            }
        }
        i -= 1;
    }
    r
}

} // verus!
