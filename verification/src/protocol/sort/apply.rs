//! Permutations and what they do to a vector.

use vstd::prelude::*;

verus! {

/// Whether `perm` lists every index below its length exactly once. (That
/// none is listed twice is what is asked; that none is missing follows.)
pub open spec fn is_permutation(perm: Seq<u32>) -> bool {
    &&& forall|i: int| 0 <= i < perm.len() ==> (#[trigger] perm[i]) < perm.len()
    &&& forall|i: int, j: int|
        0 <= i < perm.len() && 0 <= j < perm.len() && i != j ==> #[trigger] perm[i]
            != #[trigger] perm[j]
}

/// The vector whose `i`-th item is the `perm[i]`-th item of `values`.
pub open spec fn applied<T>(perm: Seq<u32>, values: Seq<T>) -> Seq<T> {
    Seq::new(values.len(), |i: int| values[perm[i] as int])
}

/// Whether `moved` is `values` with every `i`-th item moved to place
/// `perm[i]`.
pub open spec fn is_applied_inv<T>(perm: Seq<u32>, values: Seq<T>, moved: Seq<T>) -> bool {
    &&& moved.len() == values.len()
    &&& forall|i: int| 0 <= i < values.len() ==> moved[(#[trigger] perm[i]) as int] == values[i]
}

/// The permutation that does what `first` and then `second` do:
/// `applied(second, applied(first, v)) == applied(composed(first, second), v)`.
pub open spec fn composed(first: Seq<u32>, second: Seq<u32>) -> Seq<u32> {
    Seq::new(second.len(), |i: int| first[second[i] as int])
}

/// Reorders `values` so that the new `i`-th item is the old `perm[i]`-th.
///
/// For example, `[2, 3, 1, 0]` turns `(A, B, C, D)` into `(C, D, B, A)`.
pub fn apply<T: Copy>(permutation: &[u32], values: &mut Vec<T>)
    requires
        permutation@.len() == old(values)@.len(),
        is_permutation(permutation@),
    ensures
        final(values)@ == applied(permutation@, old(values)@),
{
    let n: usize = values.len();
    let mut out: Vec<T> = Vec::new();
    let mut i: usize = 0;
    while i < n
        invariant
            i <= n,
            n == values@.len(),
            n == permutation@.len(),
            values@ == old(values)@,
            is_permutation(permutation@),
            out@.len() == i,
            forall|k: int| 0 <= k < i ==> out@[k] == values@[permutation@[k] as int],
        decreases n - i,
    {
        out.push(values[permutation[i] as usize]);
        i = i + 1;
    }
    assert(out@ =~= applied(permutation@, old(values)@));
    *values = out;
}

/// Reorders `values` so that the old `i`-th item becomes the new
/// `perm[i]`-th.
///
/// For example, `[2, 3, 1, 0]` turns `(A, B, C, D)` into `(D, C, A, B)`.
pub fn apply_inv<T: Copy>(permutation: &[u32], values: &mut Vec<T>)
    requires
        permutation@.len() == old(values)@.len(),
        is_permutation(permutation@),
    ensures
        is_applied_inv(permutation@, old(values)@, final(values)@),
{
    let n: usize = values.len();
    let mut out: Vec<T> = Vec::new();
    let mut k: usize = 0;
    while k < n
        invariant
            k <= n,
            n == values@.len(),
            out@.len() == k,
        decreases n - k,
    {
        out.push(values[k]);
        k = k + 1;
    }
    let mut i: usize = 0;
    while i < n
        invariant
            i <= n,
            n == values@.len(),
            n == permutation@.len(),
            values@ == old(values)@,
            is_permutation(permutation@),
            out@.len() == n,
            forall|k: int| 0 <= k < i ==> out@[(#[trigger] permutation@[k]) as int] == values@[k],
        decreases n - i,
    {
        out.set(permutation[i] as usize, values[i]);
        i = i + 1;
    }
    *values = out;
}

/// Whether `permutation` lists every index below its length exactly once.
pub fn check_permutation(permutation: &[u32]) -> (ok: bool)
    ensures
        ok == is_permutation(permutation@),
{
    let n: usize = permutation.len();
    let mut seen: Vec<bool> = Vec::new();
    let mut k: usize = 0;
    while k < n
        invariant
            k <= n,
            seen@.len() == k,
            forall|j: int| 0 <= j < k ==> !seen@[j],
        decreases n - k,
    {
        seen.push(false);
        k = k + 1;
    }
    let mut i: usize = 0;
    while i < n
        invariant
            i <= n,
            n == permutation@.len(),
            seen@.len() == n,
            forall|k: int| 0 <= k < i ==> (#[trigger] permutation@[k]) < n,
            forall|a: int, b: int|
                0 <= a < i && 0 <= b < i && a != b ==> #[trigger] permutation@[a]
                    != #[trigger] permutation@[b],
            forall|j: int|
                0 <= j < n ==> (#[trigger] seen@[j] <==> exists|k: int|
                    0 <= k < i && #[trigger] permutation@[k] == j),
        decreases n - i,
    {
        let target: u32 = permutation[i];
        if target as usize >= n {
            return false;
        }
        if seen[target as usize] {
            proof {
                let k = choose|k: int| 0 <= k < i && #[trigger] permutation@[k] == target;
                assert(permutation@[k] == permutation@[i as int]);
            }
            return false;
        }
        let ghost before = seen@;
        seen.set(target as usize, true);
        proof {
            assert forall|j: int| 0 <= j < n implies (#[trigger] seen@[j] <==> exists|k: int|
                0 <= k < i + 1 && #[trigger] permutation@[k] == j) by {
                if j == target {
                    assert(permutation@[i as int] == j);
                } else {
                    if before[j] {
                        let k = choose|k: int| 0 <= k < i && #[trigger] permutation@[k] == j;
                        assert(0 <= k < i + 1 && permutation@[k] == j);
                    }
                    if exists|k: int| 0 <= k < i + 1 && #[trigger] permutation@[k] == j {
                        let k = choose|k: int| 0 <= k < i + 1 && #[trigger] permutation@[k] == j;
                        assert(k != i);
                        assert(0 <= k < i && permutation@[k] == j);
                    }
                }
            }
        }
        i = i + 1;
    }
    true
}

/// Doing two permutations one after the other is doing their composition,
/// which is a permutation again.
pub proof fn lemma_composed<T>(first: Seq<u32>, second: Seq<u32>, values: Seq<T>)
    requires
        is_permutation(first),
        is_permutation(second),
        first.len() == second.len(),
        values.len() == first.len(),
    ensures
        is_permutation(composed(first, second)),
        applied(second, applied(first, values)) == applied(composed(first, second), values),
{
    let c = composed(first, second);
    assert forall|i: int, j: int| 0 <= i < c.len() && 0 <= j < c.len() && i != j implies #[trigger] c[i]
        != #[trigger] c[j] by {
        assert(second[i] != second[j]);
        assert(first[second[i] as int] != first[second[j] as int]);
    }
    assert(applied(second, applied(first, values)) =~= applied(c, values));
}

/// Moving every item to its place and then reading the places in order of
/// the items gives the items back.
pub proof fn lemma_applied_inv_undone<T>(perm: Seq<u32>, values: Seq<T>, moved: Seq<T>)
    requires
        is_permutation(perm),
        perm.len() == values.len(),
        is_applied_inv(perm, values, moved),
    ensures
        applied(perm, moved) == values,
{
    assert(applied(perm, moved) =~= values);
}

/// A permutation misses no index: every index below its length is listed.
pub proof fn lemma_permutation_onto(perm: Seq<u32>, j: int)
    requires
        is_permutation(perm),
        0 <= j < perm.len(),
    ensures
        exists|i: int| 0 <= i < perm.len() && #[trigger] perm[i] == j,
    decreases perm.len(),
{
    let n = perm.len() as int;
    if !(exists|i: int| 0 <= i < perm.len() && #[trigger] perm[i] == j) {
        // without `j`, the first `n - 1` items list indices below `n - 1`
        // once the indices above `j` are moved down by one
        let last = perm[n - 1];
        assert(last != j);
        let shrunk = Seq::new(
            (n - 1) as nat,
            |i: int|
                if perm[i] > j {
                    (perm[i] - 1) as u32
                } else {
                    perm[i]
                },
        );
        assert forall|i: int| 0 <= i < shrunk.len() implies (#[trigger] shrunk[i])
            < shrunk.len() by {
            assert(perm[i] != j);
            assert(perm[i] < n);
        }
        assert forall|a: int, b: int|
            0 <= a < shrunk.len() && 0 <= b < shrunk.len() && a != b implies #[trigger] shrunk[a]
            != #[trigger] shrunk[b] by {
            assert(perm[a] != perm[b]);
            assert(perm[a] != j && perm[b] != j);
        }
        let moved: int = if last > j {
            last - 1
        } else {
            last as int
        };
        assert(0 <= moved < n - 1) by {
            assert(last < n);
        }
        lemma_permutation_onto(shrunk, moved);
        let i = choose|i: int| 0 <= i < shrunk.len() && #[trigger] shrunk[i] == moved;
        assert(perm[i] != j);
        assert(perm[i] == last);
        assert(perm[i] != perm[n - 1]);
        assert(false);
    }
}

} // verus!
