use vstd::prelude::*;

verus! {

/// Whether `s` is in non-decreasing order.
pub open spec fn is_sorted(s: Seq<i64>) -> bool {
    forall|i: int, j: int| 0 <= i <= j < s.len() ==> s[i] <= s[j]
}

/// `s` with the elements at `i` and `j` exchanged.
pub open spec fn swapped(s: Seq<i64>, i: int, j: int) -> Seq<i64> {
    s.update(i, s[j]).update(j, s[i])
}

/// Exchanging two elements keeps every element as often as it was there.
pub proof fn lemma_swap_keeps_multiset(s: Seq<i64>, i: int, j: int)
    requires
        0 <= i < s.len(),
        0 <= j < s.len(),
    ensures
        swapped(s, i, j).to_multiset() == s.to_multiset(),
{
    broadcast use vstd::multiset::group_multiset_axioms;

    let mid = s.update(i, s[j]);
    vstd::seq_lib::to_multiset_update(s, i, s[j]);
    vstd::seq_lib::to_multiset_update(mid, j, s[i]);
    vstd::seq_lib::to_multiset_contains(s, s[i]);
    vstd::seq_lib::to_multiset_contains(s, s[j]);
    assert(s.contains(s[i]));
    assert(s.contains(s[j]));
    assert(swapped(s, i, j).to_multiset() =~= s.to_multiset());
}

/// Sorts `arr` in place, smallest first, and hands it back.
pub fn selection_sort(arr: &mut [i64]) -> (r: &[i64])
    ensures
        is_sorted(final(arr)@),
        final(arr)@.to_multiset() == old(arr)@.to_multiset(),
        r@ == final(arr)@,
{
    let n: usize = arr.len();
    let mut x: usize = 0;
    while x < n
        invariant
            arr@.len() == n,
            x <= n,
            arr@.to_multiset() == old(arr)@.to_multiset(),
            forall|i: int, j: int| 0 <= i <= j < x ==> arr@[i] <= arr@[j],
            forall|i: int, j: int| 0 <= i < x <= j < n ==> arr@[i] <= arr@[j],
        decreases n - x,
    {
        let mut small: usize = x;
        let mut y: usize = x + 1;
        while y < n
            invariant
                arr@.len() == n,
                x <= small < y <= n,
                forall|k: int| x <= k < y ==> arr@[small as int] <= arr@[k],
            decreases n - y,
        {
            if arr[y] < arr[small] {
                small = y;
            }
            y += 1;
        }
        let ghost before = arr@;
        let least: i64 = arr[small];
        let first: i64 = arr[x];
        arr[small] = first;
        arr[x] = least;
        proof {
            assert(arr@ =~= swapped(before, small as int, x as int));
            lemma_swap_keeps_multiset(before, small as int, x as int);
        }
        x += 1;
    }
    arr
}

} // verus!
