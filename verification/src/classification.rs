use itertools::Itertools;
use vstd::prelude::*;

verus! {

/// The elements of `s` without repetitions: each one at the place where it occurs first.
pub open spec fn first_occurrences(s: Seq<u32>) -> Seq<u32>
    decreases s.len(),
{
    if s.len() == 0 {
        Seq::empty()
    } else {
        let before = first_occurrences(s.drop_last());
        if s.drop_last().contains(s.last()) {
            before
        } else {
            before.push(s.last())
        }
    }
}

/// How often `x` occurs in `s`.
pub open spec fn occurrences(s: Seq<u32>, x: u32) -> nat
    decreases s.len(),
{
    if s.len() == 0 {
        0
    } else {
        occurrences(s.drop_last(), x) + if s.last() == x {
            1nat
        } else {
            0nat
        }
    }
}

/// `x` is among the first occurrences of the elements of `s` exactly if it is in `s`.
pub proof fn lemma_first_occurrences_same_elements(s: Seq<u32>, x: u32)
    ensures
        first_occurrences(s).contains(x) <==> s.contains(x),
    decreases s.len(),
{
    if s.len() > 0 {
        let front = s.drop_last();
        let before = first_occurrences(front);
        let after = first_occurrences(s);
        lemma_first_occurrences_same_elements(front, x);
        if s.contains(x) {
            let i = choose|i: int| 0 <= i < s.len() && s[i] == x;
            if i < s.len() - 1 {
                assert(front[i] == x);
            }
            if front.contains(x) {
                let j = choose|j: int| 0 <= j < before.len() && before[j] == x;
                assert(after[j] == x);
            } else {
                assert(after[before.len() as int] == x);
            }
        }
        if after.contains(x) {
            let j = choose|j: int| 0 <= j < after.len() && after[j] == x;
            if j < before.len() {
                assert(before[j] == x);
                let i = choose|i: int| 0 <= i < front.len() && front[i] == x;
                assert(s[i] == x);
            } else {
                assert(s[s.len() - 1] == x);
            }
        }
    }
}

/// The labels of `labels` without repetitions, each where it occurs first.
///
/// Calls `Itertools::unique` on the labels in order and collects what it yields. That
/// adaptor keeps, of each set of equal items, the one it meets first, and yields the kept
/// items in the order in which they occur; this is what the contract says.
#[verifier::external_body]
fn unique_labels(labels: &Vec<u32>) -> (r: Vec<u32>)
    ensures
        r@ == first_occurrences(labels@),
{
    labels.iter().copied().unique().collect()
}

/// Counts how often `label` occurs in `labels`.
fn count_label(labels: &Vec<u32>, label: u32) -> (r: usize)
    ensures
        r == occurrences(labels@, label),
{
    let mut count: usize = 0;
    let mut i: usize = 0;
    while i < labels.len()
        invariant
            i <= labels.len(),
            count <= i,
            count == occurrences(labels@.take(i as int), label),
        decreases labels.len() - i,
    {
        assert(labels@.take(i + 1).drop_last() =~= labels@.take(i as int));
        if labels[i] == label {
            count += 1;
        }
        i += 1;
    }
    assert(labels@.take(i as int) =~= labels@);
    count
}

/// Each label that occurs in `labels`, in the order of its first occurrence, with the number
/// of times that it occurs.
pub fn label_frequencies(labels: &Vec<u32>) -> (r: Vec<(u32, usize)>)
    ensures
        r@.len() == first_occurrences(labels@).len(),
        forall|i: int|
            0 <= i < r@.len() ==> (#[trigger] r@[i]).0 == first_occurrences(labels@)[i] && r@[i].1
                == occurrences(labels@, r@[i].0),
{
    let unique: Vec<u32> = unique_labels(labels);
    let mut frequencies: Vec<(u32, usize)> = Vec::new();
    let mut i: usize = 0;
    while i < unique.len()
        invariant
            i <= unique.len(),
            unique@ == first_occurrences(labels@),
            frequencies@.len() == i,
            forall|k: int|
                0 <= k < i ==> (#[trigger] frequencies@[k]).0 == unique@[k] && frequencies@[k].1
                    == occurrences(labels@, unique@[k]),
        decreases unique.len() - i,
    {
        let label: u32 = unique[i];
        frequencies.push((label, count_label(labels, label)));
        i += 1;
    }
    frequencies
}

/// The label that a point gets from the labels of its nearest neighbours: the greatest label
/// among them, and nothing where there is no neighbour.
pub fn greatest_label(labels: &Vec<u32>) -> (r: Option<u32>)
    ensures
        r is None <==> labels@.len() == 0,
        r matches Some(m) ==> labels@.contains(m) && forall|i: int|
            0 <= i < labels@.len() ==> labels@[i] <= m,
{
    let frequencies: Vec<(u32, usize)> = label_frequencies(labels);
    let ghost unique = first_occurrences(labels@);
    if frequencies.len() == 0 {
        assert(labels@.len() == 0) by {
            if labels@.len() > 0 {
                lemma_first_occurrences_same_elements(labels@, labels@[0]);
                assert(labels@.contains(labels@[0]));
            }
        }
        return None;
    }
    let mut best: u32 = frequencies[0].0;
    let mut i: usize = 1;
    while i < frequencies.len()
        invariant
            1 <= i <= frequencies.len(),
            frequencies@.len() == unique.len(),
            forall|k: int| 0 <= k < frequencies@.len() ==> (#[trigger] frequencies@[k]).0 == unique[k],
            unique.contains(best),
            forall|k: int| 0 <= k < i ==> unique[k] <= best,
        decreases frequencies.len() - i,
    {
        if frequencies[i].0 >= best {
            best = frequencies[i].0;
        }
        i += 1;
    }
    proof {
        lemma_first_occurrences_same_elements(labels@, best);
    }
    assert forall|k: int| 0 <= k < labels@.len() implies labels@[k] <= best by {
        lemma_first_occurrences_same_elements(labels@, labels@[k]);
        assert(labels@.contains(labels@[k]));
    }
    Some(best)
}

} // verus!
