//! Sorting slices of integers in place.

use vstd::multiset::Multiset;
use vstd::prelude::*;

verus! {

/// The values stand in ascending order.
pub open spec fn sorted(s: Seq<i32>) -> bool {
    forall|i: int, j: int| 0 <= i <= j < s.len() ==> s[i] <= s[j]
}

/// Both hold the same values, each as often as the other.
pub open spec fn same_values(a: Seq<i32>, b: Seq<i32>) -> bool {
    a.to_multiset() == b.to_multiset()
}

/// Exchanging two values keeps the values.
pub proof fn lemma_swap_keeps_values(s: Seq<i32>, a: int, b: int)
    requires
        0 <= a < s.len(),
        0 <= b < s.len(),
    ensures
        same_values(s.update(a, s[b]).update(b, s[a]), s),
{
    broadcast use vstd::seq_lib::group_to_multiset_ensures;
    broadcast use vstd::multiset::group_multiset_axioms;

    let once = s.update(a, s[b]);
    vstd::seq_lib::to_multiset_update(s, a, s[b]);
    vstd::seq_lib::to_multiset_update(once, b, s[a]);
    assert(s.contains(s[a]));
    assert(s.contains(s[b]));
    assert(once[b] == s[b]);
    assert(once.update(b, s[a]).to_multiset() =~= s.to_multiset());
}

/// Sorts by letting the greatest value of what is unsorted rise to its end,
/// once for each value.
pub fn bubble_sort(arr: &mut [i32])
    ensures
        sorted(final(arr)@),
        same_values(final(arr)@, old(arr)@),
{
    let n: usize = arr.len();
    let mut i: usize = 0;
    while i < n
        invariant
            arr@.len() == n,
            0 <= i <= n,
            same_values(arr@, old(arr)@),
            forall|a: int, b: int| n - i <= a <= b < n ==> arr@[a] <= arr@[b],
            forall|a: int, b: int| 0 <= a < n - i && n - i <= b < n ==> arr@[a] <= arr@[b],
        decreases n - i,
    {
        let mut j: usize = 0;
        while j + i + 1 < n
            invariant
                arr@.len() == n,
                0 <= i < n,
                0 <= j <= n - i - 1,
                same_values(arr@, old(arr)@),
                forall|a: int, b: int| n - i <= a <= b < n ==> arr@[a] <= arr@[b],
                forall|a: int, b: int| 0 <= a < n - i && n - i <= b < n ==> arr@[a] <= arr@[b],
                forall|a: int| 0 <= a <= j ==> arr@[a] <= arr@[j as int],
            decreases n - j,
        {
            if arr[j] > arr[j + 1] {
                let ghost before = arr@;
                let low: i32 = arr[j + 1];
                let high: i32 = arr[j];
                arr[j] = low;
                arr[j + 1] = high;
                proof {
                    lemma_swap_keeps_values(before, j as int, j + 1);
                    assert(arr@ =~= before.update(j as int, before[j + 1]).update(
                        j + 1,
                        before[j as int],
                    ));
                }
            }
            j = j + 1;
        }
        i = i + 1;
    }
}

/// Sorts by putting each value in its place among the values before it.
pub fn insertion_sort(arr: &mut [i32])
    ensures
        sorted(final(arr)@),
        same_values(final(arr)@, old(arr)@),
{
    let n: usize = arr.len();
    let mut i: usize = 1;
    while i < n
        invariant
            arr@.len() == n,
            1 <= i,
            same_values(arr@, old(arr)@),
            forall|a: int, b: int| 0 <= a <= b < i && b < n ==> arr@[a] <= arr@[b],
        decreases n - i,
    {
        let key: i32 = arr[i];
        let mut j: usize = i;
        let ghost start = arr@;
        proof {
            assert(arr@.update(j as int, key) =~= arr@);
        }
        while j > 0 && arr[j - 1] > key
            invariant
                arr@.len() == n,
                0 <= j <= i < n,
                same_values(arr@.update(j as int, key), old(arr)@),
                forall|a: int, b: int| 0 <= a <= b < j ==> arr@[a] <= arr@[b],
                forall|a: int, b: int| j < a <= b <= i ==> arr@[a] <= arr@[b],
                forall|a: int, b: int| 0 <= a < j && j < b <= i ==> arr@[a] <= arr@[b],
                forall|b: int| j < b <= i ==> key < arr@[b],
            decreases j,
        {
            let ghost before = arr@;
            let ghost held = before.update(j as int, key);
            let moved: i32 = arr[j - 1];
            arr[j] = moved;
            proof {
                lemma_swap_keeps_values(held, j - 1, j as int);
                assert(arr@.update(j - 1, key) =~= held.update(j - 1, held[j as int]).update(
                    j as int,
                    held[j - 1],
                ));
            }
            j = j - 1;
        }
        arr[j] = key;
        i = i + 1;
    }
}

/// Two runs merged: the lesser of the two first values goes first, the
/// first run's on a tie, and the rest is merged behind it.
pub open spec fn merged(a: Seq<i32>, b: Seq<i32>) -> Seq<i32>
    decreases a.len() + b.len(),
{
    if a.len() == 0 {
        b
    } else if b.len() == 0 {
        a
    } else if a[0] <= b[0] {
        seq![a[0]] + merged(a.skip(1), b)
    } else {
        seq![b[0]] + merged(a, b.skip(1))
    }
}

/// The values of a run with one value put before it.
pub proof fn lemma_prepend_values(x: i32, s: Seq<i32>)
    ensures
        (seq![x] + s).to_multiset() == s.to_multiset().insert(x),
{
    broadcast use vstd::seq_lib::group_to_multiset_ensures;
    broadcast use vstd::multiset::group_multiset_axioms;

    let one = Seq::<i32>::empty().push(x);
    assert(seq![x] =~= one);
    vstd::seq_lib::lemma_multiset_commutative(one, s);
    assert(one.to_multiset() =~= Multiset::<i32>::empty().insert(x));
    assert((seq![x] + s).to_multiset() =~= s.to_multiset().insert(x));
}

/// Merged runs hold the values of both runs, and as many as both.
pub proof fn lemma_merged_values(a: Seq<i32>, b: Seq<i32>)
    ensures
        merged(a, b).to_multiset() == a.to_multiset().add(b.to_multiset()),
        merged(a, b).len() == a.len() + b.len(),
    decreases a.len() + b.len(),
{
    broadcast use vstd::seq_lib::group_to_multiset_ensures;
    broadcast use vstd::multiset::group_multiset_axioms;

    if a.len() == 0 {
        assert(a.to_multiset() =~= Multiset::<i32>::empty());
        assert(b.to_multiset() =~= a.to_multiset().add(b.to_multiset()));
    } else if b.len() == 0 {
        assert(b.to_multiset() =~= Multiset::<i32>::empty());
        assert(a.to_multiset() =~= a.to_multiset().add(b.to_multiset()));
    } else if a[0] <= b[0] {
        lemma_merged_values(a.skip(1), b);
        lemma_prepend_values(a[0], merged(a.skip(1), b));
        lemma_prepend_values(a[0], a.skip(1));
        assert(a =~= seq![a[0]] + a.skip(1));
        assert(merged(a, b).to_multiset() =~= a.to_multiset().add(b.to_multiset()));
    } else {
        lemma_merged_values(a, b.skip(1));
        lemma_prepend_values(b[0], merged(a, b.skip(1)));
        lemma_prepend_values(b[0], b.skip(1));
        assert(b =~= seq![b[0]] + b.skip(1));
        assert(merged(a, b).to_multiset() =~= a.to_multiset().add(b.to_multiset()));
    }
}

/// Every value of merged runs is a value of one of the runs.
pub proof fn lemma_merged_from(a: Seq<i32>, b: Seq<i32>, k: int)
    requires
        0 <= k < merged(a, b).len(),
    ensures
        a.contains(merged(a, b)[k]) || b.contains(merged(a, b)[k]),
    decreases a.len() + b.len(),
{
    if a.len() == 0 {
        assert(b[k] == merged(a, b)[k]);
    } else if b.len() == 0 {
        assert(a[k] == merged(a, b)[k]);
    } else if a[0] <= b[0] {
        if k == 0 {
            assert(a[0] == merged(a, b)[0]);
        } else {
            lemma_merged_from(a.skip(1), b, k - 1);
            let x = merged(a.skip(1), b)[k - 1];
            if a.skip(1).contains(x) {
                let w = choose|w: int| 0 <= w < a.skip(1).len() && a.skip(1)[w] == x;
                assert(a[w + 1] == x);
            }
        }
    } else {
        if k == 0 {
            assert(b[0] == merged(a, b)[0]);
        } else {
            lemma_merged_from(a, b.skip(1), k - 1);
            let x = merged(a, b.skip(1))[k - 1];
            if b.skip(1).contains(x) {
                let w = choose|w: int| 0 <= w < b.skip(1).len() && b.skip(1)[w] == x;
                assert(b[w + 1] == x);
            }
        }
    }
}

/// Two runs in ascending order merge into ascending order.
pub proof fn lemma_merged_sorted(a: Seq<i32>, b: Seq<i32>)
    requires
        sorted(a),
        sorted(b),
    ensures
        sorted(merged(a, b)),
    decreases a.len() + b.len(),
{
    let m = merged(a, b);
    if a.len() == 0 || b.len() == 0 {
    } else if a[0] <= b[0] {
        let rest = merged(a.skip(1), b);
        assert(sorted(a.skip(1))) by {
            assert forall|i: int, j: int| 0 <= i <= j < a.skip(1).len() implies a.skip(1)[i]
                <= a.skip(1)[j] by {
                assert(a.skip(1)[i] == a[i + 1] && a.skip(1)[j] == a[j + 1]);
            }
        }
        lemma_merged_sorted(a.skip(1), b);
        assert forall|i: int, j: int| 0 <= i <= j < m.len() implies m[i] <= m[j] by {
            if i == 0 && j > 0 {
                lemma_merged_from(a.skip(1), b, j - 1);
                let x = rest[j - 1];
                if a.skip(1).contains(x) {
                    let w = choose|w: int| 0 <= w < a.skip(1).len() && a.skip(1)[w] == x;
                    assert(a[w + 1] == x);
                } else {
                    let w = choose|w: int| 0 <= w < b.len() && b[w] == x;
                    assert(b[0] <= b[w]);
                }
            } else if i > 0 {
                assert(m[i] == rest[i - 1] && m[j] == rest[j - 1]);
            }
        }
    } else {
        let rest = merged(a, b.skip(1));
        assert(sorted(b.skip(1))) by {
            assert forall|i: int, j: int| 0 <= i <= j < b.skip(1).len() implies b.skip(1)[i]
                <= b.skip(1)[j] by {
                assert(b.skip(1)[i] == b[i + 1] && b.skip(1)[j] == b[j + 1]);
            }
        }
        lemma_merged_sorted(a, b.skip(1));
        assert forall|i: int, j: int| 0 <= i <= j < m.len() implies m[i] <= m[j] by {
            if i == 0 && j > 0 {
                lemma_merged_from(a, b.skip(1), j - 1);
                let x = rest[j - 1];
                if a.contains(x) {
                    let w = choose|w: int| 0 <= w < a.len() && a[w] == x;
                    assert(a[0] <= a[w]);
                } else {
                    let w = choose|w: int| 0 <= w < b.skip(1).len() && b.skip(1)[w] == x;
                    assert(b[w + 1] == x);
                }
            } else if i > 0 {
                assert(m[i] == rest[i - 1] && m[j] == rest[j - 1]);
            }
        }
    }
}

/// The values of two runs laid end to end are the values of both.
pub proof fn lemma_concat_values(a: Seq<i32>, b: Seq<i32>, c: Seq<i32>, d: Seq<i32>)
    requires
        same_values(a, c),
        same_values(b, d),
    ensures
        same_values(a + b, c + d),
{
    vstd::seq_lib::lemma_multiset_commutative(a, b);
    vstd::seq_lib::lemma_multiset_commutative(c, d);
}

/// Merges the run before `midpoint` with the run from `midpoint` on, as
/// `merged` has it. The slice keeps its values; where both runs were in
/// ascending order, so is the whole slice afterwards.
pub fn merge(arr: &mut [i32], midpoint: usize)
    requires
        midpoint <= old(arr)@.len(),
    ensures
        final(arr)@ == merged(
            old(arr)@.subrange(0, midpoint as int),
            old(arr)@.subrange(midpoint as int, old(arr)@.len() as int),
        ),
        same_values(final(arr)@, old(arr)@),
        sorted(old(arr)@.subrange(0, midpoint as int)) && sorted(
            old(arr)@.subrange(midpoint as int, old(arr)@.len() as int),
        ) ==> sorted(final(arr)@),
{
    let n: usize = arr.len();
    let ghost orig = arr@;
    let ghost left = orig.subrange(0, midpoint as int);
    let ghost right = orig.subrange(midpoint as int, n as int);
    let mut lhs: Vec<i32> = Vec::new();
    let mut c: usize = 0;
    while c < midpoint
        invariant
            arr@ == orig,
            orig.len() == n,
            0 <= c <= midpoint <= n,
            lhs@ == orig.subrange(0, c as int),
        decreases midpoint - c,
    {
        lhs.push(arr[c]);
        proof {
            assert(lhs@ =~= orig.subrange(0, c + 1));
        }
        c = c + 1;
    }
    let mut i: usize = 0;
    let mut j: usize = midpoint;
    let mut k: usize = 0;
    proof {
        assert(arr@.take(0) =~= Seq::<i32>::empty());
        assert(lhs@.skip(0) =~= lhs@);
        assert(orig.subrange(midpoint as int, n as int) =~= right);
        assert(arr@.take(0) + merged(lhs@.skip(0), orig.subrange(j as int, n as int)) =~= merged(
            left,
            right,
        ));
    }
    while i < lhs.len() && j < n
        invariant
            arr@.len() == n,
            orig.len() == n,
            lhs@ == left,
            left == orig.subrange(0, midpoint as int),
            right == orig.subrange(midpoint as int, n as int),
            0 <= i <= midpoint <= j <= n,
            k == i + j - midpoint,
            forall|t: int| j <= t < n ==> arr@[t] == orig[t],
            arr@.take(k as int) + merged(lhs@.skip(i as int), orig.subrange(j as int, n as int))
                == merged(left, right),
        decreases midpoint - i + n - j,
    {
        let ghost before = arr@;
        let ghost a = lhs@.skip(i as int);
        let ghost b = orig.subrange(j as int, n as int);
        proof {
            assert(a[0] == lhs@[i as int]);
            assert(b[0] == orig[j as int]);
            assert(a.skip(1) =~= lhs@.skip(i + 1));
            assert(b.skip(1) =~= orig.subrange(j + 1, n as int));
        }
        if lhs[i] <= arr[j] {
            let x: i32 = lhs[i];
            arr[k] = x;
            proof {
                assert(arr@.take(k + 1) =~= before.take(k as int).push(x));
                assert(arr@.take(k + 1) + merged(a.skip(1), b) =~= before.take(k as int) + merged(
                    a,
                    b,
                ));
            }
            i = i + 1;
        } else {
            let x: i32 = arr[j];
            arr[k] = x;
            proof {
                assert(arr@.take(k + 1) =~= before.take(k as int).push(x));
                assert(arr@.take(k + 1) + merged(a, b.skip(1)) =~= before.take(k as int) + merged(
                    a,
                    b,
                ));
            }
            j = j + 1;
        }
        k = k + 1;
    }
    while i < lhs.len()
        invariant
            arr@.len() == n,
            orig.len() == n,
            lhs@ == left,
            left == orig.subrange(0, midpoint as int),
            right == orig.subrange(midpoint as int, n as int),
            0 <= i <= midpoint <= j <= n,
            k == i + j - midpoint,
            i < midpoint ==> j == n,
            forall|t: int| j <= t < n ==> arr@[t] == orig[t],
            arr@.take(k as int) + merged(lhs@.skip(i as int), orig.subrange(j as int, n as int))
                == merged(left, right),
        decreases midpoint - i,
    {
        let ghost before = arr@;
        let ghost a = lhs@.skip(i as int);
        let ghost b = orig.subrange(j as int, n as int);
        let x: i32 = lhs[i];
        arr[k] = x;
        proof {
            assert(b.len() == 0);
            assert(a[0] == x);
            assert(a.skip(1) =~= lhs@.skip(i + 1));
            assert(merged(a, b) == a);
            assert(a.skip(1).len() == 0 ==> merged(a.skip(1), b) == b);
            assert(merged(a.skip(1), b) =~= a.skip(1));
            assert(arr@.take(k + 1) =~= before.take(k as int).push(x));
            assert(arr@.take(k + 1) + merged(a.skip(1), b) =~= before.take(k as int) + merged(
                a,
                b,
            ));
        }
        i = i + 1;
        k = k + 1;
    }
    proof {
        assert(lhs@.skip(midpoint as int) =~= Seq::<i32>::empty());
        assert(merged(lhs@.skip(i as int), orig.subrange(j as int, n as int)) == orig.subrange(
            j as int,
            n as int,
        ));
        assert(arr@ =~= arr@.take(k as int) + orig.subrange(j as int, n as int));
        lemma_merged_values(left, right);
        assert(orig =~= left + right);
        vstd::seq_lib::lemma_multiset_commutative(left, right);
        if sorted(left) && sorted(right) {
            lemma_merged_sorted(left, right);
        }
    }
}

/// Sorts by halving, sorting each half, and merging the halves.
pub fn merge_sort(arr: &mut [i32])
    ensures
        sorted(final(arr)@),
        same_values(final(arr)@, old(arr)@),
    decreases old(arr)@.len(),
{
    if arr.len() == 0 || arr.len() == 1 {
        return;
    }
    let midpoint: usize = arr.len() / 2;
    let ghost orig = arr@;
    let (lhs, rhs) = arr.split_at_mut(midpoint);
    let ghost left = lhs@;
    let ghost right = rhs@;
    merge_sort(lhs);
    merge_sort(rhs);
    let ghost halves = arr@;
    proof {
        assert(orig =~= left + right);
        lemma_halves(halves, orig, left, right, midpoint as int);
    }
    merge(arr, midpoint);
}

/// What two sorted halves, laid end to end, say of the whole: it holds the
/// values of the unsorted whole, and each of its halves is in order.
pub proof fn lemma_halves(
    halves: Seq<i32>,
    orig: Seq<i32>,
    left: Seq<i32>,
    right: Seq<i32>,
    midpoint: int,
)
    requires
        orig == left + right,
        left.len() == midpoint,
        exists|l: Seq<i32>, r: Seq<i32>|
            halves == l + r && sorted(l) && sorted(r) && same_values(l, left) && same_values(
                r,
                right,
            ),
    ensures
        same_values(halves, orig),
        halves.len() == orig.len(),
        sorted(halves.subrange(0, midpoint)),
        sorted(halves.subrange(midpoint, halves.len() as int)),
{
    broadcast use vstd::seq_lib::group_to_multiset_ensures;

    let (l, r) = choose|l: Seq<i32>, r: Seq<i32>|
        halves == l + r && sorted(l) && sorted(r) && same_values(l, left) && same_values(r, right);
    lemma_concat_values(l, r, left, right);
    vstd::seq_lib::to_multiset_len(l);
    vstd::seq_lib::to_multiset_len(left);
    vstd::seq_lib::to_multiset_len(r);
    vstd::seq_lib::to_multiset_len(right);
    assert(l.len() == left.len());
    assert(r.len() == right.len());
    assert(halves.subrange(0, midpoint) =~= l);
    assert(halves.subrange(midpoint, halves.len() as int) =~= r);
}

/// The length above which the halves are sorted side by side.
pub const THRESHOLD: usize = 1000;

/// Sorts both slices with `merge_sort_mt`, handing each to `rayon::join` as a
/// closure of its own. `join` runs both closures, side by side where it can,
/// and returns when both are done, so what holds of a slice afterwards is
/// what `merge_sort_mt` does to it: it is in ascending order and keeps its
/// values.
#[verifier::external_body]
fn join_sorts(lhs: &mut [i32], rhs: &mut [i32])
    ensures
        sorted(final(lhs)@),
        same_values(final(lhs)@, old(lhs)@),
        sorted(final(rhs)@),
        same_values(final(rhs)@, old(rhs)@),
{
    rayon::join(|| merge_sort_mt(lhs), || merge_sort_mt(rhs));
}

/// Sorts as `merge_sort` does, with the two halves of a long slice sorted
/// side by side.
pub fn merge_sort_mt(arr: &mut [i32])
    ensures
        sorted(final(arr)@),
        same_values(final(arr)@, old(arr)@),
{
    if arr.len() == 0 || arr.len() == 1 {
        return;
    }
    let midpoint: usize = arr.len() / 2;
    let ghost orig = arr@;
    let (lhs, rhs) = arr.split_at_mut(midpoint);
    let ghost left = lhs@;
    let ghost right = rhs@;
    if midpoint * 2 > THRESHOLD {
        join_sorts(lhs, rhs);
    } else {
        merge_sort(lhs);
        merge_sort(rhs);
    }
    let ghost halves = arr@;
    proof {
        assert(orig =~= left + right);
        lemma_halves(halves, orig, left, right, midpoint as int);
    }
    merge(arr, midpoint);
}

} // verus!
