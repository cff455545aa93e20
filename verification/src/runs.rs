//! Run-length decomposition of boolean lines.
//!
//! A line of a puzzle board is modelled as a `Seq<bool>` (`true` for a filled
//! cell). Its hints are the lengths of its maximal runs of `true` cells, read
//! left to right. On a circular line the trailing run merges into the leading
//! run, because the last cell is adjacent to the first.
use vstd::prelude::*;
use vstd::seq_lib::lemma_multiset_commutative;

verus! {

/// Sum of a sequence of integers.
pub open spec fn sum_of(s: Seq<int>) -> int
    decreases s.len(),
{
    if s.len() == 0 {
        0
    } else {
        sum_of(s.drop_last()) + s.last()
    }
}

/// Number of `true` cells in a line.
pub open spec fn count_true(line: Seq<bool>) -> int
    decreases line.len(),
{
    if line.len() == 0 {
        0
    } else {
        count_true(line.drop_last()) + if line.last() {
            1int
        } else {
            0int
        }
    }
}

/// State of the left-to-right run scan after the first `n` cells:
/// the completed run lengths, and the length of the still-open run.
pub open spec fn scan_runs(line: Seq<bool>, n: int) -> (Seq<int>, int)
    decreases n,
{
    if n <= 0 {
        (Seq::empty(), 0)
    } else {
        let sc = scan_runs(line, n - 1);
        if line[n - 1] {
            (sc.0, sc.1 + 1)
        } else if sc.1 != 0 {
            (sc.0.push(sc.1), 0)
        } else {
            (sc.0, 0)
        }
    }
}

/// The maximal runs of `true` cells of the line, read plainly left to right.
pub open spec fn linear_runs(line: Seq<bool>) -> Seq<int> {
    let sc = scan_runs(line, line.len() as int);
    if sc.1 != 0 {
        sc.0.push(sc.1)
    } else {
        sc.0
    }
}

/// Hints of a line read plainly: its runs, or `[0]` when it has none.
pub open spec fn linear_hints(line: Seq<bool>) -> Seq<int> {
    if linear_runs(line).len() == 0 {
        seq![0int]
    } else {
        linear_runs(line)
    }
}

/// Hints of a circular line: as the linear scan, except that a run still open
/// at the end of the scan is the same run as one open at its start, so when
/// the first cell is filled the trailing open run merges into the first run.
/// A line without a completed run yields a single hint (its open run length,
/// or `0` when the line is all empty).
pub open spec fn circular_hints(line: Seq<bool>) -> Seq<int> {
    let sc = scan_runs(line, line.len() as int);
    if sc.0.len() == 0 {
        seq![sc.1]
    } else if line[0] {
        sc.0.update(0, sc.0[0] + sc.1)
    } else if sc.1 != 0 {
        sc.0.push(sc.1)
    } else {
        sc.0
    }
}

/// The view of a grid of vectors as a sequence of sequences.
pub open spec fn grid_view<T>(g: Seq<Vec<T>>) -> Seq<Seq<T>> {
    g.map_values(|v: Vec<T>| v@)
}

/// Stored hint values read as mathematical integers.
pub open spec fn ints_of(s: Seq<usize>) -> Seq<int> {
    s.map_values(|u: usize| u as int)
}

/// The view of stored hint vectors as sequences of integers.
pub open spec fn hints_view(h: Seq<Vec<usize>>) -> Seq<Seq<int>> {
    h.map_values(|v: Vec<usize>| ints_of(v@))
}

/// `s` rotated left by `k` places.
pub open spec fn rotate_left(s: Seq<int>, k: int) -> Seq<int> {
    s.subrange(k, s.len() as int) + s.subrange(0, k)
}

/// `a` is `b` rotated left by some amount.
pub open spec fn is_rotation_of(a: Seq<int>, b: Seq<int>) -> bool {
    exists|k: int| 0 <= k < b.len() && a == rotate_left(b, k)
}

pub proof fn lemma_sum_singleton(x: int)
    ensures
        sum_of(seq![x]) == x,
{
    assert(seq![x].drop_last() =~= Seq::<int>::empty());
    assert(sum_of(Seq::<int>::empty()) == 0);
}

pub proof fn lemma_sum_push(s: Seq<int>, x: int)
    ensures
        sum_of(s.push(x)) == sum_of(s) + x,
{
    assert(s.push(x).drop_last() =~= s);
}

pub proof fn lemma_sum_first(s: Seq<int>)
    requires
        s.len() >= 1,
    ensures
        sum_of(s) == s[0] + sum_of(s.drop_first()),
    decreases s.len(),
{
    if s.len() == 1 {
        assert(s.drop_first() =~= Seq::<int>::empty());
        assert(s.drop_last() =~= Seq::<int>::empty());
    } else {
        lemma_sum_first(s.drop_last());
        assert(s.drop_last().drop_first() =~= s.drop_first().drop_last());
        assert(s.drop_first().last() == s.last());
    }
}

pub proof fn lemma_sum_update_first(s: Seq<int>, v: int)
    requires
        s.len() >= 1,
    ensures
        sum_of(s.update(0, v)) == sum_of(s) - s[0] + v,
{
    lemma_sum_first(s);
    lemma_sum_first(s.update(0, v));
    assert(s.update(0, v).drop_first() =~= s.drop_first());
}

pub proof fn lemma_sum_concat(a: Seq<int>, b: Seq<int>)
    ensures
        sum_of(a + b) == sum_of(a) + sum_of(b),
    decreases b.len(),
{
    if b.len() == 0 {
        assert(a + b =~= a);
    } else {
        lemma_sum_concat(a, b.drop_last());
        assert((a + b).drop_last() =~= a + b.drop_last());
        assert((a + b).last() == b.last());
    }
}

pub proof fn lemma_sum_nonneg(s: Seq<int>)
    requires
        forall|i: int| 0 <= i < s.len() ==> s[i] >= 0,
    ensures
        sum_of(s) >= 0,
    decreases s.len(),
{
    if s.len() > 0 {
        lemma_sum_nonneg(s.drop_last());
    }
}

/// The scan state is well formed: the open run is at most `n` long, every
/// completed run is positive, the runs and the open run together account for
/// exactly the `true` cells seen so far, and a filled last cell keeps the
/// open run open.
pub proof fn lemma_scan_runs_props(line: Seq<bool>, n: int)
    requires
        0 <= n <= line.len(),
    ensures
        0 <= scan_runs(line, n).1 <= n,
        forall|i: int| 0 <= i < scan_runs(line, n).0.len() ==> scan_runs(line, n).0[i] >= 1,
        sum_of(scan_runs(line, n).0) + scan_runs(line, n).1 == count_true(line.take(n)),
        count_true(line.take(n)) <= n,
        n >= 1 && line[n - 1] ==> scan_runs(line, n).1 >= 1,
        n >= 1 && !line[n - 1] ==> scan_runs(line, n).1 == 0,
    decreases n,
{
    if n == 0 {
        assert(line.take(0) =~= Seq::<bool>::empty());
    } else {
        lemma_scan_runs_props(line, n - 1);
        assert(line.take(n).drop_last() =~= line.take(n - 1));
        assert(line.take(n).last() == line[n - 1]);
        let sc = scan_runs(line, n - 1);
        if !line[n - 1] && sc.1 != 0 {
            lemma_sum_push(sc.0, sc.1);
        }
    }
}

/// The circular hints of a line account for exactly its filled cells:
/// their sum is the number of `true` cells.
pub proof fn lemma_circular_hints_sum(line: Seq<bool>)
    ensures
        sum_of(circular_hints(line)) == count_true(line),
        circular_hints(line).len() >= 1,
        forall|i: int| 0 <= i < circular_hints(line).len() ==> circular_hints(line)[i] >= 0,
        count_true(line) <= line.len(),
{
    let n = line.len() as int;
    lemma_scan_runs_props(line, n);
    assert(line.take(n) =~= line);
    let sc = scan_runs(line, n);
    if sc.0.len() == 0 {
        lemma_sum_singleton(sc.1);
    } else if line[0] {
        lemma_sum_update_first(sc.0, sc.0[0] + sc.1);
    } else if sc.1 != 0 {
        lemma_sum_push(sc.0, sc.1);
    }
}

/// The linear hints of a line account for exactly its filled cells.
pub proof fn lemma_linear_hints_sum(line: Seq<bool>)
    ensures
        sum_of(linear_hints(line)) == count_true(line),
        linear_hints(line).len() >= 1,
        forall|i: int| 0 <= i < linear_hints(line).len() ==> linear_hints(line)[i] >= 0,
        count_true(line) <= line.len(),
{
    let n = line.len() as int;
    lemma_scan_runs_props(line, n);
    assert(line.take(n) =~= line);
    let sc = scan_runs(line, n);
    if sc.1 != 0 {
        lemma_sum_push(sc.0, sc.1);
    }
    if linear_runs(line).len() == 0 {
        lemma_sum_singleton(0);
    }
}

/// The wrap-merge invariant: when the first and last cells of a circular line
/// are both filled and the plain linear scan sees more than one run, the
/// leading and trailing linear runs are one circular run, so the line has one
/// hint fewer than it has linear runs, the first hint being their sum.
pub proof fn lemma_circular_merge(line: Seq<bool>)
    requires
        line.len() >= 1,
        line[0],
        line[line.len() - 1],
        linear_runs(line).len() > 1,
    ensures
        circular_hints(line).len() == linear_runs(line).len() - 1,
        circular_hints(line)[0] == linear_runs(line)[0] + linear_runs(line).last(),
        forall|i: int| 1 <= i < circular_hints(line).len()
            ==> circular_hints(line)[i] == linear_runs(line)[i],
{
    let n = line.len() as int;
    lemma_scan_runs_props(line, n);
    let sc = scan_runs(line, n);
    assert(sc.1 >= 1);
    assert(linear_runs(line) == sc.0.push(sc.1));
    assert(sc.0.len() >= 1);
    assert(circular_hints(line) == sc.0.update(0, sc.0[0] + sc.1));
}

/// A line without a filled cell scans to no runs at all.
pub proof fn lemma_scan_all_empty(line: Seq<bool>, n: int)
    requires
        0 <= n <= line.len(),
        forall|i: int| 0 <= i < line.len() ==> !line[i],
    ensures
        scan_runs(line, n) == (Seq::<int>::empty(), 0int),
    decreases n,
{
    if n > 0 {
        lemma_scan_all_empty(line, n - 1);
    }
}

/// An all-empty line yields the single hint `[0]`, circularly and linearly.
pub proof fn lemma_all_empty_hints(line: Seq<bool>)
    requires
        forall|i: int| 0 <= i < line.len() ==> !line[i],
    ensures
        circular_hints(line) == seq![0int],
        linear_hints(line) == seq![0int],
{
    lemma_scan_all_empty(line, line.len() as int);
}

/// Rotating changes neither the length, nor the sum, nor the multiset of
/// values of a hint sequence: rotation permutes, it never resizes.
pub proof fn lemma_rotation_invariants(a: Seq<int>, b: Seq<int>)
    requires
        is_rotation_of(a, b),
    ensures
        a.len() == b.len(),
        sum_of(a) == sum_of(b),
        a.to_multiset() == b.to_multiset(),
{
    let k = choose|k: int| 0 <= k < b.len() && a == rotate_left(b, k);
    let n = b.len() as int;
    b.lemma_split_at(k);
    assert(b.subrange(0, k) + b.subrange(k, n) =~= b);
    lemma_sum_concat(b.subrange(0, k), b.subrange(k, n));
    lemma_sum_concat(b.subrange(k, n), b.subrange(0, k));
    lemma_multiset_commutative(b.subrange(0, k), b.subrange(k, n));
    lemma_multiset_commutative(b.subrange(k, n), b.subrange(0, k));
    assert(a.to_multiset() =~= b.to_multiset());
}

/// A rotation of a single-hint line is that line itself.
pub proof fn lemma_rotation_of_singleton(a: Seq<int>, b: Seq<int>)
    requires
        is_rotation_of(a, b),
        b.len() == 1,
    ensures
        a == b,
{
    let k = choose|k: int| 0 <= k < b.len() && a == rotate_left(b, k);
    assert(rotate_left(b, 0) =~= b);
}

/// Two rotations of the same hint sequence hold the same multiset of values.
pub proof fn lemma_rotations_same_multiset(a: Seq<int>, b: Seq<int>, c: Seq<int>)
    requires
        is_rotation_of(a, c),
        is_rotation_of(b, c),
    ensures
        a.to_multiset() == b.to_multiset(),
{
    lemma_rotation_invariants(a, c);
    lemma_rotation_invariants(b, c);
}

} // verus!
