use vstd::prelude::*;

verus! {

/// The position of the first element of `s` that satisfies `p`.
pub open spec fn first_index<T>(s: Seq<T>, p: spec_fn(T) -> bool) -> Option<int>
    decreases s.len(),
{
    if s.len() == 0 {
        None
    } else if p(s[0]) {
        Some(0)
    } else {
        match first_index(s.drop_first(), p) {
            Some(k) => Some(k + 1),
            None => None,
        }
    }
}

/// What [`first_index`] gives: a position whose element satisfies `p` with none before
/// it doing so, or nothing when no element does.
pub proof fn lemma_first_index<T>(s: Seq<T>, p: spec_fn(T) -> bool)
    ensures
        match first_index(s, p) {
            Some(k) => 0 <= k < s.len() && p(s[k]) && forall|j: int| 0 <= j < k ==> !p(#[trigger] s[j]),
            None => forall|j: int| 0 <= j < s.len() ==> !p(#[trigger] s[j]),
        },
    decreases s.len(),
{
    if s.len() > 0 {
        lemma_first_index(s.drop_first(), p);
        if !p(s[0]) {
            match first_index(s.drop_first(), p) {
                Some(k) => {
                    assert forall|j: int| 0 <= j < k + 1 implies !p(#[trigger] s[j]) by {
                        if j > 0 {
                            assert(s[j] == s.drop_first()[j - 1]);
                        }
                    }
                },
                None => {
                    assert forall|j: int| 0 <= j < s.len() implies !p(#[trigger] s[j]) by {
                        if j > 0 {
                            assert(s[j] == s.drop_first()[j - 1]);
                        }
                    }
                },
            }
        }
    }
}

/// A search that stops at `j` found the first element satisfying `p`, or none at all.
pub proof fn lemma_first_index_at<T>(s: Seq<T>, p: spec_fn(T) -> bool, j: int)
    requires
        0 <= j <= s.len(),
        forall|k: int| 0 <= k < j ==> !p(#[trigger] s[k]),
        j < s.len() ==> p(s[j]),
    ensures
        first_index(s, p) == (if j < s.len() { Some(j) } else { None::<int> }),
    decreases j,
{
    if j > 0 {
        let t = s.drop_first();
        assert(!p(s[0]));
        assert forall|k: int| 0 <= k < j - 1 implies !p(#[trigger] t[k]) by {
            assert(t[k] == s[k + 1]);
        }
        lemma_first_index_at(t, p, j - 1);
    }
}

/// The first element of `s` that satisfies `p`.
pub open spec fn first_match<T>(s: Seq<T>, p: spec_fn(T) -> bool) -> Option<T> {
    match first_index(s, p) {
        Some(k) => Some(s[k]),
        None => None,
    }
}

/// Where a stable insertion puts `x` into `s`: before the first element that `x`
/// must precede under `lt`, or at the end.
pub open spec fn insert_pos<T>(s: Seq<T>, x: T, lt: spec_fn(T, T) -> bool) -> int {
    match first_index(s, |y: T| lt(x, y)) {
        Some(k) => k,
        None => s.len() as int,
    }
}

/// `s` sorted by `lt` with elements that `lt` does not separate kept in their
/// order within `s`, as a stable sort such as `sort_by` leaves them.
pub open spec fn stable_sort<T>(s: Seq<T>, lt: spec_fn(T, T) -> bool) -> Seq<T>
    decreases s.len(),
{
    if s.len() == 0 {
        s
    } else {
        let prev = stable_sort(s.drop_last(), lt);
        prev.insert(insert_pos(prev, s.last(), lt), s.last())
    }
}

/// Sorting `s` with `x` appended inserts `x` into the sorted `s` where a stable insertion puts it.
pub proof fn lemma_stable_sort_push<T>(s: Seq<T>, x: T, lt: spec_fn(T, T) -> bool)
    ensures
        stable_sort(s.push(x), lt) == stable_sort(s, lt).insert(insert_pos(stable_sort(s, lt), x, lt), x),
{
    assert(s.push(x).drop_last() =~= s);
}

/// A stable sort keeps the length of the sequence.
pub proof fn lemma_stable_sort_len<T>(s: Seq<T>, lt: spec_fn(T, T) -> bool)
    ensures
        stable_sort(s, lt).len() == s.len(),
    decreases s.len(),
{
    if s.len() > 0 {
        lemma_stable_sort_len(s.drop_last(), lt);
        let prev = stable_sort(s.drop_last(), lt);
        lemma_first_index(prev, |y: T| lt(s.last(), y));
    }
}

/// A stable sort keeps every element of the sequence, as often as it occurs.
pub proof fn lemma_stable_sort_keeps<T>(s: Seq<T>, lt: spec_fn(T, T) -> bool)
    ensures
        stable_sort(s, lt).to_multiset() == s.to_multiset(),
    decreases s.len(),
{
    if s.len() > 0 {
        let rest = s.drop_last();
        lemma_stable_sort_keeps(rest, lt);
        lemma_stable_sort_len(rest, lt);
        let prev = stable_sort(rest, lt);
        lemma_first_index(prev, |y: T| lt(s.last(), y));
        vstd::seq_lib::to_multiset_insert(prev, insert_pos(prev, s.last(), lt), s.last());
        assert(rest.push(s.last()) =~= s);
        vstd::seq_lib::to_multiset_build(rest, s.last());
    }
}

} // verus!
