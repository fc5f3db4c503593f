//! Spec-level models of the bounded binary search and of the two batch searches.
use crate::order::{at_most, below, equiv, sorted};
use crate::SearchResult;
use core::cmp::Ordering;
use vstd::prelude::*;
use vstd::std_specs::cmp::OrdSpec;

verus! {

/// Binary search for `key` in the window `hay[lo..hi)`: `Ok(i)` at an element equal to
/// `key`, `Err(i)` at the place where `key` would be inserted.
pub open spec fn window_search<T: Ord>(hay: Seq<T>, lo: int, hi: int, key: T) -> Result<int, int>
    decreases hi - lo,
{
    if lo >= hi {
        Err(lo)
    } else {
        let mid = lo + (hi - lo) / 2;
        match hay[mid].cmp_spec(&key) {
            Ordering::Equal => Ok(mid),
            Ordering::Less => window_search(hay, mid + 1, hi, key),
            Ordering::Greater => window_search(hay, lo, mid, key),
        }
    }
}

/// A search result over machine indices, seen over mathematical integers.
pub open spec fn widen(r: Result<usize, usize>) -> Result<int, int> {
    match r {
        Ok(i) => Ok(i as int),
        Err(i) => Err(i as int),
    }
}

/// The outcome recorded for a key that was searched.
pub open spec fn outcome_of(s: Result<int, int>) -> SearchResult {
    match s {
        Ok(i) => Ok(i as usize),
        Err(i) => Err(Some(i as usize)),
    }
}

/// Where a search ended: the match, or the insertion point.
pub open spec fn pos_of(s: Result<int, int>) -> int {
    match s {
        Ok(i) => i,
        Err(i) => i,
    }
}

/// Where the window of the keys above the searched one starts.
pub open spec fn next_of(s: Result<int, int>) -> int {
    match s {
        Ok(i) => i + 1,
        Err(i) => i,
    }
}

/// The index an outcome names; `-1` for an outcome without an index.
pub open spec fn position(r: SearchResult) -> int {
    match r {
        Ok(i) => i as int,
        Err(Some(i)) => i as int,
        Err(None) => -1,
    }
}

/// The outcome names an index of the window `[lo, hi)`, or its insertion points `[lo, hi]`.
pub open spec fn placed(r: SearchResult, lo: int, hi: int) -> bool {
    match r {
        Ok(i) => lo <= i < hi,
        Err(Some(i)) => lo <= i <= hi,
        Err(None) => false,
    }
}

/// The outcome is true of `key` in `hay`: a found index holds an equal element, and an
/// insertion point keeps the haystack sorted.
pub open spec fn valid_outcome<T: Ord>(hay: Seq<T>, key: T, r: SearchResult) -> bool {
    match r {
        Ok(i) => i < hay.len() && equiv(hay[i as int], key),
        Err(Some(i)) => i <= hay.len() && (i > 0 ==> at_most(hay[i - 1], key)) && (i < hay.len()
            ==> at_most(key, hay[i as int])),
        Err(None) => true,
    }
}

/// The exhaustive search of keys `[klo, khi)` in the window `[lo, hi)`, writing into `res`.
pub open spec fn exhaustive_model<T: Ord>(
    hay: Seq<T>,
    lo: int,
    hi: int,
    keys: Seq<T>,
    klo: int,
    khi: int,
    res: Seq<SearchResult>,
) -> Seq<SearchResult>
    decreases khi - klo,
{
    if klo >= khi {
        res
    } else {
        let m = klo + (khi - klo) / 2;
        let s = window_search(hay, lo, hi, keys[m]);
        let res1 = res.update(m, outcome_of(s));
        let res2 = exhaustive_model(hay, lo, pos_of(s), keys, klo, m, res1);
        exhaustive_model(hay, next_of(s), hi, keys, m + 1, khi, res2)
    }
}

/// The pruning search of keys `[klo, khi)` in the window `[lo, hi)`, writing into `res`.
pub open spec fn pruned_model<T: Ord>(
    hay: Seq<T>,
    lo: int,
    hi: int,
    keys: Seq<T>,
    klo: int,
    khi: int,
    res: Seq<SearchResult>,
) -> Seq<SearchResult>
    decreases khi - klo,
{
    if klo >= khi || lo >= hi {
        res
    } else {
        let m = klo + (khi - klo) / 2;
        if below(keys[m], hay[lo]) {
            pruned_model(hay, lo, hi, keys, m + 1, khi, res)
        } else if below(hay[hi - 1], keys[m]) {
            pruned_model(hay, lo, hi, keys, klo, m, res)
        } else {
            let s = window_search(hay, lo, hi, keys[m]);
            let res1 = res.update(m, outcome_of(s));
            let res2 = pruned_model(hay, lo, pos_of(s), keys, klo, m, res1);
            pruned_model(hay, next_of(s), hi, keys, m + 1, khi, res2)
        }
    }
}

/// A batch of outcomes that all say "no answer".
pub open spec fn unanswered(n: nat) -> Seq<SearchResult> {
    Seq::new(n, |i: int| Err(None))
}

/// What `mkbs_all` returns for `keys` in `hay`.
pub open spec fn search_all_model<T: Ord>(hay: Seq<T>, keys: Seq<T>) -> Seq<SearchResult> {
    exhaustive_model(hay, 0, hay.len() as int, keys, 0, keys.len() as int, unanswered(keys.len()))
}

/// What `mkbs` returns for `keys` in `hay`.
pub open spec fn search_one_model<T: Ord>(hay: Seq<T>, keys: Seq<T>) -> Seq<SearchResult> {
    pruned_model(hay, 0, hay.len() as int, keys, 0, keys.len() as int, unanswered(keys.len()))
}

/// A binary search stays inside its window.
pub proof fn lemma_window_search_bounds<T: Ord>(hay: Seq<T>, lo: int, hi: int, key: T)
    requires
        lo <= hi,
    ensures
        match window_search(hay, lo, hi, key) {
            Ok(i) => lo <= i < hi,
            Err(i) => lo <= i <= hi,
        },
    decreases hi - lo,
{
    if lo < hi {
        let mid = lo + (hi - lo) / 2;
        match hay[mid].cmp_spec(&key) {
            Ordering::Equal => {},
            Ordering::Less => lemma_window_search_bounds(hay, mid + 1, hi, key),
            Ordering::Greater => lemma_window_search_bounds(hay, lo, mid, key),
        }
    }
}

} // verus!
