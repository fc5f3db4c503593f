//! Multi-key binary search: locate every key of a sorted batch in a sorted
//! haystack, splitting both ranges in lock-step.
use crate::laws::{
    agrees,
    law_distinct_keys_found_iff_present,
    law_all_keys_answered,
    law_found_keys_agree,
    law_outcomes_hold,
    law_positions_grow,
    strict_outcome,
};
use crate::model::{
    exhaustive_model,
    lemma_window_search_bounds,
    position,
    pruned_model,
    search_all_model,
    search_one_model,
    unanswered,
    valid_outcome,
    widen,
    window_search,
};
use crate::order::{present, sorted, strictly_sorted};
use core::cmp::Ordering;
use vstd::laws_cmp::{obeys_cmp, obeys_cmp_ord};
use vstd::prelude::*;
use vstd::std_specs::cmp::OrdSpec;

pub mod laws;
pub mod model;
pub mod order;

verus! {

/// The outcome for one key: `Ok(i)` where `haystack[i]` equals the key; `Err(Some(i))`
/// where the key was not matched and `i` is an insertion point (with distinct keys: the
/// key is absent); `Err(None)` where the key was skipped and no insertion point was
/// computed.
pub type SearchResult = Result<usize, Option<usize>>;

/// The midpoint of `[left, right]`, rounded down.
pub fn get_middle(left: usize, right: usize) -> (r: usize)
    requires
        left <= right,
    ensures
        r == left + (right - left) / 2,
{
    left + (right - left) / 2
}

/// Binary search for `key` in `arr[lo..hi)`.
fn search_window<T: Ord>(arr: &[T], lo: usize, hi: usize, key: &T) -> (r: Result<usize, usize>)
    requires
        lo <= hi <= arr@.len(),
        T::obeys_cmp_spec(),
    ensures
        widen(r) == window_search(arr@, lo as int, hi as int, *key),
{
    let mut l: usize = lo;
    let mut h: usize = hi;
    while l < h
        invariant
            lo <= l <= h <= hi <= arr@.len(),
            T::obeys_cmp_spec(),
            window_search(arr@, lo as int, hi as int, *key) == window_search(
                arr@,
                l as int,
                h as int,
                *key,
            ),
        decreases h - l,
    {
        let mid = get_middle(l, h);
        match arr[mid].cmp(key) {
            Ordering::Equal => {
                return Ok(mid);
            },
            Ordering::Less => {
                l = mid + 1;
            },
            Ordering::Greater => {
                h = mid;
            },
        }
    }
    Err(l)
}

/// Exhaustive search of `keys[keys_l..keys_r)` in the window `arr[arr_l..arr_r)`: the
/// middle key is searched in the window and its outcome recorded, then the keys below it
/// are searched in the part of the window below its position, and the keys above it in
/// the part above.
pub fn _mkbs_all_by<T: Ord>(
    arr: &[T],
    arr_l: usize,
    arr_r: usize,
    keys: &[T],
    keys_l: usize,
    keys_r: usize,
    results: &mut [SearchResult],
)
    requires
        arr_l <= arr_r <= arr@.len(),
        keys_l <= keys_r <= keys@.len(),
        old(results)@.len() == keys@.len(),
        T::obeys_cmp_spec(),
    ensures
        final(results)@.len() == old(results)@.len(),
        final(results)@ == exhaustive_model(
            arr@,
            arr_l as int,
            arr_r as int,
            keys@,
            keys_l as int,
            keys_r as int,
            old(results)@,
        ),
    decreases keys_r - keys_l,
{
    if keys_l >= keys_r {
        return ;
    }
    let keys_middle = get_middle(keys_l, keys_r);
    let s = search_window(arr, arr_l, arr_r, &keys[keys_middle]);
    proof {
        lemma_window_search_bounds(arr@, arr_l as int, arr_r as int, keys@[keys_middle as int]);
    }
    let (outcome, pos, next) = match s {
        Ok(i) => (Ok(i), i, i + 1),
        Err(i) => (Err(Some(i)), i, i),
    };
    results[keys_middle] = outcome;
    _mkbs_all_by(arr, arr_l, pos, keys, keys_l, keys_middle, results);
    _mkbs_all_by(arr, next, arr_r, keys, keys_middle + 1, keys_r, results);
}

/// Pruning search of `keys[keys_l..keys_r)` in the window `arr[arr_l..arr_r)`. Where the
/// middle key lies below the window, it and the keys below it are skipped; where it lies
/// above, it and the keys above it are skipped; otherwise it is searched as in
/// `_mkbs_all_by`. An empty window skips all its keys.
pub fn _mkbs_by<T: Ord>(
    arr: &[T],
    arr_l: usize,
    arr_r: usize,
    keys: &[T],
    keys_l: usize,
    keys_r: usize,
    results: &mut [SearchResult],
)
    requires
        arr_l <= arr_r <= arr@.len(),
        keys_l <= keys_r <= keys@.len(),
        old(results)@.len() == keys@.len(),
        T::obeys_cmp_spec(),
    ensures
        final(results)@.len() == old(results)@.len(),
        final(results)@ == pruned_model(
            arr@,
            arr_l as int,
            arr_r as int,
            keys@,
            keys_l as int,
            keys_r as int,
            old(results)@,
        ),
    decreases keys_r - keys_l,
{
    if keys_l >= keys_r || arr_l >= arr_r {
        return ;
    }
    let keys_middle = get_middle(keys_l, keys_r);
    let below_window = matches!(keys[keys_middle].cmp(&arr[arr_l]), Ordering::Less);
    if below_window {
        _mkbs_by(arr, arr_l, arr_r, keys, keys_middle + 1, keys_r, results);
        return ;
    }
    let above_window = matches!(arr[arr_r - 1].cmp(&keys[keys_middle]), Ordering::Less);
    if above_window {
        _mkbs_by(arr, arr_l, arr_r, keys, keys_l, keys_middle, results);
        return ;
    }
    let s = search_window(arr, arr_l, arr_r, &keys[keys_middle]);
    proof {
        lemma_window_search_bounds(arr@, arr_l as int, arr_r as int, keys@[keys_middle as int]);
    }
    let (outcome, pos, next) = match s {
        Ok(i) => (Ok(i), i, i + 1),
        Err(i) => (Err(Some(i)), i, i),
    };
    results[keys_middle] = outcome;
    _mkbs_by(arr, arr_l, pos, keys, keys_l, keys_middle, results);
    _mkbs_by(arr, next, arr_r, keys, keys_middle + 1, keys_r, results);
}

/// Multi-key binary search over a sorted haystack, for a sorted batch of `N` keys.
///
/// Both methods return one outcome per key, in the order of the keys. `mkbs_all` answers
/// every key; `mkbs` skips the keys of a part of the batch whose middle key lies outside
/// the part of the haystack still in play, and leaves them at `Err(None)`.
pub trait MKBS<T, const N: usize>: View<V = Seq<T>> where T: Ord {
    /// The exhaustive search: every key gets its index or an insertion point.
    fn mkbs_all(&self, keys: &[T; N]) -> (r: [SearchResult; N])
        requires
            obeys_cmp::<T>(),
            N > 0,
            self@.len() > 0,
        ensures
            r@ == search_all_model(self@, keys@),
            forall|k: int| 0 <= k < N ==> #[trigger] r@[k] != Err::<usize, Option<usize>>(None),
            forall|a: int, b: int|
                0 <= a < b < N ==> position(#[trigger] r@[a]) <= position(#[trigger] r@[b]),
            sorted(self@) && sorted(keys@) ==> forall|k: int|
                0 <= k < N ==> valid_outcome(self@, keys@[k], #[trigger] r@[k]),
            sorted(self@) && strictly_sorted(keys@) ==> forall|k: int|
                0 <= k < N ==> (#[trigger] r@[k] is Ok <==> present(self@, keys@[k]))
                    && strict_outcome(self@, keys@[k], r@[k]),
    ;

    /// The pruning search: a key is found exactly where `mkbs_all` finds it; any other
    /// key gets the insertion point of `mkbs_all`, or `Err(None)`.
    fn mkbs(&self, keys: &[T; N]) -> (r: [SearchResult; N])
        requires
            obeys_cmp::<T>(),
            N > 0,
            self@.len() > 0,
        ensures
            r@ == search_one_model(self@, keys@),
            forall|a: int, b: int|
                0 <= a < b < N && r@[a] != Err::<usize, Option<usize>>(None) && r@[b] != Err::<
                    usize,
                    Option<usize>,
                >(None) ==> position(#[trigger] r@[a]) <= position(#[trigger] r@[b]),
            sorted(self@) && sorted(keys@) ==> forall|k: int|
                0 <= k < N ==> valid_outcome(self@, keys@[k], #[trigger] r@[k]),
            sorted(self@) ==> forall|k: int|
                0 <= k < N ==> agrees(#[trigger] r@[k], search_all_model(self@, keys@)[k]),
            sorted(self@) && strictly_sorted(keys@) ==> forall|k: int|
                0 <= k < N ==> (#[trigger] r@[k] is Ok <==> present(self@, keys@[k]))
                    && strict_outcome(self@, keys@[k], r@[k]),
    ;
}

impl<T, const N: usize> MKBS<T, N> for [T] where T: Ord {
    fn mkbs_all(&self, keys: &[T; N]) -> (r: [SearchResult; N]) {
        let mut res: [SearchResult; N] = [Err(None); N];
        proof {
            reveal(obeys_cmp_ord);
            assert(res@ =~= unanswered(N as nat));
        }
        _mkbs_all_by(self, 0, self.len(), keys.as_slice(), 0, N, &mut res);
        proof {
            law_all_keys_answered(self@, keys@);
            law_positions_grow(self@, keys@);
            if sorted(self@) && sorted(keys@) {
                law_outcomes_hold(self@, keys@);
            }
            if sorted(self@) && strictly_sorted(keys@) {
                law_distinct_keys_found_iff_present(self@, keys@);
            }
        }
        res
    }

    fn mkbs(&self, keys: &[T; N]) -> (r: [SearchResult; N]) {
        let mut res: [SearchResult; N] = [Err(None); N];
        proof {
            reveal(obeys_cmp_ord);
            assert(res@ =~= unanswered(N as nat));
        }
        _mkbs_by(self, 0, self.len(), keys.as_slice(), 0, N, &mut res);
        proof {
            law_positions_grow(self@, keys@);
            if sorted(self@) && sorted(keys@) {
                law_outcomes_hold(self@, keys@);
            }
            if sorted(self@) && strictly_sorted(keys@) {
                law_distinct_keys_found_iff_present(self@, keys@);
            }
            if sorted(self@) {
                law_found_keys_agree(self@, keys@);
            }
        }
        res
    }
}

impl<T, const N: usize> MKBS<T, N> for Vec<T> where T: Ord {
    fn mkbs_all(&self, keys: &[T; N]) -> (r: [SearchResult; N]) {
        self.as_slice().mkbs_all(keys)
    }

    fn mkbs(&self, keys: &[T; N]) -> (r: [SearchResult; N]) {
        self.as_slice().mkbs(keys)
    }
}

} // verus!
