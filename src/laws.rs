//! What the two batch searches guarantee, proved over their models.
use crate::model::{
    exhaustive_model,
    lemma_window_search_bounds,
    next_of,
    outcome_of,
    placed,
    pos_of,
    position,
    pruned_model,
    search_all_model,
    search_one_model,
    unanswered,
    valid_outcome,
    window_search,
};
use crate::order::{at_most, below, equiv, lemma_order_laws, present, sorted, strictly_sorted};
use crate::SearchResult;
use core::cmp::Ordering;
use vstd::laws_cmp::obeys_cmp;
use vstd::prelude::*;
use vstd::std_specs::cmp::OrdSpec;

verus! {

/// In a sorted haystack, a found index holds an element equal to the key, and an
/// insertion point lies strictly between the window's elements below and above the key.
pub proof fn lemma_window_search_sound<T: Ord>(hay: Seq<T>, lo: int, hi: int, key: T)
    requires
        0 <= lo <= hi <= hay.len(),
        sorted(hay),
        obeys_cmp::<T>(),
    ensures
        match window_search(hay, lo, hi, key) {
            Ok(i) => equiv(hay[i], key),
            Err(i) => (lo < i ==> below(hay[i - 1], key)) && (i < hi ==> below(key, hay[i])),
        },
    decreases hi - lo,
{
    lemma_order_laws::<T>();
    if lo < hi {
        let mid = lo + (hi - lo) / 2;
        match hay[mid].cmp_spec(&key) {
            Ordering::Equal => {},
            Ordering::Less => {
                lemma_window_search_sound(hay, mid + 1, hi, key);
                lemma_window_search_bounds(hay, mid + 1, hi, key);
            },
            Ordering::Greater => {
                lemma_window_search_sound(hay, lo, mid, key);
                lemma_window_search_bounds(hay, lo, mid, key);
            },
        }
    }
}

/// The exhaustive search writes exactly the keys of its range, each with an index in its
/// window, and the indices grow with the keys' positions.
pub proof fn lemma_exhaustive_shape<T: Ord>(
    hay: Seq<T>,
    lo: int,
    hi: int,
    keys: Seq<T>,
    klo: int,
    khi: int,
    res: Seq<SearchResult>,
)
    requires
        0 <= lo <= hi <= hay.len() <= usize::MAX,
        0 <= klo <= khi <= keys.len(),
        res.len() == keys.len(),
    ensures
        ({
            let out = exhaustive_model(hay, lo, hi, keys, klo, khi, res);
            &&& out.len() == res.len()
            &&& forall|k: int| 0 <= k < res.len() && !(klo <= k < khi) ==> out[k] == res[k]
            &&& forall|k: int| klo <= k < khi ==> placed(#[trigger] out[k], lo, hi)
            &&& forall|a: int, b: int|
                klo <= a < b < khi ==> position(#[trigger] out[a]) <= position(#[trigger] out[b])
        }),
    decreases khi - klo,
{
    if klo < khi {
        let m = klo + (khi - klo) / 2;
        let s = window_search(hay, lo, hi, keys[m]);
        lemma_window_search_bounds(hay, lo, hi, keys[m]);
        let res1 = res.update(m, outcome_of(s));
        lemma_exhaustive_shape(hay, lo, pos_of(s), keys, klo, m, res1);
        let res2 = exhaustive_model(hay, lo, pos_of(s), keys, klo, m, res1);
        lemma_exhaustive_shape(hay, next_of(s), hi, keys, m + 1, khi, res2);
        let out = exhaustive_model(hay, next_of(s), hi, keys, m + 1, khi, res2);
        assert(out == exhaustive_model(hay, lo, hi, keys, klo, khi, res));
        assert(placed(out[m], lo, hi) && position(out[m]) == pos_of(s));
        assert forall|k: int| klo <= k < khi implies placed(#[trigger] out[k], lo, hi) by {
            if k < m {
                assert(out[k] == res2[k]);
            }
        }
        assert forall|a: int, b: int| klo <= a < b < khi implies position(
            #[trigger] out[a],
        ) <= position(#[trigger] out[b]) by {
            if a < m {
                assert(out[a] == res2[a]);
                assert(placed(res2[a], lo, pos_of(s)));
            }
            if b < m {
                assert(out[b] == res2[b]);
            }
            if m < b {
                assert(placed(out[b], next_of(s), hi));
            }
        }
    }
}

/// The pruning search writes only keys of its range, each with an index in its window,
/// leaves the others of its range unanswered, and the indices it writes grow with the
/// keys' positions.
pub proof fn lemma_pruned_shape<T: Ord>(
    hay: Seq<T>,
    lo: int,
    hi: int,
    keys: Seq<T>,
    klo: int,
    khi: int,
    res: Seq<SearchResult>,
)
    requires
        0 <= lo <= hi <= hay.len() <= usize::MAX,
        0 <= klo <= khi <= keys.len(),
        res.len() == keys.len(),
        forall|k: int| klo <= k < khi ==> #[trigger] res[k] == Err::<usize, Option<usize>>(None),
    ensures
        ({
            let out = pruned_model(hay, lo, hi, keys, klo, khi, res);
            &&& out.len() == res.len()
            &&& forall|k: int| 0 <= k < res.len() && !(klo <= k < khi) ==> out[k] == res[k]
            &&& forall|k: int|
                klo <= k < khi ==> #[trigger] out[k] == Err::<usize, Option<usize>>(None)
                    || placed(out[k], lo, hi)
            &&& forall|a: int, b: int|
                klo <= a < b < khi && out[a] != Err::<usize, Option<usize>>(None) && out[b]
                    != Err::<usize, Option<usize>>(None) ==> position(#[trigger] out[a])
                    <= position(#[trigger] out[b])
        }),
    decreases khi - klo,
{
    if klo < khi && lo < hi {
        let m = klo + (khi - klo) / 2;
        if below(keys[m], hay[lo]) {
            lemma_pruned_shape(hay, lo, hi, keys, m + 1, khi, res);
        } else if below(hay[hi - 1], keys[m]) {
            lemma_pruned_shape(hay, lo, hi, keys, klo, m, res);
        } else {
            let s = window_search(hay, lo, hi, keys[m]);
            lemma_window_search_bounds(hay, lo, hi, keys[m]);
            let res1 = res.update(m, outcome_of(s));
            lemma_pruned_shape(hay, lo, pos_of(s), keys, klo, m, res1);
            let res2 = pruned_model(hay, lo, pos_of(s), keys, klo, m, res1);
            lemma_pruned_shape(hay, next_of(s), hi, keys, m + 1, khi, res2);
            let out = pruned_model(hay, next_of(s), hi, keys, m + 1, khi, res2);
            assert(out == pruned_model(hay, lo, hi, keys, klo, khi, res));
            assert(placed(out[m], lo, hi) && position(out[m]) == pos_of(s));
            assert forall|k: int| klo <= k < khi implies #[trigger] out[k] == Err::<
                usize,
                Option<usize>,
            >(None) || placed(out[k], lo, hi) by {
                if k < m {
                    assert(out[k] == res2[k]);
                }
            }
            assert forall|a: int, b: int|
                klo <= a < b < khi && out[a] != Err::<usize, Option<usize>>(None) && out[b]
                    != Err::<usize, Option<usize>>(None) implies position(#[trigger] out[a])
                <= position(#[trigger] out[b]) by {
                if a < m {
                    assert(out[a] == res2[a]);
                    assert(placed(res2[a], lo, pos_of(s)));
                }
                if b < m {
                    assert(out[b] == res2[b]);
                }
                if m < b {
                    assert(placed(out[b], next_of(s), hi));
                }
            }
        }
    }
}

/// `key` orders between the element just below the window `[lo, hi)` and the one just above.
pub open spec fn fenced<T: Ord>(hay: Seq<T>, lo: int, hi: int, key: T) -> bool {
    &&& lo > 0 ==> at_most(hay[lo - 1], key)
    &&& hi < hay.len() ==> at_most(key, hay[hi])
}

/// Every outcome the exhaustive search writes is true of its key, when the haystack and
/// the keys are sorted and the keys of the range lie around the window.
pub proof fn lemma_exhaustive_valid<T: Ord>(
    hay: Seq<T>,
    lo: int,
    hi: int,
    keys: Seq<T>,
    klo: int,
    khi: int,
    res: Seq<SearchResult>,
)
    requires
        0 <= lo <= hi <= hay.len() <= usize::MAX,
        0 <= klo <= khi <= keys.len(),
        res.len() == keys.len(),
        sorted(hay),
        sorted(keys),
        obeys_cmp::<T>(),
        forall|k: int| klo <= k < khi ==> #[trigger] fenced(hay, lo, hi, keys[k]),
    ensures
        forall|k: int|
            klo <= k < khi ==> valid_outcome(
                hay,
                keys[k],
                #[trigger] exhaustive_model(hay, lo, hi, keys, klo, khi, res)[k],
            ),
    decreases khi - klo,
{
    if klo < khi {
        lemma_order_laws::<T>();
        let m = klo + (khi - klo) / 2;
        let s = window_search(hay, lo, hi, keys[m]);
        lemma_window_search_bounds(hay, lo, hi, keys[m]);
        lemma_window_search_sound(hay, lo, hi, keys[m]);
        let pos = pos_of(s);
        let next = next_of(s);
        let res1 = res.update(m, outcome_of(s));
        assert(fenced(hay, lo, hi, keys[m]));
        assert forall|k: int| klo <= k < m implies #[trigger] fenced(hay, lo, pos, keys[k]) by {
            assert(fenced(hay, lo, hi, keys[k]));
            assert(at_most(keys[k], keys[m]));
            if pos < hay.len() {
                assert(at_most(keys[m], hay[pos]));
            }
        }
        lemma_exhaustive_valid(hay, lo, pos, keys, klo, m, res1);
        lemma_exhaustive_shape(hay, lo, pos, keys, klo, m, res1);
        let res2 = exhaustive_model(hay, lo, pos, keys, klo, m, res1);
        assert forall|k: int| m < k < khi implies #[trigger] fenced(hay, next, hi, keys[k]) by {
            assert(fenced(hay, lo, hi, keys[k]));
            assert(at_most(keys[m], keys[k]));
            if next > 0 {
                assert(at_most(hay[next - 1], keys[m]));
            }
        }
        lemma_exhaustive_valid(hay, next, hi, keys, m + 1, khi, res2);
        lemma_exhaustive_shape(hay, next, hi, keys, m + 1, khi, res2);
        let out = exhaustive_model(hay, next, hi, keys, m + 1, khi, res2);
        assert(out == exhaustive_model(hay, lo, hi, keys, klo, khi, res));
        assert(valid_outcome(hay, keys[m], out[m]));
        assert forall|k: int| klo <= k < khi implies valid_outcome(hay, keys[k], #[trigger] out[k]) by {
            if k < m {
                assert(out[k] == res2[k]);
            }
        }
    }
}

/// Every outcome the pruning search writes is true of its key, when the haystack and the
/// keys are sorted and the keys of the range lie around the window.
pub proof fn lemma_pruned_valid<T: Ord>(
    hay: Seq<T>,
    lo: int,
    hi: int,
    keys: Seq<T>,
    klo: int,
    khi: int,
    res: Seq<SearchResult>,
)
    requires
        0 <= lo <= hi <= hay.len() <= usize::MAX,
        0 <= klo <= khi <= keys.len(),
        res.len() == keys.len(),
        sorted(hay),
        sorted(keys),
        obeys_cmp::<T>(),
        forall|k: int| klo <= k < khi ==> #[trigger] fenced(hay, lo, hi, keys[k]),
        forall|k: int| klo <= k < khi ==> #[trigger] res[k] == Err::<usize, Option<usize>>(None),
    ensures
        forall|k: int|
            klo <= k < khi ==> valid_outcome(
                hay,
                keys[k],
                #[trigger] pruned_model(hay, lo, hi, keys, klo, khi, res)[k],
            ),
    decreases khi - klo,
{
    let out = pruned_model(hay, lo, hi, keys, klo, khi, res);
    if klo < khi && lo < hi {
        lemma_order_laws::<T>();
        let m = klo + (khi - klo) / 2;
        if below(keys[m], hay[lo]) {
            lemma_pruned_valid(hay, lo, hi, keys, m + 1, khi, res);
            lemma_pruned_shape(hay, lo, hi, keys, m + 1, khi, res);
            assert forall|k: int| klo <= k < khi implies valid_outcome(
                hay,
                keys[k],
                #[trigger] out[k],
            ) by {
                if k <= m {
                    assert(out[k] == res[k]);
                }
            }
        } else if below(hay[hi - 1], keys[m]) {
            lemma_pruned_valid(hay, lo, hi, keys, klo, m, res);
            lemma_pruned_shape(hay, lo, hi, keys, klo, m, res);
            assert forall|k: int| klo <= k < khi implies valid_outcome(
                hay,
                keys[k],
                #[trigger] out[k],
            ) by {
                if k >= m {
                    assert(out[k] == res[k]);
                }
            }
        } else {
            let s = window_search(hay, lo, hi, keys[m]);
            lemma_window_search_bounds(hay, lo, hi, keys[m]);
            lemma_window_search_sound(hay, lo, hi, keys[m]);
            let pos = pos_of(s);
            let next = next_of(s);
            let res1 = res.update(m, outcome_of(s));
            assert(fenced(hay, lo, hi, keys[m]));
            assert forall|k: int| klo <= k < m implies #[trigger] fenced(
                hay,
                lo,
                pos,
                keys[k],
            ) by {
                assert(fenced(hay, lo, hi, keys[k]));
                assert(at_most(keys[k], keys[m]));
                if pos < hay.len() {
                    assert(at_most(keys[m], hay[pos]));
                }
            }
            lemma_pruned_valid(hay, lo, pos, keys, klo, m, res1);
            lemma_pruned_shape(hay, lo, pos, keys, klo, m, res1);
            let res2 = pruned_model(hay, lo, pos, keys, klo, m, res1);
            assert forall|k: int| m < k < khi implies #[trigger] fenced(
                hay,
                next,
                hi,
                keys[k],
            ) by {
                assert(fenced(hay, lo, hi, keys[k]));
                assert(at_most(keys[m], keys[k]));
                if next > 0 {
                    assert(at_most(hay[next - 1], keys[m]));
                }
            }
            assert forall|k: int| m < k < khi implies #[trigger] res2[k] == Err::<
                usize,
                Option<usize>,
            >(None) by {
                assert(res2[k] == res1[k]);
            }
            lemma_pruned_valid(hay, next, hi, keys, m + 1, khi, res2);
            lemma_pruned_shape(hay, next, hi, keys, m + 1, khi, res2);
            let out2 = pruned_model(hay, next, hi, keys, m + 1, khi, res2);
            assert(out2 == out);
            assert(valid_outcome(hay, keys[m], out[m]));
            assert forall|k: int| klo <= k < khi implies valid_outcome(
                hay,
                keys[k],
                #[trigger] out[k],
            ) by {
                if k < m {
                    assert(out[k] == res2[k]);
                }
            }
        }
    }
}

/// A pruning outcome matches the exhaustive one, or it is unanswered where the exhaustive
/// one found nothing.
pub open spec fn agrees(p: SearchResult, e: SearchResult) -> bool {
    p == e || (p == Err::<usize, Option<usize>>(None) && e is Err)
}

/// The pruning search agrees with the exhaustive one on every key of the range, when the
/// haystack is sorted.
pub proof fn lemma_pruned_agrees<T: Ord>(
    hay: Seq<T>,
    lo: int,
    hi: int,
    keys: Seq<T>,
    klo: int,
    khi: int,
    pres: Seq<SearchResult>,
    eres: Seq<SearchResult>,
)
    requires
        0 <= lo <= hi <= hay.len() <= usize::MAX,
        0 <= klo <= khi <= keys.len(),
        pres.len() == keys.len(),
        eres.len() == keys.len(),
        sorted(hay),
        obeys_cmp::<T>(),
        forall|k: int| klo <= k < khi ==> #[trigger] pres[k] == Err::<usize, Option<usize>>(None),
    ensures
        forall|k: int|
            klo <= k < khi ==> agrees(
                #[trigger] pruned_model(hay, lo, hi, keys, klo, khi, pres)[k],
                exhaustive_model(hay, lo, hi, keys, klo, khi, eres)[k],
            ),
    decreases khi - klo,
{
    let p = pruned_model(hay, lo, hi, keys, klo, khi, pres);
    let e = exhaustive_model(hay, lo, hi, keys, klo, khi, eres);
    if klo < khi {
        lemma_exhaustive_shape(hay, lo, hi, keys, klo, khi, eres);
        if lo >= hi {
            assert forall|k: int| klo <= k < khi implies agrees(#[trigger] p[k], e[k]) by {
                assert(placed(e[k], lo, hi));
            }
        } else {
            lemma_order_laws::<T>();
            let m = klo + (khi - klo) / 2;
            let s = window_search(hay, lo, hi, keys[m]);
            lemma_window_search_bounds(hay, lo, hi, keys[m]);
            lemma_window_search_sound(hay, lo, hi, keys[m]);
            let res1e = eres.update(m, outcome_of(s));
            if below(keys[m], hay[lo]) {
                match s {
                    Ok(i) => {
                        if i > lo {
                            assert(at_most(hay[lo], hay[i]));
                        }
                        assert(false);
                    },
                    Err(i) => {
                        if i > lo {
                            if i - 1 > lo {
                                assert(at_most(hay[lo], hay[i - 1]));
                            }
                            assert(false);
                        }
                    },
                }
                lemma_exhaustive_shape(hay, lo, lo, keys, klo, m, res1e);
                let res2e = exhaustive_model(hay, lo, lo, keys, klo, m, res1e);
                lemma_pruned_agrees(hay, lo, hi, keys, m + 1, khi, pres, res2e);
                lemma_pruned_shape(hay, lo, hi, keys, m + 1, khi, pres);
                lemma_exhaustive_shape(hay, lo, hi, keys, m + 1, khi, res2e);
                assert(e == exhaustive_model(hay, lo, hi, keys, m + 1, khi, res2e));
                assert forall|k: int| klo <= k < khi implies agrees(#[trigger] p[k], e[k]) by {
                    if k < m {
                        assert(e[k] == res2e[k]);
                        assert(placed(res2e[k], lo, lo));
                        assert(p[k] == pres[k]);
                    } else if k == m {
                        assert(e[k] == res2e[k]);
                        assert(res2e[m] == res1e[m]);
                        assert(p[k] == pres[k]);
                    }
                }
            } else if below(hay[hi - 1], keys[m]) {
                match s {
                    Ok(i) => {
                        if i < hi - 1 {
                            assert(at_most(hay[i], hay[hi - 1]));
                        }
                        assert(false);
                    },
                    Err(i) => {
                        if i < hi {
                            if i < hi - 1 {
                                assert(at_most(hay[i], hay[hi - 1]));
                            }
                            assert(false);
                        }
                    },
                }
                lemma_pruned_agrees(hay, lo, hi, keys, klo, m, pres, res1e);
                lemma_pruned_shape(hay, lo, hi, keys, klo, m, pres);
                lemma_exhaustive_shape(hay, lo, hi, keys, klo, m, res1e);
                let res2e = exhaustive_model(hay, lo, hi, keys, klo, m, res1e);
                lemma_exhaustive_shape(hay, hi, hi, keys, m + 1, khi, res2e);
                assert(e == exhaustive_model(hay, hi, hi, keys, m + 1, khi, res2e));
                assert forall|k: int| klo <= k < khi implies agrees(#[trigger] p[k], e[k]) by {
                    if k < m {
                        assert(e[k] == res2e[k]);
                    } else if k == m {
                        assert(e[k] == res2e[k]);
                        assert(res2e[m] == res1e[m]);
                        assert(p[k] == pres[k]);
                    } else {
                        assert(placed(e[k], hi, hi));
                        assert(p[k] == pres[k]);
                    }
                }
            } else {
                let pos = pos_of(s);
                let next = next_of(s);
                let res1p = pres.update(m, outcome_of(s));
                lemma_pruned_agrees(hay, lo, pos, keys, klo, m, res1p, res1e);
                lemma_pruned_shape(hay, lo, pos, keys, klo, m, res1p);
                lemma_exhaustive_shape(hay, lo, pos, keys, klo, m, res1e);
                let res2p = pruned_model(hay, lo, pos, keys, klo, m, res1p);
                let res2e = exhaustive_model(hay, lo, pos, keys, klo, m, res1e);
                assert forall|k: int| m < k < khi implies #[trigger] res2p[k] == Err::<
                    usize,
                    Option<usize>,
                >(None) by {
                    assert(res2p[k] == res1p[k]);
                }
                lemma_pruned_agrees(hay, next, hi, keys, m + 1, khi, res2p, res2e);
                lemma_pruned_shape(hay, next, hi, keys, m + 1, khi, res2p);
                lemma_exhaustive_shape(hay, next, hi, keys, m + 1, khi, res2e);
                assert(p == pruned_model(hay, next, hi, keys, m + 1, khi, res2p));
                assert(e == exhaustive_model(hay, next, hi, keys, m + 1, khi, res2e));
                assert forall|k: int| klo <= k < khi implies agrees(#[trigger] p[k], e[k]) by {
                    if k <= m {
                        assert(p[k] == res2p[k]);
                        assert(e[k] == res2e[k]);
                    }
                }
            }
        }
    }
}

/// Every element equal to one of the range's keys lies in the window `[lo, hi)`.
pub open spec fn caught<T: Ord>(hay: Seq<T>, lo: int, hi: int, key: T) -> bool {
    forall|j: int| 0 <= j < hay.len() && #[trigger] equiv(hay[j], key) ==> lo <= j < hi
}

/// With distinct keys, the exhaustive search reports a key as not found only where no
/// element of the haystack is equal to it.
pub proof fn lemma_exhaustive_complete<T: Ord>(
    hay: Seq<T>,
    lo: int,
    hi: int,
    keys: Seq<T>,
    klo: int,
    khi: int,
    res: Seq<SearchResult>,
)
    requires
        0 <= lo <= hi <= hay.len() <= usize::MAX,
        0 <= klo <= khi <= keys.len(),
        res.len() == keys.len(),
        sorted(hay),
        strictly_sorted(keys),
        obeys_cmp::<T>(),
        forall|k: int| klo <= k < khi ==> #[trigger] caught(hay, lo, hi, keys[k]),
    ensures
        forall|k: int|
            klo <= k < khi && #[trigger] exhaustive_model(hay, lo, hi, keys, klo, khi, res)[k] is Err
                ==> !present(hay, keys[k]),
    decreases khi - klo,
{
    if klo < khi {
        lemma_order_laws::<T>();
        let m = klo + (khi - klo) / 2;
        let key = keys[m];
        let s = window_search(hay, lo, hi, key);
        lemma_window_search_bounds(hay, lo, hi, key);
        lemma_window_search_sound(hay, lo, hi, key);
        let pos = pos_of(s);
        let next = next_of(s);
        let res1 = res.update(m, outcome_of(s));
        assert(caught(hay, lo, hi, key));
        if s is Err {
            assert forall|j: int| 0 <= j < hay.len() implies !equiv(#[trigger] hay[j], key) by {
                if equiv(hay[j], key) {
                    assert(lo <= j < hi);
                    if j < pos {
                        if j < pos - 1 {
                            assert(at_most(hay[j], hay[pos - 1]));
                        }
                        assert(below(hay[j], key));
                    } else {
                        if j > pos {
                            assert(at_most(hay[pos], hay[j]));
                        }
                        assert(below(key, hay[j]));
                    }
                }
            }
        }
        assert forall|k: int| klo <= k < m implies #[trigger] caught(hay, lo, pos, keys[k]) by {
            assert(caught(hay, lo, hi, keys[k]));
            assert(below(keys[k], keys[m]));
            assert forall|j: int| 0 <= j < hay.len() && #[trigger] equiv(hay[j], keys[k]) implies lo
                <= j < pos by {
                if j >= pos {
                    assert(at_most(hay[j], keys[k]));
                    if j > pos {
                        assert(at_most(hay[pos], hay[j]));
                    }
                    if s is Ok {
                        assert(at_most(key, hay[pos]));
                        assert(at_most(key, hay[j]));
                        assert(at_most(key, keys[k]));
                    } else {
                        assert(below(key, hay[pos]));
                        assert(below(key, hay[j]));
                        assert(below(key, keys[k]));
                    }
                }
            }
        }
        lemma_exhaustive_complete(hay, lo, pos, keys, klo, m, res1);
        lemma_exhaustive_shape(hay, lo, pos, keys, klo, m, res1);
        let res2 = exhaustive_model(hay, lo, pos, keys, klo, m, res1);
        assert forall|k: int| m < k < khi implies #[trigger] caught(hay, next, hi, keys[k]) by {
            assert(caught(hay, lo, hi, keys[k]));
            assert(below(keys[m], keys[k]));
            assert forall|j: int| 0 <= j < hay.len() && #[trigger] equiv(hay[j], keys[k]) implies next
                <= j < hi by {
                if j < next {
                    assert(at_most(keys[k], hay[j]));
                    if s is Ok {
                        if j < pos {
                            assert(at_most(hay[j], hay[pos]));
                        }
                        assert(at_most(hay[pos], key));
                        assert(at_most(hay[j], key));
                        assert(at_most(keys[k], key));
                    } else {
                        if j < pos - 1 {
                            assert(at_most(hay[j], hay[pos - 1]));
                        }
                        assert(below(hay[pos - 1], key));
                        assert(below(hay[j], key));
                        assert(below(keys[k], key));
                    }
                }
            }
        }
        lemma_exhaustive_complete(hay, next, hi, keys, m + 1, khi, res2);
        lemma_exhaustive_shape(hay, next, hi, keys, m + 1, khi, res2);
        let out = exhaustive_model(hay, next, hi, keys, m + 1, khi, res2);
        assert(out == exhaustive_model(hay, lo, hi, keys, klo, khi, res));
        assert forall|k: int| klo <= k < khi && #[trigger] out[k] is Err implies !present(
            hay,
            keys[k],
        ) by {
            if k < m {
                assert(out[k] == res2[k]);
            } else if k == m {
                assert(out[k] == res2[k]);
            }
        }
    }
}

/// Both searches tell the truth, when the haystack and the keys are sorted: a found index
/// holds an element equal to its key, and an insertion point keeps the haystack sorted.
pub proof fn law_outcomes_hold<T: Ord>(hay: Seq<T>, keys: Seq<T>)
    requires
        hay.len() <= usize::MAX,
        obeys_cmp::<T>(),
        sorted(hay),
        sorted(keys),
    ensures
        search_all_model(hay, keys).len() == keys.len(),
        search_one_model(hay, keys).len() == keys.len(),
        forall|k: int|
            0 <= k < keys.len() ==> valid_outcome(
                hay,
                keys[k],
                #[trigger] search_all_model(hay, keys)[k],
            ),
        forall|k: int|
            0 <= k < keys.len() ==> valid_outcome(
                hay,
                keys[k],
                #[trigger] search_one_model(hay, keys)[k],
            ),
{
    let res = unanswered(keys.len());
    let (hi, khi) = (hay.len() as int, keys.len() as int);
    assert forall|k: int| 0 <= k < khi implies #[trigger] fenced(hay, 0, hi, keys[k]) by {}
    lemma_exhaustive_shape(hay, 0, hi, keys, 0, khi, res);
    lemma_exhaustive_valid(hay, 0, hi, keys, 0, khi, res);
    lemma_pruned_shape(hay, 0, hi, keys, 0, khi, res);
    lemma_pruned_valid(hay, 0, hi, keys, 0, khi, res);
}

/// The exhaustive search answers every key: with the index of an equal element or with
/// an insertion point, never with "no answer".
pub proof fn law_all_keys_answered<T: Ord>(hay: Seq<T>, keys: Seq<T>)
    requires
        hay.len() <= usize::MAX,
    ensures
        search_all_model(hay, keys).len() == keys.len(),
        forall|k: int|
            0 <= k < keys.len() ==> #[trigger] search_all_model(hay, keys)[k] != Err::<
                usize,
                Option<usize>,
            >(None),
{
    let res = unanswered(keys.len());
    lemma_exhaustive_shape(hay, 0, hay.len() as int, keys, 0, keys.len() as int, res);
    assert forall|k: int| 0 <= k < keys.len() implies #[trigger] search_all_model(hay, keys)[k]
        != Err::<usize, Option<usize>>(None) by {
        assert(placed(search_all_model(hay, keys)[k], 0, hay.len() as int));
    }
}

/// The two searches find the same keys at the same indices, when the haystack is sorted;
/// every other outcome of the pruning search is the exhaustive one or "no answer".
pub proof fn law_found_keys_agree<T: Ord>(hay: Seq<T>, keys: Seq<T>)
    requires
        hay.len() <= usize::MAX,
        obeys_cmp::<T>(),
        sorted(hay),
    ensures
        forall|k: int|
            0 <= k < keys.len() ==> agrees(
                #[trigger] search_one_model(hay, keys)[k],
                search_all_model(hay, keys)[k],
            ),
        forall|k: int|
            0 <= k < keys.len() ==> (#[trigger] search_one_model(hay, keys)[k] is Ok
                <==> search_all_model(hay, keys)[k] is Ok),
        forall|k: int|
            0 <= k < keys.len() && #[trigger] search_one_model(hay, keys)[k] is Ok
                ==> search_one_model(hay, keys)[k] == search_all_model(hay, keys)[k],
{
    let res = unanswered(keys.len());
    lemma_pruned_agrees(hay, 0, hay.len() as int, keys, 0, keys.len() as int, res, res);
}

/// Along the batch, the indices named by the outcomes never decrease, for either search.
pub proof fn law_positions_grow<T: Ord>(hay: Seq<T>, keys: Seq<T>)
    requires
        hay.len() <= usize::MAX,
    ensures
        forall|a: int, b: int|
            0 <= a < b < keys.len() ==> position(#[trigger] search_all_model(hay, keys)[a])
                <= position(#[trigger] search_all_model(hay, keys)[b]),
        forall|a: int, b: int|
            0 <= a < b < keys.len() && search_one_model(hay, keys)[a] != Err::<
                usize,
                Option<usize>,
            >(None) && search_one_model(hay, keys)[b] != Err::<usize, Option<usize>>(None)
                ==> position(#[trigger] search_one_model(hay, keys)[a]) <= position(
                #[trigger] search_one_model(hay, keys)[b],
            ),
{
    let res = unanswered(keys.len());
    lemma_exhaustive_shape(hay, 0, hay.len() as int, keys, 0, keys.len() as int, res);
    lemma_pruned_shape(hay, 0, hay.len() as int, keys, 0, keys.len() as int, res);
}

/// Searching the same haystack for the same keys again gives the same outcomes.
pub proof fn law_searches_repeat<T: Ord>(hay1: Seq<T>, keys1: Seq<T>, hay2: Seq<T>, keys2: Seq<T>)
    requires
        hay1 == hay2,
        keys1 == keys2,
    ensures
        search_all_model(hay1, keys1) == search_all_model(hay2, keys2),
        search_one_model(hay1, keys1) == search_one_model(hay2, keys2),
{
}

/// An insertion point lies strictly between its neighbours; other outcomes pass.
pub open spec fn strict_outcome<T: Ord>(hay: Seq<T>, key: T, r: SearchResult) -> bool {
    match r {
        Err(Some(i)) => (i > 0 ==> below(hay[i - 1], key)) && (i < hay.len() ==> below(
            key,
            hay[i as int],
        )),
        _ => true,
    }
}

/// With a sorted haystack and distinct sorted keys, both searches find a key exactly
/// where an element equal to it is present, and every insertion point lies strictly
/// between the elements around it.
pub proof fn law_distinct_keys_found_iff_present<T: Ord>(hay: Seq<T>, keys: Seq<T>)
    requires
        hay.len() <= usize::MAX,
        obeys_cmp::<T>(),
        sorted(hay),
        strictly_sorted(keys),
    ensures
        forall|k: int|
            0 <= k < keys.len() ==> (#[trigger] search_all_model(hay, keys)[k] is Ok <==> present(
                hay,
                keys[k],
            )),
        forall|k: int|
            0 <= k < keys.len() ==> (#[trigger] search_one_model(hay, keys)[k] is Ok <==> present(
                hay,
                keys[k],
            )),
        forall|k: int|
            0 <= k < keys.len() ==> strict_outcome(
                hay,
                keys[k],
                #[trigger] search_all_model(hay, keys)[k],
            ),
        forall|k: int|
            0 <= k < keys.len() ==> strict_outcome(
                hay,
                keys[k],
                #[trigger] search_one_model(hay, keys)[k],
            ),
{
    lemma_order_laws::<T>();
    let res = unanswered(keys.len());
    let (hi, khi) = (hay.len() as int, keys.len() as int);
    assert(sorted(keys)) by {
        assert forall|i: int, j: int| 0 <= i < j < keys.len() implies #[trigger] at_most(
            keys[i],
            keys[j],
        ) by {
            assert(below(keys[i], keys[j]));
        }
    }
    law_outcomes_hold(hay, keys);
    law_found_keys_agree(hay, keys);
    assert forall|k: int| 0 <= k < khi implies #[trigger] caught(hay, 0, hi, keys[k]) by {}
    lemma_exhaustive_complete(hay, 0, hi, keys, 0, khi, res);
    let all = search_all_model(hay, keys);
    let one = search_one_model(hay, keys);
    assert forall|k: int| 0 <= k < khi implies (#[trigger] all[k] is Ok <==> present(
        hay,
        keys[k],
    )) && strict_outcome(hay, keys[k], all[k]) by {
        if let Ok(i) = all[k] {
            assert(valid_outcome(hay, keys[k], all[k]));
            assert(equiv(hay[i as int], keys[k]));
        } else {
            assert(!present(hay, keys[k]));
            assert(valid_outcome(hay, keys[k], all[k]));
            if let Err(Some(i)) = all[k] {
                if i > 0 {
                    assert(!equiv(hay[i - 1], keys[k]));
                }
                if i < hay.len() {
                    assert(!equiv(hay[i as int], keys[k]));
                }
            }
        }
    }
    assert forall|k: int| 0 <= k < khi implies (#[trigger] one[k] is Ok <==> present(
        hay,
        keys[k],
    )) && strict_outcome(hay, keys[k], one[k]) by {
        assert(all[k] is Ok <==> present(hay, keys[k]));
        assert(agrees(one[k], all[k]));
        assert(strict_outcome(hay, keys[k], all[k]));
    }
}

} // verus!
