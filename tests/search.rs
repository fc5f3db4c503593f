use mkbs::{SearchResult, MKBS, _mkbs_all_by, _mkbs_by, get_middle};

const TEST_AMOUNT: usize = 8;
const ARR_DUP_SIZE: usize = 300_000;
const KEYS_DUP_SIZE: usize = 300_000;
const KEYS_SIZE: usize = 2000;

struct Lcg(u64);

impl Lcg {
    fn next_i32(&mut self) -> i32 {
        self.0 = self.0.wrapping_mul(6364136223846793005).wrapping_add(1442695040888963407);
        (self.0 >> 32) as u32 as i32
    }
}

fn sorted_unique(rng: &mut Lcg, n: usize) -> Vec<i32> {
    let mut v: Vec<i32> = (0..n).map(|_| rng.next_i32()).collect();
    v.sort_unstable();
    v.dedup();
    v
}

fn test_mkbs<F, A>(mkbs_func: F, asserter: A)
where
    F: Fn(&[i32], &[i32; KEYS_SIZE]) -> [SearchResult; KEYS_SIZE],
    A: Fn(&[SearchResult], &[i32], &[i32]),
{
    let mut rng = Lcg(0x5eed);
    for _ in 0..TEST_AMOUNT {
        let arr = sorted_unique(&mut rng, ARR_DUP_SIZE);
        let keys = sorted_unique(&mut rng, KEYS_DUP_SIZE);
        let keys_: &[i32; KEYS_SIZE] = keys[..KEYS_SIZE].try_into().unwrap();
        let results = mkbs_func(arr.as_slice(), keys_);
        asserter(&results, &keys, &arr);
    }
}

fn test_results(results: &[SearchResult], keys: &[i32], arr: &[i32]) {
    for (keys_i, r) in results.iter().enumerate() {
        match r {
            Ok(i) => {
                assert_eq!(arr[*i], keys[keys_i]);
            }
            Err(Some(i)) => {
                assert!(i > &arr.len() || arr[*i] != keys[keys_i]);
            }
            Err(None) => {}
        }
    }
}

fn test_results_all(results: &[SearchResult], keys: &[i32], arr: &[i32]) {
    let mut nos = 0;
    for (keys_i, r) in results.iter().enumerate() {
        match r {
            Ok(i) => {
                assert_eq!(arr[*i], keys[keys_i]);
            }
            Err(Some(i)) => {
                if *i < arr.len() {
                    assert_ne!(arr[*i], keys[keys_i]);
                } else if *i == 0 {
                    assert!(keys[keys_i] < arr[*i])
                } else if *i == arr.len() {
                    assert!(keys[keys_i] > arr[arr.len() - 1])
                } else {
                    assert!(keys[keys_i] > arr[*i - 1] && keys[keys_i] > arr[*i + 1])
                }
            }
            Err(None) => nos += 1,
        }
    }
    assert_eq!(nos, 0);
}

#[test]
fn test_both() {
    test_mkbs(|a, k| a.mkbs_all(k), test_results_all);
    test_mkbs(|a, k| a.mkbs(k), test_results);
}

fn insertion_point_is_strict(hay: &[i32], key: i32, i: usize) -> bool {
    (i == 0 || hay[i - 1] < key) && (i == hay.len() || key < hay[i])
}

#[test]
fn example_scenario_exhaustive() {
    let hay: &[i32] = &[1, 3, 5, 7, 9];
    let r = hay.mkbs_all(&[3, 4, 9, 10]);
    assert_eq!(r, [Ok(1), Err(Some(2)), Ok(4), Err(Some(5))]);
}

#[test]
fn example_scenario_pruning() {
    let hay: &[i32] = &[1, 3, 5, 7, 9];
    let r = hay.mkbs(&[3, 4, 9, 10]);
    assert_eq!(r, [Ok(1), Err(Some(2)), Ok(4), Err(None)]);
}

#[test]
fn all_keys_below_haystack() {
    let hay: &[i32] = &[10, 20, 30];
    assert_eq!(hay.mkbs_all(&[1, 2, 3]), [Err(Some(0)); 3]);
    let r = hay.mkbs(&[1, 2, 3]);
    for o in r {
        assert!(matches!(o, Err(None) | Err(Some(0))));
    }
    assert_eq!(r, [Err(None); 3]);
}

#[test]
fn all_keys_above_haystack() {
    let hay: &[i32] = &[10, 20, 30];
    assert_eq!(hay.mkbs_all(&[31, 40, 50]), [Err(Some(3)); 3]);
    assert_eq!(hay.mkbs(&[31, 40, 50]), [Err(None); 3]);
}

#[test]
fn single_element_haystack() {
    let hay: &[i32] = &[5];
    assert_eq!(hay.mkbs_all(&[5]), [Ok(0)]);
    assert_eq!(hay.mkbs(&[5]), [Ok(0)]);
    assert_eq!(hay.mkbs_all(&[1]), [Err(Some(0))]);
    assert_eq!(hay.mkbs_all(&[9]), [Err(Some(1))]);
    assert_eq!(hay.mkbs(&[1]), [Err(None)]);
    assert_eq!(hay.mkbs(&[9]), [Err(None)]);
}

#[test]
fn duplicates_in_haystack_match_an_equal_element() {
    let hay: &[i32] = &[2, 2, 2, 4, 4];
    let r = hay.mkbs_all(&[2, 3, 4]);
    for (o, k) in r.iter().zip([2, 3, 4]) {
        match o {
            Ok(i) => assert_eq!(hay[*i], k),
            Err(Some(i)) => assert!(insertion_point_is_strict(hay, k, *i)),
            Err(None) => panic!("unanswered key"),
        }
    }
    assert_eq!(r[1], Err(Some(3)));
}

#[test]
fn vec_and_slice_agree() {
    let v: Vec<i32> = (0..4123).collect();
    let keys = [123, 3131];
    assert_eq!(v.mkbs(&keys), [Ok(123), Ok(3131)]);
    assert_eq!(v.mkbs_all(&keys), v.as_slice().mkbs_all(&keys));
    assert_eq!(v.mkbs(&keys), v.as_slice().mkbs(&keys));
}

#[test]
fn repeated_searches_are_identical() {
    let hay: Vec<i32> = (0..200).map(|x| x * 3).collect();
    let keys: [i32; 6] = [-4, 0, 7, 9, 300, 600];
    assert_eq!(hay.mkbs_all(&keys), hay.mkbs_all(&keys));
    assert_eq!(hay.mkbs(&keys), hay.mkbs(&keys));
}

#[test]
fn found_keys_agree_between_variants() {
    let mut rng = Lcg(7);
    for _ in 0..20 {
        let hay: Vec<i32> = {
            let mut v: Vec<i32> = (0..500).map(|_| rng.next_i32() % 1000).collect();
            v.sort_unstable();
            v
        };
        let mut ks: Vec<i32> = (0..64).map(|_| rng.next_i32() % 1200).collect();
        ks.sort_unstable();
        let keys: [i32; 64] = ks.as_slice().try_into().unwrap();
        let all = hay.mkbs_all(&keys);
        let one = hay.mkbs(&keys);
        for k in 0..64 {
            assert_eq!(one[k].is_ok(), all[k].is_ok());
            assert!(one[k] == Err(None) || one[k] == all[k]);
            assert!(all[k] != Err(None));
        }
    }
}

fn position(r: &SearchResult) -> Option<usize> {
    match r {
        Ok(i) => Some(*i),
        Err(Some(i)) => Some(*i),
        Err(None) => None,
    }
}

#[test]
fn positions_never_decrease() {
    let hay: Vec<i32> = (0..100).map(|x| x * 2).collect();
    let keys: [i32; 8] = [-1, 0, 3, 50, 51, 198, 199, 500];
    for r in [hay.mkbs_all(&keys), hay.mkbs(&keys)] {
        let ps: Vec<usize> = r.iter().filter_map(position).collect();
        for w in ps.windows(2) {
            assert!(w[0] <= w[1]);
        }
    }
    assert_eq!(
        hay.mkbs_all(&keys),
        [Err(Some(0)), Ok(0), Err(Some(2)), Ok(25), Err(Some(26)), Ok(99), Err(Some(100)), Err(Some(100))]
    );
}

#[test]
fn absent_keys_get_strict_insertion_points() {
    let hay: &[i32] = &[1, 4, 9, 16, 25, 36];
    let keys = [0, 2, 10, 26, 40];
    let r = hay.mkbs_all(&keys);
    assert_eq!(r, [Err(Some(0)), Err(Some(1)), Err(Some(3)), Err(Some(5)), Err(Some(6))]);
    for (o, k) in r.iter().zip(keys) {
        if let Err(Some(i)) = o {
            assert!(insertion_point_is_strict(hay, k, *i));
        }
    }
}

#[test]
fn middle_rounds_down() {
    assert_eq!(get_middle(3, 10), 6);
    assert_eq!(get_middle(4, 4), 4);
    assert_eq!(get_middle(0, 1), 0);
}

#[test]
fn recursive_searches_on_subranges() {
    let hay: &[i32] = &[1, 3, 5, 7, 9];
    let keys: &[i32] = &[3, 4, 9, 10];
    let mut res: [SearchResult; 4] = [Err(None); 4];
    _mkbs_all_by(hay, 0, 5, keys, 1, 3, &mut res);
    assert_eq!(res, [Err(None), Err(Some(2)), Ok(4), Err(None)]);
    let mut res: [SearchResult; 4] = [Err(None); 4];
    _mkbs_by(hay, 0, 2, keys, 0, 4, &mut res);
    assert_eq!(res, [Ok(1), Err(None), Err(None), Err(None)]);
}

#[test]
fn equal_keys_get_valid_outcomes() {
    let hay: &[i32] = &[1, 5, 9];
    assert_eq!(hay.mkbs_all(&[5, 5]), [Err(Some(1)), Ok(1)]);
    assert_eq!(hay.mkbs(&[5, 5]), [Err(None), Ok(1)]);
}
