//! The total order of the element type, as seen through `cmp_spec`.
use core::cmp::Ordering;
use vstd::laws_cmp::{
    obeys_cmp,
    obeys_cmp_ord,
    obeys_cmp_partial_ord,
    obeys_partial_cmp_spec_properties,
};
use vstd::laws_eq::obeys_eq_spec_properties;
use vstd::prelude::*;
use vstd::std_specs::cmp::{OrdSpec, PartialEqSpec, PartialOrdSpec};

verus! {

/// `a` orders strictly before `b`.
pub open spec fn below<T: Ord>(a: T, b: T) -> bool {
    a.cmp_spec(&b) == Ordering::Less
}

/// `a` and `b` are equal under the order.
pub open spec fn equiv<T: Ord>(a: T, b: T) -> bool {
    a.cmp_spec(&b) == Ordering::Equal
}

/// `a` orders before `b` or is equal to it.
pub open spec fn at_most<T: Ord>(a: T, b: T) -> bool {
    a.cmp_spec(&b) != Ordering::Greater
}

/// The sequence is non-decreasing.
pub open spec fn sorted<T: Ord>(s: Seq<T>) -> bool {
    forall|i: int, j: int| 0 <= i < j < s.len() ==> #[trigger] at_most(s[i], s[j])
}

/// The sequence is strictly increasing: no two elements are equal.
pub open spec fn strictly_sorted<T: Ord>(s: Seq<T>) -> bool {
    forall|i: int, j: int| 0 <= i < j < s.len() ==> #[trigger] below(s[i], s[j])
}

/// Some element of `hay` is equal to `key`.
pub open spec fn present<T: Ord>(hay: Seq<T>, key: T) -> bool {
    exists|j: int| 0 <= j < hay.len() && #[trigger] equiv(hay[j], key)
}

/// The usual consequences of a lawful `Ord`: `cmp` flips with its arguments, and
/// chains of `<` and `<=` compose.
pub proof fn lemma_order_laws<T: Ord>()
    requires
        obeys_cmp::<T>(),
    ensures
        forall|x: T, y: T| #[trigger]
            x.cmp_spec(&y) == Ordering::Less <==> y.cmp_spec(&x) == Ordering::Greater,
        forall|x: T, y: T| #[trigger]
            x.cmp_spec(&y) == Ordering::Equal <==> y.cmp_spec(&x) == Ordering::Equal,
        forall|x: T, y: T, z: T| #[trigger]
            at_most(x, y) && #[trigger] at_most(y, z) ==> at_most(x, z),
        forall|x: T, y: T, z: T| #[trigger]
            at_most(x, y) && #[trigger] below(y, z) ==> below(x, z),
        forall|x: T, y: T, z: T| #[trigger]
            below(x, y) && #[trigger] at_most(y, z) ==> below(x, z),
{
    reveal(obeys_cmp_partial_ord);
    reveal(obeys_cmp_ord);
    reveal(obeys_partial_cmp_spec_properties);
    reveal(obeys_eq_spec_properties);
    assert forall|x: T, y: T|
        x.cmp_spec(&y) == Ordering::Less <==> y.cmp_spec(&x) == Ordering::Greater by {
        assert(x.partial_cmp_spec(&y) == Some(x.cmp_spec(&y)));
        assert(y.partial_cmp_spec(&x) == Some(y.cmp_spec(&x)));
    }
    assert forall|x: T, y: T|
        x.cmp_spec(&y) == Ordering::Equal <==> y.cmp_spec(&x) == Ordering::Equal by {
        assert(x.partial_cmp_spec(&y) == Some(x.cmp_spec(&y)));
        assert(y.partial_cmp_spec(&x) == Some(y.cmp_spec(&x)));
        assert(x.eq_spec(&y) <==> y.eq_spec(&x));
    }
    assert forall|x: T, y: T, z: T| #[trigger]
        at_most(x, y) && #[trigger] at_most(y, z) implies at_most(x, z) by {
        assert(x.partial_cmp_spec(&y) == Some(x.cmp_spec(&y)));
        assert(y.partial_cmp_spec(&z) == Some(y.cmp_spec(&z)));
        assert(x.partial_cmp_spec(&z) == Some(x.cmp_spec(&z)));
        assert(z.partial_cmp_spec(&x) == Some(z.cmp_spec(&x)));
        assert(y.partial_cmp_spec(&x) == Some(y.cmp_spec(&x)));
        assert(z.partial_cmp_spec(&y) == Some(z.cmp_spec(&y)));
    }
    assert forall|x: T, y: T, z: T| #[trigger]
        at_most(x, y) && #[trigger] below(y, z) implies below(x, z) by {
        assert(x.partial_cmp_spec(&y) == Some(x.cmp_spec(&y)));
        assert(y.partial_cmp_spec(&z) == Some(y.cmp_spec(&z)));
        assert(x.partial_cmp_spec(&z) == Some(x.cmp_spec(&z)));
        assert(z.partial_cmp_spec(&x) == Some(z.cmp_spec(&x)));
        assert(y.partial_cmp_spec(&x) == Some(y.cmp_spec(&x)));
        assert(z.partial_cmp_spec(&y) == Some(z.cmp_spec(&y)));
    }
    assert forall|x: T, y: T, z: T| #[trigger]
        below(x, y) && #[trigger] at_most(y, z) implies below(x, z) by {
        assert(x.partial_cmp_spec(&y) == Some(x.cmp_spec(&y)));
        assert(y.partial_cmp_spec(&z) == Some(y.cmp_spec(&z)));
        assert(x.partial_cmp_spec(&z) == Some(x.cmp_spec(&z)));
        assert(z.partial_cmp_spec(&x) == Some(z.cmp_spec(&x)));
        assert(y.partial_cmp_spec(&x) == Some(y.cmp_spec(&x)));
        assert(z.partial_cmp_spec(&y) == Some(z.cmp_spec(&y)));
    }
}

} // verus!
