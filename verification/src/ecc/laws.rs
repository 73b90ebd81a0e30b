//! The steps of the multiplications as sums of points: wherever a step is
//! defined, what it computes is the sum that the curve defines.

use crate::curve::group_add;
use crate::curve::laws::{lemma_double_by_tangent, lemma_ladder_is_sum_of_sums, lemma_sum_by_chord};
use crate::ecc::{checked_add, checked_ladder, doubles, table_entry};
use vstd::prelude::*;

verus! {

/// An addition of the gadget, where it is defined, is the sum of the two
/// points.
pub proof fn lemma_checked_add_is_sum(a: (nat, nat), b: (nat, nat), p: nat, n: nat)
    requires
        p >= 2,
        checked_add(a, b, p, n) is Some,
    ensures
        checked_add(a, b, p, n) == group_add(Some(a), Some(b), p),
{
    lemma_sum_by_chord(a.0, a.1, b.0, b.1, p);
}

/// A ladder step of the gadget, where it is defined, is the sum of the
/// first point with the sum of the two points.
pub proof fn lemma_checked_ladder_is_sum(a: (nat, nat), b: (nat, nat), p: nat)
    requires
        p >= 2,
        checked_ladder(a, b, p) is Some,
    ensures
        checked_ladder(a, b, p) == group_add(Some(a), group_add(Some(a), Some(b), p), p),
{
    lemma_ladder_is_sum_of_sums(a.0, a.1, b.0, b.1, p);
}

/// Each doubling of a run of doublings, where the run is defined, is the
/// sum of the point before it with itself.
pub proof fn lemma_doubles_is_sum(c: (nat, nat), k: nat, p: nat)
    requires
        p >= 2,
        k > 0,
        doubles(c, k, p) is Some,
    ensures
        doubles(c, (k - 1) as nat, p) matches Some(d) && doubles(c, k, p) == group_add(
            Some(d),
            Some(d),
            p,
        ),
{
    let d = doubles(c, (k - 1) as nat, p).unwrap();
    lemma_double_by_tangent(d.0, d.1, p);
}

/// Each entry of the table of a point, where it is defined, is the sum of
/// the entry before it and the point.
pub proof fn lemma_table_entry_is_sum(aux: (nat, nat), point: (nat, nat), i: nat, p: nat, n: nat)
    requires
        p >= 2,
        i > 0,
        table_entry(aux, point, i, p, n) is Some,
    ensures
        table_entry(aux, point, (i - 1) as nat, p, n) matches Some(t) && table_entry(
            aux,
            point,
            i,
            p,
            n,
        ) == group_add(Some(t), Some(point), p),
{
    let t = table_entry(aux, point, (i - 1) as nat, p, n).unwrap();
    lemma_checked_add_is_sum(t, point, p, n);
}

} // verus!
