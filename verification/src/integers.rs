//! What the reductions of a column of integers come to, whether or not the work is split.
use polars_core::prelude::Series;
use vstd::prelude::*;

use crate::parallel::{all_ints, concat, joined, part, parts_alike, parts_cover_the_column};
use crate::series::{
    dtype_of, fits, gains, greater, greatest, int_type_of, ints_of, is_float_dtype, least, losses,
    series_len, smaller, sorted_flag_of, split_part, total, IntType,
};
use crate::state::ExpressionConversionState;
use crate::udf::{is_max, is_min, is_sum, reduced_parts, SeriesError, SeriesFunction};

verus! {

/// The least of two lists is the smaller of their least values.
pub proof fn lemma_least(a: Seq<Option<int>>, b: Seq<Option<int>>)
    ensures
        least(a + b) == smaller(least(a), least(b)),
    decreases b.len(),
{
    if b.len() == 0 {
        assert(a + b =~= a);
    } else {
        lemma_least(a, b.drop_last());
        assert((a + b).drop_last() =~= a + b.drop_last());
    }
}

/// The greatest of two lists is the greater of their greatest values.
pub proof fn lemma_greatest(a: Seq<Option<int>>, b: Seq<Option<int>>)
    ensures
        greatest(a + b) == greater(greatest(a), greatest(b)),
    decreases b.len(),
{
    if b.len() == 0 {
        assert(a + b =~= a);
    } else {
        lemma_greatest(a, b.drop_last());
        assert((a + b).drop_last() =~= a + b.drop_last());
    }
}

/// The total of two lists is that of their totals.
pub proof fn lemma_total(a: Seq<Option<int>>, b: Seq<Option<int>>)
    ensures
        total(a + b) == total(a) + total(b),
    decreases b.len(),
{
    if b.len() == 0 {
        assert(a + b =~= a);
    } else {
        lemma_total(a, b.drop_last());
        assert((a + b).drop_last() =~= a + b.drop_last());
    }
}

/// Where the integers of a part start and end.
spec fn part_ints(v: Seq<Option<int>>, n: int, i: int) -> Seq<Option<int>> {
    let (offset, len) = split_part(v.len() as int, n, i);
    v.subrange(offset, offset + len)
}

/// A measure that two lists one after the other inherit from each is the same for the integers `v`
/// and for columns that have, one by one, the measures of the `n` parts of `v`.
proof fn lemma_measure_in_parts<V>(
    h: spec_fn(Seq<Option<int>>) -> V,
    op: spec_fn(V, V) -> V,
    v: Seq<Option<int>>,
    n: int,
    outs: Seq<Series>,
    k: int,
)
    requires
        forall|a: Seq<Option<int>>, b: Seq<Option<int>>| h(#[trigger] (a + b)) == op(h(a), h(b)),
        outs.len() == n,
        forall|i: int|
            0 <= i < n ==> (ints_of(#[trigger] outs[i]) matches Some(w) && h(w) == h(
                part_ints(v, n, i),
            )),
        0 < k <= n,
    ensures
        all_ints(outs.take(k)) matches Some(w) && h(w) == h(
            v.take(split_part(v.len() as int, n, k - 1).0 + split_part(v.len() as int, n, k - 1).1),
        ),
    decreases k,
{
    let len = v.len() as int;
    parts_cover_the_column(len, n, k - 1);
    let (offset, part_len) = split_part(len, n, k - 1);
    let front = outs.take(k - 1);
    assert(outs.take(k).drop_last() =~= front);
    assert(outs.take(k).last() == outs[k - 1]);
    assert(v.take(offset) + part_ints(v, n, k - 1) =~= v.take(offset + part_len));
    if k == 1 {
        assert(front =~= Seq::<Series>::empty());
        assert(all_ints(front) == Some(Seq::<Option<int>>::empty()));
        assert(v.take(offset) =~= Seq::<Option<int>>::empty());
    } else {
        lemma_measure_in_parts(h, op, v, n, outs, k - 1);
        parts_cover_the_column(len, n, k - 2);
    }
    let a = all_ints(front)->0;
    let b = ints_of(outs[k - 1])->0;
    assert(h(a + b) == op(h(a), h(b)));
    assert(h(v.take(offset) + part_ints(v, n, k - 1)) == op(
        h(v.take(offset)),
        h(part_ints(v, n, k - 1)),
    ));
}

/// As above, of all parts.
proof fn lemma_measure<V>(
    h: spec_fn(Seq<Option<int>>) -> V,
    op: spec_fn(V, V) -> V,
    v: Seq<Option<int>>,
    n: int,
    outs: Seq<Series>,
)
    requires
        forall|a: Seq<Option<int>>, b: Seq<Option<int>>| h(#[trigger] (a + b)) == op(h(a), h(b)),
        outs.len() == n,
        n > 0,
        forall|i: int|
            0 <= i < n ==> (ints_of(#[trigger] outs[i]) matches Some(w) && h(w) == h(
                part_ints(v, n, i),
            )),
    ensures
        all_ints(outs) matches Some(w) && h(w) == h(v),
{
    lemma_measure_in_parts(h, op, v, n, outs, n);
    parts_cover_the_column(v.len() as int, n, n - 1);
    assert(outs.take(n) =~= outs);
    assert(v.take(v.len() as int) =~= v);
}

/// The minimum of a column of integers that is not flagged as sorted is the least of them, and null
/// if there is none, whether or not the settings let the work be split over threads.
pub proof fn minimum_of_integers(
    propagate_nans: bool,
    state: ExpressionConversionState,
    thread_boundary: usize,
    s: Series,
    r: Result<Option<Series>, SeriesError>,
)
    requires
        (SeriesFunction::Min { propagate_nans, state }).answers(s, thread_boundary, r),
        ints_of(s) matches Some(v) && v.len() == series_len(s),
        !is_float_dtype(dtype_of(s)),
        sorted_flag_of(s) is Not,
    ensures
        r matches Ok(Some(out)) && ints_of(out) == Some(seq![least(ints_of(s)->0)]),
{
    let rel = |x: Series, y: Series| is_min(x, y);
    let out = r->Ok_0->0;
    let v = ints_of(s)->0;
    if !is_min(s, out) {
        let (n, outs) = choose|n: int, outs: Seq<Series>|
            1 <= n <= u16::MAX && #[trigger] reduced_parts(rel, s, n, outs) && parts_alike(s, n)
                && joined(outs) && rel(concat(outs), out);
        assert forall|i: int| 0 <= i < n implies (ints_of(#[trigger] outs[i]) matches Some(w)
            && least(w) == least(part_ints(v, n, i))) && sorted_flag_of(outs[i]) is Not
            && series_len(outs[i]) == 1 by {
            assert(rel(part(s, n, i), outs[i]));
            assert(ints_of(part(s, n, i)) == Some(part_ints(v, n, i)));
            lemma_single(least(part_ints(v, n, i)));
        }
        let h = |w: Seq<Option<int>>| least(w);
        let op = |a: Option<int>, b: Option<int>| smaller(a, b);
        assert forall|a: Seq<Option<int>>, b: Seq<Option<int>>| h(#[trigger] (a + b)) == op(
            h(a),
            h(b),
        ) by {
            lemma_least(a, b);
        }
        lemma_measure(h, op, v, n, outs);
        assert(sorted_flag_of(outs[0]) is Not);
    }
}

/// The maximum of a column of integers that is not flagged as sorted is the greatest of them, and
/// null if there is none, whether or not the settings let the work be split over threads.
pub proof fn maximum_of_integers(
    propagate_nans: bool,
    state: ExpressionConversionState,
    thread_boundary: usize,
    s: Series,
    r: Result<Option<Series>, SeriesError>,
)
    requires
        (SeriesFunction::Max { propagate_nans, state }).answers(s, thread_boundary, r),
        ints_of(s) matches Some(v) && v.len() == series_len(s),
        !is_float_dtype(dtype_of(s)),
        sorted_flag_of(s) is Not,
    ensures
        r matches Ok(Some(out)) && ints_of(out) == Some(seq![greatest(ints_of(s)->0)]),
{
    let rel = |x: Series, y: Series| is_max(x, y);
    let out = r->Ok_0->0;
    let v = ints_of(s)->0;
    if !is_max(s, out) {
        let (n, outs) = choose|n: int, outs: Seq<Series>|
            1 <= n <= u16::MAX && #[trigger] reduced_parts(rel, s, n, outs) && parts_alike(s, n)
                && joined(outs) && rel(concat(outs), out);
        assert forall|i: int| 0 <= i < n implies (ints_of(#[trigger] outs[i]) matches Some(w)
            && greatest(w) == greatest(part_ints(v, n, i))) && sorted_flag_of(outs[i]) is Not
            && series_len(outs[i]) == 1 by {
            assert(rel(part(s, n, i), outs[i]));
            assert(ints_of(part(s, n, i)) == Some(part_ints(v, n, i)));
            lemma_single(greatest(part_ints(v, n, i)));
        }
        let h = |w: Seq<Option<int>>| greatest(w);
        let op = |a: Option<int>, b: Option<int>| greater(a, b);
        assert forall|a: Seq<Option<int>>, b: Seq<Option<int>>| h(#[trigger] (a + b)) == op(
            h(a),
            h(b),
        ) by {
            lemma_greatest(a, b);
        }
        lemma_measure(h, op, v, n, outs);
        assert(sorted_flag_of(outs[0]) is Not);
    }
}

proof fn lemma_single(x: Option<int>)
    ensures
        least(seq![x]) == x,
        greatest(seq![x]) == x,
        x matches Some(i) ==> total(seq![x]) == i,
{
    assert(seq![x].drop_last() =~= Seq::<Option<int>>::empty());
    reveal_with_fuel(least, 2);
    reveal_with_fuel(greatest, 2);
    reveal_with_fuel(total, 2);
}

/// The sum of a column of integers is their total, whether or not the settings let the work be
/// split over threads.
pub proof fn sum_of_integers(
    state: ExpressionConversionState,
    thread_boundary: usize,
    s: Series,
    r: Result<Option<Series>, SeriesError>,
)
    requires
        (SeriesFunction::Sum { state }).answers(s, thread_boundary, r),
        int_type_of(dtype_of(s)) is Some,
        ints_of(s) matches Some(v) && v.len() == series_len(s),
    ensures
        r matches Ok(Some(out)) && ints_of(out) == Some(seq![Some(total(ints_of(s)->0))]),
{
    let rel = |x: Series, y: Series| is_sum(x, y);
    let out = r->Ok_0->0;
    let v = ints_of(s)->0;
    if !is_sum(s, out) {
        let (n, outs) = choose|n: int, outs: Seq<Series>|
            1 <= n <= u16::MAX && #[trigger] reduced_parts(rel, s, n, outs) && parts_alike(s, n)
                && joined(outs) && rel(concat(outs), out);
        let h = |w: Seq<Option<int>>| total(w);
        let op = |a: int, b: int| a + b;
        assert forall|i: int| 0 <= i < n implies (ints_of(#[trigger] outs[i]) matches Some(w)
            && h(w) == h(part_ints(v, n, i))) by {
            assert(rel(part(s, n, i), outs[i]));
            assert(ints_of(part(s, n, i)) == Some(part_ints(v, n, i)));
            lemma_single(Some(total(part_ints(v, n, i))));
        }
        assert forall|a: Seq<Option<int>>, b: Seq<Option<int>>| h(#[trigger] (a + b)) == op(
            h(a),
            h(b),
        ) by {
            lemma_total(a, b);
        }
        lemma_measure(h, op, v, n, outs);
        assert(rel(part(s, n, 0), outs[0]));
        assert(dtype_of(part(s, n, 0)) == dtype_of(s));
    }
}

/// The least of the values is one of them that none is below; there is none only among nulls.
pub proof fn least_is_the_least(v: Seq<Option<int>>)
    ensures
        match least(v) {
            Some(x) => v.contains(Some(x)) && forall|i: int|
                0 <= i < v.len() ==> (#[trigger] v[i] matches Some(y) ==> x <= y),
            None => forall|i: int| 0 <= i < v.len() ==> #[trigger] v[i] is None,
        },
    decreases v.len(),
{
    if v.len() > 0 {
        let front = v.drop_last();
        least_is_the_least(front);
        assert forall|i: int| 0 <= i < front.len() implies #[trigger] v[i] == front[i] by {}
        if let Some(x) = least(front) {
            let i = choose|i: int| 0 <= i < front.len() && front[i] == Some(x);
            assert(v[i] == Some(x));
        }
        assert(v[v.len() - 1] == v.last());
    }
}

/// The greatest of the values is one of them that none is above; there is none only among nulls.
pub proof fn greatest_is_the_greatest(v: Seq<Option<int>>)
    ensures
        match greatest(v) {
            Some(x) => v.contains(Some(x)) && forall|i: int|
                0 <= i < v.len() ==> (#[trigger] v[i] matches Some(y) ==> y <= x),
            None => forall|i: int| 0 <= i < v.len() ==> #[trigger] v[i] is None,
        },
    decreases v.len(),
{
    if v.len() > 0 {
        let front = v.drop_last();
        greatest_is_the_greatest(front);
        assert forall|i: int| 0 <= i < front.len() implies #[trigger] v[i] == front[i] by {}
        if let Some(x) = greatest(front) {
            let i = choose|i: int| 0 <= i < front.len() && front[i] == Some(x);
            assert(v[i] == Some(x));
        }
        assert(v[v.len() - 1] == v.last());
    }
}

/// A total grows by every value that is added, and by nothing for a null; that of nothing is zero.
pub proof fn totals_add_up(v: Seq<Option<int>>, x: int)
    ensures
        total(Seq::<Option<int>>::empty()) == 0,
        total(v.push(Some(x))) == total(v) + x,
        total(v.push(None)) == total(v),
{
    assert(v.push(Some(x)).drop_last() =~= v);
    assert(v.push(None).drop_last() =~= v);
}

/// What is gained and what is lost by the values make up their total. Without a negative value
/// nothing is lost, and without a positive one nothing is gained. So integers without a negative
/// one can be summed if and only if their total is within the type of the sum.
pub proof fn gains_and_losses_make_up_the_total(v: Seq<Option<int>>)
    ensures
        losses(v) <= 0 <= gains(v),
        gains(v) + losses(v) == total(v),
        (forall|i: int| 0 <= i < v.len() ==> (#[trigger] v[i] matches Some(y) ==> y >= 0))
            ==> losses(v) == 0,
        (forall|i: int| 0 <= i < v.len() ==> (#[trigger] v[i] matches Some(y) ==> y <= 0))
            ==> gains(v) == 0,
        forall|t: IntType|
            losses(v) == 0 ==> (#[trigger] fits(t, v) <==> total(v) <= t.sum_type().highest()),
    decreases v.len(),
{
    if v.len() > 0 {
        let front = v.drop_last();
        gains_and_losses_make_up_the_total(front);
        assert forall|i: int| 0 <= i < front.len() implies #[trigger] front[i] == v[i] by {}
        assert(v[v.len() - 1] == v.last());
    }
}

/// The bounds of the integer types, and the types that their sums are formed in: small ones are
/// summed as `i64`, all others as what they are.
pub proof fn integer_types_have_their_bounds(t: IntType)
    ensures
        t.lowest() <= 0 < t.highest(),
        t is Int8 ==> t.lowest() == -0x80 && t.highest() == 0x7f,
        t is Int16 ==> t.lowest() == -0x8000 && t.highest() == 0x7fff,
        t is Int32 ==> t.lowest() == -0x8000_0000 && t.highest() == 0x7fff_ffff,
        t is Int64 ==> t.lowest() == -0x8000_0000_0000_0000 && t.highest() == 0x7fff_ffff_ffff_ffff,
        t is UInt8 ==> t.lowest() == 0 && t.highest() == 0xff,
        t is UInt16 ==> t.lowest() == 0 && t.highest() == 0xffff,
        t is UInt32 ==> t.lowest() == 0 && t.highest() == 0xffff_ffff,
        t is UInt64 ==> t.lowest() == 0 && t.highest() == 0xffff_ffff_ffff_ffff,
        if t is Int8 || t is Int16 || t is UInt8 || t is UInt16 {
            t.sum_type() is Int64
        } else {
            t.sum_type() == t
        },
{
}

} // verus!
