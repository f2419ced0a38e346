//! The functions on columns that the planner puts into a plan itself.
use polars_core::prelude::{PolarsError, Series};
use vstd::prelude::*;

use crate::columns::{
    can_explode, can_find_median, can_sum, has_ends, has_rows_kept, is_kept, lemma_join,
    lemma_take_fits, lemma_total_between,
};
use crate::parallel::{
    all_ints, can_concat, concat, gives, gives_for_parts, gives_in_parts, joined,
    parallel_op_series, part, parts_alike, parts_cover_the_column, runs_in_parts, runs_serially,
    total_len,
};
use crate::series::{
    dtype, dtype_of, explode, explode_of, gains, greatest, has_extremes, has_median, head, implode,
    implode_of, int_type_of, ints_of, is_float, is_float_dtype, is_list_dtype, is_mean_of,
    is_physical, is_physical_dtype, is_sorted_flag, is_std_of, is_sum_of, is_var_of, keeps_rows,
    keeps_type, least, len, list_values_of, losses, max_as_series, max_of, mean_as_series,
    median_as_series, median_of, min_as_series, min_of, n_chunks, n_chunks_of, n_unique,
    n_unique_of, name, name_of, nan_max, nan_max_of, nan_min, nan_min_of, rows_at_most, series_len,
    slice_of, sorted_flag_of, split_part, std_as_series, sub_ints, sum_as_series, sum_dtype,
    sum_fits, sums_ints, tail, take, u32_series, u32_series_of, values_fit, var_as_series, IntType,
    SortedFlag,
};
use crate::state::ExpressionConversionState;

verus! {

/// The failure of a function on columns.
#[derive(Debug)]
pub struct SeriesError {
    pub source: PolarsError,
}

/// A function on columns, of which it reads the first.
#[derive(Clone, Copy, PartialEq, Eq, Structural, Debug)]
pub enum SeriesFunction {
    Min { propagate_nans: bool, state: ExpressionConversionState },
    Max { propagate_nans: bool, state: ExpressionConversionState },
    Median,
    NUnique,
    First,
    Last,
    Mean,
    Implode,
    Sum { state: ExpressionConversionState },
    Count,
    Std(u8),
    Var(u8),
    Explode,
}

/// `outs` are answers that `rel` admits for the `n` parts of `s`.
pub open spec fn reduced_parts(
    rel: spec_fn(Series, Series) -> bool,
    s: Series,
    n: int,
    outs: Seq<Series>,
) -> bool {
    &&& outs.len() == n
    &&& forall|i: int| 0 <= i < n ==> rel(part(s, n, i), #[trigger] outs[i])
}

/// `r` is an answer that `rel` admits for `s`, or, where the settings and the boundary let the work
/// on `s` be split over threads, for the answers that it admits for some number of parts of `s`.
pub open spec fn reduced(
    rel: spec_fn(Series, Series) -> bool,
    s: Series,
    state: ExpressionConversionState,
    thread_boundary: usize,
    r: Series,
) -> bool {
    ||| rel(s, r)
    ||| {
        &&& !runs_serially(state, series_len(s), thread_boundary, false)
        &&& exists|n: int, outs: Seq<Series>|
            1 <= n <= u16::MAX && #[trigger] reduced_parts(rel, s, n, outs) && parts_alike(s, n)
                && joined(outs) && rel(concat(outs), r)
    }
}

/// `r` is a column of one row with the name of `s`.
pub open spec fn is_named_row(s: Series, r: Series) -> bool {
    &&& series_len(r) == 1
    &&& n_chunks_of(r) > 0
    &&& name_of(r) == name_of(s)
}

/// `r` is a column of one row with the name and type of `s`, kept as it says, and not flagged as
/// sorted.
pub open spec fn is_row_like(s: Series, r: Series) -> bool {
    &&& is_named_row(s, r)
    &&& dtype_of(r) == dtype_of(s)
    &&& keeps_type(r)
    &&& sorted_flag_of(r) is Not
}

/// `r` is the column of one row with the smallest value of `s`. Of integers it is the least, unless
/// `s` is flagged as sorted.
pub open spec fn is_min(s: Series, r: Series) -> bool {
    &&& r == min_of(s)
    &&& is_row_like(s, r)
    &&& ints_of(s) matches Some(v) ==> sorted_flag_of(s) is Not ==> ints_of(r) == Some(
        seq![least(v)],
    )
}

/// `r` is the column of one row with the largest value of `s`. Of integers it is the greatest,
/// unless `s` is flagged as sorted.
pub open spec fn is_max(s: Series, r: Series) -> bool {
    &&& r == max_of(s)
    &&& is_row_like(s, r)
    &&& ints_of(s) matches Some(v) ==> sorted_flag_of(s) is Not ==> ints_of(r) == Some(
        seq![greatest(v)],
    )
}

/// `r` is the column of one row that polars gives for the smallest float of `s`. In one piece that
/// is the smallest, or NaN if `s` holds one; but what several pieces give is added up. So the
/// answers for the parts of a column, each of them a piece of what they are put together to, are
/// added up as well.
pub open spec fn is_nan_min(s: Series, r: Series) -> bool {
    r == nan_min_of(s) && is_row_like(s, r)
}

/// `r` is the column of one row that polars gives for the largest float of `s`. In one piece that
/// is the largest, or NaN if `s` holds one; but what several pieces give, and so the answers for
/// the parts of a column, is added up.
pub open spec fn is_nan_max(s: Series, r: Series) -> bool {
    r == nan_max_of(s) && is_row_like(s, r)
}

/// `r` is a column of one row with the sum of `s`, which is the total of integers.
pub open spec fn is_sum(s: Series, r: Series) -> bool {
    &&& is_sum_of(s, r)
    &&& is_named_row(s, r)
    &&& keeps_type(r)
    &&& dtype_of(r) == sum_dtype(dtype_of(s))
    &&& sum_dtype(dtype_of(r)) == dtype_of(r)
    &&& sums_ints(s, r)
}

/// `r` is the part of `s` that starts at `offset` and has `len` rows.
pub open spec fn is_part(s: Series, offset: int, len: int, r: Series) -> bool {
    &&& r == slice_of(s, offset, len)
    &&& series_len(r) == len
    &&& dtype_of(r) == dtype_of(s)
    &&& name_of(r) == name_of(s)
    &&& ints_of(r) == sub_ints(ints_of(s), offset, len)
}

/// `n` is the number of distinct values where `s` has integers and is not flagged as sorted.
pub open spec fn counts_distinct(s: Series, n: usize) -> bool {
    sorted_flag_of(s) is Not ==> (ints_of(s) matches Some(v) ==> n == v.to_set().len())
}

/// `r` is a column of that name whose one row counts `n`.
pub open spec fn is_count(name: Seq<char>, n: u32, r: Series) -> bool {
    &&& r == u32_series_of(name, n)
    &&& series_len(r) == 1
    &&& name_of(r) == name
    &&& int_type_of(dtype_of(r)) == Some(IntType::UInt32)
    &&& ints_of(r) == Some(seq![Some(n as int)])
}

impl SeriesFunction {
    /// `r` is an answer of the function for `s`.
    pub open spec fn answers(
        self,
        s: Series,
        thread_boundary: usize,
        r: Result<Option<Series>, SeriesError>,
    ) -> bool {
        match self {
            SeriesFunction::Min { propagate_nans, state } => r matches Ok(Some(out)) && (if
            propagate_nans && is_float_dtype(dtype_of(s)) {
                reduced(|x: Series, y: Series| is_nan_min(x, y), s, state, thread_boundary, out)
            } else if sorted_flag_of(s) is Not {
                reduced(|x: Series, y: Series| is_min(x, y), s, state, thread_boundary, out)
            } else {
                is_min(s, out)
            }) && is_row_like(s, out),
            SeriesFunction::Max { propagate_nans, state } => r matches Ok(Some(out)) && (if
            propagate_nans && is_float_dtype(dtype_of(s)) {
                reduced(|x: Series, y: Series| is_nan_max(x, y), s, state, thread_boundary, out)
            } else if sorted_flag_of(s) is Not {
                reduced(|x: Series, y: Series| is_max(x, y), s, state, thread_boundary, out)
            } else {
                is_max(s, out)
            }) && is_row_like(s, out),
            SeriesFunction::Median => r matches Ok(Some(out)) && out == median_of(s)
                && is_named_row(s, out),
            SeriesFunction::NUnique => match n_unique_of(s) {
                Ok(n) => r matches Ok(Some(out)) && is_count(name_of(s), n as u32, out)
                    && counts_distinct(s, n),
                Err(source) => r == Err::<Option<Series>, SeriesError>(SeriesError { source })
                    && ints_of(s) is None,
            },
            SeriesFunction::First => r matches Ok(Some(out)) && is_part(
                s,
                0,
                rows_at_most(s, 1),
                out,
            ),
            SeriesFunction::Last => r matches Ok(Some(out)) && is_part(
                s,
                series_len(s) - rows_at_most(s, 1),
                rows_at_most(s, 1),
                out,
            ),
            SeriesFunction::Mean => r matches Ok(Some(out)) && is_mean_of(s, out)
                && is_named_row(s, out),
            SeriesFunction::Implode => r matches Ok(Some(out)) && out == implode_of(s)
                && is_named_row(s, out),
            SeriesFunction::Sum { state } => r matches Ok(Some(out)) && reduced(
                |x: Series, y: Series| is_sum(x, y),
                s,
                state,
                thread_boundary,
                out,
            ) && is_named_row(s, out) && dtype_of(out) == sum_dtype(dtype_of(s)),
            SeriesFunction::Count => r matches Ok(Some(out)) && is_count(
                name_of(s),
                series_len(s) as u32,
                out,
            ),
            SeriesFunction::Std(ddof) => r matches Ok(Some(out)) && is_std_of(s, ddof, out)
                && is_named_row(s, out),
            SeriesFunction::Var(ddof) => r matches Ok(Some(out)) && is_var_of(s, ddof, out)
                && is_named_row(s, out),
            SeriesFunction::Explode => r matches Ok(Some(out)) && out == explode_of(s) && name_of(
                out,
            ) == name_of(s) && (!is_list_dtype(dtype_of(s)) || ints_of(s) is Some ==> out == s),
        }
    }

    /// Whether the function only reads its column, and does not take it out of its place.
    pub open spec fn only_reads(self) -> bool {
        self is Implode || self is Explode
    }

    /// Whether the settings and the boundary let the function split its work over threads.
    pub open spec fn may_split(self, s: Series, thread_boundary: usize) -> bool {
        match self {
            SeriesFunction::Min { state, .. } => !runs_serially(
                state,
                series_len(s),
                thread_boundary,
                false,
            ),
            SeriesFunction::Max { state, .. } => !runs_serially(
                state,
                series_len(s),
                thread_boundary,
                false,
            ),
            SeriesFunction::Sum { state } => !runs_serially(
                state,
                series_len(s),
                thread_boundary,
                false,
            ),
            _ => false,
        }
    }

    /// Whether polars goes through other columns of all the rows to compute the function.
    pub open spec fn copies_rows(self) -> bool {
        match self {
            SeriesFunction::Median => true,
            SeriesFunction::NUnique => true,
            SeriesFunction::Implode => true,
            SeriesFunction::Std(_) => true,
            SeriesFunction::Var(_) => true,
            _ => false,
        }
    }

    /// Whether polars takes the column for what it says of itself to compute the function.
    pub open spec fn goes_by_type(self) -> bool {
        self is Min || self is Max || self is Sum || self is Implode
    }

    /// Whether polars relates what it finds in the pieces of the column to its rows to compute the
    /// function.
    pub open spec fn goes_by_rows(self) -> bool {
        match self {
            SeriesFunction::Median => true,
            SeriesFunction::NUnique => true,
            SeriesFunction::Mean => true,
            SeriesFunction::Std(_) => true,
            SeriesFunction::Var(_) => true,
            _ => false,
        }
    }

    /// Whether the function looks for an end of the column to find its smallest or largest value,
    /// and not for the smallest or largest float with NaNs.
    pub open spec fn looks_for_ends(self, s: Series) -> bool {
        match self {
            SeriesFunction::Min { propagate_nans, .. } => !(propagate_nans && is_float_dtype(
                dtype_of(s),
            )),
            SeriesFunction::Max { propagate_nans, .. } => !(propagate_nans && is_float_dtype(
                dtype_of(s),
            )),
            _ => false,
        }
    }

    /// Whether polars looks into the column to compute the function, so that there has to be a
    /// piece.
    pub open spec fn needs_chunk(self) -> bool {
        match self {
            SeriesFunction::NUnique => false,
            SeriesFunction::Mean => false,
            SeriesFunction::Count => false,
            SeriesFunction::Explode => false,
            _ => true,
        }
    }

    /// Whether polars answers for `s`, and does not give up on it:
    ///
    /// - of a column that is flagged as sorted, the smallest and largest value are not to be had
    ///   where there is no string, or nothing but nulls in pieces some of which are empty;
    /// - integers are not added up beyond the type of their sum;
    /// - the median is not found among nulls that a column that is flagged as ascending has not all
    ///   at its start;
    /// - no column can be formed that reaches the row limit of polars, of the rows, of the items of
    ///   lists, or of the values behind lists;
    /// - a column without a piece, as is left where one was taken, holds nothing to look into;
    /// - a column that is not kept as it says is mistaken for what it is not, and so is one to be
    ///   made into a list if its type is not the one that its values are kept as.
    pub open spec fn accepts(self, s: Series, thread_boundary: usize) -> bool {
        &&& self.looks_for_ends(s) ==> has_extremes(s)
        &&& self is Sum ==> sum_fits(s)
        &&& self is Median ==> has_median(s)
        &&& self.may_split(s, thread_boundary) || self.copies_rows() ==> series_len(s) < u32::MAX
        &&& self.needs_chunk() ==> n_chunks_of(s) > 0
        &&& self.goes_by_type() ==> keeps_type(s)
        &&& self.goes_by_rows() ==> keeps_rows(s)
        &&& self is Implode ==> is_physical_dtype(dtype_of(s))
        &&& self is Explode && is_list_dtype(dtype_of(s)) ==> {
            &&& keeps_type(s)
            &&& series_len(s) < u32::MAX
            &&& values_fit(s)
            &&& series_len(explode_of(s)) < u32::MAX
        }
    }
}

proof fn lemma_total_len_of_single_rows(outs: Seq<Series>)
    requires
        forall|i: int| 0 <= i < outs.len() ==> series_len(#[trigger] outs[i]) == 1,
    ensures
        total_len(outs) == outs.len(),
    decreases outs.len(),
{
    if outs.len() > 0 {
        lemma_total_len_of_single_rows(outs.drop_last());
    }
}

proof fn lemma_sum_of_part_fits(s: Series, n: int, i: int)
    requires
        sum_fits(s),
        parts_alike(s, n),
        0 <= i < n,
    ensures
        sum_fits(part(s, n, i)),
{
    if int_type_of(dtype_of(s)) is Some {
        let v = ints_of(s)->0;
        let (offset, len) = split_part(series_len(s) as int, n, i);
        parts_cover_the_column(series_len(s) as int, n, i);
        assert(dtype_of(part(s, n, i)) == dtype_of(s));
        let end = v.take(offset + len);
        assert(v.subrange(offset, offset + len) =~= end.skip(offset));
        assert(end.take(offset) + end.skip(offset) =~= end);
        lemma_join(end.take(offset), end.skip(offset));
        lemma_total_between(end.take(offset));
        lemma_take_fits(v, offset + len);
    }
}

/// What the sums of the first `k` parts add up to is within what the rows of these parts add up to.
proof fn lemma_sums_of_parts(s: Series, n: int, outs: Seq<Series>, k: int)
    requires
        int_type_of(dtype_of(s)) is Some || int_type_of(dtype_of(outs[0])) is Some,
        int_type_of(dtype_of(s)) is Some ==> (ints_of(s) matches Some(v) && v.len() == series_len(
            s,
        )),
        parts_alike(s, n),
        outs.len() == n,
        forall|i: int| 0 <= i < n ==> is_sum(part(s, n, i), #[trigger] outs[i]),
        0 <= k <= n,
        n > 0,
    ensures
        all_ints(outs.take(k)) matches Some(w) && w.len() == k && ({
            let end = if k == 0 {
                0
            } else {
                split_part(series_len(s) as int, n, k - 1).0 + split_part(
                    series_len(s) as int,
                    n,
                    k - 1,
                ).1
            };
            match int_type_of(dtype_of(s)) {
                Some(_) => losses(ints_of(s)->0.take(end)) <= losses(w) && gains(w) <= gains(
                    ints_of(s)->0.take(end),
                ),
                None => losses(w) == 0 && gains(w) <= end,
            }
        }),
    decreases k,
{
    let rows = series_len(s) as int;
    if k == 0 {
        assert(outs.take(0) =~= Seq::<Series>::empty());
    } else {
        lemma_sums_of_parts(s, n, outs, k - 1);
        parts_cover_the_column(rows, n, k - 1);
        if k > 1 {
            parts_cover_the_column(rows, n, k - 2);
        }
        let (offset, len) = split_part(rows, n, k - 1);
        assert(outs.take(k).drop_last() =~= outs.take(k - 1));
        assert(outs.take(k).last() == outs[k - 1]);
        assert(is_sum(part(s, n, 0), outs[0]));
        assert(is_sum(part(s, n, k - 1), outs[k - 1]));
        assert(dtype_of(part(s, n, k - 1)) == dtype_of(s));
        assert(dtype_of(part(s, n, 0)) == dtype_of(s));
        let a = all_ints(outs.take(k - 1))->0;
        let b = ints_of(outs[k - 1])->0;
        lemma_join(a, b);
        assert(b =~= seq![b[0]]);
        assert(b.drop_last() =~= Seq::<Option<int>>::empty());
        reveal_with_fuel(gains, 2);
        reveal_with_fuel(losses, 2);
        if int_type_of(dtype_of(s)) is Some {
            let v = ints_of(s)->0;
            let rows_of_part = v.subrange(offset, offset + len);
            assert(v.take(offset) + rows_of_part =~= v.take(offset + len));
            lemma_join(v.take(offset), rows_of_part);
            lemma_total_between(rows_of_part);
        }
    }
}

proof fn lemma_sum_of_sums_fits(s: Series, n: int, outs: Seq<Series>)
    requires
        sum_fits(s),
        series_len(s) <= u32::MAX,
        parts_alike(s, n),
        joined(outs),
        outs.len() == n,
        n > 0,
        forall|i: int| 0 <= i < n ==> is_sum(part(s, n, i), #[trigger] outs[i]),
    ensures
        sum_fits(concat(outs)),
{
    assert(is_sum(part(s, n, 0), outs[0]));
    assert(dtype_of(part(s, n, 0)) == dtype_of(s));
    if int_type_of(dtype_of(outs[0])) is Some {
        lemma_sums_of_parts(s, n, outs, n);
        parts_cover_the_column(series_len(s) as int, n, n - 1);
        assert(outs.take(n) =~= outs);
        lemma_total_len_of_single_rows(outs);
        if int_type_of(dtype_of(s)) is Some {
            let v = ints_of(s)->0;
            assert(v.take(v.len() as int) =~= v);
        }
    }
}

/// Reduces a column to one row with `f`, which `rel` describes, in parts where the settings and the
/// boundary allow it.
fn reduce<F>(
    f: F,
    Ghost(rel): Ghost<spec_fn(Series, Series) -> bool>,
    s: Series,
    state: ExpressionConversionState,
    thread_boundary: usize,
) -> (r: Result<Option<Series>, SeriesError>) where
    F: Fn(Series) -> Result<Series, SeriesError> + Send + Sync,

    requires
        call_requires(f, (s,)),
        forall|x: Series, o: Result<Series, SeriesError>| #[trigger]
            call_ensures(f, (x,), o) ==> (o matches Ok(y) && rel(x, y) && is_named_row(x, y)),
        !runs_serially(state, series_len(s), thread_boundary, false) ==> {
            &&& series_len(s) < u32::MAX
            &&& n_chunks_of(s) > 0
            &&& forall|n: int|
                1 <= n <= u16::MAX ==> #[trigger] runs_in_parts::<F, SeriesError>(f, s, n)
        },
    ensures
        r matches Ok(Some(out)) && is_named_row(s, out) && reduced(
            rel,
            s,
            state,
            thread_boundary,
            out,
        ),
{
    let r = parallel_op_series(f, s, None, state, thread_boundary);
    proof {
        if !gives(f, s, r) {
            let n = choose|n: int| 1 <= n <= u16::MAX && #[trigger] gives_in_parts(f, s, n, r);
            let outs = choose|outs: Seq<Series>| #[trigger]
                gives_for_parts::<F, SeriesError>(f, s, n, outs) && joined(outs) && gives(
                    f,
                    concat(outs),
                    r,
                );
            assert(reduced_parts(rel, s, n, outs));
            assert(call_ensures(f, (part(s, n, 0),), Ok(outs[0])));
        }
    }
    r
}

/// Reduces a column with an `f` that asks of a column no more than its type, that it is kept as it
/// says, and that it has the sorted flag of `s` or none, and whose answers are like what they are
/// asked for.
fn reduce_alike<F>(
    f: F,
    Ghost(rel): Ghost<spec_fn(Series, Series) -> bool>,
    s: Series,
    state: ExpressionConversionState,
    thread_boundary: usize,
) -> (r: Result<Option<Series>, SeriesError>) where
    F: Fn(Series) -> Result<Series, SeriesError> + Send + Sync,

    requires
        forall|x: Series|
            dtype_of(x) == dtype_of(s) && keeps_type(x) && (sorted_flag_of(x)
                == sorted_flag_of(s) || sorted_flag_of(x) is Not) ==> #[trigger] call_requires(
                f,
                (x,),
            ),
        forall|x: Series, o: Result<Series, SeriesError>| #[trigger]
            call_ensures(f, (x,), o) ==> (o matches Ok(y) && rel(x, y) && is_row_like(x, y)),
        keeps_type(s),
        !runs_serially(state, series_len(s), thread_boundary, false) ==> series_len(s) < u32::MAX,
    ensures
        r matches Ok(Some(out)) && is_row_like(s, out) && reduced(
            rel,
            s,
            state,
            thread_boundary,
            out,
        ),
{
    proof {
        assert forall|n: int| 1 <= n <= u16::MAX implies #[trigger] runs_in_parts::<F, SeriesError>(
            f,
            s,
            n,
        ) by {
            if parts_alike(s, n) {
                assert forall|outs: Seq<Series>| #[trigger]
                    gives_for_parts::<F, SeriesError>(f, s, n, outs) implies {
                    &&& can_concat(outs)
                    &&& joined(outs) ==> call_requires(f, (concat(outs),))
                } by {
                    assert(call_ensures(f, (part(s, n, 0),), Ok(outs[0])));
                    lemma_total_len_of_single_rows(outs);
                }
            }
        }
    }
    let ghost row_like = |x: Series, y: Series| rel(x, y) && is_row_like(x, y);
    let r = reduce(f, Ghost(row_like), s, state, thread_boundary);
    proof {
        let out = r->Ok_0->0;
        if !row_like(s, out) {
            let (n, outs) = choose|n: int, outs: Seq<Series>|
                1 <= n <= u16::MAX && #[trigger] reduced_parts(row_like, s, n, outs) && parts_alike(
                    s,
                    n,
                ) && joined(outs) && row_like(concat(outs), out);
            assert(row_like(part(s, n, 0), outs[0]));
            assert(reduced_parts(rel, s, n, outs));
        }
    }
    r
}

/// Sums a column, in parts where the settings and the boundary allow it.
fn reduce_to_sum(s: Series, state: ExpressionConversionState, thread_boundary: usize) -> (r: Result<
    Option<Series>,
    SeriesError,
>)
    requires
        sum_fits(s),
        keeps_type(s),
        !runs_serially(state, series_len(s), thread_boundary, false) ==> series_len(s) < u32::MAX,
    ensures
        r matches Ok(Some(out)) && reduced(
            |x: Series, y: Series| is_sum(x, y),
            s,
            state,
            thread_boundary,
            out,
        ) && is_named_row(s, out) && dtype_of(out) == sum_dtype(dtype_of(s)),
{
    let f = |x: Series| -> (o: Result<Series, SeriesError>)
        requires
            sum_fits(x),
            keeps_type(x),
        ensures
            o matches Ok(y) && is_sum(x, y),
        { Ok(sum_as_series(&x)) };
    let ghost rel = |x: Series, y: Series| is_sum(x, y);
    proof {
        assert forall|n: int|
            1 <= n <= u16::MAX && series_len(s) < u32::MAX implies #[trigger] runs_in_parts(
            f,
            s,
            n,
        ) by {
            if parts_alike(s, n) {
                assert forall|i: int| 0 <= i < n implies call_requires(
                    f,
                    (#[trigger] part(s, n, i),),
                ) by {
                    lemma_sum_of_part_fits(s, n, i);
                }
                assert forall|outs: Seq<Series>| #[trigger]
                    gives_for_parts(f, s, n, outs) implies {
                    &&& can_concat(outs)
                    &&& joined(outs) ==> call_requires(f, (concat(outs),))
                } by {
                    assert forall|i: int| 0 <= i < n implies is_sum(
                        part(s, n, i),
                        #[trigger] outs[i],
                    ) by {
                        assert(call_ensures(f, (part(s, n, i),), Ok(outs[i])));
                    }
                    lemma_total_len_of_single_rows(outs);
                    if joined(outs) {
                        lemma_sum_of_sums_fits(s, n, outs);
                    }
                }
            }
        }
    }
    let r = reduce(f, Ghost(rel), s, state, thread_boundary);
    proof {
        let out = r->Ok_0->0;
        if !is_sum(s, out) {
            let (n, outs) = choose|n: int, outs: Seq<Series>|
                1 <= n <= u16::MAX && #[trigger] reduced_parts(rel, s, n, outs) && parts_alike(s, n)
                    && joined(outs) && rel(concat(outs), out);
            assert(rel(part(s, n, 0), outs[0]));
        }
    }
    r
}

impl SeriesFunction {
    /// Runs the function on the first of the columns, which it takes out of its place unless it
    /// only reads it.
    pub fn call(&self, s: &mut [Series], thread_boundary: usize) -> (r: Result<
        Option<Series>,
        SeriesError,
    >)
        requires
            old(s)@.len() > 0,
            self.accepts(old(s)@[0], thread_boundary),
        ensures
            self.answers(old(s)@[0], thread_boundary, r),
            self.only_reads() ==> final(s)@ == old(s)@,
            !self.only_reads() ==> final(s)@ == old(s)@.update(0, final(s)@[0]) && series_len(
                final(s)@[0],
            ) == 0,
    {
        match *self {
            SeriesFunction::Implode => match implode(&s[0]) {
                Ok(out) => Ok(Some(out)),
                Err(source) => Err(SeriesError { source }),
            },
            SeriesFunction::Explode => match explode(&s[0]) {
                Ok(out) => Ok(Some(out)),
                Err(source) => Err(SeriesError { source }),
            },
            SeriesFunction::Min { propagate_nans, state } => {
                let s = take(&mut s[0]);
                if propagate_nans && is_float(&s) {
                    let f = |x: Series| -> (o: Result<Series, SeriesError>)
                        requires
                            is_float_dtype(dtype_of(x)),
                        ensures
                            o matches Ok(y) && is_nan_min(x, y),
                        { Ok(nan_min(&x)) };
                    return reduce_alike(
                        f,
                        Ghost(|x: Series, y: Series| is_nan_min(x, y)),
                        s,
                        state,
                        thread_boundary,
                    );
                }
                match is_sorted_flag(&s) {
                    SortedFlag::Ascending | SortedFlag::Descending => Ok(Some(min_as_series(&s))),
                    SortedFlag::Not => {
                        let f = |x: Series| -> (o: Result<Series, SeriesError>)
                            requires
                                has_extremes(x),
                                keeps_type(x),
                            ensures
                                o matches Ok(y) && is_min(x, y),
                            { Ok(min_as_series(&x)) };
                        reduce_alike(
                            f,
                            Ghost(|x: Series, y: Series| is_min(x, y)),
                                s,
                            state,
                            thread_boundary,
                        )
                    },
                }
            },
            SeriesFunction::Max { propagate_nans, state } => {
                let s = take(&mut s[0]);
                if propagate_nans && is_float(&s) {
                    let f = |x: Series| -> (o: Result<Series, SeriesError>)
                        requires
                            is_float_dtype(dtype_of(x)),
                        ensures
                            o matches Ok(y) && is_nan_max(x, y),
                        { Ok(nan_max(&x)) };
                    return reduce_alike(
                        f,
                        Ghost(|x: Series, y: Series| is_nan_max(x, y)),
                        s,
                        state,
                        thread_boundary,
                    );
                }
                match is_sorted_flag(&s) {
                    SortedFlag::Ascending | SortedFlag::Descending => Ok(Some(max_as_series(&s))),
                    SortedFlag::Not => {
                        let f = |x: Series| -> (o: Result<Series, SeriesError>)
                            requires
                                has_extremes(x),
                                keeps_type(x),
                            ensures
                                o matches Ok(y) && is_max(x, y),
                            { Ok(max_as_series(&x)) };
                        reduce_alike(
                            f,
                            Ghost(|x: Series, y: Series| is_max(x, y)),
                                s,
                            state,
                            thread_boundary,
                        )
                    },
                }
            },
            SeriesFunction::Sum { state } => {
                let s = take(&mut s[0]);
                reduce_to_sum(s, state, thread_boundary)
            },
            SeriesFunction::Median => Ok(Some(median_as_series(&take(&mut s[0])))),
            SeriesFunction::NUnique => {
                let s = take(&mut s[0]);
                match n_unique(&s) {
                    Ok(count) => {
                        let name = name(&s);
                        Ok(Some(u32_series(name.as_str(), count as u32)))
                    },
                    Err(source) => Err(SeriesError { source }),
                }
            },
            SeriesFunction::First => Ok(Some(head(&take(&mut s[0]), 1))),
            SeriesFunction::Last => Ok(Some(tail(&take(&mut s[0]), 1))),
            SeriesFunction::Mean => Ok(Some(mean_as_series(&take(&mut s[0])))),
            SeriesFunction::Count => {
                let s = take(&mut s[0]);
                let count = len(&s);
                let name = name(&s);
                Ok(Some(u32_series(name.as_str(), count as u32)))
            },
            SeriesFunction::Std(ddof) => Ok(Some(std_as_series(&take(&mut s[0]), ddof))),
            SeriesFunction::Var(ddof) => Ok(Some(var_as_series(&take(&mut s[0]), ddof))),
        }
    }

    /// Runs the function as [`SeriesFunction::call`] does, where there is a column and the function
    /// is known to accept it; otherwise the columns stay as they are and nothing is returned.
    pub fn try_call(&self, s: &mut [Series], thread_boundary: usize) -> (r: Option<
        Result<Option<Series>, SeriesError>,
    >)
        ensures
            match r {
                Some(out) => {
                    &&& old(s)@.len() > 0
                    &&& self.accepts(old(s)@[0], thread_boundary)
                    &&& self.answers(old(s)@[0], thread_boundary, out)
                    &&& self.only_reads() ==> final(s)@ == old(s)@
                    &&& !self.only_reads() ==> final(s)@ == old(s)@.update(0, final(s)@[0])
                        && series_len(final(s)@[0]) == 0
                },
                None => final(s)@ == old(s)@,
            },
            r is None ==> {
                ||| old(s)@.len() == 0
                ||| !self.accepts(old(s)@[0], thread_boundary)
                ||| self is Explode && list_values_of(old(s)@[0]) + series_len(old(s)@[0])
                    >= u32::MAX
                ||| (self is Min || self is Max || self is Sum) && series_len(old(s)@[0])
                    == u32::MAX
            },
    {
        if s.len() == 0 {
            return None;
        }
        let column = &s[0];
        let in_limit = len(column) < u32::MAX as usize;
        let in_pieces = n_chunks(column) > 0;
        let accepted = match *self {
            SeriesFunction::Min { propagate_nans, .. }
            | SeriesFunction::Max { propagate_nans, .. } => {
                in_limit && is_kept(column) && (propagate_nans && is_float(column) || has_ends(
                    column,
                ))
            },
            SeriesFunction::Sum { .. } => in_limit && is_kept(column) && can_sum(column),
            SeriesFunction::Median => {
                in_limit && in_pieces && has_rows_kept(column) && can_find_median(column)
            },
            SeriesFunction::Std(_) | SeriesFunction::Var(_) => {
                in_limit && in_pieces && has_rows_kept(column)
            },
            SeriesFunction::NUnique => in_limit && has_rows_kept(column),
            SeriesFunction::Mean => has_rows_kept(column),
            SeriesFunction::First | SeriesFunction::Last => in_pieces,
            SeriesFunction::Implode => in_limit && is_kept(column) && is_physical(dtype(column)),
            SeriesFunction::Explode => can_explode(column),
            SeriesFunction::Count => true,
        };
        if accepted {
            Some(self.call(s, thread_boundary))
        } else {
            None
        }
    }
}

} // verus!
