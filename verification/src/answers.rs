//! What the functions on columns answer, told by what polars gives for the column or its parts.
use polars_core::prelude::Series;
use vstd::prelude::*;

use crate::parallel::{concat, joined, part, parts_alike};
use crate::series::{
    append_of,
    dtype_of, explode_of, has_extremes, has_median, implode_of, int_type_of, ints_of,
    is_float_dtype, is_list_dtype, is_mean_of, is_physical_dtype, is_std_of, is_sum_of, is_var_of,
    keeps_rows, keeps_type, max_of, median_of, min_of, n_chunks_of, n_unique_of, name_of,
    nan_max_of, nan_min_of, series_len, slice_of, sorted_flag_of, sum_fits, u32_series_of,
    values_fit, IntType,
};
use crate::state::ExpressionConversionState;
use crate::udf::{
    is_max, is_min, is_nan_max, is_nan_min, is_sum, reduced, reduced_parts, SeriesError,
    SeriesFunction,
};

verus! {

/// `out` is one row of the name of `s`.
pub open spec fn is_one_row(s: Series, out: Series) -> bool {
    series_len(out) == 1 && name_of(out) == name_of(s)
}

/// The answer to a median is the median, to a mean a mean, and to a deviation or a variance one
/// with the degrees of freedom that the function takes: of the whole column, of every type, and
/// nothing else.
pub proof fn statistics_are_those_asked_for(
    f: SeriesFunction,
    s: Series,
    thread_boundary: usize,
    r: Result<Option<Series>, SeriesError>,
)
    requires
        f.answers(s, thread_boundary, r),
    ensures
        f is Median ==> r == Ok::<Option<Series>, SeriesError>(Some(median_of(s))) && is_one_row(
            s,
            median_of(s),
        ),
        f is Mean ==> (r matches Ok(Some(out)) && is_mean_of(s, out) && is_one_row(s, out)),
        f matches SeriesFunction::Std(ddof) ==> (r matches Ok(Some(out)) && is_std_of(s, ddof, out)
            && is_one_row(s, out)),
        f matches SeriesFunction::Var(ddof) ==> (r matches Ok(Some(out)) && is_var_of(s, ddof, out)
            && is_one_row(s, out)),
{
}

/// Counting counts the rows of the column, nulls and all. Counting distinct values gives the number
/// that polars finds, which for integers that are not flagged as sorted is that of the different
/// ones, or the error of polars. Either count is one row of `u32` under the name of the column.
pub proof fn counts_are_those_asked_for(
    f: SeriesFunction,
    s: Series,
    thread_boundary: usize,
    r: Result<Option<Series>, SeriesError>,
)
    requires
        f.answers(s, thread_boundary, r),
        series_len(s) <= u32::MAX,
    ensures
        f is Count ==> (r matches Ok(Some(out)) && out == u32_series_of(
            name_of(s),
            series_len(s) as u32,
        ) && ints_of(out) == Some(seq![Some(series_len(s) as int)]) && int_type_of(dtype_of(out))
            == Some(IntType::UInt32) && is_one_row(s, out)),
        f is NUnique ==> match n_unique_of(s) {
            Ok(n) => r matches Ok(Some(out)) && out == u32_series_of(name_of(s), n as u32)
                && int_type_of(dtype_of(out)) == Some(IntType::UInt32) && is_one_row(s, out),
            Err(source) => r == Err::<Option<Series>, SeriesError>(SeriesError { source }),
        },
        f is NUnique && sorted_flag_of(s) is Not ==> (ints_of(s) matches Some(v) ==> v.to_set().len()
            <= u32::MAX ==> (r matches Ok(Some(out)) && ints_of(out) == Some(
            seq![Some(v.to_set().len() as int)],
        ))),
{
}

/// The first row of a column is the part of it that starts with the first row, and the last that
/// which ends with the last row: one row, of the name and type of the column, and none if it has
/// none.
pub proof fn first_and_last_are_the_ends(
    f: SeriesFunction,
    s: Series,
    thread_boundary: usize,
    r: Result<Option<Series>, SeriesError>,
)
    requires
        f is First || f is Last,
        f.answers(s, thread_boundary, r),
    ensures
        r matches Ok(Some(out)) && {
            &&& name_of(out) == name_of(s)
            &&& dtype_of(out) == dtype_of(s)
            &&& series_len(s) == 0 ==> out == slice_of(s, 0, 0) && series_len(out) == 0
            &&& series_len(s) > 0 && f is First ==> out == slice_of(s, 0, 1)
            &&& series_len(s) > 0 && f is Last ==> out == slice_of(s, series_len(s) - 1, 1)
            &&& series_len(s) > 0 ==> series_len(out) == 1
            &&& series_len(s) > 0 ==> (ints_of(s) matches Some(v) ==> v.len() == series_len(s)
                ==> ints_of(out) == Some(
                seq![
                    if f is First {
                        v[0]
                    } else {
                        v[v.len() - 1]
                    },
                ],
            ))
        },
{
    if let Some(v) = ints_of(s) {
        if series_len(s) > 0 && v.len() == series_len(s) {
            assert(v.subrange(0, 1) =~= seq![v[0]]);
            assert(v.subrange(v.len() - 1, v.len() as int) =~= seq![v[v.len() - 1]]);
        }
    }
}

/// Imploding and exploding answer with what polars makes of the column, and never fail. A column
/// without lists is exploded to itself.
pub proof fn lists_are_made_and_taken_apart(
    f: SeriesFunction,
    s: Series,
    thread_boundary: usize,
    r: Result<Option<Series>, SeriesError>,
)
    requires
        f.answers(s, thread_boundary, r),
    ensures
        f is Implode ==> r == Ok::<Option<Series>, SeriesError>(Some(implode_of(s))) && is_one_row(
            s,
            implode_of(s),
        ),
        f is Explode ==> r == Ok::<Option<Series>, SeriesError>(Some(explode_of(s))) && name_of(
            explode_of(s),
        ) == name_of(s),
        f is Explode && !is_list_dtype(dtype_of(s)) ==> r == Ok::<Option<Series>, SeriesError>(
            Some(s),
        ),
{
}

/// `outs` are what `measure` admits for the `n` parts of `s`, one by one.
pub open spec fn measures_of_parts(
    measure: spec_fn(Series, Series) -> bool,
    s: Series,
    n: int,
    outs: Seq<Series>,
) -> bool {
    &&& 1 <= n <= u16::MAX
    &&& outs.len() == n
    &&& forall|i: int| 0 <= i < n ==> measure(part(s, n, i), #[trigger] outs[i])
}

/// `out` is what `measure` admits for the column, or, where the work may be split, for what it
/// admits for the parts of the column, put together in order.
pub open spec fn measured(
    measure: spec_fn(Series, Series) -> bool,
    s: Series,
    splits: bool,
    out: Series,
) -> bool {
    measure(s, out) || (splits && exists|n: int, outs: Seq<Series>| #[trigger]
        measures_of_parts(measure, s, n, outs) && measure(concat(outs), out))
}

/// Whether the settings and the boundary let the work on the column be split over threads: threads
/// are allowed, there is no cache, and the column has as many rows as the boundary or more.
pub open spec fn splits(state: ExpressionConversionState, s: Series, boundary: usize) -> bool {
    state.allow_threading && !state.has_cache && series_len(s) >= boundary
}

proof fn lemma_measured(
    rel: spec_fn(Series, Series) -> bool,
    measure: spec_fn(Series, Series) -> bool,
    s: Series,
    state: ExpressionConversionState,
    boundary: usize,
    out: Series,
)
    requires
        reduced(rel, s, state, boundary, out),
        forall|x: Series, y: Series| #[trigger] rel(x, y) ==> measure(x, y),
    ensures
        measured(measure, s, splits(state, s, boundary), out),
{
    if !rel(s, out) {
        let (n, outs) = choose|n: int, outs: Seq<Series>|
            1 <= n <= u16::MAX && #[trigger] reduced_parts(rel, s, n, outs) && parts_alike(s, n)
                && joined(outs) && rel(concat(outs), out);
        assert forall|i: int| 0 <= i < n implies measure(part(s, n, i), #[trigger] outs[i]) by {
            assert(rel(part(s, n, i), outs[i]));
        }
        assert(measures_of_parts(measure, s, n, outs));
    }
}

/// The smallest value is what polars has for the smallest value: that with NaNs exactly for floats
/// where NaNs are propagated, and otherwise that without, of every type. A column that is flagged
/// as sorted is not split unless NaNs are propagated.
pub proof fn minima_are_those_asked_for(
    propagate_nans: bool,
    state: ExpressionConversionState,
    s: Series,
    thread_boundary: usize,
    r: Result<Option<Series>, SeriesError>,
)
    requires
        (SeriesFunction::Min { propagate_nans, state }).answers(s, thread_boundary, r),
    ensures
        r matches Ok(Some(out)) && is_one_row(s, out) && dtype_of(out) == dtype_of(s) && if
        propagate_nans && is_float_dtype(dtype_of(s)) {
            measured(
                |x: Series, y: Series| y == nan_min_of(x),
                s,
                splits(state, s, thread_boundary),
                out,
            )
        } else {
            measured(
                |x: Series, y: Series| y == min_of(x),
                s,
                splits(state, s, thread_boundary) && sorted_flag_of(s) is Not,
                out,
            )
        },
{
    let out = r->Ok_0->0;
    if propagate_nans && is_float_dtype(dtype_of(s)) {
        lemma_measured(
            |x: Series, y: Series| is_nan_min(x, y),
            |x: Series, y: Series| y == nan_min_of(x),
            s,
            state,
            thread_boundary,
            out,
        );
    } else if sorted_flag_of(s) is Not {
        lemma_measured(
            |x: Series, y: Series| is_min(x, y),
            |x: Series, y: Series| y == min_of(x),
            s,
            state,
            thread_boundary,
            out,
        );
    }
}

/// The largest value is what polars has for the largest value, as for the smallest.
pub proof fn maxima_are_those_asked_for(
    propagate_nans: bool,
    state: ExpressionConversionState,
    s: Series,
    thread_boundary: usize,
    r: Result<Option<Series>, SeriesError>,
)
    requires
        (SeriesFunction::Max { propagate_nans, state }).answers(s, thread_boundary, r),
    ensures
        r matches Ok(Some(out)) && is_one_row(s, out) && dtype_of(out) == dtype_of(s) && if
        propagate_nans && is_float_dtype(dtype_of(s)) {
            measured(
                |x: Series, y: Series| y == nan_max_of(x),
                s,
                splits(state, s, thread_boundary),
                out,
            )
        } else {
            measured(
                |x: Series, y: Series| y == max_of(x),
                s,
                splits(state, s, thread_boundary) && sorted_flag_of(s) is Not,
                out,
            )
        },
{
    let out = r->Ok_0->0;
    if propagate_nans && is_float_dtype(dtype_of(s)) {
        lemma_measured(
            |x: Series, y: Series| is_nan_max(x, y),
            |x: Series, y: Series| y == nan_max_of(x),
            s,
            state,
            thread_boundary,
            out,
        );
    } else if sorted_flag_of(s) is Not {
        lemma_measured(
            |x: Series, y: Series| is_max(x, y),
            |x: Series, y: Series| y == max_of(x),
            s,
            state,
            thread_boundary,
            out,
        );
    }
}

/// The sum is a sum that polars may give for the column, or for the sums of its parts.
pub proof fn sums_are_those_asked_for(
    state: ExpressionConversionState,
    s: Series,
    thread_boundary: usize,
    r: Result<Option<Series>, SeriesError>,
)
    requires
        (SeriesFunction::Sum { state }).answers(s, thread_boundary, r),
    ensures
        r matches Ok(Some(out)) && is_one_row(s, out) && measured(
            |x: Series, y: Series| is_sum_of(x, y),
            s,
            splits(state, s, thread_boundary),
            out,
        ),
{
    lemma_measured(
        |x: Series, y: Series| is_sum(x, y),
        |x: Series, y: Series| is_sum_of(x, y),
        s,
        state,
        thread_boundary,
        r->Ok_0->0,
    );
}

/// Columns are put together by appending each to what stands before it.
pub proof fn columns_are_put_together_in_order(parts: Seq<Series>, last: Series)
    ensures
        concat(seq![last]) == last,
        parts.len() > 0 ==> concat(parts.push(last)) == append_of(
            concat(parts),
            last,
        ),
{
    assert(parts.push(last).drop_last() =~= parts);
}

/// On which columns each function answers. What it asks of a column is asked of none that it does
/// not need it of.
pub proof fn columns_are_accepted_as_needed(f: SeriesFunction, s: Series, thread_boundary: usize)
    ensures
        f.accepts(s, thread_boundary) <==> match f {
            SeriesFunction::Min { propagate_nans, state } => {
                &&& keeps_type(s)
                &&& (propagate_nans && is_float_dtype(dtype_of(s))) || has_extremes(s)
                &&& splits(state, s, thread_boundary) ==> series_len(s) < u32::MAX
            },
            SeriesFunction::Max { propagate_nans, state } => {
                &&& keeps_type(s)
                &&& (propagate_nans && is_float_dtype(dtype_of(s))) || has_extremes(s)
                &&& splits(state, s, thread_boundary) ==> series_len(s) < u32::MAX
            },
            SeriesFunction::Sum { state } => {
                &&& keeps_type(s)
                &&& sum_fits(s)
                &&& splits(state, s, thread_boundary) ==> series_len(s) < u32::MAX
            },
            SeriesFunction::Median => {
                &&& n_chunks_of(s) > 0 && keeps_rows(s) && series_len(s) < u32::MAX
                &&& has_median(s)
            },
            SeriesFunction::Std(_) => n_chunks_of(s) > 0 && keeps_rows(s) && series_len(s)
                < u32::MAX,
            SeriesFunction::Var(_) => n_chunks_of(s) > 0 && keeps_rows(s) && series_len(s)
                < u32::MAX,
            SeriesFunction::NUnique => keeps_rows(s) && series_len(s) < u32::MAX,
            SeriesFunction::Mean => keeps_rows(s),
            SeriesFunction::First => n_chunks_of(s) > 0,
            SeriesFunction::Last => n_chunks_of(s) > 0,
            SeriesFunction::Implode => {
                &&& keeps_type(s) && series_len(s) < u32::MAX
                &&& is_physical_dtype(dtype_of(s))
            },
            SeriesFunction::Explode => is_list_dtype(dtype_of(s)) ==> {
                &&& keeps_type(s) && series_len(s) < u32::MAX
                &&& values_fit(s)
                &&& series_len(explode_of(s)) < u32::MAX
            },
            SeriesFunction::Count => true,
        },
        sorted_flag_of(s) is Not ==> has_extremes(s) && has_median(s),
        f.only_reads() <==> f is Implode || f is Explode,
{
}

} // verus!
