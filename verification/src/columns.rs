//! What is asked of a column before it is handed to polars.
use polars_core::prelude::Series;
use vstd::prelude::*;

use crate::series::{
    chunk_has_type, chunk_has_type_of, chunk_len, chunk_len_of, chunk_values, chunk_values_of,
    dtype, dtype_of, explode_of, gains, has_extremes, has_median, has_no_empty_chunk, inner,
    inner_dtype, inner_dtype_of, inner_of, int_type, int_type_of, int_values, ints_of, is_core,
    is_core_dtype, is_float, is_float_dtype, is_list_dtype, is_sorted_flag, is_utf8,
    is_utf8_dtype, keeps_rows, keeps_type, len, list_depth, list_values_of, losses, n_chunks,
    n_chunks_of, null_count, null_count_of, rows_in, series_len, slice, slice_of,
    sorted_flag_of, sum_fits, to_ints, total, values_fit, values_in, SortedFlag,
};

verus! {

proof fn lemma_rows_in(s: Series, k: int, n: int)
    requires
        0 <= k <= n,
    ensures
        0 <= rows_in(s, k) <= rows_in(s, n),
    decreases n,
{
    if k < n {
        lemma_rows_in(s, k, n - 1);
    } else if k > 0 {
        lemma_rows_in(s, k - 1, k - 1);
    }
}

proof fn lemma_values_in(s: Series, k: int, n: int)
    requires
        0 <= k <= n,
    ensures
        0 <= values_in(s, k) <= values_in(s, n),
    decreases n,
{
    if k < n {
        lemma_values_in(s, k, n - 1);
    } else if k > 0 {
        lemma_values_in(s, k - 1, k - 1);
    }
}

/// Whether the column has the rows that its pieces have.
pub(crate) fn has_rows_kept(s: &Series) -> (r: bool)
    ensures
        r == keeps_rows(*s),
{
    let n = n_chunks(s);
    let all = len(s);
    let mut rows: usize = 0;
    for i in 0..n
        invariant
            n == n_chunks_of(*s),
            all == series_len(*s),
            rows == rows_in(*s, i as int),
    {
        proof {
            lemma_rows_in(*s, i + 1, n as int);
        }
        match rows.checked_add(chunk_len(s, i)) {
            Some(sum) => {
                rows = sum;
            },
            None => return false,
        }
    }
    rows == all
}

/// Whether the column is kept as it says.
pub(crate) fn is_kept(s: &Series) -> (r: bool)
    ensures
        r == keeps_type(*s),
{
    let n = n_chunks(s);
    for i in 0..n
        invariant
            n == n_chunks_of(*s),
            forall|j: int| 0 <= j < i ==> #[trigger] chunk_has_type_of(*s, j),
    {
        if !chunk_has_type(s, i) {
            return false;
        }
    }
    n > 0 && has_rows_kept(s)
}

/// Whether no piece of the column is empty.
fn is_without_empty_chunk(s: &Series) -> (r: bool)
    ensures
        r == has_no_empty_chunk(*s),
{
    let n = n_chunks(s);
    for i in 0..n
        invariant
            n == n_chunks_of(*s),
            forall|j: int| 0 <= j < i ==> #[trigger] chunk_len_of(*s, j) > 0,
    {
        if chunk_len(s, i) == 0 {
            return false;
        }
    }
    true
}

/// Whether the smallest and the largest value of the column can be asked for.
pub(crate) fn has_ends(s: &Series) -> (r: bool)
    ensures
        r == has_extremes(*s),
{
    match is_sorted_flag(s) {
        SortedFlag::Not => true,
        _ => {
            let rows = len(s);
            if is_utf8(s) && rows == 0 {
                false
            } else if int_type(s).is_some() || is_float(s) {
                rows == 0 || null_count(s) < rows || is_without_empty_chunk(s)
            } else {
                true
            }
        },
    }
}

/// Whether the median of the column can be found.
pub(crate) fn can_find_median(s: &Series) -> (r: bool)
    requires
        series_len(*s) < u32::MAX,
        n_chunks_of(*s) > 0,
        keeps_rows(*s),
    ensures
        r == has_median(*s),
{
    match is_sorted_flag(s) {
        SortedFlag::Ascending => {
            let nulls = null_count(s);
            nulls == 0 || nulls == len(s) || null_count(&slice(s, 0, 1)) == 0 || null_count(
                &slice(s, 0, nulls),
            ) == nulls
        },
        _ => true,
    }
}

/// The values behind the lists of the column, unless there are as many as polars can count.
fn list_values(s: &Series) -> (r: Option<usize>)
    requires
        is_list_dtype(dtype_of(*s)),
        keeps_type(*s),
    ensures
        match r {
            Some(values) => values == list_values_of(*s) && values < u32::MAX,
            None => list_values_of(*s) >= u32::MAX,
        },
{
    let n = n_chunks(s);
    let mut values: usize = 0;
    for i in 0..n
        invariant
            n == n_chunks_of(*s),
            is_list_dtype(dtype_of(*s)),
            keeps_type(*s),
            values == values_in(*s, i as int),
            values < u32::MAX,
    {
        proof {
            lemma_values_in(*s, i + 1, n as int);
        }
        match values.checked_add(chunk_values(s, i)) {
            Some(sum) if sum < u32::MAX as usize => {
                values = sum;
            },
            _ => return None,
        }
    }
    Some(values)
}

/// Whether polars can form the columns of the values behind the lists of the column.
pub(crate) fn can_form_values(s: &Series) -> (r: bool)
    requires
        keeps_type(*s),
        series_len(*s) < u32::MAX,
    ensures
        r == values_fit(*s),
        r && is_list_dtype(dtype_of(*s)) ==> series_len(explode_of(*s)) <= list_values_of(*s)
            + series_len(*s),
    decreases list_depth(dtype_of(*s)),
{
    match inner_dtype(dtype(s)) {
        Some(d) => {
            if list_values(s).is_none() || !(inner_dtype(d).is_some() || is_core(d)) {
                return false;
            }
            let values = inner(s);
            can_form_values(&values)
        },
        None => true,
    }
}

/// Whether the column can be exploded, as far as the values behind its lists and its rows tell.
/// There may be fewer rows than these together.
pub(crate) fn can_explode(s: &Series) -> (r: bool)
    ensures
        r && is_list_dtype(dtype_of(*s)) ==> {
            &&& keeps_type(*s)
            &&& values_fit(*s)
            &&& series_len(explode_of(*s)) < u32::MAX
        },
        r && is_list_dtype(dtype_of(*s)) ==> series_len(*s) < u32::MAX,
        !r ==> is_list_dtype(dtype_of(*s)) && (!keeps_type(*s) || !values_fit(*s) || list_values_of(
            *s,
        ) + series_len(*s) >= u32::MAX),
{
    if inner_dtype(dtype(s)).is_none() {
        return true;
    }
    if !is_kept(s) {
        return false;
    }
    let rows = len(s);
    match list_values(s) {
        Some(values) => match values.checked_add(rows) {
            Some(most) => most < u32::MAX as usize && can_form_values(s),
            None => false,
        },
        None => false,
    }
}

pub(crate) proof fn lemma_join(a: Seq<Option<int>>, b: Seq<Option<int>>)
    ensures
        gains(a + b) == gains(a) + gains(b),
        losses(a + b) == losses(a) + losses(b),
    decreases b.len(),
{
    if b.len() == 0 {
        assert(a + b =~= a);
    } else {
        lemma_join(a, b.drop_last());
        assert((a + b).drop_last() =~= a + b.drop_last());
    }
}

pub(crate) proof fn lemma_total_between(v: Seq<Option<int>>)
    ensures
        losses(v) <= 0 <= gains(v),
        losses(v) <= total(v) <= gains(v),
    decreases v.len(),
{
    if v.len() > 0 {
        lemma_total_between(v.drop_last());
    }
}

pub(crate) proof fn lemma_take_fits(v: Seq<Option<int>>, k: int)
    requires
        0 <= k <= v.len(),
    ensures
        gains(v.take(k)) <= gains(v),
        losses(v) <= losses(v.take(k)),
{
    assert(v.take(k) + v.skip(k) =~= v);
    lemma_join(v.take(k), v.skip(k));
    lemma_total_between(v.skip(k));
}

/// Whether the sum of the column can be formed.
pub(crate) fn can_sum(s: &Series) -> (r: bool)
    requires
        series_len(*s) < u32::MAX,
        keeps_type(*s),
    ensures
        r == sum_fits(*s),
{
    let (lowest, highest) = match int_type(s) {
        Some(t) => t.sum_range(),
        None => return true,
    };
    let values = int_values(s);
    let ghost all = to_ints(values@);
    let mut gain: i128 = 0;
    let mut loss: i128 = 0;
    let mut i: usize = 0;
    while i < values.len()
        invariant
            i <= values@.len(),
            all == to_ints(values@),
            ints_of(*s) == Some(all),
            values@.len() == series_len(*s),
            int_type_of(dtype_of(*s)) matches Some(t) && lowest == t.sum_type().lowest() && highest
                == t.sum_type().highest(),
            gain == gains(all.take(i as int)),
            loss == losses(all.take(i as int)),
            lowest <= loss,
            gain <= highest,
        decreases values@.len() - i,
    {
        proof {
            assert(all.take(i + 1).drop_last() =~= all.take(i as int));
            assert(all.take(i + 1).last() == all[i as int]);
            lemma_take_fits(all, i + 1);
            lemma_take_fits(all.take(i + 1), i as int);
        }
        match values[i] {
            Some(x) => {
                if x > 0 {
                    match gain.checked_add(x) {
                        Some(sum) if sum <= highest => {
                            gain = sum;
                        },
                        _ => return false,
                    }
                } else if x < 0 {
                    match loss.checked_add(x) {
                        Some(sum) if sum >= lowest => {
                            loss = sum;
                        },
                        _ => return false,
                    }
                }
            },
            None => {},
        }
        i = i + 1;
    }
    assert(all.take(all.len() as int) =~= all);
    true
}

/// A column is kept as it says if and only if it has a piece, each piece is of its type, and the
/// pieces have its rows, added up one by one.
pub proof fn columns_are_kept_piece_by_piece(s: Series, k: int)
    ensures
        keeps_type(s) <==> {
            &&& n_chunks_of(s) > 0
            &&& forall|i: int| 0 <= i < n_chunks_of(s) ==> #[trigger] chunk_has_type_of(s, i)
            &&& keeps_rows(s)
        },
        keeps_rows(s) <==> rows_in(s, n_chunks_of(s) as int) == series_len(s),
        rows_in(s, 0) == 0,
        k >= 0 ==> rows_in(s, k + 1) == rows_in(s, k) + chunk_len_of(s, k),
        values_in(s, 0) == 0,
        k >= 0 ==> values_in(s, k + 1) == values_in(s, k) + chunk_values_of(s, k),
        list_values_of(s) == values_in(s, n_chunks_of(s) as int),
{
}

/// The ends of a column are not to be had in two cases only, both of columns that are flagged as
/// sorted: strings without a row, and numbers that are all null with an empty piece among theirs.
pub proof fn ends_are_missing_in_two_cases_only(s: Series)
    ensures
        !has_extremes(s) <==> (sorted_flag_of(s) is Ascending || sorted_flag_of(s) is Descending) && {
            ||| is_utf8_dtype(dtype_of(s)) && series_len(s) == 0
            ||| {
                &&& int_type_of(dtype_of(s)) is Some || is_float_dtype(dtype_of(s))
                &&& series_len(s) > 0
                &&& null_count_of(s) >= series_len(s)
                &&& exists|i: int| 0 <= i < n_chunks_of(s) && #[trigger] chunk_len_of(s, i) == 0
            }
        },
{
}

/// The median of a column is not to be found in one case only: the column is flagged as ascending
/// and has a null in its first row, and neither are all its rows null nor do its nulls all stand
/// first.
pub proof fn medians_are_missing_in_one_case_only(s: Series)
    ensures
        !has_median(s) <==> {
            let nulls = null_count_of(s);
            &&& sorted_flag_of(s) is Ascending
            &&& nulls > 0
            &&& nulls != series_len(s)
            &&& null_count_of(slice_of(s, 0, 1)) > 0
            &&& null_count_of(slice_of(s, 0, nulls as int)) != nulls
        },
{
}

/// A sum can be formed of every column but one of integers that is not kept in full, or whose
/// positive or negative values come to more than the type of the sum holds.
pub proof fn sums_are_missing_of_too_large_integers_only(s: Series)
    ensures
        int_type_of(dtype_of(s)) is None ==> sum_fits(s),
        int_type_of(dtype_of(s)) matches Some(t) ==> (ints_of(s) matches Some(v) ==> v.len()
            == series_len(s) ==> (sum_fits(s) <==> t.sum_type().lowest() <= losses(v) && gains(v)
            <= t.sum_type().highest())),
{
}

/// polars can form the columns of the values behind lists if there are fewer than it can count of
/// them, they are lists again or of a type that it has columns of, and the same holds of the lists
/// among them. Of a column without lists there are none to form.
pub proof fn values_fit_level_by_level(s: Series)
    ensures
        match inner_dtype_of(dtype_of(s)) {
            Some(d) => list_depth(dtype_of(inner_of(s))) < list_depth(dtype_of(s)) ==> (values_fit(s)
                <==> list_values_of(s) < u32::MAX && (is_list_dtype(d) || is_core_dtype(d))
                && values_fit(inner_of(s))),
            None => values_fit(s),
        },
{
}

} // verus!
