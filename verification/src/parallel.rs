//! Splitting the reduction of a column over the threads of polars.
use polars_core::prelude::Series;
use vstd::prelude::*;

use crate::series::{
    append, append_of, dtype_of, ints_of, keeps_type, len, n_chunks_of, name_of, par_map,
    pool_has_pending_tasks, pool_num_threads, series_len, slice, slice_of, sorted_flag_of,
    split_offsets, split_part, sub_ints,
};
use crate::state::ExpressionConversionState;

verus! {

/// Columns with fewer rows are not worth splitting: threading overhead and work stealing are
/// costly.
pub const THREAD_BOUNDARY: usize = 100_000;

/// The boundary for builds that are debugged, set low so that small columns are treated as those of
/// production are.
pub const DEBUG_THREAD_BOUNDARY: usize = 0;

/// Whether a column of `len` rows is reduced on the calling thread alone. Columns of fewer than
/// `boundary` rows are; `pending` tells whether the thread has other tasks of the pool to do.
pub open spec fn runs_serially(
    state: ExpressionConversionState,
    len: nat,
    boundary: usize,
    pending: bool,
) -> bool {
    !state.allow_threading || len < boundary || state.has_cache || pending
}

/// The `i`-th of the `n` parts of a column.
pub open spec fn part(s: Series, n: int, i: int) -> Series {
    let (offset, len) = split_part(series_len(s) as int, n, i);
    slice_of(s, offset, len)
}

/// The columns put one after the other.
pub open spec fn concat(parts: Seq<Series>) -> Series
    recommends
        parts.len() > 0,
    decreases parts.len(),
{
    if parts.len() <= 1 {
        parts[0]
    } else {
        append_of(concat(parts.drop_last()), parts.last())
    }
}

/// The rows of all the columns together.
pub open spec fn total_len(parts: Seq<Series>) -> nat
    decreases parts.len(),
{
    if parts.len() == 0 {
        0
    } else {
        total_len(parts.drop_last()) + series_len(parts.last())
    }
}

/// The integers of all the columns together.
pub open spec fn all_ints(parts: Seq<Series>) -> Option<Seq<Option<int>>>
    decreases parts.len(),
{
    if parts.len() == 0 {
        Some(seq![])
    } else {
        match (all_ints(parts.drop_last()), ints_of(parts.last())) {
            (Some(a), Some(b)) => Some(a + b),
            _ => None,
        }
    }
}

/// Whether the columns can be put one after the other: they are of one type and kept as it says,
/// and together they are no longer than a column can be.
pub open spec fn can_concat(parts: Seq<Series>) -> bool {
    &&& forall|i: int| 0 <= i < parts.len() ==> dtype_of(#[trigger] parts[i]) == dtype_of(parts[0])
    &&& forall|i: int| 0 <= i < parts.len() ==> keeps_type(#[trigger] parts[i])
    &&& total_len(parts) <= u32::MAX
}

/// `r` is what `f` gives for `s`, as an answer of [`parallel_op_series`].
pub open spec fn gives<F, E>(f: F, s: Series, r: Result<Option<Series>, E>) -> bool where
    F: Fn(Series) -> Result<Series, E>,
 {
    match r {
        Ok(Some(out)) => call_ensures(f, (s,), Ok(out)),
        Ok(None) => false,
        Err(e) => call_ensures(f, (s,), Err(e)),
    }
}

/// `outs` are what `f` gives for the `n` parts of `s`.
pub open spec fn gives_for_parts<F, E>(f: F, s: Series, n: int, outs: Seq<Series>) -> bool where
    F: Fn(Series) -> Result<Series, E>,
 {
    &&& outs.len() == n
    &&& forall|i: int| 0 <= i < n ==> call_ensures(f, (part(s, n, i),), Ok(#[trigger] outs[i]))
}

/// The parts of a column are like the column itself: of its name and type, kept as the type says if
/// it is, with its sorted flag, and with their share of its rows and of its integers.
pub open spec fn parts_alike(s: Series, n: int) -> bool {
    forall|i: int|
        0 <= i < n ==> {
            let (offset, len) = split_part(series_len(s) as int, n, i);
            &&& dtype_of(#[trigger] part(s, n, i)) == dtype_of(s)
            &&& keeps_type(s) ==> keeps_type(part(s, n, i))
            &&& name_of(part(s, n, i)) == name_of(s)
            &&& sorted_flag_of(part(s, n, i)) == sorted_flag_of(s)
            &&& series_len(part(s, n, i)) == len
            &&& ints_of(part(s, n, i)) == sub_ints(ints_of(s), offset, len)
        }
}

/// Columns put one after the other are of the name and type of the first, kept as the type says, as
/// long as all together, and have their integers. They are not flagged as sorted if the first is
/// not.
pub open spec fn joined(parts: Seq<Series>) -> bool {
    &&& dtype_of(concat(parts)) == dtype_of(parts[0])
    &&& keeps_type(concat(parts))
    &&& name_of(concat(parts)) == name_of(parts[0])
    &&& series_len(concat(parts)) == total_len(parts)
    &&& all_ints(parts) is Some ==> ints_of(concat(parts)) == all_ints(parts)
    &&& sorted_flag_of(parts[0]) is Not && series_len(parts[0]) > 0 ==> sorted_flag_of(
        concat(parts),
    ) is Not
}

/// `r` is what `f` gives for the `n` parts of `s`: the answer for their answers taken together, or
/// the error of one of the parts.
pub open spec fn gives_in_parts<F, E>(
    f: F,
    s: Series,
    n: int,
    r: Result<Option<Series>, E>,
) -> bool where F: Fn(Series) -> Result<Series, E> {
    &&& parts_alike(s, n)
    &&& {
        ||| exists|outs: Seq<Series>| #[trigger]
            gives_for_parts::<F, E>(f, s, n, outs) && joined(outs) && gives(f, concat(outs), r)
        ||| exists|i: int, e: E|
            #![trigger call_ensures(f, (part(s, n, i),), Err(e))]
            0 <= i < n && call_ensures(f, (part(s, n, i),), Err(e)) && r == Err::<
                Option<Series>,
                E,
            >(e)
    }
}

/// `r` is an answer of [`parallel_op_series`]: what `f` gives for `s` or, where the settings and
/// the boundary let the work be split, for the parts of `s`, as many as are asked for or as the
/// thread pool has threads.
pub open spec fn op_answers<F, E>(
    f: F,
    s: Series,
    n_threads: Option<usize>,
    state: ExpressionConversionState,
    thread_boundary: usize,
    r: Result<Option<Series>, E>,
) -> bool where F: Fn(Series) -> Result<Series, E> {
    ||| gives(f, s, r)
    ||| {
        &&& !runs_serially(state, series_len(s), thread_boundary, false)
        &&& match n_threads {
            Some(n) => gives_in_parts(f, s, n as int, r),
            None => exists|n: int| 1 <= n <= u16::MAX && #[trigger] gives_in_parts(f, s, n, r),
        }
    }
}

/// Whether `f` can be run on the `n` parts of `s`, and on the answers taken together.
pub open spec fn runs_in_parts<F, E>(f: F, s: Series, n: int) -> bool where
    F: Fn(Series) -> Result<Series, E>,
 {
    parts_alike(s, n) ==> {
        &&& forall|i: int| 0 <= i < n ==> call_requires(f, (#[trigger] part(s, n, i),))
        &&& forall|outs: Seq<Series>| #[trigger]
            gives_for_parts::<F, E>(f, s, n, outs) ==> {
                &&& can_concat(outs)
                &&& joined(outs) ==> call_requires(f, (concat(outs),))
            }
    }
}

proof fn lemma_total_len_take(parts: Seq<Series>, k: int)
    requires
        0 <= k <= parts.len(),
    ensures
        total_len(parts.take(k)) <= total_len(parts),
    decreases parts.len(),
{
    if k == parts.len() {
        assert(parts.take(k) =~= parts);
    } else {
        assert(parts.take(k) =~= parts.drop_last().take(k));
        lemma_total_len_take(parts.drop_last(), k);
    }
}

/// The parts of a column cover it: each starts where the one before it ends, the first at the
/// first row, and the last ends with the last row.
pub proof fn parts_cover_the_column(len: int, n: int, i: int)
    requires
        0 <= len,
        0 <= i < n,
    ensures
        split_part(len, n, 0).0 == 0,
        0 <= split_part(len, n, i).0,
        0 <= split_part(len, n, i).1,
        split_part(len, n, i).0 + split_part(len, n, i).1 <= len,
        i < n - 1 ==> split_part(len, n, i + 1).0 == split_part(len, n, i).0 + split_part(
            len,
            n,
            i,
        ).1,
        i == n - 1 ==> split_part(len, n, i).0 + split_part(len, n, i).1 == len,
{
    let chunk = len / n;
    assert(0 <= chunk && n * chunk <= len) by (nonlinear_arith)
        requires
            0 <= len,
            0 < n,
            chunk == len / n,
    ;
    assert(0 <= i * chunk && i * chunk + chunk <= n * chunk) by (nonlinear_arith)
        requires
            0 <= i < n,
            0 <= chunk,
    ;
    assert((i + 1) * chunk == i * chunk + chunk) by (nonlinear_arith);
    assert(0 * chunk == 0) by (nonlinear_arith);
}

/// However the work is split, the answer is the same, if splitting the column does not matter to
/// `f`: if `f` gives `out` for `s`, and also gives `out` for its answers for the parts of `s` put
/// together, then `out` is the answer of [`parallel_op_series`], whatever the settings, the number
/// of threads and the state of the thread pool.
pub proof fn splitting_keeps_the_answer<F, E>(
    f: F,
    s: Series,
    out: Series,
    n_threads: Option<usize>,
    state: ExpressionConversionState,
    thread_boundary: usize,
    r: Result<Option<Series>, E>,
) where F: Fn(Series) -> Result<Series, E>
    requires
        forall|o: Result<Series, E>| #[trigger]
            call_ensures(f, (s,), o) ==> o == Ok::<Series, E>(out),
        forall|n: int, i: int, o: Result<Series, E>|
            1 <= n && 0 <= i < n && #[trigger] call_ensures(f, (part(s, n, i),), o) ==> o is Ok,
        forall|n: int, outs: Seq<Series>, o: Result<Series, E>|
            1 <= n && #[trigger] gives_for_parts::<F, E>(f, s, n, outs) && #[trigger] call_ensures(
                f,
                (concat(outs),),
                o,
            ) ==> o == Ok::<Series, E>(out),
        n_threads != Some(0usize),
        op_answers(f, s, n_threads, state, thread_boundary, r),
    ensures
        r == Ok::<Option<Series>, E>(Some(out)),
{
    if !gives(f, s, r) {
        let n = match n_threads {
            Some(n) => n as int,
            None => choose|n: int| 1 <= n <= u16::MAX && #[trigger] gives_in_parts(f, s, n, r),
        };
        assert(gives_in_parts(f, s, n, r));
    }
}

/// The `n` parts of a column.
fn split_series(s: &Series, n: usize) -> (r: Vec<Series>)
    requires
        n > 0,
        series_len(*s) < u32::MAX,
        n_chunks_of(*s) > 0,
    ensures
        r@.len() == n,
        forall|i: int| 0 <= i < n ==> #[trigger] r@[i] == part(*s, n as int, i),
        parts_alike(*s, n as int),
{
    let offsets = split_offsets(len(s), n);
    let mut parts: Vec<Series> = Vec::new();
    for i in 0..n
        invariant
            offsets@.len() == n,
            n > 0,
            series_len(*s) < u32::MAX,
            n_chunks_of(*s) > 0,
            forall|j: int|
                0 <= j < n ==> ((#[trigger] offsets@[j]).0 as int, offsets@[j].1 as int)
                    == split_part(series_len(*s) as int, n as int, j),
            parts@.len() == i,
            forall|j: int| 0 <= j < i ==> #[trigger] parts@[j] == part(*s, n as int, j),
            forall|j: int|
                0 <= j < i ==> {
                    &&& dtype_of(#[trigger] part(*s, n as int, j)) == dtype_of(*s)
                    &&& keeps_type(*s) ==> keeps_type(part(*s, n as int, j))
                    &&& name_of(part(*s, n as int, j)) == name_of(*s)
                    &&& sorted_flag_of(part(*s, n as int, j)) == sorted_flag_of(*s)
                    &&& series_len(part(*s, n as int, j)) == split_part(
                        series_len(*s) as int,
                        n as int,
                        j,
                    ).1
                    &&& ints_of(part(*s, n as int, j)) == sub_ints(
                        ints_of(*s),
                        split_part(series_len(*s) as int, n as int, j).0,
                        split_part(series_len(*s) as int, n as int, j).1,
                    )
                },
    {
        proof {
            parts_cover_the_column(series_len(*s) as int, n as int, i as int);
        }
        let (offset, part_len) = offsets[i];
        parts.push(slice(s, offset, part_len));
    }
    parts
}

/// Appends the columns to the first of them.
fn concat_series(parts: Vec<Series>) -> (r: Series)
    requires
        parts@.len() > 0,
        can_concat(parts@),
    ensures
        r == concat(parts@),
        joined(parts@),
{
    let ghost all = parts@;
    let mut rest = parts;
    let mut out = rest.remove(0);
    assert(all.take(1) =~= seq![all[0]]);
    assert(total_len(all.take(1)) == series_len(all[0])) by {
        assert(all.take(1).drop_last() =~= Seq::<Series>::empty());
        reveal_with_fuel(total_len, 2);
    }
    assert(all_ints(all.take(1)) is Some ==> ints_of(out) == all_ints(all.take(1))) by {
        assert(all.take(1).drop_last() =~= Seq::<Series>::empty());
        reveal_with_fuel(all_ints, 2);
        if let Some(v) = ints_of(out) {
            assert(Seq::<Option<int>>::empty() + v =~= v);
        }
    }
    assert(rest@ =~= all.skip(1));
    for i in 0..rest.len()
        invariant
            rest@ == all.skip(1),
            all.len() > 0,
            can_concat(all),
            out == concat(all.take(i + 1)),
            dtype_of(out) == dtype_of(all[0]),
            keeps_type(out),
            name_of(out) == name_of(all[0]),
            series_len(out) == total_len(all.take(i + 1)),
            all_ints(all.take(i + 1)) is Some ==> ints_of(out) == all_ints(all.take(i + 1)),
            sorted_flag_of(all[0]) is Not && series_len(all[0]) > 0 ==> sorted_flag_of(out) is Not
                && series_len(out) > 0,
    {
        proof {
            assert(all.take(i + 2).drop_last() =~= all.take(i + 1));
            assert(all.take(i + 2).last() == all[i + 1]);
            lemma_total_len_take(all, i + 2);
            assert(rest@[i as int] == all[i + 1]);
        }
        let appended = append(&mut out, &rest[i]);
        assert(appended is Ok);
    }
    assert(all.take(all.len() as int) =~= all);
    out
}

/// Reduces a column with `f` as the settings, the number of threads and the state of the thread
/// pool have it: at once, or first in `n_threads` parts whose answers are then reduced together.
pub fn parallel_op_series_on<F, E>(
    f: F,
    s: Series,
    n_threads: usize,
    pending: bool,
    state: ExpressionConversionState,
    thread_boundary: usize,
) -> (r: Result<Option<Series>, E>) where
    F: Fn(Series) -> Result<Series, E> + Send + Sync,
    E: Send,

    requires
        runs_serially(state, series_len(s), thread_boundary, pending) ==> call_requires(f, (s,)),
        !runs_serially(state, series_len(s), thread_boundary, pending) ==> {
            &&& n_threads > 0
            &&& series_len(s) < u32::MAX
            &&& n_chunks_of(s) > 0
            &&& runs_in_parts::<F, E>(f, s, n_threads as int)
        },
    ensures
        runs_serially(state, series_len(s), thread_boundary, pending) ==> gives(f, s, r),
        !runs_serially(state, series_len(s), thread_boundary, pending) ==> gives_in_parts(
            f,
            s,
            n_threads as int,
            r,
        ),
{
    if !state.allow_threading || len(&s) < thread_boundary || state.has_cache || pending {
        return match f(s) {
            Ok(out) => Ok(Some(out)),
            Err(e) => Err(e),
        };
    }
    let parts = split_series(&s, n_threads);
    let ghost asked = parts@;
    match par_map(&f, parts) {
        Ok(outs) => {
            assert(gives_for_parts::<F, E>(f, s, n_threads as int, outs@)) by {
                assert forall|i: int| 0 <= i < n_threads implies call_ensures(
                    f,
                    (part(s, n_threads as int, i),),
                    Ok(#[trigger] outs@[i]),
                ) by {
                    assert(asked[i] == part(s, n_threads as int, i));
                }
            }
            let ghost answers = outs@;
            let whole = concat_series(outs);
            assert(joined(answers));
            match f(whole) {
                Ok(out) => Ok(Some(out)),
                Err(e) => Err(e),
            }
        },
        Err(e) => {
            proof {
                let i = choose|i: int|
                    0 <= i < asked.len() && call_ensures(f, (#[trigger] asked[i],), Err(e));
                assert(call_ensures(f, (part(s, n_threads as int, i),), Err(e)));
            }
            Err(e)
        },
    }
}

/// Simple wrapper to parallelize functions that can be divided over threads, aggregated and
/// finally aggregated in the main thread. This can be done for sum, min, max, etc.
///
/// Where `n_threads` is not given, the thread pool of polars decides on the number of parts.
/// Columns of fewer than `thread_boundary` rows are not split: [`THREAD_BOUNDARY`] in production.
pub fn parallel_op_series<F, E>(
    f: F,
    s: Series,
    n_threads: Option<usize>,
    state: ExpressionConversionState,
    thread_boundary: usize,
) -> (r: Result<Option<Series>, E>) where
    F: Fn(Series) -> Result<Series, E> + Send + Sync,
    E: Send,

    requires
        call_requires(f, (s,)),
        !runs_serially(state, series_len(s), thread_boundary, false) ==> {
            &&& series_len(s) < u32::MAX
            &&& n_chunks_of(s) > 0
            &&& n_threads matches Some(n) ==> n > 0 && runs_in_parts::<F, E>(f, s, n as int)
            &&& n_threads is None ==> forall|n: int|
                1 <= n <= u16::MAX ==> #[trigger] runs_in_parts::<F, E>(f, s, n)
        },
    ensures
        op_answers(f, s, n_threads, state, thread_boundary, r),
{
    // threading overhead/ splitting work stealing is costly..
    let serial = !state.allow_threading || len(&s) < thread_boundary || state.has_cache;
    let pending = serial || pool_has_pending_tasks().unwrap_or(false);
    let n: usize = match n_threads {
        Some(n) => n,
        None => if pending {
            1
        } else {
            pool_num_threads()
        },
    };
    parallel_op_series_on(f, s, n, pending, state, thread_boundary)
}

/// The work is done on the calling thread alone exactly where threads are not allowed, the column
/// has fewer rows than the boundary, there is a cache, or the thread has other tasks to do.
pub proof fn work_is_split_only_where_it_may(
    state: ExpressionConversionState,
    len: nat,
    boundary: usize,
    pending: bool,
)
    ensures
        state.allow_threading && !state.has_cache && !pending && len >= boundary <==> !runs_serially(
            state,
            len,
            boundary,
            pending,
        ),
{
}

/// All but the last of the `n` parts of a column have as many rows, and the last has the rest.
pub proof fn parts_are_even(s: Series, n: int, i: int)
    requires
        0 <= i < n,
    ensures
        ({
            let size = series_len(s) as int / n;
            if i < n - 1 {
                part(s, n, i) == slice_of(s, i * size, size)
            } else {
                part(s, n, i) == slice_of(s, i * size, series_len(s) - i * size)
            }
        }),
{
}

/// What comes of work that is not split is what `f` gives for the column, its answer or its error.
pub proof fn whole_columns_are_reduced_once<F, E>(f: F, s: Series, r: Result<Option<Series>, E>) where
    F: Fn(Series) -> Result<Series, E>,

    requires
        gives(f, s, r),
    ensures
        match r {
            Ok(Some(out)) => call_ensures(f, (s,), Ok(out)),
            Ok(None) => false,
            Err(e) => call_ensures(f, (s,), Err(e)),
        },
{
}

/// What comes of split work is what `f` gives for its answers for all the parts, put together in
/// their order, or the error that it gives for one of the parts.
pub proof fn parts_are_reduced_and_then_their_answers<F, E>(
    f: F,
    s: Series,
    n: int,
    r: Result<Option<Series>, E>,
) where F: Fn(Series) -> Result<Series, E>
    requires
        gives_in_parts(f, s, n, r),
    ensures
        match r {
            Ok(Some(out)) => exists|outs: Seq<Series>|
                {
                    &&& outs.len() == n
                    &&& forall|i: int|
                        0 <= i < n ==> call_ensures(f, (part(s, n, i),), Ok(#[trigger] outs[i]))
                    &&& call_ensures(f, (#[trigger] concat(outs),), Ok(out))
                },
            Ok(None) => false,
            Err(e) => {
                ||| exists|i: int|
                    0 <= i < n && call_ensures(f, (#[trigger] part(s, n, i),), Err(e))
                ||| exists|outs: Seq<Series>|
                    {
                        &&& outs.len() == n
                        &&& forall|i: int|
                            0 <= i < n ==> call_ensures(f, (part(s, n, i),), Ok(#[trigger] outs[i]))
                        &&& call_ensures(f, (#[trigger] concat(outs),), Err(e))
                    }
            },
        },
{
    if exists|outs: Seq<Series>| #[trigger]
        gives_for_parts::<F, E>(f, s, n, outs) && joined(outs) && gives(f, concat(outs), r) {
        let outs = choose|outs: Seq<Series>| #[trigger]
            gives_for_parts::<F, E>(f, s, n, outs) && joined(outs) && gives(f, concat(outs), r);
        assert(gives_for_parts::<F, E>(f, s, n, outs));
        assert(gives(f, concat(outs), r));
    }
}

/// What comes of [`parallel_op_series`] is what comes of the work undivided, or, where it may be
/// split, of the work split into the parts that were asked for, or into some number of parts where
/// none was.
pub proof fn work_is_done_whole_or_in_parts<F, E>(
    f: F,
    s: Series,
    n_threads: Option<usize>,
    state: ExpressionConversionState,
    thread_boundary: usize,
    r: Result<Option<Series>, E>,
) where F: Fn(Series) -> Result<Series, E>
    requires
        op_answers(f, s, n_threads, state, thread_boundary, r),
    ensures
        gives(f, s, r) || {
            &&& state.allow_threading
            &&& !state.has_cache
            &&& series_len(s) >= thread_boundary
            &&& match n_threads {
                Some(n) => gives_in_parts(f, s, n as int, r),
                None => exists|n: int| n >= 1 && #[trigger] gives_in_parts(f, s, n, r),
            }
        },
{
}

/// The boundaries from which on columns are split: a hundred thousand rows in production, and none
/// while debugging.
pub proof fn boundaries_are_far_apart()
    ensures
        THREAD_BOUNDARY == 100_000,
        DEBUG_THREAD_BOUNDARY == 0,
{
}

} // verus!
