use polars_core::prelude::{NamedFrom, Series, TakeRandom};
use polars_planner::parallel::{
    parallel_op_series, parallel_op_series_on, DEBUG_THREAD_BOUNDARY, THREAD_BOUNDARY,
};
use polars_planner::state::ExpressionConversionState;
use std::sync::Mutex;

fn column(rows: usize) -> Series {
    Series::new("a", (0..rows as i64).collect::<Vec<i64>>())
}

fn threaded() -> ExpressionConversionState {
    ExpressionConversionState::new(true)
}

/// Sums a column as told, and the lengths of the columns that were summed on the way, sorted.
fn sum_on(
    s: Series,
    n_threads: usize,
    pending: bool,
    state: ExpressionConversionState,
) -> (i64, Vec<usize>) {
    let lens = Mutex::new(Vec::new());
    let out = parallel_op_series_on(
        |s: Series| {
            lens.lock().unwrap().push(s.len());
            Ok::<Series, String>(s.sum_as_series())
        },
        s,
        n_threads,
        pending,
        state,
        THREAD_BOUNDARY,
    );
    let mut lens = lens.into_inner().unwrap();
    lens.sort();
    (out.unwrap().unwrap().i64().unwrap().get(0).unwrap(), lens)
}

#[test]
fn short_columns_are_reduced_at_once() {
    let rows = THREAD_BOUNDARY - 1;
    let (sum, lens) = sum_on(column(rows), 4, false, threaded());
    assert_eq!(sum, (rows * (rows - 1) / 2) as i64);
    assert_eq!(lens, vec![rows]);
}

#[test]
fn long_columns_are_reduced_in_parts() {
    assert_eq!(THREAD_BOUNDARY, 100_000);
    let rows = THREAD_BOUNDARY + 3;
    let (sum, lens) = sum_on(column(rows), 4, false, threaded());
    assert_eq!(sum, (rows * (rows - 1) / 2) as i64);
    assert_eq!(lens, vec![4, 25_000, 25_000, 25_000, 25_003]);
}

#[test]
fn the_boundary_itself_is_split() {
    let (_, lens) = sum_on(column(THREAD_BOUNDARY), 2, false, threaded());
    assert_eq!(lens, vec![2, 50_000, 50_000]);
}

#[test]
fn one_thread_reduces_twice() {
    let (sum, lens) = sum_on(column(THREAD_BOUNDARY), 1, false, threaded());
    assert_eq!(sum, 4_999_950_000);
    assert_eq!(lens, vec![1, 100_000]);
}

#[test]
fn settings_and_pending_tasks_keep_the_work_together() {
    let mut cached = threaded();
    cached.has_cache = true;
    let rows = THREAD_BOUNDARY;
    let (_, lens) = sum_on(column(rows), 4, false, ExpressionConversionState::new(false));
    assert_eq!(lens, vec![rows]);
    let (_, lens) = sum_on(column(rows), 4, false, cached);
    assert_eq!(lens, vec![rows]);
    let (_, lens) = sum_on(column(rows), 4, true, threaded());
    assert_eq!(lens, vec![rows]);
}

#[test]
fn parts_cover_the_column_in_order() {
    let rows = THREAD_BOUNDARY + 7;
    let firsts = Mutex::new(Vec::new());
    let out = parallel_op_series_on(
        |s: Series| {
            firsts.lock().unwrap().push((s.i64().unwrap().get(0), s.len()));
            Ok::<Series, String>(s.head(Some(1)))
        },
        column(rows),
        3,
        false,
        threaded(),
        THREAD_BOUNDARY,
    )
    .unwrap()
    .unwrap();
    assert_eq!(out.len(), 1);
    assert_eq!(out.i64().unwrap().get(0), Some(0));
    let mut firsts = firsts.into_inner().unwrap();
    firsts.sort();
    assert_eq!(
        firsts,
        vec![(Some(0), 3), (Some(0), 33_335), (Some(33_335), 33_335), (Some(66_670), 33_337)]
    );
}

#[test]
fn an_error_of_a_part_is_the_answer() {
    let out = parallel_op_series_on(
        |s: Series| {
            if s.i64().unwrap().get(0) == Some(50_000) {
                Err("second half".to_string())
            } else {
                Ok(s)
            }
        },
        column(THREAD_BOUNDARY),
        2,
        false,
        threaded(),
        THREAD_BOUNDARY,
    );
    assert_eq!(out.err(), Some("second half".to_string()));
}

#[test]
fn an_error_on_the_whole_is_the_answer() {
    let out = parallel_op_series(
        |_: Series| Err::<Series, String>("no".to_string()),
        column(3),
        None,
        threaded(),
        THREAD_BOUNDARY,
    );
    assert_eq!(out.err(), Some("no".to_string()));
}

#[test]
fn the_pool_decides_on_the_parts_where_no_number_is_given() {
    let rows = THREAD_BOUNDARY + 1;
    for n_threads in [None, Some(3)] {
        let out = parallel_op_series(
            |s: Series| Ok::<Series, String>(s.sum_as_series()),
            column(rows),
            n_threads,
            threaded(),
            THREAD_BOUNDARY,
        )
        .unwrap()
        .unwrap();
        assert_eq!(out.i64().unwrap().get(0), Some(5_000_050_000));
        assert_eq!(out.name(), "a");
    }
}

#[test]
fn the_boundary_is_the_callers_to_set() {
    for (boundary, parts) in [(DEBUG_THREAD_BOUNDARY, 3), (5, 3), (6, 1)] {
        let calls = Mutex::new(0);
        let out = parallel_op_series_on(
            |s: Series| {
                *calls.lock().unwrap() += 1;
                Ok::<Series, String>(s.sum_as_series())
            },
            column(5),
            2,
            false,
            threaded(),
            boundary,
        )
        .unwrap()
        .unwrap();
        assert_eq!(out.i64().unwrap().get(0), Some(10));
        assert_eq!(calls.into_inner().unwrap(), parts);
    }
}

#[test]
fn however_a_sum_is_split_it_is_the_same() {
    for n_threads in 1..8 {
        for pending in [false, true] {
            let (sum, _) = sum_on(column(THREAD_BOUNDARY + 1), n_threads, pending, threaded());
            assert_eq!(sum, 5_000_050_000);
        }
    }
    for n_threads in [None, Some(1), Some(5)] {
        for boundary in [DEBUG_THREAD_BOUNDARY, THREAD_BOUNDARY] {
            let out = parallel_op_series(
                |s: Series| Ok::<Series, String>(s.max_as_series()),
                column(11),
                n_threads,
                threaded(),
                boundary,
            );
            assert_eq!(out.unwrap().unwrap().i64().unwrap().get(0), Some(10));
        }
    }
}
