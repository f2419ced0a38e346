use arrow2::array::{Array, ListArray, NullArray};
use arrow2::datatypes::DataType as ArrowDataType;
use arrow2::offset::OffsetsBuffer;
use polars_core::prelude::{
    DataType, Int64Chunked, IntoSeries, NamedFrom, NewChunkedArray, Series, SortOptions, TakeRandom,
};
use polars_core::POOL;
use polars_planner::parallel::{DEBUG_THREAD_BOUNDARY, THREAD_BOUNDARY};
use polars_planner::state::ExpressionConversionState;
use polars_planner::udf::SeriesFunction;

fn serial() -> ExpressionConversionState {
    ExpressionConversionState::new(false)
}

fn threaded() -> ExpressionConversionState {
    ExpressionConversionState::new(true)
}

/// Runs the function on one column: its answer, and what is left in the place of the column.
fn run(f: SeriesFunction, s: Series) -> (Series, Series) {
    let mut columns = [s];
    let out = f.try_call(&mut columns, THREAD_BOUNDARY).unwrap().unwrap().unwrap();
    let [left] = columns;
    (out, left)
}

fn ints() -> Series {
    Series::new("a", &[3i32, 1, 2, 3])
}

#[test]
fn min_and_max_of_integers() {
    let (min, left) = run(SeriesFunction::Min { propagate_nans: false, state: serial() }, ints());
    assert_eq!(min.name(), "a");
    assert_eq!(min.len(), 1);
    assert_eq!(min.i32().unwrap().get(0), Some(1));
    assert_eq!(left.len(), 0);
    let (max, left) = run(SeriesFunction::Max { propagate_nans: false, state: serial() }, ints());
    assert_eq!(max.len(), 1);
    assert_eq!(max.i32().unwrap().get(0), Some(3));
    assert_eq!(left.len(), 0);
}

#[test]
fn propagating_nans_matters_for_integers_not_at_all() {
    let (min, _) = run(SeriesFunction::Min { propagate_nans: true, state: serial() }, ints());
    assert_eq!(min.i32().unwrap().get(0), Some(1));
    let (max, _) = run(SeriesFunction::Max { propagate_nans: true, state: serial() }, ints());
    assert_eq!(max.i32().unwrap().get(0), Some(3));
}

#[test]
fn nans_win_only_where_they_are_propagated() {
    let floats = Series::new("x", &[2.0f64, f64::NAN, 1.0]);
    let (min, _) = run(
        SeriesFunction::Min { propagate_nans: true, state: serial() },
        floats.clone(),
    );
    assert!(min.f64().unwrap().get(0).unwrap().is_nan());
    assert_eq!(min.name(), "x");
    let (max, _) = run(
        SeriesFunction::Max { propagate_nans: true, state: serial() },
        floats.clone(),
    );
    assert!(max.f64().unwrap().get(0).unwrap().is_nan());
    let (min, _) = run(
        SeriesFunction::Min { propagate_nans: false, state: serial() },
        floats.clone(),
    );
    assert_eq!(min.f64().unwrap().get(0), Some(1.0));
    let (max, _) = run(SeriesFunction::Max { propagate_nans: false, state: serial() }, floats);
    assert_eq!(max.f64().unwrap().get(0), Some(2.0));
}

#[test]
fn floats_without_nans_have_their_extremes() {
    let floats = Series::new("x", &[2.0f64, 4.0, 1.0]);
    let (min, _) = run(
        SeriesFunction::Min { propagate_nans: true, state: serial() },
        floats.clone(),
    );
    assert_eq!(min.f64().unwrap().get(0), Some(1.0));
    let (max, _) = run(SeriesFunction::Max { propagate_nans: true, state: serial() }, floats);
    assert_eq!(max.f64().unwrap().get(0), Some(4.0));
}

#[test]
fn a_sorted_column_has_its_extremes_at_its_ends() {
    for descending in [false, true] {
        let sorted = ints().sort(descending);
        let (min, _) = run(
            SeriesFunction::Min { propagate_nans: false, state: threaded() },
            sorted.clone(),
        );
        assert_eq!(min.i32().unwrap().get(0), Some(1));
        let (max, _) = run(
            SeriesFunction::Max { propagate_nans: false, state: threaded() },
            sorted,
        );
        assert_eq!(max.i32().unwrap().get(0), Some(3));
    }
}

#[test]
fn an_empty_sorted_column_of_strings_is_not_asked() {
    let empty = Series::new("s", &["b", "a"]).sort(false).slice(0, 0);
    for f in [
        SeriesFunction::Min { propagate_nans: false, state: serial() },
        SeriesFunction::Max { propagate_nans: false, state: serial() },
    ] {
        let mut columns = [empty.clone()];
        assert!(f.try_call(&mut columns, THREAD_BOUNDARY).is_none());
        assert_eq!(columns[0].name(), "s");
    }
    let (min, _) = run(
        SeriesFunction::Min { propagate_nans: false, state: serial() },
        Series::new("s", &["b", "a"]).sort(false),
    );
    assert_eq!(min.utf8().unwrap().get(0), Some("a"));
}

#[test]
fn sorted_nulls_with_an_empty_piece_have_no_ends() {
    for descending in [false, true] {
        let nulls = Series::new("a", &[None::<i32>, None]).sort(descending);
        let mut pieces = nulls.clone();
        pieces.append(&Series::new("a", &[1i32]).slice(0, 0)).unwrap();
        assert_eq!(pieces.n_chunks(), 2);
        let (min, max) = (
            SeriesFunction::Min { propagate_nans: true, state: serial() },
            SeriesFunction::Max { propagate_nans: true, state: serial() },
        );
        for f in [min, max] {
            assert!(f.try_call(&mut [pieces.clone()], THREAD_BOUNDARY).is_none());
            let (out, _) = run(f, nulls.clone());
            assert_eq!(out.i32().unwrap().get(0), None);
            assert_eq!(out.len(), 1);
        }
    }
}

#[test]
fn sorted_numbers_with_an_empty_piece_have_ends() {
    let mut column = Series::new("a", &[None, Some(4i32), Some(2)]).sort(false);
    column.append(&Series::new("a", &[1i32]).slice(0, 0)).unwrap();
    assert_eq!(column.n_chunks(), 2);
    let (min, _) = run(
        SeriesFunction::Min { propagate_nans: false, state: serial() },
        column.clone(),
    );
    assert_eq!(min.i32().unwrap().get(0), Some(2));
    let (max, _) = run(SeriesFunction::Max { propagate_nans: false, state: serial() }, column);
    assert_eq!(max.i32().unwrap().get(0), Some(4));
}

#[test]
fn sorted_floats_need_no_ends_where_nans_are_propagated() {
    let mut column = Series::new("a", &[None::<f64>, None]).sort(false);
    column.append(&Series::new("a", &[1.0f64]).slice(0, 0)).unwrap();
    let (min, _) = run(
        SeriesFunction::Min { propagate_nans: true, state: serial() },
        column.clone(),
    );
    assert_eq!(min.f64().unwrap().get(0), None);
    let f = SeriesFunction::Min { propagate_nans: false, state: serial() };
    assert!(f.try_call(&mut [column], THREAD_BOUNDARY).is_none());
}

#[test]
fn extremes_with_nans_are_added_up_over_pieces() {
    let mut column = Series::new("x", &[2.0f64, 4.0]);
    column.append(&Series::new("x", &[3.0f64, 7.0])).unwrap();
    let (min, _) = run(
        SeriesFunction::Min { propagate_nans: true, state: serial() },
        column.clone(),
    );
    assert_eq!(min.f64().unwrap().get(0), Some(5.0));
    let (max, _) = run(SeriesFunction::Max { propagate_nans: true, state: serial() }, column);
    assert_eq!(max.f64().unwrap().get(0), Some(11.0));
}

#[test]
fn extremes_with_nans_are_added_up_over_threads() {
    let threads = POOL.current_num_threads() as f64;
    let ones = Series::new("x", vec![1.0f64; 100_000]);
    let mut values = vec![1.0f64; 100_000];
    values[77_777] = f64::NAN;
    let with_nan = Series::new("x", values);
    for f in [
        SeriesFunction::Min { propagate_nans: true, state: threaded() },
        SeriesFunction::Max { propagate_nans: true, state: threaded() },
    ] {
        let (out, _) = run(f, ones.clone());
        assert_eq!(out.f64().unwrap().get(0), Some(threads));
        assert_eq!((out.name(), out.len()), ("x", 1));
        let (out, _) = run(f, with_nan.clone());
        assert!(out.f64().unwrap().get(0).unwrap().is_nan());
    }
    for f in [
        SeriesFunction::Min { propagate_nans: true, state: serial() },
        SeriesFunction::Max { propagate_nans: false, state: threaded() },
    ] {
        let (out, _) = run(f, ones.clone());
        assert_eq!(out.f64().unwrap().get(0), Some(1.0));
    }
}

#[test]
fn an_empty_column_of_integers_has_null_extremes() {
    let empty = ints().slice(0, 0);
    let (min, _) = run(SeriesFunction::Min { propagate_nans: false, state: serial() }, empty);
    assert_eq!(min.len(), 1);
    assert_eq!(min.i32().unwrap().get(0), None);
}

#[test]
fn long_columns_are_reduced_in_parts_with_the_same_answer() {
    let values: Vec<i64> = (0..150_000).map(|i| (i * 7919) % 150_001).collect();
    let column = Series::new("a", values.clone());
    let min = *values.iter().min().unwrap();
    let max = *values.iter().max().unwrap();
    let sum: i64 = values.iter().sum();
    for state in [serial(), threaded()] {
        let (out, _) = run(SeriesFunction::Min { propagate_nans: false, state }, column.clone());
        assert_eq!(out.i64().unwrap().get(0), Some(min));
        assert_eq!(out.len(), 1);
        let (out, _) = run(SeriesFunction::Max { propagate_nans: false, state }, column.clone());
        assert_eq!(out.i64().unwrap().get(0), Some(max));
        let (out, _) = run(SeriesFunction::Sum { state }, column.clone());
        assert_eq!(out.i64().unwrap().get(0), Some(sum));
        assert_eq!(out.name(), "a");
    }
}

#[test]
fn nulls_are_left_out_of_a_reduction_in_parts() {
    let values: Vec<Option<i32>> =
        (0..120_000).map(|i| if i % 3 == 0 { None } else { Some(i % 1000 - 400) }).collect();
    let column = Series::new("a", values.clone());
    for state in [serial(), threaded()] {
        let (out, _) = run(SeriesFunction::Min { propagate_nans: false, state }, column.clone());
        assert_eq!(out.i32().unwrap().get(0), values.iter().flatten().min().copied());
        let (out, _) = run(SeriesFunction::Max { propagate_nans: true, state }, column.clone());
        assert_eq!(out.i32().unwrap().get(0), values.iter().flatten().max().copied());
        let (out, _) = run(SeriesFunction::Sum { state }, column.clone());
        assert_eq!(out.i32().unwrap().get(0), Some(values.iter().flatten().sum()));
    }
}

#[test]
fn nulls_alone_have_null_extremes_and_no_sum() {
    let column = Series::new("a", vec![None::<i64>; 100_000]);
    for state in [serial(), threaded()] {
        let (out, _) = run(SeriesFunction::Min { propagate_nans: false, state }, column.clone());
        assert_eq!(out.i64().unwrap().get(0), None);
        let (out, _) = run(SeriesFunction::Max { propagate_nans: false, state }, column.clone());
        assert_eq!(out.i64().unwrap().get(0), None);
        let (out, _) = run(SeriesFunction::Sum { state }, column.clone());
        assert_eq!(out.i64().unwrap().get(0), Some(0));
    }
}

#[test]
fn sums_that_leave_their_type_are_not_formed() {
    let mut values = vec![0i32; 100_000];
    values[0] = i32::MAX;
    values[99_999] = 1;
    for state in [serial(), threaded()] {
        let mut columns = [Series::new("a", values.clone())];
        assert!(SeriesFunction::Sum { state }.try_call(&mut columns, THREAD_BOUNDARY).is_none());
        assert_eq!(columns[0].len(), 100_000);
        let mut columns = [Series::new("a", &[i32::MIN, -1])];
        assert!(SeriesFunction::Sum { state }.try_call(&mut columns, THREAD_BOUNDARY).is_none());
        let mut columns = [Series::new("a", &[u64::MAX, 1])];
        assert!(SeriesFunction::Sum { state }.try_call(&mut columns, THREAD_BOUNDARY).is_none());
    }
}

#[test]
fn sums_up_to_the_limit_of_their_type_are_formed() {
    let (sum, _) = run(SeriesFunction::Sum { state: serial() }, Series::new("a", &[u64::MAX, 0]));
    assert_eq!(sum.u64().unwrap().get(0), Some(u64::MAX));
    let (sum, _) = run(
        SeriesFunction::Sum { state: serial() },
        Series::new("a", &[i64::MIN, 0, i64::MAX]),
    );
    assert_eq!(sum.i64().unwrap().get(0), Some(-1));
    let mut values = vec![0u32; 100_000];
    values[7] = u32::MAX - 3;
    values[99_999] = 3;
    let (sum, _) = run(SeriesFunction::Sum { state: threaded() }, Series::new("a", values));
    assert_eq!(sum.u32().unwrap().get(0), Some(u32::MAX));
}

#[test]
fn true_rows_are_counted_by_a_sum() {
    let values: Vec<bool> = (0..100_001).map(|i| i % 2 == 0).collect();
    for state in [serial(), threaded()] {
        let (sum, _) = run(SeriesFunction::Sum { state }, Series::new("a", values.clone()));
        assert_eq!(sum.u32().unwrap().get(0), Some(50_001));
    }
}

#[test]
fn sums_of_floats() {
    for state in [serial(), threaded()] {
        let (sum, _) = run(SeriesFunction::Sum { state }, Series::new("a", vec![0.5f64; 100_000]));
        assert_eq!(sum.f64().unwrap().get(0), Some(50_000.0));
    }
}

#[test]
fn a_column_in_several_pieces_is_summed() {
    let mut column = ints();
    column.append(&Series::new("b", &[Some(10i32), None])).unwrap();
    let (sum, _) = run(SeriesFunction::Sum { state: serial() }, column);
    assert_eq!(sum.i32().unwrap().get(0), Some(19));
}

#[test]
fn sums_of_integers() {
    let (sum, left) = run(SeriesFunction::Sum { state: threaded() }, ints());
    assert_eq!(sum.i32().unwrap().get(0), Some(9));
    assert_eq!(left.len(), 0);
}

#[test]
fn the_sum_of_nothing_is_zero() {
    let (sum, _) = run(SeriesFunction::Sum { state: serial() }, ints().slice(0, 0));
    assert_eq!(sum.i32().unwrap().get(0), Some(0));
}

#[test]
fn median_and_mean() {
    let (median, left) = run(SeriesFunction::Median, ints());
    assert_eq!(median.f64().unwrap().get(0), Some(2.5));
    assert_eq!(left.len(), 0);
    let (mean, left) = run(SeriesFunction::Mean, ints());
    assert_eq!(mean.f64().unwrap().get(0), Some(2.25));
    assert_eq!(left.len(), 0);
}

#[test]
fn deviation_and_variance_take_degrees_of_freedom() {
    let column = Series::new("a", &[2.0f64, 4.0, 4.0, 4.0, 5.0, 5.0, 7.0, 9.0]);
    let (std, _) = run(SeriesFunction::Std(0), column.clone());
    assert_eq!(std.f64().unwrap().get(0), Some(2.0));
    let (var, _) = run(SeriesFunction::Var(0), column.clone());
    assert_eq!(var.f64().unwrap().get(0), Some(4.0));
    let (var, _) = run(SeriesFunction::Var(1), column);
    assert!((var.f64().unwrap().get(0).unwrap() - 32.0 / 7.0).abs() < 1e-12);
}

#[test]
fn distinct_values_are_counted() {
    let (n, left) = run(SeriesFunction::NUnique, ints());
    assert_eq!(n.dtype(), &DataType::UInt32);
    assert_eq!(n.name(), "a");
    assert_eq!(n.u32().unwrap().get(0), Some(3));
    assert_eq!(left.len(), 0);
}

#[test]
fn nulls_count_as_one_distinct_value() {
    let (n, _) = run(SeriesFunction::NUnique, Series::new("a", &[Some(2i64), None, Some(2), None]));
    assert_eq!(n.u32().unwrap().get(0), Some(2));
    let (n, _) = run(SeriesFunction::NUnique, ints().slice(0, 0));
    assert_eq!(n.u32().unwrap().get(0), Some(0));
    let (n, _) = run(SeriesFunction::NUnique, ints().slice(0, 1));
    assert_eq!(n.u32().unwrap().get(0), Some(1));
}

#[test]
fn distinct_lists_are_not_counted() {
    let lists = ints().implode().unwrap();
    let mut columns = [lists.into_series()];
    assert!(SeriesFunction::NUnique.try_call(&mut columns, THREAD_BOUNDARY).unwrap().is_err());
}

#[test]
fn rows_are_counted_with_the_null_ones() {
    let (n, left) = run(SeriesFunction::Count, Series::new("c", &[Some(1i32), None]));
    assert_eq!(n.dtype(), &DataType::UInt32);
    assert_eq!(n.name(), "c");
    assert_eq!(n.u32().unwrap().get(0), Some(2));
    assert_eq!(left.len(), 0);
}

#[test]
fn first_and_last_rows() {
    let column = Series::new("a", &[3i32, 1, 2]);
    let (first, left) = run(SeriesFunction::First, column.clone());
    assert_eq!(first.len(), 1);
    assert_eq!(first.i32().unwrap().get(0), Some(3));
    assert_eq!(left.len(), 0);
    assert_eq!(first.dtype(), &DataType::Int32);
    let (last, _) = run(SeriesFunction::Last, column.clone());
    assert_eq!(last.len(), 1);
    assert_eq!(last.dtype(), &DataType::Int32);
    assert_eq!(last.i32().unwrap().get(0), Some(2));
    let (first, _) = run(SeriesFunction::First, column.slice(0, 0));
    assert_eq!(first.len(), 0);
    let (last, _) = run(SeriesFunction::Last, column.slice(0, 0));
    assert_eq!(last.len(), 0);
}

#[test]
fn implode_makes_one_list_and_explode_undoes_it() {
    let (list, left) = run(SeriesFunction::Implode, ints());
    assert_eq!(list.len(), 1);
    assert_eq!(list.dtype(), &DataType::List(Box::new(DataType::Int32)));
    assert!(left.series_equal(&ints()));
    let (rows, left) = run(SeriesFunction::Explode, list);
    assert!(rows.series_equal(&ints()));
    assert_eq!(left.len(), 1);
}

#[test]
fn lists_of_lists_are_exploded_one_by_one() {
    let list = ints().implode().unwrap().into_series();
    let mut lists = list.clone();
    lists.append(&list).unwrap();
    let nested = lists.implode().unwrap().into_series();
    let (rows, left) = run(SeriesFunction::Explode, nested);
    assert_eq!(left.len(), 1);
    assert_eq!(rows.len(), 2);
    assert_eq!(rows.dtype(), lists.dtype());
    let (rows, _) = run(SeriesFunction::Explode, rows);
    assert_eq!(
        rows.i32().unwrap().into_iter().collect::<Vec<_>>(),
        vec![Some(3), Some(1), Some(2), Some(3), Some(3), Some(1), Some(2), Some(3)]
    );
    assert_eq!(rows.name(), "a");
}

#[test]
fn lists_have_null_extremes_and_are_exploded() {
    let strings = Series::new("s", &["x", "y"]);
    let floats = Series::new("f", &[0.5f32]);
    let bools = Series::new("b", &[Some(true), None]);
    for items in [ints(), strings, floats, bools] {
        let lists = Series::new("l", &[items.clone(), items.slice(0, 0), items.clone()]);
        for f in [
            SeriesFunction::Min { propagate_nans: true, state: threaded() },
            SeriesFunction::Max { propagate_nans: false, state: serial() },
            SeriesFunction::Sum { state: threaded() },
        ] {
            let mut columns = [lists.clone()];
            let out = f.try_call(&mut columns, DEBUG_THREAD_BOUNDARY).unwrap().unwrap().unwrap();
            assert_eq!((out.name(), out.dtype(), out.len()), ("l", lists.dtype(), 1));
            assert_eq!(out.null_count(), 1);
        }
        let (rows, left) = run(SeriesFunction::Explode, lists.clone());
        assert_eq!((rows.name(), rows.dtype()), ("l", items.dtype()));
        assert_eq!(rows.len(), 2 * items.len() + 1);
        assert_eq!(rows.null_count(), 2 * items.null_count() + 1);
        assert_eq!(left.len(), 3);
        let (list, _) = run(SeriesFunction::Implode, lists);
        assert_eq!(list.len(), 1);
    }
}

/// The column of the lists that start and end at `offsets` of `values`.
fn lists_of(values: Box<dyn Array>, offsets: Vec<i64>) -> Series {
    let dtype = ListArray::<i64>::default_datatype(values.data_type().clone());
    let offsets = OffsetsBuffer::try_from(offsets).unwrap();
    let list: Box<dyn Array> = Box::new(ListArray::<i64>::new(dtype, offsets, values, None));
    Series::try_from(("l", list)).unwrap()
}

/// The column with `values` as its one list.
fn list_of(values: Box<dyn Array>) -> Series {
    let len = values.len() as i64;
    lists_of(values, vec![0, len])
}

#[test]
fn a_list_without_items_is_exploded_to_a_null() {
    let lists = lists_of(ints().chunks()[0].clone(), vec![0, 1, 1, 3]);
    let (rows, _) = run(SeriesFunction::Explode, lists);
    assert_eq!(
        rows.i32().unwrap().into_iter().collect::<Vec<_>>(),
        vec![Some(3), None, Some(1), Some(2)]
    );
}

#[test]
fn lists_of_more_values_than_rows_can_be_counted_are_not_exploded() {
    let nulls = |len: usize| -> Box<dyn Array> { Box::new(NullArray::new(ArrowDataType::Null, len)) };
    let mut pieces = list_of(nulls(i64::MAX as usize));
    for _ in 0..3 {
        pieces.append(&list_of(nulls(i64::MAX as usize))).unwrap();
    }
    let behind_lists = list_of(list_of(nulls(1 << 33)).chunks()[0].clone());
    for lists in [list_of(nulls(u32::MAX as usize)), pieces, behind_lists] {
        let mut columns = [lists];
        assert!(SeriesFunction::Explode.try_call(&mut columns, THREAD_BOUNDARY).is_none());
        assert_eq!(columns[0].name(), "l");
    }
    let (rows, _) = run(SeriesFunction::Explode, list_of(nulls(3)));
    assert_eq!(rows.dtype(), &DataType::Null);
}

#[test]
fn lists_of_what_there_are_no_columns_of_are_not_exploded() {
    let mut dates = ints().implode().unwrap();
    dates.set_inner_dtype(DataType::Date);
    let mut columns = [dates.into_series()];
    assert!(SeriesFunction::Explode.try_call(&mut columns, THREAD_BOUNDARY).is_none());
    let days = arrow2::array::PrimitiveArray::<i32>::from_vec(vec![1, 2]).to(ArrowDataType::Date32);
    let days = list_of(Box::new(days));
    assert_eq!(days.dtype(), &DataType::List(Box::new(DataType::Date)));
    for f in [SeriesFunction::Explode, SeriesFunction::Implode] {
        assert!(f.try_call(&mut [days.clone()], THREAD_BOUNDARY).is_none());
    }
    let (first, _) = run(SeriesFunction::First, days.clone());
    assert_eq!((first.len(), first.dtype()), (1, days.dtype()));
    let bytes = list_of(Box::new(arrow2::array::PrimitiveArray::<i8>::from_vec(vec![1, 2])));
    assert_eq!(bytes.dtype(), &DataType::List(Box::new(DataType::Int8)));
    for lists in [bytes.clone(), list_of(bytes.chunks()[0].clone())] {
        assert!(SeriesFunction::Explode.try_call(&mut [lists], THREAD_BOUNDARY).is_none());
    }
}

#[test]
fn explode_of_no_list_keeps_the_column() {
    let (rows, left) = run(SeriesFunction::Explode, ints());
    assert!(rows.series_equal(&ints()));
    assert!(left.series_equal(&ints()));
}

#[test]
fn only_the_first_column_is_read() {
    let mut columns = [ints(), Series::new("b", &[10i32])];
    let out = SeriesFunction::First.try_call(&mut columns, THREAD_BOUNDARY).unwrap().unwrap().unwrap();
    assert_eq!(out.i32().unwrap().get(0), Some(3));
    assert_eq!(columns[1].i32().unwrap().get(0), Some(10));
}

#[test]
fn no_column_gives_no_answer() {
    let mut columns: [Series; 0] = [];
    assert!(SeriesFunction::Count.try_call(&mut columns, THREAD_BOUNDARY).is_none());
}

/// The functions that look into their column.
fn looking_in() -> Vec<SeriesFunction> {
    vec![
        SeriesFunction::Min { propagate_nans: false, state: serial() },
        SeriesFunction::Max { propagate_nans: true, state: threaded() },
        SeriesFunction::Sum { state: serial() },
        SeriesFunction::Median,
        SeriesFunction::First,
        SeriesFunction::Last,
        SeriesFunction::Implode,
        SeriesFunction::Std(1),
        SeriesFunction::Var(1),
    ]
}

#[test]
fn nothing_is_looked_for_where_a_column_was_taken() {
    let mut columns = [ints()];
    assert!(SeriesFunction::First.try_call(&mut columns, THREAD_BOUNDARY).is_some());
    assert_eq!(columns[0].n_chunks(), 0);
    for f in looking_in() {
        for boundary in [THREAD_BOUNDARY, DEBUG_THREAD_BOUNDARY] {
            assert!(f.try_call(&mut columns, boundary).is_none());
        }
    }
    let count = SeriesFunction::Count.try_call(&mut columns, THREAD_BOUNDARY);
    assert_eq!(count.unwrap().unwrap().unwrap().u32().unwrap().get(0), Some(0));
    let n_unique = SeriesFunction::NUnique.try_call(&mut columns, THREAD_BOUNDARY);
    assert_eq!(n_unique.unwrap().unwrap().unwrap().u32().unwrap().get(0), Some(0));
    let mean = SeriesFunction::Mean.try_call(&mut columns, THREAD_BOUNDARY);
    assert_eq!(mean.unwrap().unwrap().unwrap().null_count(), 1);
    let rows = SeriesFunction::Explode.try_call(&mut columns, THREAD_BOUNDARY);
    assert_eq!(rows.unwrap().unwrap().unwrap().len(), 0);
}

#[test]
fn a_column_that_is_not_kept_as_its_type_says_is_not_mistaken() {
    let mut kept = Int64Chunked::default();
    kept.append(&Int64Chunked::from_slice("a", &[2, 1]));
    let column = kept.into_series();
    assert_eq!(column.dtype(), &DataType::Null);
    for f in [
        SeriesFunction::Min { propagate_nans: false, state: serial() },
        SeriesFunction::Max { propagate_nans: false, state: serial() },
        SeriesFunction::Sum { state: serial() },
        SeriesFunction::Implode,
    ] {
        assert!(f.try_call(&mut [column.clone()], THREAD_BOUNDARY).is_none());
    }
    let (first, _) = run(SeriesFunction::First, column);
    assert_eq!(first.len(), 1);
}

#[test]
fn rows_that_were_not_counted_are_not_related_to_the_column() {
    let column = Series::new_null("n", (1 << 32) + 5);
    assert_eq!(column.len(), 5);
    for f in [
        SeriesFunction::Min { propagate_nans: false, state: serial() },
        SeriesFunction::Sum { state: serial() },
        SeriesFunction::Median,
        SeriesFunction::Mean,
        SeriesFunction::NUnique,
        SeriesFunction::Std(1),
        SeriesFunction::Var(1),
        SeriesFunction::Implode,
    ] {
        assert!(f.try_call(&mut [column.clone()], THREAD_BOUNDARY).is_none());
    }
    let (n, _) = run(SeriesFunction::Count, column);
    assert_eq!(n.u32().unwrap().get(0), Some(5));
}

#[test]
fn a_column_of_nulls_has_null_answers() {
    let nulls = Series::full_null("n", 3, &DataType::Null);
    for f in [
        SeriesFunction::Min { propagate_nans: false, state: serial() },
        SeriesFunction::Max { propagate_nans: false, state: threaded() },
        SeriesFunction::Sum { state: threaded() },
    ] {
        let mut columns = [nulls.clone()];
        let out = f.try_call(&mut columns, DEBUG_THREAD_BOUNDARY).unwrap().unwrap().unwrap();
        assert_eq!((out.name(), out.dtype(), out.len()), ("n", &DataType::Null, 1));
    }
}

#[test]
fn the_median_is_not_looked_for_among_nulls_of_a_sorted_column() {
    let nulls_last = SortOptions { nulls_last: true, ..Default::default() };
    let mut column = Series::new("a", &[Some(1i32), None]).sort(false);
    let end = Series::new("a", &[None, Some(2i32)]).sort_with(nulls_last);
    column.append(&end).unwrap();
    assert!(SeriesFunction::Median.try_call(&mut [column], THREAD_BOUNDARY).is_none());
    let (median, _) = run(SeriesFunction::Median, Series::new("a", &[1i32, 2, 4]).sort(false));
    assert_eq!(median.f64().unwrap().get(0), Some(2.0));
    let column = Series::new("a", &[Some(5i32), None, Some(1), None]);
    for sorted in [column.sort(false), column.sort(true), column.sort_with(nulls_last)] {
        let (median, _) = run(SeriesFunction::Median, sorted);
        assert_eq!(median.f64().unwrap().get(0), Some(3.0));
    }
    let nulls = Series::new("a", &[None::<i32>, None]).sort(false);
    let (median, _) = run(SeriesFunction::Median, nulls);
    assert_eq!((median.len(), median.null_count()), (1, 1));
    let (median, _) = run(SeriesFunction::Median, Series::new("a", &[Some(1i32), None, Some(5)]));
    assert_eq!(median.f64().unwrap().get(0), Some(3.0));
}

#[test]
fn short_columns_are_split_at_the_low_boundary() {
    for f in [
        SeriesFunction::Min { propagate_nans: false, state: threaded() },
        SeriesFunction::Max { propagate_nans: false, state: threaded() },
        SeriesFunction::Sum { state: threaded() },
    ] {
        for column in [ints(), ints().slice(0, 0)] {
            let mut low = [column.clone()];
            let low = f.try_call(&mut low, DEBUG_THREAD_BOUNDARY).unwrap().unwrap().unwrap();
            let (high, _) = run(f, column);
            assert!(low.series_equal_missing(&high));
            assert_eq!(low.name(), "a");
        }
    }
}

#[test]
fn answers_keep_the_name_of_their_column() {
    for f in looking_in() {
        let (out, _) = run(f, ints());
        assert_eq!(out.name(), "a");
    }
    for f in [SeriesFunction::NUnique, SeriesFunction::Mean, SeriesFunction::Count] {
        let (out, _) = run(f, ints());
        assert_eq!(out.name(), "a");
    }
}
