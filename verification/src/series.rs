//! The columns of polars, as this crate sees them.
//!
//! A [`Series`] is opaque to the verifier. Everything the crate does with one goes through the
//! functions of this module, whose contracts are trusted: they are read off the sources of
//! `polars-core`, `polars-ops` and `rayon`. What polars computes is given a name here, such as
//! [`min_of`]; where polars may answer differently from run to run (a sum of floats depends on
//! where the column lies in memory) the name is a relation between the column and the answer.
use polars_core::prelude::{
    AnyValue, DataType, Field, IntoSeries, NewChunkedArray, PolarsError, QuantileInterpolOptions,
    Schema, Series, SortOptions, UInt32Chunked, ValueSize,
};
use polars_core::series::IsSorted;
use polars_core::utils::_split_offsets;
use polars_core::POOL;
use polars_ops::prelude::nan_propagating_aggregate::{nan_max_s, nan_min_s};
use rayon::prelude::{IntoParallelIterator, ParallelIterator};
use std::sync::Arc;
use vstd::prelude::*;

verus! {

/// A column of polars.
#[verifier::external_type_specification]
#[verifier::external_body]
pub struct ExSeries(polars_core::prelude::Series);

/// The type of a column's values.
#[verifier::external_type_specification]
#[verifier::external_body]
pub struct ExDataType(polars_core::prelude::DataType);

/// An error of polars.
#[verifier::external_type_specification]
#[verifier::external_body]
pub struct ExPolarsError(polars_core::prelude::PolarsError);

/// The names and types of a frame's columns.
#[verifier::external_type_specification]
#[verifier::external_body]
pub struct ExSchema(polars_core::prelude::Schema);

/// The name and type of one column.
#[verifier::external_type_specification]
#[verifier::external_body]
pub struct ExField(polars_core::prelude::Field);

/// A single value of any type.
#[verifier::external_type_specification]
#[verifier::external_body]
pub struct ExAnyValue<'a>(polars_core::prelude::AnyValue<'a>);

/// How a column is to be sorted.
#[verifier::external_type_specification]
#[verifier::external_body]
pub struct ExSortOptions(polars_core::prelude::SortOptions);

/// How a quantile that falls between two values is formed.
#[verifier::external_type_specification]
#[verifier::external_body]
pub struct ExQuantileInterpolOptions(polars_core::prelude::QuantileInterpolOptions);

/// What a column knows of the order of its values.
#[derive(Clone, Copy, PartialEq, Eq, Structural, Debug)]
pub enum SortedFlag {
    Ascending,
    Descending,
    Not,
}

/// An integer type of polars.
#[derive(Clone, Copy, PartialEq, Eq, Structural, Debug)]
pub enum IntType {
    Int8,
    Int16,
    Int32,
    Int64,
    UInt8,
    UInt16,
    UInt32,
    UInt64,
}

impl IntType {
    /// The least value of the type.
    pub open spec fn lowest(self) -> int {
        match self {
            IntType::Int8 => i8::MIN as int,
            IntType::Int16 => i16::MIN as int,
            IntType::Int32 => i32::MIN as int,
            IntType::Int64 => i64::MIN as int,
            _ => 0,
        }
    }

    /// The greatest value of the type.
    pub open spec fn highest(self) -> int {
        match self {
            IntType::Int8 => i8::MAX as int,
            IntType::Int16 => i16::MAX as int,
            IntType::Int32 => i32::MAX as int,
            IntType::Int64 => i64::MAX as int,
            IntType::UInt8 => u8::MAX as int,
            IntType::UInt16 => u16::MAX as int,
            IntType::UInt32 => u32::MAX as int,
            IntType::UInt64 => u64::MAX as int,
        }
    }

    /// The type that polars forms the sum of the type in.
    pub open spec fn sum_type(self) -> IntType {
        match self {
            IntType::Int8 => IntType::Int64,
            IntType::Int16 => IntType::Int64,
            IntType::UInt8 => IntType::Int64,
            IntType::UInt16 => IntType::Int64,
            _ => self,
        }
    }

    /// The least and the greatest value of the type that polars forms the sum of the type in.
    pub(crate) fn sum_range(self) -> (r: (i128, i128))
        ensures
            r.0 == self.sum_type().lowest(),
            r.1 == self.sum_type().highest(),
    {
        match self {
            IntType::Int32 => (i32::MIN as i128, i32::MAX as i128),
            IntType::UInt32 => (0, u32::MAX as i128),
            IntType::UInt64 => (0, u64::MAX as i128),
            _ => (i64::MIN as i128, i64::MAX as i128),
        }
    }
}

/// The number of rows of a column.
pub uninterp spec fn series_len(s: Series) -> nat;

/// The type of a column's values.
pub uninterp spec fn dtype_of(s: Series) -> DataType;

/// The number of pieces that a column is kept in. A column without rows may have none, as that
/// which `Series::default` makes.
pub uninterp spec fn n_chunks_of(s: Series) -> nat;

/// The number of rows in the `i`-th piece of a column.
pub uninterp spec fn chunk_len_of(s: Series, i: int) -> nat;

/// Whether the `i`-th piece of a column is of the arrow type that the type of the column asks for.
pub uninterp spec fn chunk_has_type_of(s: Series, i: int) -> bool;

/// The number of values behind the lists in the `i`-th piece of a column of lists.
pub uninterp spec fn chunk_values_of(s: Series, i: int) -> nat;

/// The number of nulls of a column.
pub uninterp spec fn null_count_of(s: Series) -> nat;

/// The name of a column.
pub uninterp spec fn name_of(s: Series) -> Seq<char>;

/// What a column records of the order of its values.
pub uninterp spec fn sorted_flag_of(s: Series) -> SortedFlag;

/// Whether the type is one of the floating point types.
pub uninterp spec fn is_float_dtype(d: DataType) -> bool;

/// Whether the type is that of strings.
pub uninterp spec fn is_utf8_dtype(d: DataType) -> bool;

/// Whether the type is one that polars has columns of whatever it is built with, and not one of
/// lists.
pub uninterp spec fn is_core_dtype(d: DataType) -> bool;

/// Whether the type is the one that its values are kept as, down to the items of lists.
pub uninterp spec fn is_physical_dtype(d: DataType) -> bool;

/// The type of the items, of a type of lists.
pub uninterp spec fn inner_dtype_of(d: DataType) -> Option<DataType>;

/// How many types of lists a type is made of, one inside the other.
pub uninterp spec fn list_depth(d: DataType) -> nat;

/// The values of a column of integers, where `None` stands for a null. A column of another type
/// has none.
pub uninterp spec fn ints_of(s: Series) -> Option<Seq<Option<int>>>;

/// Which of the integer types a type is, if any.
pub uninterp spec fn int_type_of(d: DataType) -> Option<IntType>;

/// The rows `offset..offset + len` of a column.
pub uninterp spec fn slice_of(s: Series, offset: int, len: int) -> Series;

/// The rows of `a` followed by those of `b`.
pub uninterp spec fn append_of(a: Series, b: Series) -> Series;

/// The column of one row that holds the smallest value.
pub uninterp spec fn min_of(s: Series) -> Series;

/// The column of one row that holds the largest value.
pub uninterp spec fn max_of(s: Series) -> Series;

/// The column of one row that `polars-ops` gives for the smallest float. Of a column in one piece
/// it is the smallest, with a NaN winning over every number. Of a column in several pieces it is
/// what these give, added up: the smallest floats of all the pieces, and not that of the column. A
/// piece without a float undoes what was added up before it.
pub uninterp spec fn nan_min_of(s: Series) -> Series;

/// The column of one row that `polars-ops` gives for the largest float. Of a column in one piece it
/// is the largest, with a NaN winning over every number. Of a column in several pieces it is what
/// these give, added up as for [`nan_min_of`].
pub uninterp spec fn nan_max_of(s: Series) -> Series;

/// The number of distinct values, or the error for a column of a type that has none.
pub uninterp spec fn n_unique_of(s: Series) -> Result<usize, PolarsError>;

/// The column of one row that holds all of `s` as one list.
pub uninterp spec fn implode_of(s: Series) -> Series;

/// The column of the items of all the lists of `s`, one after the other. A column of another type
/// than lists is left as it is.
pub uninterp spec fn explode_of(s: Series) -> Series;

/// The column of the values behind the lists of `s`, in one piece.
pub uninterp spec fn inner_of(s: Series) -> Series;

/// The column of that name with `value` as its one row.
pub uninterp spec fn u32_series_of(name: Seq<char>, value: u32) -> Series;

/// `r` is a sum that polars may give of `s`.
pub uninterp spec fn is_sum_of(s: Series, r: Series) -> bool;

/// The type of the sum of values of type `d`.
pub uninterp spec fn sum_dtype(d: DataType) -> DataType;

/// `r` is a mean that polars may give of `s`.
pub uninterp spec fn is_mean_of(s: Series, r: Series) -> bool;

/// The column of one row that holds the median.
pub uninterp spec fn median_of(s: Series) -> Series;

/// `r` is a standard deviation that polars may give of `s` with `ddof` degrees of freedom taken.
pub uninterp spec fn is_std_of(s: Series, ddof: u8, r: Series) -> bool;

/// `r` is a variance that polars may give of `s` with `ddof` degrees of freedom taken.
pub uninterp spec fn is_var_of(s: Series, ddof: u8, r: Series) -> bool;

/// Whether the type is one of lists.
pub open spec fn is_list_dtype(d: DataType) -> bool {
    inner_dtype_of(d) is Some
}

/// The number of rows in the first `k` pieces of a column.
pub open spec fn rows_in(s: Series, k: int) -> int
    decreases k,
{
    if k <= 0 {
        0
    } else {
        rows_in(s, k - 1) + chunk_len_of(s, k - 1)
    }
}

/// The number of values behind the lists in the first `k` pieces of a column of lists.
pub open spec fn values_in(s: Series, k: int) -> int
    decreases k,
{
    if k <= 0 {
        0
    } else {
        values_in(s, k - 1) + chunk_values_of(s, k - 1)
    }
}

/// The number of values behind the lists of a column of lists.
pub open spec fn list_values_of(s: Series) -> int {
    values_in(s, n_chunks_of(s) as int)
}

/// Whether a column has the rows that its pieces have. One that was made of more rows than polars
/// can count does not: polars drops the leading bits of the number.
pub open spec fn keeps_rows(s: Series) -> bool {
    rows_in(s, n_chunks_of(s) as int) == series_len(s)
}

/// Whether a column is kept as it says: it has a piece, all its pieces are of its type, and they
/// have its rows. A `ChunkedArray::default` is not: it says that it has the type of nulls, whatever
/// it is made to hold, and has no piece at first.
pub open spec fn keeps_type(s: Series) -> bool {
    &&& n_chunks_of(s) > 0
    &&& forall|i: int| 0 <= i < n_chunks_of(s) ==> #[trigger] chunk_has_type_of(s, i)
    &&& keeps_rows(s)
}

/// Whether no piece of a column is empty.
pub open spec fn has_no_empty_chunk(s: Series) -> bool {
    forall|i: int| 0 <= i < n_chunks_of(s) ==> #[trigger] chunk_len_of(s, i) > 0
}

/// Whether [`min_of`] and [`max_of`] can be asked of the column. Where it is flagged as sorted,
/// polars looks at a row without asking whether there is one: it takes a column of strings to have
/// rows, and an empty piece of a column of numbers to be followed or preceded by a number.
pub open spec fn has_extremes(s: Series) -> bool {
    ||| sorted_flag_of(s) is Not
    ||| {
        &&& is_utf8_dtype(dtype_of(s)) ==> series_len(s) > 0
        &&& int_type_of(dtype_of(s)) is Some || is_float_dtype(dtype_of(s)) ==> {
            ||| series_len(s) == 0
            ||| null_count_of(s) < series_len(s)
            ||| has_no_empty_chunk(s)
        }
    }
}

/// Whether the median of the column can be found. Where it is flagged as ascending and starts with
/// a null, polars takes all its nulls to stand first.
pub open spec fn has_median(s: Series) -> bool {
    sorted_flag_of(s) is Ascending ==> {
        ||| null_count_of(s) == 0
        ||| null_count_of(s) == series_len(s)
        ||| null_count_of(slice_of(s, 0, 1)) == 0
        ||| null_count_of(slice_of(s, 0, null_count_of(s) as int)) == null_count_of(s)
    }
}

/// Whether polars can form the column of the values behind the lists of `s`, and if these are
/// lists, that of the values behind them in turn. There is nothing to form where `s` has no lists.
pub open spec fn values_fit(s: Series) -> bool
    decreases list_depth(dtype_of(s)),
{
    match inner_dtype_of(dtype_of(s)) {
        Some(inner) => {
            &&& list_values_of(s) < u32::MAX
            &&& is_list_dtype(inner) || is_core_dtype(inner)
            &&& list_depth(dtype_of(inner_of(s))) < list_depth(dtype_of(s)) ==> values_fit(
                inner_of(s),
            )
        },
        None => true,
    }
}

/// The offset and length of the `i`-th of `n` parts of `len` rows: all parts have `len / n` rows,
/// and the last one the rest besides.
pub open spec fn split_part(len: int, n: int, i: int) -> (int, int) {
    let chunk = len / n;
    (i * chunk, if i == n - 1 {
        len - i * chunk
    } else {
        chunk
    })
}

/// The integers at `offset..offset + len`, if there are integers.
pub open spec fn sub_ints(v: Option<Seq<Option<int>>>, offset: int, len: int) -> Option<
    Seq<Option<int>>,
> {
    match v {
        Some(v) => Some(v.subrange(offset, offset + len)),
        None => None,
    }
}

/// The smaller of two values; a null is none.
pub open spec fn smaller(a: Option<int>, b: Option<int>) -> Option<int> {
    match (a, b) {
        (Some(x), Some(y)) => Some(
            if x <= y {
                x
            } else {
                y
            },
        ),
        (None, _) => b,
        (_, None) => a,
    }
}

/// The greater of two values; a null is none.
pub open spec fn greater(a: Option<int>, b: Option<int>) -> Option<int> {
    match (a, b) {
        (Some(x), Some(y)) => Some(
            if x >= y {
                x
            } else {
                y
            },
        ),
        (None, _) => b,
        (_, None) => a,
    }
}

/// The least of the values, if there is one.
pub open spec fn least(v: Seq<Option<int>>) -> Option<int>
    decreases v.len(),
{
    if v.len() == 0 {
        None
    } else {
        smaller(least(v.drop_last()), v.last())
    }
}

/// The greatest of the values, if there is one.
pub open spec fn greatest(v: Seq<Option<int>>) -> Option<int>
    decreases v.len(),
{
    if v.len() == 0 {
        None
    } else {
        greater(greatest(v.drop_last()), v.last())
    }
}

/// The sum of the values; a null adds nothing.
pub open spec fn total(v: Seq<Option<int>>) -> int
    decreases v.len(),
{
    if v.len() == 0 {
        0
    } else {
        total(v.drop_last()) + (match v.last() {
            Some(x) => x,
            None => 0,
        })
    }
}

/// The sum of the positive values.
pub open spec fn gains(v: Seq<Option<int>>) -> int
    decreases v.len(),
{
    if v.len() == 0 {
        0
    } else {
        gains(v.drop_last()) + (match v.last() {
            Some(x) if x > 0 => x,
            _ => 0,
        })
    }
}

/// The sum of the negative values.
pub open spec fn losses(v: Seq<Option<int>>) -> int
    decreases v.len(),
{
    if v.len() == 0 {
        0
    } else {
        losses(v.drop_last()) + (match v.last() {
            Some(x) if x < 0 => x,
            _ => 0,
        })
    }
}

/// Whether the values can be added up in the type that polars forms the sum in, in any order.
pub open spec fn fits(t: IntType, v: Seq<Option<int>>) -> bool {
    t.sum_type().lowest() <= losses(v) && gains(v) <= t.sum_type().highest()
}

/// Whether the sum of the column can be formed: if it has integers, they fit the type of the sum.
pub open spec fn sum_fits(s: Series) -> bool {
    int_type_of(dtype_of(s)) matches Some(t) ==> (ints_of(s) matches Some(v) && v.len()
        == series_len(s) && fits(t, v))
}

/// `r` has the sum of `s`: the total of integers, and of a column of another type an integer only
/// where it counts rows.
pub open spec fn sums_ints(s: Series, r: Series) -> bool {
    match int_type_of(dtype_of(s)) {
        Some(t) => {
            &&& int_type_of(dtype_of(r)) == Some(t.sum_type())
            &&& ints_of(r) == Some(seq![Some(total(ints_of(s)->0))])
        },
        None => int_type_of(dtype_of(r)) matches Some(t) ==> {
            &&& t == IntType::UInt32
            &&& ints_of(r) matches Some(w) && w.len() == 1 && (w[0] matches Some(x) && 0 <= x
                <= series_len(s))
        },
    }
}

/// The values of a list as mathematical integers.
pub open spec fn to_ints(v: Seq<Option<i128>>) -> Seq<Option<int>> {
    v.map_values(
        |x: Option<i128>|
            match x {
                Some(x) => Some(x as int),
                None => None,
            },
    )
}

/// `Arc::clone`, which makes another handle on the same value.
#[verifier::external_body]
pub(crate) fn share<T>(a: &Arc<T>) -> (r: Arc<T>)
    ensures
        r == *a,
{
    Arc::clone(a)
}

/// `SeriesTrait::len`. Without the `bigidx` feature polars counts rows in a `u32`.
#[verifier::external_body]
pub(crate) fn len(s: &Series) -> (r: usize)
    ensures
        r == series_len(*s),
        r <= u32::MAX,
        ints_of(*s) matches Some(v) ==> v.len() == r,
{
    s.len()
}

/// `SeriesTrait::name`.
#[verifier::external_body]
pub(crate) fn name(s: &Series) -> (r: String)
    ensures
        r@ == name_of(*s),
{
    s.name().to_string()
}

/// `SeriesTrait::is_sorted_flag`.
#[verifier::external_body]
pub(crate) fn is_sorted_flag(s: &Series) -> (r: SortedFlag)
    ensures
        r == sorted_flag_of(*s),
{
    match s.is_sorted_flag() {
        IsSorted::Ascending => SortedFlag::Ascending,
        IsSorted::Descending => SortedFlag::Descending,
        IsSorted::Not => SortedFlag::Not,
    }
}

/// `DataType::is_float`, of the column's type.
#[verifier::external_body]
pub(crate) fn is_float(s: &Series) -> (r: bool)
    ensures
        r == is_float_dtype(dtype_of(*s)),
{
    s.dtype().is_float()
}

/// `SeriesTrait::dtype`, told apart from the string type.
#[verifier::external_body]
pub(crate) fn is_utf8(s: &Series) -> (r: bool)
    ensures
        r == is_utf8_dtype(dtype_of(*s)),
{
    matches!(s.dtype(), DataType::Utf8)
}

/// `SeriesTrait::dtype`.
#[verifier::external_body]
pub(crate) fn dtype(s: &Series) -> (r: &DataType)
    ensures
        *r == dtype_of(*s),
{
    s.dtype()
}

/// `DataType::inner_dtype`: the type of the items, which is made of one type of lists less.
#[verifier::external_body]
pub(crate) fn inner_dtype(d: &DataType) -> (r: Option<&DataType>)
    ensures
        match r {
            Some(inner) => inner_dtype_of(*d) == Some(*inner) && list_depth(*inner) < list_depth(
                *d,
            ),
            None => inner_dtype_of(*d) is None,
        },
{
    d.inner_dtype()
}

/// `DataType`, with the types that `polars-core` has columns of without any of its features told
/// apart from the others.
#[verifier::external_body]
pub(crate) fn is_core(d: &DataType) -> (r: bool)
    ensures
        r == is_core_dtype(*d),
{
    match d {
        DataType::Boolean | DataType::Utf8 | DataType::Binary | DataType::Null => true,
        DataType::Int32 | DataType::Int64 | DataType::UInt32 | DataType::UInt64 => true,
        DataType::Float32 | DataType::Float64 => true,
        _ => false,
    }
}

/// `DataType::to_physical`, compared with the type itself.
#[verifier::external_body]
pub(crate) fn is_physical(d: &DataType) -> (r: bool)
    ensures
        r == is_physical_dtype(*d),
{
    d.to_physical() == *d
}

/// `SeriesTrait::n_chunks`.
#[verifier::external_body]
pub(crate) fn n_chunks(s: &Series) -> (r: usize)
    ensures
        r == n_chunks_of(*s),
{
    s.n_chunks()
}

/// `Array::len`, of one of the `SeriesTrait::chunks`.
#[verifier::external_body]
pub(crate) fn chunk_len(s: &Series, i: usize) -> (r: usize)
    requires
        i < n_chunks_of(*s),
    ensures
        r == chunk_len_of(*s, i as int),
{
    s.chunks()[i].len()
}

/// `Array::data_type`, of one of the `SeriesTrait::chunks`, compared with the `DataType::to_arrow`
/// of the column's type.
#[verifier::external_body]
pub(crate) fn chunk_has_type(s: &Series, i: usize) -> (r: bool)
    requires
        i < n_chunks_of(*s),
    ensures
        r == chunk_has_type_of(*s, i as int),
{
    s.chunks()[i].data_type() == &s.dtype().to_arrow()
}

/// `ValueSize::get_values_size`, of one of the `SeriesTrait::chunks` of a column of lists: the
/// values behind the lists of that piece.
#[verifier::external_body]
pub(crate) fn chunk_values(s: &Series, i: usize) -> (r: usize)
    requires
        i < n_chunks_of(*s),
        is_list_dtype(dtype_of(*s)),
        keeps_type(*s),
    ensures
        r == chunk_values_of(*s, i as int),
{
    s.chunks()[i].get_values_size()
}

/// `SeriesTrait::null_count`. The nulls are counted piece by piece, so that there are no more of
/// them than rows if the pieces have the rows of the column.
#[verifier::external_body]
pub(crate) fn null_count(s: &Series) -> (r: usize)
    ensures
        r == null_count_of(*s),
        keeps_rows(*s) ==> r <= series_len(*s),
{
    s.null_count()
}

/// `std::mem::take`, which leaves `Series::default()` behind: a column without rows, and without a
/// piece to have them in.
#[verifier::external_body]
pub(crate) fn take(s: &mut Series) -> (r: Series)
    ensures
        r == *old(s),
        series_len(*final(s)) == 0,
        n_chunks_of(*final(s)) == 0,
{
    std::mem::take(s)
}

/// `SeriesTrait::slice` within bounds. The part keeps the name, the type and the sorted flag of the
/// column. polars cuts up the first piece even where no row is asked for, and refuses to form a
/// column of `u32::MAX` rows.
#[verifier::external_body]
pub(crate) fn slice(s: &Series, offset: usize, len: usize) -> (r: Series)
    requires
        offset + len <= series_len(*s),
        len < u32::MAX,
        n_chunks_of(*s) > 0,
    ensures
        r == slice_of(*s, offset as int, len as int),
        n_chunks_of(r) > 0,
        keeps_type(*s) ==> keeps_type(r),
        name_of(r) == name_of(*s),
        series_len(r) == len,
        dtype_of(r) == dtype_of(*s),
        sorted_flag_of(r) == sorted_flag_of(*s),
        ints_of(r) == sub_ints(ints_of(*s), offset as int, len as int),
{
    s.slice(offset as i64, len)
}

/// `Series::append`, of a column of the same type, which is never refused; `s` keeps its name and
/// type, and the row counts add up. polars takes each column for what it says of itself. A column
/// that is not flagged as sorted does not become so, unless it is empty.
#[verifier::external_body]
pub(crate) fn append(s: &mut Series, other: &Series) -> (r: Result<(), PolarsError>)
    requires
        series_len(*old(s)) + series_len(*other) <= u32::MAX,
        dtype_of(*old(s)) == dtype_of(*other),
        keeps_type(*old(s)),
        keeps_type(*other),
    ensures
        r is Ok,
        *final(s) == append_of(*old(s), *other),
        keeps_type(*final(s)),
        name_of(*final(s)) == name_of(*old(s)),
        dtype_of(*final(s)) == dtype_of(*old(s)),
        series_len(*final(s)) == series_len(*old(s)) + series_len(*other),
        sorted_flag_of(*old(s)) is Not && series_len(*old(s)) > 0 ==> sorted_flag_of(
            *final(s),
        ) is Not,
        ints_of(*old(s)) matches Some(a) ==> ints_of(*other) matches Some(b) ==> ints_of(*final(s))
            == Some(a + b),
{
    s.append(other).map(|_| ())
}

/// `SeriesTrait::min_as_series`: one row, of the name and type of the column, that is not flagged
/// as sorted. Of integers it is the least, or null if there is none; of a column that is flagged as
/// sorted it is what stands at one end, which is left unsaid. polars takes the column for what it
/// says of itself.
#[verifier::external_body]
pub(crate) fn min_as_series(s: &Series) -> (r: Series)
    requires
        has_extremes(*s),
        keeps_type(*s),
    ensures
        r == min_of(*s),
        series_len(r) == 1,
        keeps_type(r),
        name_of(r) == name_of(*s),
        dtype_of(r) == dtype_of(*s),
        sorted_flag_of(r) is Not,
        ints_of(*s) matches Some(v) ==> sorted_flag_of(*s) is Not ==> ints_of(r) == Some(
            seq![least(v)],
        ),
{
    s.min_as_series()
}

/// `SeriesTrait::max_as_series`: as for the smallest value.
#[verifier::external_body]
pub(crate) fn max_as_series(s: &Series) -> (r: Series)
    requires
        has_extremes(*s),
        keeps_type(*s),
    ensures
        r == max_of(*s),
        series_len(r) == 1,
        keeps_type(r),
        name_of(r) == name_of(*s),
        dtype_of(r) == dtype_of(*s),
        sorted_flag_of(r) is Not,
        ints_of(*s) matches Some(v) ==> sorted_flag_of(*s) is Not ==> ints_of(r) == Some(
            seq![greatest(v)],
        ),
{
    s.max_as_series()
}

/// `nan_min_s` of `polars-ops`, under the name of the column: one row, of the type of the column,
/// which has to be a float type, that is not flagged as sorted.
#[verifier::external_body]
pub(crate) fn nan_min(s: &Series) -> (r: Series)
    requires
        is_float_dtype(dtype_of(*s)),
    ensures
        r == nan_min_of(*s),
        series_len(r) == 1,
        keeps_type(r),
        name_of(r) == name_of(*s),
        dtype_of(r) == dtype_of(*s),
        sorted_flag_of(r) is Not,
{
    nan_min_s(s, s.name())
}

/// `nan_max_s` of `polars-ops`: as for the smallest value.
#[verifier::external_body]
pub(crate) fn nan_max(s: &Series) -> (r: Series)
    requires
        is_float_dtype(dtype_of(*s)),
    ensures
        r == nan_max_of(*s),
        series_len(r) == 1,
        keeps_type(r),
        name_of(r) == name_of(*s),
        dtype_of(r) == dtype_of(*s),
        sorted_flag_of(r) is Not,
{
    nan_max_s(s, s.name())
}

/// `Series::sum_as_series`: one row, of the name of the column and of a type that the type of the
/// column determines and that the sum of sums has again. The value itself is only related to the
/// column, as polars adds floats in an order that depends on the alignment of their buffer; but the
/// sum of integers is their total, and that of booleans is the number of true ones. Where the sum
/// of integers leaves its type, a build that checks for overflow stops; such columns are left out,
/// and so are those that are not kept as they say.
#[verifier::external_body]
pub(crate) fn sum_as_series(s: &Series) -> (r: Series)
    requires
        sum_fits(*s),
        keeps_type(*s),
    ensures
        is_sum_of(*s, r),
        series_len(r) == 1,
        keeps_type(r),
        name_of(r) == name_of(*s),
        dtype_of(r) == sum_dtype(dtype_of(*s)),
        sum_dtype(dtype_of(r)) == dtype_of(r),
        sums_ints(*s, r),
{
    s.sum_as_series()
}

/// `SeriesTrait::dtype`, told apart by the integer types. A column of one of them has integers.
#[verifier::external_body]
pub(crate) fn int_type(s: &Series) -> (r: Option<IntType>)
    ensures
        r == int_type_of(dtype_of(*s)),
        r is Some <==> ints_of(*s) is Some,
{
    match s.dtype() {
        DataType::Int8 => Some(IntType::Int8),
        DataType::Int16 => Some(IntType::Int16),
        DataType::Int32 => Some(IntType::Int32),
        DataType::Int64 => Some(IntType::Int64),
        DataType::UInt8 => Some(IntType::UInt8),
        DataType::UInt16 => Some(IntType::UInt16),
        DataType::UInt32 => Some(IntType::UInt32),
        DataType::UInt64 => Some(IntType::UInt64),
        _ => None,
    }
}

/// `Series::iter`, of a column of integers in one piece, with each value taken out by
/// `AnyValue::extract`.
#[verifier::external_body]
pub(crate) fn int_values(s: &Series) -> (r: Vec<Option<i128>>)
    requires
        int_type_of(dtype_of(*s)) is Some,
        series_len(*s) < u32::MAX,
        keeps_type(*s),
    ensures
        ints_of(*s) == Some(to_ints(r@)),
        r@.len() == series_len(*s),
{
    s.rechunk().iter().map(|v| v.extract::<i128>()).collect()
}

/// `Series::mean_as_series`: one row, of the name of the column. A mean of floats goes through
/// their sum. polars subtracts the nulls that it counts in the pieces from the rows of the column.
#[verifier::external_body]
pub(crate) fn mean_as_series(s: &Series) -> (r: Series)
    requires
        keeps_rows(*s),
    ensures
        is_mean_of(*s, r),
        series_len(r) == 1,
        n_chunks_of(r) > 0,
        name_of(r) == name_of(*s),
{
    s.mean_as_series()
}

/// `SeriesTrait::median_as_series`: one row, of the name of the column. polars forms columns of all
/// the rows on the way, which it refuses to do for `u32::MAX` of them and fails to do without a
/// piece, and does not sort a column that is flagged as ascending and starts with a null.
#[verifier::external_body]
pub(crate) fn median_as_series(s: &Series) -> (r: Series)
    requires
        series_len(*s) < u32::MAX,
        n_chunks_of(*s) > 0,
        keeps_rows(*s),
        has_median(*s),
    ensures
        r == median_of(*s),
        series_len(r) == 1,
        n_chunks_of(r) > 0,
        name_of(r) == name_of(*s),
{
    s.median_as_series()
}

/// `SeriesTrait::std_as_series`: one row, of the name of the column. The deviation goes through
/// sums of floats, and through columns of all the rows, for which there has to be a piece.
#[verifier::external_body]
pub(crate) fn std_as_series(s: &Series, ddof: u8) -> (r: Series)
    requires
        series_len(*s) < u32::MAX,
        n_chunks_of(*s) > 0,
        keeps_rows(*s),
    ensures
        is_std_of(*s, ddof, r),
        series_len(r) == 1,
        n_chunks_of(r) > 0,
        name_of(r) == name_of(*s),
{
    s.std_as_series(ddof)
}

/// `SeriesTrait::var_as_series`: one row, of the name of the column. The variance goes through sums
/// of floats, and through columns of all the rows, for which there has to be a piece.
#[verifier::external_body]
pub(crate) fn var_as_series(s: &Series, ddof: u8) -> (r: Series)
    requires
        series_len(*s) < u32::MAX,
        n_chunks_of(*s) > 0,
        keeps_rows(*s),
    ensures
        is_var_of(*s, ddof, r),
        series_len(r) == 1,
        n_chunks_of(r) > 0,
        name_of(r) == name_of(*s),
{
    s.var_as_series(ddof)
}

/// `SeriesTrait::n_unique`, which fails for types that polars cannot compare, such as lists. Of
/// integers it counts the distinct ones, and the nulls as one more; for a column that is flagged as
/// sorted polars relies on the flag, and what it counts is left unsaid. It goes through columns of
/// all the rows.
#[verifier::external_body]
pub(crate) fn n_unique(s: &Series) -> (r: Result<usize, PolarsError>)
    requires
        series_len(*s) < u32::MAX,
        keeps_rows(*s),
    ensures
        r == n_unique_of(*s),
        ints_of(*s) matches Some(v) ==> r is Ok && (sorted_flag_of(*s) is Not ==> r->Ok_0
            == v.to_set().len()),
{
    s.n_unique()
}

/// `Series::head`, which is a slice of the first `rows` rows, or of all where there are fewer.
#[verifier::external_body]
pub(crate) fn head(s: &Series, rows: usize) -> (r: Series)
    requires
        rows < u32::MAX,
        n_chunks_of(*s) > 0,
    ensures
        r == slice_of(*s, 0, rows_at_most(*s, rows as int)),
        n_chunks_of(r) > 0,
        keeps_type(*s) ==> keeps_type(r),
        name_of(r) == name_of(*s),
        series_len(r) == rows_at_most(*s, rows as int),
        dtype_of(r) == dtype_of(*s),
        ints_of(r) == sub_ints(ints_of(*s), 0, rows_at_most(*s, rows as int)),
{
    s.head(Some(rows))
}

/// `rows`, or the number of rows of the column where it has fewer.
pub open spec fn rows_at_most(s: Series, rows: int) -> int {
    if rows < series_len(s) {
        rows
    } else {
        series_len(s) as int
    }
}

/// `Series::tail`, which is a slice of the last `rows` rows, or of all where there are fewer.
#[verifier::external_body]
pub(crate) fn tail(s: &Series, rows: usize) -> (r: Series)
    requires
        rows < u32::MAX,
        n_chunks_of(*s) > 0,
    ensures
        r == slice_of(
            *s,
            series_len(*s) - rows_at_most(*s, rows as int),
            rows_at_most(*s, rows as int),
        ),
        n_chunks_of(r) > 0,
        keeps_type(*s) ==> keeps_type(r),
        name_of(r) == name_of(*s),
        series_len(r) == rows_at_most(*s, rows as int),
        dtype_of(r) == dtype_of(*s),
        ints_of(r) == sub_ints(
            ints_of(*s),
            series_len(*s) - rows_at_most(*s, rows as int),
            rows_at_most(*s, rows as int),
        ),
{
    s.tail(Some(rows))
}

/// `Series::implode`, turned into a column of the same name. It goes through a column of all the
/// rows in one piece, takes the column for what it says of itself, and expects the values to be
/// kept as what they are. It never fails.
#[verifier::external_body]
pub(crate) fn implode(s: &Series) -> (r: Result<Series, PolarsError>)
    requires
        series_len(*s) < u32::MAX,
        keeps_type(*s),
        is_physical_dtype(dtype_of(*s)),
    ensures
        r is Ok,
        r->Ok_0 == implode_of(*s),
        series_len(r->Ok_0) == 1,
        n_chunks_of(r->Ok_0) > 0,
        name_of(r->Ok_0) == name_of(*s),
{
    s.implode().map(|ca| ca.into_series())
}

/// `Series::explode`, which leaves a column of another type than lists as it is. Lists are brought
/// into one piece before, and the column of the values behind them is formed, which is cast to its
/// own type; where the values are lists, this forms the column of the values behind them, and so
/// on. polars refuses to form a column of `u32::MAX` rows, and has no columns of the types that it
/// was not built with. Nothing else fails.
#[verifier::external_body]
pub(crate) fn explode(s: &Series) -> (r: Result<Series, PolarsError>)
    requires
        is_list_dtype(dtype_of(*s)) ==> {
            &&& keeps_type(*s)
            &&& series_len(*s) < u32::MAX
            &&& values_fit(*s)
            &&& series_len(explode_of(*s)) < u32::MAX
        },
    ensures
        r is Ok,
        r->Ok_0 == explode_of(*s),
        name_of(r->Ok_0) == name_of(*s),
        n_chunks_of(*s) > 0 ==> n_chunks_of(r->Ok_0) > 0,
        !is_list_dtype(dtype_of(*s)) ==> r->Ok_0 == *s,
        ints_of(*s) is Some ==> r->Ok_0 == *s,
{
    s.explode()
}

/// `ListChunked::get_inner`: the values behind the lists, which polars brings into one piece and
/// forms a column of. Where they are lists themselves, no column is formed of what is behind them.
/// Exploding gives at most a row for every one of the values, and one for every list without items.
#[verifier::external_body]
pub(crate) fn inner(s: &Series) -> (r: Series)
    requires
        inner_dtype_of(dtype_of(*s)) matches Some(d) && (is_list_dtype(d) || is_core_dtype(d)),
        keeps_type(*s),
        series_len(*s) < u32::MAX,
        list_values_of(*s) < u32::MAX,
    ensures
        r == inner_of(*s),
        keeps_type(r),
        Some(dtype_of(r)) == inner_dtype_of(dtype_of(*s)),
        series_len(r) <= list_values_of(*s),
        series_len(explode_of(*s)) <= series_len(r) + series_len(*s),
{
    s.list().unwrap().get_inner()
}

/// `UInt32Chunked::from_slice` of one value, turned into a column.
#[verifier::external_body]
pub(crate) fn u32_series(name: &str, value: u32) -> (r: Series)
    ensures
        r == u32_series_of(name@, value),
        series_len(r) == 1,
        n_chunks_of(r) > 0,
        name_of(r) == name@,
        int_type_of(dtype_of(r)) == Some(IntType::UInt32),
        ints_of(r) == Some(seq![Some(value as int)]),
{
    UInt32Chunked::from_slice(name, &[value]).into_series()
}

/// `_split_offsets` of `polars-core`.
#[verifier::external_body]
pub(crate) fn split_offsets(len: usize, n: usize) -> (r: Vec<(usize, usize)>)
    requires
        n > 0,
    ensures
        r@.len() == n,
        forall|i: int|
            0 <= i < n ==> ((#[trigger] r@[i]).0 as int, r@[i].1 as int) == split_part(
                len as int,
                n as int,
                i,
            ),
{
    _split_offsets(len, n)
}

/// `ThreadPool::current_thread_has_pending_tasks`, of the thread pool of polars. Nothing is
/// stated of the answer: it depends on what the other threads do.
#[verifier::external_body]
pub(crate) fn pool_has_pending_tasks() -> (r: Option<bool>) {
    POOL.current_thread_has_pending_tasks()
}

/// `ThreadPool::current_num_threads`, of the thread pool of polars. The number depends on the
/// machine; a pool has at least one thread, and rayon starts no more than `u16::MAX`.
#[verifier::external_body]
pub(crate) fn pool_num_threads() -> (r: usize)
    ensures
        1 <= r <= u16::MAX,
{
    POOL.current_num_threads()
}

/// Runs `f` on every column on the thread pool of polars, with rayon's parallel iterator
/// collected into a `Result`: the answers in the order of the columns, or an error that one of
/// the calls gave. Which error comes out of several is left open by rayon.
#[verifier::external_body]
pub(crate) fn par_map<F, E>(f: &F, parts: Vec<Series>) -> (r: Result<Vec<Series>, E>) where
    F: Fn(Series) -> Result<Series, E> + Send + Sync,
    E: Send,

    requires
        forall|i: int| 0 <= i < parts@.len() ==> call_requires(f, (#[trigger] parts@[i],)),
    ensures
        match r {
            Ok(v) => v@.len() == parts@.len() && forall|i: int|
                0 <= i < v@.len() ==> call_ensures(f, (parts@[i],), Ok(#[trigger] v@[i])),
            Err(e) => exists|i: int|
                0 <= i < parts@.len() && call_ensures(f, (#[trigger] parts@[i],), Err(e)),
        },
{
    POOL.install(|| parts.into_par_iter().map(f).collect())
}

} // verus!
