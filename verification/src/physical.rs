//! Physical expressions: what a logical expression is converted to.
use polars_core::prelude::{
    AnyValue, DataType, Field, PolarsError, QuantileInterpolOptions, Schema, SortOptions,
};
use std::sync::Arc;
use vstd::prelude::*;

use crate::arena::{AAggExpr, ApplyOptions, FunctionExpr, Operator, UserFunction, WindowOptions};
use crate::expr::{Expr, ExprTree};
use crate::names::names_of;
use crate::udf::SeriesFunction;

verus! {

/// How the values of a group are aggregated.
#[derive(Clone, Copy, PartialEq, Eq, Structural, Debug)]
pub enum GroupByMethod {
    Min,
    NanMin,
    Max,
    NanMax,
    Median,
    Mean,
    First,
    Last,
    Sum,
    Groups,
    NUnique,
    Count,
    Implode,
    Std(u8),
    Var(u8),
}

/// The function of a [`PhysicalExpr::Apply`].
#[derive(Clone, Copy, PartialEq, Eq, Structural, Debug)]
pub enum ApplyFunction {
    Anonymous(UserFunction),
    Function(FunctionExpr),
}

/// A physical expression. Most hold, as `expr`, the logical expression that they come from.
#[allow(inconsistent_fields)]
pub enum PhysicalExpr {
    Count,
    Window {
        group_by: Vec<PhysicalExpr>,
        /// The columns that the function reads, in increasing order and each once. A function
        /// that reads none has a single stand-in name here.
        apply_columns: Vec<String>,
        /// The name that the window's answer is given, where the function is renamed.
        out_name: Option<String>,
        /// The function, without its renaming.
        function: Expr,
        phys_function: Box<PhysicalExpr>,
        options: WindowOptions,
        expr: Expr,
    },
    Literal { value: Arc<AnyValue<'static>>, expr: Expr },
    Binary { left: Box<PhysicalExpr>, op: Operator, right: Box<PhysicalExpr>, expr: Expr },
    Column { name: String, expr: Expr, schema: Option<Arc<Schema>> },
    Sort { input: Box<PhysicalExpr>, options: SortOptions, expr: Expr },
    Take { input: Box<PhysicalExpr>, idx: Box<PhysicalExpr>, expr: Expr },
    SortBy {
        input: Box<PhysicalExpr>,
        by: Vec<PhysicalExpr>,
        descending: Arc<Vec<bool>>,
        expr: Expr,
    },
    Filter { input: Box<PhysicalExpr>, by: Box<PhysicalExpr>, expr: Expr },
    Alias { input: Box<PhysicalExpr>, name: String, expr: Expr },
    /// A function of the planner's own, applied with the default settings.
    ApplyMinimal {
        inputs: Vec<PhysicalExpr>,
        function: SeriesFunction,
        expr: Expr,
        collect_groups: ApplyOptions,
    },
    AggQuantile {
        input: Box<PhysicalExpr>,
        quantile: Box<PhysicalExpr>,
        interpol: QuantileInterpolOptions,
    },
    Aggregation { input: Box<PhysicalExpr>, agg_type: GroupByMethod, field: Option<Arc<Field>> },
    Cast { input: Box<PhysicalExpr>, data_type: Arc<DataType>, expr: Expr, strict: bool },
    Ternary {
        predicate: Box<PhysicalExpr>,
        truthy: Box<PhysicalExpr>,
        falsy: Box<PhysicalExpr>,
        expr: Expr,
    },
    Apply {
        inputs: Vec<PhysicalExpr>,
        function: ApplyFunction,
        expr: Expr,
        collect_groups: ApplyOptions,
        auto_explode: bool,
        allow_rename: bool,
        pass_name_to_apply: bool,
        input_schema: Option<Arc<Schema>>,
        allow_threading: bool,
        check_lengths: bool,
        allow_group_aware: bool,
    },
    Slice {
        input: Box<PhysicalExpr>,
        offset: Box<PhysicalExpr>,
        length: Box<PhysicalExpr>,
        expr: Expr,
    },
}

/// The mathematical form of a [`PhysicalExpr`].
#[allow(inconsistent_fields)]
pub enum PlanTree {
    Count,
    Window {
        group_by: Seq<PlanTree>,
        apply_columns: Seq<Seq<char>>,
        out_name: Option<Seq<char>>,
        function: ExprTree,
        phys_function: Box<PlanTree>,
        options: WindowOptions,
        expr: ExprTree,
    },
    Literal { value: Arc<AnyValue<'static>>, expr: ExprTree },
    Binary { left: Box<PlanTree>, op: Operator, right: Box<PlanTree>, expr: ExprTree },
    Column { name: Seq<char>, expr: ExprTree, schema: Option<Arc<Schema>> },
    Sort { input: Box<PlanTree>, options: SortOptions, expr: ExprTree },
    Take { input: Box<PlanTree>, idx: Box<PlanTree>, expr: ExprTree },
    SortBy {
        input: Box<PlanTree>,
        by: Seq<PlanTree>,
        descending: Arc<Vec<bool>>,
        expr: ExprTree,
    },
    Filter { input: Box<PlanTree>, by: Box<PlanTree>, expr: ExprTree },
    Alias { input: Box<PlanTree>, name: Seq<char>, expr: ExprTree },
    ApplyMinimal {
        inputs: Seq<PlanTree>,
        function: SeriesFunction,
        expr: ExprTree,
        collect_groups: ApplyOptions,
    },
    AggQuantile {
        input: Box<PlanTree>,
        quantile: Box<PlanTree>,
        interpol: QuantileInterpolOptions,
    },
    Aggregation { input: Box<PlanTree>, agg_type: GroupByMethod, field: Option<Arc<Field>> },
    Cast { input: Box<PlanTree>, data_type: Arc<DataType>, expr: ExprTree, strict: bool },
    Ternary {
        predicate: Box<PlanTree>,
        truthy: Box<PlanTree>,
        falsy: Box<PlanTree>,
        expr: ExprTree,
    },
    Apply {
        inputs: Seq<PlanTree>,
        function: ApplyFunction,
        expr: ExprTree,
        collect_groups: ApplyOptions,
        auto_explode: bool,
        allow_rename: bool,
        pass_name_to_apply: bool,
        input_schema: Option<Arc<Schema>>,
        allow_threading: bool,
        check_lengths: bool,
        allow_group_aware: bool,
    },
    Slice {
        input: Box<PlanTree>,
        offset: Box<PlanTree>,
        length: Box<PlanTree>,
        expr: ExprTree,
    },
}

/// The mathematical forms of a list of physical expressions.
pub open spec fn plans_of(list: Seq<PhysicalExpr>) -> Seq<PlanTree>
    decreases list,
{
    if list.len() == 0 {
        seq![]
    } else {
        plans_of(list.drop_last()).push(list.last().tree())
    }
}

impl PhysicalExpr {
    /// The mathematical form of the physical expression.
    pub open spec fn tree(self) -> PlanTree
        decreases self,
    {
        match self {
            PhysicalExpr::Count => PlanTree::Count,
            PhysicalExpr::Window {
                group_by,
                apply_columns,
                out_name,
                function,
                phys_function,
                options,
                expr,
            } => PlanTree::Window {
                group_by: plans_of(group_by@),
                apply_columns: names_of(apply_columns@),
                out_name: match out_name {
                    Some(name) => Some(name@),
                    None => None,
                },
                function: function@,
                phys_function: Box::new((*phys_function).tree()),
                options,
                expr: expr@,
            },
            PhysicalExpr::Literal { value, expr } => PlanTree::Literal { value, expr: expr@ },
            PhysicalExpr::Binary { left, op, right, expr } => PlanTree::Binary {
                left: Box::new((*left).tree()),
                op,
                right: Box::new((*right).tree()),
                expr: expr@,
            },
            PhysicalExpr::Column { name, expr, schema } => PlanTree::Column {
                name: name@,
                expr: expr@,
                schema,
            },
            PhysicalExpr::Sort { input, options, expr } => PlanTree::Sort {
                input: Box::new((*input).tree()),
                options,
                expr: expr@,
            },
            PhysicalExpr::Take { input, idx, expr } => PlanTree::Take {
                input: Box::new((*input).tree()),
                idx: Box::new((*idx).tree()),
                expr: expr@,
            },
            PhysicalExpr::SortBy { input, by, descending, expr } => PlanTree::SortBy {
                input: Box::new((*input).tree()),
                by: plans_of(by@),
                descending,
                expr: expr@,
            },
            PhysicalExpr::Filter { input, by, expr } => PlanTree::Filter {
                input: Box::new((*input).tree()),
                by: Box::new((*by).tree()),
                expr: expr@,
            },
            PhysicalExpr::Alias { input, name, expr } => PlanTree::Alias {
                input: Box::new((*input).tree()),
                name: name@,
                expr: expr@,
            },
            PhysicalExpr::ApplyMinimal { inputs, function, expr, collect_groups } => PlanTree::ApplyMinimal {
                inputs: plans_of(inputs@),
                function,
                expr: expr@,
                collect_groups,
            },
            PhysicalExpr::AggQuantile { input, quantile, interpol } => PlanTree::AggQuantile {
                input: Box::new((*input).tree()),
                quantile: Box::new((*quantile).tree()),
                interpol,
            },
            PhysicalExpr::Aggregation { input, agg_type, field } => PlanTree::Aggregation {
                input: Box::new((*input).tree()),
                agg_type,
                field,
            },
            PhysicalExpr::Cast { input, data_type, expr, strict } => PlanTree::Cast {
                input: Box::new((*input).tree()),
                data_type,
                expr: expr@,
                strict,
            },
            PhysicalExpr::Ternary { predicate, truthy, falsy, expr } => PlanTree::Ternary {
                predicate: Box::new((*predicate).tree()),
                truthy: Box::new((*truthy).tree()),
                falsy: Box::new((*falsy).tree()),
                expr: expr@,
            },
            PhysicalExpr::Apply {
                inputs,
                function,
                expr,
                collect_groups,
                auto_explode,
                allow_rename,
                pass_name_to_apply,
                input_schema,
                allow_threading,
                check_lengths,
                allow_group_aware,
            } => PlanTree::Apply {
                inputs: plans_of(inputs@),
                function,
                expr: expr@,
                collect_groups,
                auto_explode,
                allow_rename,
                pass_name_to_apply,
                input_schema,
                allow_threading,
                check_lengths,
                allow_group_aware,
            },
            PhysicalExpr::Slice { input, offset, length, expr } => PlanTree::Slice {
                input: Box::new((*input).tree()),
                offset: Box::new((*offset).tree()),
                length: Box::new((*length).tree()),
                expr: expr@,
            },
        }
    }
}

impl View for PhysicalExpr {
    type V = PlanTree;

    open spec fn view(&self) -> PlanTree {
        self.tree()
    }
}

/// The forms of a list are those of its items, in order.
pub proof fn lists_are_viewed_item_by_item(list: Seq<PhysicalExpr>)
    ensures
        plans_of(list).len() == list.len(),
        forall|i: int| 0 <= i < list.len() ==> #[trigger] plans_of(list)[i] == list[i]@,
    decreases list.len(),
{
    if list.len() > 0 {
        lists_are_viewed_item_by_item(list.drop_last());
    }
}

impl AAggExpr {
    /// How the aggregation treats a group, unless it is a quantile.
    pub open spec fn method(self) -> Option<GroupByMethod> {
        match self {
            AAggExpr::Min { propagate_nans, .. } => Some(
                if propagate_nans {
                    GroupByMethod::NanMin
                } else {
                    GroupByMethod::Min
                },
            ),
            AAggExpr::Max { propagate_nans, .. } => Some(
                if propagate_nans {
                    GroupByMethod::NanMax
                } else {
                    GroupByMethod::Max
                },
            ),
            AAggExpr::Median(_) => Some(GroupByMethod::Median),
            AAggExpr::NUnique(_) => Some(GroupByMethod::NUnique),
            AAggExpr::First(_) => Some(GroupByMethod::First),
            AAggExpr::Last(_) => Some(GroupByMethod::Last),
            AAggExpr::Mean(_) => Some(GroupByMethod::Mean),
            AAggExpr::Implode(_) => Some(GroupByMethod::Implode),
            AAggExpr::Quantile { .. } => None,
            AAggExpr::Sum(_) => Some(GroupByMethod::Sum),
            AAggExpr::Count(_) => Some(GroupByMethod::Count),
            AAggExpr::Std(_, ddof) => Some(GroupByMethod::Std(ddof)),
            AAggExpr::Var(_, ddof) => Some(GroupByMethod::Var(ddof)),
            AAggExpr::AggGroups(_) => Some(GroupByMethod::Groups),
        }
    }

    /// How the aggregation treats a group, unless it is a quantile.
    pub fn get_method(&self) -> (r: Option<GroupByMethod>)
        ensures
            r == self.method(),
    {
        match *self {
            AAggExpr::Min { propagate_nans, .. } => Some(
                if propagate_nans {
                    GroupByMethod::NanMin
                } else {
                    GroupByMethod::Min
                },
            ),
            AAggExpr::Max { propagate_nans, .. } => Some(
                if propagate_nans {
                    GroupByMethod::NanMax
                } else {
                    GroupByMethod::Max
                },
            ),
            AAggExpr::Median(_) => Some(GroupByMethod::Median),
            AAggExpr::NUnique(_) => Some(GroupByMethod::NUnique),
            AAggExpr::First(_) => Some(GroupByMethod::First),
            AAggExpr::Last(_) => Some(GroupByMethod::Last),
            AAggExpr::Mean(_) => Some(GroupByMethod::Mean),
            AAggExpr::Implode(_) => Some(GroupByMethod::Implode),
            AAggExpr::Quantile { .. } => None,
            AAggExpr::Sum(_) => Some(GroupByMethod::Sum),
            AAggExpr::Count(_) => Some(GroupByMethod::Count),
            AAggExpr::Std(_, ddof) => Some(GroupByMethod::Std(ddof)),
            AAggExpr::Var(_, ddof) => Some(GroupByMethod::Var(ddof)),
            AAggExpr::AggGroups(_) => Some(GroupByMethod::Groups),
        }
    }
}

/// Why an expression has no plan.
pub enum PlanError {
    /// A `sort_by` has nothing to sort by.
    EmptySortBy,
    /// In a group-by, an aggregation reads what an `implode` gave.
    ImplodeThenAggregation,
    /// In a group-by, a slice reads what an `implode` gave.
    ImplodeThenSlice,
    /// The function of a window reads no column, and holds no literal or count either.
    NoRootColumn(Expr),
    /// The type of an aggregation could not be found.
    Field(Arc<PolarsError>),
}

/// The mathematical form of a [`PlanError`].
#[allow(inconsistent_fields)]
pub enum ErrorTree {
    EmptySortBy,
    ImplodeThenAggregation,
    ImplodeThenSlice,
    NoRootColumn(ExprTree),
    Field(Arc<PolarsError>),
}

impl View for PlanError {
    type V = ErrorTree;

    open spec fn view(&self) -> ErrorTree {
        match *self {
            PlanError::EmptySortBy => ErrorTree::EmptySortBy,
            PlanError::ImplodeThenAggregation => ErrorTree::ImplodeThenAggregation,
            PlanError::ImplodeThenSlice => ErrorTree::ImplodeThenSlice,
            PlanError::NoRootColumn(e) => ErrorTree::NoRootColumn(e@),
            PlanError::Field(e) => ErrorTree::Field(e),
        }
    }
}

/// The class of an error.
#[derive(Clone, Copy, PartialEq, Eq, Structural, Debug)]
pub enum ErrorKind {
    InvalidOperation,
    ComputeError,
}

impl PlanError {
    /// The class of the error, unless it is one of polars, which has its own.
    pub open spec fn class(self) -> Option<ErrorKind> {
        match self {
            PlanError::EmptySortBy => Some(ErrorKind::InvalidOperation),
            PlanError::ImplodeThenAggregation => Some(ErrorKind::InvalidOperation),
            PlanError::ImplodeThenSlice => Some(ErrorKind::InvalidOperation),
            PlanError::NoRootColumn(_) => Some(ErrorKind::ComputeError),
            PlanError::Field(_) => None,
        }
    }

    /// What the error says, unless it is one of polars, which has its own text. The expression
    /// that a missing root column is reported for follows the text.
    pub open spec fn text(self) -> Option<Seq<char>> {
        match self {
            PlanError::EmptySortBy => Some("'sort_by' got an empty set"@),
            PlanError::ImplodeThenAggregation => Some(
                "'implode' followed by an aggregation is not allowed"@,
            ),
            PlanError::ImplodeThenSlice => Some(
                "'implode' followed by a slice during aggregation is not allowed"@,
            ),
            PlanError::NoRootColumn(_) => Some(
                "cannot apply a window function, did not find a root column; this is likely due to a syntax error in this expression: "@,
            ),
            PlanError::Field(_) => None,
        }
    }

    /// The class of the error, unless it is one of polars, which has its own.
    pub fn kind(&self) -> (r: Option<ErrorKind>)
        ensures
            r == self.class(),
    {
        match self {
            PlanError::EmptySortBy => Some(ErrorKind::InvalidOperation),
            PlanError::ImplodeThenAggregation => Some(ErrorKind::InvalidOperation),
            PlanError::ImplodeThenSlice => Some(ErrorKind::InvalidOperation),
            PlanError::NoRootColumn(_) => Some(ErrorKind::ComputeError),
            PlanError::Field(_) => None,
        }
    }

    /// What the error says, unless it is one of polars, which has its own text. The expression
    /// that a missing root column is reported for follows the text.
    pub fn message(&self) -> (r: Option<&'static str>)
        ensures
            match r {
                Some(text) => self.text() == Some(text@),
                None => self.text() is None,
            },
    {
        match self {
            PlanError::EmptySortBy => Some("'sort_by' got an empty set"),
            PlanError::ImplodeThenAggregation => Some(
                "'implode' followed by an aggregation is not allowed",
            ),
            PlanError::ImplodeThenSlice => Some(
                "'implode' followed by a slice during aggregation is not allowed",
            ),
            PlanError::NoRootColumn(_) => Some(
                "cannot apply a window function, did not find a root column; this is likely due to a syntax error in this expression: ",
            ),
            PlanError::Field(_) => None,
        }
    }
}

/// The class and the text of every error of the planner's own: a forbidden use of an expression is
/// an invalid operation, and a window without a column an error of computation. The errors of
/// polars keep theirs.
pub proof fn errors_say_what_is_wrong(e: PlanError)
    ensures
        e is EmptySortBy ==> e.class() == Some(ErrorKind::InvalidOperation) && e.text() == Some(
            "'sort_by' got an empty set"@,
        ),
        e is ImplodeThenAggregation ==> e.class() == Some(ErrorKind::InvalidOperation) && e.text()
            == Some("'implode' followed by an aggregation is not allowed"@),
        e is ImplodeThenSlice ==> e.class() == Some(ErrorKind::InvalidOperation) && e.text() == Some(
            "'implode' followed by a slice during aggregation is not allowed"@,
        ),
        e is NoRootColumn ==> e.class() == Some(ErrorKind::ComputeError) && e.text() == Some(
            "cannot apply a window function, did not find a root column; this is likely due to a syntax error in this expression: "@,
        ),
        e is Field ==> e.class() is None && e.text() is None,
{
}

} // verus!
