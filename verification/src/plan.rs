//! What plan a logical expression has, stated as a function of the expression, the context, the
//! schema and the state of the conversion.
use polars_core::prelude::{Field, PolarsError, Schema};
use std::sync::Arc;
use vstd::prelude::*;

use crate::arena::{
    are_exprs, depth, is_expr, lemma_inputs, lemma_max_depth, max_depth, AAggExpr, AExpr,
    ApplyOptions, Context, FunctionOptions, Node,
};
use crate::expr::{holds, leaf_columns, tree, ExprTree, LeafKind};
use crate::physical::{ApplyFunction, ErrorTree, PlanError, PlanTree};
use crate::state::ExpressionConversionState;
use crate::udf::SeriesFunction;

verus! {

/// The name and type of an aggregation's answer, or the error met on the way to it.
pub enum FieldOutcome {
    Resolved(Arc<Field>),
    Failed(Arc<PolarsError>),
}

/// The schema of a frame, with what it says of the expressions of an arena.
pub struct PlanSchema {
    pub schema: Arc<Schema>,
    /// For the expressions of the arena, by their number, the field that they have in a group-by.
    /// Only aggregations that are converted for a group-by are asked for theirs.
    pub fields: Vec<Option<FieldOutcome>>,
}

/// The field of an aggregation, if there is a schema to look it up in. A schema may not know it.
pub open spec fn field_of(schema: Option<&PlanSchema>, node: Node) -> Option<
    Result<Option<Arc<Field>>, Arc<PolarsError>>,
> {
    match schema {
        Some(s) => if node.0 < s.fields@.len() {
            match s.fields@[node.0 as int] {
                Some(FieldOutcome::Resolved(field)) => Some(Ok(Some(field))),
                Some(FieldOutcome::Failed(e)) => Some(Err(e)),
                None => None,
            }
        } else {
            None
        },
        None => Some(Ok(None)),
    }
}

/// The schema as a physical expression keeps it.
pub open spec fn kept_schema(schema: Option<&PlanSchema>) -> Option<Arc<Schema>> {
    match schema {
        Some(s) => Some(s.schema),
        None => None,
    }
}

/// What comes of the conversion of an expression.
pub enum Outcome<T> {
    /// A plan.
    Done(T),
    /// An error.
    Refused(ErrorTree),
    /// The planner cannot tell. The expression is none that may reach it, as a wildcard, which has
    /// to be expanded before; or the schema does not know a field that is asked for.
    Unplannable,
}

/// What comes of a conversion, and the state that it leaves.
pub struct Planned<T> {
    pub outcome: Outcome<T>,
    pub state: ExpressionConversionState,
}

/// The conversion ends with a plan.
pub open spec fn done<T>(plan: T, state: ExpressionConversionState) -> Planned<T> {
    Planned { outcome: Outcome::Done(plan), state }
}

/// The conversion ends with an error.
pub open spec fn refused<T>(e: ErrorTree, state: ExpressionConversionState) -> Planned<T> {
    Planned { outcome: Outcome::Refused(e), state }
}

impl<T> Planned<T> {
    /// The conversion with its plan, if there is one, put into a larger one.
    pub open spec fn build<U>(self, f: spec_fn(T) -> U) -> Planned<U> {
        Planned {
            outcome: match self.outcome {
                Outcome::Done(t) => Outcome::Done(f(t)),
                Outcome::Refused(e) => Outcome::Refused(e),
                Outcome::Unplannable => Outcome::Unplannable,
            },
            state: self.state,
        }
    }
}

/// A check of the state that the conversion of an expression leaves.
pub trait StateCheck {
    /// The error that the check raises, if any.
    spec fn verdict(&self, state: ExpressionConversionState) -> Option<ErrorTree>;

    /// Checks the state.
    fn check(&self, state: &ExpressionConversionState) -> (r: Result<(), PlanError>)
        ensures
            match r {
                Ok(_) => self.verdict(*state) is None,
                Err(e) => self.verdict(*state) == Some(e@),
            },
    ;
}

/// The check that every state passes.
#[derive(Clone, Copy, PartialEq, Eq, Structural, Debug)]
pub struct AcceptAll;

/// The check on the inputs of a function: where `active`, none of them may hold an implode.
#[derive(Clone, Copy, PartialEq, Eq, Structural, Debug)]
pub struct RejectImplode {
    pub active: bool,
}

impl StateCheck for AcceptAll {
    open spec fn verdict(&self, state: ExpressionConversionState) -> Option<ErrorTree> {
        None
    }

    fn check(&self, state: &ExpressionConversionState) -> Result<(), PlanError> {
        Ok(())
    }
}

impl StateCheck for RejectImplode {
    open spec fn verdict(&self, state: ExpressionConversionState) -> Option<ErrorTree> {
        if self.active && state.local.has_implode {
            Some(ErrorTree::ImplodeThenAggregation)
        } else {
            None
        }
    }

    fn check(&self, state: &ExpressionConversionState) -> Result<(), PlanError> {
        if self.active && state.has_implode() {
            Err(PlanError::ImplodeThenAggregation)
        } else {
            Ok(())
        }
    }
}

/// Whether a function of these options makes one row of a group.
pub open spec fn is_reducing(options: FunctionOptions) -> bool {
    options.auto_explode && options.collect_groups is ApplyGroups
}

/// The check on the inputs of a function: in a group-by, neither a reducing function nor one in a
/// window may read what an implode gave.
pub open spec fn input_check(
    options: FunctionOptions,
    ctxt: Context,
    state: ExpressionConversionState,
) -> RejectImplode {
    RejectImplode {
        active: (is_reducing(options) || state.local.has_window) && ctxt is Aggregation,
    }
}

/// The plan of a function whose inputs have plans.
pub open spec fn apply_plan(
    inputs: Seq<PlanTree>,
    function: ApplyFunction,
    options: FunctionOptions,
    expr: ExprTree,
    schema: Option<&PlanSchema>,
    state: ExpressionConversionState,
) -> PlanTree {
    PlanTree::Apply {
        inputs,
        function,
        expr,
        collect_groups: options.collect_groups,
        auto_explode: options.auto_explode,
        allow_rename: options.allow_rename,
        pass_name_to_apply: options.pass_name_to_apply,
        input_schema: kept_schema(schema),
        allow_threading: !state.has_cache,
        check_lengths: options.check_lengths,
        allow_group_aware: options.allow_group_aware,
    }
}

impl AAggExpr {
    /// The function on columns that computes the aggregation, where there is one. Those that can
    /// split their work over threads go by the state of the conversion.
    pub open spec fn function(self, state: ExpressionConversionState) -> Option<SeriesFunction> {
        match self {
            AAggExpr::Min { propagate_nans, .. } => Some(
                SeriesFunction::Min { propagate_nans, state },
            ),
            AAggExpr::Max { propagate_nans, .. } => Some(
                SeriesFunction::Max { propagate_nans, state },
            ),
            AAggExpr::Median(_) => Some(SeriesFunction::Median),
            AAggExpr::NUnique(_) => Some(SeriesFunction::NUnique),
            AAggExpr::First(_) => Some(SeriesFunction::First),
            AAggExpr::Last(_) => Some(SeriesFunction::Last),
            AAggExpr::Mean(_) => Some(SeriesFunction::Mean),
            AAggExpr::Implode(_) => Some(SeriesFunction::Implode),
            AAggExpr::Quantile { .. } => None,
            AAggExpr::Sum(_) => Some(SeriesFunction::Sum { state }),
            AAggExpr::Count(_) => Some(SeriesFunction::Count),
            AAggExpr::Std(_, ddof) => Some(SeriesFunction::Std(ddof)),
            AAggExpr::Var(_, ddof) => Some(SeriesFunction::Var(ddof)),
            AAggExpr::AggGroups(_) => None,
        }
    }

    /// The function on columns that computes the aggregation, where there is one.
    pub fn get_function(&self, state: ExpressionConversionState) -> (r: Option<SeriesFunction>)
        ensures
            r == self.function(state),
    {
        match *self {
            AAggExpr::Min { propagate_nans, .. } => Some(
                SeriesFunction::Min { propagate_nans, state },
            ),
            AAggExpr::Max { propagate_nans, .. } => Some(
                SeriesFunction::Max { propagate_nans, state },
            ),
            AAggExpr::Median(_) => Some(SeriesFunction::Median),
            AAggExpr::NUnique(_) => Some(SeriesFunction::NUnique),
            AAggExpr::First(_) => Some(SeriesFunction::First),
            AAggExpr::Last(_) => Some(SeriesFunction::Last),
            AAggExpr::Mean(_) => Some(SeriesFunction::Mean),
            AAggExpr::Implode(_) => Some(SeriesFunction::Implode),
            AAggExpr::Quantile { .. } => None,
            AAggExpr::Sum(_) => Some(SeriesFunction::Sum { state }),
            AAggExpr::Count(_) => Some(SeriesFunction::Count),
            AAggExpr::Std(_, ddof) => Some(SeriesFunction::Std(ddof)),
            AAggExpr::Var(_, ddof) => Some(SeriesFunction::Var(ddof)),
            AAggExpr::AggGroups(_) => None,
        }
    }
}

/// The plan of an aggregation, other than a quantile, whose input has one.
pub open spec fn plan_agg(
    arena: Seq<AExpr>,
    schema: Option<&PlanSchema>,
    node: Node,
    agg: AAggExpr,
    input: PlanTree,
    ctxt: Context,
    state: ExpressionConversionState,
) -> Planned<PlanTree> {
    match ctxt {
        Context::Default => match agg.function(state) {
            Some(function) => done(
                PlanTree::ApplyMinimal {
                    inputs: seq![input],
                    function,
                    expr: tree(arena, node),
                    collect_groups: ApplyOptions::ApplyFlat,
                },
                state,
            ),
            None => Planned { outcome: Outcome::Unplannable, state },
        },
        Context::Aggregation => match field_of(schema, node) {
            Some(Ok(field)) => done(
                PlanTree::Aggregation {
                    input: Box::new(input),
                    agg_type: agg.method()->0,
                    field,
                },
                state,
            ),
            Some(Err(e)) => refused(ErrorTree::Field(e), state),
            None => Planned { outcome: Outcome::Unplannable, state },
        },
    }
}

/// The columns that a window hands to its function: those that the function reads, or the stand-in
/// for a function of literals or counts alone. Another function has none.
pub open spec fn apply_columns(function: ExprTree) -> Option<Seq<Seq<char>>> {
    if leaf_columns(function).len() > 0 {
        Some(leaf_columns(function))
    } else if holds(function, LeafKind::Literal) {
        Some(seq!["literal"@])
    } else if holds(function, LeafKind::Count) {
        Some(seq!["count"@])
    } else {
        None
    }
}

/// A window's function without its renaming, and the name that it is given.
pub open spec fn renamed(arena: Seq<AExpr>, function: Node) -> (Node, Option<Seq<char>>) {
    match arena[function.0 as int] {
        AExpr::Alias(expr, name) => (expr, Some(name@)),
        _ => (function, None),
    }
}

/// The plan of the window at `node`, whose partitions and function have plans.
pub open spec fn plan_window(
    arena: Seq<AExpr>,
    node: Node,
    group_by: Seq<PlanTree>,
    phys_function: PlanTree,
    state: ExpressionConversionState,
) -> Planned<PlanTree> {
    let window = arena[node.0 as int];
    let function = window->Window_function;
    if holds(tree(arena, function), LeafKind::Wildcard) {
        Planned { outcome: Outcome::Unplannable, state }
    } else {
        match apply_columns(tree(arena, function)) {
            Some(apply_columns) => done(
                PlanTree::Window {
                    group_by,
                    apply_columns,
                    out_name: renamed(arena, function).1,
                    function: tree(arena, renamed(arena, function).0),
                    phys_function: Box::new(phys_function),
                    options: window->Window_options,
                    expr: tree(arena, node),
                },
                state,
            ),
            None => refused(ErrorTree::NoRootColumn(tree(arena, function)), state),
        }
    }
}

/// The conversion of the expression at `node`.
pub open spec fn plan(
    arena: Seq<AExpr>,
    schema: Option<&PlanSchema>,
    node: Node,
    ctxt: Context,
    state: ExpressionConversionState,
) -> Planned<PlanTree>
    decreases depth(arena, node), 0nat,
    when is_expr(arena, node)
    via plan_terminates
{
    let expr = tree(arena, node);
    match arena[node.0 as int] {
        AExpr::Count => done(PlanTree::Count, state),
        AExpr::Window { function, partition_by, .. } => {
            let groups = plan_all(
                arena,
                schema,
                partition_by@,
                Context::Default,
                AcceptAll,
                state.after_window(),
            );
            match groups.outcome {
                Outcome::Done(group_by) => {
                    // The partitions reset the state, so the window is noted again.
                    let f = plan(
                        arena,
                        schema,
                        function,
                        Context::Aggregation,
                        groups.state.after_window(),
                    );
                    match f.outcome {
                        Outcome::Done(phys_function) => plan_window(
                            arena,
                            node,
                            group_by,
                            phys_function,
                            f.state,
                        ),
                        _ => f,
                    }
                },
                Outcome::Refused(e) => refused(e, groups.state),
                Outcome::Unplannable => Planned {
                    outcome: Outcome::Unplannable,
                    state: groups.state,
                },
            }
        },
        AExpr::Literal(value) => done(PlanTree::Literal { value, expr }, state),
        AExpr::BinaryExpr { left, op, right } => plan_each(
            arena,
            schema,
            seq![left, right],
            ctxt,
            state,
        ).build(
            |p: Seq<PlanTree>|
                PlanTree::Binary { left: Box::new(p[0]), op, right: Box::new(p[1]), expr },
        ),
        AExpr::Column(name) => done(
            PlanTree::Column { name: name@, expr, schema: kept_schema(schema) },
            state,
        ),
        AExpr::Sort { expr: input, options } => plan(arena, schema, input, ctxt, state).build(
            |p: PlanTree| PlanTree::Sort { input: Box::new(p), options, expr },
        ),
        AExpr::Take { expr: input, idx } => plan_each(
            arena,
            schema,
            seq![input, idx],
            ctxt,
            state,
        ).build(
            |p: Seq<PlanTree>|
                PlanTree::Take { input: Box::new(p[0]), idx: Box::new(p[1]), expr },
        ),
        AExpr::SortBy { expr: input, by, descending } => if by@.len() == 0 {
            refused(ErrorTree::EmptySortBy, state)
        } else {
            let p = plan(arena, schema, input, ctxt, state);
            match p.outcome {
                Outcome::Done(input) => plan_all(
                    arena,
                    schema,
                    by@,
                    ctxt,
                    AcceptAll,
                    p.state,
                ).build(
                    |by: Seq<PlanTree>|
                        PlanTree::SortBy { input: Box::new(input), by, descending, expr },
                ),
                _ => p,
            }
        },
        AExpr::Filter { input, by } => plan_each(
            arena,
            schema,
            seq![input, by],
            ctxt,
            state,
        ).build(
            |p: Seq<PlanTree>|
                PlanTree::Filter { input: Box::new(p[0]), by: Box::new(p[1]), expr },
        ),
        AExpr::Alias(input, name) => plan(arena, schema, input, ctxt, state).build(
            |p: PlanTree| PlanTree::Alias { input: Box::new(p), name: name@, expr },
        ),
        AExpr::Agg(agg) => {
            let p = plan(arena, schema, agg.inputs()[0], ctxt, state);
            match p.outcome {
                Outcome::Done(input) => if p.state.local.has_implode && ctxt is Aggregation {
                    refused(ErrorTree::ImplodeThenAggregation, p.state)
                } else {
                    let noted = p.state.after_agg(agg is Implode);
                    match agg {
                        AAggExpr::Quantile { expr: input, quantile, interpol } => plan_each(
                            arena,
                            schema,
                            seq![input, quantile],
                            ctxt,
                            noted,
                        ).build(
                            |p: Seq<PlanTree>|
                                PlanTree::AggQuantile {
                                    input: Box::new(p[0]),
                                    quantile: Box::new(p[1]),
                                    interpol,
                                },
                        ),
                        _ => plan_agg(arena, schema, node, agg, input, ctxt, noted),
                    }
                },
                _ => p,
            }
        },
        AExpr::Cast { expr: input, data_type, strict } => plan(
            arena,
            schema,
            input,
            ctxt,
            state,
        ).build(|p: PlanTree| PlanTree::Cast { input: Box::new(p), data_type, expr, strict }),
        AExpr::Ternary { predicate, truthy, falsy } => plan_each(
            arena,
            schema,
            seq![predicate, truthy, falsy],
            ctxt,
            state,
        ).build(
            |p: Seq<PlanTree>|
                PlanTree::Ternary {
                    predicate: Box::new(p[0]),
                    truthy: Box::new(p[1]),
                    falsy: Box::new(p[2]),
                    expr,
                },
        ),
        AExpr::AnonymousFunction { input, function, options, .. } => {
            let p = plan_all(
                arena,
                schema,
                input@,
                ctxt,
                input_check(options, ctxt, state),
                state,
            );
            p.build(
                |inputs: Seq<PlanTree>|
                    apply_plan(
                        inputs,
                        ApplyFunction::Anonymous(function),
                        options,
                        expr,
                        schema,
                        p.state,
                    ),
            )
        },
        AExpr::Function { input, function, options } => {
            let p = plan_all(
                arena,
                schema,
                input@,
                ctxt,
                input_check(options, ctxt, state),
                state,
            );
            p.build(
                |inputs: Seq<PlanTree>|
                    apply_plan(
                        inputs,
                        ApplyFunction::Function(function),
                        options,
                        expr,
                        schema,
                        p.state,
                    ),
            )
        },
        AExpr::Slice { input, offset, length } => {
            let p = plan_each(arena, schema, seq![input, offset, length], ctxt, state);
            if p.outcome is Done && p.state.local.has_implode && ctxt is Aggregation {
                refused(ErrorTree::ImplodeThenSlice, p.state)
            } else {
                p.build(
                    |p: Seq<PlanTree>|
                        PlanTree::Slice {
                            input: Box::new(p[0]),
                            offset: Box::new(p[1]),
                            length: Box::new(p[2]),
                            expr,
                        },
                )
            }
        },
        AExpr::Explode(input) => plan(arena, schema, input, ctxt, state).build(
            |p: PlanTree|
                PlanTree::ApplyMinimal {
                    inputs: seq![p],
                    function: SeriesFunction::Explode,
                    expr,
                    collect_groups: ApplyOptions::ApplyGroups,
                },
        ),
        AExpr::Wildcard => Planned { outcome: Outcome::Unplannable, state },
        AExpr::Nth(_) => Planned { outcome: Outcome::Unplannable, state },
    }
}

/// The conversion of the inputs of one expression, one after the other: each starts in the state
/// that the one before it leaves, and the first that has no plan ends the conversion.
pub open spec fn plan_each(
    arena: Seq<AExpr>,
    schema: Option<&PlanSchema>,
    nodes: Seq<Node>,
    ctxt: Context,
    state: ExpressionConversionState,
) -> Planned<Seq<PlanTree>>
    decreases max_depth(arena, nodes), nodes.len(),
    when are_exprs(arena, nodes)
    via plan_each_terminates
{
    if nodes.len() == 0 {
        done(seq![], state)
    } else {
        let rest = plan_each(arena, schema, nodes.drop_last(), ctxt, state);
        match rest.outcome {
            Outcome::Done(plans) => plan(arena, schema, nodes.last(), ctxt, rest.state).build(
                |p: PlanTree| plans.push(p),
            ),
            _ => rest,
        }
    }
}

/// The conversion of a list of expressions: before each the settings of the current expression
/// are forgotten, after each the state is checked, and the first that has no plan, or whose state
/// does not pass, ends the conversion. Of an expression that has no plan and whose state does not
/// pass, the check's error is reported.
pub open spec fn plan_all<C: StateCheck>(
    arena: Seq<AExpr>,
    schema: Option<&PlanSchema>,
    nodes: Seq<Node>,
    ctxt: Context,
    check: C,
    state: ExpressionConversionState,
) -> Planned<Seq<PlanTree>>
    decreases max_depth(arena, nodes), nodes.len(),
    when are_exprs(arena, nodes)
    via plan_all_terminates::<C>
{
    if nodes.len() == 0 {
        done(seq![], state)
    } else {
        let rest = plan_all(arena, schema, nodes.drop_last(), ctxt, check, state);
        match rest.outcome {
            Outcome::Done(plans) => {
                let p = plan(arena, schema, nodes.last(), ctxt, rest.state.after_reset());
                match check.verdict(p.state) {
                    Some(e) if !(p.outcome is Unplannable) => refused(e, p.state),
                    _ => p.build(|p: PlanTree| plans.push(p)),
                }
            },
            _ => rest,
        }
    }
}

/// The inputs of an expression are expressions, and less deep than it is.
pub open spec fn are_inputs(arena: Seq<AExpr>, node: Node, nodes: Seq<Node>) -> bool {
    &&& are_exprs(arena, nodes)
    &&& max_depth(arena, nodes) < depth(arena, node)
    &&& forall|i: int| 0 <= i < nodes.len() ==> depth(arena, #[trigger] nodes[i]) < depth(arena, node)
}

proof fn lemma_sublist(arena: Seq<AExpr>, node: Node, inputs: Seq<Node>, offset: int, len: int)
    requires
        are_inputs(arena, node, inputs),
        0 <= offset,
        0 <= len,
        offset + len <= inputs.len(),
        depth(arena, node) > 0,
    ensures
        are_inputs(arena, node, inputs.subrange(offset, offset + len)),
{
    let list = inputs.subrange(offset, offset + len);
    assert forall|i: int| 0 <= i < list.len() implies is_expr(arena, #[trigger] list[i]) && depth(
        arena,
        list[i],
    ) < depth(arena, node) by {
        assert(list[i] == inputs[offset + i]);
    }
    lemma_max_depth(arena, list, depth(arena, node));
}

/// What an expression refers to is less deep than it is.
pub proof fn lemma_plan_inputs(arena: Seq<AExpr>, node: Node)
    requires
        is_expr(arena, node),
    ensures
        node.0 < arena.len(),
        are_inputs(arena, node, arena[node.0 as int].inputs()),
        match arena[node.0 as int] {
            AExpr::SortBy { expr, by, .. } => is_expr(arena, expr) && depth(arena, expr) < depth(
                arena,
                node,
            ) && are_inputs(arena, node, by@),
            AExpr::Window { function, partition_by, .. } => is_expr(arena, function) && depth(
                arena,
                function,
            ) < depth(arena, node) && are_inputs(arena, node, partition_by@),
            _ => arena[node.0 as int].inputs().len() > 0 ==> {
                let input = arena[node.0 as int].inputs()[0];
                is_expr(arena, input) && depth(arena, input) < depth(arena, node)
            },
        },
{
    lemma_inputs(arena, node);
    let inputs = arena[node.0 as int].inputs();
    lemma_max_depth(arena, inputs, depth(arena, node));
    match arena[node.0 as int] {
        AExpr::SortBy { expr, by, .. } => {
            assert(inputs[0] == expr);
            assert(inputs.subrange(1, 1 + by@.len() as int) =~= by@);
            lemma_sublist(arena, node, inputs, 1, by@.len() as int);
        },
        AExpr::Window { function, partition_by, .. } => {
            assert(inputs[0] == function);
            assert(inputs.subrange(1, 1 + partition_by@.len() as int) =~= partition_by@);
            lemma_sublist(arena, node, inputs, 1, partition_by@.len() as int);
        },
        _ => {},
    }
}

#[via_fn]
proof fn plan_terminates(
    arena: Seq<AExpr>,
    schema: Option<&PlanSchema>,
    node: Node,
    ctxt: Context,
    state: ExpressionConversionState,
) {
    lemma_plan_inputs(arena, node);
    let inputs = arena[node.0 as int].inputs();
    if inputs.len() > 0 {
        assert(depth(arena, inputs[0]) < depth(arena, node));
    }
}

/// What a list of expressions ends with, and what stands before that.
pub proof fn lemma_list_ends(arena: Seq<AExpr>, nodes: Seq<Node>)
    requires
        are_exprs(arena, nodes),
        nodes.len() > 0,
    ensures
        are_exprs(arena, nodes.drop_last()),
        is_expr(arena, nodes.last()),
        max_depth(arena, nodes.drop_last()) <= max_depth(arena, nodes),
        depth(arena, nodes.last()) <= max_depth(arena, nodes),
{
    assert forall|i: int| 0 <= i < nodes.drop_last().len() implies is_expr(
        arena,
        #[trigger] nodes.drop_last()[i],
    ) by {
        assert(nodes.drop_last()[i] == nodes[i]);
    }
}

#[via_fn]
proof fn plan_each_terminates(
    arena: Seq<AExpr>,
    schema: Option<&PlanSchema>,
    nodes: Seq<Node>,
    ctxt: Context,
    state: ExpressionConversionState,
) {
    if nodes.len() > 0 {
        lemma_list_ends(arena, nodes);
    }
}

#[via_fn]
proof fn plan_all_terminates<C: StateCheck>(
    arena: Seq<AExpr>,
    schema: Option<&PlanSchema>,
    nodes: Seq<Node>,
    ctxt: Context,
    check: C,
    state: ExpressionConversionState,
) {
    if nodes.len() > 0 {
        lemma_list_ends(arena, nodes);
    }
}

/// The conversion of one input alone.
pub proof fn lemma_plan_one(
    arena: Seq<AExpr>,
    schema: Option<&PlanSchema>,
    a: Node,
    ctxt: Context,
    state: ExpressionConversionState,
)
    requires
        is_expr(arena, a),
    ensures
        are_exprs(arena, seq![a]),
        plan_each(arena, schema, seq![a], ctxt, state) == plan(arena, schema, a, ctxt, state).build(
            |p: PlanTree| seq![p],
        ),
{
    assert(seq![a].drop_last() =~= seq![]);
    assert(are_exprs(arena, seq![a]));
    assert(are_exprs(arena, Seq::<Node>::empty()));
    let p = plan(arena, schema, a, ctxt, state);
    let rest = plan_each(arena, schema, seq![], ctxt, state);
    assert(rest == done(Seq::<PlanTree>::empty(), state));
    assert(plan_each(arena, schema, seq![a], ctxt, state) == p.build(
        |p: PlanTree| rest.outcome->Done_0.push(p),
    ));
    if p.outcome is Done {
        assert(rest.outcome->Done_0.push(p.outcome->Done_0) =~= seq![p.outcome->Done_0]);
    }
}

/// The conversion of one more input.
pub proof fn lemma_plan_more(
    arena: Seq<AExpr>,
    schema: Option<&PlanSchema>,
    nodes: Seq<Node>,
    b: Node,
    ctxt: Context,
    state: ExpressionConversionState,
)
    requires
        are_exprs(arena, nodes),
        is_expr(arena, b),
    ensures
        are_exprs(arena, nodes.push(b)),
        plan_each(arena, schema, nodes.push(b), ctxt, state) == {
            let rest = plan_each(arena, schema, nodes, ctxt, state);
            match rest.outcome {
                Outcome::Done(plans) => plan(arena, schema, b, ctxt, rest.state).build(
                    |p: PlanTree| plans.push(p),
                ),
                _ => rest,
            }
        },
{
    let all = nodes.push(b);
    assert forall|i: int| 0 <= i < all.len() implies is_expr(arena, #[trigger] all[i]) by {
        if i < nodes.len() {
            assert(all[i] == nodes[i]);
        }
    }
    assert(all.drop_last() =~= nodes);
}

/// A prefix of a list that has no plan decides on the whole list.
pub proof fn lemma_list_prefix<C: StateCheck>(
    arena: Seq<AExpr>,
    schema: Option<&PlanSchema>,
    nodes: Seq<Node>,
    ctxt: Context,
    check: C,
    state: ExpressionConversionState,
    k: int,
)
    requires
        are_exprs(arena, nodes),
        0 <= k <= nodes.len(),
    ensures
        !(plan_all(arena, schema, nodes.take(k), ctxt, check, state).outcome is Done) ==> plan_all(
            arena,
            schema,
            nodes,
            ctxt,
            check,
            state,
        ) == plan_all(arena, schema, nodes.take(k), ctxt, check, state),
    decreases nodes.len(),
{
    if k == nodes.len() {
        assert(nodes.take(k) =~= nodes);
    } else {
        lemma_list_ends(arena, nodes);
        assert(nodes.drop_last().take(k) =~= nodes.take(k));
        lemma_list_prefix(arena, schema, nodes.drop_last(), ctxt, check, state, k);
    }
}

/// The check of nothing passes every state. That for implodes fails where it is active and one is
/// noted, with the error that an aggregation may not follow an implode, and nowhere else.
pub proof fn checks_raise_what_they_say(active: bool, state: ExpressionConversionState)
    ensures
        AcceptAll.verdict(state) is None,
        match (RejectImplode { active }).verdict(state) {
            Some(e) => active && state.local.has_implode && e is ImplodeThenAggregation,
            None => !active || !state.local.has_implode,
        },
{
}

/// Without a schema an aggregation has no field, and needs none. A schema has, for the aggregation
/// at `node`, what it holds under that number: the field, or the error in place of it.
pub proof fn fields_are_those_of_the_schema(schema: Option<&PlanSchema>, node: Node)
    ensures
        match schema {
            None => field_of(schema, node) == Some(
                Ok::<Option<Arc<Field>>, Arc<PolarsError>>(None),
            ),
            Some(s) => node.0 < s.fields@.len() ==> match s.fields@[node.0 as int] {
                Some(FieldOutcome::Resolved(field)) => field_of(schema, node) == Some(
                    Ok::<Option<Arc<Field>>, Arc<PolarsError>>(Some(field)),
                ),
                Some(FieldOutcome::Failed(e)) => field_of(schema, node) == Some(
                    Err::<Option<Arc<Field>>, Arc<PolarsError>>(e),
                ),
                None => field_of(schema, node) is None,
            },
        },
{
}

} // verus!
