//! The planner: the conversion of logical expressions to physical ones.
use polars_core::prelude::{Field, PolarsError, Schema};
use std::sync::Arc;
use vstd::pervasive::unreached;
use vstd::prelude::*;

use crate::arena::{
    are_exprs, depth, is_expr, lemma_max_depth, max_depth, AAggExpr, AExpr, ApplyOptions, Arena,
    Context, FunctionOptions, Node,
};
use crate::expr::{node_to_expr, tree, Expr, LeafKind};
use crate::names::names_of;
use crate::physical::{plans_of, ApplyFunction, PhysicalExpr, PlanError, PlanTree};
use crate::plan::{
    apply_columns, apply_plan, field_of, input_check, kept_schema, lemma_list_prefix,
    lemma_plan_inputs, lemma_plan_more, lemma_plan_one, plan, plan_all, plan_each, AcceptAll, FieldOutcome, Outcome, PlanSchema, RejectImplode, StateCheck,
};
use crate::series::share;
use crate::state::ExpressionConversionState;
use crate::udf::SeriesFunction;

verus! {

/// `r` is the outcome `o`.
pub open spec fn comes_to(r: Result<PhysicalExpr, PlanError>, o: Outcome<PlanTree>) -> bool {
    match r {
        Ok(p) => o == Outcome::Done(p@),
        Err(e) => o == Outcome::<PlanTree>::Refused(e@),
    }
}

/// `r` is the outcome `o` of a list.
pub open spec fn all_come_to(
    r: Result<Vec<PhysicalExpr>, PlanError>,
    o: Outcome<Seq<PlanTree>>,
) -> bool {
    match r {
        Ok(list) => o == Outcome::Done(plans_of(list@)),
        Err(e) => o == Outcome::<Seq<PlanTree>>::Refused(e@),
    }
}

/// Converts a list of expressions.
pub fn create_physical_expressions(
    exprs: &[Node],
    context: Context,
    expr_arena: &Arena,
    schema: Option<&PlanSchema>,
    state: &mut ExpressionConversionState,
) -> (r: Result<Vec<PhysicalExpr>, PlanError>)
    requires
        are_exprs(expr_arena@, exprs@),
        !(plan_all(expr_arena@, schema, exprs@, context, AcceptAll, *old(state)).outcome
            is Unplannable),
    ensures
        all_come_to(
            r,
            plan_all(expr_arena@, schema, exprs@, context, AcceptAll, *old(state)).outcome,
        ),
        *final(state) == plan_all(
            expr_arena@,
            schema,
            exprs@,
            context,
            AcceptAll,
            *old(state),
        ).state,
    decreases max_depth(expr_arena@, exprs@), 3nat,
{
    create_physical_expressions_check_state(exprs, context, expr_arena, schema, state, AcceptAll)
}

/// Converts a list of expressions, and checks the state after each.
pub fn create_physical_expressions_check_state<C: StateCheck>(
    exprs: &[Node],
    context: Context,
    expr_arena: &Arena,
    schema: Option<&PlanSchema>,
    state: &mut ExpressionConversionState,
    checker: C,
) -> (r: Result<Vec<PhysicalExpr>, PlanError>)
    requires
        are_exprs(expr_arena@, exprs@),
        !(plan_all(expr_arena@, schema, exprs@, context, checker, *old(state)).outcome
            is Unplannable),
    ensures
        all_come_to(
            r,
            plan_all(expr_arena@, schema, exprs@, context, checker, *old(state)).outcome,
        ),
        *final(state) == plan_all(expr_arena@, schema, exprs@, context, checker, *old(state)).state,
    decreases max_depth(expr_arena@, exprs@), 2nat,
{
    let ghost whole = plan_all(expr_arena@, schema, exprs@, context, checker, *state);
    let mut out: Vec<PhysicalExpr> = Vec::new();
    let mut i: usize = 0;
    proof {
        lemma_max_depth(expr_arena@, exprs@, 1);
        assert(exprs@.take(0) =~= seq![]);
        assert(are_exprs(expr_arena@, exprs@.take(0)));
    }
    while i < exprs.len()
        invariant
            i <= exprs@.len(),
            are_exprs(expr_arena@, exprs@),
                forall|j: int|
                0 <= j < exprs@.len() ==> depth(expr_arena@, #[trigger] exprs@[j]) <= max_depth(
                    expr_arena@,
                    exprs@,
                ),
            whole == plan_all(expr_arena@, schema, exprs@, context, checker, *old(state)),
            !(whole.outcome is Unplannable),
            plan_all(
                expr_arena@,
                schema,
                exprs@.take(i as int),
                context,
                checker,
                *old(state),
            ).outcome == Outcome::Done(plans_of(out@)),
            plan_all(
                expr_arena@,
                schema,
                exprs@.take(i as int),
                context,
                checker,
                *old(state),
            ).state == *state,
        decreases exprs@.len() - i,
    {
        let ghost before = out@;
        proof {
            let upto = exprs@.take(i + 1);
            assert(upto.drop_last() =~= exprs@.take(i as int));
            assert(upto.last() == exprs@[i as int]);
            assert forall|j: int| 0 <= j < upto.len() implies is_expr(expr_arena@, #[trigger] upto[j]) by {
                assert(upto[j] == exprs@[j]);
            }
            lemma_list_prefix(expr_arena@, schema, exprs@, context, checker, *old(state), i + 1);
        }
        state.reset();
        let planned = create_physical_expr(exprs[i], context, expr_arena, schema, state);
        match checker.check(state) {
            Ok(_) => {},
            Err(e) => return Err(e),
        }
        match planned {
            Ok(p) => {
                out.push(p);
                assert(out@.drop_last() =~= before);
                assert(plans_of(out@) == plans_of(before).push(p@));
            },
            Err(e) => return Err(e),
        }
        i = i + 1;
    }
    assert(exprs@.take(exprs@.len() as int) =~= exprs@);
    Ok(out)
}

/// Converts an expression.
pub fn create_physical_expr(
    expression: Node,
    ctxt: Context,
    expr_arena: &Arena,
    schema: Option<&PlanSchema>,
    state: &mut ExpressionConversionState,
) -> (r: Result<PhysicalExpr, PlanError>)
    requires
        is_expr(expr_arena@, expression),
        !(plan(expr_arena@, schema, expression, ctxt, *old(state)).outcome is Unplannable),
    ensures
        comes_to(r, plan(expr_arena@, schema, expression, ctxt, *old(state)).outcome),
        *final(state) == plan(expr_arena@, schema, expression, ctxt, *old(state)).state,
    decreases depth(expr_arena@, expression), 1nat,
{
    proof {
        lemma_plan_inputs(expr_arena@, expression);
    }
    match expr_arena.get(expression) {
        AExpr::Count => Ok(PhysicalExpr::Count),
        AExpr::Window { .. } => create_window(expression, ctxt, expr_arena, schema, state),
        AExpr::Literal(value) => Ok(
            PhysicalExpr::Literal {
                value: share(value),
                expr: node_to_expr(expression, expr_arena),
            },
        ),
        AExpr::Column(name) => Ok(
            PhysicalExpr::Column {
                name: name.clone(),
                expr: node_to_expr(expression, expr_arena),
                schema: share_schema(schema),
            },
        ),
        AExpr::Agg(_) => create_agg(expression, ctxt, expr_arena, schema, state),
        AExpr::SortBy { .. } => create_sort_by(expression, ctxt, expr_arena, schema, state),
        AExpr::AnonymousFunction { input, function, options, .. } => create_apply(
            expression,
            input,
            ApplyFunction::Anonymous(*function),
            *options,
            ctxt,
            expr_arena,
            schema,
            state,
        ),
        AExpr::Function { input, function, options } => create_apply(
            expression,
            input,
            ApplyFunction::Function(*function),
            *options,
            ctxt,
            expr_arena,
            schema,
            state,
        ),
        AExpr::Sort { .. } | AExpr::Alias(..) | AExpr::Cast { .. } | AExpr::Explode(_) => create_unary(
            expression,
            ctxt,
            expr_arena,
            schema,
            state,
        ),
        AExpr::BinaryExpr { .. } | AExpr::Take { .. } | AExpr::Filter { .. } => create_binary(
            expression,
            ctxt,
            expr_arena,
            schema,
            state,
        ),
        AExpr::Ternary { .. } | AExpr::Slice { .. } => create_ternary(
            expression,
            ctxt,
            expr_arena,
            schema,
            state,
        ),
        AExpr::Wildcard => unreached(),
        AExpr::Nth(_) => unreached(),
    }
}

/// Another handle on the schema.
fn share_schema(schema: Option<&PlanSchema>) -> (r: Option<Arc<Schema>>)
    ensures
        r == kept_schema(schema),
{
    match schema {
        Some(s) => Some(share(&s.schema)),
        None => None,
    }
}

/// A function of the planner's own, applied to one input.
fn apply_minimal(
    input: PhysicalExpr,
    function: SeriesFunction,
    expr: Expr,
    collect_groups: ApplyOptions,
) -> (r: PhysicalExpr)
    ensures
        r@ == (PlanTree::ApplyMinimal {
            inputs: seq![input@],
            function,
            expr: expr@,
            collect_groups,
        }),
{
    let inputs = vec![input];
    proof {
        reveal_with_fuel(plans_of, 2);
        assert(inputs@.drop_last() =~= seq![]);
        assert(plans_of(inputs@) =~= seq![input@]);
    }
    PhysicalExpr::ApplyMinimal { inputs, function, expr, collect_groups }
}

/// Converts two inputs of an expression.
fn create_pair(
    a: Node,
    b: Node,
    ctxt: Context,
    expr_arena: &Arena,
    schema: Option<&PlanSchema>,
    state: &mut ExpressionConversionState,
) -> (r: Result<(PhysicalExpr, PhysicalExpr), PlanError>)
    requires
        are_exprs(expr_arena@, seq![a, b]),
        !(plan_each(expr_arena@, schema, seq![a, b], ctxt, *old(state)).outcome is Unplannable),
    ensures
        match r {
            Ok((x, y)) => plan_each(expr_arena@, schema, seq![a, b], ctxt, *old(state)).outcome
                == Outcome::Done(seq![x@, y@]),
            Err(e) => plan_each(expr_arena@, schema, seq![a, b], ctxt, *old(state)).outcome
                == Outcome::<Seq<PlanTree>>::Refused(e@),
        },
        *final(state) == plan_each(expr_arena@, schema, seq![a, b], ctxt, *old(state)).state,
    decreases max_depth(expr_arena@, seq![a, b]), 2nat,
{
    proof {
        let ab = seq![a, b];
        lemma_max_depth(expr_arena@, ab, 1);
        assert(ab[0] == a && ab[1] == b);
        lemma_plan_one(expr_arena@, schema, a, ctxt, *state);
        lemma_plan_more(expr_arena@, schema, seq![a], b, ctxt, *state);
        assert(seq![a].push(b) =~= ab);
    }
    let x = match create_physical_expr(a, ctxt, expr_arena, schema, state) {
        Ok(x) => x,
        Err(e) => return Err(e),
    };
    let y = match create_physical_expr(b, ctxt, expr_arena, schema, state) {
        Ok(y) => y,
        Err(e) => return Err(e),
    };
    assert(seq![x@].push(y@) =~= seq![x@, y@]);
    Ok((x, y))
}

/// Converts three inputs of an expression.
fn create_triple(
    a: Node,
    b: Node,
    c: Node,
    ctxt: Context,
    expr_arena: &Arena,
    schema: Option<&PlanSchema>,
    state: &mut ExpressionConversionState,
) -> (r: Result<(PhysicalExpr, PhysicalExpr, PhysicalExpr), PlanError>)
    requires
        are_exprs(expr_arena@, seq![a, b, c]),
        !(plan_each(expr_arena@, schema, seq![a, b, c], ctxt, *old(state)).outcome is Unplannable),
    ensures
        match r {
            Ok((x, y, z)) => plan_each(
                expr_arena@,
                schema,
                seq![a, b, c],
                ctxt,
                *old(state),
            ).outcome == Outcome::Done(seq![x@, y@, z@]),
            Err(e) => plan_each(expr_arena@, schema, seq![a, b, c], ctxt, *old(state)).outcome
                == Outcome::<Seq<PlanTree>>::Refused(e@),
        },
        *final(state) == plan_each(expr_arena@, schema, seq![a, b, c], ctxt, *old(state)).state,
    decreases max_depth(expr_arena@, seq![a, b, c]), 3nat,
{
    proof {
        let abc = seq![a, b, c];
        lemma_max_depth(expr_arena@, abc, 1);
        assert(abc[0] == a && abc[1] == b && abc[2] == c);
        assert(are_exprs(expr_arena@, seq![a, b]));
        lemma_max_depth(expr_arena@, seq![a, b], max_depth(expr_arena@, abc) + 1);
        lemma_plan_more(expr_arena@, schema, seq![a, b], c, ctxt, *state);
        assert(seq![a, b].push(c) =~= abc);
    }
    let (x, y) = match create_pair(a, b, ctxt, expr_arena, schema, state) {
        Ok(pair) => pair,
        Err(e) => return Err(e),
    };
    let z = match create_physical_expr(c, ctxt, expr_arena, schema, state) {
        Ok(z) => z,
        Err(e) => return Err(e),
    };
    assert(seq![x@, y@].push(z@) =~= seq![x@, y@, z@]);
    Ok((x, y, z))
}

/// Converts an expression of one input.
fn create_unary(
    expression: Node,
    ctxt: Context,
    expr_arena: &Arena,
    schema: Option<&PlanSchema>,
    state: &mut ExpressionConversionState,
) -> (r: Result<PhysicalExpr, PlanError>)
    requires
        is_expr(expr_arena@, expression),
        ({
            let e = expr_arena@[expression.0 as int];
            e is Sort || e is Alias || e is Cast || e is Explode
        }),
        !(plan(expr_arena@, schema, expression, ctxt, *old(state)).outcome is Unplannable),
    ensures
        comes_to(r, plan(expr_arena@, schema, expression, ctxt, *old(state)).outcome),
        *final(state) == plan(expr_arena@, schema, expression, ctxt, *old(state)).state,
    decreases depth(expr_arena@, expression), 0nat,
{
    proof {
        lemma_plan_inputs(expr_arena@, expression);
    }
    match expr_arena.get(expression) {
        AExpr::Sort { expr, options } => match create_physical_expr(
            *expr,
            ctxt,
            expr_arena,
            schema,
            state,
        ) {
            Ok(input) => Ok(
                PhysicalExpr::Sort {
                    input: Box::new(input),
                    options: *options,
                    expr: node_to_expr(expression, expr_arena),
                },
            ),
            Err(e) => Err(e),
        },
        AExpr::Alias(expr, name) => match create_physical_expr(
            *expr,
            ctxt,
            expr_arena,
            schema,
            state,
        ) {
            Ok(input) => Ok(
                PhysicalExpr::Alias {
                    input: Box::new(input),
                    name: name.clone(),
                    expr: node_to_expr(expression, expr_arena),
                },
            ),
            Err(e) => Err(e),
        },
        AExpr::Cast { expr, data_type, strict } => match create_physical_expr(
            *expr,
            ctxt,
            expr_arena,
            schema,
            state,
        ) {
            Ok(input) => Ok(
                PhysicalExpr::Cast {
                    input: Box::new(input),
                    data_type: share(data_type),
                    expr: node_to_expr(expression, expr_arena),
                    strict: *strict,
                },
            ),
            Err(e) => Err(e),
        },
        AExpr::Explode(expr) => match create_physical_expr(*expr, ctxt, expr_arena, schema, state) {
            Ok(input) => Ok(
                apply_minimal(
                    input,
                    SeriesFunction::Explode,
                    node_to_expr(expression, expr_arena),
                    ApplyOptions::ApplyGroups,
                ),
            ),
            Err(e) => Err(e),
        },
        _ => unreached(),
    }
}

/// Converts an expression of two inputs.
fn create_binary(
    expression: Node,
    ctxt: Context,
    expr_arena: &Arena,
    schema: Option<&PlanSchema>,
    state: &mut ExpressionConversionState,
) -> (r: Result<PhysicalExpr, PlanError>)
    requires
        is_expr(expr_arena@, expression),
        ({
            let e = expr_arena@[expression.0 as int];
            e is BinaryExpr || e is Take || e is Filter
        }),
        !(plan(expr_arena@, schema, expression, ctxt, *old(state)).outcome is Unplannable),
    ensures
        comes_to(r, plan(expr_arena@, schema, expression, ctxt, *old(state)).outcome),
        *final(state) == plan(expr_arena@, schema, expression, ctxt, *old(state)).state,
    decreases depth(expr_arena@, expression), 0nat,
{
    proof {
        lemma_plan_inputs(expr_arena@, expression);
    }
    match expr_arena.get(expression) {
        AExpr::BinaryExpr { left, op, right } => match create_pair(
            *left,
            *right,
            ctxt,
            expr_arena,
            schema,
            state,
        ) {
            Ok((lhs, rhs)) => Ok(
                PhysicalExpr::Binary {
                    left: Box::new(lhs),
                    op: *op,
                    right: Box::new(rhs),
                    expr: node_to_expr(expression, expr_arena),
                },
            ),
            Err(e) => Err(e),
        },
        AExpr::Take { expr, idx } => match create_pair(
            *expr,
            *idx,
            ctxt,
            expr_arena,
            schema,
            state,
        ) {
            Ok((input, idx)) => Ok(
                PhysicalExpr::Take {
                    input: Box::new(input),
                    idx: Box::new(idx),
                    expr: node_to_expr(expression, expr_arena),
                },
            ),
            Err(e) => Err(e),
        },
        AExpr::Filter { input, by } => match create_pair(
            *input,
            *by,
            ctxt,
            expr_arena,
            schema,
            state,
        ) {
            Ok((input, by)) => Ok(
                PhysicalExpr::Filter {
                    input: Box::new(input),
                    by: Box::new(by),
                    expr: node_to_expr(expression, expr_arena),
                },
            ),
            Err(e) => Err(e),
        },
        _ => unreached(),
    }
}

/// Converts an expression of three inputs.
fn create_ternary(
    expression: Node,
    ctxt: Context,
    expr_arena: &Arena,
    schema: Option<&PlanSchema>,
    state: &mut ExpressionConversionState,
) -> (r: Result<PhysicalExpr, PlanError>)
    requires
        is_expr(expr_arena@, expression),
        ({
            let e = expr_arena@[expression.0 as int];
            e is Ternary || e is Slice
        }),
        !(plan(expr_arena@, schema, expression, ctxt, *old(state)).outcome is Unplannable),
    ensures
        comes_to(r, plan(expr_arena@, schema, expression, ctxt, *old(state)).outcome),
        *final(state) == plan(expr_arena@, schema, expression, ctxt, *old(state)).state,
    decreases depth(expr_arena@, expression), 0nat,
{
    proof {
        lemma_plan_inputs(expr_arena@, expression);
    }
    match expr_arena.get(expression) {
        AExpr::Ternary { predicate, truthy, falsy } => match create_triple(
            *predicate,
            *truthy,
            *falsy,
            ctxt,
            expr_arena,
            schema,
            state,
        ) {
            Ok((predicate, truthy, falsy)) => Ok(
                PhysicalExpr::Ternary {
                    predicate: Box::new(predicate),
                    truthy: Box::new(truthy),
                    falsy: Box::new(falsy),
                    expr: node_to_expr(expression, expr_arena),
                },
            ),
            Err(e) => Err(e),
        },
        AExpr::Slice { input, offset, length } => match create_triple(
            *input,
            *offset,
            *length,
            ctxt,
            expr_arena,
            schema,
            state,
        ) {
            Ok((input, offset, length)) => if state.has_implode() && ctxt == Context::Aggregation {
                Err(PlanError::ImplodeThenSlice)
            } else {
                Ok(
                    PhysicalExpr::Slice {
                        input: Box::new(input),
                        offset: Box::new(offset),
                        length: Box::new(length),
                        expr: node_to_expr(expression, expr_arena),
                    },
                )
            },
            Err(e) => Err(e),
        },
        _ => unreached(),
    }
}

/// Converts a `sort_by`.
fn create_sort_by(
    expression: Node,
    ctxt: Context,
    expr_arena: &Arena,
    schema: Option<&PlanSchema>,
    state: &mut ExpressionConversionState,
) -> (r: Result<PhysicalExpr, PlanError>)
    requires
        is_expr(expr_arena@, expression),
        expr_arena@[expression.0 as int] is SortBy,
        !(plan(expr_arena@, schema, expression, ctxt, *old(state)).outcome is Unplannable),
    ensures
        comes_to(r, plan(expr_arena@, schema, expression, ctxt, *old(state)).outcome),
        *final(state) == plan(expr_arena@, schema, expression, ctxt, *old(state)).state,
    decreases depth(expr_arena@, expression), 0nat,
{
    proof {
        lemma_plan_inputs(expr_arena@, expression);
    }
    match expr_arena.get(expression) {
        AExpr::SortBy { expr, by, descending } => {
            if by.len() == 0 {
                return Err(PlanError::EmptySortBy);
            }
            let input = match create_physical_expr(*expr, ctxt, expr_arena, schema, state) {
                Ok(input) => input,
                Err(e) => return Err(e),
            };
            match create_physical_expressions(by.as_slice(), ctxt, expr_arena, schema, state) {
                Ok(by) => Ok(
                    PhysicalExpr::SortBy {
                        input: Box::new(input),
                        by,
                        descending: share(descending),
                        expr: node_to_expr(expression, expr_arena),
                    },
                ),
                Err(e) => Err(e),
            }
        },
        _ => unreached(),
    }
}

/// Converts a function of the user or of the expression language.
fn create_apply(
    expression: Node,
    input: &Vec<Node>,
    function: ApplyFunction,
    options: FunctionOptions,
    ctxt: Context,
    expr_arena: &Arena,
    schema: Option<&PlanSchema>,
    state: &mut ExpressionConversionState,
) -> (r: Result<PhysicalExpr, PlanError>)
    requires
        is_expr(expr_arena@, expression),
        expr_arena@[expression.0 as int].inputs() == input@,
        !(plan_all(
            expr_arena@,
            schema,
            input@,
            ctxt,
            input_check(options, ctxt, *old(state)),
            *old(state),
        ).outcome is Unplannable),
    ensures
        ({
            let p = plan_all(
                expr_arena@,
                schema,
                input@,
                ctxt,
                input_check(options, ctxt, *old(state)),
                *old(state),
            );
            &&& comes_to(
                r,
                p.build(
                    |inputs: Seq<PlanTree>|
                        apply_plan(
                            inputs,
                            function,
                            options,
                            tree(expr_arena@, expression),
                            schema,
                            p.state,
                        ),
                ).outcome,
            )
            &&& *final(state) == p.state
        }),
    decreases depth(expr_arena@, expression), 0nat,
{
    proof {
        lemma_plan_inputs(expr_arena@, expression);
    }
    let is_reducing_aggregation = options.auto_explode && options.collect_groups
        == ApplyOptions::ApplyGroups;
    // will be reset in the function so get that here
    let has_window = state.local.has_window;
    let checker = RejectImplode {
        active: (is_reducing_aggregation || has_window) && ctxt == Context::Aggregation,
    };
    match create_physical_expressions_check_state(
        input.as_slice(),
        ctxt,
        expr_arena,
        schema,
        state,
        checker,
    ) {
        Ok(inputs) => Ok(
            PhysicalExpr::Apply {
                inputs,
                function,
                expr: node_to_expr(expression, expr_arena),
                collect_groups: options.collect_groups,
                auto_explode: options.auto_explode,
                allow_rename: options.allow_rename,
                pass_name_to_apply: options.pass_name_to_apply,
                input_schema: share_schema(schema),
                allow_threading: !state.has_cache,
                check_lengths: options.check_lengths,
                allow_group_aware: options.allow_group_aware,
            },
        ),
        Err(e) => Err(e),
    }
}

/// Looks up the field of an aggregation.
fn find_field(schema: Option<&PlanSchema>, node: Node) -> (r: Result<
    Option<Arc<Field>>,
    Arc<PolarsError>,
>)
    requires
        field_of(schema, node) is Some,
    ensures
        Some(r) == field_of(schema, node),
{
    match schema {
        Some(s) => match &s.fields[node.0] {
            Some(FieldOutcome::Resolved(field)) => Ok(Some(share(field))),
            Some(FieldOutcome::Failed(e)) => Err(share(e)),
            None => unreached(),
        },
        None => Ok(None),
    }
}

/// Converts an aggregation.
fn create_agg(
    expression: Node,
    ctxt: Context,
    expr_arena: &Arena,
    schema: Option<&PlanSchema>,
    state: &mut ExpressionConversionState,
) -> (r: Result<PhysicalExpr, PlanError>)
    requires
        is_expr(expr_arena@, expression),
        expr_arena@[expression.0 as int] is Agg,
        !(plan(expr_arena@, schema, expression, ctxt, *old(state)).outcome is Unplannable),
    ensures
        comes_to(r, plan(expr_arena@, schema, expression, ctxt, *old(state)).outcome),
        *final(state) == plan(expr_arena@, schema, expression, ctxt, *old(state)).state,
    decreases depth(expr_arena@, expression), 0nat,
{
    proof {
        lemma_plan_inputs(expr_arena@, expression);
    }
    match expr_arena.get(expression) {
        AExpr::Agg(agg) => {
            let expr = agg.first_input();
            let input = match create_physical_expr(expr, ctxt, expr_arena, schema, state) {
                Ok(input) => input,
                Err(e) => return Err(e),
            };
            if state.has_implode() && ctxt == Context::Aggregation {
                return Err(PlanError::ImplodeThenAggregation);
            }
            state.note_agg(
                match agg {
                    AAggExpr::Implode(_) => true,
                    _ => false,
                },
            );
            match agg {
                AAggExpr::Quantile { expr, quantile, interpol } => match create_pair(
                    *expr,
                    *quantile,
                    ctxt,
                    expr_arena,
                    schema,
                    state,
                ) {
                    Ok((input, quantile)) => Ok(
                        PhysicalExpr::AggQuantile {
                            input: Box::new(input),
                            quantile: Box::new(quantile),
                            interpol: *interpol,
                        },
                    ),
                    Err(e) => Err(e),
                },
                _ => match ctxt {
                    Context::Default => match agg.get_function(*state) {
                        Some(function) => Ok(
                            apply_minimal(
                                input,
                                function,
                                node_to_expr(expression, expr_arena),
                                ApplyOptions::ApplyFlat,
                            ),
                        ),
                        None => unreached(),
                    },
                    Context::Aggregation => match find_field(schema, expression) {
                        Ok(field) => match agg.get_method() {
                            Some(agg_type) => Ok(
                                PhysicalExpr::Aggregation {
                                    input: Box::new(input),
                                    agg_type,
                                    field,
                                },
                            ),
                            None => unreached(),
                        },
                        Err(e) => Err(PlanError::Field(e)),
                    },
                },
            }
        },
        _ => unreached(),
    }
}

/// The columns that a window hands to its function.
fn find_apply_columns(function: &Expr) -> (r: Option<Vec<String>>)
    ensures
        match r {
            Some(names) => apply_columns(function@) == Some(names_of(names@)),
            None => apply_columns(function@) is None,
        },
{
    let mut names = function.leaf_names();
    if names.len() == 0 {
        if function.has(LeafKind::Literal) {
            names.push("literal".to_string());
        } else if function.has(LeafKind::Count) {
            names.push("count".to_string());
        } else {
            return None;
        }
        assert(names_of(names@) =~= apply_columns(function@)->0);
    }
    Some(names)
}

/// Converts a window.
fn create_window(
    expression: Node,
    ctxt: Context,
    expr_arena: &Arena,
    schema: Option<&PlanSchema>,
    state: &mut ExpressionConversionState,
) -> (r: Result<PhysicalExpr, PlanError>)
    requires
        is_expr(expr_arena@, expression),
        expr_arena@[expression.0 as int] is Window,
        !(plan(expr_arena@, schema, expression, ctxt, *old(state)).outcome is Unplannable),
    ensures
        comes_to(r, plan(expr_arena@, schema, expression, ctxt, *old(state)).outcome),
        *final(state) == plan(expr_arena@, schema, expression, ctxt, *old(state)).state,
    decreases depth(expr_arena@, expression), 0nat,
{
    proof {
        lemma_plan_inputs(expr_arena@, expression);
    }
    match expr_arena.get(expression) {
        AExpr::Window { function, partition_by, options, .. } => {
            state.set_window();
            let group_by = match create_physical_expressions(
                partition_by.as_slice(),
                Context::Default,
                expr_arena,
                schema,
                state,
            ) {
                Ok(group_by) => group_by,
                Err(e) => return Err(e),
            };
            // set again as the state can be reset
            state.set_window();
            let phys_function = match create_physical_expr(
                *function,
                Context::Aggregation,
                expr_arena,
                schema,
                state,
            ) {
                Ok(phys_function) => phys_function,
                Err(e) => return Err(e),
            };
            let whole = node_to_expr(*function, expr_arena);
            let apply_columns = match find_apply_columns(&whole) {
                Some(names) => names,
                None => return Err(PlanError::NoRootColumn(whole)),
            };
            proof {
                lemma_plan_inputs(expr_arena@, *function);
            }
            let (inner, out_name) = match expr_arena.get(*function) {
                AExpr::Alias(expr, name) => {
                    assert(expr_arena@[function.0 as int].inputs()[0] == *expr);
                    (node_to_expr(*expr, expr_arena), Some(name.clone()))
                },
                _ => (whole, None),
            };
            Ok(
                PhysicalExpr::Window {
                    group_by,
                    apply_columns,
                    out_name,
                    function: inner,
                    phys_function: Box::new(phys_function),
                    options: *options,
                    expr: node_to_expr(expression, expr_arena),
                },
            )
        },
        _ => unreached(),
    }
}

} // verus!
