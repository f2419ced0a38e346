//! What holds of every conversion.
use vstd::prelude::*;

use crate::arena::{are_exprs, depth, is_expr, max_depth, AAggExpr, AExpr, Context, Node};
use crate::expr::{
    columns_are_listed, holds, leaf_columns, lemma_holds, lemma_tree, mentions, reads_column, tree,
    AggOp, ExprOp, ExprTree, LeafKind,
};
use crate::names::increasing;
use crate::physical::{ErrorTree, PlanTree};
use crate::plan::{
    field_of, input_check, lemma_list_ends, lemma_plan_inputs, lemma_plan_more, lemma_plan_one, plan,
    plan_all, plan_each, AcceptAll, Outcome, PlanSchema, StateCheck,
};
use crate::state::{ExpressionConversionState, LocalConversionState};
use crate::udf::SeriesFunction;

verus! {

/// `after` has the settings of the context that `before` has, and knows of the windows that it
/// knows of.
pub open spec fn keeps_settings(
    before: ExpressionConversionState,
    after: ExpressionConversionState,
) -> bool {
    &&& after.has_cache == before.has_cache
    &&& after.allow_threading == before.allow_threading
    &&& before.has_windows ==> after.has_windows
}

/// A conversion, whatever comes of it, keeps the settings of the context, and never forgets that
/// there are windows.
pub proof fn conversion_keeps_settings(
    arena: Seq<AExpr>,
    schema: Option<&PlanSchema>,
    node: Node,
    ctxt: Context,
    state: ExpressionConversionState,
)
    requires
        is_expr(arena, node),
    ensures
        keeps_settings(state, plan(arena, schema, node, ctxt, state).state),
    decreases depth(arena, node), 0nat,
{
    lemma_plan_inputs(arena, node);
    match arena[node.0 as int] {
        AExpr::Window { function, partition_by, .. } => {
            let noted = state.after_window();
            list_conversion_keeps_settings(
                arena,
                schema,
                partition_by@,
                Context::Default,
                AcceptAll,
                noted,
            );
            let groups = plan_all(arena, schema, partition_by@, Context::Default, AcceptAll, noted);
            conversion_keeps_settings(
                arena,
                schema,
                function,
                Context::Aggregation,
                groups.state.after_window(),
            );
        },
        AExpr::SortBy { expr, by, .. } => {
            conversion_keeps_settings(arena, schema, expr, ctxt, state);
            let p = plan(arena, schema, expr, ctxt, state);
            list_conversion_keeps_settings(arena, schema, by@, ctxt, AcceptAll, p.state);
        },
        AExpr::Agg(agg) => {
            let input = agg.inputs()[0];
            conversion_keeps_settings(arena, schema, input, ctxt, state);
            let noted = plan(arena, schema, input, ctxt, state).state.after_agg(agg is Implode);
            inputs_conversion_keeps_settings(arena, schema, agg.inputs(), ctxt, noted);
        },
        AExpr::AnonymousFunction { input, options, .. } => {
            let check = input_check(options, ctxt, state);
            list_conversion_keeps_settings(arena, schema, input@, ctxt, check, state);
        },
        AExpr::Function { input, options, .. } => {
            let check = input_check(options, ctxt, state);
            list_conversion_keeps_settings(arena, schema, input@, ctxt, check, state);
        },
        AExpr::Sort { expr, .. } => conversion_keeps_settings(arena, schema, expr, ctxt, state),
        AExpr::Alias(expr, _) => conversion_keeps_settings(arena, schema, expr, ctxt, state),
        AExpr::Cast { expr, .. } => conversion_keeps_settings(arena, schema, expr, ctxt, state),
        AExpr::Explode(expr) => conversion_keeps_settings(arena, schema, expr, ctxt, state),
        _ => {
            let inputs = arena[node.0 as int].inputs();
            inputs_conversion_keeps_settings(arena, schema, inputs, ctxt, state);
        },
    }
}

proof fn inputs_conversion_keeps_settings(
    arena: Seq<AExpr>,
    schema: Option<&PlanSchema>,
    nodes: Seq<Node>,
    ctxt: Context,
    state: ExpressionConversionState,
)
    requires
        are_exprs(arena, nodes),
    ensures
        keeps_settings(state, plan_each(arena, schema, nodes, ctxt, state).state),
    decreases max_depth(arena, nodes), nodes.len(),
{
    if nodes.len() > 0 {
        lemma_list_ends(arena, nodes);
        inputs_conversion_keeps_settings(arena, schema, nodes.drop_last(), ctxt, state);
        let rest = plan_each(arena, schema, nodes.drop_last(), ctxt, state);
        conversion_keeps_settings(arena, schema, nodes.last(), ctxt, rest.state);
    }
}

/// The conversion of a list, too, keeps the settings of the context.
pub proof fn list_conversion_keeps_settings<C: StateCheck>(
    arena: Seq<AExpr>,
    schema: Option<&PlanSchema>,
    nodes: Seq<Node>,
    ctxt: Context,
    check: C,
    state: ExpressionConversionState,
)
    requires
        are_exprs(arena, nodes),
    ensures
        keeps_settings(state, plan_all(arena, schema, nodes, ctxt, check, state).state),
    decreases max_depth(arena, nodes), nodes.len(),
{
    if nodes.len() > 0 {
        lemma_list_ends(arena, nodes);
        list_conversion_keeps_settings(arena, schema, nodes.drop_last(), ctxt, check, state);
        let rest = plan_all(arena, schema, nodes.drop_last(), ctxt, check, state);
        conversion_keeps_settings(arena, schema, nodes.last(), ctxt, rest.state.after_reset());
    }
}

/// The conversion of two lists one after the other is that of the first, and where that has plans,
/// that of the second in the state that the first leaves.
pub proof fn lists_are_planned_in_turn<C: StateCheck>(
    arena: Seq<AExpr>,
    schema: Option<&PlanSchema>,
    a: Seq<Node>,
    b: Seq<Node>,
    ctxt: Context,
    check: C,
    state: ExpressionConversionState,
)
    requires
        are_exprs(arena, a),
        are_exprs(arena, b),
    ensures
        are_exprs(arena, a + b),
        plan_all(arena, schema, a + b, ctxt, check, state) == {
            let first = plan_all(arena, schema, a, ctxt, check, state);
            match first.outcome {
                Outcome::Done(plans) => plan_all(arena, schema, b, ctxt, check, first.state).build(
                    |rest: Seq<PlanTree>| plans + rest,
                ),
                _ => first,
            }
        },
    decreases b.len(),
{
    let ab = a + b;
    assert forall|i: int| 0 <= i < ab.len() implies is_expr(arena, #[trigger] ab[i]) by {
        if i < a.len() {
            assert(ab[i] == a[i]);
        } else {
            assert(ab[i] == b[i - a.len()]);
        }
    }
    let first = plan_all(arena, schema, a, ctxt, check, state);
    if b.len() == 0 {
        assert(ab =~= a);
        if let Outcome::Done(plans) = first.outcome {
            assert(plans + Seq::<PlanTree>::empty() =~= plans);
        }
    } else {
        lemma_list_ends(arena, b);
        lists_are_planned_in_turn(arena, schema, a, b.drop_last(), ctxt, check, state);
        assert(ab.drop_last() =~= a + b.drop_last());
        assert(ab.last() == b.last());
        if let Outcome::Done(plans) = first.outcome {
            let front = plan_all(arena, schema, b.drop_last(), ctxt, check, first.state);
            if let Outcome::Done(some) = front.outcome {
                let start = front.state.after_reset();
                let p = plan(arena, schema, b.last(), ctxt, start);
                if let Outcome::Done(last) = p.outcome {
                    assert((plans + some).push(last) =~= plans + some.push(last));
                }
            }
        }
    }
}

/// Once a window was met, the context knows of it, whatever came of the conversion.
pub proof fn windows_are_noted(
    arena: Seq<AExpr>,
    schema: Option<&PlanSchema>,
    node: Node,
    ctxt: Context,
    state: ExpressionConversionState,
)
    requires
        is_expr(arena, node),
        arena[node.0 as int] is Window,
    ensures
        plan(arena, schema, node, ctxt, state).state.has_windows,
{
    lemma_plan_inputs(arena, node);
    let function = arena[node.0 as int]->Window_function;
    let partition_by = arena[node.0 as int]->Window_partition_by@;
    let noted = state.after_window();
    list_conversion_keeps_settings(arena, schema, partition_by, Context::Default, AcceptAll, noted);
    let groups = plan_all(arena, schema, partition_by, Context::Default, AcceptAll, noted);
    conversion_keeps_settings(
        arena,
        schema,
        function,
        Context::Aggregation,
        groups.state.after_window(),
    );
}

/// What was noted of the expression before a list has no bearing on the list: two states with the
/// same settings of the context give the same outcome, and leave the same state behind unless the
/// list is empty.
pub proof fn lists_start_afresh<C: StateCheck>(
    arena: Seq<AExpr>,
    schema: Option<&PlanSchema>,
    nodes: Seq<Node>,
    ctxt: Context,
    check: C,
    a: ExpressionConversionState,
    b: ExpressionConversionState,
)
    requires
        are_exprs(arena, nodes),
        a.after_reset() == b.after_reset(),
    ensures
        plan_all(arena, schema, nodes, ctxt, check, a).outcome == plan_all(
            arena,
            schema,
            nodes,
            ctxt,
            check,
            b,
        ).outcome,
        nodes.len() > 0 ==> plan_all(arena, schema, nodes, ctxt, check, a).state == plan_all(
            arena,
            schema,
            nodes,
            ctxt,
            check,
            b,
        ).state,
    decreases nodes.len(),
{
    if nodes.len() > 0 {
        lemma_list_ends(arena, nodes);
        lists_start_afresh(arena, schema, nodes.drop_last(), ctxt, check, a, b);
    }
}

/// A list that has plans has one for each of its expressions, in order. Each is the plan of the
/// expression on its own, converted in a state that has nothing noted of another expression and
/// the settings of the context.
pub proof fn lists_are_planned_one_by_one<C: StateCheck>(
    arena: Seq<AExpr>,
    schema: Option<&PlanSchema>,
    nodes: Seq<Node>,
    ctxt: Context,
    check: C,
    state: ExpressionConversionState,
    i: int,
)
    requires
        are_exprs(arena, nodes),
        plan_all(arena, schema, nodes, ctxt, check, state).outcome is Done,
        0 <= i < nodes.len(),
    ensures
        plan_all(arena, schema, nodes, ctxt, check, state).outcome->Done_0.len() == nodes.len(),
        ({
            let before = plan_all(arena, schema, nodes.take(i), ctxt, check, state);
            let start = before.state.after_reset();
            let p = plan(arena, schema, nodes[i], ctxt, start);
            &&& p.outcome == Outcome::Done(
                plan_all(arena, schema, nodes, ctxt, check, state).outcome->Done_0[i],
            )
            &&& check.verdict(p.state) is None
            &&& keeps_settings(state, start)
            &&& start.local == LocalConversionState::cleared()
        }),
    decreases nodes.len(),
{
    lemma_list_ends(arena, nodes);
    let rest = nodes.drop_last();
    if i < rest.len() {
        assert(rest.take(i) =~= nodes.take(i));
        assert(rest[i] == nodes[i]);
        lists_are_planned_one_by_one(arena, schema, rest, ctxt, check, state, i);
    } else {
        assert(rest =~= nodes.take(i));
        list_conversion_keeps_settings(arena, schema, rest, ctxt, check, state);
        if rest.len() > 0 {
            lists_are_planned_one_by_one(arena, schema, rest, ctxt, check, state, 0);
        }
    }
}

/// The conversion of an implode, where it has a plan, is noted.
pub proof fn implodes_are_noted(
    arena: Seq<AExpr>,
    schema: Option<&PlanSchema>,
    node: Node,
    ctxt: Context,
    state: ExpressionConversionState,
)
    requires
        is_expr(arena, node),
        arena[node.0 as int] matches AExpr::Agg(AAggExpr::Implode(_)),
    ensures
        plan(arena, schema, node, ctxt, state).outcome is Done ==> plan(
            arena,
            schema,
            node,
            ctxt,
            state,
        ).state.local.has_implode,
{
    lemma_plan_inputs(arena, node);
}

/// In a group-by, no aggregation reads what an implode gave: either the implode has no plan, or
/// the aggregation is refused.
pub proof fn no_aggregation_after_implode(
    arena: Seq<AExpr>,
    schema: Option<&PlanSchema>,
    node: Node,
    state: ExpressionConversionState,
)
    requires
        is_expr(arena, node),
        arena[node.0 as int] is Agg,
        ({
            let input = arena[node.0 as int].inputs()[0];
            arena[input.0 as int] matches AExpr::Agg(AAggExpr::Implode(_))
        }),
    ensures
        ({
            let p = plan(arena, schema, node, Context::Aggregation, state);
            let input = plan(
                arena,
                schema,
                arena[node.0 as int].inputs()[0],
                Context::Aggregation,
                state,
            );
            &&& !(p.outcome is Done)
            &&& input.outcome is Done ==> p.outcome == Outcome::<PlanTree>::Refused(
                ErrorTree::ImplodeThenAggregation,
            )
            &&& !(input.outcome is Done) ==> p.outcome == input.outcome
        }),
{
    lemma_plan_inputs(arena, node);
    implodes_are_noted(
        arena,
        schema,
        arena[node.0 as int].inputs()[0],
        Context::Aggregation,
        state,
    );
}

/// Whether the conversion of such an expression converts a list, and so forgets what was noted.
pub open spec fn converts_a_list(op: ExprOp) -> bool {
    op is SortBy || op is AnonymousFunction || op is Function || op is Window
}

/// Whether an expression of the tree converts a list.
pub open spec fn forgets(t: ExprTree) -> bool {
    mentions(t, |op: ExprOp| converts_a_list(op))
}

proof fn lemma_forgets(arena: Seq<AExpr>, node: Node)
    requires
        is_expr(arena, node),
        !forgets(tree(arena, node)),
    ensures
        !converts_a_list(arena[node.0 as int].op()),
        forall|i: int|
            0 <= i < arena[node.0 as int].inputs().len() ==> !forgets(
                tree(arena, #[trigger] arena[node.0 as int].inputs()[i]),
            ),
{
    lemma_tree(arena, node);
    let t = tree(arena, node);
    assert forall|i: int| 0 <= i < arena[node.0 as int].inputs().len() implies !forgets(
        tree(arena, #[trigger] arena[node.0 as int].inputs()[i]),
    ) by {
        assert(t.inputs[i] == tree(arena, arena[node.0 as int].inputs()[i]));
    }
}

/// What was noted of an implode stays noted over the conversion of an expression that converts no
/// list.
pub proof fn implodes_stay_noted(
    arena: Seq<AExpr>,
    schema: Option<&PlanSchema>,
    node: Node,
    ctxt: Context,
    state: ExpressionConversionState,
)
    requires
        is_expr(arena, node),
        !forgets(tree(arena, node)),
        state.local.has_implode,
    ensures
        plan(arena, schema, node, ctxt, state).state.local.has_implode,
    decreases depth(arena, node), 0nat,
{
    lemma_plan_inputs(arena, node);
    lemma_forgets(arena, node);
    let inputs = arena[node.0 as int].inputs();
    match arena[node.0 as int] {
        AExpr::Agg(agg) => {
            implodes_stay_noted(arena, schema, inputs[0], ctxt, state);
            let noted = plan(arena, schema, inputs[0], ctxt, state).state.after_agg(agg is Implode);
            implodes_stay_noted_over_inputs(arena, schema, inputs, ctxt, noted);
        },
        AExpr::Sort { .. } | AExpr::Alias(..) | AExpr::Cast { .. } | AExpr::Explode(_) => {
            implodes_stay_noted(arena, schema, inputs[0], ctxt, state);
        },
        _ => {
            implodes_stay_noted_over_inputs(arena, schema, inputs, ctxt, state);
        },
    }
}

proof fn implodes_stay_noted_over_inputs(
    arena: Seq<AExpr>,
    schema: Option<&PlanSchema>,
    nodes: Seq<Node>,
    ctxt: Context,
    state: ExpressionConversionState,
)
    requires
        are_exprs(arena, nodes),
        forall|i: int| 0 <= i < nodes.len() ==> !forgets(tree(arena, #[trigger] nodes[i])),
        state.local.has_implode,
    ensures
        plan_each(arena, schema, nodes, ctxt, state).state.local.has_implode,
    decreases max_depth(arena, nodes), nodes.len(),
{
    if nodes.len() > 0 {
        lemma_list_ends(arena, nodes);
        implodes_stay_noted_over_inputs(arena, schema, nodes.drop_last(), ctxt, state);
        let rest = plan_each(arena, schema, nodes.drop_last(), ctxt, state);
        implodes_stay_noted(arena, schema, nodes.last(), ctxt, rest.state);
    }
}

/// In a group-by, no slice reads what an implode gave, where the offset and the length convert no
/// list.
pub proof fn no_slice_after_implode(
    arena: Seq<AExpr>,
    schema: Option<&PlanSchema>,
    node: Node,
    state: ExpressionConversionState,
)
    requires
        is_expr(arena, node),
        arena[node.0 as int] matches AExpr::Slice { input, offset, length } && {
            &&& arena[input.0 as int] matches AExpr::Agg(AAggExpr::Implode(_))
            &&& !forgets(tree(arena, offset))
            &&& !forgets(tree(arena, length))
        },
    ensures
        ({
            let p = plan(arena, schema, node, Context::Aggregation, state);
            let inputs = plan_each(
                arena,
                schema,
                arena[node.0 as int].inputs(),
                Context::Aggregation,
                state,
            );
            &&& !(p.outcome is Done)
            &&& inputs.outcome is Done ==> p.outcome == Outcome::<PlanTree>::Refused(
                ErrorTree::ImplodeThenSlice,
            )
        }),
{
    lemma_plan_inputs(arena, node);
    let inputs = arena[node.0 as int].inputs();
    let ctxt = Context::Aggregation;
    implodes_are_noted(arena, schema, inputs[0], ctxt, state);
    lemma_plan_one(arena, schema, inputs[0], ctxt, state);
    lemma_plan_more(arena, schema, seq![inputs[0]], inputs[1], ctxt, state);
    assert(seq![inputs[0]].push(inputs[1]) =~= seq![inputs[0], inputs[1]]);
    lemma_plan_more(arena, schema, seq![inputs[0], inputs[1]], inputs[2], ctxt, state);
    assert(seq![inputs[0], inputs[1]].push(inputs[2]) =~= inputs);
    let first = plan(arena, schema, inputs[0], ctxt, state);
    if first.outcome is Done {
        implodes_stay_noted(arena, schema, inputs[1], ctxt, first.state);
        let second = plan(arena, schema, inputs[1], ctxt, first.state);
        if second.outcome is Done {
            implodes_stay_noted(arena, schema, inputs[2], ctxt, second.state);
        }
    }
}

/// Whether such an expression may not reach the planner, at least outside a group-by.
pub open spec fn is_unexpanded(op: ExprOp) -> bool {
    op is Wildcard || op is Nth || op == ExprOp::Agg(AggOp::AggGroups)
}

/// Whether every expression of the tree may reach the planner in every context.
pub open spec fn is_expanded(t: ExprTree) -> bool {
    !mentions(t, |op: ExprOp| is_unexpanded(op))
}

proof fn lemma_is_expanded(arena: Seq<AExpr>, node: Node)
    requires
        is_expr(arena, node),
        is_expanded(tree(arena, node)),
    ensures
        !is_unexpanded(arena[node.0 as int].op()),
        all_expanded(arena, arena[node.0 as int].inputs()),
{
    lemma_tree(arena, node);
    let t = tree(arena, node);
    assert forall|i: int| 0 <= i < arena[node.0 as int].inputs().len() implies is_expanded(
        tree(arena, #[trigger] arena[node.0 as int].inputs()[i]),
    ) by {
        assert(t.inputs[i] == tree(arena, arena[node.0 as int].inputs()[i]));
    }
}

/// Whether the schema, if there is one, knows the fields of the aggregations that a conversion of
/// `node` meets in a group-by. The function of a window is converted for groups, its partitions are
/// not, and what it is ordered by is not converted.
pub open spec fn fields_known(
    arena: Seq<AExpr>,
    schema: Option<&PlanSchema>,
    node: Node,
    ctxt: Context,
) -> bool
    decreases depth(arena, node),
    when is_expr(arena, node)
    via fields_known_terminates
{
    match arena[node.0 as int] {
        AExpr::Window { function, partition_by, .. } => {
            &&& fields_known(arena, schema, function, Context::Aggregation)
            &&& forall|i: int|
                0 <= i < partition_by@.len() ==> fields_known(
                    arena,
                    schema,
                    #[trigger] partition_by@[i],
                    Context::Default,
                )
        },
        AExpr::Agg(agg) => {
            &&& ctxt is Aggregation && !(agg is Quantile) ==> field_of(schema, node) is Some
            &&& forall|i: int|
                0 <= i < agg.inputs().len() ==> fields_known(
                    arena,
                    schema,
                    #[trigger] agg.inputs()[i],
                    ctxt,
                )
        },
        expr => forall|i: int|
            0 <= i < expr.inputs().len() ==> fields_known(
                arena,
                schema,
                #[trigger] expr.inputs()[i],
                ctxt,
            ),
    }
}

#[via_fn]
proof fn fields_known_terminates(
    arena: Seq<AExpr>,
    schema: Option<&PlanSchema>,
    node: Node,
    ctxt: Context,
) {
    lemma_plan_inputs(arena, node);
}

/// Whether the schema knows the fields that conversions of the nodes meet.
pub open spec fn all_fields_known(
    arena: Seq<AExpr>,
    schema: Option<&PlanSchema>,
    nodes: Seq<Node>,
    ctxt: Context,
) -> bool {
    forall|i: int|
        0 <= i < nodes.len() ==> fields_known(arena, schema, #[trigger] nodes[i], ctxt)
}

/// Without a schema no field is asked for.
pub proof fn no_schema_knows_enough(arena: Seq<AExpr>, node: Node, ctxt: Context)
    requires
        is_expr(arena, node),
    ensures
        fields_known(arena, None, node, ctxt),
    decreases depth(arena, node),
{
    lemma_plan_inputs(arena, node);
    match arena[node.0 as int] {
        AExpr::Window { function, partition_by, .. } => {
            no_schema_knows_enough(arena, function, Context::Aggregation);
            assert forall|i: int| 0 <= i < partition_by@.len() implies fields_known(
                arena,
                None,
                #[trigger] partition_by@[i],
                Context::Default,
            ) by {
                no_schema_knows_enough(arena, partition_by@[i], Context::Default);
            }
        },
        expr => {
            assert forall|i: int| 0 <= i < expr.inputs().len() implies fields_known(
                arena,
                None,
                #[trigger] expr.inputs()[i],
                ctxt,
            ) by {
                no_schema_knows_enough(arena, expr.inputs()[i], ctxt);
            }
        },
    }
}

proof fn lemma_no_wildcard(t: ExprTree)
    requires
        is_expanded(t),
    ensures
        !holds(t, LeafKind::Wildcard),
    decreases t,
{
    assert forall|i: int| 0 <= i < t.inputs.len() implies !holds(
        #[trigger] t.inputs[i],
        LeafKind::Wildcard,
    ) by {
        assert(is_expanded(t.inputs[i]));
        lemma_no_wildcard(t.inputs[i]);
    }
    lemma_holds(t, LeafKind::Wildcard);
}

/// Whether the trees at the nodes are expanded.
pub open spec fn all_expanded(arena: Seq<AExpr>, nodes: Seq<Node>) -> bool {
    forall|i: int| 0 <= i < nodes.len() ==> is_expanded(tree(arena, #[trigger] nodes[i]))
}

/// The planner answers, with a plan or an error, for every expression that was expanded, where the
/// schema knows the fields that are asked for.
pub proof fn expanded_expressions_are_answered(
    arena: Seq<AExpr>,
    schema: Option<&PlanSchema>,
    node: Node,
    ctxt: Context,
    state: ExpressionConversionState,
)
    requires
        is_expr(arena, node),
        is_expanded(tree(arena, node)),
        fields_known(arena, schema, node, ctxt),
    ensures
        !(plan(arena, schema, node, ctxt, state).outcome is Unplannable),
    decreases depth(arena, node), 0nat,
{
    lemma_plan_inputs(arena, node);
    lemma_is_expanded(arena, node);
    let inputs = arena[node.0 as int].inputs();
    match arena[node.0 as int] {
        AExpr::Window { function, partition_by, .. } => {
            let noted = state.after_window();
            assert(inputs[0] == function);
            assert forall|i: int| 0 <= i < partition_by@.len() implies is_expanded(
                tree(arena, #[trigger] partition_by@[i]),
            ) by {
                assert(inputs[i + 1] == partition_by@[i]);
            }
            expanded_lists_are_answered(
                arena,
                schema,
                partition_by@,
                Context::Default,
                AcceptAll,
                noted,
            );
            let groups = plan_all(arena, schema, partition_by@, Context::Default, AcceptAll, noted);
            expanded_expressions_are_answered(
                arena,
                schema,
                function,
                Context::Aggregation,
                groups.state.after_window(),
            );
            lemma_no_wildcard(tree(arena, function));
        },
        AExpr::SortBy { expr, by, .. } => {
            assert(inputs[0] == expr);
            assert forall|i: int| 0 <= i < by@.len() implies is_expanded(
                tree(arena, #[trigger] by@[i]),
            ) by {
                assert(inputs[i + 1] == by@[i]);
            }
            assert forall|i: int| 0 <= i < by@.len() implies fields_known(
                arena,
                schema,
                #[trigger] by@[i],
                ctxt,
            ) by {
                assert(inputs[i + 1] == by@[i]);
            }
            expanded_expressions_are_answered(arena, schema, expr, ctxt, state);
            let p = plan(arena, schema, expr, ctxt, state);
            expanded_lists_are_answered(arena, schema, by@, ctxt, AcceptAll, p.state);
        },
        AExpr::Agg(agg) => {
            expanded_expressions_are_answered(arena, schema, inputs[0], ctxt, state);
            let noted = plan(arena, schema, inputs[0], ctxt, state).state.after_agg(agg is Implode);
            expanded_inputs_are_answered(arena, schema, inputs, ctxt, noted);
        },
        AExpr::AnonymousFunction { options, .. } => {
            let check = input_check(options, ctxt, state);
            expanded_lists_are_answered(arena, schema, inputs, ctxt, check, state);
        },
        AExpr::Function { options, .. } => {
            let check = input_check(options, ctxt, state);
            expanded_lists_are_answered(arena, schema, inputs, ctxt, check, state);
        },
        AExpr::Sort { .. } | AExpr::Alias(..) | AExpr::Cast { .. } | AExpr::Explode(_) => {
            expanded_expressions_are_answered(arena, schema, inputs[0], ctxt, state);
        },
        _ => {
            expanded_inputs_are_answered(arena, schema, inputs, ctxt, state);
        },
    }
}

proof fn expanded_inputs_are_answered(
    arena: Seq<AExpr>,
    schema: Option<&PlanSchema>,
    nodes: Seq<Node>,
    ctxt: Context,
    state: ExpressionConversionState,
)
    requires
        are_exprs(arena, nodes),
        all_expanded(arena, nodes),
        all_fields_known(arena, schema, nodes, ctxt),
    ensures
        !(plan_each(arena, schema, nodes, ctxt, state).outcome is Unplannable),
    decreases max_depth(arena, nodes), nodes.len(),
{
    if nodes.len() > 0 {
        lemma_list_ends(arena, nodes);
        expanded_inputs_are_answered(arena, schema, nodes.drop_last(), ctxt, state);
        let rest = plan_each(arena, schema, nodes.drop_last(), ctxt, state);
        expanded_expressions_are_answered(arena, schema, nodes.last(), ctxt, rest.state);
    }
}

/// The planner answers, with plans or an error, for every list of expressions that were expanded,
/// where the schema knows the fields that are asked for.
pub proof fn expanded_lists_are_answered<C: StateCheck>(
    arena: Seq<AExpr>,
    schema: Option<&PlanSchema>,
    nodes: Seq<Node>,
    ctxt: Context,
    check: C,
    state: ExpressionConversionState,
)
    requires
        are_exprs(arena, nodes),
        all_expanded(arena, nodes),
        all_fields_known(arena, schema, nodes, ctxt),
    ensures
        !(plan_all(arena, schema, nodes, ctxt, check, state).outcome is Unplannable),
    decreases max_depth(arena, nodes), nodes.len(),
{
    if nodes.len() > 0 {
        lemma_list_ends(arena, nodes);
        expanded_lists_are_answered(arena, schema, nodes.drop_last(), ctxt, check, state);
        let rest = plan_all(arena, schema, nodes.drop_last(), ctxt, check, state);
        expanded_expressions_are_answered(
            arena,
            schema,
            nodes.last(),
            ctxt,
            rest.state.after_reset(),
        );
    }
}

/// Whether an expression of the tree is a window.
pub open spec fn has_window(t: ExprTree) -> bool {
    mentions(t, |op: ExprOp| op is Window)
}

/// Whether none of the trees at the nodes has a window.
pub open spec fn none_has_window(arena: Seq<AExpr>, nodes: Seq<Node>) -> bool {
    forall|i: int| 0 <= i < nodes.len() ==> !has_window(tree(arena, #[trigger] nodes[i]))
}

/// An expression without windows leaves it as it was whether the context knows of windows, whatever
/// came of the conversion.
pub proof fn no_window_is_made_up(
    arena: Seq<AExpr>,
    schema: Option<&PlanSchema>,
    node: Node,
    ctxt: Context,
    state: ExpressionConversionState,
)
    requires
        is_expr(arena, node),
        !has_window(tree(arena, node)),
    ensures
        plan(arena, schema, node, ctxt, state).state.has_windows == state.has_windows,
    decreases depth(arena, node), 0nat,
{
    lemma_plan_inputs(arena, node);
    lemma_no_window(arena, node);
    let inputs = arena[node.0 as int].inputs();
    match arena[node.0 as int] {
        AExpr::SortBy { expr, by, .. } => {
            assert(inputs[0] == expr);
            assert forall|i: int| 0 <= i < by@.len() implies !has_window(
                tree(arena, #[trigger] by@[i]),
            ) by {
                assert(inputs[i + 1] == by@[i]);
            }
            no_window_is_made_up(arena, schema, expr, ctxt, state);
            let p = plan(arena, schema, expr, ctxt, state);
            no_window_is_made_up_in_a_list(arena, schema, by@, ctxt, AcceptAll, p.state);
        },
        AExpr::Agg(agg) => {
            no_window_is_made_up(arena, schema, inputs[0], ctxt, state);
            let noted = plan(arena, schema, inputs[0], ctxt, state).state.after_agg(agg is Implode);
            no_window_is_made_up_in_inputs(arena, schema, inputs, ctxt, noted);
        },
        AExpr::AnonymousFunction { options, .. } => {
            let check = input_check(options, ctxt, state);
            no_window_is_made_up_in_a_list(arena, schema, inputs, ctxt, check, state);
        },
        AExpr::Function { options, .. } => {
            let check = input_check(options, ctxt, state);
            no_window_is_made_up_in_a_list(arena, schema, inputs, ctxt, check, state);
        },
        AExpr::Sort { .. } | AExpr::Alias(..) | AExpr::Cast { .. } | AExpr::Explode(_) => {
            no_window_is_made_up(arena, schema, inputs[0], ctxt, state);
        },
        _ => {
            no_window_is_made_up_in_inputs(arena, schema, inputs, ctxt, state);
        },
    }
}

proof fn no_window_is_made_up_in_inputs(
    arena: Seq<AExpr>,
    schema: Option<&PlanSchema>,
    nodes: Seq<Node>,
    ctxt: Context,
    state: ExpressionConversionState,
)
    requires
        are_exprs(arena, nodes),
        none_has_window(arena, nodes),
    ensures
        plan_each(arena, schema, nodes, ctxt, state).state.has_windows == state.has_windows,
    decreases max_depth(arena, nodes), nodes.len(),
{
    if nodes.len() > 0 {
        lemma_list_ends(arena, nodes);
        no_window_is_made_up_in_inputs(arena, schema, nodes.drop_last(), ctxt, state);
        let rest = plan_each(arena, schema, nodes.drop_last(), ctxt, state);
        no_window_is_made_up(arena, schema, nodes.last(), ctxt, rest.state);
    }
}

/// A list of expressions without windows, too, leaves it as it was whether the context knows of
/// windows.
pub proof fn no_window_is_made_up_in_a_list<C: StateCheck>(
    arena: Seq<AExpr>,
    schema: Option<&PlanSchema>,
    nodes: Seq<Node>,
    ctxt: Context,
    check: C,
    state: ExpressionConversionState,
)
    requires
        are_exprs(arena, nodes),
        none_has_window(arena, nodes),
    ensures
        plan_all(arena, schema, nodes, ctxt, check, state).state.has_windows == state.has_windows,
    decreases max_depth(arena, nodes), nodes.len(),
{
    if nodes.len() > 0 {
        lemma_list_ends(arena, nodes);
        no_window_is_made_up_in_a_list(arena, schema, nodes.drop_last(), ctxt, check, state);
        let rest = plan_all(arena, schema, nodes.drop_last(), ctxt, check, state);
        no_window_is_made_up(arena, schema, nodes.last(), ctxt, rest.state.after_reset());
    }
}

/// The outcome is no error other than that of a `sort_by` without anything to sort by.
pub open spec fn at_most_empty_sort_by<T>(outcome: Outcome<T>) -> bool {
    outcome matches Outcome::Refused(e) ==> e is EmptySortBy
}

proof fn lemma_no_window(arena: Seq<AExpr>, node: Node)
    requires
        is_expr(arena, node),
        !has_window(tree(arena, node)),
    ensures
        !(arena[node.0 as int] is Window),
        none_has_window(arena, arena[node.0 as int].inputs()),
{
    lemma_tree(arena, node);
    let t = tree(arena, node);
    assert forall|i: int| 0 <= i < arena[node.0 as int].inputs().len() implies !has_window(
        tree(arena, #[trigger] arena[node.0 as int].inputs()[i]),
    ) by {
        assert(t.inputs[i] == tree(arena, arena[node.0 as int].inputs()[i]));
    }
}

/// Outside a group-by, an expression without windows is refused for one reason only: a `sort_by`
/// that has nothing to sort by. There, an implode may be followed by anything.
pub proof fn outside_group_by_implodes_are_free(
    arena: Seq<AExpr>,
    schema: Option<&PlanSchema>,
    node: Node,
    state: ExpressionConversionState,
)
    requires
        is_expr(arena, node),
        !has_window(tree(arena, node)),
    ensures
        at_most_empty_sort_by(plan(arena, schema, node, Context::Default, state).outcome),
    decreases depth(arena, node), 0nat,
{
    lemma_plan_inputs(arena, node);
    lemma_no_window(arena, node);
    let inputs = arena[node.0 as int].inputs();
    let ctxt = Context::Default;
    match arena[node.0 as int] {
        AExpr::SortBy { expr, by, .. } => {
            assert(inputs[0] == expr);
            assert forall|i: int| 0 <= i < by@.len() implies !has_window(
                tree(arena, #[trigger] by@[i]),
            ) by {
                assert(inputs[i + 1] == by@[i]);
            }
            outside_group_by_implodes_are_free(arena, schema, expr, state);
            let p = plan(arena, schema, expr, ctxt, state);
            outside_group_by_lists_are_free(arena, schema, by@, AcceptAll, p.state);
        },
        AExpr::Agg(agg) => {
            outside_group_by_implodes_are_free(arena, schema, inputs[0], state);
            let noted = plan(arena, schema, inputs[0], ctxt, state).state.after_agg(agg is Implode);
            outside_group_by_inputs_are_free(arena, schema, inputs, noted);
        },
        AExpr::AnonymousFunction { options, .. } => {
            let check = input_check(options, ctxt, state);
            outside_group_by_lists_are_free(arena, schema, inputs, check, state);
        },
        AExpr::Function { options, .. } => {
            let check = input_check(options, ctxt, state);
            outside_group_by_lists_are_free(arena, schema, inputs, check, state);
        },
        AExpr::Sort { .. } | AExpr::Alias(..) | AExpr::Cast { .. } | AExpr::Explode(_) => {
            outside_group_by_implodes_are_free(arena, schema, inputs[0], state);
        },
        _ => {
            outside_group_by_inputs_are_free(arena, schema, inputs, state);
        },
    }
}

proof fn outside_group_by_inputs_are_free(
    arena: Seq<AExpr>,
    schema: Option<&PlanSchema>,
    nodes: Seq<Node>,
    state: ExpressionConversionState,
)
    requires
        are_exprs(arena, nodes),
        none_has_window(arena, nodes),
    ensures
        at_most_empty_sort_by(plan_each(arena, schema, nodes, Context::Default, state).outcome),
    decreases max_depth(arena, nodes), nodes.len(),
{
    if nodes.len() > 0 {
        lemma_list_ends(arena, nodes);
        outside_group_by_inputs_are_free(arena, schema, nodes.drop_last(), state);
        let rest = plan_each(arena, schema, nodes.drop_last(), Context::Default, state);
        outside_group_by_implodes_are_free(arena, schema, nodes.last(), rest.state);
    }
}

proof fn outside_group_by_lists_are_free<C: StateCheck>(
    arena: Seq<AExpr>,
    schema: Option<&PlanSchema>,
    nodes: Seq<Node>,
    check: C,
    state: ExpressionConversionState,
)
    requires
        are_exprs(arena, nodes),
        none_has_window(arena, nodes),
        forall|s: ExpressionConversionState| #[trigger] check.verdict(s) is None,
    ensures
        at_most_empty_sort_by(
            plan_all(arena, schema, nodes, Context::Default, check, state).outcome,
        ),
    decreases max_depth(arena, nodes), nodes.len(),
{
    if nodes.len() > 0 {
        lemma_list_ends(arena, nodes);
        outside_group_by_lists_are_free(arena, schema, nodes.drop_last(), check, state);
        let rest = plan_all(arena, schema, nodes.drop_last(), Context::Default, check, state);
        outside_group_by_implodes_are_free(arena, schema, nodes.last(), rest.state.after_reset());
    }
}

impl PlanTree {
    /// The logical expression that the plan holds as the one it comes from, where it does.
    pub open spec fn source(self) -> Option<ExprTree> {
        match self {
            PlanTree::Count => None,
            PlanTree::Window { expr, .. } => Some(expr),
            PlanTree::Literal { expr, .. } => Some(expr),
            PlanTree::Binary { expr, .. } => Some(expr),
            PlanTree::Column { expr, .. } => Some(expr),
            PlanTree::Sort { expr, .. } => Some(expr),
            PlanTree::Take { expr, .. } => Some(expr),
            PlanTree::SortBy { expr, .. } => Some(expr),
            PlanTree::Filter { expr, .. } => Some(expr),
            PlanTree::Alias { expr, .. } => Some(expr),
            PlanTree::ApplyMinimal { expr, .. } => Some(expr),
            PlanTree::AggQuantile { .. } => None,
            PlanTree::Aggregation { .. } => None,
            PlanTree::Cast { expr, .. } => Some(expr),
            PlanTree::Ternary { expr, .. } => Some(expr),
            PlanTree::Apply { expr, .. } => Some(expr),
            PlanTree::Slice { expr, .. } => Some(expr),
        }
    }
}

/// The logical expression that a plan holds is the one that it was made for.
#[verifier::spinoff_prover]
#[verifier::rlimit(40)]
pub proof fn plans_hold_their_expression(
    arena: Seq<AExpr>,
    schema: Option<&PlanSchema>,
    node: Node,
    ctxt: Context,
    state: ExpressionConversionState,
)
    requires
        is_expr(arena, node),
    ensures
        plan(arena, schema, node, ctxt, state).outcome matches Outcome::Done(p) ==> {
            &&& p.source() matches Some(expr) ==> expr == tree(arena, node)
            &&& p.source() is None ==> arena[node.0 as int] is Count || arena[node.0 as int] is Agg
        },
{
    match arena[node.0 as int] {
        AExpr::Window { .. } => {},
        AExpr::Agg(_) => {},
        AExpr::SortBy { .. } => {},
        AExpr::Function { .. } => {},
        AExpr::AnonymousFunction { .. } => {},
        _ => {},
    }
}

impl SeriesFunction {
    /// The state of the conversion that the function goes by, where it does.
    pub open spec fn held_state(self) -> Option<ExpressionConversionState> {
        match self {
            SeriesFunction::Min { state, .. } => Some(state),
            SeriesFunction::Max { state, .. } => Some(state),
            SeriesFunction::Sum { state } => Some(state),
            _ => None,
        }
    }
}

/// A function may use threads exactly where the settings that the conversion started with know of
/// no cache, and a reduction goes by these settings.
#[verifier::spinoff_prover]
#[verifier::rlimit(40)]
pub proof fn functions_go_by_the_settings(
    arena: Seq<AExpr>,
    schema: Option<&PlanSchema>,
    node: Node,
    ctxt: Context,
    state: ExpressionConversionState,
)
    requires
        is_expr(arena, node),
    ensures
        plan(arena, schema, node, ctxt, state).outcome matches Outcome::Done(p) ==> {
            &&& p is Apply ==> p->Apply_allow_threading == !state.has_cache
            &&& p is ApplyMinimal ==> (p->ApplyMinimal_function.held_state() matches Some(held)
                ==> keeps_settings(state, held))
        },
{
    conversion_keeps_settings(arena, schema, node, ctxt, state);
    match arena[node.0 as int] {
        AExpr::Window { .. } => {},
        AExpr::Agg(_) => {},
        AExpr::SortBy { .. } => {},
        AExpr::Function { .. } => {},
        AExpr::AnonymousFunction { .. } => {},
        AExpr::Explode(_) => {},
        _ => {},
    }
}

/// The columns that a window hands to its function: at least one, in increasing order, and exactly
/// those that the function reads if it reads any. A window whose function reads none, and holds no
/// literal or count either, has no plan.
#[verifier::spinoff_prover]
#[verifier::rlimit(40)]
pub proof fn windows_hand_over_the_columns_read(
    arena: Seq<AExpr>,
    schema: Option<&PlanSchema>,
    node: Node,
    ctxt: Context,
    state: ExpressionConversionState,
)
    requires
        is_expr(arena, node),
        arena[node.0 as int] is Window,
    ensures
        ({
            let function = tree(arena, arena[node.0 as int]->Window_function);
            let reads_any = exists|n: Seq<char>| reads_column(function, n);
            match plan(arena, schema, node, ctxt, state).outcome {
                Outcome::Done(p) => {
                    let names = p->Window_apply_columns;
                    &&& p is Window
                    &&& names.len() > 0
                    &&& increasing(names)
                    &&& reads_any ==> forall|n: Seq<char>| #[trigger]
                        names.contains(n) <==> reads_column(function, n)
                    &&& reads_any || holds(function, LeafKind::Literal) || holds(
                        function,
                        LeafKind::Count,
                    )
                },
                _ => true,
            }
        }),
{
    let function = tree(arena, arena[node.0 as int]->Window_function);
    columns_are_listed(function);
    let listed = leaf_columns(function);
    if listed.len() > 0 {
        assert(listed.contains(listed[0]));
        assert(reads_column(function, listed[0]));
    } else {
        assert forall|n: Seq<char>| !reads_column(function, n) by {
            assert(!listed.contains(n));
        }
    }
}

} // verus!
