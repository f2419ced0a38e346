//! What comes of the conversion of each kind of expression, told by the fields of the physical
//! expression, or the error, and by the conversions of the inputs.
use vstd::prelude::*;

use crate::arena::{are_exprs, is_expr, AAggExpr, AExpr, Context, FunctionOptions, Node};
use crate::expr::{
    holds, listed_columns_are_those_read, reads_column, tree, ExprTree, LeafKind,
};
use crate::laws::list_conversion_keeps_settings;
use crate::names::{increasing, names_of};
use crate::physical::{
    lists_are_viewed_item_by_item, plans_of, ApplyFunction, GroupByMethod, PhysicalExpr, PlanError,
    PlanTree,
};
use crate::plan::{
    input_check, lemma_list_ends, lemma_plan_inputs, lemma_plan_more, lemma_plan_one, plan,
    plan_all, plan_each, AcceptAll, FieldOutcome, Outcome, PlanSchema, Planned, RejectImplode,
    StateCheck,
};
use crate::planner::{all_come_to, comes_to};
use crate::state::{ExpressionConversionState, LocalConversionState};
use crate::udf::SeriesFunction;

verus! {

/// The expression at `node` converts to `r`, and the state `before` to `after`.
pub open spec fn converts(
    arena: Seq<AExpr>,
    schema: Option<&PlanSchema>,
    node: Node,
    ctxt: Context,
    before: ExpressionConversionState,
    r: Result<PhysicalExpr, PlanError>,
    after: ExpressionConversionState,
) -> bool {
    let planned = plan(arena, schema, node, ctxt, before);
    comes_to(r, planned.outcome) && after == planned.state
}

/// The conversion of an input ends the whole with its error.
pub open spec fn stops(
    input: Planned<PlanTree>,
    e: PlanError,
    after: ExpressionConversionState,
) -> bool {
    input.outcome == Outcome::<PlanTree>::Refused(e@) && after == input.state
}

/// The state in which the `i`-th expression of a list is converted: that which the one before it
/// leaves, with nothing noted of an expression.
pub open spec fn start_of(
    arena: Seq<AExpr>,
    schema: Option<&PlanSchema>,
    nodes: Seq<Node>,
    ctxt: Context,
    before: ExpressionConversionState,
    i: int,
) -> ExpressionConversionState
    decreases i,
{
    let left = if i <= 0 {
        before
    } else {
        plan(
            arena,
            schema,
            nodes[i - 1],
            ctxt,
            start_of(arena, schema, nodes, ctxt, before, i - 1),
        ).state
    };
    ExpressionConversionState {
        has_cache: left.has_cache,
        allow_threading: left.allow_threading,
        has_windows: left.has_windows,
        local: LocalConversionState { has_implode: false, has_window: false },
    }
}

/// The conversion of the `i`-th expression of a list.
pub open spec fn item(
    arena: Seq<AExpr>,
    schema: Option<&PlanSchema>,
    nodes: Seq<Node>,
    ctxt: Context,
    before: ExpressionConversionState,
    i: int,
) -> Planned<PlanTree> {
    plan(arena, schema, nodes[i], ctxt, start_of(arena, schema, nodes, ctxt, before, i))
}

/// The state that a list leaves whose expressions all have plans.
pub open spec fn left_by(
    arena: Seq<AExpr>,
    schema: Option<&PlanSchema>,
    nodes: Seq<Node>,
    ctxt: Context,
    before: ExpressionConversionState,
) -> ExpressionConversionState {
    if nodes.len() == 0 {
        before
    } else {
        item(arena, schema, nodes, ctxt, before, nodes.len() - 1).state
    }
}

/// `list` holds a plan for each expression of a list, in order.
pub open spec fn each_has_its_plan(
    arena: Seq<AExpr>,
    schema: Option<&PlanSchema>,
    nodes: Seq<Node>,
    ctxt: Context,
    before: ExpressionConversionState,
    list: Seq<PhysicalExpr>,
) -> bool {
    &&& list.len() == nodes.len()
    &&& forall|i: int|
        0 <= i < nodes.len() ==> item(arena, schema, nodes, ctxt, before, i).outcome
            == Outcome::Done((#[trigger] list[i])@)
}

/// The `k`-th expression of a list ends the conversion of the list with its own error.
pub open spec fn stops_at(
    arena: Seq<AExpr>,
    schema: Option<&PlanSchema>,
    nodes: Seq<Node>,
    ctxt: Context,
    before: ExpressionConversionState,
    k: int,
    e: PlanError,
    after: ExpressionConversionState,
) -> bool {
    &&& 0 <= k < nodes.len()
    &&& forall|i: int|
        0 <= i < k ==> (#[trigger] item(arena, schema, nodes, ctxt, before, i)).outcome is Done
    &&& stops(item(arena, schema, nodes, ctxt, before, k), e, after)
}

proof fn lemma_start_of_prefix(
    arena: Seq<AExpr>,
    schema: Option<&PlanSchema>,
    nodes: Seq<Node>,
    ctxt: Context,
    before: ExpressionConversionState,
    i: int,
)
    requires
        0 <= i < nodes.len(),
    ensures
        start_of(arena, schema, nodes.drop_last(), ctxt, before, i) == start_of(
            arena,
            schema,
            nodes,
            ctxt,
            before,
            i,
        ),
    decreases i,
{
    if i > 0 {
        lemma_start_of_prefix(arena, schema, nodes, ctxt, before, i - 1);
        assert(nodes.drop_last()[i - 1] == nodes[i - 1]);
    }
}

proof fn lemma_items_of_prefix(
    arena: Seq<AExpr>,
    schema: Option<&PlanSchema>,
    nodes: Seq<Node>,
    ctxt: Context,
    before: ExpressionConversionState,
)
    requires
        nodes.len() > 0,
    ensures
        forall|i: int|
            0 <= i < nodes.len() - 1 ==> item(arena, schema, nodes.drop_last(), ctxt, before, i)
                == #[trigger] item(arena, schema, nodes, ctxt, before, i),
        start_of(arena, schema, nodes, ctxt, before, nodes.len() - 1) == (
        ExpressionConversionState {
            local: LocalConversionState { has_implode: false, has_window: false },
            ..left_by(arena, schema, nodes.drop_last(), ctxt, before)
        }),
{
    assert forall|i: int| 0 <= i < nodes.len() - 1 implies item(
        arena,
        schema,
        nodes.drop_last(),
        ctxt,
        before,
        i,
    ) == #[trigger] item(arena, schema, nodes, ctxt, before, i) by {
        lemma_start_of_prefix(arena, schema, nodes, ctxt, before, i);
    }
    if nodes.len() > 1 {
        let k = nodes.len() - 2;
        assert(item(arena, schema, nodes.drop_last(), ctxt, before, k) == item(
            arena,
            schema,
            nodes,
            ctxt,
            before,
            k,
        ));
    }
}

/// A list is converted expression by expression, each from a state that has nothing noted of
/// another expression, and checked after each. Where all have plans and pass the check, the list
/// has these plans, in order, and leaves the state that the last leaves. Otherwise the first that
/// fails decides: with the error of the check, or with its own where the check passes.
#[verifier::spinoff_prover]
#[verifier::rlimit(40)]
pub proof fn lists_are_converted_in_order<C: StateCheck>(
    arena: Seq<AExpr>,
    schema: Option<&PlanSchema>,
    nodes: Seq<Node>,
    ctxt: Context,
    check: C,
    before: ExpressionConversionState,
    r: Result<Vec<PhysicalExpr>, PlanError>,
)
    requires
        are_exprs(arena, nodes),
        all_come_to(r, plan_all(arena, schema, nodes, ctxt, check, before).outcome),
    ensures
        ({
            let after = plan_all(arena, schema, nodes, ctxt, check, before).state;
            match r {
                Ok(list) => {
                    &&& each_has_its_plan(arena, schema, nodes, ctxt, before, list@)
                    &&& after == left_by(arena, schema, nodes, ctxt, before)
                    &&& forall|i: int|
                        0 <= i < nodes.len() ==> check.verdict(
                            (#[trigger] item(arena, schema, nodes, ctxt, before, i)).state,
                        ) is None
                },
                Err(e) => exists|k: int|
                    {
                        let last = #[trigger] item(arena, schema, nodes, ctxt, before, k);
                        &&& 0 <= k < nodes.len()
                        &&& after == last.state
                        &&& forall|i: int|
                            0 <= i < k ==> {
                                let one = #[trigger] item(arena, schema, nodes, ctxt, before, i);
                                one.outcome is Done && check.verdict(one.state) is None
                            }
                        &&& match check.verdict(last.state) {
                            Some(x) => x == e@,
                            None => last.outcome == Outcome::<PlanTree>::Refused(e@),
                        }
                    },
            }
        }),
{
    lemma_list(arena, schema, nodes, ctxt, check, before);
    if let Ok(list) = r {
        lists_are_viewed_item_by_item(list@);
    }
}

#[verifier::spinoff_prover]
#[verifier::rlimit(40)]
proof fn lemma_list<C: StateCheck>(
    arena: Seq<AExpr>,
    schema: Option<&PlanSchema>,
    nodes: Seq<Node>,
    ctxt: Context,
    check: C,
    before: ExpressionConversionState,
)
    requires
        are_exprs(arena, nodes),
    ensures
        ({
            let whole = plan_all(arena, schema, nodes, ctxt, check, before);
            match whole.outcome {
                Outcome::Done(plans) => {
                    &&& plans.len() == nodes.len()
                    &&& whole.state == left_by(arena, schema, nodes, ctxt, before)
                    &&& forall|i: int|
                        0 <= i < nodes.len() ==> {
                            let one = #[trigger] item(arena, schema, nodes, ctxt, before, i);
                            one.outcome == Outcome::Done(plans[i]) && check.verdict(
                                one.state,
                            ) is None
                        }
                },
                Outcome::Refused(x) => exists|k: int|
                    {
                        let last = #[trigger] item(arena, schema, nodes, ctxt, before, k);
                        &&& 0 <= k < nodes.len()
                        &&& whole.state == last.state
                        &&& !(last.outcome is Unplannable)
                        &&& forall|i: int|
                            0 <= i < k ==> {
                                let one = #[trigger] item(arena, schema, nodes, ctxt, before, i);
                                one.outcome is Done && check.verdict(one.state) is None
                            }
                        &&& match check.verdict(last.state) {
                            Some(y) => x == y,
                            None => last.outcome == Outcome::<PlanTree>::Refused(x),
                        }
                    },
                Outcome::Unplannable => exists|k: int|
                    {
                        let last = #[trigger] item(arena, schema, nodes, ctxt, before, k);
                        &&& 0 <= k < nodes.len()
                        &&& last.outcome is Unplannable
                        &&& forall|i: int|
                            0 <= i < k ==> {
                                let one = #[trigger] item(arena, schema, nodes, ctxt, before, i);
                                one.outcome is Done && check.verdict(one.state) is None
                            }
                    },
            }
        }),
    decreases nodes.len(),
{
    if nodes.len() > 0 {
        lemma_list_ends(arena, nodes);
        let front = nodes.drop_last();
        lemma_list(arena, schema, front, ctxt, check, before);
        lemma_items_of_prefix(arena, schema, nodes, ctxt, before);
        let rest = plan_all(arena, schema, front, ctxt, check, before);
        let whole = plan_all(arena, schema, nodes, ctxt, check, before);
        let n = nodes.len() - 1;
        let last = item(arena, schema, nodes, ctxt, before, n);
        match rest.outcome {
            Outcome::Done(plans) => {
                assert(last == plan(arena, schema, nodes.last(), ctxt, rest.state.after_reset()));
                assert forall|i: int| 0 <= i < n implies {
                    let one = #[trigger] item(arena, schema, nodes, ctxt, before, i);
                    one.outcome is Done && check.verdict(one.state) is None
                } by {
                    assert(item(arena, schema, front, ctxt, before, i).outcome is Done);
                }
                if let Outcome::Done(all) = whole.outcome {
                    assert(all == plans.push(last.outcome->Done_0));
                    assert forall|i: int| 0 <= i < nodes.len() implies {
                        let one = #[trigger] item(arena, schema, nodes, ctxt, before, i);
                        one.outcome == Outcome::Done(all[i]) && check.verdict(one.state) is None
                    } by {
                        if i < n {
                            assert(item(arena, schema, front, ctxt, before, i).outcome
                                == Outcome::Done(plans[i]));
                        }
                    }
                }
            },
            Outcome::Refused(x) => {
                let k = choose|k: int|
                    {
                        let last = #[trigger] item(arena, schema, front, ctxt, before, k);
                        &&& 0 <= k < front.len()
                        &&& rest.state == last.state
                        &&& !(last.outcome is Unplannable)
                        &&& forall|i: int|
                            0 <= i < k ==> {
                                let one = #[trigger] item(arena, schema, front, ctxt, before, i);
                                one.outcome is Done && check.verdict(one.state) is None
                            }
                        &&& match check.verdict(last.state) {
                            Some(y) => x == y,
                            None => last.outcome == Outcome::<PlanTree>::Refused(x),
                        }
                    };
                assert(item(arena, schema, front, ctxt, before, k) == item(
                    arena,
                    schema,
                    nodes,
                    ctxt,
                    before,
                    k,
                ));
                assert forall|i: int| 0 <= i < k implies {
                    let one = #[trigger] item(arena, schema, nodes, ctxt, before, i);
                    one.outcome is Done && check.verdict(one.state) is None
                } by {
                    assert(item(arena, schema, front, ctxt, before, i).outcome is Done);
                }
            },
            Outcome::Unplannable => {
                let k = choose|k: int|
                    {
                        let last = #[trigger] item(arena, schema, front, ctxt, before, k);
                        &&& 0 <= k < front.len()
                        &&& last.outcome is Unplannable
                        &&& forall|i: int|
                            0 <= i < k ==> {
                                let one = #[trigger] item(arena, schema, front, ctxt, before, i);
                                one.outcome is Done && check.verdict(one.state) is None
                            }
                    };
                assert(item(arena, schema, front, ctxt, before, k) == item(
                    arena,
                    schema,
                    nodes,
                    ctxt,
                    before,
                    k,
                ));
                assert forall|i: int| 0 <= i < k implies {
                    let one = #[trigger] item(arena, schema, nodes, ctxt, before, i);
                    one.outcome is Done && check.verdict(one.state) is None
                } by {
                    assert(item(arena, schema, front, ctxt, before, i).outcome is Done);
                }
            },
        }
    }
}

proof fn lemma_each<C: StateCheck>(
    arena: Seq<AExpr>,
    schema: Option<&PlanSchema>,
    nodes: Seq<Node>,
    ctxt: Context,
    check: C,
    before: ExpressionConversionState,
    list: Seq<PhysicalExpr>,
)
    requires
        are_exprs(arena, nodes),
        plan_all(arena, schema, nodes, ctxt, check, before).outcome == Outcome::Done(
            plans_of(list),
        ),
    ensures
        each_has_its_plan(arena, schema, nodes, ctxt, before, list),
        plan_all(arena, schema, nodes, ctxt, check, before).state == left_by(
            arena,
            schema,
            nodes,
            ctxt,
            before,
        ),
        forall|i: int|
            0 <= i < nodes.len() ==> check.verdict(
                (#[trigger] item(arena, schema, nodes, ctxt, before, i)).state,
            ) is None,
{
    lemma_list(arena, schema, nodes, ctxt, check, before);
    lists_are_viewed_item_by_item(list);
}

proof fn lemma_stops_at(
    arena: Seq<AExpr>,
    schema: Option<&PlanSchema>,
    nodes: Seq<Node>,
    ctxt: Context,
    before: ExpressionConversionState,
    e: PlanError,
    after: ExpressionConversionState,
)
    requires
        are_exprs(arena, nodes),
        plan_all(arena, schema, nodes, ctxt, AcceptAll, before).outcome == Outcome::<
            Seq<PlanTree>,
        >::Refused(e@),
        plan_all(arena, schema, nodes, ctxt, AcceptAll, before).state == after,
    ensures
        exists|k: int| #[trigger] stops_at(arena, schema, nodes, ctxt, before, k, e, after),
{
    lemma_list(arena, schema, nodes, ctxt, AcceptAll, before);
    let k = choose|k: int|
        {
            let last = #[trigger] item(arena, schema, nodes, ctxt, before, k);
            &&& 0 <= k < nodes.len()
            &&& after == last.state
            &&& forall|i: int|
                0 <= i < k ==> (#[trigger] item(arena, schema, nodes, ctxt, before, i)).outcome
                    is Done
            &&& last.outcome == Outcome::<PlanTree>::Refused(e@)
        };
    assert(stops_at(arena, schema, nodes, ctxt, before, k, e, after));
}

proof fn lemma_pair(
    arena: Seq<AExpr>,
    schema: Option<&PlanSchema>,
    a: Node,
    b: Node,
    ctxt: Context,
    before: ExpressionConversionState,
)
    requires
        is_expr(arena, a),
        is_expr(arena, b),
    ensures
        are_exprs(arena, seq![a, b]),
        ({
            let x = plan(arena, schema, a, ctxt, before);
            let y = plan(arena, schema, b, ctxt, x.state);
            let both = plan_each(arena, schema, seq![a, b], ctxt, before);
            match x.outcome {
                Outcome::Done(p) => both.state == y.state && match y.outcome {
                    Outcome::Done(q) => both.outcome == Outcome::Done(seq![p, q]),
                    Outcome::Refused(e) => both.outcome == Outcome::<Seq<PlanTree>>::Refused(e),
                    Outcome::Unplannable => both.outcome is Unplannable,
                },
                Outcome::Refused(e) => both.state == x.state && both.outcome == Outcome::<
                    Seq<PlanTree>,
                >::Refused(e),
                Outcome::Unplannable => both.outcome is Unplannable,
            }
        }),
{
    lemma_plan_one(arena, schema, a, ctxt, before);
    lemma_plan_more(arena, schema, seq![a], b, ctxt, before);
    assert(seq![a].push(b) =~= seq![a, b]);
    let x = plan(arena, schema, a, ctxt, before);
    let y = plan(arena, schema, b, ctxt, x.state);
    if x.outcome is Done && y.outcome is Done {
        assert(seq![x.outcome->Done_0].push(y.outcome->Done_0) =~= seq![
            x.outcome->Done_0,
            y.outcome->Done_0,
        ]);
    }
}

proof fn lemma_triple(
    arena: Seq<AExpr>,
    schema: Option<&PlanSchema>,
    a: Node,
    b: Node,
    c: Node,
    ctxt: Context,
    before: ExpressionConversionState,
)
    requires
        is_expr(arena, a),
        is_expr(arena, b),
        is_expr(arena, c),
    ensures
        are_exprs(arena, seq![a, b, c]),
        ({
            let x = plan(arena, schema, a, ctxt, before);
            let y = plan(arena, schema, b, ctxt, x.state);
            let z = plan(arena, schema, c, ctxt, y.state);
            let all = plan_each(arena, schema, seq![a, b, c], ctxt, before);
            match x.outcome {
                Outcome::Done(p) => match y.outcome {
                    Outcome::Done(q) => all.state == z.state && match z.outcome {
                        Outcome::Done(o) => all.outcome == Outcome::Done(seq![p, q, o]),
                        Outcome::Refused(e) => all.outcome == Outcome::<Seq<PlanTree>>::Refused(e),
                        Outcome::Unplannable => all.outcome is Unplannable,
                    },
                    Outcome::Refused(e) => all.state == y.state && all.outcome == Outcome::<
                        Seq<PlanTree>,
                    >::Refused(e),
                    Outcome::Unplannable => all.outcome is Unplannable,
                },
                Outcome::Refused(e) => all.state == x.state && all.outcome == Outcome::<
                    Seq<PlanTree>,
                >::Refused(e),
                Outcome::Unplannable => all.outcome is Unplannable,
            }
        }),
{
    lemma_pair(arena, schema, a, b, ctxt, before);
    lemma_plan_more(arena, schema, seq![a, b], c, ctxt, before);
    assert(seq![a, b].push(c) =~= seq![a, b, c]);
    let x = plan(arena, schema, a, ctxt, before);
    let y = plan(arena, schema, b, ctxt, x.state);
    let z = plan(arena, schema, c, ctxt, y.state);
    if x.outcome is Done && y.outcome is Done && z.outcome is Done {
        assert(seq![x.outcome->Done_0, y.outcome->Done_0].push(z.outcome->Done_0) =~= seq![
            x.outcome->Done_0,
            y.outcome->Done_0,
            z.outcome->Done_0,
        ]);
    }
}

/// A count of rows, a literal and a column always have their plan, and leave the state as it is:
/// the literal with its value, the column with its name and the schema of the frame.
pub proof fn leaves_are_converted_to_themselves(
    arena: Seq<AExpr>,
    schema: Option<&PlanSchema>,
    node: Node,
    ctxt: Context,
    before: ExpressionConversionState,
    r: Result<PhysicalExpr, PlanError>,
    after: ExpressionConversionState,
)
    requires
        is_expr(arena, node),
        arena[node.0 as int] is Count || arena[node.0 as int] is Literal
            || arena[node.0 as int] is Column,
        converts(arena, schema, node, ctxt, before, r, after),
    ensures
        after == before,
        match arena[node.0 as int] {
            AExpr::Count => r matches Ok(PhysicalExpr::Count),
            AExpr::Literal(value) => r matches Ok(PhysicalExpr::Literal { value: kept, expr })
                && kept == value && expr@ == tree(arena, node),
            AExpr::Column(name) => r matches Ok(
                PhysicalExpr::Column { name: kept, expr, schema: kept_schema },
            ) && kept@ == name@ && expr@ == tree(arena, node) && match schema {
                Some(s) => kept_schema == Some(s.schema),
                None => kept_schema is None,
            },
            _ => false,
        },
{
    lemma_plan_inputs(arena, node);
}

/// An expression that has to be expanded before, a wildcard or a column by its place, has no plan
/// and no error: it may not reach the planner.
pub proof fn unexpanded_columns_are_not_planned(
    arena: Seq<AExpr>,
    schema: Option<&PlanSchema>,
    node: Node,
    ctxt: Context,
    before: ExpressionConversionState,
)
    requires
        is_expr(arena, node),
        arena[node.0 as int] is Wildcard || arena[node.0 as int] is Nth,
    ensures
        plan(arena, schema, node, ctxt, before).outcome is Unplannable,
        plan(arena, schema, node, ctxt, before).state == before,
{
}

/// A sort sorts the plan of its input, in the same context, by its own options.
pub proof fn sorts_keep_their_options(
    arena: Seq<AExpr>,
    schema: Option<&PlanSchema>,
    node: Node,
    ctxt: Context,
    before: ExpressionConversionState,
    r: Result<PhysicalExpr, PlanError>,
    after: ExpressionConversionState,
)
    requires
        is_expr(arena, node),
        arena[node.0 as int] is Sort,
        converts(arena, schema, node, ctxt, before, r, after),
    ensures
        ({
            let input = plan(arena, schema, arena[node.0 as int]->Sort_expr, ctxt, before);
            match r {
                Ok(p) => {
                    &&& p matches PhysicalExpr::Sort { input: of, options, expr }
                    &&& input.outcome == Outcome::Done((*of)@)
                    &&& expr@ == tree(arena, node)
                    &&& options == arena[node.0 as int]->Sort_options
                    &&& after == input.state
                },
                Err(e) => stops(input, e, after),
            }
        }),
{
    lemma_plan_inputs(arena, node);
}

/// An alias gives its own name to the plan of its input, in the same context.
pub proof fn aliases_keep_their_name(
    arena: Seq<AExpr>,
    schema: Option<&PlanSchema>,
    node: Node,
    ctxt: Context,
    before: ExpressionConversionState,
    r: Result<PhysicalExpr, PlanError>,
    after: ExpressionConversionState,
)
    requires
        is_expr(arena, node),
        arena[node.0 as int] is Alias,
        converts(arena, schema, node, ctxt, before, r, after),
    ensures
        ({
            let input = plan(arena, schema, arena[node.0 as int]->Alias_0, ctxt, before);
            match r {
                Ok(p) => {
                    &&& p matches PhysicalExpr::Alias { input: of, name, expr }
                    &&& input.outcome == Outcome::Done((*of)@)
                    &&& expr@ == tree(arena, node)
                    &&& name@ == arena[node.0 as int]->Alias_1@
                    &&& after == input.state
                },
                Err(e) => stops(input, e, after),
            }
        }),
{
    lemma_plan_inputs(arena, node);
}

/// A cast casts the plan of its input, in the same context, to its own type, and is as strict as it
/// says.
pub proof fn casts_keep_their_type(
    arena: Seq<AExpr>,
    schema: Option<&PlanSchema>,
    node: Node,
    ctxt: Context,
    before: ExpressionConversionState,
    r: Result<PhysicalExpr, PlanError>,
    after: ExpressionConversionState,
)
    requires
        is_expr(arena, node),
        arena[node.0 as int] is Cast,
        converts(arena, schema, node, ctxt, before, r, after),
    ensures
        ({
            let input = plan(arena, schema, arena[node.0 as int]->Cast_expr, ctxt, before);
            match r {
                Ok(p) => {
                    &&& p matches PhysicalExpr::Cast { input: of, data_type, expr, strict }
                    &&& input.outcome == Outcome::Done((*of)@)
                    &&& expr@ == tree(arena, node)
                    &&& data_type == arena[node.0 as int]->Cast_data_type
                    &&& strict == arena[node.0 as int]->Cast_strict
                    &&& after == input.state
                },
                Err(e) => stops(input, e, after),
            }
        }),
{
    lemma_plan_inputs(arena, node);
}

/// An explode applies the exploding of a column to the plan of its input, in the same context,
/// group by group.
pub proof fn explodes_are_run_group_by_group(
    arena: Seq<AExpr>,
    schema: Option<&PlanSchema>,
    node: Node,
    ctxt: Context,
    before: ExpressionConversionState,
    r: Result<PhysicalExpr, PlanError>,
    after: ExpressionConversionState,
)
    requires
        is_expr(arena, node),
        arena[node.0 as int] is Explode,
        converts(arena, schema, node, ctxt, before, r, after),
    ensures
        ({
            let input = plan(arena, schema, arena[node.0 as int]->Explode_0, ctxt, before);
            match r {
                Ok(p) => {
                    &&& p matches PhysicalExpr::ApplyMinimal {
                        inputs,
                        function,
                        expr,
                        collect_groups,
                    }
                    &&& inputs@.len() == 1
                    &&& input.outcome == Outcome::Done(inputs@[0]@)
                    &&& function is Explode
                    &&& collect_groups is ApplyGroups
                    &&& expr@ == tree(arena, node)
                    &&& after == input.state
                },
                Err(e) => stops(input, e, after),
            }
        }),
{
    lemma_plan_inputs(arena, node);
    if let Ok(PhysicalExpr::ApplyMinimal { inputs, .. }) = r {
        lists_are_viewed_item_by_item(inputs@);
        assert(plans_of(inputs@)[0] == inputs@[0]@);
    }
}

/// An operation has the plan of its left input on its left, that of its right input on its right,
/// and its own operator between them.
pub proof fn operations_keep_their_sides(
    arena: Seq<AExpr>,
    schema: Option<&PlanSchema>,
    node: Node,
    ctxt: Context,
    before: ExpressionConversionState,
    r: Result<PhysicalExpr, PlanError>,
    after: ExpressionConversionState,
)
    requires
        is_expr(arena, node),
        arena[node.0 as int] is BinaryExpr,
        converts(arena, schema, node, ctxt, before, r, after),
    ensures
        ({
            let x = plan(arena, schema, arena[node.0 as int]->BinaryExpr_left, ctxt, before);
            let y = plan(arena, schema, arena[node.0 as int]->BinaryExpr_right, ctxt, x.state);
            match r {
                Ok(p) => {
                    &&& p matches PhysicalExpr::Binary { left: a, op, right: b, expr }
                    &&& x.outcome == Outcome::Done((*a)@)
                    &&& y.outcome == Outcome::Done((*b)@)
                    &&& expr@ == tree(arena, node)
                    &&& op == arena[node.0 as int]->BinaryExpr_op
                    &&& after == y.state
                },
                Err(e) => stops(x, e, after) || (x.outcome is Done && stops(y, e, after)),
            }
        }),
{
    lemma_plan_inputs(arena, node);
    let inputs = arena[node.0 as int].inputs();
    assert(is_expr(arena, inputs[0]) && is_expr(arena, inputs[1]));
    lemma_pair(arena, schema, inputs[0], inputs[1], ctxt, before);
    assert(inputs =~= seq![inputs[0], inputs[1]]);
}

/// A take takes from the plan of its input, at what the plan of its index gives.
pub proof fn takes_keep_their_index(
    arena: Seq<AExpr>,
    schema: Option<&PlanSchema>,
    node: Node,
    ctxt: Context,
    before: ExpressionConversionState,
    r: Result<PhysicalExpr, PlanError>,
    after: ExpressionConversionState,
)
    requires
        is_expr(arena, node),
        arena[node.0 as int] is Take,
        converts(arena, schema, node, ctxt, before, r, after),
    ensures
        ({
            let x = plan(arena, schema, arena[node.0 as int]->Take_expr, ctxt, before);
            let y = plan(arena, schema, arena[node.0 as int]->Take_idx, ctxt, x.state);
            match r {
                Ok(p) => {
                    &&& p matches PhysicalExpr::Take { input: a, idx: b, expr }
                    &&& x.outcome == Outcome::Done((*a)@)
                    &&& y.outcome == Outcome::Done((*b)@)
                    &&& expr@ == tree(arena, node)
                    &&& after == y.state
                },
                Err(e) => stops(x, e, after) || (x.outcome is Done && stops(y, e, after)),
            }
        }),
{
    lemma_plan_inputs(arena, node);
    let inputs = arena[node.0 as int].inputs();
    assert(is_expr(arena, inputs[0]) && is_expr(arena, inputs[1]));
    lemma_pair(arena, schema, inputs[0], inputs[1], ctxt, before);
    assert(inputs =~= seq![inputs[0], inputs[1]]);
}

/// A filter filters the plan of its input, by what the plan of its predicate gives.
pub proof fn filters_keep_their_predicate(
    arena: Seq<AExpr>,
    schema: Option<&PlanSchema>,
    node: Node,
    ctxt: Context,
    before: ExpressionConversionState,
    r: Result<PhysicalExpr, PlanError>,
    after: ExpressionConversionState,
)
    requires
        is_expr(arena, node),
        arena[node.0 as int] is Filter,
        converts(arena, schema, node, ctxt, before, r, after),
    ensures
        ({
            let x = plan(arena, schema, arena[node.0 as int]->Filter_input, ctxt, before);
            let y = plan(arena, schema, arena[node.0 as int]->Filter_by, ctxt, x.state);
            match r {
                Ok(p) => {
                    &&& p matches PhysicalExpr::Filter { input: a, by: b, expr }
                    &&& x.outcome == Outcome::Done((*a)@)
                    &&& y.outcome == Outcome::Done((*b)@)
                    &&& expr@ == tree(arena, node)
                    &&& after == y.state
                },
                Err(e) => stops(x, e, after) || (x.outcome is Done && stops(y, e, after)),
            }
        }),
{
    lemma_plan_inputs(arena, node);
    let inputs = arena[node.0 as int].inputs();
    assert(is_expr(arena, inputs[0]) && is_expr(arena, inputs[1]));
    lemma_pair(arena, schema, inputs[0], inputs[1], ctxt, before);
    assert(inputs =~= seq![inputs[0], inputs[1]]);
}

/// A `when(..).then(..).otherwise(..)` has the plans of its predicate and of its two branches each
/// in its own place, in either context.
#[verifier::spinoff_prover]
#[verifier::rlimit(40)]
pub proof fn branches_keep_their_places(
    arena: Seq<AExpr>,
    schema: Option<&PlanSchema>,
    node: Node,
    ctxt: Context,
    before: ExpressionConversionState,
    r: Result<PhysicalExpr, PlanError>,
    after: ExpressionConversionState,
)
    requires
        is_expr(arena, node),
        arena[node.0 as int] is Ternary,
        converts(arena, schema, node, ctxt, before, r, after),
    ensures
        ({
            let x = plan(arena, schema, arena[node.0 as int]->Ternary_predicate, ctxt, before);
            let y = plan(arena, schema, arena[node.0 as int]->Ternary_truthy, ctxt, x.state);
            let z = plan(arena, schema, arena[node.0 as int]->Ternary_falsy, ctxt, y.state);
            match r {
                Ok(p) => {
                    &&& p matches PhysicalExpr::Ternary { predicate: a, truthy: b, falsy: c, expr }
                    &&& x.outcome == Outcome::Done((*a)@)
                    &&& y.outcome == Outcome::Done((*b)@)
                    &&& z.outcome == Outcome::Done((*c)@)
                    &&& expr@ == tree(arena, node)
                    &&& after == z.state
                },
                Err(e) => {
                    ||| stops(x, e, after)
                    ||| x.outcome is Done && stops(y, e, after)
                    ||| x.outcome is Done && y.outcome is Done && stops(z, e, after)
                },
            }
        }),
{
    lemma_plan_inputs(arena, node);
    let inputs = arena[node.0 as int].inputs();
    assert(is_expr(arena, inputs[0]) && is_expr(arena, inputs[1]) && is_expr(arena, inputs[2]));
    lemma_triple(arena, schema, inputs[0], inputs[1], inputs[2], ctxt, before);
    assert(inputs =~= seq![inputs[0], inputs[1], inputs[2]]);
}

/// A slice slices the plan of its input, from what its offset gives and as long as its length
/// gives. It is refused in a group-by where an implode is noted after all three, and nowhere else
/// for its own sake.
#[verifier::spinoff_prover]
#[verifier::rlimit(40)]
pub proof fn slices_keep_their_bounds(
    arena: Seq<AExpr>,
    schema: Option<&PlanSchema>,
    node: Node,
    ctxt: Context,
    before: ExpressionConversionState,
    r: Result<PhysicalExpr, PlanError>,
    after: ExpressionConversionState,
)
    requires
        is_expr(arena, node),
        arena[node.0 as int] is Slice,
        converts(arena, schema, node, ctxt, before, r, after),
    ensures
        ({
            let x = plan(arena, schema, arena[node.0 as int]->Slice_input, ctxt, before);
            let y = plan(arena, schema, arena[node.0 as int]->Slice_offset, ctxt, x.state);
            let z = plan(arena, schema, arena[node.0 as int]->Slice_length, ctxt, y.state);
            match r {
                Ok(p) => {
                    &&& p matches PhysicalExpr::Slice { input: a, offset: b, length: c, expr }
                    &&& x.outcome == Outcome::Done((*a)@)
                    &&& y.outcome == Outcome::Done((*b)@)
                    &&& z.outcome == Outcome::Done((*c)@)
                    &&& expr@ == tree(arena, node)
                    &&& !(z.state.local.has_implode && ctxt is Aggregation)
                    &&& after == z.state
                },
                Err(e) => {
                    ||| stops(x, e, after)
                    ||| x.outcome is Done && stops(y, e, after)
                    ||| x.outcome is Done && y.outcome is Done && stops(z, e, after)
                    ||| x.outcome is Done && y.outcome is Done && z.outcome is Done
                        && z.state.local.has_implode && ctxt is Aggregation && e is ImplodeThenSlice
                        && after == z.state
                },
            }
        }),
{
    lemma_plan_inputs(arena, node);
    let inputs = arena[node.0 as int].inputs();
    assert(is_expr(arena, inputs[0]) && is_expr(arena, inputs[1]) && is_expr(arena, inputs[2]));
    lemma_triple(arena, schema, inputs[0], inputs[1], inputs[2], ctxt, before);
    assert(inputs =~= seq![inputs[0], inputs[1], inputs[2]]);
}

/// A `sort_by` sorts the plan of its input by the plans of all that it is sorted by, in order and
/// in the directions that it gives. Without anything to sort by it is refused, before anything is
/// converted.
#[verifier::spinoff_prover]
#[verifier::rlimit(40)]
pub proof fn sort_bys_keep_their_keys(
    arena: Seq<AExpr>,
    schema: Option<&PlanSchema>,
    node: Node,
    ctxt: Context,
    before: ExpressionConversionState,
    r: Result<PhysicalExpr, PlanError>,
    after: ExpressionConversionState,
)
    requires
        is_expr(arena, node),
        arena[node.0 as int] is SortBy,
        converts(arena, schema, node, ctxt, before, r, after),
    ensures
        ({
            let by = arena[node.0 as int]->SortBy_by@;
            let x = plan(arena, schema, arena[node.0 as int]->SortBy_expr, ctxt, before);
            match r {
                Ok(p) => {
                    &&& p matches PhysicalExpr::SortBy { input, by: keys, descending, expr }
                    &&& by.len() > 0
                    &&& x.outcome == Outcome::Done((*input)@)
                    &&& each_has_its_plan(arena, schema, by, ctxt, x.state, keys@)
                    &&& descending == arena[node.0 as int]->SortBy_descending
                    &&& expr@ == tree(arena, node)
                    &&& after == left_by(arena, schema, by, ctxt, x.state)
                },
                Err(e) => {
                    ||| by.len() == 0 && e is EmptySortBy && after == before
                    ||| by.len() > 0 && stops(x, e, after)
                    ||| by.len() > 0 && x.outcome is Done && exists|k: int| #[trigger]
                        stops_at(arena, schema, by, ctxt, x.state, k, e, after)
                },
            }
        }),
{
    lemma_plan_inputs(arena, node);
    let by = arena[node.0 as int]->SortBy_by@;
    let x = plan(arena, schema, arena[node.0 as int]->SortBy_expr, ctxt, before);
    if by.len() > 0 && x.outcome is Done {
        lemma_list(arena, schema, by, ctxt, AcceptAll, x.state);
        match r {
            Ok(PhysicalExpr::SortBy { by: keys, .. }) => {
                lists_are_viewed_item_by_item(keys@);
                lemma_each(arena, schema, by, ctxt, AcceptAll, x.state, keys@);
            },
            Ok(_) => {},
            Err(e) => {
                lemma_stops_at(arena, schema, by, ctxt, x.state, e, after);
            },
        }
    }
}

/// What an aggregation aggregates.
pub open spec fn aggregated(agg: AAggExpr) -> Node {
    match agg {
        AAggExpr::Min { input, .. } => input,
        AAggExpr::Max { input, .. } => input,
        AAggExpr::Median(input) => input,
        AAggExpr::NUnique(input) => input,
        AAggExpr::First(input) => input,
        AAggExpr::Last(input) => input,
        AAggExpr::Mean(input) => input,
        AAggExpr::Implode(input) => input,
        AAggExpr::Quantile { expr, .. } => expr,
        AAggExpr::Sum(input) => input,
        AAggExpr::Count(input) => input,
        AAggExpr::Std(input, _) => input,
        AAggExpr::Var(input, _) => input,
        AAggExpr::AggGroups(input) => input,
    }
}

/// The state `left` with an aggregation noted: an implode if it is one.
pub open spec fn with_aggregation(
    left: ExpressionConversionState,
    agg: AAggExpr,
) -> ExpressionConversionState {
    ExpressionConversionState {
        has_cache: left.has_cache,
        allow_threading: left.allow_threading,
        has_windows: left.has_windows,
        local: LocalConversionState {
            has_implode: left.local.has_implode || agg is Implode,
            has_window: left.local.has_window,
        },
    }
}

/// `function` computes `agg` on a whole column: it is of the same kind, and has the same
/// parameters. One that can split its work goes by the state `noted`.
pub open spec fn computes(
    function: SeriesFunction,
    agg: AAggExpr,
    noted: ExpressionConversionState,
) -> bool {
    match function {
        SeriesFunction::Min { propagate_nans, state } => state == noted && (agg matches
            AAggExpr::Min { propagate_nans: asked, .. } && propagate_nans == asked),
        SeriesFunction::Max { propagate_nans, state } => state == noted && (agg matches
            AAggExpr::Max { propagate_nans: asked, .. } && propagate_nans == asked),
        SeriesFunction::Median => agg is Median,
        SeriesFunction::NUnique => agg is NUnique,
        SeriesFunction::First => agg is First,
        SeriesFunction::Last => agg is Last,
        SeriesFunction::Mean => agg is Mean,
        SeriesFunction::Implode => agg is Implode,
        SeriesFunction::Sum { state } => state == noted && agg is Sum,
        SeriesFunction::Count => agg is Count,
        SeriesFunction::Std(ddof) => agg matches AAggExpr::Std(_, asked) && ddof == asked,
        SeriesFunction::Var(ddof) => agg matches AAggExpr::Var(_, asked) && ddof == asked,
        SeriesFunction::Explode => false,
    }
}

/// `method` computes `agg` on groups: it is of the same kind, and has the same parameters.
pub open spec fn aggregates(method: GroupByMethod, agg: AAggExpr) -> bool {
    match method {
        GroupByMethod::Min => agg matches AAggExpr::Min { propagate_nans, .. } && !propagate_nans,
        GroupByMethod::NanMin => agg matches AAggExpr::Min { propagate_nans, .. } && propagate_nans,
        GroupByMethod::Max => agg matches AAggExpr::Max { propagate_nans, .. } && !propagate_nans,
        GroupByMethod::NanMax => agg matches AAggExpr::Max { propagate_nans, .. } && propagate_nans,
        GroupByMethod::Median => agg is Median,
        GroupByMethod::Mean => agg is Mean,
        GroupByMethod::First => agg is First,
        GroupByMethod::Last => agg is Last,
        GroupByMethod::Sum => agg is Sum,
        GroupByMethod::Groups => agg is AggGroups,
        GroupByMethod::NUnique => agg is NUnique,
        GroupByMethod::Count => agg is Count,
        GroupByMethod::Implode => agg is Implode,
        GroupByMethod::Std(ddof) => agg matches AAggExpr::Std(_, asked) && ddof == asked,
        GroupByMethod::Var(ddof) => agg matches AAggExpr::Var(_, asked) && ddof == asked,
    }
}

/// Every aggregation but a quantile and that of the groups themselves has a function on whole
/// columns, and every one but a quantile a method on groups; each computes the aggregation that it
/// is of.
pub proof fn aggregations_have_their_functions(agg: AAggExpr, state: ExpressionConversionState)
    ensures
        match agg.function(state) {
            Some(function) => computes(function, agg, state),
            None => agg is Quantile || agg is AggGroups,
        },
        match agg.method() {
            Some(method) => aggregates(method, agg),
            None => agg is Quantile,
        },
{
}

/// An aggregation of whole columns applies, to the plan of what it aggregates, the function that
/// computes just that aggregation, on whole columns. It is refused only where what it aggregates
/// is.
#[verifier::spinoff_prover]
#[verifier::rlimit(40)]
pub proof fn aggregations_of_columns_compute_what_they_say(
    arena: Seq<AExpr>,
    schema: Option<&PlanSchema>,
    node: Node,
    ctxt: Context,
    before: ExpressionConversionState,
    r: Result<PhysicalExpr, PlanError>,
    after: ExpressionConversionState,
)
    requires
        is_expr(arena, node),
        arena[node.0 as int] matches AExpr::Agg(agg) && !(agg is Quantile),
        ctxt is Default,
        converts(arena, schema, node, ctxt, before, r, after),
    ensures
        ({
            let agg = arena[node.0 as int]->Agg_0;
            let x = plan(arena, schema, aggregated(agg), ctxt, before);
            match r {
                Ok(p) => {
                    &&& p matches PhysicalExpr::ApplyMinimal {
                        inputs,
                        function,
                        expr,
                        collect_groups,
                    }
                    &&& inputs@.len() == 1
                    &&& x.outcome == Outcome::Done(inputs@[0]@)
                    &&& computes(function, agg, with_aggregation(x.state, agg))
                    &&& collect_groups is ApplyFlat
                    &&& expr@ == tree(arena, node)
                    &&& after == with_aggregation(x.state, agg)
                },
                Err(e) => stops(x, e, after),
            }
        }),
{
    lemma_plan_inputs(arena, node);
    if let Ok(PhysicalExpr::ApplyMinimal { inputs, .. }) = r {
        lists_are_viewed_item_by_item(inputs@);
        assert(plans_of(inputs@)[0] == inputs@[0]@);
    }
}

/// An aggregation of groups aggregates the plan of what it aggregates by the method of just that
/// aggregation, and has the field that the schema, if there is one, has for it. It is refused where
/// what it aggregates is, where an implode is noted after that, and where the schema has an error
/// in place of the field.
#[verifier::spinoff_prover]
#[verifier::rlimit(40)]
pub proof fn aggregations_of_groups_compute_what_they_say(
    arena: Seq<AExpr>,
    schema: Option<&PlanSchema>,
    node: Node,
    ctxt: Context,
    before: ExpressionConversionState,
    r: Result<PhysicalExpr, PlanError>,
    after: ExpressionConversionState,
)
    requires
        is_expr(arena, node),
        arena[node.0 as int] matches AExpr::Agg(agg) && !(agg is Quantile),
        ctxt is Aggregation,
        converts(arena, schema, node, ctxt, before, r, after),
    ensures
        ({
            let agg = arena[node.0 as int]->Agg_0;
            let x = plan(arena, schema, aggregated(agg), ctxt, before);
            match r {
                Ok(p) => {
                    &&& p matches PhysicalExpr::Aggregation { input, agg_type, field }
                    &&& x.outcome == Outcome::Done((*input)@)
                    &&& aggregates(agg_type, agg)
                    &&& match schema {
                        Some(s) => {
                            &&& node.0 < s.fields@.len()
                            &&& s.fields@[node.0 as int] matches Some(FieldOutcome::Resolved(known))
                            &&& field == Some(known)
                        },
                        None => field is None,
                    }
                    &&& !x.state.local.has_implode
                    &&& after == with_aggregation(x.state, agg)
                },
                Err(e) => {
                    ||| stops(x, e, after)
                    ||| x.outcome is Done && x.state.local.has_implode && ctxt is Aggregation && e
                        is ImplodeThenAggregation && after == x.state
                    ||| {
                        &&& x.outcome is Done
                        &&& !x.state.local.has_implode
                        &&& after == with_aggregation(x.state, agg)
                        &&& schema matches Some(s)
                        &&& node.0 < s.fields@.len()
                        &&& s.fields@[node.0 as int] matches Some(FieldOutcome::Failed(cause))
                        &&& e == PlanError::Field(cause)
                    }
                },
            }
        }),
{
    lemma_plan_inputs(arena, node);
}

/// A quantile is taken of the plan of its input, at what the plan of its own quantile gives, and
/// between two values as it says. Its input is converted twice, and the plan is that of the second
/// time. It is refused where one of the conversions is, and in a group-by where an implode is noted
/// after the first.
#[verifier::spinoff_prover]
#[verifier::rlimit(40)]
pub proof fn quantiles_keep_their_parts(
    arena: Seq<AExpr>,
    schema: Option<&PlanSchema>,
    node: Node,
    ctxt: Context,
    before: ExpressionConversionState,
    r: Result<PhysicalExpr, PlanError>,
    after: ExpressionConversionState,
)
    requires
        is_expr(arena, node),
        arena[node.0 as int] matches AExpr::Agg(agg) && agg is Quantile,
        converts(arena, schema, node, ctxt, before, r, after),
    ensures
        ({
            let agg = arena[node.0 as int]->Agg_0;
            let x = plan(arena, schema, agg->Quantile_expr, ctxt, before);
            let y = plan(arena, schema, agg->Quantile_expr, ctxt, x.state);
            let z = plan(arena, schema, agg->Quantile_quantile, ctxt, y.state);
            match r {
                Ok(p) => {
                    &&& p matches PhysicalExpr::AggQuantile { input, quantile, interpol }
                    &&& x.outcome is Done
                    &&& y.outcome == Outcome::Done((*input)@)
                    &&& z.outcome == Outcome::Done((*quantile)@)
                    &&& interpol == agg->Quantile_interpol
                    &&& !(x.state.local.has_implode && ctxt is Aggregation)
                    &&& after == z.state
                },
                Err(e) => {
                    ||| stops(x, e, after)
                    ||| x.outcome is Done && x.state.local.has_implode && ctxt is Aggregation && e
                        is ImplodeThenAggregation && after == x.state
                    ||| x.outcome is Done && !(x.state.local.has_implode && ctxt is Aggregation) && (
                    stops(y, e, after) || (y.outcome is Done && stops(z, e, after)))
                },
            }
        }),
{
    lemma_plan_inputs(arena, node);
    let agg = arena[node.0 as int]->Agg_0;
    let inputs = agg.inputs();
    let x = plan(arena, schema, inputs[0], ctxt, before);
    assert(is_expr(arena, inputs[0]) && is_expr(arena, inputs[1]));
    lemma_pair(arena, schema, inputs[0], inputs[1], ctxt, x.state);
    assert(x.state.after_agg(false) == x.state);
    assert(inputs =~= seq![inputs[0], inputs[1]]);
}

/// Whether an implode noted of an input has a function refused: in a group-by, if the function
/// makes one row of a group, or if it stands in a window.
pub open spec fn bars_implodes(
    options: FunctionOptions,
    ctxt: Context,
    before: ExpressionConversionState,
) -> bool {
    &&& ctxt is Aggregation
    &&& (options.auto_explode && options.collect_groups is ApplyGroups) || before.local.has_window
}

/// The function, the inputs and the options of a function of the user or of the expression
/// language.
pub open spec fn function_parts(expr: AExpr) -> Option<
    (ApplyFunction, Seq<Node>, FunctionOptions),
> {
    match expr {
        AExpr::AnonymousFunction { input, function, options, .. } => Some(
            (ApplyFunction::Anonymous(function), input@, options),
        ),
        AExpr::Function { input, function, options } => Some(
            (ApplyFunction::Function(function), input@, options),
        ),
        _ => None,
    }
}

#[verifier::spinoff_prover]
proof fn lemma_function(
    arena: Seq<AExpr>,
    schema: Option<&PlanSchema>,
    node: Node,
    ctxt: Context,
    before: ExpressionConversionState,
)
    requires
        is_expr(arena, node),
        function_parts(arena[node.0 as int]) is Some,
    ensures
        ({
            let (asked, nodes, options) = function_parts(arena[node.0 as int])->0;
            let whole = plan_all(
                arena,
                schema,
                nodes,
                ctxt,
                input_check(options, ctxt, before),
                before,
            );
            let planned = plan(arena, schema, node, ctxt, before);
            &&& planned.state == whole.state
            &&& match whole.outcome {
                Outcome::Done(inputs) => planned.outcome == Outcome::Done(
                    PlanTree::Apply {
                        inputs,
                        function: asked,
                        expr: tree(arena, node),
                        collect_groups: options.collect_groups,
                        auto_explode: options.auto_explode,
                        allow_rename: options.allow_rename,
                        pass_name_to_apply: options.pass_name_to_apply,
                        input_schema: match schema {
                            Some(s) => Some(s.schema),
                            None => None,
                        },
                        allow_threading: !whole.state.has_cache,
                        check_lengths: options.check_lengths,
                        allow_group_aware: options.allow_group_aware,
                    },
                ),
                Outcome::Refused(x) => planned.outcome == Outcome::<PlanTree>::Refused(x),
                Outcome::Unplannable => planned.outcome is Unplannable,
            }
        }),
{
    lemma_plan_inputs(arena, node);
    let (asked, nodes, options) = function_parts(arena[node.0 as int])->0;
    assert(nodes =~= arena[node.0 as int].inputs());
}

/// A function is applied to the plans of all its inputs, in order, with every option as it is
/// given, the schema of the frame, and threads unless there is a cache. It is refused where an
/// input is, and, where it bars implodes, with the first input after which one is noted.
#[verifier::spinoff_prover]
#[verifier::rlimit(40)]
pub proof fn functions_keep_their_inputs_and_options(
    arena: Seq<AExpr>,
    schema: Option<&PlanSchema>,
    node: Node,
    ctxt: Context,
    before: ExpressionConversionState,
    r: Result<PhysicalExpr, PlanError>,
    after: ExpressionConversionState,
)
    requires
        is_expr(arena, node),
        function_parts(arena[node.0 as int]) is Some,
        converts(arena, schema, node, ctxt, before, r, after),
    ensures
        ({
            let (asked, nodes, options) = function_parts(arena[node.0 as int])->0;
            let bars = bars_implodes(options, ctxt, before);
            match r {
                Ok(p) => {
                    &&& p is Apply
                    &&& each_has_its_plan(arena, schema, nodes, ctxt, before, p->Apply_inputs@)
                    &&& after == left_by(arena, schema, nodes, ctxt, before)
                    &&& bars ==> forall|i: int|
                        0 <= i < nodes.len() ==> !(#[trigger] item(
                            arena,
                            schema,
                            nodes,
                            ctxt,
                            before,
                            i,
                        )).state.local.has_implode
                    &&& p->Apply_function == asked
                    &&& p->Apply_expr@ == tree(arena, node)
                    &&& p->Apply_collect_groups == options.collect_groups
                    &&& p->Apply_auto_explode == options.auto_explode
                    &&& p->Apply_allow_rename == options.allow_rename
                    &&& p->Apply_pass_name_to_apply == options.pass_name_to_apply
                    &&& p->Apply_check_lengths == options.check_lengths
                    &&& p->Apply_allow_group_aware == options.allow_group_aware
                    &&& p->Apply_allow_threading == !before.has_cache
                    &&& match schema {
                        Some(s) => p->Apply_input_schema == Some(s.schema),
                        None => p->Apply_input_schema is None,
                    }
                },
                Err(e) => exists|k: int|
                    {
                        let last = #[trigger] item(arena, schema, nodes, ctxt, before, k);
                        &&& 0 <= k < nodes.len()
                        &&& after == last.state
                        &&& forall|i: int|
                            0 <= i < k ==> {
                                let one = #[trigger] item(arena, schema, nodes, ctxt, before, i);
                                one.outcome is Done && !(bars && one.state.local.has_implode)
                            }
                        &&& if bars && last.state.local.has_implode {
                            e is ImplodeThenAggregation
                        } else {
                            last.outcome == Outcome::<PlanTree>::Refused(e@)
                        }
                    },
            }
        }),
{
    lemma_plan_inputs(arena, node);
    let (asked, nodes, options) = function_parts(arena[node.0 as int])->0;
    let check = input_check(options, ctxt, before);
    let bars = bars_implodes(options, ctxt, before);
    let whole = plan_all(arena, schema, nodes, ctxt, check, before);
    lemma_function(arena, schema, node, ctxt, before);
    assert(nodes =~= arena[node.0 as int].inputs());
    list_conversion_keeps_settings(arena, schema, nodes, ctxt, check, before);
    lemma_list(arena, schema, nodes, ctxt, check, before);
    match r {
        Ok(p) => {
            lemma_each(arena, schema, nodes, ctxt, check, before, p->Apply_inputs@);
            if bars {
                assert forall|i: int| 0 <= i < nodes.len() implies !(#[trigger] item(
                    arena,
                    schema,
                    nodes,
                    ctxt,
                    before,
                    i,
                )).state.local.has_implode by {
                    assert(check.verdict(item(arena, schema, nodes, ctxt, before, i).state)
                        is None);
                }
            }
        },
        Err(e) => {
            let k = choose|k: int|
                {
                    let last = #[trigger] item(arena, schema, nodes, ctxt, before, k);
                    &&& 0 <= k < nodes.len()
                    &&& whole.state == last.state
                    &&& !(last.outcome is Unplannable)
                    &&& forall|i: int|
                        0 <= i < k ==> {
                            let one = #[trigger] item(arena, schema, nodes, ctxt, before, i);
                            one.outcome is Done && check.verdict(one.state) is None
                        }
                    &&& match check.verdict(last.state) {
                        Some(y) => e@ == y,
                        None => last.outcome == Outcome::<PlanTree>::Refused(e@),
                    }
                };
            assert forall|i: int| 0 <= i < k implies {
                let one = #[trigger] item(arena, schema, nodes, ctxt, before, i);
                one.outcome is Done && !(bars && one.state.local.has_implode)
            } by {
                assert(check.verdict(item(arena, schema, nodes, ctxt, before, i).state) is None);
            }
            let last = item(arena, schema, nodes, ctxt, before, k);
            assert(0 <= k < nodes.len() && after == last.state);
        },
    }
}

/// The state `left` with a window noted.
pub open spec fn with_window(left: ExpressionConversionState) -> ExpressionConversionState {
    ExpressionConversionState {
        has_cache: left.has_cache,
        allow_threading: left.allow_threading,
        has_windows: true,
        local: LocalConversionState { has_implode: left.local.has_implode, has_window: true },
    }
}

/// `names` are the columns to hand to a function: those that it reads, each once and in increasing
/// order, or where it reads none, one name that says that it holds a literal or else a count.
pub open spec fn hands_over(function: ExprTree, names: Seq<Seq<char>>) -> bool {
    if exists|n: Seq<char>| reads_column(function, n) {
        increasing(names) && forall|n: Seq<char>| #[trigger]
            names.contains(n) <==> reads_column(function, n)
    } else if holds(function, LeafKind::Literal) {
        names == seq!["literal"@]
    } else {
        holds(function, LeafKind::Count) && names == seq!["count"@]
    }
}

/// A window is converted partitions first, on whole columns, then its function, on groups, with the
/// window noted before each. Its plan has the plans of all the partitions, in order, and that of
/// the function; the columns that the function reads; and the function on its own, without an
/// alias, whose name is kept apart. It is refused where one of these conversions is, and where
/// there is no column to hand over.
#[verifier::spinoff_prover]
#[verifier::rlimit(40)]
pub proof fn windows_keep_their_parts(
    arena: Seq<AExpr>,
    schema: Option<&PlanSchema>,
    node: Node,
    ctxt: Context,
    before: ExpressionConversionState,
    r: Result<PhysicalExpr, PlanError>,
    after: ExpressionConversionState,
)
    requires
        is_expr(arena, node),
        arena[node.0 as int] is Window,
        converts(arena, schema, node, ctxt, before, r, after),
    ensures
        ({
            let nodes = arena[node.0 as int]->Window_partition_by@;
            let function = arena[node.0 as int]->Window_function;
            let whole = tree(arena, function);
            let first = with_window(before);
            let second = with_window(left_by(arena, schema, nodes, Context::Default, first));
            let f = plan(arena, schema, function, Context::Aggregation, second);
            match r {
                Ok(p) => {
                    &&& p is Window
                    &&& each_has_its_plan(
                        arena,
                        schema,
                        nodes,
                        Context::Default,
                        first,
                        p->Window_group_by@,
                    )
                    &&& f.outcome == Outcome::Done((*p->Window_phys_function)@)
                    &&& hands_over(whole, names_of(p->Window_apply_columns@))
                    &&& match arena[function.0 as int] {
                        AExpr::Alias(inner, name) => p->Window_function@ == tree(arena, inner) && (
                        p->Window_out_name matches Some(out_name) && out_name@ == name@),
                        _ => p->Window_function@ == whole && p->Window_out_name is None,
                    }
                    &&& p->Window_options == arena[node.0 as int]->Window_options
                    &&& p->Window_expr@ == tree(arena, node)
                    &&& after == f.state
                },
                Err(e) => {
                    ||| exists|k: int| #[trigger]
                        stops_at(arena, schema, nodes, Context::Default, first, k, e, after)
                    ||| {
                        &&& forall|i: int|
                            0 <= i < nodes.len() ==> (#[trigger] item(
                                arena,
                                schema,
                                nodes,
                                Context::Default,
                                first,
                                i,
                            )).outcome is Done
                        &&& {
                            ||| stops(f, e, after)
                            ||| {
                                &&& f.outcome is Done
                                &&& after == f.state
                                &&& forall|n: Seq<char>| !reads_column(whole, n)
                                &&& !holds(whole, LeafKind::Literal)
                                &&& !holds(whole, LeafKind::Count)
                                &&& e matches PlanError::NoRootColumn(shown) && shown@ == whole
                            }
                        }
                    }
                },
            }
        }),
{
    lemma_plan_inputs(arena, node);
    let nodes = arena[node.0 as int]->Window_partition_by@;
    let function = arena[node.0 as int]->Window_function;
    let whole = tree(arena, function);
    let first = with_window(before);
    let groups = plan_all(arena, schema, nodes, Context::Default, AcceptAll, first);
    assert(first == before.after_window());
    lemma_list(arena, schema, nodes, Context::Default, AcceptAll, first);
    listed_columns_are_those_read(whole);
    if groups.outcome is Done {
        let second = with_window(left_by(arena, schema, nodes, Context::Default, first));
        assert(second == groups.state.after_window());
        match r {
            Ok(p) => {
                lemma_each(
                    arena,
                    schema,
                    nodes,
                    Context::Default,
                    AcceptAll,
                    first,
                    p->Window_group_by@,
                );
            },
            Err(e) => {},
        }
    } else if let Err(e) = r {
        lemma_stops_at(arena, schema, nodes, Context::Default, first, e, after);
    }
}

/// Whether the conversion of a list cannot go on: the expressions before some place have plans, and
/// no implode that is barred, and the one there can neither be planned nor refused.
pub open spec fn list_is_stuck(
    arena: Seq<AExpr>,
    schema: Option<&PlanSchema>,
    nodes: Seq<Node>,
    ctxt: Context,
    before: ExpressionConversionState,
    bars: bool,
) -> bool {
    exists|k: int|
        {
            &&& 0 <= k < nodes.len()
            &&& (#[trigger] item(arena, schema, nodes, ctxt, before, k)).outcome is Unplannable
            &&& forall|i: int|
                0 <= i < k ==> {
                    let one = #[trigger] item(arena, schema, nodes, ctxt, before, i);
                    one.outcome is Done && !(bars && one.state.local.has_implode)
                }
        }
}

proof fn lemma_list_is_stuck(
    arena: Seq<AExpr>,
    schema: Option<&PlanSchema>,
    nodes: Seq<Node>,
    ctxt: Context,
    before: ExpressionConversionState,
    check: RejectImplode,
)
    requires
        are_exprs(arena, nodes),
    ensures
        plan_all(arena, schema, nodes, ctxt, check, before).outcome is Unplannable <==> list_is_stuck(
            arena,
            schema,
            nodes,
            ctxt,
            before,
            check.active,
        ),
        plan_all(arena, schema, nodes, ctxt, AcceptAll, before).outcome is Unplannable
            <==> list_is_stuck(arena, schema, nodes, ctxt, before, false),
{
    lemma_list(arena, schema, nodes, ctxt, check, before);
    lemma_list(arena, schema, nodes, ctxt, AcceptAll, before);
    if list_is_stuck(arena, schema, nodes, ctxt, before, check.active) {
        lemma_stuck_list(arena, schema, nodes, ctxt, before, check, check.active);
    }
    if list_is_stuck(arena, schema, nodes, ctxt, before, false) {
        lemma_stuck_list(arena, schema, nodes, ctxt, before, AcceptAll, false);
    }
    if plan_all(arena, schema, nodes, ctxt, check, before).outcome is Unplannable {
        let k = choose|k: int|
            {
                let last = #[trigger] item(arena, schema, nodes, ctxt, before, k);
                &&& 0 <= k < nodes.len()
                &&& last.outcome is Unplannable
                &&& forall|i: int|
                    0 <= i < k ==> {
                        let one = #[trigger] item(arena, schema, nodes, ctxt, before, i);
                        one.outcome is Done && check.verdict(one.state) is None
                    }
            };
        assert forall|i: int| 0 <= i < k implies {
            let one = #[trigger] item(arena, schema, nodes, ctxt, before, i);
            one.outcome is Done && !(check.active && one.state.local.has_implode)
        } by {
            assert(check.verdict(item(arena, schema, nodes, ctxt, before, i).state) is None);
        }
        assert(item(arena, schema, nodes, ctxt, before, k).outcome is Unplannable);
    }
}

proof fn lemma_stuck_list<C: StateCheck>(
    arena: Seq<AExpr>,
    schema: Option<&PlanSchema>,
    nodes: Seq<Node>,
    ctxt: Context,
    before: ExpressionConversionState,
    check: C,
    bars: bool,
)
    requires
        are_exprs(arena, nodes),
        list_is_stuck(arena, schema, nodes, ctxt, before, bars),
        forall|s: ExpressionConversionState|
            (#[trigger] check.verdict(s)) is None <==> !(bars && s.local.has_implode),
    ensures
        plan_all(arena, schema, nodes, ctxt, check, before).outcome is Unplannable,
{
    lemma_list(arena, schema, nodes, ctxt, check, before);
    let k = choose|k: int|
        {
            &&& 0 <= k < nodes.len()
            &&& (#[trigger] item(arena, schema, nodes, ctxt, before, k)).outcome is Unplannable
            &&& forall|i: int|
                0 <= i < k ==> {
                    let one = #[trigger] item(arena, schema, nodes, ctxt, before, i);
                    one.outcome is Done && !(bars && one.state.local.has_implode)
                }
        };
    let whole = plan_all(arena, schema, nodes, ctxt, check, before);
    assert(item(arena, schema, nodes, ctxt, before, k).outcome is Unplannable);
    if let Outcome::Refused(x) = whole.outcome {
        let m = choose|k: int|
            {
                let last = #[trigger] item(arena, schema, nodes, ctxt, before, k);
                &&& 0 <= k < nodes.len()
                &&& whole.state == last.state
                &&& !(last.outcome is Unplannable)
                &&& forall|i: int|
                    0 <= i < k ==> {
                        let one = #[trigger] item(arena, schema, nodes, ctxt, before, i);
                        one.outcome is Done && check.verdict(one.state) is None
                    }
                &&& match check.verdict(last.state) {
                    Some(y) => x == y,
                    None => last.outcome == Outcome::<PlanTree>::Refused(x),
                }
            };
        assert(!(item(arena, schema, nodes, ctxt, before, m).outcome is Unplannable));
        if m < k {
            let one = item(arena, schema, nodes, ctxt, before, m);
            assert(one.outcome is Done && check.verdict(one.state) is None);
        }
    }
}

/// An expression with inputs that are converted in turn, and without a list of them, can neither be
/// planned nor refused only where that is so of an input that its turn comes to.
#[verifier::spinoff_prover]
#[verifier::rlimit(40)]
pub proof fn inputs_decide_whether_there_is_an_answer(
    arena: Seq<AExpr>,
    schema: Option<&PlanSchema>,
    node: Node,
    ctxt: Context,
    before: ExpressionConversionState,
)
    requires
        is_expr(arena, node),
    ensures
        ({
            let unplannable = plan(arena, schema, node, ctxt, before).outcome is Unplannable;
            let one = |a: Node| plan(arena, schema, a, ctxt, before).outcome is Unplannable;
            let two = |a: Node, b: Node|
                {
                    let x = plan(arena, schema, a, ctxt, before);
                    let y = plan(arena, schema, b, ctxt, x.state);
                    x.outcome is Unplannable || (x.outcome is Done && y.outcome is Unplannable)
                };
            let three = |a: Node, b: Node, c: Node|
                {
                    let x = plan(arena, schema, a, ctxt, before);
                    let y = plan(arena, schema, b, ctxt, x.state);
                    let z = plan(arena, schema, c, ctxt, y.state);
                    ||| x.outcome is Unplannable
                    ||| x.outcome is Done && y.outcome is Unplannable
                    ||| x.outcome is Done && y.outcome is Done && z.outcome is Unplannable
                };
            match arena[node.0 as int] {
                AExpr::Count => !unplannable,
                AExpr::Literal(_) => !unplannable,
                AExpr::Column(_) => !unplannable,
                AExpr::Wildcard => unplannable,
                AExpr::Nth(_) => unplannable,
                AExpr::Explode(a) => unplannable <==> one(a),
                AExpr::Alias(a, _) => unplannable <==> one(a),
                AExpr::Cast { expr: a, .. } => unplannable <==> one(a),
                AExpr::Sort { expr: a, .. } => unplannable <==> one(a),
                AExpr::BinaryExpr { left, right, .. } => unplannable <==> two(left, right),
                AExpr::Take { expr: a, idx } => unplannable <==> two(a, idx),
                AExpr::Filter { input, by } => unplannable <==> two(input, by),
                AExpr::Ternary { predicate, truthy, falsy } => unplannable <==> three(
                    predicate,
                    truthy,
                    falsy,
                ),
                AExpr::Slice { input, offset, length } => unplannable <==> three(
                    input,
                    offset,
                    length,
                ),
                _ => true,
            }
        }),
{
    lemma_plan_inputs(arena, node);
    let inputs = arena[node.0 as int].inputs();
    match arena[node.0 as int] {
        AExpr::BinaryExpr { .. } | AExpr::Take { .. } | AExpr::Filter { .. } => {
            assert(is_expr(arena, inputs[0]) && is_expr(arena, inputs[1]));
            lemma_pair(arena, schema, inputs[0], inputs[1], ctxt, before);
            assert(inputs =~= seq![inputs[0], inputs[1]]);
        },
        AExpr::Ternary { .. } | AExpr::Slice { .. } => {
            assert(is_expr(arena, inputs[0]) && is_expr(arena, inputs[1]) && is_expr(
                arena,
                inputs[2],
            ));
            lemma_triple(arena, schema, inputs[0], inputs[1], inputs[2], ctxt, before);
            assert(inputs =~= seq![inputs[0], inputs[1], inputs[2]]);
        },
        _ => {},
    }
}

/// An aggregation can neither be planned nor refused only where that is so of what it reads, where
/// it is that of the groups on whole columns, and where, on groups, a schema does not know its
/// field.
#[verifier::spinoff_prover]
#[verifier::rlimit(40)]
pub proof fn aggregations_without_an_answer(
    arena: Seq<AExpr>,
    schema: Option<&PlanSchema>,
    node: Node,
    ctxt: Context,
    before: ExpressionConversionState,
)
    requires
        is_expr(arena, node),
        arena[node.0 as int] is Agg,
    ensures
        ({
            let agg = arena[node.0 as int]->Agg_0;
            let x = plan(arena, schema, aggregated(agg), ctxt, before);
            let refused = x.state.local.has_implode && ctxt is Aggregation;
            plan(arena, schema, node, ctxt, before).outcome is Unplannable <==> {
                ||| x.outcome is Unplannable
                ||| x.outcome is Done && !refused && match agg {
                    AAggExpr::Quantile { expr, quantile, .. } => {
                        let y = plan(arena, schema, expr, ctxt, x.state);
                        let z = plan(arena, schema, quantile, ctxt, y.state);
                        y.outcome is Unplannable || (y.outcome is Done && z.outcome is Unplannable)
                    },
                    _ => match ctxt {
                        Context::Default => agg is AggGroups,
                        Context::Aggregation => match schema {
                            Some(s) => node.0 >= s.fields@.len()
                                || s.fields@[node.0 as int] is None,
                            None => false,
                        },
                    },
                }
            }
        }),
{
    lemma_plan_inputs(arena, node);
    let agg = arena[node.0 as int]->Agg_0;
    let inputs = agg.inputs();
    assert(aggregated(agg) == inputs[0]);
    let x = plan(arena, schema, inputs[0], ctxt, before);
    if agg is Quantile {
        assert(is_expr(arena, inputs[0]) && is_expr(arena, inputs[1]));
        lemma_pair(arena, schema, inputs[0], inputs[1], ctxt, x.state);
        assert(x.state.after_agg(false) == x.state);
        assert(inputs =~= seq![inputs[0], inputs[1]]);
    }
}

/// An expression with a list of inputs can neither be planned nor refused only where that is so of
/// an input that its turn comes to, and a window also where its function holds a wildcard.
#[verifier::spinoff_prover]
#[verifier::rlimit(40)]
pub proof fn lists_decide_whether_there_is_an_answer(
    arena: Seq<AExpr>,
    schema: Option<&PlanSchema>,
    node: Node,
    ctxt: Context,
    before: ExpressionConversionState,
)
    requires
        is_expr(arena, node),
    ensures
        ({
            let unplannable = plan(arena, schema, node, ctxt, before).outcome is Unplannable;
            match arena[node.0 as int] {
                AExpr::SortBy { expr, by, .. } => {
                    let x = plan(arena, schema, expr, ctxt, before);
                    unplannable <==> by@.len() > 0 && (x.outcome is Unplannable || (x.outcome is Done
                        && list_is_stuck(arena, schema, by@, ctxt, x.state, false)))
                },
                AExpr::Window { function, partition_by, .. } => {
                    let first = with_window(before);
                    let second = with_window(
                        left_by(arena, schema, partition_by@, Context::Default, first),
                    );
                    let f = plan(arena, schema, function, Context::Aggregation, second);
                    let planned = forall|i: int|
                        0 <= i < partition_by@.len() ==> (#[trigger] item(
                            arena,
                            schema,
                            partition_by@,
                            Context::Default,
                            first,
                            i,
                        )).outcome is Done;
                    unplannable <==> {
                        ||| list_is_stuck(
                            arena,
                            schema,
                            partition_by@,
                            Context::Default,
                            first,
                            false,
                        )
                        ||| planned && f.outcome is Unplannable
                        ||| planned && f.outcome is Done && holds(
                            tree(arena, function),
                            LeafKind::Wildcard,
                        )
                    }
                },
                _ => true,
            }
        }),
        function_parts(arena[node.0 as int]) matches Some((_, nodes, options)) ==> (plan(
            arena,
            schema,
            node,
            ctxt,
            before,
        ).outcome is Unplannable <==> list_is_stuck(
            arena,
            schema,
            nodes,
            ctxt,
            before,
            bars_implodes(options, ctxt, before),
        )),
{
    lemma_plan_inputs(arena, node);
    match arena[node.0 as int] {
        AExpr::SortBy { expr, by, .. } => {
            let x = plan(arena, schema, expr, ctxt, before);
            let none = RejectImplode { active: false };
            lemma_list_is_stuck(arena, schema, by@, ctxt, x.state, none);
        },
        AExpr::Window { function, partition_by, .. } => {
            let first = with_window(before);
            let none = RejectImplode { active: false };
            assert(first == before.after_window());
            lemma_list_is_stuck(arena, schema, partition_by@, Context::Default, first, none);
            lemma_list(arena, schema, partition_by@, Context::Default, AcceptAll, first);
            let groups = plan_all(
                arena,
                schema,
                partition_by@,
                Context::Default,
                AcceptAll,
                first,
            );
            if groups.outcome is Done {
                let left = left_by(arena, schema, partition_by@, Context::Default, first);
                assert(with_window(left) == groups.state.after_window());
            }
        },
        _ => {
            if function_parts(arena[node.0 as int]) is Some {
                let (asked, nodes, options) = function_parts(arena[node.0 as int])->0;
                assert(nodes =~= arena[node.0 as int].inputs());
                let check = input_check(options, ctxt, before);
                lemma_function(arena, schema, node, ctxt, before);
                lemma_list_is_stuck(arena, schema, nodes, ctxt, before, check);
            }
        },
    }
}

} // verus!
