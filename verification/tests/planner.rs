use polars_core::prelude::{
    AnyValue, DataType, Field, NamedFrom, PolarsError, QuantileInterpolOptions, Schema, Series,
    SortOptions, TakeRandom,
};
use polars_planner::arena::{
    AAggExpr, AExpr, ApplyOptions, Arena, Context, FunctionExpr, FunctionOptions, Node, Operator,
    OutputType, UserFunction, WindowMapping, WindowOptions,
};
use polars_planner::expr::{AggOp, Expr, ExprOp};
use polars_planner::parallel::THREAD_BOUNDARY;
use polars_planner::physical::{
    ApplyFunction, ErrorKind, ErrorTree, GroupByMethod, PhysicalExpr, PlanError,
};
use polars_planner::plan::{FieldOutcome, PlanSchema, RejectImplode, StateCheck};
use polars_planner::planner::{
    create_physical_expr, create_physical_expressions, create_physical_expressions_check_state,
};
use polars_planner::state::ExpressionConversionState;
use polars_planner::udf::SeriesFunction;
use std::sync::Arc;

fn column(name: &str) -> AExpr {
    AExpr::Column(name.to_string())
}

fn literal(value: i32) -> AExpr {
    AExpr::Literal(Arc::new(AnyValue::Int32(value)))
}

fn options(collect_groups: ApplyOptions, auto_explode: bool) -> FunctionOptions {
    FunctionOptions {
        collect_groups,
        auto_explode,
        allow_rename: true,
        pass_name_to_apply: false,
        allow_group_aware: true,
        check_lengths: false,
    }
}

fn function(input: Vec<Node>, options: FunctionOptions) -> AExpr {
    AExpr::Function { input, function: FunctionExpr(7), options }
}

fn window(function: Node, partition_by: Vec<Node>) -> AExpr {
    AExpr::Window {
        function,
        partition_by,
        order_by: None,
        options: WindowOptions { mapping: WindowMapping::GroupsToRows },
    }
}

fn arena(items: Vec<AExpr>) -> Arena {
    Arena { items }
}

/// Converts the last expression of the arena from a fresh state.
fn plan(items: Vec<AExpr>, ctxt: Context) -> (Result<PhysicalExpr, PlanError>, ExpressionConversionState) {
    let arena = arena(items);
    let mut state = ExpressionConversionState::new(true);
    let last = Node(arena.items.len() - 1);
    let out = create_physical_expr(last, ctxt, &arena, None, &mut state);
    (out, state)
}

fn planned(items: Vec<AExpr>, ctxt: Context) -> PhysicalExpr {
    match plan(items, ctxt).0 {
        Ok(p) => p,
        Err(_) => panic!("no plan"),
    }
}

fn refused(items: Vec<AExpr>, ctxt: Context) -> PlanError {
    match plan(items, ctxt).0 {
        Ok(_) => panic!("a plan"),
        Err(e) => e,
    }
}

fn is_column(p: &PhysicalExpr, column: &str) -> bool {
    matches!(p, PhysicalExpr::Column { name, expr, schema: None }
        if name == column && matches!(&expr.op, ExprOp::Column(n) if n == column))
}

fn is_literal(p: &PhysicalExpr, literal: i32) -> bool {
    matches!(p, PhysicalExpr::Literal { value, expr }
        if **value == AnyValue::Int32(literal) && matches!(&expr.op, ExprOp::Literal(_)))
}

fn column_expr(e: &Expr, column: &str) -> bool {
    matches!(&e.op, ExprOp::Column(n) if n == column)
}

#[test]
fn leaves_are_planned_as_they_are() {
    for ctxt in [Context::Default, Context::Aggregation] {
        assert!(matches!(planned(vec![AExpr::Count], ctxt), PhysicalExpr::Count));
        assert!(is_column(&planned(vec![column("a")], ctxt), "a"));
        assert!(is_literal(&planned(vec![literal(3)], ctxt), 3));
    }
}

#[test]
fn a_column_keeps_the_schema() {
    let arena = arena(vec![column("a")]);
    let schema = PlanSchema { schema: Arc::new(Schema::new()), fields: vec![None] };
    let mut state = ExpressionConversionState::new(true);
    let out = create_physical_expr(Node(0), Context::Default, &arena, Some(&schema), &mut state);
    match out {
        Ok(PhysicalExpr::Column { schema: Some(kept), .. }) => {
            assert!(Arc::ptr_eq(&kept, &schema.schema))
        },
        _ => panic!("no column"),
    }
}

#[test]
fn a_binary_expression_keeps_the_order_of_its_sides() {
    let out = planned(
        vec![
            column("a"),
            column("b"),
            AExpr::BinaryExpr { left: Node(1), op: Operator::Minus, right: Node(0) },
        ],
        Context::Default,
    );
    match out {
        PhysicalExpr::Binary { left, op, right, expr } => {
            assert!(is_column(&left, "b"));
            assert_eq!(op, Operator::Minus);
            assert!(is_column(&right, "a"));
            assert!(matches!(expr.op, ExprOp::BinaryExpr(Operator::Minus)));
            assert!(column_expr(&expr.inputs[0], "b"));
        },
        _ => panic!("no binary expression"),
    }
}

#[test]
fn sort_take_filter_alias_and_cast() {
    let sort = SortOptions { descending: true, ..Default::default() };
    match planned(vec![column("a"), AExpr::Sort { expr: Node(0), options: sort }], Context::Default) {
        PhysicalExpr::Sort { input, options, expr } => {
            assert!(is_column(&input, "a"));
            assert!(options.descending);
            assert!(matches!(expr.op, ExprOp::Sort(_)));
        },
        _ => panic!("no sort"),
    }
    match planned(
        vec![column("a"), literal(2), AExpr::Take { expr: Node(0), idx: Node(1) }],
        Context::Aggregation,
    ) {
        PhysicalExpr::Take { input, idx, expr } => {
            assert!(is_column(&input, "a"));
            assert!(is_literal(&idx, 2));
            assert!(matches!(expr.op, ExprOp::Take));
        },
        _ => panic!("no take"),
    }
    match planned(
        vec![column("a"), column("m"), AExpr::Filter { input: Node(0), by: Node(1) }],
        Context::Default,
    ) {
        PhysicalExpr::Filter { input, by, expr } => {
            assert!(is_column(&input, "a"));
            assert!(is_column(&by, "m"));
            assert!(matches!(expr.op, ExprOp::Filter));
        },
        _ => panic!("no filter"),
    }
    match planned(vec![column("a"), AExpr::Alias(Node(0), "z".to_string())], Context::Default) {
        PhysicalExpr::Alias { input, name, expr } => {
            assert!(is_column(&input, "a"));
            assert_eq!(name, "z");
            assert!(matches!(&expr.op, ExprOp::Alias(n) if n == "z"));
        },
        _ => panic!("no alias"),
    }
    match planned(
        vec![
            column("a"),
            AExpr::Cast { expr: Node(0), data_type: Arc::new(DataType::Int64), strict: true },
        ],
        Context::Default,
    ) {
        PhysicalExpr::Cast { input, data_type, expr, strict } => {
            assert!(is_column(&input, "a"));
            assert_eq!(*data_type, DataType::Int64);
            assert!(strict);
            assert!(matches!(expr.op, ExprOp::Cast { strict: true, .. }));
        },
        _ => panic!("no cast"),
    }
}

#[test]
fn ternary_and_slice_have_three_inputs() {
    match planned(
        vec![
            column("p"),
            literal(1),
            literal(2),
            AExpr::Ternary { predicate: Node(0), truthy: Node(1), falsy: Node(2) },
        ],
        Context::Default,
    ) {
        PhysicalExpr::Ternary { predicate, truthy, falsy, expr } => {
            assert!(is_column(&predicate, "p"));
            assert!(is_literal(&truthy, 1));
            assert!(is_literal(&falsy, 2));
            assert!(matches!(expr.op, ExprOp::Ternary));
        },
        _ => panic!("no ternary"),
    }
    match planned(
        vec![
            column("a"),
            literal(1),
            literal(2),
            AExpr::Slice { input: Node(0), offset: Node(1), length: Node(2) },
        ],
        Context::Aggregation,
    ) {
        PhysicalExpr::Slice { input, offset, length, expr } => {
            assert!(is_column(&input, "a"));
            assert!(is_literal(&offset, 1));
            assert!(is_literal(&length, 2));
            assert!(matches!(expr.op, ExprOp::Slice));
        },
        _ => panic!("no slice"),
    }
}

#[test]
fn sort_by_plans_what_it_sorts_by() {
    let descending = Arc::new(vec![true, false]);
    match planned(
        vec![
            column("a"),
            column("b"),
            column("c"),
            AExpr::SortBy { expr: Node(0), by: vec![Node(1), Node(2)], descending },
        ],
        Context::Default,
    ) {
        PhysicalExpr::SortBy { input, by, descending, expr } => {
            assert!(is_column(&input, "a"));
            assert_eq!(by.len(), 2);
            assert!(is_column(&by[0], "b"));
            assert!(is_column(&by[1], "c"));
            assert_eq!(*descending, vec![true, false]);
            assert_eq!(expr.inputs.len(), 3);
        },
        _ => panic!("no sort_by"),
    }
}

#[test]
fn sort_by_nothing_is_refused() {
    let e = refused(
        vec![
            column("a"),
            AExpr::SortBy { expr: Node(0), by: vec![], descending: Arc::new(vec![]) },
        ],
        Context::Default,
    );
    assert!(matches!(e, PlanError::EmptySortBy));
    assert_eq!(e.kind(), Some(ErrorKind::InvalidOperation));
    assert_eq!(e.message(), Some("'sort_by' got an empty set"));
}

#[test]
fn explode_is_applied_to_groups() {
    match planned(vec![column("a"), AExpr::Explode(Node(0))], Context::Aggregation) {
        PhysicalExpr::ApplyMinimal { inputs, function, expr, collect_groups } => {
            assert_eq!(inputs.len(), 1);
            assert!(is_column(&inputs[0], "a"));
            assert_eq!(function, SeriesFunction::Explode);
            assert!(matches!(expr.op, ExprOp::Explode));
            assert_eq!(collect_groups, ApplyOptions::ApplyGroups);
        },
        _ => panic!("no explode"),
    }
}

#[test]
fn aggregations_of_whole_columns_are_functions() {
    let n = Node(0);
    let state = ExpressionConversionState::new(true);
    let functions = [
        (
            AAggExpr::Min { input: n, propagate_nans: true },
            SeriesFunction::Min { propagate_nans: true, state },
        ),
        (
            AAggExpr::Max { input: n, propagate_nans: false },
            SeriesFunction::Max { propagate_nans: false, state },
        ),
        (AAggExpr::Median(n), SeriesFunction::Median),
        (AAggExpr::NUnique(n), SeriesFunction::NUnique),
        (AAggExpr::First(n), SeriesFunction::First),
        (AAggExpr::Last(n), SeriesFunction::Last),
        (AAggExpr::Mean(n), SeriesFunction::Mean),
        (AAggExpr::Implode(n), SeriesFunction::Implode),
        (AAggExpr::Sum(n), SeriesFunction::Sum { state }),
        (AAggExpr::Count(n), SeriesFunction::Count),
        (AAggExpr::Std(n, 1), SeriesFunction::Std(1)),
        (AAggExpr::Var(n, 0), SeriesFunction::Var(0)),
    ];
    for (agg, expected) in functions {
        match planned(vec![column("a"), AExpr::Agg(agg)], Context::Default) {
            PhysicalExpr::ApplyMinimal { inputs, function, expr, collect_groups } => {
                assert_eq!(inputs.len(), 1);
                assert!(is_column(&inputs[0], "a"));
                assert_eq!(function, expected);
                assert!(matches!(expr.op, ExprOp::Agg(_)));
                assert_eq!(collect_groups, ApplyOptions::ApplyFlat);
            },
            _ => panic!("no function"),
        }
    }
}

#[test]
fn the_function_of_a_plan_can_be_run() {
    match planned(vec![column("a"), AExpr::Agg(AAggExpr::Sum(Node(0)))], Context::Default) {
        PhysicalExpr::ApplyMinimal { function, .. } => {
            let mut columns = [Series::new("a", &[1i32, 2, 3])];
            let out = function.try_call(&mut columns, THREAD_BOUNDARY).unwrap().unwrap().unwrap();
            assert_eq!(out.i32().unwrap().get(0), Some(6));
        },
        _ => panic!("no function"),
    }
}

#[test]
fn reductions_hold_the_state_after_their_input() {
    // an implode below is allowed outside a group-by, and noted
    match planned(
        vec![
            column("a"),
            AExpr::Agg(AAggExpr::Implode(Node(0))),
            AExpr::Agg(AAggExpr::Sum(Node(1))),
        ],
        Context::Default,
    ) {
        PhysicalExpr::ApplyMinimal { function: SeriesFunction::Sum { state }, .. } => {
            assert!(state.has_implode());
            assert!(state.allow_threading);
            assert!(!state.has_cache);
        },
        _ => panic!("no sum"),
    }
}

#[test]
fn aggregations_of_groups_have_a_method() {
    match planned(
        vec![column("a"), AExpr::Agg(AAggExpr::Min { input: Node(0), propagate_nans: true })],
        Context::Aggregation,
    ) {
        PhysicalExpr::Aggregation { input, agg_type, field } => {
            assert!(is_column(&input, "a"));
            assert_eq!(agg_type, GroupByMethod::NanMin);
            assert!(field.is_none());
        },
        _ => panic!("no aggregation"),
    }
    match planned(vec![column("a"), AExpr::Agg(AAggExpr::AggGroups(Node(0)))], Context::Aggregation)
    {
        PhysicalExpr::Aggregation { agg_type, .. } => assert_eq!(agg_type, GroupByMethod::Groups),
        _ => panic!("no aggregation"),
    }
}

#[test]
fn the_field_of_an_aggregation_comes_from_the_schema() {
    let arena = arena(vec![column("a"), AExpr::Agg(AAggExpr::Sum(Node(0)))]);
    let field = Arc::new(Field::new("a", DataType::Int64));
    let schema = PlanSchema {
        schema: Arc::new(Schema::new()),
        fields: vec![None, Some(FieldOutcome::Resolved(field.clone()))],
    };
    let mut state = ExpressionConversionState::new(true);
    match create_physical_expr(Node(1), Context::Aggregation, &arena, Some(&schema), &mut state) {
        Ok(PhysicalExpr::Aggregation { agg_type, field: Some(found), .. }) => {
            assert_eq!(agg_type, GroupByMethod::Sum);
            assert!(Arc::ptr_eq(&found, &field));
        },
        _ => panic!("no aggregation"),
    }
}

#[test]
fn a_field_that_is_not_found_is_the_error() {
    let arena = arena(vec![column("a"), AExpr::Agg(AAggExpr::Sum(Node(0)))]);
    let source = Arc::new(PolarsError::ColumnNotFound("a".into()));
    let schema = PlanSchema {
        schema: Arc::new(Schema::new()),
        fields: vec![None, Some(FieldOutcome::Failed(source.clone()))],
    };
    let mut state = ExpressionConversionState::new(true);
    match create_physical_expr(Node(1), Context::Aggregation, &arena, Some(&schema), &mut state) {
        Err(e) => {
            assert_eq!(e.kind(), None);
            assert_eq!(e.message(), None);
            assert!(matches!(e, PlanError::Field(found) if Arc::ptr_eq(&found, &source)));
        },
        Ok(_) => panic!("a plan"),
    }
    // on whole columns the field is not asked for
    assert!(create_physical_expr(Node(1), Context::Default, &arena, Some(&schema), &mut state)
        .is_ok());
}

#[test]
fn quantiles_are_planned_alike_in_both_contexts() {
    for ctxt in [Context::Default, Context::Aggregation] {
        match planned(
            vec![
                column("a"),
                literal(1),
                AExpr::Agg(AAggExpr::Quantile {
                    expr: Node(0),
                    quantile: Node(1),
                    interpol: QuantileInterpolOptions::Midpoint,
                }),
            ],
            ctxt,
        ) {
            PhysicalExpr::AggQuantile { input, quantile, interpol } => {
                assert!(is_column(&input, "a"));
                assert!(is_literal(&quantile, 1));
                assert!(matches!(interpol, QuantileInterpolOptions::Midpoint));
            },
            _ => panic!("no quantile"),
        }
    }
}

#[test]
fn no_aggregation_follows_an_implode_in_a_group_by() {
    let items = || {
        vec![
            column("a"),
            AExpr::Agg(AAggExpr::Implode(Node(0))),
            AExpr::Alias(Node(1), "l".to_string()),
            AExpr::Agg(AAggExpr::First(Node(2))),
        ]
    };
    let e = refused(items(), Context::Aggregation);
    assert!(matches!(e, PlanError::ImplodeThenAggregation));
    assert_eq!(e.kind(), Some(ErrorKind::InvalidOperation));
    assert_eq!(e.message(), Some("'implode' followed by an aggregation is not allowed"));
    let (out, state) = plan(items(), Context::Default);
    assert!(out.is_ok());
    assert!(state.has_implode());
}

#[test]
fn no_slice_follows_an_implode_in_a_group_by() {
    let items = || {
        vec![
            column("a"),
            AExpr::Agg(AAggExpr::Implode(Node(0))),
            literal(0),
            literal(1),
            AExpr::Slice { input: Node(1), offset: Node(2), length: Node(3) },
        ]
    };
    let e = refused(items(), Context::Aggregation);
    assert!(matches!(e, PlanError::ImplodeThenSlice));
    assert_eq!(e.kind(), Some(ErrorKind::InvalidOperation));
    assert_eq!(
        e.message(),
        Some("'implode' followed by a slice during aggregation is not allowed")
    );
    assert!(plan(items(), Context::Default).0.is_ok());
}

#[test]
fn a_function_in_the_length_lets_a_slice_pass() {
    let out = plan(
        vec![
            column("a"),
            AExpr::Agg(AAggExpr::Implode(Node(0))),
            literal(0),
            function(vec![Node(2)], options(ApplyOptions::ApplyFlat, false)),
            AExpr::Slice { input: Node(1), offset: Node(2), length: Node(3) },
        ],
        Context::Aggregation,
    )
    .0;
    assert!(matches!(out, Ok(PhysicalExpr::Slice { .. })));
}

#[test]
fn functions_keep_their_options() {
    let opts = options(ApplyOptions::ApplyList, true);
    match planned(vec![column("a"), column("b"), function(vec![Node(0), Node(1)], opts)], Context::Default)
    {
        PhysicalExpr::Apply {
            inputs,
            function,
            expr,
            collect_groups,
            auto_explode,
            allow_rename,
            pass_name_to_apply,
            input_schema,
            allow_threading,
            check_lengths,
            allow_group_aware,
        } => {
            assert_eq!(inputs.len(), 2);
            assert!(is_column(&inputs[0], "a"));
            assert!(is_column(&inputs[1], "b"));
            assert_eq!(function, ApplyFunction::Function(FunctionExpr(7)));
            assert_eq!(expr.inputs.len(), 2);
            assert_eq!(collect_groups, ApplyOptions::ApplyList);
            assert!(auto_explode);
            assert!(allow_rename);
            assert!(!pass_name_to_apply);
            assert!(input_schema.is_none());
            assert!(allow_threading);
            assert!(!check_lengths);
            assert!(allow_group_aware);
        },
        _ => panic!("no function"),
    }
}

#[test]
fn user_functions_use_no_threads_where_there_is_a_cache() {
    let arena = arena(vec![
        column("a"),
        AExpr::AnonymousFunction {
            input: vec![Node(0)],
            function: UserFunction(3),
            output_type: OutputType(4),
            options: options(ApplyOptions::ApplyFlat, false),
        },
    ]);
    let schema = PlanSchema { schema: Arc::new(Schema::new()), fields: vec![None, None] };
    for has_cache in [false, true] {
        let mut state = ExpressionConversionState::new(true);
        state.has_cache = has_cache;
        match create_physical_expr(Node(1), Context::Default, &arena, Some(&schema), &mut state) {
            Ok(PhysicalExpr::Apply { function, input_schema, allow_threading, .. }) => {
                assert_eq!(function, ApplyFunction::Anonymous(UserFunction(3)));
                assert!(Arc::ptr_eq(&input_schema.unwrap(), &schema.schema));
                assert_eq!(allow_threading, !has_cache);
            },
            _ => panic!("no function"),
        }
        assert_eq!(state.has_cache, has_cache);
    }
}

#[test]
fn only_reducing_functions_refuse_an_implode() {
    let items = |collect_groups, auto_explode| {
        vec![
            column("a"),
            AExpr::Agg(AAggExpr::Implode(Node(0))),
            function(vec![Node(1)], options(collect_groups, auto_explode)),
        ]
    };
    let e = refused(items(ApplyOptions::ApplyGroups, true), Context::Aggregation);
    assert!(matches!(e, PlanError::ImplodeThenAggregation));
    assert!(plan(items(ApplyOptions::ApplyGroups, true), Context::Default).0.is_ok());
    assert!(plan(items(ApplyOptions::ApplyGroups, false), Context::Aggregation).0.is_ok());
    assert!(plan(items(ApplyOptions::ApplyFlat, true), Context::Aggregation).0.is_ok());
    assert!(plan(items(ApplyOptions::ApplyList, true), Context::Aggregation).0.is_ok());
}

#[test]
fn functions_in_a_window_refuse_an_implode() {
    let e = refused(
        vec![
            column("a"),
            AExpr::Agg(AAggExpr::Implode(Node(0))),
            function(vec![Node(1)], options(ApplyOptions::ApplyFlat, false)),
            column("g"),
            window(Node(2), vec![Node(3)]),
        ],
        Context::Default,
    );
    assert!(matches!(e, PlanError::ImplodeThenAggregation));
}

#[test]
fn an_implode_of_one_input_does_not_count_for_the_next() {
    let (out, state) = plan(
        vec![
            column("a"),
            AExpr::Agg(AAggExpr::Implode(Node(0))),
            AExpr::Agg(AAggExpr::First(Node(0))),
            function(vec![Node(1), Node(2)], options(ApplyOptions::ApplyFlat, false)),
        ],
        Context::Aggregation,
    );
    assert!(out.is_ok());
    assert!(!state.has_implode());
}

#[test]
fn a_window_hands_over_the_columns_of_its_function() {
    let (out, state) = plan(
        vec![
            column("b"),
            column("a"),
            AExpr::BinaryExpr { left: Node(0), op: Operator::Plus, right: Node(1) },
            AExpr::BinaryExpr { left: Node(2), op: Operator::Plus, right: Node(0) },
            AExpr::Agg(AAggExpr::Sum(Node(3))),
            AExpr::Alias(Node(4), "total".to_string()),
            column("g"),
            window(Node(5), vec![Node(6)]),
        ],
        Context::Default,
    );
    match out {
        Ok(PhysicalExpr::Window {
            group_by,
            apply_columns,
            out_name,
            function,
            phys_function,
            options,
            expr,
        }) => {
            assert_eq!(group_by.len(), 1);
            assert!(is_column(&group_by[0], "g"));
            assert_eq!(apply_columns, vec!["a", "b"]);
            assert_eq!(out_name, Some("total".to_string()));
            assert!(matches!(function.op, ExprOp::Agg(AggOp::Sum)));
            // the function is planned for groups, and with its renaming
            match *phys_function {
                PhysicalExpr::Alias { input, name, .. } => {
                    assert_eq!(name, "total");
                    assert!(matches!(
                        *input,
                        PhysicalExpr::Aggregation { agg_type: GroupByMethod::Sum, .. }
                    ));
                },
                _ => panic!("no alias"),
            }
            assert_eq!(options.mapping, WindowMapping::GroupsToRows);
            assert!(matches!(expr.op, ExprOp::Window { ordered: false, .. }));
        },
        _ => panic!("no window"),
    }
    assert!(state.has_windows);
    assert!(state.local.has_window);
}

#[test]
fn a_window_over_no_column_has_a_stand_in() {
    let names = |items| match planned(items, Context::Default) {
        PhysicalExpr::Window { apply_columns, out_name, .. } => {
            assert_eq!(out_name, None);
            apply_columns
        },
        _ => panic!("no window"),
    };
    assert_eq!(
        names(vec![literal(1), column("g"), window(Node(0), vec![Node(1)])]),
        vec!["literal"]
    );
    assert_eq!(
        names(vec![AExpr::Count, column("g"), window(Node(0), vec![Node(1)])]),
        vec!["count"]
    );
    assert_eq!(
        names(vec![
            AExpr::Count,
            literal(1),
            AExpr::BinaryExpr { left: Node(0), op: Operator::Plus, right: Node(1) },
            column("g"),
            window(Node(2), vec![Node(3)]),
        ]),
        vec!["literal"]
    );
}

#[test]
fn a_window_without_root_column_is_refused() {
    let (out, state) = plan(
        vec![
            function(vec![], options(ApplyOptions::ApplyFlat, false)),
            column("g"),
            window(Node(0), vec![Node(1)]),
        ],
        Context::Default,
    );
    match out {
        Err(e) => {
            assert_eq!(e.kind(), Some(ErrorKind::ComputeError));
            assert_eq!(
                e.message(),
                Some(
                    "cannot apply a window function, did not find a root column; \
                    this is likely due to a syntax error in this expression: "
                )
            );
            match e {
                PlanError::NoRootColumn(e) => assert!(matches!(e.op, ExprOp::Function { .. })),
                _ => panic!("another error"),
            }
        },
        Ok(_) => panic!("a plan"),
    }
    assert!(state.has_windows);
}

#[test]
fn lists_are_planned_in_order_and_the_first_error_ends_them() {
    let arena = arena(vec![
        column("a"),
        AExpr::Agg(AAggExpr::Implode(Node(0))),
        AExpr::SortBy { expr: Node(0), by: vec![], descending: Arc::new(vec![]) },
        window(Node(0), vec![Node(0)]),
    ]);
    let mut state = ExpressionConversionState::new(true);
    let out = create_physical_expressions(
        &[Node(0), Node(1), Node(0)],
        Context::Default,
        &arena,
        None,
        &mut state,
    );
    match out {
        Ok(list) => {
            assert_eq!(list.len(), 3);
            assert!(is_column(&list[0], "a"));
            assert!(matches!(list[1], PhysicalExpr::ApplyMinimal { .. }));
            assert!(is_column(&list[2], "a"));
        },
        Err(_) => panic!("no plans"),
    }
    assert!(!state.has_implode());
    let out = create_physical_expressions(
        &[Node(2), Node(3)],
        Context::Default,
        &arena,
        None,
        &mut state,
    );
    assert!(matches!(out, Err(PlanError::EmptySortBy)));
    // the window after the error was not reached
    assert!(!state.has_windows);
}

#[test]
fn an_empty_list_leaves_the_state_alone() {
    let arena = arena(vec![]);
    let mut state = ExpressionConversionState::new(true);
    state.note_agg(true);
    let before = state;
    let out = create_physical_expressions(&[], Context::Default, &arena, None, &mut state);
    assert!(matches!(out, Ok(list) if list.is_empty()));
    assert_eq!(state, before);
}

#[test]
fn windows_stay_noted_over_a_list() {
    let arena = arena(vec![column("a"), window(Node(0), vec![Node(0)])]);
    let mut state = ExpressionConversionState::new(false);
    let out = create_physical_expressions(
        &[Node(1), Node(0)],
        Context::Default,
        &arena,
        None,
        &mut state,
    );
    assert!(out.is_ok());
    assert!(state.has_windows);
    assert!(!state.local.has_window);
    assert!(!state.allow_threading);
}

#[test]
fn the_error_of_the_check_comes_before_that_of_the_expression() {
    // the second input of the pair fails after the first has noted an implode
    let arena = arena(vec![
        column("a"),
        AExpr::Agg(AAggExpr::Implode(Node(0))),
        AExpr::SortBy { expr: Node(0), by: vec![], descending: Arc::new(vec![]) },
        AExpr::Filter { input: Node(1), by: Node(2) },
    ]);
    for active in [false, true] {
        let mut state = ExpressionConversionState::new(true);
        let out = create_physical_expressions_check_state(
            &[Node(3)],
            Context::Default,
            &arena,
            None,
            &mut state,
            RejectImplode { active },
        );
        match out {
            Err(PlanError::ImplodeThenAggregation) => assert!(active),
            Err(PlanError::EmptySortBy) => assert!(!active),
            _ => panic!("another outcome"),
        }
        assert!(state.has_implode());
    }
}

struct NoWindows;

impl StateCheck for NoWindows {
    fn verdict(&self, _: ExpressionConversionState) -> Option<ErrorTree> {
        unreachable!()
    }

    fn check(&self, state: &ExpressionConversionState) -> Result<(), PlanError> {
        if state.has_windows {
            Err(PlanError::ImplodeThenSlice)
        } else {
            Ok(())
        }
    }
}

#[test]
fn a_check_of_the_callers_own_is_asked_after_each_expression() {
    let arena = arena(vec![column("a"), window(Node(0), vec![Node(0)])]);
    let mut state = ExpressionConversionState::new(true);
    let nodes = [Node(0), Node(1)];
    let out = create_physical_expressions_check_state(
        &nodes[..1],
        Context::Default,
        &arena,
        None,
        &mut state,
        NoWindows,
    );
    assert!(matches!(out, Ok(list) if list.len() == 1));
    let out = create_physical_expressions_check_state(
        &nodes,
        Context::Default,
        &arena,
        None,
        &mut state,
        NoWindows,
    );
    assert!(matches!(out, Err(PlanError::ImplodeThenSlice)));
}

#[test]
fn a_field_is_asked_for_only_where_it_is_met_in_a_group_by() {
    let arena = arena(vec![
        column("a"),
        AExpr::Agg(AAggExpr::Sum(Node(0))),
        AExpr::Agg(AAggExpr::First(Node(0))),
        window(Node(2), vec![Node(1)]),
    ]);
    let field = Arc::new(Field::new("a", DataType::Int64));
    let schema = PlanSchema {
        schema: Arc::new(Schema::new()),
        fields: vec![None, None, Some(FieldOutcome::Resolved(field))],
    };
    let mut state = ExpressionConversionState::new(true);
    let out = create_physical_expr(Node(3), Context::Default, &arena, Some(&schema), &mut state);
    match out {
        Ok(PhysicalExpr::Window { group_by, phys_function, .. }) => {
            assert!(matches!(group_by[0], PhysicalExpr::ApplyMinimal { .. }));
            assert!(matches!(*phys_function, PhysicalExpr::Aggregation { field: Some(_), .. }));
        },
        _ => panic!("no window"),
    }
}

#[test]
fn two_lists_are_planned_in_turn() {
    let arena = arena(vec![
        column("a"),
        AExpr::Agg(AAggExpr::Implode(Node(0))),
        window(Node(0), vec![Node(0)]),
        AExpr::Agg(AAggExpr::Sum(Node(0))),
    ]);
    let nodes = [Node(1), Node(2), Node(0), Node(3)];
    let ctxt = Context::Default;
    for k in 0..=nodes.len() {
        let mut whole = ExpressionConversionState::new(true);
        let all = create_physical_expressions(&nodes, ctxt, &arena, None, &mut whole);
        let mut state = ExpressionConversionState::new(true);
        let first = create_physical_expressions(&nodes[..k], ctxt, &arena, None, &mut state);
        let rest = create_physical_expressions(&nodes[k..], ctxt, &arena, None, &mut state);
        assert_eq!(state, whole);
        match (all, first, rest) {
            (Ok(all), Ok(first), Ok(rest)) => {
                assert_eq!(all.len(), first.len() + rest.len());
                assert_eq!(first.len(), k);
            },
            _ => panic!("no plans"),
        }
    }
}

#[test]
fn no_window_is_noted_without_one() {
    for has_windows in [false, true] {
        let arena = arena(vec![
            column("a"),
            AExpr::Agg(AAggExpr::Implode(Node(0))),
            function(vec![Node(0), Node(1)], options(ApplyOptions::ApplyFlat, false)),
        ]);
        let mut state = ExpressionConversionState::new(true);
        state.has_windows = has_windows;
        let out = create_physical_expr(Node(2), Context::Default, &arena, None, &mut state);
        assert!(out.is_ok());
        assert_eq!(state.has_windows, has_windows);
    }
}
