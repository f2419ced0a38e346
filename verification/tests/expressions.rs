use polars_core::prelude::{AnyValue, QuantileInterpolOptions};
use polars_planner::arena::{
    AAggExpr, AExpr, ApplyOptions, Arena, FunctionExpr, FunctionOptions, Node, Operator,
    WindowMapping, WindowOptions,
};
use polars_planner::expr::{node_to_expr, AggOp, Expr, ExprOp, LeafKind};
use polars_planner::physical::GroupByMethod;
use std::sync::Arc;

fn column(name: &str) -> AExpr {
    AExpr::Column(name.to_string())
}

fn function(input: Vec<Node>) -> AExpr {
    AExpr::Function {
        input,
        function: FunctionExpr(7),
        options: FunctionOptions {
            collect_groups: ApplyOptions::ApplyFlat,
            auto_explode: false,
            allow_rename: false,
            pass_name_to_apply: false,
            allow_group_aware: true,
            check_lengths: true,
        },
    }
}

fn is_column(e: &Expr, name: &str) -> bool {
    matches!(&e.op, ExprOp::Column(n) if n == name) && e.inputs.is_empty()
}

#[test]
fn an_expression_is_taken_out_with_its_inputs() {
    let arena = Arena {
        items: vec![
            column("a"),
            column("b"),
            AExpr::BinaryExpr { left: Node(1), op: Operator::Minus, right: Node(0) },
            AExpr::Alias(Node(2), "d".to_string()),
        ],
    };
    let e = node_to_expr(Node(3), &arena);
    assert!(matches!(&e.op, ExprOp::Alias(n) if n == "d"));
    assert_eq!(e.inputs.len(), 1);
    assert!(matches!(e.inputs[0].op, ExprOp::BinaryExpr(Operator::Minus)));
    assert_eq!(e.inputs[0].inputs.len(), 2);
    assert!(is_column(&e.inputs[0].inputs[0], "b"));
    assert!(is_column(&e.inputs[0].inputs[1], "a"));
}

#[test]
fn a_window_is_taken_out_function_first_and_order_last() {
    let arena = Arena {
        items: vec![
            column("f"),
            column("p"),
            column("q"),
            column("o"),
            AExpr::Window {
                function: Node(0),
                partition_by: vec![Node(1), Node(2)],
                order_by: Some(Node(3)),
                options: WindowOptions { mapping: WindowMapping::Join },
            },
        ],
    };
    let e = node_to_expr(Node(4), &arena);
    assert!(matches!(
        e.op,
        ExprOp::Window { ordered: true, options: WindowOptions { mapping: WindowMapping::Join } }
    ));
    let names: Vec<bool> = ["f", "p", "q", "o"]
        .iter()
        .zip(e.inputs.iter())
        .map(|(n, e)| is_column(e, n))
        .collect();
    assert_eq!(names, vec![true; 4]);
    assert_eq!(e.inputs.len(), 4);
}

#[test]
fn a_quantile_is_taken_out_with_both_inputs() {
    let arena = Arena {
        items: vec![
            column("a"),
            AExpr::Literal(Arc::new(AnyValue::Float64(0.5))),
            AExpr::Agg(AAggExpr::Quantile {
                expr: Node(0),
                quantile: Node(1),
                interpol: QuantileInterpolOptions::Nearest,
            }),
        ],
    };
    let e = node_to_expr(Node(2), &arena);
    assert!(matches!(
        e.op,
        ExprOp::Agg(AggOp::Quantile { interpol: QuantileInterpolOptions::Nearest })
    ));
    assert!(is_column(&e.inputs[0], "a"));
    assert!(matches!(&e.inputs[1].op, ExprOp::Literal(v) if **v == AnyValue::Float64(0.5)));
}

#[test]
fn leaf_names_are_sorted_and_each_stands_once() {
    let arena = Arena {
        items: vec![
            column("b"),
            column("a"),
            column("B"),
            column("ab"),
            column("é"),
            column("b"),
            column(""),
            function(vec![Node(0), Node(1), Node(2), Node(3), Node(4), Node(5), Node(6)]),
        ],
    };
    let names = node_to_expr(Node(7), &arena).leaf_names();
    assert_eq!(names, vec!["", "B", "a", "ab", "b", "é"]);
    let mut sorted = names.clone();
    sorted.sort();
    assert_eq!(names, sorted);
}

#[test]
fn an_expression_without_columns_has_no_leaf_names() {
    let arena = Arena { items: vec![AExpr::Count, function(vec![Node(0)])] };
    assert!(node_to_expr(Node(1), &arena).leaf_names().is_empty());
}

#[test]
fn leaves_are_found_at_every_depth() {
    let arena = Arena {
        items: vec![
            AExpr::Literal(Arc::new(AnyValue::Int32(1))),
            AExpr::Explode(Node(0)),
            column("a"),
            AExpr::Ternary { predicate: Node(2), truthy: Node(2), falsy: Node(1) },
            AExpr::Count,
            AExpr::Wildcard,
        ],
    };
    let e = node_to_expr(Node(3), &arena);
    assert!(e.has(LeafKind::Literal));
    assert!(!e.has(LeafKind::Count));
    assert!(!e.has(LeafKind::Wildcard));
    assert!(node_to_expr(Node(4), &arena).has(LeafKind::Count));
    assert!(node_to_expr(Node(5), &arena).has(LeafKind::Wildcard));
}

#[test]
fn aggregations_have_a_group_by_method() {
    let n = Node(0);
    let methods = [
        (AAggExpr::Min { input: n, propagate_nans: false }, GroupByMethod::Min),
        (AAggExpr::Min { input: n, propagate_nans: true }, GroupByMethod::NanMin),
        (AAggExpr::Max { input: n, propagate_nans: false }, GroupByMethod::Max),
        (AAggExpr::Max { input: n, propagate_nans: true }, GroupByMethod::NanMax),
        (AAggExpr::Median(n), GroupByMethod::Median),
        (AAggExpr::NUnique(n), GroupByMethod::NUnique),
        (AAggExpr::First(n), GroupByMethod::First),
        (AAggExpr::Last(n), GroupByMethod::Last),
        (AAggExpr::Mean(n), GroupByMethod::Mean),
        (AAggExpr::Implode(n), GroupByMethod::Implode),
        (AAggExpr::Sum(n), GroupByMethod::Sum),
        (AAggExpr::Count(n), GroupByMethod::Count),
        (AAggExpr::Std(n, 1), GroupByMethod::Std(1)),
        (AAggExpr::Var(n, 2), GroupByMethod::Var(2)),
        (AAggExpr::AggGroups(n), GroupByMethod::Groups),
    ];
    for (agg, method) in methods {
        assert_eq!(agg.get_method(), Some(method));
        assert_eq!(agg.first_input(), n);
    }
    let quantile = AAggExpr::Quantile {
        expr: n,
        quantile: Node(1),
        interpol: QuantileInterpolOptions::Linear,
    };
    assert_eq!(quantile.get_method(), None);
    assert_eq!(quantile.first_input(), n);
}
