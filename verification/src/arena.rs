//! Logical expressions, kept in an arena where they refer to their inputs by number.
use polars_core::prelude::{AnyValue, DataType, QuantileInterpolOptions, SortOptions};
use std::sync::Arc;
use vstd::prelude::*;

verus! {

/// The place of an expression in an [`Arena`].
#[derive(Clone, Copy, PartialEq, Eq, Structural, Debug)]
pub struct Node(pub usize);

/// Whether an expression is evaluated on whole columns or on the groups of a group-by.
#[derive(Clone, Copy, PartialEq, Eq, Structural, Debug)]
pub enum Context {
    /// On the groups.
    Aggregation,
    /// On whole columns.
    Default,
}

/// An operator between two expressions.
#[derive(Clone, Copy, PartialEq, Eq, Structural, Debug)]
pub enum Operator {
    Eq,
    NotEq,
    Lt,
    LtEq,
    Gt,
    GtEq,
    Plus,
    Minus,
    Multiply,
    Divide,
    TrueDivide,
    FloorDivide,
    Modulus,
    And,
    Or,
    Xor,
}

/// How the answers of a window function are put back into the rows of the frame.
#[derive(Clone, Copy, PartialEq, Eq, Structural, Debug)]
pub enum WindowMapping {
    GroupsToRows,
    Explode,
    Join,
}

/// The options of a window expression.
#[derive(Clone, Copy, PartialEq, Eq, Structural, Debug)]
pub struct WindowOptions {
    pub mapping: WindowMapping,
}

/// How a function is given the groups of its input.
#[derive(Clone, Copy, PartialEq, Eq, Structural, Debug)]
pub enum ApplyOptions {
    /// Group by group, as columns.
    ApplyGroups,
    /// All groups at once, as a column of lists.
    ApplyList,
    /// Regardless of the groups.
    ApplyFlat,
}

/// The options of a function expression.
#[derive(Clone, Copy, PartialEq, Eq, Structural, Debug)]
pub struct FunctionOptions {
    pub collect_groups: ApplyOptions,
    pub auto_explode: bool,
    pub allow_rename: bool,
    pub pass_name_to_apply: bool,
    pub allow_group_aware: bool,
    pub check_lengths: bool,
}

/// A function that the user handed in, by the number under which it is registered.
#[derive(Clone, Copy, PartialEq, Eq, Structural, Debug)]
pub struct UserFunction(pub u64);

/// The rule for the output type of a [`UserFunction`], by the number under which it is registered.
#[derive(Clone, Copy, PartialEq, Eq, Structural, Debug)]
pub struct OutputType(pub u64);

/// A function of the expression language, by its number.
#[derive(Clone, Copy, PartialEq, Eq, Structural, Debug)]
pub struct FunctionExpr(pub u64);

/// An aggregation of an expression.
#[derive(Clone, Copy, Debug)]
pub enum AAggExpr {
    Min { input: Node, propagate_nans: bool },
    Max { input: Node, propagate_nans: bool },
    Median(Node),
    NUnique(Node),
    First(Node),
    Last(Node),
    Mean(Node),
    Implode(Node),
    Quantile { expr: Node, quantile: Node, interpol: QuantileInterpolOptions },
    Sum(Node),
    Count(Node),
    Std(Node, u8),
    Var(Node, u8),
    AggGroups(Node),
}

/// A logical expression.
#[allow(inconsistent_fields)]
pub enum AExpr {
    Explode(Node),
    Alias(Node, String),
    Column(String),
    Literal(Arc<AnyValue<'static>>),
    BinaryExpr { left: Node, op: Operator, right: Node },
    Cast { expr: Node, data_type: Arc<DataType>, strict: bool },
    Sort { expr: Node, options: SortOptions },
    Take { expr: Node, idx: Node },
    SortBy { expr: Node, by: Vec<Node>, descending: Arc<Vec<bool>> },
    Filter { input: Node, by: Node },
    Agg(AAggExpr),
    Ternary { predicate: Node, truthy: Node, falsy: Node },
    AnonymousFunction {
        input: Vec<Node>,
        function: UserFunction,
        output_type: OutputType,
        options: FunctionOptions,
    },
    Function { input: Vec<Node>, function: FunctionExpr, options: FunctionOptions },
    Window {
        function: Node,
        partition_by: Vec<Node>,
        order_by: Option<Node>,
        options: WindowOptions,
    },
    Wildcard,
    Slice { input: Node, offset: Node, length: Node },
    Count,
    Nth(i64),
}

/// The expressions of a query.
pub struct Arena {
    pub items: Vec<AExpr>,
}

impl View for Arena {
    type V = Seq<AExpr>;

    open spec fn view(&self) -> Seq<AExpr> {
        self.items@
    }
}

impl Arena {
    /// The expression at `node`.
    pub fn get(&self, node: Node) -> (r: &AExpr)
        requires
            node.0 < self@.len(),
        ensures
            *r == self@[node.0 as int],
    {
        &self.items[node.0]
    }
}

impl AAggExpr {
    /// The expressions that an aggregation reads.
    pub open spec fn inputs(self) -> Seq<Node> {
        match self {
            AAggExpr::Min { input, .. } => seq![input],
            AAggExpr::Max { input, .. } => seq![input],
            AAggExpr::Median(input) => seq![input],
            AAggExpr::NUnique(input) => seq![input],
            AAggExpr::First(input) => seq![input],
            AAggExpr::Last(input) => seq![input],
            AAggExpr::Mean(input) => seq![input],
            AAggExpr::Implode(input) => seq![input],
            AAggExpr::Quantile { expr, quantile, .. } => seq![expr, quantile],
            AAggExpr::Sum(input) => seq![input],
            AAggExpr::Count(input) => seq![input],
            AAggExpr::Std(input, _) => seq![input],
            AAggExpr::Var(input, _) => seq![input],
            AAggExpr::AggGroups(input) => seq![input],
        }
    }

    /// The expression that is aggregated: the first input.
    pub fn first_input(&self) -> (r: Node)
        ensures
            r == self.inputs()[0],
    {
        match *self {
            AAggExpr::Min { input, .. } => input,
            AAggExpr::Max { input, .. } => input,
            AAggExpr::Median(input) => input,
            AAggExpr::NUnique(input) => input,
            AAggExpr::First(input) => input,
            AAggExpr::Last(input) => input,
            AAggExpr::Mean(input) => input,
            AAggExpr::Implode(input) => input,
            AAggExpr::Quantile { expr, .. } => expr,
            AAggExpr::Sum(input) => input,
            AAggExpr::Count(input) => input,
            AAggExpr::Std(input, _) => input,
            AAggExpr::Var(input, _) => input,
            AAggExpr::AggGroups(input) => input,
        }
    }
}

impl AExpr {
    /// The expressions that an expression refers to, in order.
    pub open spec fn inputs(self) -> Seq<Node> {
        match self {
            AExpr::Explode(expr) => seq![expr],
            AExpr::Alias(expr, _) => seq![expr],
            AExpr::Column(_) => seq![],
            AExpr::Literal(_) => seq![],
            AExpr::BinaryExpr { left, right, .. } => seq![left, right],
            AExpr::Cast { expr, .. } => seq![expr],
            AExpr::Sort { expr, .. } => seq![expr],
            AExpr::Take { expr, idx } => seq![expr, idx],
            AExpr::SortBy { expr, by, .. } => seq![expr] + by@,
            AExpr::Filter { input, by } => seq![input, by],
            AExpr::Agg(agg) => agg.inputs(),
            AExpr::Ternary { predicate, truthy, falsy } => seq![predicate, truthy, falsy],
            AExpr::AnonymousFunction { input, .. } => input@,
            AExpr::Function { input, .. } => input@,
            AExpr::Window { function, partition_by, order_by, .. } => seq![function] + partition_by@
                + (match order_by {
                Some(node) => seq![node],
                None => seq![],
            }),
            AExpr::Wildcard => seq![],
            AExpr::Slice { input, offset, length } => seq![input, offset, length],
            AExpr::Count => seq![],
            AExpr::Nth(_) => seq![],
        }
    }
}

/// Whether the expression at `node` is at most `d` deep: it and everything that it refers to
/// stands in the arena, and no chain of references holds more than `d` expressions.
pub open spec fn within_depth(arena: Seq<AExpr>, node: Node, d: nat) -> bool
    decreases d,
{
    &&& d > 0
    &&& node.0 < arena.len()
    &&& forall|i: int|
        #![trigger arena[node.0 as int].inputs()[i]]
        0 <= i < arena[node.0 as int].inputs().len() ==> within_depth(
            arena,
            arena[node.0 as int].inputs()[i],
            (d - 1) as nat,
        )
}

/// Whether `node` is an expression: everything that it refers to, directly or not, stands in the
/// arena, and nothing refers back to itself.
#[verifier::opaque]
pub open spec fn is_expr(arena: Seq<AExpr>, node: Node) -> bool {
    exists|d: nat| within_depth(arena, node, d)
}

/// The least depth that `node` is within.
#[verifier::opaque]
pub open spec fn depth(arena: Seq<AExpr>, node: Node) -> nat {
    choose|d: nat| #[trigger]
        within_depth(arena, node, d) && !within_depth(arena, node, (d - 1) as nat)
}

/// All the nodes are expressions.
pub open spec fn are_exprs(arena: Seq<AExpr>, nodes: Seq<Node>) -> bool {
    forall|i: int| 0 <= i < nodes.len() ==> is_expr(arena, #[trigger] nodes[i])
}

/// The greatest depth among the nodes.
pub open spec fn max_depth(arena: Seq<AExpr>, nodes: Seq<Node>) -> nat
    decreases nodes.len(),
{
    if nodes.len() == 0 {
        0
    } else {
        let rest = max_depth(arena, nodes.drop_last());
        let last = depth(arena, nodes.last());
        if rest < last {
            last
        } else {
            rest
        }
    }
}

proof fn lemma_within_depth_monotone(arena: Seq<AExpr>, node: Node, d: nat, e: nat)
    requires
        within_depth(arena, node, d),
        d <= e,
    ensures
        within_depth(arena, node, e),
    decreases d,
{
    let inputs = arena[node.0 as int].inputs();
    assert forall|i: int|
        #![trigger arena[node.0 as int].inputs()[i]]
        0 <= i < inputs.len() implies within_depth(arena, inputs[i], (e - 1) as nat) by {
        lemma_within_depth_monotone(arena, inputs[i], (d - 1) as nat, (e - 1) as nat);
    }
}

proof fn lemma_least_depth(arena: Seq<AExpr>, node: Node, d: nat)
    requires
        within_depth(arena, node, d),
    ensures
        exists|e: nat| #[trigger]
            within_depth(arena, node, e) && !within_depth(arena, node, (e - 1) as nat),
    decreases d,
{
    if within_depth(arena, node, (d - 1) as nat) {
        lemma_least_depth(arena, node, (d - 1) as nat);
    }
}

/// An expression stands in the arena, what it refers to are expressions, and each is less deep.
pub proof fn lemma_inputs(arena: Seq<AExpr>, node: Node)
    requires
        is_expr(arena, node),
    ensures
        node.0 < arena.len(),
        depth(arena, node) > 0,
        are_exprs(arena, arena[node.0 as int].inputs()),
        forall|i: int|
            0 <= i < arena[node.0 as int].inputs().len() ==> depth(
                arena,
                #[trigger] arena[node.0 as int].inputs()[i],
            ) < depth(arena, node),
{
    reveal(is_expr);
    reveal(depth);
    let some = choose|d: nat| within_depth(arena, node, d);
    lemma_least_depth(arena, node, some);
    let d = depth(arena, node);
    let inputs = arena[node.0 as int].inputs();
    assert forall|i: int| 0 <= i < inputs.len() implies is_expr(arena, #[trigger] inputs[i]) && depth(
        arena,
        inputs[i],
    ) < d by {
        assert(within_depth(arena, inputs[i], (d - 1) as nat));
        lemma_least_depth(arena, inputs[i], (d - 1) as nat);
        let e = depth(arena, inputs[i]);
        if e >= d {
            lemma_within_depth_monotone(arena, inputs[i], (d - 1) as nat, (e - 1) as nat);
        }
    }
}

/// The greatest depth bounds every depth, and is one of them.
pub proof fn lemma_max_depth(arena: Seq<AExpr>, nodes: Seq<Node>, bound: nat)
    requires
        bound > 0,
    ensures
        forall|i: int| 0 <= i < nodes.len() ==> depth(arena, #[trigger] nodes[i]) <= max_depth(
            arena,
            nodes,
        ),
        (forall|i: int| 0 <= i < nodes.len() ==> depth(arena, #[trigger] nodes[i]) < bound)
            ==> max_depth(arena, nodes) < bound,
    decreases nodes.len(),
{
    if nodes.len() > 0 {
        let rest = nodes.drop_last();
        lemma_max_depth(arena, rest, bound);
        assert forall|i: int| 0 <= i < nodes.len() implies depth(arena, #[trigger] nodes[i])
            <= max_depth(arena, nodes) by {
            if i < rest.len() {
                assert(rest[i] == nodes[i]);
            }
        }
        if forall|i: int| 0 <= i < nodes.len() ==> depth(arena, #[trigger] nodes[i]) < bound {
            assert forall|i: int| 0 <= i < rest.len() implies depth(arena, #[trigger] rest[i])
                < bound by {
                assert(rest[i] == nodes[i]);
            }
        }
    }
}

/// An expression stands in the arena if it does itself and all that it refers to are expressions.
pub proof fn expressions_are_built_up(arena: Seq<AExpr>, node: Node)
    requires
        node.0 < arena.len(),
        are_exprs(arena, arena[node.0 as int].inputs()),
    ensures
        is_expr(arena, node),
{
    reveal(is_expr);
    reveal(depth);
    let inputs = arena[node.0 as int].inputs();
    let d = max_depth(arena, inputs);
    lemma_max_depth(arena, inputs, 1);
    assert forall|i: int|
        #![trigger arena[node.0 as int].inputs()[i]]
        0 <= i < inputs.len() implies within_depth(arena, inputs[i], d) by {
        let some = choose|d: nat| within_depth(arena, inputs[i], d);
        lemma_least_depth(arena, inputs[i], some);
        lemma_within_depth_monotone(arena, inputs[i], depth(arena, inputs[i]), d);
    }
    assert(within_depth(arena, node, d + 1));
}

/// What each kind of expression refers to, in order.
pub proof fn expressions_refer_to_their_parts(expr: AExpr)
    ensures
        match expr {
            AExpr::Explode(a) => expr.inputs() == seq![a],
            AExpr::Alias(a, _) => expr.inputs() == seq![a],
            AExpr::Cast { expr: a, .. } => expr.inputs() == seq![a],
            AExpr::Sort { expr: a, .. } => expr.inputs() == seq![a],
            AExpr::BinaryExpr { left, right, .. } => expr.inputs() == seq![left, right],
            AExpr::Take { expr: a, idx } => expr.inputs() == seq![a, idx],
            AExpr::Filter { input, by } => expr.inputs() == seq![input, by],
            AExpr::Ternary { predicate, truthy, falsy } => expr.inputs() == seq![
                predicate,
                truthy,
                falsy,
            ],
            AExpr::Slice { input, offset, length } => expr.inputs() == seq![input, offset, length],
            AExpr::SortBy { expr: a, by, .. } => {
                &&& expr.inputs().len() == 1 + by@.len()
                &&& expr.inputs()[0] == a
                &&& forall|i: int| 0 <= i < by@.len() ==> expr.inputs()[i + 1] == #[trigger] by@[i]
            },
            AExpr::AnonymousFunction { input, .. } => expr.inputs() == input@,
            AExpr::Function { input, .. } => expr.inputs() == input@,
            AExpr::Window { function, partition_by, order_by, .. } => {
                let n = partition_by@.len() as int;
                &&& expr.inputs().len() == 1 + n + (if order_by is Some {
                    1int
                } else {
                    0
                })
                &&& expr.inputs()[0] == function
                &&& forall|i: int|
                    0 <= i < n ==> expr.inputs()[i + 1] == #[trigger] partition_by@[i]
                &&& order_by matches Some(by) ==> expr.inputs()[n + 1] == by
            },
            AExpr::Agg(AAggExpr::Quantile { expr: a, quantile, .. }) => expr.inputs() == seq![
                a,
                quantile,
            ],
            AExpr::Agg(agg) => expr.inputs().len() == 1 && match agg {
                AAggExpr::Min { input, .. } => expr.inputs()[0] == input,
                AAggExpr::Max { input, .. } => expr.inputs()[0] == input,
                AAggExpr::Median(input) => expr.inputs()[0] == input,
                AAggExpr::NUnique(input) => expr.inputs()[0] == input,
                AAggExpr::First(input) => expr.inputs()[0] == input,
                AAggExpr::Last(input) => expr.inputs()[0] == input,
                AAggExpr::Mean(input) => expr.inputs()[0] == input,
                AAggExpr::Implode(input) => expr.inputs()[0] == input,
                AAggExpr::Sum(input) => expr.inputs()[0] == input,
                AAggExpr::Count(input) => expr.inputs()[0] == input,
                AAggExpr::Std(input, _) => expr.inputs()[0] == input,
                AAggExpr::Var(input, _) => expr.inputs()[0] == input,
                AAggExpr::AggGroups(input) => expr.inputs()[0] == input,
                AAggExpr::Quantile { .. } => false,
            },
            AExpr::Column(_) => expr.inputs().len() == 0,
            AExpr::Literal(_) => expr.inputs().len() == 0,
            AExpr::Wildcard => expr.inputs().len() == 0,
            AExpr::Count => expr.inputs().len() == 0,
            AExpr::Nth(_) => expr.inputs().len() == 0,
        },
{
}

} // verus!
