//! Logical expressions on their own, taken out of the arena as trees.
use polars_core::prelude::{AnyValue, DataType, QuantileInterpolOptions, SortOptions};
use std::sync::Arc;
use vstd::prelude::*;

use crate::arena::{
    depth, is_expr, lemma_inputs, AAggExpr, AExpr, Arena, FunctionExpr, FunctionOptions, Node,
    Operator, OutputType, UserFunction, WindowOptions,
};
use crate::names::{
    increasing, insert_name, lemma_same_names, names_of, with_name, with_names,
};
use crate::series::share;

verus! {

/// What an aggregation computes, apart from its inputs.
#[derive(Clone, Copy, Debug)]
pub enum AggOp {
    Min { propagate_nans: bool },
    Max { propagate_nans: bool },
    Median,
    NUnique,
    First,
    Last,
    Mean,
    Implode,
    Quantile { interpol: QuantileInterpolOptions },
    Sum,
    Count,
    Std(u8),
    Var(u8),
    AggGroups,
}

/// What an expression computes, apart from its inputs.
#[allow(inconsistent_fields)]
pub enum ExprOp {
    Explode,
    Alias(String),
    Column(String),
    Literal(Arc<AnyValue<'static>>),
    BinaryExpr(Operator),
    Cast { data_type: Arc<DataType>, strict: bool },
    Sort(SortOptions),
    Take,
    SortBy { descending: Arc<Vec<bool>> },
    Filter,
    Agg(AggOp),
    Ternary,
    AnonymousFunction { function: UserFunction, output_type: OutputType, options: FunctionOptions },
    Function { function: FunctionExpr, options: FunctionOptions },
    /// The inputs are the function, the partitions and, last, what the window is ordered by.
    Window { ordered: bool, options: WindowOptions },
    Wildcard,
    Slice,
    Count,
    Nth(i64),
}

/// A logical expression with its inputs.
pub struct Expr {
    pub op: ExprOp,
    pub inputs: Vec<Expr>,
}

/// The mathematical form of an [`Expr`].
pub struct ExprTree {
    pub op: ExprOp,
    pub inputs: Seq<ExprTree>,
}

impl View for Expr {
    type V = ExprTree;

    open spec fn view(&self) -> ExprTree
        decreases self,
    {
        ExprTree {
            op: self.op,
            inputs: Seq::new(
                self.inputs@.len(),
                |i: int|
                    if 0 <= i < self.inputs@.len() {
                        self.inputs@[i].view()
                    } else {
                        arbitrary()
                    },
            ),
        }
    }
}

impl AAggExpr {
    /// What the aggregation computes.
    pub open spec fn op(self) -> AggOp {
        match self {
            AAggExpr::Min { propagate_nans, .. } => AggOp::Min { propagate_nans },
            AAggExpr::Max { propagate_nans, .. } => AggOp::Max { propagate_nans },
            AAggExpr::Median(_) => AggOp::Median,
            AAggExpr::NUnique(_) => AggOp::NUnique,
            AAggExpr::First(_) => AggOp::First,
            AAggExpr::Last(_) => AggOp::Last,
            AAggExpr::Mean(_) => AggOp::Mean,
            AAggExpr::Implode(_) => AggOp::Implode,
            AAggExpr::Quantile { interpol, .. } => AggOp::Quantile { interpol },
            AAggExpr::Sum(_) => AggOp::Sum,
            AAggExpr::Count(_) => AggOp::Count,
            AAggExpr::Std(_, ddof) => AggOp::Std(ddof),
            AAggExpr::Var(_, ddof) => AggOp::Var(ddof),
            AAggExpr::AggGroups(_) => AggOp::AggGroups,
        }
    }

    fn get_op(&self) -> (r: AggOp)
        ensures
            r == self.op(),
    {
        match *self {
            AAggExpr::Min { propagate_nans, .. } => AggOp::Min { propagate_nans },
            AAggExpr::Max { propagate_nans, .. } => AggOp::Max { propagate_nans },
            AAggExpr::Median(_) => AggOp::Median,
            AAggExpr::NUnique(_) => AggOp::NUnique,
            AAggExpr::First(_) => AggOp::First,
            AAggExpr::Last(_) => AggOp::Last,
            AAggExpr::Mean(_) => AggOp::Mean,
            AAggExpr::Implode(_) => AggOp::Implode,
            AAggExpr::Quantile { interpol, .. } => AggOp::Quantile { interpol },
            AAggExpr::Sum(_) => AggOp::Sum,
            AAggExpr::Count(_) => AggOp::Count,
            AAggExpr::Std(_, ddof) => AggOp::Std(ddof),
            AAggExpr::Var(_, ddof) => AggOp::Var(ddof),
            AAggExpr::AggGroups(_) => AggOp::AggGroups,
        }
    }

    fn get_inputs(&self) -> (r: Vec<Node>)
        ensures
            r@ == self.inputs(),
    {
        match *self {
            AAggExpr::Quantile { expr, quantile, .. } => vec![expr, quantile],
            _ => vec![self.first_input()],
        }
    }
}

impl AExpr {
    /// What the expression computes.
    pub open spec fn op(self) -> ExprOp {
        match self {
            AExpr::Explode(_) => ExprOp::Explode,
            AExpr::Alias(_, name) => ExprOp::Alias(name),
            AExpr::Column(name) => ExprOp::Column(name),
            AExpr::Literal(value) => ExprOp::Literal(value),
            AExpr::BinaryExpr { op, .. } => ExprOp::BinaryExpr(op),
            AExpr::Cast { data_type, strict, .. } => ExprOp::Cast { data_type, strict },
            AExpr::Sort { options, .. } => ExprOp::Sort(options),
            AExpr::Take { .. } => ExprOp::Take,
            AExpr::SortBy { descending, .. } => ExprOp::SortBy { descending },
            AExpr::Filter { .. } => ExprOp::Filter,
            AExpr::Agg(agg) => ExprOp::Agg(agg.op()),
            AExpr::Ternary { .. } => ExprOp::Ternary,
            AExpr::AnonymousFunction { function, output_type, options, .. } => ExprOp::AnonymousFunction {
                function,
                output_type,
                options,
            },
            AExpr::Function { function, options, .. } => ExprOp::Function { function, options },
            AExpr::Window { order_by, options, .. } => ExprOp::Window {
                ordered: order_by is Some,
                options,
            },
            AExpr::Wildcard => ExprOp::Wildcard,
            AExpr::Slice { .. } => ExprOp::Slice,
            AExpr::Count => ExprOp::Count,
            AExpr::Nth(n) => ExprOp::Nth(n),
        }
    }

    fn get_op(&self) -> (r: ExprOp)
        ensures
            r == self.op(),
    {
        match self {
            AExpr::Explode(_) => ExprOp::Explode,
            AExpr::Alias(_, name) => ExprOp::Alias(name.clone()),
            AExpr::Column(name) => ExprOp::Column(name.clone()),
            AExpr::Literal(value) => ExprOp::Literal(share(value)),
            AExpr::BinaryExpr { op, .. } => ExprOp::BinaryExpr(*op),
            AExpr::Cast { data_type, strict, .. } => ExprOp::Cast {
                data_type: share(data_type),
                strict: *strict,
            },
            AExpr::Sort { options, .. } => ExprOp::Sort(*options),
            AExpr::Take { .. } => ExprOp::Take,
            AExpr::SortBy { descending, .. } => ExprOp::SortBy { descending: share(descending) },
            AExpr::Filter { .. } => ExprOp::Filter,
            AExpr::Agg(agg) => ExprOp::Agg(agg.get_op()),
            AExpr::Ternary { .. } => ExprOp::Ternary,
            AExpr::AnonymousFunction { function, output_type, options, .. } => ExprOp::AnonymousFunction {
                function: *function,
                output_type: *output_type,
                options: *options,
            },
            AExpr::Function { function, options, .. } => ExprOp::Function {
                function: *function,
                options: *options,
            },
            AExpr::Window { order_by, options, .. } => ExprOp::Window {
                ordered: order_by.is_some(),
                options: *options,
            },
            AExpr::Wildcard => ExprOp::Wildcard,
            AExpr::Slice { .. } => ExprOp::Slice,
            AExpr::Count => ExprOp::Count,
            AExpr::Nth(n) => ExprOp::Nth(*n),
        }
    }

    fn get_inputs(&self) -> (r: Vec<Node>)
        ensures
            r@ == self.inputs(),
    {
        match self {
            AExpr::Explode(expr) => vec![*expr],
            AExpr::Alias(expr, _) => vec![*expr],
            AExpr::Column(_) => Vec::new(),
            AExpr::Literal(_) => Vec::new(),
            AExpr::BinaryExpr { left, right, .. } => vec![*left, *right],
            AExpr::Cast { expr, .. } => vec![*expr],
            AExpr::Sort { expr, .. } => vec![*expr],
            AExpr::Take { expr, idx } => vec![*expr, *idx],
            AExpr::SortBy { expr, by, .. } => {
                let mut nodes: Vec<Node> = vec![*expr];
                nodes.extend_from_slice(by.as_slice());
                assert(nodes@ =~= seq![*expr] + by@);
                nodes
            },
            AExpr::Filter { input, by } => vec![*input, *by],
            AExpr::Agg(agg) => agg.get_inputs(),
            AExpr::Ternary { predicate, truthy, falsy } => vec![*predicate, *truthy, *falsy],
            AExpr::AnonymousFunction { input, .. } => copy_nodes(input),
            AExpr::Function { input, .. } => copy_nodes(input),
            AExpr::Window { function, partition_by, order_by, .. } => {
                let mut nodes: Vec<Node> = vec![*function];
                nodes.extend_from_slice(partition_by.as_slice());
                assert(nodes@ =~= seq![*function] + partition_by@);
                match order_by {
                    Some(node) => nodes.push(*node),
                    None => {},
                }
                assert(nodes@ =~= self.inputs());
                nodes
            },
            AExpr::Wildcard => Vec::new(),
            AExpr::Slice { input, offset, length } => vec![*input, *offset, *length],
            AExpr::Count => Vec::new(),
            AExpr::Nth(_) => Vec::new(),
        }
    }
}

fn copy_nodes(nodes: &Vec<Node>) -> (r: Vec<Node>)
    ensures
        r@ == nodes@,
{
    let mut copy: Vec<Node> = Vec::new();
    copy.extend_from_slice(nodes.as_slice());
    assert(copy@ =~= nodes@);
    copy
}

/// The tree of the expression at `node`.
pub open spec fn tree(arena: Seq<AExpr>, node: Node) -> ExprTree
    decreases depth(arena, node),
    when is_expr(arena, node)
    via tree_terminates
{
    let inputs = arena[node.0 as int].inputs();
    ExprTree {
        op: arena[node.0 as int].op(),
        inputs: Seq::new(
            inputs.len(),
            |i: int|
                if 0 <= i < inputs.len() {
                    tree(arena, inputs[i])
                } else {
                    arbitrary()
                },
        ),
    }
}

#[via_fn]
proof fn tree_terminates(arena: Seq<AExpr>, node: Node) {
    lemma_inputs(arena, node);
}

/// The tree at a node, one level down.
pub proof fn lemma_tree(arena: Seq<AExpr>, node: Node)
    requires
        is_expr(arena, node),
    ensures
        tree(arena, node).op == arena[node.0 as int].op(),
        tree(arena, node).inputs.len() == arena[node.0 as int].inputs().len(),
        forall|i: int|
            0 <= i < arena[node.0 as int].inputs().len() ==> #[trigger] tree(arena, node).inputs[i]
                == tree(arena, arena[node.0 as int].inputs()[i]),
{
    reveal_with_fuel(tree, 2);
    lemma_inputs(arena, node);
}

/// Takes the expression at `node` out of the arena.
pub fn node_to_expr(node: Node, expr_arena: &Arena) -> (r: Expr)
    requires
        is_expr(expr_arena@, node),
    ensures
        r@ == tree(expr_arena@, node),
    decreases depth(expr_arena@, node),
{
    proof {
        lemma_inputs(expr_arena@, node);
    }
    let e = expr_arena.get(node);
    let nodes = e.get_inputs();
    let mut inputs: Vec<Expr> = Vec::new();
    for i in 0..nodes.len()
        invariant
            is_expr(expr_arena@, node),
            nodes@ == expr_arena@[node.0 as int].inputs(),
            inputs@.len() == i,
            forall|j: int| 0 <= j < i ==> (#[trigger] inputs@[j])@ == tree(expr_arena@, nodes@[j]),
    {
        proof {
            lemma_inputs(expr_arena@, node);
        }
        inputs.push(node_to_expr(nodes[i], expr_arena));
    }
    let r = Expr { op: e.get_op(), inputs };
    assert(r@.inputs =~= tree(expr_arena@, node).inputs);
    r
}

/// Whether some expression of the tree computes what `p` asks for.
pub open spec fn mentions(t: ExprTree, p: spec_fn(ExprOp) -> bool) -> bool
    decreases t,
{
    p(t.op) || exists|i: int| 0 <= i < t.inputs.len() && mentions(#[trigger] t.inputs[i], p)
}

/// Whether the tree reads the column of that name.
pub open spec fn reads_column(t: ExprTree, name: Seq<char>) -> bool {
    mentions(t, |op: ExprOp| op matches ExprOp::Column(n) && n@ == name)
}

/// The expressions that stand for themselves and that are looked for as such.
#[derive(Clone, Copy, PartialEq, Eq, Structural, Debug)]
pub enum LeafKind {
    Literal,
    Count,
    Wildcard,
}

impl LeafKind {
    /// Whether an expression is of the kind.
    pub open spec fn covers(self, op: ExprOp) -> bool {
        match self {
            LeafKind::Literal => op is Literal,
            LeafKind::Count => op is Count,
            LeafKind::Wildcard => op is Wildcard,
        }
    }
}

/// Whether the tree holds an expression of the kind.
pub open spec fn holds(t: ExprTree, kind: LeafKind) -> bool {
    mentions(t, |op: ExprOp| kind.covers(op))
}

/// `names` lists the columns that the tree reads, in increasing order and each once.
pub open spec fn lists_columns(t: ExprTree, names: Seq<Seq<char>>) -> bool {
    &&& increasing(names)
    &&& forall|name: Seq<char>| #[trigger] names.contains(name) <==> reads_column(t, name)
}

/// The columns that the tree reads, in increasing order and each once.
pub open spec fn leaf_columns(t: ExprTree) -> Seq<Seq<char>> {
    choose|names: Seq<Seq<char>>| lists_columns(t, names)
}

/// There is one list of the columns that a tree reads.
pub proof fn lemma_leaf_columns(t: ExprTree, names: Seq<Seq<char>>)
    requires
        lists_columns(t, names),
    ensures
        names == leaf_columns(t),
{
    lemma_same_names(names, leaf_columns(t));
}

proof fn columns_of(t: ExprTree) -> (r: Seq<Seq<char>>)
    ensures
        lists_columns(t, r),
    decreases t, t.inputs.len() + 1,
{
    let below = columns_of_inputs(t, t.inputs.len() as int);
    let r = match t.op {
        ExprOp::Column(name) => with_name(below, name@),
        _ => below,
    };
    assert forall|n: Seq<char>| #[trigger] r.contains(n) <==> reads_column(t, n) by {
        lemma_reads_column(t, n);
        assert(below.contains(n) <==> exists|i: int|
            0 <= i < t.inputs.len() && reads_column(#[trigger] t.inputs[i], n));
    }
    r
}

proof fn columns_of_inputs(t: ExprTree, k: int) -> (r: Seq<Seq<char>>)
    requires
        0 <= k <= t.inputs.len(),
    ensures
        increasing(r),
        forall|n: Seq<char>| #[trigger]
            r.contains(n) <==> exists|i: int| 0 <= i < k && reads_column(#[trigger] t.inputs[i], n),
    decreases t, k,
{
    if k == 0 {
        seq![]
    } else {
        let front = columns_of_inputs(t, k - 1);
        let last = columns_of(t.inputs[k - 1]);
        let r = with_names(front, last);
        assert forall|n: Seq<char>| #[trigger] r.contains(n) <==> exists|i: int|
            0 <= i < k && reads_column(#[trigger] t.inputs[i], n) by {
            assert(front.contains(n) <==> exists|i: int|
                0 <= i < k - 1 && reads_column(#[trigger] t.inputs[i], n));
            assert(last.contains(n) <==> reads_column(t.inputs[k - 1], n));
        }
        r
    }
}

/// Every tree has its list of columns: all that it reads and no others, in increasing order and
/// each once.
pub proof fn columns_are_listed(t: ExprTree)
    ensures
        lists_columns(t, leaf_columns(t)),
{
    let r = columns_of(t);
    lemma_leaf_columns(t, r);
}

/// The tree of an expression, one level down.
pub proof fn lemma_expr_view(e: Expr)
    ensures
        e@.op == e.op,
        e@.inputs.len() == e.inputs@.len(),
        forall|i: int| 0 <= i < e.inputs@.len() ==> #[trigger] e@.inputs[i] == e.inputs@[i]@,
{
    reveal_with_fuel(<Expr as View>::view, 2);
    assert(e.view().op == e.op);
    assert(e.view().inputs.len() == e.inputs@.len());
}

/// A tree reads the column that it is, and those that its inputs read.
proof fn lemma_reads_column(t: ExprTree, n: Seq<char>)
    ensures
        reads_column(t, n) <==> (t.op matches ExprOp::Column(c) && c@ == n) || exists|i: int|
            0 <= i < t.inputs.len() && reads_column(#[trigger] t.inputs[i], n),
{
}

/// A tree holds what it is, and what its inputs hold.
pub proof fn lemma_holds(t: ExprTree, kind: LeafKind)
    ensures
        holds(t, kind) <==> kind.covers(t.op) || exists|i: int|
            0 <= i < t.inputs.len() && holds(#[trigger] t.inputs[i], kind),
{
}

impl Expr {
    /// Adds the columns that the expression reads to an increasing list.
    fn add_columns(&self, names: &mut Vec<String>)
        requires
            increasing(names_of(old(names)@)),
        ensures
            increasing(names_of(final(names)@)),
            forall|n: Seq<char>| #[trigger]
                names_of(final(names)@).contains(n) <==> names_of(old(names)@).contains(n)
                    || reads_column(self@, n),
        decreases self,
    {
        let ghost t = self@;
        proof {
            lemma_expr_view(*self);
        }
        match &self.op {
            ExprOp::Column(name) => insert_name(names, name),
            _ => {},
        }
        let ghost own = names_of(names@);
        for i in 0..self.inputs.len()
            invariant
                t.inputs.len() == self.inputs@.len(),
                forall|j: int| 0 <= j < t.inputs.len() ==> #[trigger] t.inputs[j] == self.inputs@[j]@,
                increasing(names_of(names@)),
                forall|n: Seq<char>| #[trigger]
                    names_of(names@).contains(n) <==> own.contains(n) || exists|j: int|
                        0 <= j < i && reads_column(#[trigger] t.inputs[j], n),
        {
            let ghost before = names_of(names@);
            self.inputs[i].add_columns(names);
            assert(t.inputs[i as int] == self.inputs@[i as int]@);
            assert forall|n: Seq<char>| #[trigger]
                names_of(names@).contains(n) <==> own.contains(n) || exists|j: int|
                    0 <= j < i + 1 && reads_column(#[trigger] t.inputs[j], n) by {
                assert(before.contains(n) <==> own.contains(n) || exists|j: int|
                    0 <= j < i && reads_column(#[trigger] t.inputs[j], n));
            }
        }
        proof {
            assert forall|n: Seq<char>| #[trigger] names_of(names@).contains(n) <==> names_of(old(names)@).contains(
                n,
            ) || reads_column(t, n) by {
                lemma_reads_column(t, n);
            }
        }
    }

    /// The columns that the expression reads, in increasing order and each once.
    pub fn leaf_names(&self) -> (r: Vec<String>)
        ensures
            names_of(r@) == leaf_columns(self@),
            lists_columns(self@, names_of(r@)),
    {
        let mut names: Vec<String> = Vec::new();
        self.add_columns(&mut names);
        proof {
            lemma_leaf_columns(self@, names_of(names@));
        }
        names
    }

    /// Whether the expression holds one of the kind.
    pub fn has(&self, kind: LeafKind) -> (r: bool)
        ensures
            r == holds(self@, kind),
        decreases self,
    {
        let ghost t = self@;
        proof {
            lemma_expr_view(*self);
            lemma_holds(t, kind);
        }
        let own = match (&self.op, kind) {
            (ExprOp::Literal(_), LeafKind::Literal) => true,
            (ExprOp::Count, LeafKind::Count) => true,
            (ExprOp::Wildcard, LeafKind::Wildcard) => true,
            _ => false,
        };
        if own {
            return true;
        }
        for i in 0..self.inputs.len()
            invariant
                t.inputs.len() == self.inputs@.len(),
                forall|j: int| 0 <= j < t.inputs.len() ==> #[trigger] t.inputs[j] == self.inputs@[j]@,
                t == self@,
                holds(t, kind) <==> exists|j: int|
                    0 <= j < t.inputs.len() && holds(#[trigger] t.inputs[j], kind),
                forall|j: int| 0 <= j < i ==> !holds(#[trigger] t.inputs[j], kind),
        {
            assert(t.inputs[i as int] == self.inputs@[i as int]@);
            if self.inputs[i].has(kind) {
                return true;
            }
        }
        false
    }
}

/// What is taken out of the arena computes what stood there, with the same parameters, and has the
/// trees of all that the expression referred to as its inputs, in order.
pub proof fn expressions_are_taken_out_whole(arena: Seq<AExpr>, node: Node, e: Expr)
    requires
        is_expr(arena, node),
        e@ == tree(arena, node),
    ensures
        e.inputs@.len() == arena[node.0 as int].inputs().len(),
        forall|i: int|
            0 <= i < e.inputs@.len() ==> (#[trigger] e.inputs@[i])@ == tree(
                arena,
                arena[node.0 as int].inputs()[i],
            ),
        match arena[node.0 as int] {
            AExpr::Explode(_) => e.op is Explode,
            AExpr::Alias(_, name) => e.op == ExprOp::Alias(name),
            AExpr::Column(name) => e.op == ExprOp::Column(name),
            AExpr::Literal(value) => e.op == ExprOp::Literal(value),
            AExpr::BinaryExpr { op, .. } => e.op == ExprOp::BinaryExpr(op),
            AExpr::Cast { data_type, strict, .. } => e.op == (ExprOp::Cast { data_type, strict }),
            AExpr::Sort { options, .. } => e.op == ExprOp::Sort(options),
            AExpr::Take { .. } => e.op is Take,
            AExpr::SortBy { descending, .. } => e.op == (ExprOp::SortBy { descending }),
            AExpr::Filter { .. } => e.op is Filter,
            AExpr::Agg(agg) => e.op matches ExprOp::Agg(kept) && match kept {
                AggOp::Min { propagate_nans } => agg matches AAggExpr::Min {
                    propagate_nans: asked,
                    ..
                } && propagate_nans == asked,
                AggOp::Max { propagate_nans } => agg matches AAggExpr::Max {
                    propagate_nans: asked,
                    ..
                } && propagate_nans == asked,
                AggOp::Median => agg is Median,
                AggOp::NUnique => agg is NUnique,
                AggOp::First => agg is First,
                AggOp::Last => agg is Last,
                AggOp::Mean => agg is Mean,
                AggOp::Implode => agg is Implode,
                AggOp::Quantile { interpol } => agg matches AAggExpr::Quantile {
                    interpol: asked,
                    ..
                } && interpol == asked,
                AggOp::Sum => agg is Sum,
                AggOp::Count => agg is Count,
                AggOp::Std(ddof) => agg matches AAggExpr::Std(_, asked) && ddof == asked,
                AggOp::Var(ddof) => agg matches AAggExpr::Var(_, asked) && ddof == asked,
                AggOp::AggGroups => agg is AggGroups,
            },
            AExpr::Ternary { .. } => e.op is Ternary,
            AExpr::AnonymousFunction { function, output_type, options, .. } => e.op == (
            ExprOp::AnonymousFunction { function, output_type, options }),
            AExpr::Function { function, options, .. } => e.op == (ExprOp::Function {
                function,
                options,
            }),
            AExpr::Window { order_by, options, .. } => e.op == (ExprOp::Window {
                ordered: order_by is Some,
                options,
            }),
            AExpr::Wildcard => e.op is Wildcard,
            AExpr::Slice { .. } => e.op is Slice,
            AExpr::Count => e.op is Count,
            AExpr::Nth(n) => e.op == ExprOp::Nth(n),
        },
{
    lemma_tree(arena, node);
    lemma_expr_view(e);
    assert forall|i: int| 0 <= i < e.inputs@.len() implies (#[trigger] e.inputs@[i])@ == tree(
        arena,
        arena[node.0 as int].inputs()[i],
    ) by {
        assert(e@.inputs[i] == e.inputs@[i]@);
    }
}

/// A tree reads a column if it is that column, or an input of it reads the column; it holds a
/// literal, a count or a wildcard if it is one, or an input of it holds one.
pub proof fn trees_read_and_hold_what_their_parts_do(t: ExprTree, n: Seq<char>)
    ensures
        reads_column(t, n) <==> (t.op matches ExprOp::Column(c) && c@ == n) || exists|i: int|
            0 <= i < t.inputs.len() && reads_column(#[trigger] t.inputs[i], n),
        holds(t, LeafKind::Literal) <==> t.op is Literal || exists|i: int|
            0 <= i < t.inputs.len() && holds(#[trigger] t.inputs[i], LeafKind::Literal),
        holds(t, LeafKind::Count) <==> t.op is Count || exists|i: int|
            0 <= i < t.inputs.len() && holds(#[trigger] t.inputs[i], LeafKind::Count),
        holds(t, LeafKind::Wildcard) <==> t.op is Wildcard || exists|i: int|
            0 <= i < t.inputs.len() && holds(#[trigger] t.inputs[i], LeafKind::Wildcard),
{
    lemma_reads_column(t, n);
    lemma_holds(t, LeafKind::Literal);
    lemma_holds(t, LeafKind::Count);
    lemma_holds(t, LeafKind::Wildcard);
}

/// The columns listed for a tree are those that it reads, each once, in increasing order: there is
/// one such list, and it is empty if and only if the tree reads none.
pub proof fn listed_columns_are_those_read(t: ExprTree)
    ensures
        increasing(leaf_columns(t)),
        forall|n: Seq<char>| #[trigger] leaf_columns(t).contains(n) <==> reads_column(t, n),
        leaf_columns(t).len() == 0 <==> forall|n: Seq<char>| !reads_column(t, n),
{
    columns_are_listed(t);
    let listed = leaf_columns(t);
    if listed.len() > 0 {
        assert(listed.contains(listed[0]));
        assert(reads_column(t, listed[0]));
    } else {
        assert forall|n: Seq<char>| !reads_column(t, n) by {
            assert(!listed.contains(n));
        }
    }
}

} // verus!
