//! The intermediate representation in which every node carries an
//! inferable type, and the constraints that its shape imposes.

use vstd::prelude::*;
use crate::infer::{Constraint, Constraints, InferType};
use crate::pos::{Span, Spanned};
use crate::resolved;
use crate::shared::{ConstExpression, MathOperator, Type};
use crate::unify::{
    lemma_knows_all_concat, lemma_solve_keeps_unified, lemma_solve_unifies,
    lemma_unified_same_node, TableView, UnifyTable,
};

verus! {

/// A node with the type that inference is to find for it.
#[derive(Clone, Debug, PartialEq)]
pub struct Annotated<T> {
    pub item: T,
    pub ty: InferType,
}

/// An annotated expression.
#[derive(Debug, PartialEq)]
pub enum Expression {
    Const(ConstExpression),
    VariableAccess(u32),
    Binary(MathOperator, Box<BinaryExpression>),
}

/// The annotated operands of a binary expression.
#[derive(Debug, PartialEq)]
pub struct BinaryExpression {
    pub lhs: Annotated<Expression>,
    pub rhs: Annotated<Expression>,
}

/// An annotated block.
#[derive(Clone, Debug, PartialEq)]
pub struct Block {
    pub expressions: Vec<Annotated<Expression>>,
}

impl Clone for Expression {
    fn clone(&self) -> (copy: Self)
        ensures
            copy == *self,
    {
        self.duplicate()
    }
}

impl Clone for BinaryExpression {
    fn clone(&self) -> (copy: Self)
        ensures
            copy == *self,
    {
        BinaryExpression {
            lhs: Annotated { item: self.lhs.item.duplicate(), ty: self.lhs.ty },
            rhs: Annotated { item: self.rhs.item.duplicate(), ty: self.rhs.ty },
        }
    }
}

impl Expression {
    /// A copy of this expression.
    pub fn duplicate(&self) -> (copy: Expression)
        ensures
            copy == *self,
        decreases self,
    {
        match self {
            Expression::Const(constant) => Expression::Const(*constant),
            Expression::VariableAccess(binding) => Expression::VariableAccess(*binding),
            Expression::Binary(operator, operands) => Expression::Binary(
                *operator,
                Box::new(
                    BinaryExpression {
                        lhs: Annotated { item: operands.lhs.item.duplicate(), ty: operands.lhs.ty },
                        rhs: Annotated { item: operands.rhs.item.duplicate(), ty: operands.rhs.ty },
                    },
                ),
            ),
        }
    }
}

/// The type of every binding in scope, by index.
#[derive(Clone, Debug, PartialEq)]
pub struct TypeEnv {
    pub bindings: Vec<InferType>,
}

impl View for TypeEnv {
    type V = Seq<InferType>;

    open spec fn view(&self) -> Seq<InferType> {
        self.bindings@
    }
}

impl TypeEnv {
    /// A scope without bindings.
    pub fn new() -> (env: TypeEnv)
        ensures
            env@ == Seq::<InferType>::empty(),
    {
        TypeEnv { bindings: Vec::new() }
    }

    /// Adds a binding of type `ty` at the next index.
    pub fn bind(&mut self, ty: InferType)
        ensures
            final(self)@ == old(self)@.push(ty),
    {
        self.bindings.push(ty);
    }

    /// The number of bindings.
    pub fn len(&self) -> (len: usize)
        ensures
            len == self@.len(),
    {
        self.bindings.len()
    }

    /// Whether `vars` holds every variable that a binding has for its type.
    pub fn known_in(&self, vars: &UnifyTable) -> (known: bool)
        ensures
            known == env_known(vars@, self@),
    {
        let mut index: usize = 0;
        while index < self.bindings.len()
            invariant
                index <= self.bindings@.len(),
                forall|i: int| 0 <= i < index ==> vars@.knows(#[trigger] self@[i]),
            decreases self.bindings@.len() - index,
        {
            if !vars.knows(self.bindings[index]) {
                return false;
            }
            index = index + 1;
        }
        true
    }
}

/// The type of an empty block.
pub open spec fn void_type() -> InferType {
    InferType::Resolved(Spanned { node: Type::Void, span: Span::Synthetic("void") })
}

/// The known type of the literal `constant`.
pub open spec fn constant_type(constant: ConstExpression) -> InferType {
    InferType::Resolved(Spanned { node: constant.spec_ty(), span: Span::Synthetic("constant") })
}

impl resolved::Expression {
    /// The annotation of this expression when `first` variables exist
    /// already and the bindings in scope have the types `env`. Operands
    /// come before the operation; a literal and an operation get the next
    /// variable, a variable access the type of its binding.
    pub open spec fn annotated(self, first: nat, env: Seq<InferType>) -> Annotated<Expression>
        decreases self,
    {
        match self {
            resolved::Expression::Const(constant) => Annotated {
                item: Expression::Const(constant),
                ty: InferType::Variable(first as usize),
            },
            resolved::Expression::VariableAccess(binding) => Annotated {
                item: Expression::VariableAccess(binding),
                ty: env[binding as int],
            },
            resolved::Expression::Binary(operator, operands) => {
                let lhs = operands.lhs.annotated(first, env);
                let rhs = operands.rhs.annotated(first + operands.lhs.fresh_count(), env);
                Annotated {
                    item: Expression::Binary(operator, Box::new(BinaryExpression { lhs, rhs })),
                    ty: InferType::Variable(
                        (first + operands.lhs.fresh_count() + operands.rhs.fresh_count()) as usize,
                    ),
                }
            },
        }
    }

    /// Annotates this expression, allocating its variables in `vars`.
    pub fn annotate(&self, vars: &mut UnifyTable, env: &TypeEnv) -> (annotated: Annotated<
        Expression,
    >)
        requires
            self.closed_in(env@.len()),
        ensures
            annotated == self.annotated(old(vars)@.len(), env@),
            final(vars)@ == old(vars)@.grown(self.fresh_count()),
        decreases self,
    {
        let ghost before = vars@;
        match self {
            resolved::Expression::Const(constant) => {
                let variable = vars.fresh();
                proof {
                    reveal_with_fuel(TableView::grown, 2);
                }
                Annotated { item: Expression::Const(*constant), ty: InferType::Variable(variable) }
            },
            resolved::Expression::VariableAccess(binding) => Annotated {
                item: Expression::VariableAccess(*binding),
                ty: env.bindings[*binding as usize],
            },
            resolved::Expression::Binary(operator, operands) => {
                let lhs = operands.lhs.annotate(vars, env);
                let rhs = operands.rhs.annotate(vars, env);
                proof {
                    before.lemma_grown(operands.lhs.fresh_count(), operands.rhs.fresh_count());
                    before.lemma_grown(
                        operands.lhs.fresh_count() + operands.rhs.fresh_count(),
                        0,
                    );
                }
                let variable = vars.fresh();
                Annotated {
                    item: Expression::Binary(*operator, Box::new(BinaryExpression { lhs, rhs })),
                    ty: InferType::Variable(variable),
                }
            },
        }
    }
}

impl Block {
    /// The type of the value of the block: that of its last expression,
    /// or void if it has none.
    pub open spec fn last_ty_spec(self) -> InferType {
        if self.expressions@.len() == 0 {
            void_type()
        } else {
            self.expressions@.last().ty
        }
    }

    /// The type of the value of the block: that of its last expression,
    /// or void if it has none.
    pub fn last_ty(&self) -> (ty: InferType)
        ensures
            ty == self.last_ty_spec(),
    {
        let len = self.expressions.len();
        if len == 0 {
            InferType::Resolved(Type::Void.synthetic("void"))
        } else {
            self.expressions[len - 1].ty
        }
    }

    /// Annotates `block`: its expressions in order, each with the variables
    /// it needs, and then the block itself with one more variable.
    pub fn from(block: resolved::Block, vars: &mut UnifyTable, env: &TypeEnv) -> (annotated:
        Annotated<Block>)
        requires
            block.closed_in(env@.len()),
        ensures
            annotated.annotates(block, old(vars)@.len(), env@),
            final(vars)@ == old(vars)@.grown(block.fresh_count()),
            final(vars)@.wf(),
    {
        let ghost before = vars@;
        let mut expressions: Vec<Annotated<Expression>> = Vec::new();
        let mut index: usize = 0;
        while index < block.expressions.len()
            invariant
                index <= block.expressions@.len(),
                block.closed_in(env@.len()),
                expressions@.len() == index,
                vars@ == before.grown(block.fresh_before(index as int)),
                forall|i: int|
                    0 <= i < index ==> #[trigger] expressions@[i] == block.expressions@[i].annotated(
                        before.len() + block.fresh_before(i),
                        env@,
                    ),
            decreases block.expressions@.len() - index,
        {
            proof {
                before.lemma_grown(
                    block.fresh_before(index as int),
                    block.expressions@[index as int].fresh_count(),
                );
            }
            let expression = block.expressions[index].annotate(vars, env);
            expressions.push(expression);
            index = index + 1;
        }
        proof {
            before.lemma_grown(block.fresh_before(index as int), 0);
        }
        let variable = vars.fresh();
        Annotated { item: Block { expressions }, ty: InferType::Variable(variable) }
    }
}

/// The constraints of the first `count` of `expressions`, in order.
pub open spec fn constraints_before(expressions: Seq<Annotated<Expression>>, count: int) -> Seq<
    Constraint,
>
    decreases count,
{
    if count <= 0 {
        Seq::empty()
    } else {
        constraints_before(expressions, count - 1) + expressions[count - 1].constraints_spec()
    }
}

impl Annotated<Expression> {
    /// The constraints that this expression imposes: a literal has the
    /// type of its kind; the operands of an operation have one type, which
    /// is also the type of the operation, and their own constraints follow,
    /// left before right.
    pub open spec fn constraints_spec(self) -> Seq<Constraint>
        decreases self,
    {
        match self.item {
            Expression::Const(constant) => seq![Constraint(self.ty, constant_type(constant))],
            Expression::VariableAccess(_) => Seq::empty(),
            Expression::Binary(_, operands) => seq![
                Constraint(operands.lhs.ty, operands.rhs.ty),
                Constraint(self.ty, operands.lhs.ty),
            ] + operands.lhs.constraints_spec() + operands.rhs.constraints_spec(),
        }
    }

    /// Collects the constraints of this expression.
    pub fn constraints(&self) -> (constraints: Constraints)
        ensures
            constraints@ == self.constraints_spec(),
        decreases self,
    {
        match &self.item {
            Expression::Const(constant) => Constraints::empty().and(
                Constraint(self.ty, InferType::Resolved(constant.ty().synthetic("constant"))),
            ),
            Expression::VariableAccess(_) => Constraints::empty(),
            Expression::Binary(_, operands) => {
                let mut constraints = Constraints::empty().and(
                    Constraint(operands.lhs.ty, operands.rhs.ty),
                ).and(Constraint(self.ty, operands.lhs.ty));
                constraints.append(operands.lhs.constraints());
                constraints.append(operands.rhs.constraints());
                constraints
            },
        }
    }
}

impl Annotated<Block> {
    /// Whether this is the annotation of `block` when `first` variables
    /// exist already and the bindings in scope have the types `env`.
    pub open spec fn annotates(self, block: resolved::Block, first: nat, env: Seq<InferType>) -> bool {
        &&& self.item.expressions@.len() == block.expressions@.len()
        &&& forall|i: int|
            0 <= i < block.expressions@.len() ==> #[trigger] self.item.expressions@[i]
                == block.expressions@[i].annotated(first + block.fresh_before(i), env)
        &&& self.ty == InferType::Variable(
            (first + block.fresh_before(block.expressions@.len() as int)) as usize,
        )
    }

    /// The constraints that this block imposes: its type is the type of
    /// its value; the constraints of its expressions follow, in order.
    pub open spec fn constraints_spec(self) -> Seq<Constraint> {
        seq![Constraint(self.item.last_ty_spec(), self.ty)] + constraints_before(
            self.item.expressions@,
            self.item.expressions@.len() as int,
        )
    }

    /// Collects the constraints of this block.
    pub fn constraints(&self) -> (constraints: Constraints)
        ensures
            constraints@ == self.constraints_spec(),
    {
        let mut constraints = Constraints::empty().and(Constraint(self.item.last_ty(), self.ty));
        let mut index: usize = 0;
        while index < self.item.expressions.len()
            invariant
                index <= self.item.expressions@.len(),
                constraints@ == seq![Constraint(self.item.last_ty_spec(), self.ty)]
                    + constraints_before(self.item.expressions@, index as int),
            decreases self.item.expressions@.len() - index,
        {
            constraints.append(self.item.expressions[index].constraints());
            index = index + 1;
        }
        constraints
    }
}

/// Whether `table` knows the type of every binding of `env`.
pub open spec fn env_known(table: TableView, env: Seq<InferType>) -> bool {
    forall|i: int| 0 <= i < env.len() ==> table.knows(#[trigger] env[i])
}

/// The constraints of an annotated expression mention only the types of
/// the scope and the variables that the annotation allocated.
pub proof fn lemma_expression_constraints_known(
    expression: resolved::Expression,
    first: nat,
    env: Seq<InferType>,
    table: TableView,
)
    requires
        expression.closed_in(env.len()),
        env_known(table, env),
        first + expression.fresh_count() <= table.len() <= usize::MAX,
    ensures
        table.knows(expression.annotated(first, env).ty),
        table.knows_all(expression.annotated(first, env).constraints_spec()),
    decreases expression,
{
    match expression {
        resolved::Expression::Const(_) => {},
        resolved::Expression::VariableAccess(_) => {},
        resolved::Expression::Binary(_, operands) => {
            let lhs = operands.lhs.annotated(first, env);
            let rhs = operands.rhs.annotated(first + operands.lhs.fresh_count(), env);
            lemma_expression_constraints_known(operands.lhs, first, env, table);
            lemma_expression_constraints_known(
                operands.rhs,
                first + operands.lhs.fresh_count(),
                env,
                table,
            );
            let own = seq![
                Constraint(lhs.ty, rhs.ty),
                Constraint(expression.annotated(first, env).ty, lhs.ty),
            ];
            assert(table.knows_all(own));
            lemma_knows_all_concat(table, own, lhs.constraints_spec());
            lemma_knows_all_concat(table, own + lhs.constraints_spec(), rhs.constraints_spec());
        },
    }
}

/// The fresh variables of a prefix of a block are among those of the block.
pub proof fn lemma_fresh_before_grows(block: resolved::Block, count: int, limit: int)
    requires
        0 <= count <= limit,
    ensures
        block.fresh_before(count) <= block.fresh_before(limit),
    decreases limit - count,
{
    if count < limit {
        lemma_fresh_before_grows(block, count + 1, limit);
    }
}

proof fn lemma_prefix_constraints_known(
    annotated: Annotated<Block>,
    block: resolved::Block,
    first: nat,
    env: Seq<InferType>,
    table: TableView,
    count: int,
)
    requires
        annotated.annotates(block, first, env),
        block.closed_in(env.len()),
        env_known(table, env),
        first + block.fresh_count() <= table.len() <= usize::MAX,
        0 <= count <= block.expressions@.len(),
    ensures
        table.knows_all(constraints_before(annotated.item.expressions@, count)),
        forall|i: int| 0 <= i < count ==> table.knows((#[trigger] annotated.item.expressions@[i]).ty),
    decreases count,
{
    if count > 0 {
        lemma_prefix_constraints_known(annotated, block, first, env, table, count - 1);
        lemma_fresh_before_grows(block, count, block.expressions@.len() as int);
        let expression = block.expressions@[count - 1];
        assert(expression.closed_in(env.len()));
        assert(annotated.item.expressions@[count - 1] == expression.annotated(
            first + block.fresh_before(count - 1),
            env,
        ));
        lemma_expression_constraints_known(
            expression,
            first + block.fresh_before(count - 1),
            env,
            table,
        );
        lemma_knows_all_concat(
            table,
            constraints_before(annotated.item.expressions@, count - 1),
            annotated.item.expressions@[count - 1].constraints_spec(),
        );
    }
}

/// The constraints of an annotated block mention only the types of the
/// scope and the variables that the annotation allocated: a table that
/// holds those variables can solve them.
pub proof fn lemma_block_constraints_known(
    annotated: Annotated<Block>,
    block: resolved::Block,
    first: nat,
    env: Seq<InferType>,
    table: TableView,
)
    requires
        annotated.annotates(block, first, env),
        block.closed_in(env.len()),
        env_known(table, env),
        first + block.fresh_count() <= table.len() <= usize::MAX,
    ensures
        table.knows(annotated.ty),
        table.knows(annotated.item.last_ty_spec()),
        table.knows_all(annotated.constraints_spec()),
{
    let len = block.expressions@.len() as int;
    lemma_prefix_constraints_known(annotated, block, first, env, table, len);
    if len > 0 {
        assert(table.knows(annotated.item.expressions@[len - 1].ty));
    }
    let own = seq![Constraint(annotated.item.last_ty_spec(), annotated.ty)];
    assert(table.knows_all(own));
    lemma_knows_all_concat(table, own, constraints_before(annotated.item.expressions@, len));
}

/// Annotating a block without expressions gives a block whose value has
/// the void type.
pub proof fn lemma_empty_block_is_void(
    annotated: Annotated<Block>,
    block: resolved::Block,
    first: nat,
    env: Seq<InferType>,
)
    requires
        annotated.annotates(block, first, env),
        block.expressions@.len() == 0,
    ensures
        annotated.item.last_ty_spec() == void_type(),
        annotated.item.last_ty_spec() matches InferType::Resolved(ty) && ty.node == Type::Void,
        annotated.constraints_spec() == seq![Constraint(void_type(), annotated.ty)],
{
    reveal_with_fuel(constraints_before, 1);
}

/// The first constraint of a block equates the type of its value with the
/// type of the block. So when the constraints are solved the two are
/// unified: whatever type the last expression has, the block has a type
/// with the same node.
pub proof fn lemma_block_type_is_last_type(annotated: Annotated<Block>, table: TableView)
    requires
        table.wf(),
        table.knows_all(annotated.constraints_spec()),
        table.solve(annotated.constraints_spec()) is Ok,
    ensures
        annotated.constraints_spec()[0] == Constraint(annotated.item.last_ty_spec(), annotated.ty),
        ({
            let solved = table.solve(annotated.constraints_spec()).unwrap();
            &&& solved.unified(annotated.item.last_ty_spec(), annotated.ty)
            &&& solved.ty_of(annotated.item.last_ty_spec()) matches Some(last) ==> solved.ty_of(
                annotated.ty,
            ) matches Some(whole) && whole.node == last.node
        }),
{
    let constraints = annotated.constraints_spec();
    assert(table.knows(constraints[0].0));
    lemma_solve_unifies(table, constraints, 0);
    let solved = table.solve(constraints).unwrap();
    lemma_solve_keeps_unified(table, constraints, annotated.ty, annotated.ty);
    lemma_unified_same_node(solved, annotated.item.last_ty_spec(), annotated.ty);
}

} // verus!
