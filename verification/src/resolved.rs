//! The intermediate representation after name resolution: every variable
//! access is the index of its binding in the enclosing scope.

use vstd::prelude::*;
use crate::shared::{ConstExpression, MathOperator};

verus! {

/// An expression whose names are resolved.
#[derive(Debug, PartialEq)]
pub enum Expression {
    Const(ConstExpression),
    /// The binding at this index of the scope.
    VariableAccess(u32),
    Binary(MathOperator, Box<BinaryExpression>),
}

/// The operands of a binary expression.
#[derive(Debug, PartialEq)]
pub struct BinaryExpression {
    pub lhs: Expression,
    pub rhs: Expression,
}

/// A sequence of expressions; the last one is the value of the block.
#[derive(Clone, Debug, PartialEq)]
pub struct Block {
    pub expressions: Vec<Expression>,
}

impl Clone for Expression {
    fn clone(&self) -> (copy: Self)
        ensures
            copy == *self,
    {
        self.duplicate()
    }
}

impl Clone for BinaryExpression {
    fn clone(&self) -> (copy: Self)
        ensures
            copy == *self,
    {
        BinaryExpression { lhs: self.lhs.duplicate(), rhs: self.rhs.duplicate() }
    }
}

impl Expression {
    /// A copy of this expression.
    pub fn duplicate(&self) -> (copy: Expression)
        ensures
            copy == *self,
        decreases self,
    {
        match self {
            Expression::Const(constant) => Expression::Const(*constant),
            Expression::VariableAccess(binding) => Expression::VariableAccess(*binding),
            Expression::Binary(operator, operands) => Expression::Binary(
                *operator,
                Box::new(
                    BinaryExpression {
                        lhs: operands.lhs.duplicate(),
                        rhs: operands.rhs.duplicate(),
                    },
                ),
            ),
        }
    }

    /// The number of type variables that annotating this expression
    /// allocates: one for every literal and every binary operation.
    pub open spec fn fresh_count(self) -> nat
        decreases self,
    {
        match self {
            Expression::Const(_) => 1,
            Expression::VariableAccess(_) => 0,
            Expression::Binary(_, operands) => operands.lhs.fresh_count()
                + operands.rhs.fresh_count() + 1,
        }
    }

    /// Whether every variable access is to one of the first `scope` bindings.
    pub open spec fn closed_in(self, scope: nat) -> bool
        decreases self,
    {
        match self {
            Expression::Const(_) => true,
            Expression::VariableAccess(binding) => binding < scope,
            Expression::Binary(_, operands) => operands.lhs.closed_in(scope)
                && operands.rhs.closed_in(scope),
        }
    }

    /// Whether every variable access is to one of the first `scope` bindings.
    pub fn is_closed_in(&self, scope: usize) -> (closed: bool)
        ensures
            closed == self.closed_in(scope as nat),
        decreases self,
    {
        match self {
            Expression::Const(_) => true,
            Expression::VariableAccess(binding) => (*binding as usize) < scope,
            Expression::Binary(_, operands) => operands.lhs.is_closed_in(scope)
                && operands.rhs.is_closed_in(scope),
        }
    }
}

impl Block {
    /// A block of the given expressions.
    pub fn new(expressions: Vec<Expression>) -> (block: Block)
        ensures
            block.expressions == expressions,
    {
        Block { expressions }
    }

    /// The number of type variables that annotating the first `count`
    /// expressions allocates.
    pub open spec fn fresh_before(self, count: int) -> nat
        decreases count,
    {
        if count <= 0 {
            0
        } else {
            self.fresh_before(count - 1) + self.expressions@[count - 1].fresh_count()
        }
    }

    /// The number of type variables that annotating this block allocates:
    /// those of its expressions and one for the block.
    pub open spec fn fresh_count(self) -> nat {
        self.fresh_before(self.expressions@.len() as int) + 1
    }

    /// Whether every expression is closed in a scope of `scope` bindings.
    pub open spec fn closed_in(self, scope: nat) -> bool {
        forall|i: int|
            0 <= i < self.expressions@.len() ==> (#[trigger] self.expressions@[i]).closed_in(scope)
    }

    /// Whether every expression is closed in a scope of `scope` bindings.
    pub fn is_closed_in(&self, scope: usize) -> (closed: bool)
        ensures
            closed == self.closed_in(scope as nat),
    {
        let mut index: usize = 0;
        while index < self.expressions.len()
            invariant
                index <= self.expressions@.len(),
                forall|i: int| 0 <= i < index ==> (#[trigger] self.expressions@[i]).closed_in(
                    scope as nat,
                ),
            decreases self.expressions@.len() - index,
        {
            if !self.expressions[index].is_closed_in(scope) {
                return false;
            }
            index = index + 1;
        }
        true
    }
}

} // verus!
