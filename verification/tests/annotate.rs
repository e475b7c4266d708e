use argon::annotated::{Annotated, Block, Expression, TypeEnv};
use argon::infer::{Constraint, Constraints, InferType};
use argon::resolved;
use argon::shared::{ConstExpression, MathOperator, Type};
use argon::unify::UnifyTable;

fn constant_type(ty: Type) -> InferType {
    InferType::Resolved(ty.synthetic("constant"))
}

fn list(constraints: &Constraints) -> Vec<Constraint> {
    let mut all = Vec::new();
    let mut index = 0;
    while let Some(constraint) = constraints.get(index) {
        all.push(constraint);
        index += 1;
    }
    all
}

#[test]
fn empty_block_has_the_void_type() {
    let mut vars = UnifyTable::new();
    let env = TypeEnv::new();
    let block = resolved::Block::new(vec![]);
    assert!(block.is_closed_in(env.len()));
    let annotated = Block::from(block, &mut vars, &env);
    assert_eq!(annotated.item.last_ty(), InferType::Resolved(Type::Void.synthetic("void")));
    assert_eq!(annotated.ty, InferType::Variable(0));
    assert_eq!(vars.len(), 1);
    assert_eq!(
        list(&annotated.constraints()),
        vec![Constraint(InferType::Resolved(Type::Void.synthetic("void")), InferType::Variable(0))]
    );
}

#[test]
fn empty_block_resolves_to_void() {
    let mut vars = UnifyTable::new();
    let env = TypeEnv::new();
    let annotated = Block::from(resolved::Block::new(vec![]), &mut vars, &env);
    assert_eq!(vars.solve(&annotated.constraints()), Ok(()));
    assert_eq!(vars.resolve(0), Some(Type::Void.synthetic("void")));
}

#[test]
fn block_type_follows_its_last_expression() {
    let mut vars = UnifyTable::new();
    let x = vars.fresh();
    let mut env = TypeEnv::new();
    env.bind(InferType::Variable(x));
    let block = resolved::Block::new(vec![
        resolved::Expression::Const(ConstExpression::I32(1)),
        resolved::Expression::VariableAccess(0),
    ]);
    assert!(block.is_closed_in(env.len()));
    let annotated = Block::from(block, &mut vars, &env);
    assert_eq!(annotated.item.expressions.len(), 2);
    assert_eq!(
        annotated.item.expressions[0],
        Annotated {
            item: Expression::Const(ConstExpression::I32(1)),
            ty: InferType::Variable(1)
        }
    );
    assert_eq!(
        annotated.item.expressions[1],
        Annotated { item: Expression::VariableAccess(0), ty: InferType::Variable(x) }
    );
    assert_eq!(annotated.ty, InferType::Variable(2));
    assert_eq!(annotated.item.last_ty(), InferType::Variable(x));
    let constraints = annotated.constraints();
    assert_eq!(
        list(&constraints),
        vec![
            Constraint(InferType::Variable(x), InferType::Variable(2)),
            Constraint(InferType::Variable(1), constant_type(Type::I32)),
        ]
    );
    assert_eq!(vars.solve(&constraints), Ok(()));
    assert_eq!(vars.resolve(2), None);
    let context = Type::I64.at(11, 14);
    assert_eq!(vars.unify(InferType::Variable(x), InferType::Resolved(context)), Ok(()));
    assert_eq!(vars.resolve(2), Some(context));
    assert_eq!(vars.resolve(x), Some(context));
    assert_eq!(vars.resolve(1), Some(Type::I32.synthetic("constant")));
}

#[test]
fn binary_expression_is_annotated_operands_first() {
    let mut vars = UnifyTable::new();
    let mut env = TypeEnv::new();
    let declared = InferType::Resolved(Type::U32.at(12, 15));
    env.bind(declared);
    let expression = resolved::Expression::Binary(
        MathOperator::Add,
        Box::new(resolved::BinaryExpression {
            lhs: resolved::Expression::VariableAccess(0),
            rhs: resolved::Expression::Binary(
                MathOperator::Mul,
                Box::new(resolved::BinaryExpression {
                    lhs: resolved::Expression::Const(ConstExpression::U32(2)),
                    rhs: resolved::Expression::VariableAccess(0),
                }),
            ),
        }),
    );
    assert!(expression.is_closed_in(1));
    assert!(!expression.is_closed_in(0));
    let annotated = expression.annotate(&mut vars, &env);
    assert_eq!(vars.len(), 3);
    assert_eq!(annotated.ty, InferType::Variable(2));
    let constraints = annotated.constraints();
    assert_eq!(
        list(&constraints),
        vec![
            Constraint(declared, InferType::Variable(1)),
            Constraint(InferType::Variable(2), declared),
            Constraint(InferType::Variable(0), declared),
            Constraint(InferType::Variable(1), InferType::Variable(0)),
            Constraint(InferType::Variable(0), constant_type(Type::U32)),
        ]
    );
    assert_eq!(vars.solve(&constraints), Ok(()));
    let types = vars.finalize().unwrap();
    assert_eq!(types.len(), 3);
    assert!(types.iter().all(|ty| ty.node == Type::U32));
}

#[test]
fn operands_of_different_types_are_a_mismatch() {
    let mut vars = UnifyTable::new();
    let env = TypeEnv::new();
    let expression = resolved::Expression::Binary(
        MathOperator::Sub,
        Box::new(resolved::BinaryExpression {
            lhs: resolved::Expression::Const(ConstExpression::I32(1)),
            rhs: resolved::Expression::Const(ConstExpression::Bool(true)),
        }),
    );
    let annotated = expression.annotate(&mut vars, &env);
    let result = vars.solve(&annotated.constraints());
    assert!(result.is_err());
    assert_eq!(vars.resolve(0), None);
}

#[test]
fn literals_have_the_type_of_their_kind() {
    assert_eq!(ConstExpression::Bool(false).ty(), Type::Bool);
    assert_eq!(ConstExpression::I32(-1).ty(), Type::I32);
    assert_eq!(ConstExpression::I64(1).ty(), Type::I64);
    assert_eq!(ConstExpression::U32(1).ty(), Type::U32);
    assert_eq!(ConstExpression::U64(1).ty(), Type::U64);
    assert_eq!(ConstExpression::F32(1.5f32.into()).ty(), Type::F32);
    assert_eq!(ConstExpression::F64(2.5f64.into()).ty(), Type::F64);
}

#[test]
fn copies_of_expressions_are_equal() {
    let expression = resolved::Expression::Binary(
        MathOperator::Div,
        Box::new(resolved::BinaryExpression {
            lhs: resolved::Expression::VariableAccess(3),
            rhs: resolved::Expression::Const(ConstExpression::I64(9)),
        }),
    );
    assert_eq!(expression.duplicate(), expression);
    assert_eq!(expression.clone(), expression);
    let mut vars = UnifyTable::new();
    let mut env = TypeEnv::new();
    for _ in 0..4 {
        env.bind(InferType::Resolved(Type::I64.at(0, 3)));
    }
    let annotated = expression.annotate(&mut vars, &env);
    assert_eq!(annotated.item.duplicate(), annotated.item);
    assert_eq!(annotated.clone(), annotated);
}
