use argon::annotated::{Block, TypeEnv};
use argon::ast::Expression;
use argon::infer::{Constraint, InferType};
use argon::parser::parse;
use argon::pos::Span;
use argon::resolved;
use argon::shared::{Type, TypeError};
use argon::typing::{infer_body, infer_function};
use argon::unify::UnifyTable;

#[test]
fn identity_function_has_a_body_of_its_return_type() {
    let module = parse("export def id(x: i32) -> i32 { x }").unwrap();
    assert_eq!(module.funcs.len(), 1);
    let function = &module.funcs[0];
    assert!(function.modifiers.export);

    let mappings = function.mappings();
    let mut env = TypeEnv::new();
    for parameter in &function.args.list {
        let span = parameter.name.span;
        let declared = match span {
            Span::Bytes { start, end } => parameter.ty.at(start, end),
            Span::Synthetic(label) => parameter.ty.synthetic(label),
        };
        env.bind(InferType::Resolved(declared));
    }
    let mut expressions = Vec::new();
    for expression in &function.body.expressions {
        match expression {
            Expression::VariableAccess(name) => {
                let binding = *mappings.get(name.node.name.as_str()).unwrap();
                expressions.push(resolved::Expression::VariableAccess(binding));
            }
            other => panic!("only a variable was expected: {:?}", other),
        }
    }
    assert_eq!(expressions, vec![resolved::Expression::VariableAccess(0)]);

    let block = resolved::Block::new(expressions);
    assert!(block.is_closed_in(env.len()));
    let mut vars = UnifyTable::new();
    let annotated = Block::from(block, &mut vars, &env);
    let declared = InferType::Resolved(function.ret.synthetic("return type"));
    let constraints = annotated.constraints().and(Constraint(annotated.ty, declared));
    assert_eq!(vars.solve(&constraints), Ok(()));
    let variable = match annotated.ty {
        InferType::Variable(variable) => variable,
        InferType::Resolved(_) => panic!("a block has a variable for its type"),
    };
    assert_eq!(vars.resolve(variable).map(|ty| ty.node), Some(Type::I32));
    assert!(vars.finalize().is_ok());
}

#[test]
fn body_of_another_type_than_declared_is_a_mismatch() {
    let module = parse("export def id(x: i32) -> i64 { x }").unwrap();
    let function = &module.funcs[0];
    let mut env = TypeEnv::new();
    env.bind(InferType::Resolved(function.args.list[0].ty.at(17, 20)));
    let block = resolved::Block::new(vec![resolved::Expression::VariableAccess(0)]);
    let mut vars = UnifyTable::new();
    let annotated = Block::from(block, &mut vars, &env);
    let declared = InferType::Resolved(function.ret.at(25, 28));
    let constraints = annotated.constraints().and(Constraint(annotated.ty, declared));
    assert!(vars.solve(&constraints).is_err());
}

fn identity_body() -> resolved::Block {
    resolved::Block::new(vec![resolved::Expression::VariableAccess(0)])
}

#[test]
fn inference_pass_gives_the_body_its_declared_type() {
    let mut env = TypeEnv::new();
    env.bind(InferType::Resolved(Type::I32.at(17, 20)));
    let mut vars = UnifyTable::new();
    let block = identity_body();
    assert!(block.is_closed_in(env.len()) && env.known_in(&vars));
    let annotated = infer_body(block, &mut vars, &env, Type::I32.at(25, 28)).unwrap();
    assert_eq!(annotated.ty, InferType::Variable(0));
    assert_eq!(vars.resolve(0).map(|ty| ty.node), Some(Type::I32));
    assert_eq!(vars.finalize().map(|types| types.len()), Ok(1));
}

#[test]
fn inference_pass_reports_a_body_of_another_type() {
    let mut env = TypeEnv::new();
    let parameter = Type::I32.at(17, 20);
    env.bind(InferType::Resolved(parameter));
    let mut vars = UnifyTable::new();
    let declared = Type::Bool.at(25, 29);
    let result = infer_body(identity_body(), &mut vars, &env, declared);
    assert_eq!(result, Err(TypeError::Mismatch { left: parameter, right: declared }));
    assert_eq!(vars.len(), 1);
    assert_eq!(vars.resolve(0), None);
}

#[test]
fn inference_pass_of_an_empty_body_wants_void() {
    let env = TypeEnv::new();
    let mut vars = UnifyTable::new();
    let body = resolved::Block::new(vec![]);
    assert!(infer_body(body, &mut vars, &env, Type::Void.synthetic("no return type")).is_ok());
    assert_eq!(vars.resolve(0).map(|ty| ty.node), Some(Type::Void));
    let mut vars = UnifyTable::new();
    let body = resolved::Block::new(vec![]);
    let declared = Type::I32.at(0, 3);
    assert_eq!(
        infer_body(body, &mut vars, &env, declared),
        Err(TypeError::Mismatch { left: Type::Void.synthetic("void"), right: declared })
    );
}

#[test]
fn bindings_of_another_table_are_not_known() {
    let mut env = TypeEnv::new();
    env.bind(InferType::Variable(0));
    let mut vars = UnifyTable::new();
    assert!(!env.known_in(&vars));
    vars.fresh();
    assert!(env.known_in(&vars));
    env.bind(InferType::Variable(4));
    assert!(!env.known_in(&vars));
}

#[test]
fn variable_typed_by_its_use_is_inferred_from_the_return_type() {
    let mut vars = UnifyTable::new();
    let x = vars.fresh();
    let mut env = TypeEnv::new();
    env.bind(InferType::Variable(x));
    assert!(env.known_in(&vars));
    let body = resolved::Block::new(vec![
        resolved::Expression::Const(argon::shared::ConstExpression::I32(1)),
        resolved::Expression::VariableAccess(0),
    ]);
    let declared = Type::I64.at(30, 33);
    let annotated = infer_body(body, &mut vars, &env, declared).unwrap();
    assert_eq!(annotated.ty, InferType::Variable(2));
    assert_eq!(vars.resolve(2), Some(declared));
    assert_eq!(vars.resolve(x), Some(declared));
    assert_eq!(vars.resolve(1).map(|ty| ty.node), Some(Type::I32));
}

#[test]
fn whole_pass_over_the_parsed_identity_function() {
    let module = parse("export def id(x: i32) -> i32 { x }").unwrap();
    let function = &module.funcs[0];
    let parameters: Vec<_> = function
        .args
        .list
        .iter()
        .map(|parameter| match parameter.name.span {
            Span::Bytes { start, end } => parameter.ty.at(start, end),
            Span::Synthetic(label) => parameter.ty.synthetic(label),
        })
        .collect();
    let body = identity_body();
    assert!(body.is_closed_in(parameters.len()));
    let (annotated, types) =
        infer_function(&parameters, function.ret.synthetic("return type"), body).unwrap();
    assert_eq!(annotated.ty, InferType::Variable(0));
    assert_eq!(annotated.item.last_ty(), InferType::Resolved(Type::I32.at(14, 15)));
    assert_eq!(types, vec![Type::I32.at(14, 15)]);
}

#[test]
fn whole_pass_gives_every_variable_its_type() {
    let parameters = vec![Type::U64.at(6, 7), Type::U64.at(14, 15)];
    let body = resolved::Block::new(vec![resolved::Expression::Binary(
        argon::shared::MathOperator::Mul,
        Box::new(resolved::BinaryExpression {
            lhs: resolved::Expression::VariableAccess(0),
            rhs: resolved::Expression::Binary(
                argon::shared::MathOperator::Add,
                Box::new(resolved::BinaryExpression {
                    lhs: resolved::Expression::VariableAccess(1),
                    rhs: resolved::Expression::Const(argon::shared::ConstExpression::U64(3)),
                }),
            ),
        }),
    )]);
    let (annotated, types) = infer_function(&parameters, Type::U64.at(20, 23), body).unwrap();
    assert_eq!(annotated.ty, InferType::Variable(3));
    assert_eq!(types.len(), 4);
    assert!(types.iter().all(|ty| ty.node == Type::U64));
}

#[test]
fn whole_pass_reports_the_first_mismatch() {
    let parameters = vec![Type::I32.at(6, 7)];
    let body = resolved::Block::new(vec![resolved::Expression::Binary(
        argon::shared::MathOperator::Add,
        Box::new(resolved::BinaryExpression {
            lhs: resolved::Expression::VariableAccess(0),
            rhs: resolved::Expression::Const(argon::shared::ConstExpression::I64(1)),
        }),
    )]);
    let result = infer_function(&parameters, Type::I32.at(20, 23), body);
    assert_eq!(
        result,
        Err(TypeError::Mismatch {
            left: Type::I32.at(6, 7),
            right: Type::I64.synthetic("constant")
        })
    );
    let empty = resolved::Block::new(vec![]);
    assert!(infer_function(&vec![], Type::Void.synthetic("none"), empty).is_ok());
}
