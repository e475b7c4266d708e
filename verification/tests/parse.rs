use argon::ast::{
    ident, function_mappings, BinaryExpression, Block, ConstExpression, Expression, Function,
    Module, Parameter, Parameters, RawIdentifier,
};
use argon::lexer::{lex, Token, TokenKind};
use argon::parser::{location, parse, place, ErrorLocation, ParseError};
use argon::pos::{Span, Spanned};
use argon::shared::{CompileError, MathOperator, Type};

fn name(text: &str, start: usize) -> Spanned<RawIdentifier> {
    Spanned::new(ident(text), Span::Bytes { start, end: start + text.len() })
}

fn variable(text: &str, start: usize) -> Expression {
    Expression::VariableAccess(name(text, start))
}

fn binary(operator: MathOperator, lhs: Expression, rhs: Expression) -> Expression {
    Expression::Binary(operator, Box::new(BinaryExpression::new(lhs, rhs)))
}

fn body_of(source: &str) -> Vec<Expression> {
    let module = parse(source).unwrap();
    assert_eq!(module.funcs.len(), 1);
    module.funcs.into_iter().next().unwrap().body.expressions
}

#[test]
fn lexer_splits_words_numbers_and_symbols() {
    let tokens = lex("def f(x: i32) -> i32 { x - 12 }");
    let kinds: Vec<TokenKind> = tokens.iter().map(|token| token.kind).collect();
    assert_eq!(
        kinds,
        vec![
            TokenKind::Def,
            TokenKind::Ident,
            TokenKind::LParen,
            TokenKind::Ident,
            TokenKind::Colon,
            TokenKind::Ident,
            TokenKind::RParen,
            TokenKind::Arrow,
            TokenKind::Ident,
            TokenKind::LBrace,
            TokenKind::Ident,
            TokenKind::Minus,
            TokenKind::Integer,
            TokenKind::RBrace,
            TokenKind::End,
        ]
    );
    assert_eq!(tokens[0], Token { kind: TokenKind::Def, start: 0, end: 3 });
    assert_eq!(tokens[7], Token { kind: TokenKind::Arrow, start: 14, end: 16 });
    assert_eq!(tokens[12], Token { kind: TokenKind::Integer, start: 27, end: 29 });
    assert_eq!(tokens[14], Token { kind: TokenKind::End, start: 31, end: 31 });
}

#[test]
fn lexer_tells_keywords_from_identifiers() {
    let tokens = lex("export exported def define true truer false _x9");
    let kinds: Vec<TokenKind> = tokens.iter().map(|token| token.kind).collect();
    assert_eq!(
        kinds,
        vec![
            TokenKind::Export,
            TokenKind::Ident,
            TokenKind::Def,
            TokenKind::Ident,
            TokenKind::True,
            TokenKind::Ident,
            TokenKind::False,
            TokenKind::Ident,
            TokenKind::End,
        ]
    );
}

#[test]
fn lexer_stops_at_the_first_invalid_byte() {
    let tokens = lex("a + # b");
    assert_eq!(
        tokens,
        vec![
            Token { kind: TokenKind::Ident, start: 0, end: 1 },
            Token { kind: TokenKind::Plus, start: 2, end: 3 },
            Token { kind: TokenKind::Invalid, start: 4, end: 5 },
        ]
    );
    assert_eq!(lex(""), vec![Token { kind: TokenKind::End, start: 0, end: 0 }]);
    assert_eq!(lex(" \t\r\n"), vec![Token { kind: TokenKind::End, start: 4, end: 4 }]);
    assert_eq!(
        lex("*/,"),
        vec![
            Token { kind: TokenKind::Star, start: 0, end: 1 },
            Token { kind: TokenKind::Slash, start: 1, end: 2 },
            Token { kind: TokenKind::Comma, start: 2, end: 3 },
            Token { kind: TokenKind::End, start: 3, end: 3 },
        ]
    );
}

#[test]
fn identity_function_parses_to_one_exported_function() {
    let module = parse("export def id(x: i32) -> i32 { x }").unwrap();
    let expected = Module::new(vec![Function::new(
        name("id", 11),
        Parameters::new(vec![Parameter::new(name("x", 14), Type::I32)]),
        Type::I32,
        Block::new(vec![variable("x", 31)]),
    )
    .exported()]);
    assert_eq!(module, expected);
    assert_eq!(module.funcs.len(), 1);
    assert!(module.funcs[0].modifiers.export);
    assert_eq!(module.funcs[0].name.node.name, "id");
}

#[test]
fn function_without_return_type_returns_void() {
    let module = parse("export def noop () {}").unwrap();
    let expected = Module::new(vec![Function::new(
        name("noop", 11),
        Parameters::empty(),
        Type::Void,
        Block::new(vec![]),
    )
    .exported()]);
    assert_eq!(module, expected);
}

#[test]
fn function_without_export_is_not_exported() {
    let module = parse("def f() -> bool { true }").unwrap();
    assert_eq!(module.funcs.len(), 1);
    assert!(!module.funcs[0].modifiers.export);
    assert_eq!(module.funcs[0].ret, Type::Bool);
    assert_eq!(
        module.funcs[0].body.expressions,
        vec![Expression::Const(ConstExpression::Bool(true))]
    );
}

#[test]
fn empty_text_is_an_empty_module() {
    assert_eq!(parse(""), Ok(Module::new(vec![])));
    assert_eq!(parse("  \n "), Ok(Module::new(vec![])));
}

#[test]
fn several_functions_parse_in_order() {
    let module = parse("def a() {} export def b(p: u64, q: f64) -> f32 { p q }").unwrap();
    assert_eq!(module.funcs.len(), 2);
    assert_eq!(module.funcs[0].name.node.name, "a");
    assert_eq!(module.funcs[1].name.node.name, "b");
    assert_eq!(
        module.funcs[1].args,
        Parameters::new(vec![
            Parameter::new(name("p", 24), Type::U64),
            Parameter::new(name("q", 32), Type::F64),
        ])
    );
    assert_eq!(module.funcs[1].ret, Type::F32);
    assert_eq!(module.funcs[1].body.expressions, vec![variable("p", 49), variable("q", 51)]);
}

#[test]
fn every_type_name_is_known() {
    let module =
        parse("def f(a: bool, b: i32, c: i64, d: u32, e: u64, f: f32, g: f64) {}").unwrap();
    let types: Vec<Type> = module.funcs[0].args.list.iter().map(|p| p.ty).collect();
    assert_eq!(
        types,
        vec![Type::Bool, Type::I32, Type::I64, Type::U32, Type::U64, Type::F32, Type::F64]
    );
}

#[test]
fn addition_parses_to_a_binary_expression() {
    assert_eq!(
        body_of("export def plus(x: i32, y: i32) -> i32 { x + y }"),
        vec![binary(MathOperator::Add, variable("x", 41), variable("y", 45))]
    );
}

#[test]
fn integer_literal_parses_to_a_constant() {
    assert_eq!(
        body_of("export def plus(x: i32) -> i32 { x + 1 }"),
        vec![binary(
            MathOperator::Add,
            variable("x", 33),
            Expression::Const(ConstExpression::Integer(1))
        )]
    );
    assert_eq!(
        body_of("def f() { 9223372036854775807 }"),
        vec![Expression::Const(ConstExpression::Integer(i64::MAX))]
    );
    assert_eq!(body_of("def f() { 007 }"), vec![Expression::Const(ConstExpression::Integer(7))]);
}

#[test]
fn operators_of_one_level_associate_to_the_left() {
    assert_eq!(
        body_of("def f() { a - b + c }"),
        vec![binary(
            MathOperator::Add,
            binary(MathOperator::Sub, variable("a", 10), variable("b", 14)),
            variable("c", 18)
        )]
    );
    assert_eq!(
        body_of("def f() { a / b * c }"),
        vec![binary(
            MathOperator::Mul,
            binary(MathOperator::Div, variable("a", 10), variable("b", 14)),
            variable("c", 18)
        )]
    );
}

#[test]
fn multiplication_binds_tighter_than_addition() {
    assert_eq!(
        body_of("def f() { a + b * c - d }"),
        vec![binary(
            MathOperator::Sub,
            binary(
                MathOperator::Add,
                variable("a", 10),
                binary(MathOperator::Mul, variable("b", 14), variable("c", 18))
            ),
            variable("d", 22)
        )]
    );
}

#[test]
fn missing_type_is_an_error_at_the_closing_parenthesis() {
    let error = parse("export def plus(x: i32, y) -> i32 { x + y }").unwrap_err();
    assert_eq!(
        error,
        ParseError::UnrecognizedToken { token: Some((25, TokenKind::RParen, 26)) }
    );
    assert_eq!(location(error), ErrorLocation::Byte(25));
}

#[test]
fn text_that_ends_early_is_an_error_at_the_end() {
    let error = parse("export def f(x: i32) -> i32 { x +").unwrap_err();
    assert_eq!(error, ParseError::UnrecognizedToken { token: None });
    assert_eq!(location(error), ErrorLocation::EOF);
    assert_eq!(location(parse("def").unwrap_err()), ErrorLocation::EOF);
    assert_eq!(location(parse("def f(").unwrap_err()), ErrorLocation::EOF);
    assert_eq!(location(parse("def f() {").unwrap_err()), ErrorLocation::EOF);
}

#[test]
fn invalid_byte_is_an_error_where_it_stands() {
    let error = parse("def f() { x ? }").unwrap_err();
    assert_eq!(error, ParseError::InvalidToken { location: 12 });
    assert_eq!(location(error), ErrorLocation::Byte(12));
    let error = parse("def f() { é }").unwrap_err();
    assert_eq!(error, ParseError::InvalidToken { location: 10 });
}

#[test]
fn earlier_syntax_error_comes_before_a_later_invalid_byte() {
    let error = parse("def f( { ? }").unwrap_err();
    assert_eq!(error, ParseError::UnrecognizedToken { token: Some((7, TokenKind::LBrace, 8)) });
}

#[test]
fn unknown_type_name_is_an_error_at_the_name() {
    let error = parse("def f(x: int) {}").unwrap_err();
    assert_eq!(error, ParseError::UnrecognizedToken { token: Some((9, TokenKind::Ident, 12)) });
    assert_eq!(location(error), ErrorLocation::Byte(9));
}

#[test]
fn token_outside_a_function_is_an_error() {
    let error = parse("def f() {} }").unwrap_err();
    assert_eq!(location(error), ErrorLocation::Byte(11));
    let error = parse("export export def f() {}").unwrap_err();
    assert_eq!(location(error), ErrorLocation::Byte(7));
    let error = parse("def f(x: i32,) {}").unwrap_err();
    assert_eq!(location(error), ErrorLocation::Byte(13));
    let error = parse("def f() { + }").unwrap_err();
    assert_eq!(location(error), ErrorLocation::Byte(10));
}

#[test]
fn integer_literal_that_does_not_fit_is_reported() {
    let error = parse("def f() { 9223372036854775808 }").unwrap_err();
    assert_eq!(
        error,
        ParseError::User { error: CompileError::LiteralOutOfRange { start: 10, end: 29 } }
    );
    let error = parse("def f() { 99999999999999999999999999 }").unwrap_err();
    assert_eq!(
        error,
        ParseError::User { error: CompileError::LiteralOutOfRange { start: 10, end: 36 } }
    );
}

#[test]
fn location_of_each_kind_of_error() {
    assert_eq!(location(ParseError::InvalidToken { location: 4 }), ErrorLocation::Byte(4));
    assert_eq!(location(ParseError::UnrecognizedToken { token: None }), ErrorLocation::EOF);
    assert_eq!(
        location(ParseError::UnrecognizedToken { token: Some((8, TokenKind::Comma, 9)) }),
        ErrorLocation::Byte(8)
    );
    assert_eq!(
        location(ParseError::ExtraToken { token: (17, TokenKind::Def, 20) }),
        ErrorLocation::Byte(17)
    );
    assert_eq!(place(ParseError::InvalidToken { location: 4 }), Some(ErrorLocation::Byte(4)));
    assert_eq!(place(ParseError::UnrecognizedToken { token: None }), Some(ErrorLocation::EOF));
    let overflow = CompileError::LiteralOutOfRange { start: 1, end: 30 };
    assert_eq!(place(ParseError::User { error: overflow }), None);
    let mismatch = argon::shared::TypeError::Ambiguous { variable: 2 };
    assert_eq!(place(ParseError::User { error: CompileError::Type(mismatch) }), None);
}

#[test]
fn identifiers_and_parameters_are_built_by_hand() {
    assert_eq!(ident("x"), RawIdentifier::new(String::from("x")));
    assert_eq!(ident("x").name, "x");
    let x = name("x", 0);
    assert_eq!(x.as_ref(), Spanned::new("x", Span::Bytes { start: 0, end: 1 }));
    assert_eq!(x.duplicate(), x);
    let first = Parameter::new(name("a", 0), Type::I32);
    let second = Parameter::new(name("b", 8), Type::F64);
    let parameters = Parameters::from_parser(first.clone(), vec![second.clone()]);
    assert_eq!(parameters, Parameters::new(vec![first, second]));
    assert_eq!(Parameters::empty().list.len(), 0);
    assert_eq!(Parameters::from_parser(name_only("z"), vec![]).list.len(), 1);
    let items = parameters.iter();
    assert_eq!(items.len(), 2);
    assert_eq!(items[0], (Spanned::new("a", Span::Bytes { start: 0, end: 1 }), &Type::I32));
    assert_eq!(items[1], (Spanned::new("b", Span::Bytes { start: 8, end: 9 }), &Type::F64));
}

fn name_only(text: &str) -> Parameter {
    Parameter::new(name(text, 0), Type::Bool)
}

#[test]
fn parameters_are_mapped_to_their_index() {
    let parameters = Parameters::new(vec![name_only("a"), name_only("b"), name_only("c")]);
    let map = function_mappings(&parameters);
    assert_eq!(map.len(), 3);
    assert_eq!(map.get("a"), Some(&0));
    assert_eq!(map.get("b"), Some(&1));
    assert_eq!(map.get("c"), Some(&2));
    assert_eq!(map.get("d"), None);
    assert!(function_mappings(&Parameters::empty()).is_empty());
}

#[test]
fn a_repeated_parameter_name_keeps_its_last_index() {
    let parameters = Parameters::new(vec![name_only("a"), name_only("b"), name_only("a")]);
    let map = function_mappings(&parameters);
    assert_eq!(map.len(), 2);
    assert_eq!(map.get("a"), Some(&2));
    assert_eq!(map.get("b"), Some(&1));
}

#[test]
fn new_function_is_not_exported_until_asked() {
    let function = Function::new(
        name("f", 4),
        Parameters::new(vec![name_only("p")]),
        Type::I64,
        Block::new(vec![Expression::Const(ConstExpression::Float(1.5f64.into()))]),
    );
    assert!(!function.modifiers.export);
    assert_eq!(function.mappings().get("p"), Some(&0));
    let copy = function.clone();
    let exported = function.exported();
    assert!(exported.modifiers.export);
    assert_eq!(exported.name, copy.name);
    assert_eq!(exported.args, copy.args);
    assert_eq!(exported.ret, copy.ret);
    assert_eq!(exported.body, copy.body);
    assert_eq!(exported.body.expressions[0].duplicate(), exported.body.expressions[0]);
}
