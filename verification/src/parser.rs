//! The parser: from source text to a syntax tree.
//!
//! ```text
//! module     = { function }
//! function   = [ "export" ] "def" name "(" [ parameter { "," parameter } ] ")"
//!              [ "->" type ] "{" { expression } "}"
//! parameter  = name ":" type
//! type       = "bool" | "i32" | "i64" | "u32" | "u64" | "f32" | "f64"
//! expression = term { ( "+" | "-" ) term }
//! term       = primary { ( "*" | "/" ) primary }
//! primary    = name | integer | "true" | "false"
//! ```
//!
//! Operators of one level associate to the left. A function without a
//! return type returns void.

use vstd::prelude::*;
use vstd::string::StringSliceAdditionalSpecFns;
use crate::ast::{
    expression_views, function_views, parameter_views, BinaryExpression, Block, ConstExpression,
    Expression, ExpressionView, Function, FunctionView, Identifier, IdentifierView, Module,
    ModuleView, Parameter, ParameterView, Parameters, RawIdentifier,
};
use crate::lexer::{lex, lex_spec, spells, well_formed, word_is, Token, TokenKind};
use crate::pos::{Span, Spanned};
use crate::shared::{CompileError, FunctionModifiers, MathOperator, Type};

verus! {

/// Where in the source text a parse error lies.
#[derive(Clone, Copy, Debug, PartialEq, Eq)]
pub enum ErrorLocation {
    /// At the end of the text.
    EOF,
    /// At this byte of the text.
    Byte(usize),
}

/// Why a text is no module. A token is given as its first byte, its kind
/// and the byte after its last.
#[allow(inconsistent_fields)]
#[derive(Clone, Copy, Debug, PartialEq, Eq)]
pub enum ParseError {
    /// The byte at `location` starts no token.
    InvalidToken { location: usize },
    /// A token that cannot stand where it stands, or, with `None`, the end
    /// of the text where more was expected.
    UnrecognizedToken { token: Option<(usize, TokenKind, usize)> },
    /// A token after the end of the module.
    ExtraToken { token: (usize, TokenKind, usize) },
    /// An error that is not one of syntax.
    User { error: CompileError },
}

/// The place of `error` in the text: the first byte of the offending
/// token, or the end of the text. An error that is not one of syntax has
/// no place.
pub open spec fn location_spec(error: ParseError) -> Option<ErrorLocation> {
    match error {
        ParseError::InvalidToken { location } => Some(ErrorLocation::Byte(location)),
        ParseError::UnrecognizedToken { token: None } => Some(ErrorLocation::EOF),
        ParseError::UnrecognizedToken { token: Some((location, _, _)) } => Some(
            ErrorLocation::Byte(location),
        ),
        ParseError::ExtraToken { token: (location, _, _) } => Some(ErrorLocation::Byte(location)),
        ParseError::User { .. } => None,
    }
}

/// The place of `error` in the text, if it is an error of syntax.
pub fn place(error: ParseError) -> (place: Option<ErrorLocation>)
    ensures
        place == location_spec(error),
{
    match error {
        ParseError::InvalidToken { location } => Some(ErrorLocation::Byte(location)),
        ParseError::UnrecognizedToken { token: None } => Some(ErrorLocation::EOF),
        ParseError::UnrecognizedToken { token: Some((location, _, _)) } => Some(
            ErrorLocation::Byte(location),
        ),
        ParseError::ExtraToken { token: (location, _, _) } => Some(ErrorLocation::Byte(location)),
        ParseError::User { .. } => None,
    }
}

/// The place of a syntax error: the first byte of the offending token, or
/// the end of the text.
pub fn location(error: ParseError) -> (place: ErrorLocation)
    requires
        !(error is User),
    ensures
        Some(place) == location_spec(error),
{
    match error {
        ParseError::InvalidToken { location } => ErrorLocation::Byte(location),
        ParseError::UnrecognizedToken { token: None } => ErrorLocation::EOF,
        ParseError::UnrecognizedToken { token: Some((location, _, _)) } => ErrorLocation::Byte(
            location,
        ),
        ParseError::ExtraToken { token: (location, _, _) } => ErrorLocation::Byte(location),
        ParseError::User { .. } => ErrorLocation::EOF,
    }
}

/// The error for a token that cannot stand where it stands.
pub open spec fn unexpected(token: Token) -> ParseError {
    match token.kind {
        TokenKind::Invalid => ParseError::InvalidToken { location: token.start },
        TokenKind::End => ParseError::UnrecognizedToken { token: None },
        _ => ParseError::UnrecognizedToken { token: Some((token.start, token.kind, token.end)) },
    }
}

fn reject(token: Token) -> (error: ParseError)
    ensures
        error == unexpected(token),
        !(error is User),
{
    match token.kind {
        TokenKind::Invalid => ParseError::InvalidToken { location: token.start },
        TokenKind::End => ParseError::UnrecognizedToken { token: None },
        _ => ParseError::UnrecognizedToken { token: Some((token.start, token.kind, token.end)) },
    }
}

/// The characters that the bytes `start..end`, all below 128, encode.
pub open spec fn text_of(bytes: Seq<u8>, start: int, end: int) -> Seq<char> {
    Seq::new((end - start) as nat, |i: int| bytes[start + i] as char)
}

/// `String::push` of std, for which no contract is at hand: the string
/// afterwards is the string before with `character` at its end.
#[verifier::external_body]
fn push_char(text: &mut String, character: char)
    ensures
        final(text)@ == old(text)@.push(character),
{
    text.push(character)
}

fn read_text(bytes: &[u8], start: usize, end: usize) -> (text: String)
    requires
        start <= end <= bytes@.len(),
    ensures
        text@ == text_of(bytes@, start as int, end as int),
{
    let mut text = String::new();
    let mut index = start;
    while index < end
        invariant
            start <= index <= end <= bytes@.len(),
            text@ == text_of(bytes@, start as int, index as int),
        decreases end - index,
    {
        push_char(&mut text, bytes[index] as char);
        assert(text@ =~= text_of(bytes@, start as int, index + 1));
        index = index + 1;
    }
    text
}

/// The identifier that `token` spells.
pub open spec fn identifier_at(bytes: Seq<u8>, token: Token) -> IdentifierView {
    IdentifierView {
        name: text_of(bytes, token.start as int, token.end as int),
        span: Span::Bytes { start: token.start, end: token.end },
    }
}

fn read_identifier(bytes: &[u8], token: Token) -> (name: Identifier)
    requires
        token.start <= token.end <= bytes@.len(),
    ensures
        name@ == identifier_at(bytes@, token),
{
    Spanned {
        node: RawIdentifier { name: read_text(bytes, token.start, token.end) },
        span: Span::Bytes { start: token.start, end: token.end },
    }
}

/// The type that the word at `start..end` names, if it names one.
pub open spec fn type_named(bytes: Seq<u8>, start: int, end: int) -> Option<Type> {
    if spells(bytes, start, end, "bool") {
        Some(Type::Bool)
    } else if spells(bytes, start, end, "i32") {
        Some(Type::I32)
    } else if spells(bytes, start, end, "i64") {
        Some(Type::I64)
    } else if spells(bytes, start, end, "u32") {
        Some(Type::U32)
    } else if spells(bytes, start, end, "u64") {
        Some(Type::U64)
    } else if spells(bytes, start, end, "f32") {
        Some(Type::F32)
    } else if spells(bytes, start, end, "f64") {
        Some(Type::F64)
    } else {
        None
    }
}

/// The number that the decimal digits at `start..end` spell.
pub open spec fn digits_value(bytes: Seq<u8>, start: int, end: int) -> int
    decreases end - start,
{
    if end <= start {
        0
    } else {
        digits_value(bytes, start, end - 1) * 10 + (bytes[end - 1] - 48)
    }
}

pub open spec fn all_digits(bytes: Seq<u8>, start: int, end: int) -> bool {
    forall|i: int| start <= i < end ==> crate::lexer::is_digit(#[trigger] bytes[i])
}

/// The value of the integer literal at `start..end`, if it is one that
/// fits the widest integer type.
pub open spec fn integer_at(bytes: Seq<u8>, start: int, end: int) -> Option<i64> {
    if all_digits(bytes, start, end) && digits_value(bytes, start, end) <= i64::MAX {
        Some(digits_value(bytes, start, end) as i64)
    } else {
        None
    }
}

proof fn lemma_digits_grow(bytes: Seq<u8>, start: int, middle: int, end: int)
    requires
        start <= middle <= end,
        all_digits(bytes, start, end),
    ensures
        0 <= digits_value(bytes, start, middle) <= digits_value(bytes, start, end),
    decreases end - start,
{
    if middle < end {
        lemma_digits_grow(bytes, start, middle, end - 1);
        assert(crate::lexer::is_digit(bytes[end - 1]));
    } else if start < middle {
        lemma_digits_grow(bytes, start, middle - 1, end - 1);
        assert(crate::lexer::is_digit(bytes[end - 1]));
    }
}

fn read_integer(bytes: &[u8], start: usize, end: usize) -> (value: Option<i64>)
    requires
        start <= end <= bytes@.len(),
    ensures
        value == integer_at(bytes@, start as int, end as int),
{
    let mut value: i64 = 0;
    let mut index = start;
    while index < end
        invariant
            start <= index <= end <= bytes@.len(),
            all_digits(bytes@, start as int, index as int),
            value == digits_value(bytes@, start as int, index as int),
            0 <= value,
        decreases end - index,
    {
        let byte = bytes[index];
        if !(48 <= byte && byte <= 57) {
            return None;
        }
        let digit = (byte - 48) as i64;
        if value > (i64::MAX - digit) / 10 {
            proof {
                if all_digits(bytes@, start as int, end as int) {
                    lemma_digits_grow(bytes@, start as int, index + 1, end as int);
                }
            }
            return None;
        }
        value = value * 10 + digit;
        index = index + 1;
    }
    Some(value)
}

/// The operator of a token that joins the primaries of a term.
pub open spec fn factor_operator(kind: TokenKind) -> Option<MathOperator> {
    match kind {
        TokenKind::Star => Some(MathOperator::Mul),
        TokenKind::Slash => Some(MathOperator::Div),
        _ => None,
    }
}

/// The operator of a token that joins the terms of an expression.
pub open spec fn term_operator(kind: TokenKind) -> Option<MathOperator> {
    match kind {
        TokenKind::Plus => Some(MathOperator::Add),
        TokenKind::Minus => Some(MathOperator::Sub),
        _ => None,
    }
}

/// The binary expression of `operator` with the operands `lhs` and `rhs`.
pub open spec fn binary(operator: MathOperator, lhs: ExpressionView, rhs: ExpressionView)
    -> ExpressionView {
    ExpressionView::Binary(operator, Box::new(lhs), Box::new(rhs))
}

/// A result with `front` put before what was parsed.
pub open spec fn prepend<T>(front: Seq<T>, parsed: Result<(Seq<T>, int), ParseError>) -> Result<
    (Seq<T>, int),
    ParseError,
> {
    match parsed {
        Ok((rest, next)) => Ok((front + rest, next)),
        Err(error) => Err(error),
    }
}

/// The primary at token `pos`, and the position after it.
pub open spec fn parse_primary(tokens: Seq<Token>, bytes: Seq<u8>, pos: int) -> Result<
    (ExpressionView, int),
    ParseError,
> {
    let token = tokens[pos];
    match token.kind {
        TokenKind::Ident => Ok(
            (ExpressionView::VariableAccess(identifier_at(bytes, token)), pos + 1),
        ),
        TokenKind::Integer => match integer_at(bytes, token.start as int, token.end as int) {
            Some(value) => Ok(
                (ExpressionView::Const(ConstExpression::Integer(value)), pos + 1),
            ),
            None => Err(
                ParseError::User {
                    error: CompileError::LiteralOutOfRange { start: token.start, end: token.end },
                },
            ),
        },
        TokenKind::True => Ok((ExpressionView::Const(ConstExpression::Bool(true)), pos + 1)),
        TokenKind::False => Ok((ExpressionView::Const(ConstExpression::Bool(false)), pos + 1)),
        _ => Err(unexpected(token)),
    }
}

/// The term that begins with `lhs` and goes on at token `pos`.
pub open spec fn parse_term_rest(
    tokens: Seq<Token>,
    bytes: Seq<u8>,
    lhs: ExpressionView,
    pos: int,
) -> Result<(ExpressionView, int), ParseError>
    decreases tokens.len() - pos,
{
    match factor_operator(tokens[pos].kind) {
        None => Ok((lhs, pos)),
        Some(operator) => match parse_primary(tokens, bytes, pos + 1) {
            Err(error) => Err(error),
            Ok((rhs, next)) => if pos < next <= tokens.len() {
                parse_term_rest(tokens, bytes, binary(operator, lhs, rhs), next)
            } else {
                Ok((lhs, pos))
            },
        },
    }
}

/// The term at token `pos`, and the position after it.
pub open spec fn parse_term(tokens: Seq<Token>, bytes: Seq<u8>, pos: int) -> Result<
    (ExpressionView, int),
    ParseError,
> {
    match parse_primary(tokens, bytes, pos) {
        Err(error) => Err(error),
        Ok((lhs, next)) => parse_term_rest(tokens, bytes, lhs, next),
    }
}

/// The expression that begins with `lhs` and goes on at token `pos`.
pub open spec fn parse_expression_rest(
    tokens: Seq<Token>,
    bytes: Seq<u8>,
    lhs: ExpressionView,
    pos: int,
) -> Result<(ExpressionView, int), ParseError>
    decreases tokens.len() - pos,
{
    match term_operator(tokens[pos].kind) {
        None => Ok((lhs, pos)),
        Some(operator) => match parse_term(tokens, bytes, pos + 1) {
            Err(error) => Err(error),
            Ok((rhs, next)) => if pos < next <= tokens.len() {
                parse_expression_rest(tokens, bytes, binary(operator, lhs, rhs), next)
            } else {
                Ok((lhs, pos))
            },
        },
    }
}

/// The expression at token `pos`, and the position after it.
pub open spec fn parse_expression(tokens: Seq<Token>, bytes: Seq<u8>, pos: int) -> Result<
    (ExpressionView, int),
    ParseError,
> {
    match parse_term(tokens, bytes, pos) {
        Err(error) => Err(error),
        Ok((lhs, next)) => parse_expression_rest(tokens, bytes, lhs, next),
    }
}

/// The expressions from token `pos` to the closing brace, and the
/// position after that brace.
pub open spec fn parse_expressions(tokens: Seq<Token>, bytes: Seq<u8>, pos: int) -> Result<
    (Seq<ExpressionView>, int),
    ParseError,
>
    decreases tokens.len() - pos,
{
    if tokens[pos].kind == TokenKind::RBrace {
        Ok((Seq::empty(), pos + 1))
    } else {
        match parse_expression(tokens, bytes, pos) {
            Err(error) => Err(error),
            Ok((expression, next)) => if pos < next <= tokens.len() {
                prepend(seq![expression], parse_expressions(tokens, bytes, next))
            } else {
                Err(unexpected(tokens[pos]))
            },
        }
    }
}

/// The type at token `pos`, and the position after it.
pub open spec fn parse_type(tokens: Seq<Token>, bytes: Seq<u8>, pos: int) -> Result<
    (Type, int),
    ParseError,
> {
    let token = tokens[pos];
    if token.kind == TokenKind::Ident {
        match type_named(bytes, token.start as int, token.end as int) {
            Some(ty) => Ok((ty, pos + 1)),
            None => Err(unexpected(token)),
        }
    } else {
        Err(unexpected(token))
    }
}

/// The parameter at token `pos`, and the position after it.
pub open spec fn parse_parameter(tokens: Seq<Token>, bytes: Seq<u8>, pos: int) -> Result<
    (ParameterView, int),
    ParseError,
> {
    if tokens[pos].kind != TokenKind::Ident {
        Err(unexpected(tokens[pos]))
    } else if tokens[pos + 1].kind != TokenKind::Colon {
        Err(unexpected(tokens[pos + 1]))
    } else {
        match parse_type(tokens, bytes, pos + 2) {
            Err(error) => Err(error),
            Ok((ty, next)) => Ok(
                (ParameterView { name: identifier_at(bytes, tokens[pos]), ty }, next),
            ),
        }
    }
}

/// The parameters after the first, from token `pos` to the closing
/// parenthesis, and the position after that parenthesis.
pub open spec fn parse_parameters_rest(tokens: Seq<Token>, bytes: Seq<u8>, pos: int) -> Result<
    (Seq<ParameterView>, int),
    ParseError,
>
    decreases tokens.len() - pos,
{
    match tokens[pos].kind {
        TokenKind::RParen => Ok((Seq::empty(), pos + 1)),
        TokenKind::Comma => match parse_parameter(tokens, bytes, pos + 1) {
            Err(error) => Err(error),
            Ok((parameter, next)) => if pos < next <= tokens.len() {
                prepend(seq![parameter], parse_parameters_rest(tokens, bytes, next))
            } else {
                Err(unexpected(tokens[pos]))
            },
        },
        _ => Err(unexpected(tokens[pos])),
    }
}

/// The parameters from token `pos`, which follows the opening
/// parenthesis, and the position after the closing one.
pub open spec fn parse_parameters(tokens: Seq<Token>, bytes: Seq<u8>, pos: int) -> Result<
    (Seq<ParameterView>, int),
    ParseError,
> {
    if tokens[pos].kind == TokenKind::RParen {
        Ok((Seq::empty(), pos + 1))
    } else {
        match parse_parameter(tokens, bytes, pos) {
            Err(error) => Err(error),
            Ok((parameter, next)) => prepend(
                seq![parameter],
                parse_parameters_rest(tokens, bytes, next),
            ),
        }
    }
}

/// The return type at token `pos`, void if none is written, and the
/// position after it.
pub open spec fn parse_return(tokens: Seq<Token>, bytes: Seq<u8>, pos: int) -> Result<
    (Type, int),
    ParseError,
> {
    if tokens[pos].kind == TokenKind::Arrow {
        parse_type(tokens, bytes, pos + 1)
    } else {
        Ok((Type::Void, pos))
    }
}

/// The function at token `pos`, and the position after it.
pub open spec fn parse_function(tokens: Seq<Token>, bytes: Seq<u8>, pos: int) -> Result<
    (FunctionView, int),
    ParseError,
> {
    let export = tokens[pos].kind == TokenKind::Export;
    let def = if export {
        pos + 1
    } else {
        pos
    };
    if tokens[def].kind != TokenKind::Def {
        Err(unexpected(tokens[def]))
    } else if tokens[def + 1].kind != TokenKind::Ident {
        Err(unexpected(tokens[def + 1]))
    } else if tokens[def + 2].kind != TokenKind::LParen {
        Err(unexpected(tokens[def + 2]))
    } else {
        match parse_parameters(tokens, bytes, def + 3) {
            Err(error) => Err(error),
            Ok((args, arrow)) => match parse_return(tokens, bytes, arrow) {
                Err(error) => Err(error),
                Ok((ret, brace)) => if tokens[brace].kind != TokenKind::LBrace {
                    Err(unexpected(tokens[brace]))
                } else {
                    match parse_expressions(tokens, bytes, brace + 1) {
                        Err(error) => Err(error),
                        Ok((body, next)) => Ok(
                            (
                                FunctionView {
                                    name: identifier_at(bytes, tokens[def + 1]),
                                    args,
                                    ret,
                                    body,
                                    export,
                                },
                                next,
                            ),
                        ),
                    }
                },
            },
        }
    }
}

/// The functions from token `pos` to the end of the text.
pub open spec fn parse_functions(tokens: Seq<Token>, bytes: Seq<u8>, pos: int) -> Result<
    Seq<FunctionView>,
    ParseError,
>
    decreases tokens.len() - pos,
{
    if tokens[pos].kind == TokenKind::End {
        Ok(Seq::empty())
    } else {
        match parse_function(tokens, bytes, pos) {
            Err(error) => Err(error),
            Ok((function, next)) => if pos < next <= tokens.len() {
                match parse_functions(tokens, bytes, next) {
                    Ok(rest) => Ok(seq![function] + rest),
                    Err(error) => Err(error),
                }
            } else {
                Err(unexpected(tokens[pos]))
            },
        }
    }
}

/// The module that the text `bytes` spells, or the first error in it.
pub open spec fn parse_spec(bytes: Seq<u8>) -> Result<ModuleView, ParseError> {
    match parse_functions(lex_spec(bytes), bytes, 0) {
        Ok(funcs) => Ok(ModuleView { funcs }),
        Err(error) => Err(error),
    }
}

/// Whether what was parsed is what the grammar says.
pub open spec fn expression_is(
    parsed: Result<(Expression, usize), ParseError>,
    meant: Result<(ExpressionView, int), ParseError>,
) -> bool {
    match parsed {
        Ok((expression, next)) => meant == Ok::<(ExpressionView, int), ParseError>(
            (expression@, next as int),
        ),
        Err(error) => meant == Err::<(ExpressionView, int), ParseError>(error),
    }
}

fn primary(tokens: &Vec<Token>, bytes: &[u8], pos: usize) -> (parsed: Result<
    (Expression, usize),
    ParseError,
>)
    requires
        well_formed(tokens@, bytes@.len() as int),
        pos < tokens@.len(),
    ensures
        expression_is(parsed, parse_primary(tokens@, bytes@, pos as int)),
        parsed matches Ok((_, next)) ==> next == pos + 1 && next < tokens@.len(),
{
    let token = tokens[pos];
    match token.kind {
        TokenKind::Ident => Ok((Expression::VariableAccess(read_identifier(bytes, token)), pos + 1)),
        TokenKind::Integer => match read_integer(bytes, token.start, token.end) {
            Some(value) => Ok((Expression::Const(ConstExpression::Integer(value)), pos + 1)),
            None => Err(
                ParseError::User {
                    error: CompileError::LiteralOutOfRange { start: token.start, end: token.end },
                },
            ),
        },
        TokenKind::True => Ok((Expression::Const(ConstExpression::Bool(true)), pos + 1)),
        TokenKind::False => Ok((Expression::Const(ConstExpression::Bool(false)), pos + 1)),
        _ => Err(reject(token)),
    }
}

fn join(operator: MathOperator, lhs: Expression, rhs: Expression) -> (joined: Expression)
    ensures
        joined@ == binary(operator, lhs@, rhs@),
{
    Expression::Binary(operator, Box::new(BinaryExpression { lhs, rhs }))
}

fn term(tokens: &Vec<Token>, bytes: &[u8], pos: usize) -> (parsed: Result<
    (Expression, usize),
    ParseError,
>)
    requires
        well_formed(tokens@, bytes@.len() as int),
        pos < tokens@.len(),
    ensures
        expression_is(parsed, parse_term(tokens@, bytes@, pos as int)),
        parsed matches Ok((_, next)) ==> pos < next < tokens@.len(),
{
    let (mut lhs, mut at) = match primary(tokens, bytes, pos) {
        Ok(first) => first,
        Err(error) => {
            return Err(error);
        },
    };
    loop
        invariant
            well_formed(tokens@, bytes@.len() as int),
            pos < at < tokens@.len(),
            parse_term_rest(tokens@, bytes@, lhs@, at as int) == parse_term(
                tokens@,
                bytes@,
                pos as int,
            ),
        decreases tokens@.len() - at,
    {
        let operator = match tokens[at].kind {
            TokenKind::Star => MathOperator::Mul,
            TokenKind::Slash => MathOperator::Div,
            _ => {
                return Ok((lhs, at));
            },
        };
        match primary(tokens, bytes, at + 1) {
            Err(error) => {
                return Err(error);
            },
            Ok((rhs, next)) => {
                lhs = join(operator, lhs, rhs);
                at = next;
            },
        }
    }
}

fn expression(tokens: &Vec<Token>, bytes: &[u8], pos: usize) -> (parsed: Result<
    (Expression, usize),
    ParseError,
>)
    requires
        well_formed(tokens@, bytes@.len() as int),
        pos < tokens@.len(),
    ensures
        expression_is(parsed, parse_expression(tokens@, bytes@, pos as int)),
        parsed matches Ok((_, next)) ==> pos < next < tokens@.len(),
{
    let (mut lhs, mut at) = match term(tokens, bytes, pos) {
        Ok(first) => first,
        Err(error) => {
            return Err(error);
        },
    };
    loop
        invariant
            well_formed(tokens@, bytes@.len() as int),
            pos < at < tokens@.len(),
            parse_expression_rest(tokens@, bytes@, lhs@, at as int) == parse_expression(
                tokens@,
                bytes@,
                pos as int,
            ),
        decreases tokens@.len() - at,
    {
        let operator = match tokens[at].kind {
            TokenKind::Plus => MathOperator::Add,
            TokenKind::Minus => MathOperator::Sub,
            _ => {
                return Ok((lhs, at));
            },
        };
        match term(tokens, bytes, at + 1) {
            Err(error) => {
                return Err(error);
            },
            Ok((rhs, next)) => {
                lhs = join(operator, lhs, rhs);
                at = next;
            },
        }
    }
}

fn expressions(tokens: &Vec<Token>, bytes: &[u8], pos: usize) -> (parsed: Result<
    (Vec<Expression>, usize),
    ParseError,
>)
    requires
        well_formed(tokens@, bytes@.len() as int),
        pos < tokens@.len(),
    ensures
        match parsed {
            Ok((list, next)) => parse_expressions(tokens@, bytes@, pos as int) == Ok::<
                (Seq<ExpressionView>, int),
                ParseError,
            >((expression_views(list@), next as int)) && pos < next < tokens@.len(),
            Err(error) => parse_expressions(tokens@, bytes@, pos as int) == Err::<
                (Seq<ExpressionView>, int),
                ParseError,
            >(error),
        },
{
    let mut list: Vec<Expression> = Vec::new();
    let mut at = pos;
    assert(expression_views(list@) + Seq::<ExpressionView>::empty() =~= Seq::<ExpressionView>::empty());
    loop
        invariant
            well_formed(tokens@, bytes@.len() as int),
            pos <= at < tokens@.len(),
            prepend(expression_views(list@), parse_expressions(tokens@, bytes@, at as int))
                == parse_expressions(tokens@, bytes@, pos as int),
        decreases tokens@.len() - at,
    {
        let ghost before = expression_views(list@);
        match tokens[at].kind {
            TokenKind::RBrace => {
                assert(before + Seq::<ExpressionView>::empty() =~= before);
                return Ok((list, at + 1));
            },
            _ => {},
        }
        match expression(tokens, bytes, at) {
            Err(error) => {
                return Err(error);
            },
            Ok((found, next)) => {
                list.push(found);
                proof {
                    assert(expression_views(list@) =~= before.push(found@));
                    let rest = parse_expressions(tokens@, bytes@, next as int);
                    if let Ok((tail, end)) = rest {
                        assert(before + (seq![found@] + tail) =~= before.push(found@) + tail);
                    }
                }
                at = next;
            },
        }
    }
}

fn name_type(bytes: &[u8], start: usize, end: usize) -> (ty: Option<Type>)
    requires
        start <= end <= bytes@.len(),
    ensures
        ty == type_named(bytes@, start as int, end as int),
{
    if word_is(bytes, start, end, "bool") {
        Some(Type::Bool)
    } else if word_is(bytes, start, end, "i32") {
        Some(Type::I32)
    } else if word_is(bytes, start, end, "i64") {
        Some(Type::I64)
    } else if word_is(bytes, start, end, "u32") {
        Some(Type::U32)
    } else if word_is(bytes, start, end, "u64") {
        Some(Type::U64)
    } else if word_is(bytes, start, end, "f32") {
        Some(Type::F32)
    } else if word_is(bytes, start, end, "f64") {
        Some(Type::F64)
    } else {
        None
    }
}

fn type_at(tokens: &Vec<Token>, bytes: &[u8], pos: usize) -> (parsed: Result<
    (Type, usize),
    ParseError,
>)
    requires
        well_formed(tokens@, bytes@.len() as int),
        pos < tokens@.len(),
    ensures
        match parsed {
            Ok((ty, next)) => parse_type(tokens@, bytes@, pos as int) == Ok::<
                (Type, int),
                ParseError,
            >((ty, next as int)) && next == pos + 1 && next < tokens@.len(),
            Err(error) => parse_type(tokens@, bytes@, pos as int) == Err::<
                (Type, int),
                ParseError,
            >(error),
        },
{
    let token = tokens[pos];
    match token.kind {
        TokenKind::Ident => match name_type(bytes, token.start, token.end) {
            Some(ty) => Ok((ty, pos + 1)),
            None => Err(reject(token)),
        },
        _ => Err(reject(token)),
    }
}

fn parameter(tokens: &Vec<Token>, bytes: &[u8], pos: usize) -> (parsed: Result<
    (Parameter, usize),
    ParseError,
>)
    requires
        well_formed(tokens@, bytes@.len() as int),
        pos < tokens@.len(),
    ensures
        match parsed {
            Ok((found, next)) => parse_parameter(tokens@, bytes@, pos as int) == Ok::<
                (ParameterView, int),
                ParseError,
            >((found@, next as int)) && pos < next < tokens@.len(),
            Err(error) => parse_parameter(tokens@, bytes@, pos as int) == Err::<
                (ParameterView, int),
                ParseError,
            >(error),
        },
{
    let name = tokens[pos];
    match name.kind {
        TokenKind::Ident => {},
        _ => {
            return Err(reject(name));
        },
    }
    let colon = tokens[pos + 1];
    match colon.kind {
        TokenKind::Colon => {},
        _ => {
            return Err(reject(colon));
        },
    }
    match type_at(tokens, bytes, pos + 2) {
        Err(error) => Err(error),
        Ok((ty, next)) => Ok((Parameter { name: read_identifier(bytes, name), ty }, next)),
    }
}

fn parameters(tokens: &Vec<Token>, bytes: &[u8], pos: usize) -> (parsed: Result<
    (Vec<Parameter>, usize),
    ParseError,
>)
    requires
        well_formed(tokens@, bytes@.len() as int),
        pos < tokens@.len(),
    ensures
        match parsed {
            Ok((list, next)) => parse_parameters(tokens@, bytes@, pos as int) == Ok::<
                (Seq<ParameterView>, int),
                ParseError,
            >((parameter_views(list@), next as int)) && pos < next < tokens@.len(),
            Err(error) => parse_parameters(tokens@, bytes@, pos as int) == Err::<
                (Seq<ParameterView>, int),
                ParseError,
            >(error),
        },
{
    let mut list: Vec<Parameter> = Vec::new();
    match tokens[pos].kind {
        TokenKind::RParen => {
            assert(parameter_views(list@) =~= Seq::<ParameterView>::empty());
            return Ok((list, pos + 1));
        },
        _ => {},
    }
    let mut at = match parameter(tokens, bytes, pos) {
        Err(error) => {
            return Err(error);
        },
        Ok((first, next)) => {
            list.push(first);
            assert(parameter_views(list@) =~= seq![first@]);
            next
        },
    };
    loop
        invariant
            well_formed(tokens@, bytes@.len() as int),
            pos < at < tokens@.len(),
            prepend(parameter_views(list@), parse_parameters_rest(tokens@, bytes@, at as int))
                == parse_parameters(tokens@, bytes@, pos as int),
        decreases tokens@.len() - at,
    {
        let ghost before = parameter_views(list@);
        let token = tokens[at];
        match token.kind {
            TokenKind::RParen => {
                assert(before + Seq::<ParameterView>::empty() =~= before);
                return Ok((list, at + 1));
            },
            TokenKind::Comma => {},
            _ => {
                return Err(reject(token));
            },
        }
        match parameter(tokens, bytes, at + 1) {
            Err(error) => {
                return Err(error);
            },
            Ok((found, next)) => {
                list.push(found);
                proof {
                    assert(parameter_views(list@) =~= before.push(found@));
                    let rest = parse_parameters_rest(tokens@, bytes@, next as int);
                    if let Ok((tail, end)) = rest {
                        assert(before + (seq![found@] + tail) =~= before.push(found@) + tail);
                    }
                }
                at = next;
            },
        }
    }
}

fn return_type(tokens: &Vec<Token>, bytes: &[u8], pos: usize) -> (parsed: Result<
    (Type, usize),
    ParseError,
>)
    requires
        well_formed(tokens@, bytes@.len() as int),
        pos < tokens@.len(),
    ensures
        match parsed {
            Ok((ty, next)) => parse_return(tokens@, bytes@, pos as int) == Ok::<
                (Type, int),
                ParseError,
            >((ty, next as int)) && pos <= next < tokens@.len(),
            Err(error) => parse_return(tokens@, bytes@, pos as int) == Err::<
                (Type, int),
                ParseError,
            >(error),
        },
{
    match tokens[pos].kind {
        TokenKind::Arrow => type_at(tokens, bytes, pos + 1),
        _ => Ok((Type::Void, pos)),
    }
}

fn function(tokens: &Vec<Token>, bytes: &[u8], pos: usize) -> (parsed: Result<
    (Function, usize),
    ParseError,
>)
    requires
        well_formed(tokens@, bytes@.len() as int),
        pos < tokens@.len(),
    ensures
        match parsed {
            Ok((found, next)) => parse_function(tokens@, bytes@, pos as int) == Ok::<
                (FunctionView, int),
                ParseError,
            >((found@, next as int)) && pos < next < tokens@.len(),
            Err(error) => parse_function(tokens@, bytes@, pos as int) == Err::<
                (FunctionView, int),
                ParseError,
            >(error),
        },
{
    let (export, def) = match tokens[pos].kind {
        TokenKind::Export => (true, pos + 1),
        _ => (false, pos),
    };
    let keyword = tokens[def];
    match keyword.kind {
        TokenKind::Def => {},
        _ => {
            return Err(reject(keyword));
        },
    }
    let name = tokens[def + 1];
    match name.kind {
        TokenKind::Ident => {},
        _ => {
            return Err(reject(name));
        },
    }
    let open = tokens[def + 2];
    match open.kind {
        TokenKind::LParen => {},
        _ => {
            return Err(reject(open));
        },
    }
    let (list, arrow) = match parameters(tokens, bytes, def + 3) {
        Ok(found) => found,
        Err(error) => {
            return Err(error);
        },
    };
    let (ret, brace) = match return_type(tokens, bytes, arrow) {
        Ok(found) => found,
        Err(error) => {
            return Err(error);
        },
    };
    let opening = tokens[brace];
    match opening.kind {
        TokenKind::LBrace => {},
        _ => {
            return Err(reject(opening));
        },
    }
    let (body, next) = match expressions(tokens, bytes, brace + 1) {
        Ok(found) => found,
        Err(error) => {
            return Err(error);
        },
    };
    let found = Function {
        name: read_identifier(bytes, name),
        args: Parameters { list },
        ret,
        body: Block { expressions: body },
        modifiers: FunctionModifiers { export },
    };
    Ok((found, next))
}

/// Parses a source text. The result is the module that the grammar of
/// this language gives for the text, or the first error in the text.
pub fn parse(source: &str) -> (parsed: Result<Module, ParseError>)
    ensures
        match parsed {
            Ok(module) => parse_spec(source.spec_bytes()) == Ok::<ModuleView, ParseError>(module@),
            Err(error) => parse_spec(source.spec_bytes()) == Err::<ModuleView, ParseError>(error),
        },
{
    let tokens = lex(source);
    let bytes = source.as_bytes();
    let mut funcs: Vec<Function> = Vec::new();
    let mut at: usize = 0;
    assert(function_views(funcs@) =~= Seq::<FunctionView>::empty());
    loop
        invariant
            bytes@ == source.spec_bytes(),
            tokens@ == lex_spec(bytes@),
            well_formed(tokens@, bytes@.len() as int),
            at < tokens@.len(),
            parse_functions(tokens@, bytes@, 0) == (match parse_functions(
                tokens@,
                bytes@,
                at as int,
            ) {
                Ok(rest) => Ok::<Seq<FunctionView>, ParseError>(function_views(funcs@) + rest),
                Err(error) => Err::<Seq<FunctionView>, ParseError>(error),
            }),
        decreases tokens@.len() - at,
    {
        let ghost before = function_views(funcs@);
        match tokens[at].kind {
            TokenKind::End => {
                assert(before + Seq::<FunctionView>::empty() =~= before);
                return Ok(Module { funcs });
            },
            _ => {},
        }
        match function(&tokens, bytes, at) {
            Err(error) => {
                return Err(error);
            },
            Ok((found, next)) => {
                funcs.push(found);
                proof {
                    assert(function_views(funcs@) =~= before.push(found@));
                    if let Ok(tail) = parse_functions(tokens@, bytes@, next as int) {
                        assert(before + (seq![found@] + tail) =~= before.push(found@) + tail);
                    }
                }
                at = next;
            },
        }
    }
}

} // verus!
