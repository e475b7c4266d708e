//! The syntax tree that the parser produces.

use vstd::prelude::*;
use vstd::hash_map::StringHashMap;
use crate::pos::{Span, Spanned};
use crate::shared::{FunctionModifiers, MathOperator, Type};
use nan_preserving_float::F64;

verus! {

/// A name as it is written in the source text.
#[derive(Clone, Debug, PartialEq)]
pub struct RawIdentifier {
    pub name: String,
}

/// A name with the place where it is written.
pub type Identifier = Spanned<RawIdentifier>;

/// The mathematical content of an `Identifier`.
pub struct IdentifierView {
    pub name: Seq<char>,
    pub span: Span,
}

impl View for Spanned<RawIdentifier> {
    type V = IdentifierView;

    open spec fn view(&self) -> IdentifierView {
        IdentifierView { name: self.node.name@, span: self.span }
    }
}

impl RawIdentifier {
    /// The identifier spelled `name`.
    pub fn new(name: String) -> (identifier: RawIdentifier)
        ensures
            identifier.name == name,
    {
        RawIdentifier { name }
    }
}

impl Spanned<RawIdentifier> {
    /// The name as a string slice, with the same span.
    pub fn as_ref(&self) -> (name: Spanned<&str>)
        ensures
            name.node@ == self.node.name@,
            name.span == self.span,
    {
        Spanned { node: self.node.name.as_str(), span: self.span }
    }

    /// A copy of this identifier.
    pub fn duplicate(&self) -> (copy: Identifier)
        ensures
            copy == *self,
    {
        Spanned { node: RawIdentifier { name: self.node.name.clone() }, span: self.span }
    }
}

/// The identifier spelled `name`.
pub fn ident(name: &str) -> (identifier: RawIdentifier)
    ensures
        identifier.name@ == name@,
{
    RawIdentifier { name: name.to_owned() }
}

/// A parameter of a function: its name and its declared type.
#[derive(Clone, Debug, PartialEq)]
pub struct Parameter {
    pub name: Identifier,
    pub ty: Type,
}

/// The mathematical content of a `Parameter`.
pub struct ParameterView {
    pub name: IdentifierView,
    pub ty: Type,
}

impl View for Parameter {
    type V = ParameterView;

    open spec fn view(&self) -> ParameterView {
        ParameterView { name: self.name@, ty: self.ty }
    }
}

impl Parameter {
    /// The parameter `name` of type `ty`.
    pub fn new(name: Identifier, ty: Type) -> (parameter: Parameter)
        ensures
            parameter.name == name,
            parameter.ty == ty,
    {
        Parameter { name, ty }
    }
}

/// The parameters of a function, in the order of declaration.
#[derive(Clone, Debug, PartialEq)]
pub struct Parameters {
    pub list: Vec<Parameter>,
}

/// The mathematical content of each of `parameters`.
pub open spec fn parameter_views(parameters: Seq<Parameter>) -> Seq<ParameterView> {
    parameters.map_values(|parameter: Parameter| parameter@)
}

impl View for Parameters {
    type V = Seq<ParameterView>;

    open spec fn view(&self) -> Seq<ParameterView> {
        parameter_views(self.list@)
    }
}

impl Parameters {
    /// The parameters in `list`.
    pub fn new(list: Vec<Parameter>) -> (parameters: Parameters)
        ensures
            parameters.list == list,
    {
        Parameters { list }
    }

    /// No parameters.
    pub fn empty() -> (parameters: Parameters)
        ensures
            parameters.list@ == Seq::<Parameter>::empty(),
    {
        Parameters { list: Vec::new() }
    }

    /// The parameter `arg` followed by those of `rest`.
    pub fn from_parser(arg: Parameter, rest: Vec<Parameter>) -> (parameters: Parameters)
        ensures
            parameters.list@ == seq![arg] + rest@,
    {
        let mut list = Vec::new();
        list.push(arg);
        let mut rest = rest;
        list.append(&mut rest);
        Parameters { list }
    }

    /// The name and the type of each parameter, in order.
    pub fn iter(&self) -> (items: Vec<(Spanned<&str>, &Type)>)
        ensures
            items@.len() == self.list@.len(),
            forall|i: int|
                0 <= i < items@.len() ==> {
                    &&& (#[trigger] items@[i]).0.node@ == self.list@[i].name.node.name@
                    &&& items@[i].0.span == self.list@[i].name.span
                    &&& *items@[i].1 == self.list@[i].ty
                },
    {
        let mut items: Vec<(Spanned<&str>, &Type)> = Vec::new();
        let mut index: usize = 0;
        while index < self.list.len()
            invariant
                index <= self.list@.len(),
                items@.len() == index,
                forall|i: int|
                    0 <= i < index ==> {
                        &&& (#[trigger] items@[i]).0.node@ == self.list@[i].name.node.name@
                        &&& items@[i].0.span == self.list@[i].name.span
                        &&& *items@[i].1 == self.list@[i].ty
                    },
            decreases self.list@.len() - index,
        {
            let parameter = &self.list[index];
            items.push((parameter.name.as_ref(), &parameter.ty));
            index = index + 1;
        }
        items
    }

    /// The spelling of each parameter, in order.
    pub open spec fn names(self) -> Seq<Seq<char>> {
        self.list@.map_values(|parameter: Parameter| parameter.name.node.name@)
    }
}

/// The index of each name after the first `count` of `names` were
/// entered in order: a name that occurs twice keeps its last index.
pub open spec fn mappings_of(names: Seq<Seq<char>>, count: int) -> Map<Seq<char>, u32>
    decreases count,
{
    if count <= 0 {
        Map::empty()
    } else {
        mappings_of(names, count - 1).insert(names[count - 1], (count - 1) as u32)
    }
}

/// The index of every parameter of `args`, by name.
pub fn function_mappings(args: &Parameters) -> (map: StringHashMap<u32>)
    ensures
        map@ == mappings_of(args.names(), args.list@.len() as int),
{
    let mut map: StringHashMap<u32> = StringHashMap::new();
    let mut index: usize = 0;
    while index < args.list.len()
        invariant
            index <= args.list@.len(),
            map@ == mappings_of(args.names(), index as int),
        decreases args.list@.len() - index,
    {
        let name = args.list[index].name.node.name.clone();
        map.insert(name, #[verifier::truncate] (index as u32));
        index = index + 1;
    }
    map
}

/// A name is mapped exactly when some parameter has it, and then to the
/// index of the last parameter that has it.
pub proof fn lemma_mappings(names: Seq<Seq<char>>, count: int, name: Seq<char>)
    requires
        0 <= count <= names.len(),
    ensures
        mappings_of(names, count).contains_key(name) <==> exists|i: int|
            0 <= i < count && #[trigger] names[i] == name,
        mappings_of(names, count).contains_key(name) ==> exists|i: int|
            {
                &&& 0 <= i < count
                &&& #[trigger] names[i] == name
                &&& mappings_of(names, count)[name] == i as u32
                &&& forall|j: int| i < j < count ==> #[trigger] names[j] != name
            },
    decreases count,
{
    if count > 0 {
        lemma_mappings(names, count - 1, name);
        if names[count - 1] == name {
        } else if mappings_of(names, count - 1).contains_key(name) {
            let i = choose|i: int|
                {
                    &&& 0 <= i < count - 1
                    &&& #[trigger] names[i] == name
                    &&& mappings_of(names, count - 1)[name] == i as u32
                    &&& forall|j: int| i < j < count - 1 ==> #[trigger] names[j] != name
                };
            assert(names[i] == name);
        }
    }
}

/// A literal as it is written: its type is found later.
#[derive(Clone, Copy, Debug, PartialEq)]
pub enum ConstExpression {
    Integer(i64),
    Float(F64),
    Bool(bool),
}

/// An expression.
#[derive(Debug, PartialEq)]
pub enum Expression {
    Const(ConstExpression),
    VariableAccess(Identifier),
    Binary(MathOperator, Box<BinaryExpression>),
}

/// The operands of a binary expression.
#[derive(Debug, PartialEq)]
pub struct BinaryExpression {
    pub lhs: Expression,
    pub rhs: Expression,
}

/// The mathematical content of an `Expression`.
pub enum ExpressionView {
    Const(ConstExpression),
    VariableAccess(IdentifierView),
    Binary(MathOperator, Box<ExpressionView>, Box<ExpressionView>),
}

/// The mathematical content of `expression`.
pub open spec fn expression_view(expression: Expression) -> ExpressionView
    decreases expression,
{
    match expression {
        Expression::Const(constant) => ExpressionView::Const(constant),
        Expression::VariableAccess(name) => ExpressionView::VariableAccess(name@),
        Expression::Binary(operator, operands) => ExpressionView::Binary(
            operator,
            Box::new(expression_view(operands.lhs)),
            Box::new(expression_view(operands.rhs)),
        ),
    }
}

impl View for Expression {
    type V = ExpressionView;

    open spec fn view(&self) -> ExpressionView {
        expression_view(*self)
    }
}

impl Clone for Expression {
    fn clone(&self) -> (copy: Self)
        ensures
            copy == *self,
    {
        self.duplicate()
    }
}

impl Clone for BinaryExpression {
    fn clone(&self) -> (copy: Self)
        ensures
            copy == *self,
    {
        BinaryExpression { lhs: self.lhs.duplicate(), rhs: self.rhs.duplicate() }
    }
}

impl Expression {
    /// A copy of this expression.
    pub fn duplicate(&self) -> (copy: Expression)
        ensures
            copy == *self,
        decreases self,
    {
        match self {
            Expression::Const(constant) => Expression::Const(*constant),
            Expression::VariableAccess(name) => Expression::VariableAccess(name.duplicate()),
            Expression::Binary(operator, operands) => Expression::Binary(
                *operator,
                Box::new(
                    BinaryExpression {
                        lhs: operands.lhs.duplicate(),
                        rhs: operands.rhs.duplicate(),
                    },
                ),
            ),
        }
    }
}

impl BinaryExpression {
    /// The operands `lhs` and `rhs`.
    pub fn new(lhs: Expression, rhs: Expression) -> (operands: BinaryExpression)
        ensures
            operands.lhs == lhs,
            operands.rhs == rhs,
    {
        BinaryExpression { lhs, rhs }
    }
}

/// The body of a function: expressions, the last of which is its value.
#[derive(Clone, Debug, PartialEq)]
pub struct Block {
    pub expressions: Vec<Expression>,
}

/// The mathematical content of each of `expressions`.
pub open spec fn expression_views(expressions: Seq<Expression>) -> Seq<ExpressionView> {
    expressions.map_values(|expression: Expression| expression@)
}

impl View for Block {
    type V = Seq<ExpressionView>;

    open spec fn view(&self) -> Seq<ExpressionView> {
        expression_views(self.expressions@)
    }
}

impl Block {
    /// The block of `expressions`.
    pub fn new(expressions: Vec<Expression>) -> (block: Block)
        ensures
            block.expressions == expressions,
    {
        Block { expressions }
    }
}

/// A function definition.
#[derive(Clone, Debug, PartialEq)]
pub struct Function {
    pub name: Identifier,
    pub args: Parameters,
    pub ret: Type,
    pub body: Block,
    pub modifiers: FunctionModifiers,
}

/// The mathematical content of a `Function`.
pub struct FunctionView {
    pub name: IdentifierView,
    pub args: Seq<ParameterView>,
    pub ret: Type,
    pub body: Seq<ExpressionView>,
    pub export: bool,
}

impl View for Function {
    type V = FunctionView;

    open spec fn view(&self) -> FunctionView {
        FunctionView {
            name: self.name@,
            args: self.args@,
            ret: self.ret,
            body: self.body@,
            export: self.modifiers.export,
        }
    }
}

impl Function {
    /// The function `name` with the given signature and body, not exported.
    pub fn new(name: Identifier, args: Parameters, ret: Type, body: Block) -> (function: Function)
        ensures
            function.name == name,
            function.args == args,
            function.ret == ret,
            function.body == body,
            !function.modifiers.export,
    {
        Function { name, args, ret, body, modifiers: FunctionModifiers::new() }
    }

    /// This function, exported.
    pub fn exported(self) -> (function: Function)
        ensures
            function.name == self.name,
            function.args == self.args,
            function.ret == self.ret,
            function.body == self.body,
            function.modifiers.export,
    {
        let mut function = self;
        function.modifiers.export = true;
        function
    }

    /// The index of every parameter, by name.
    pub fn mappings(&self) -> (map: StringHashMap<u32>)
        ensures
            map@ == mappings_of(self.args.names(), self.args.list@.len() as int),
    {
        function_mappings(&self.args)
    }
}

/// A source file: its functions, in the order of definition.
#[derive(Clone, Debug, PartialEq)]
pub struct Module {
    pub funcs: Vec<Function>,
}

/// The mathematical content of a `Module`.
pub struct ModuleView {
    pub funcs: Seq<FunctionView>,
}

/// The mathematical content of each of `functions`.
pub open spec fn function_views(functions: Seq<Function>) -> Seq<FunctionView> {
    functions.map_values(|function: Function| function@)
}

impl View for Module {
    type V = ModuleView;

    open spec fn view(&self) -> ModuleView {
        ModuleView { funcs: function_views(self.funcs@) }
    }
}

impl Module {
    /// The module of `funcs`.
    pub fn new(funcs: Vec<Function>) -> (module: Module)
        ensures
            module.funcs == funcs,
    {
        Module { funcs }
    }
}

} // verus!
