//! The syntax tree, and what each node stands for.

use vstd::prelude::*;

verus! {

/// The two comparisons an `if` can make.
#[derive(Debug, Clone, Copy, PartialEq, Eq, Structural)]
pub enum JsComparitor {
    Equals,
    NotEquals,
}

/// A string literal, without its quotes.
#[derive(Debug, PartialEq, Eq)]
pub struct JsString {
    pub inner: String,
}

/// A number literal, held as the bits of its 32-bit IEEE 754 value. Two are
/// equal where their bits are: `0.0` is not `-0.0`, and a NaN equals itself.
#[derive(Debug, Clone, Copy, PartialEq, Eq, Structural)]
pub struct JsNumber {
    pub bits: u32,
}

/// A boolean literal.
#[derive(Debug, Clone, Copy, PartialEq, Eq, Structural)]
pub struct JsBool {
    pub inner: bool,
}

/// A literal value.
#[derive(Debug, PartialEq, Eq)]
pub enum JsPrimitive {
    String(JsString),
    Number(JsNumber),
    Bool(JsBool),
}

/// The comparison that guards an `if`.
#[derive(Debug, PartialEq, Eq)]
pub struct JsIfExpression {
    pub left: JsPrimitive,
    pub comparitor: JsComparitor,
    pub right: JsPrimitive,
}

/// A call: a name and its arguments in source order.
#[derive(Debug, PartialEq, Eq)]
pub struct JsInvocation {
    pub name: String,
    pub arguments: Vec<JsPrimitive>,
}

/// An `if` block: its guard and its body in source order.
#[derive(Debug, PartialEq, Eq)]
pub struct JsIf {
    pub expression: JsIfExpression,
    pub statements: Vec<JsStatement>,
}

/// One statement.
#[derive(Debug, PartialEq, Eq)]
pub enum JsStatement {
    Invocation(JsInvocation),
    If(JsIf),
}

/// A whole program.
#[derive(Debug, PartialEq, Eq)]
pub struct Tree {
    pub statements: Vec<JsStatement>,
}

/// What a literal stands for.
pub enum Primitive {
    String(Seq<char>),
    /// The bits of the 32-bit IEEE 754 value.
    Number(u32),
    Bool(bool),
}

/// What a guard stands for.
pub struct IfExpression {
    pub left: Primitive,
    pub comparitor: JsComparitor,
    pub right: Primitive,
}

/// What a call stands for.
pub struct Invocation {
    pub name: Seq<char>,
    pub arguments: Seq<Primitive>,
}

/// What an `if` block stands for.
pub struct If {
    pub expression: IfExpression,
    pub statements: Seq<Statement>,
}

/// What a statement stands for.
pub enum Statement {
    Invocation(Invocation),
    If(If),
}

impl Invocation {
    /// A call has a name, and the name stops before any `(`.
    pub open spec fn well_formed(self) -> bool {
        self.name.len() > 0 && !self.name.contains('(')
    }
}

impl Statement {
    /// Every call in the statement, at any depth, is well formed.
    pub open spec fn well_formed(self) -> bool
        decreases self,
    {
        match self {
            Statement::Invocation(call) => call.well_formed(),
            Statement::If(block) => forall|i: int|
                0 <= i < block.statements.len() ==> (#[trigger] block.statements[i]).well_formed(),
        }
    }
}

/// Every call in the statements, at any depth, is well formed.
pub open spec fn all_well_formed(statements: Seq<Statement>) -> bool {
    forall|i: int| 0 <= i < statements.len() ==> (#[trigger] statements[i]).well_formed()
}

impl View for JsComparitor {
    type V = JsComparitor;

    open spec fn view(&self) -> JsComparitor {
        *self
    }
}

impl View for JsNumber {
    type V = u32;

    open spec fn view(&self) -> u32 {
        self.bits
    }
}

impl View for JsBool {
    type V = bool;

    open spec fn view(&self) -> bool {
        self.inner
    }
}

impl View for JsString {
    type V = Seq<char>;

    open spec fn view(&self) -> Seq<char> {
        self.inner@
    }
}

impl View for JsPrimitive {
    type V = Primitive;

    open spec fn view(&self) -> Primitive {
        match self {
            JsPrimitive::String(s) => Primitive::String(s@),
            JsPrimitive::Number(n) => Primitive::Number(n@),
            JsPrimitive::Bool(b) => Primitive::Bool(b@),
        }
    }
}

impl View for JsIfExpression {
    type V = IfExpression;

    open spec fn view(&self) -> IfExpression {
        IfExpression { left: self.left@, comparitor: self.comparitor, right: self.right@ }
    }
}

/// What a list of literals stands for.
pub open spec fn primitives_view(list: Seq<JsPrimitive>) -> Seq<Primitive> {
    Seq::new(list.len(), |i: int| list[i]@)
}

impl View for JsInvocation {
    type V = Invocation;

    open spec fn view(&self) -> Invocation {
        Invocation { name: self.name@, arguments: primitives_view(self.arguments@) }
    }
}

/// What an `if` block stands for.
pub open spec fn if_view(block: JsIf) -> If
    decreases block,
{
    If { expression: block.expression@, statements: statements_view(block.statements@) }
}

/// What a statement stands for.
pub open spec fn statement_view(statement: JsStatement) -> Statement
    decreases statement,
{
    match statement {
        JsStatement::Invocation(call) => Statement::Invocation(call@),
        JsStatement::If(block) => Statement::If(if_view(block)),
    }
}

/// What a list of statements stands for.
pub open spec fn statements_view(list: Seq<JsStatement>) -> Seq<Statement>
    decreases list,
{
    Seq::new(
        list.len(),
        |i: int|
            if 0 <= i < list.len() {
                statement_view(list[i])
            } else {
                arbitrary()
            },
    )
}

impl View for JsIf {
    type V = If;

    open spec fn view(&self) -> If {
        if_view(*self)
    }
}

impl View for JsStatement {
    type V = Statement;

    open spec fn view(&self) -> Statement {
        statement_view(*self)
    }
}

impl View for Tree {
    type V = Seq<Statement>;

    open spec fn view(&self) -> Seq<Statement> {
        statements_view(self.statements@)
    }
}

} // verus!
