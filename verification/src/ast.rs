//! The statement tree that the parser produces and the compiler and the
//! interpreter consume.

use vstd::prelude::*;
use crate::bytecode::texts;

verus! {

/// A literal in a declaration.
#[derive(Debug)]
pub enum Value {
    Number(i32),
    String(String),
}

/// The test of a conditional: a variable compared with a string literal.
#[derive(Debug)]
pub enum Condition {
    Equals(String, String),
    NotEquals(String, String),
}

/// One statement of a script.
#[derive(Debug)]
pub enum Statement {
    /// Declare a variable with a literal value.
    Declaration(String, Value),
    /// Store the sum of the source variables in the target.
    Addition(String, Vec<String>),
    /// Store the first source variable minus the others in the target.
    Subtraction(String, Vec<String>),
    /// Store the concatenation of the parts in the target; a part is a
    /// literal in double quotes or the name of a variable.
    StringConcat(String, Vec<String>),
    /// Print a variable.
    Print(String),
    /// Print the concatenation of the parts; a part is a variable name in
    /// braces or a literal.
    PrintString(Vec<String>),
    /// Read a line into a variable.
    Input(String),
    /// Run the statements if the condition holds, else the else branch.
    If(Condition, Vec<Statement>, Option<Box<Statement>>),
}

/// The mathematical content of a literal.
pub enum LiteralView {
    Number(i32),
    String(Seq<char>),
}

/// The mathematical content of a condition.
pub enum ConditionView {
    Equals(Seq<char>, Seq<char>),
    NotEquals(Seq<char>, Seq<char>),
}

/// The mathematical content of a statement.
pub enum StatementView {
    Declaration(Seq<char>, LiteralView),
    Addition(Seq<char>, Seq<Seq<char>>),
    Subtraction(Seq<char>, Seq<Seq<char>>),
    StringConcat(Seq<char>, Seq<Seq<char>>),
    Print(Seq<char>),
    PrintString(Seq<Seq<char>>),
    Input(Seq<char>),
    If(ConditionView, Seq<StatementView>, Option<Box<StatementView>>),
}

impl View for Value {
    type V = LiteralView;

    open spec fn view(&self) -> LiteralView {
        match *self {
            Value::Number(n) => LiteralView::Number(n),
            Value::String(s) => LiteralView::String(s@),
        }
    }
}

impl View for Condition {
    type V = ConditionView;

    open spec fn view(&self) -> ConditionView {
        match *self {
            Condition::Equals(name, literal) => ConditionView::Equals(name@, literal@),
            Condition::NotEquals(name, literal) => ConditionView::NotEquals(name@, literal@),
        }
    }
}

/// The content of a statement.
pub open spec fn statement_view(statement: Statement) -> StatementView
    decreases statement,
{
    match statement {
        Statement::Declaration(name, value) => StatementView::Declaration(name@, value@),
        Statement::Addition(target, sources) => StatementView::Addition(target@, texts(sources@)),
        Statement::Subtraction(target, sources) => StatementView::Subtraction(
            target@,
            texts(sources@),
        ),
        Statement::StringConcat(target, parts) => StatementView::StringConcat(
            target@,
            texts(parts@),
        ),
        Statement::Print(name) => StatementView::Print(name@),
        Statement::PrintString(parts) => StatementView::PrintString(texts(parts@)),
        Statement::Input(name) => StatementView::Input(name@),
        Statement::If(condition, then_branch, else_branch) => StatementView::If(
            condition@,
            block_view(then_branch@),
            match else_branch {
                Some(statement) => Some(Box::new(statement_view(*statement))),
                None => None,
            },
        ),
    }
}

/// The content of each statement of `block`, in order.
pub open spec fn block_view(block: Seq<Statement>) -> Seq<StatementView>
    decreases block,
{
    Seq::new(
        block.len(),
        |i: int|
            if 0 <= i < block.len() {
                statement_view(block[i])
            } else {
                arbitrary()
            },
    )
}

impl View for Statement {
    type V = StatementView;

    open spec fn view(&self) -> StatementView {
        statement_view(*self)
    }
}

} // verus!
