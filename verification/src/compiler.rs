//! The compiler from statements to bytecode.
//!
//! `emit_statement` and `emit_block` say which program a statement or a block
//! gives; `Compiler` produces exactly that program.

use vstd::prelude::*;
use crate::ast::{Condition, ConditionView, LiteralView, Statement, StatementView, Value,
    block_view, statement_view};
use crate::bytecode::{BytecodeProgram, Instruction, Opcode, ProgramView, slot_of, texts};
use crate::error::{ErrorView, NepalError};
use crate::jumps::{jumps_valid, lemma_compiled_jumps_valid};
use crate::pools::{indexable, lemma_compiled_pools, operands_valid};

verus! {

/// How a part of an operand list is read.
#[derive(Debug, Clone, Copy, PartialEq, Eq, Structural)]
pub enum PartKind {
    /// The name of a variable.
    Variable,
    /// A literal in double quotes, else the name of a variable.
    ConcatPart,
    /// The name of a variable in braces, else a literal.
    PrintPart,
}

/// The program that emission reached, and the message of the compile-time
/// error that stopped it, if one did.
pub struct Emission {
    pub program: ProgramView,
    pub failure: Option<Seq<char>>,
}

/// A successful emission of `program`.
pub open spec fn emitted(program: ProgramView) -> Emission {
    Emission { program, failure: None }
}

/// Whether `part` is at least two characters long, begins with `open` and
/// ends with `close`.
pub open spec fn is_delimited(part: Seq<char>, open: char, close: char) -> bool {
    part.len() >= 2 && part.first() == open && part.last() == close
}

/// `part` without its first and last character.
pub open spec fn inner(part: Seq<char>) -> Seq<char> {
    part.subrange(1, part.len() - 1)
}

/// Enters `name` in the variable table and loads its slot.
pub open spec fn load(p: ProgramView, name: Seq<char>, line: usize) -> ProgramView {
    p.with_variable(name).emit(
        Opcode::LoadVariable(slot_of(p.variable_names, name) as usize),
        line,
    )
}

/// Enters `text` in the string pool and pushes it.
pub open spec fn push_text(p: ProgramView, text: Seq<char>, line: usize) -> ProgramView {
    p.with_string(text).emit(Opcode::PushString(slot_of(p.string_pool, text) as usize), line)
}

/// The code that puts one part of an operand list on the stack.
pub open spec fn emit_part(p: ProgramView, part: Seq<char>, kind: PartKind, line: usize) -> ProgramView {
    match kind {
        PartKind::Variable => load(p, part, line),
        PartKind::ConcatPart => if is_delimited(part, '"', '"') {
            push_text(p, inner(part), line)
        } else {
            load(p, part, line)
        },
        PartKind::PrintPart => if is_delimited(part, '{', '}') {
            load(p, inner(part), line)
        } else {
            push_text(p, part, line)
        },
    }
}

/// The code that folds an operand list into one value: the first part, then
/// each further part followed by `joiner`.
pub open spec fn emit_joined(
    p: ProgramView,
    parts: Seq<Seq<char>>,
    kind: PartKind,
    joiner: Opcode,
    line: usize,
) -> ProgramView
    decreases parts.len(),
{
    if parts.len() == 0 {
        p
    } else if parts.len() == 1 {
        emit_part(p, parts[0], kind, line)
    } else {
        emit_part(
            emit_joined(p, parts.drop_last(), kind, joiner, line),
            parts.last(),
            kind,
            line,
        ).emit(joiner, line)
    }
}

/// The code that folds `parts` and stores the result in `target`; an empty
/// list is an error and emits nothing.
pub open spec fn emit_assignment(
    p: ProgramView,
    target: Seq<char>,
    parts: Seq<Seq<char>>,
    kind: PartKind,
    joiner: Opcode,
    message: Seq<char>,
    line: usize,
) -> Emission {
    if parts.len() == 0 {
        Emission { program: p, failure: Some(message) }
    } else {
        emitted(
            emit_joined(p.with_variable(target), parts, kind, joiner, line).emit(
                Opcode::StoreVariable(slot_of(p.variable_names, target) as usize),
                line,
            ),
        )
    }
}

/// The code of a declaration: push the literal, store it in the variable.
pub open spec fn emit_declaration(p: ProgramView, name: Seq<char>, value: LiteralView, line: usize) -> ProgramView {
    let declared = p.with_variable(name);
    let pushed = match value {
        LiteralView::Number(n) => declared.emit(Opcode::PushNumber(n), line),
        LiteralView::String(s) => push_text(declared, s, line),
    };
    pushed.emit(Opcode::StoreVariable(slot_of(p.variable_names, name) as usize), line)
}

/// The code of a print with parts: nothing for an empty list, else the
/// folded parts followed by `print`.
pub open spec fn emit_print_string(p: ProgramView, parts: Seq<Seq<char>>, line: usize) -> ProgramView {
    if parts.len() == 0 {
        p
    } else {
        emit_joined(p, parts, PartKind::PrintPart, Opcode::Concat, line).emit(Opcode::Print, line)
    }
}

/// The code that evaluates a condition: load the variable, push the literal,
/// compare.
pub open spec fn emit_condition(p: ProgramView, condition: ConditionView, line: usize) -> ProgramView {
    match condition {
        ConditionView::Equals(name, literal) => push_text(load(p, name, line), literal, line).emit(
            Opcode::Equal,
            line,
        ),
        ConditionView::NotEquals(name, literal) => push_text(
            load(p, name, line),
            literal,
            line,
        ).emit(Opcode::NotEqual, line),
    }
}

/// The program after compiling `statement` onto `p`.
///
/// A conditional is the condition, a `jump-if-false`, the then branch and,
/// with an else branch, a `jump` and the else branch. Each jump is emitted
/// with target 0 and patched when the end of the block it skips is known:
/// the `jump-if-false` to the index after the then branch (after the `jump`,
/// where there is one), the `jump` to the index after the else branch.
pub open spec fn emit_statement(p: ProgramView, statement: StatementView, line: usize) -> Emission
    decreases statement,
{
    match statement {
        StatementView::Declaration(name, value) => emitted(emit_declaration(p, name, value, line)),
        StatementView::Addition(target, sources) => emit_assignment(
            p,
            target,
            sources,
            PartKind::Variable,
            Opcode::Add,
            "Addition requires at least one source variable"@,
            line,
        ),
        StatementView::Subtraction(target, sources) => emit_assignment(
            p,
            target,
            sources,
            PartKind::Variable,
            Opcode::Subtract,
            "Subtraction requires at least one source variable"@,
            line,
        ),
        StatementView::StringConcat(target, parts) => emit_assignment(
            p,
            target,
            parts,
            PartKind::ConcatPart,
            Opcode::Concat,
            "String concatenation requires at least one part"@,
            line,
        ),
        StatementView::Print(name) => emitted(load(p, name, line).emit(Opcode::Print, line)),
        StatementView::PrintString(parts) => emitted(emit_print_string(p, parts, line)),
        StatementView::Input(name) => emitted(
            p.with_variable(name).emit(Opcode::Input, line).emit(
                Opcode::StoreVariable(slot_of(p.variable_names, name) as usize),
                line,
            ),
        ),
        StatementView::If(condition, then_branch, else_branch) => {
            let head = emit_condition(p, condition, line);
            let jump_at = head.instructions.len() as int;
            let then_result = emit_block(
                head.emit(Opcode::JumpIfFalse(0), line),
                then_branch,
                line,
            );
            if then_result.failure is Some {
                then_result
            } else {
                match else_branch {
                    None => emitted(
                        then_result.program.patch(
                            jump_at,
                            Opcode::JumpIfFalse(then_result.program.instructions.len() as usize),
                        ),
                    ),
                    Some(statement) => {
                        let else_jump_at = then_result.program.instructions.len() as int;
                        let skipping = then_result.program.emit(Opcode::Jump(0), line);
                        let else_result = emit_statement(
                            skipping.patch(
                                jump_at,
                                Opcode::JumpIfFalse(skipping.instructions.len() as usize),
                            ),
                            *statement,
                            line,
                        );
                        if else_result.failure is Some {
                            else_result
                        } else {
                            emitted(
                                else_result.program.patch(
                                    else_jump_at,
                                    Opcode::Jump(else_result.program.instructions.len() as usize),
                                ),
                            )
                        }
                    },
                }
            }
        },
    }
}

/// The program after compiling the statements of `block` onto `p` in order,
/// up to the first that fails.
pub open spec fn emit_block(p: ProgramView, block: Seq<StatementView>, line: usize) -> Emission
    decreases block,
{
    if block.len() == 0 {
        emitted(p)
    } else {
        let before = emit_block(p, block.drop_last(), line);
        if before.failure is Some {
            before
        } else {
            emit_statement(before.program, block.last(), line)
        }
    }
}

/// The result of compiling a whole script onto `p`: the code of its
/// statements and a final `halt`, or the first error.
pub open spec fn compiled(p: ProgramView, script: Seq<StatementView>, line: usize) -> Emission {
    let body = emit_block(p, script, line);
    if body.failure is Some {
        body
    } else {
        emitted(body.program.emit(Opcode::Halt, line))
    }
}

/// `after` holds everything that `before` holds, at the same indices:
/// instructions and pool entries are only ever appended.
pub open spec fn extends(before: ProgramView, after: ProgramView) -> bool {
    &&& before.instructions.len() <= after.instructions.len()
    &&& before.string_pool.len() <= after.string_pool.len()
    &&& before.variable_names.len() <= after.variable_names.len()
    &&& forall|i: int|
        0 <= i < before.instructions.len() ==> after.instructions[i] == before.instructions[i]
    &&& forall|i: int|
        0 <= i < before.string_pool.len() ==> after.string_pool[i] == before.string_pool[i]
    &&& forall|i: int|
        0 <= i < before.variable_names.len() ==> after.variable_names[i]
            == before.variable_names[i]
}

/// Folding an operand list only appends.
pub proof fn lemma_joined_extends(
    p: ProgramView,
    parts: Seq<Seq<char>>,
    kind: PartKind,
    joiner: Opcode,
    line: usize,
)
    ensures
        extends(p, emit_joined(p, parts, kind, joiner, line)),
        parts.len() > 0 ==> emit_joined(p, parts, kind, joiner, line).instructions.len()
            > p.instructions.len(),
    decreases parts.len(),
{
    if parts.len() > 1 {
        lemma_joined_extends(p, parts.drop_last(), kind, joiner, line);
    }
}

/// Compiling a statement only appends: what stood in the program before,
/// instructions and pool entries, stands there unchanged afterwards.
pub proof fn lemma_statement_extends(p: ProgramView, statement: StatementView, line: usize)
    ensures
        extends(p, emit_statement(p, statement, line).program),
    decreases statement,
{
    match statement {
        StatementView::Addition(target, sources) => {
            lemma_joined_extends(
                p.with_variable(target),
                sources,
                PartKind::Variable,
                Opcode::Add,
                line,
            );
        },
        StatementView::Subtraction(target, sources) => {
            lemma_joined_extends(
                p.with_variable(target),
                sources,
                PartKind::Variable,
                Opcode::Subtract,
                line,
            );
        },
        StatementView::StringConcat(target, parts) => {
            lemma_joined_extends(
                p.with_variable(target),
                parts,
                PartKind::ConcatPart,
                Opcode::Concat,
                line,
            );
        },
        StatementView::PrintString(parts) => {
            lemma_joined_extends(p, parts, PartKind::PrintPart, Opcode::Concat, line);
        },
        StatementView::If(condition, then_branch, else_branch) => {
            let head = emit_condition(p, condition, line);
            let entered = head.emit(Opcode::JumpIfFalse(0), line);
            lemma_block_extends(entered, then_branch, line);
            let then_result = emit_block(entered, then_branch, line);
            if then_result.failure is None {
                match else_branch {
                    None => {},
                    Some(statement) => {
                        let skipping = then_result.program.emit(Opcode::Jump(0), line);
                        let patched = skipping.patch(
                            head.instructions.len() as int,
                            Opcode::JumpIfFalse(skipping.instructions.len() as usize),
                        );
                        lemma_statement_extends(patched, *statement, line);
                    },
                }
            }
        },
        _ => {},
    }
}

/// Compiling a block only appends.
pub proof fn lemma_block_extends(p: ProgramView, block: Seq<StatementView>, line: usize)
    ensures
        extends(p, emit_block(p, block, line).program),
    decreases block,
{
    if block.len() > 0 {
        lemma_block_extends(p, block.drop_last(), line);
        let before = emit_block(p, block.drop_last(), line);
        if before.failure is None {
            lemma_statement_extends(before.program, block.last(), line);
        }
    }
}

/// Once a statement of a block has failed, the rest of the block is not
/// compiled: the result is that of the statements up to the failure.
pub proof fn lemma_block_stops_at_failure(
    p: ProgramView,
    block: Seq<StatementView>,
    count: int,
    line: usize,
)
    requires
        0 <= count <= block.len(),
        emit_block(p, block.take(count), line).failure is Some,
    ensures
        emit_block(p, block, line) == emit_block(p, block.take(count), line),
    decreases block.len() - count,
{
    if count < block.len() {
        assert(block.take(count + 1).drop_last() == block.take(count));
        lemma_block_stops_at_failure(p, block, count + 1, line);
    } else {
        assert(block.take(count) == block);
    }
}

/// An addition, a subtraction or a concatenation without operands is a
/// compile-time error and emits nothing: the program, instructions and
/// pools, is the one from before.
pub proof fn lemma_no_operands_no_code(p: ProgramView, target: Seq<char>, line: usize)
    ensures
        emit_statement(p, StatementView::Addition(target, Seq::empty()), line) == (Emission {
            program: p,
            failure: Some("Addition requires at least one source variable"@),
        }),
        emit_statement(p, StatementView::Subtraction(target, Seq::empty()), line) == (Emission {
            program: p,
            failure: Some("Subtraction requires at least one source variable"@),
        }),
        emit_statement(p, StatementView::StringConcat(target, Seq::empty()), line) == (Emission {
            program: p,
            failure: Some("String concatenation requires at least one part"@),
        }),
        compiled(p, seq![StatementView::Addition(target, Seq::empty())], line) == (Emission {
            program: p,
            failure: Some("Addition requires at least one source variable"@),
        }),
{
    let script = seq![StatementView::Addition(target, Seq::empty())];
    assert(script.drop_last() == Seq::<StatementView>::empty());
    assert(emit_block(p, script.drop_last(), line) == emitted(p));
    assert(script.last() == StatementView::Addition(target, Seq::empty()));
}

/// Whether no operand list of an addition, a subtraction or a
/// concatenation is empty, in `statement` itself or in a statement of its
/// branches.
pub open spec fn has_operands(statement: StatementView) -> bool
    decreases statement,
{
    match statement {
        StatementView::Addition(_, sources) => sources.len() > 0,
        StatementView::Subtraction(_, sources) => sources.len() > 0,
        StatementView::StringConcat(_, parts) => parts.len() > 0,
        StatementView::If(_, then_branch, else_branch) => {
            &&& all_have_operands(then_branch)
            &&& match else_branch {
                Some(statement) => has_operands(*statement),
                None => true,
            }
        },
        _ => true,
    }
}

/// Whether `has_operands` holds of every statement of `block`.
pub open spec fn all_have_operands(block: Seq<StatementView>) -> bool
    decreases block,
{
    block.len() > 0 ==> all_have_operands(block.drop_last()) && has_operands(block.last())
}

/// Compiling a statement succeeds if and only if no operand list in it is
/// empty: there is no other compile-time error.
pub proof fn lemma_statement_compiles(p: ProgramView, statement: StatementView, line: usize)
    ensures
        emit_statement(p, statement, line).failure is None <==> has_operands(statement),
    decreases statement,
{
    match statement {
        StatementView::If(condition, then_branch, else_branch) => {
            let head = emit_condition(p, condition, line);
            let entered = head.emit(Opcode::JumpIfFalse(0), line);
            lemma_block_compiles(entered, then_branch, line);
            match else_branch {
                None => {},
                Some(else_statement) => {
                    let then_result = emit_block(entered, then_branch, line);
                    let skipping = then_result.program.emit(Opcode::Jump(0), line);
                    lemma_statement_compiles(
                        skipping.patch(
                            head.instructions.len() as int,
                            Opcode::JumpIfFalse(skipping.instructions.len() as usize),
                        ),
                        *else_statement,
                        line,
                    );
                },
            }
        },
        _ => {},
    }
}

/// Compiling a block, and a script, succeeds if and only if no operand
/// list in it is empty.
pub proof fn lemma_block_compiles(p: ProgramView, block: Seq<StatementView>, line: usize)
    ensures
        emit_block(p, block, line).failure is None <==> all_have_operands(block),
        compiled(p, block, line).failure is None <==> all_have_operands(block),
    decreases block,
{
    if block.len() > 0 {
        lemma_block_compiles(p, block.drop_last(), line);
        lemma_statement_compiles(emit_block(p, block.drop_last(), line).program, block.last(), line);
    }
}

/// The state of a compiler: the program emitted so far and the source line
/// that new instructions are marked with.
pub struct CompilerView {
    pub program: ProgramView,
    pub line: usize,
}

/// A call that was to produce `emission` from the state `before` did so:
/// the program is the one reached, the line is unchanged, and `result` is
/// the runtime error with the failure's message, if there is one.
pub open spec fn outcome_of(
    before: CompilerView,
    after: CompilerView,
    result: Result<(), NepalError>,
    emission: Emission,
) -> bool {
    &&& after.line == before.line
    &&& after.program == emission.program
    &&& match emission.failure {
        None => result is Ok,
        Some(message) => result matches Err(e) && e@ == ErrorView::RuntimeError(message),
    }
}

/// Compiles statements into a bytecode program.
pub struct Compiler {
    program: BytecodeProgram,
    current_line: usize,
}

impl View for Compiler {
    type V = CompilerView;

    closed spec fn view(&self) -> CompilerView {
        CompilerView { program: self.program@, line: self.current_line }
    }
}

/// The text between the first and the last character of `part`, if `part`
/// has at least two characters, begins with `open` and ends with `close`.
fn delimited_inner(part: &String, open: char, close: char) -> (text: Option<String>)
    ensures
        match text {
            Some(t) => is_delimited(part@, open, close) && t@ == inner(part@),
            None => !is_delimited(part@, open, close),
        },
{
    let slice = part.as_str();
    let length = slice.unicode_len();
    if length >= 2 && slice.get_char(0) == open && slice.get_char(length - 1) == close {
        Some(String::from_str(slice.substring_char(1, length - 1)))
    } else {
        None
    }
}

impl Compiler {
    /// A compiler with an empty program, at line 1.
    pub fn new() -> (compiler: Self)
        ensures
            compiler@ == (CompilerView { program: ProgramView::empty(), line: 1 }),
    {
        Self { program: BytecodeProgram::new(), current_line: 1 }
    }

    /// Sets the source line that the instructions emitted from now on carry.
    pub fn set_line(&mut self, line: usize)
        ensures
            final(self)@ == (CompilerView { program: old(self)@.program, line }),
    {
        self.current_line = line;
    }

    fn emit(&mut self, opcode: Opcode)
        ensures
            final(self)@ == (CompilerView {
                program: old(self)@.program.emit(opcode, old(self)@.line),
                line: old(self)@.line,
            }),
    {
        self.program.add_instruction(opcode, self.current_line);
    }

    fn patch(&mut self, index: usize, opcode: Opcode)
        requires
            index < old(self)@.program.instructions.len(),
        ensures
            final(self)@ == (CompilerView {
                program: old(self)@.program.patch(index as int, opcode),
                line: old(self)@.line,
            }),
    {
        let line_number = self.program.instructions[index].line_number;
        self.program.instructions.set(index, Instruction::new(opcode, line_number));
    }

    fn size(&self) -> (count: usize)
        ensures
            count == self@.program.instructions.len(),
            indexable(self@.program),
    {
        let _strings = self.program.string_pool.len();
        let _variables = self.program.variable_names.len();
        self.program.instructions.len()
    }


    fn declare(&mut self, name: &String) -> (slot: usize)
        ensures
            slot == slot_of(old(self)@.program.variable_names, name@),
            final(self)@ == (CompilerView {
                program: old(self)@.program.with_variable(name@),
                line: old(self)@.line,
            }),
    {
        self.program.add_variable(name.clone())
    }

    fn load_variable(&mut self, name: &String)
        ensures
            final(self)@ == (CompilerView {
                program: load(old(self)@.program, name@, old(self)@.line),
                line: old(self)@.line,
            }),
    {
        let slot = self.declare(name);
        self.emit(Opcode::LoadVariable(slot));
    }

    fn push_string(&mut self, text: String)
        ensures
            final(self)@ == (CompilerView {
                program: push_text(old(self)@.program, text@, old(self)@.line),
                line: old(self)@.line,
            }),
    {
        let index = self.program.add_string(text);
        self.emit(Opcode::PushString(index));
    }

    fn compile_part(&mut self, part: &String, kind: PartKind)
        ensures
            final(self)@ == (CompilerView {
                program: emit_part(old(self)@.program, part@, kind, old(self)@.line),
                line: old(self)@.line,
            }),
    {
        match kind {
            PartKind::Variable => self.load_variable(part),
            PartKind::ConcatPart => match delimited_inner(part, '"', '"') {
                Some(literal) => self.push_string(literal),
                None => self.load_variable(part),
            },
            PartKind::PrintPart => match delimited_inner(part, '{', '}') {
                Some(name) => self.load_variable(&name),
                None => self.push_string(part.clone()),
            },
        }
    }

    fn compile_joined(&mut self, parts: &Vec<String>, kind: PartKind, joiner: Opcode)
        ensures
            final(self)@ == (CompilerView {
                program: emit_joined(
                    old(self)@.program,
                    texts(parts@),
                    kind,
                    joiner,
                    old(self)@.line,
                ),
                line: old(self)@.line,
            }),
    {
        let ghost all = texts(parts@);
        let mut i: usize = 0;
        while i < parts.len()
            invariant
                i <= parts.len(),
                all == texts(parts@),
                self@.line == old(self)@.line,
                self@.program == emit_joined(
                    old(self)@.program,
                    all.take(i as int),
                    kind,
                    joiner,
                    old(self)@.line,
                ),
            decreases parts.len() - i,
        {
            proof {
                assert(all.take(i + 1).drop_last() == all.take(i as int));
                assert(all.take(i + 1).last() == parts@[i as int]@);
            }
            self.compile_part(&parts[i], kind);
            if i > 0 {
                self.emit(joiner);
            }
            i = i + 1;
        }
        proof {
            assert(all.take(parts.len() as int) == all);
        }
    }

    fn compile_assignment(
        &mut self,
        target: &String,
        parts: &Vec<String>,
        kind: PartKind,
        joiner: Opcode,
        message: &'static str,
    ) -> (result: Result<(), NepalError>)
        ensures
            outcome_of(
                old(self)@,
                final(self)@,
                result,
                emit_assignment(
                    old(self)@.program,
                    target@,
                    texts(parts@),
                    kind,
                    joiner,
                    message@,
                    old(self)@.line,
                ),
            ),
    {
        if parts.len() == 0 {
            return Err(NepalError::RuntimeError(message));
        }
        let slot = self.declare(target);
        self.compile_joined(parts, kind, joiner);
        self.emit(Opcode::StoreVariable(slot));
        Ok(())
    }

    fn compile_declaration(&mut self, name: &String, value: &Value)
        ensures
            final(self)@ == (CompilerView {
                program: emit_declaration(old(self)@.program, name@, value@, old(self)@.line),
                line: old(self)@.line,
            }),
    {
        let slot = self.declare(name);
        match value {
            Value::Number(n) => self.emit(Opcode::PushNumber(*n)),
            Value::String(s) => self.push_string(s.clone()),
        }
        self.emit(Opcode::StoreVariable(slot));
    }

    fn compile_addition(&mut self, target: &String, sources: &Vec<String>) -> (result: Result<
        (),
        NepalError,
    >)
        ensures
            outcome_of(
                old(self)@,
                final(self)@,
                result,
                emit_statement(
                    old(self)@.program,
                    StatementView::Addition(target@, texts(sources@)),
                    old(self)@.line,
                ),
            ),
    {
        self.compile_assignment(
            target,
            sources,
            PartKind::Variable,
            Opcode::Add,
            "Addition requires at least one source variable",
        )
    }

    fn compile_subtraction(&mut self, target: &String, sources: &Vec<String>) -> (result: Result<
        (),
        NepalError,
    >)
        ensures
            outcome_of(
                old(self)@,
                final(self)@,
                result,
                emit_statement(
                    old(self)@.program,
                    StatementView::Subtraction(target@, texts(sources@)),
                    old(self)@.line,
                ),
            ),
    {
        self.compile_assignment(
            target,
            sources,
            PartKind::Variable,
            Opcode::Subtract,
            "Subtraction requires at least one source variable",
        )
    }

    fn compile_string_concat(&mut self, target: &String, parts: &Vec<String>) -> (result: Result<
        (),
        NepalError,
    >)
        ensures
            outcome_of(
                old(self)@,
                final(self)@,
                result,
                emit_statement(
                    old(self)@.program,
                    StatementView::StringConcat(target@, texts(parts@)),
                    old(self)@.line,
                ),
            ),
    {
        self.compile_assignment(
            target,
            parts,
            PartKind::ConcatPart,
            Opcode::Concat,
            "String concatenation requires at least one part",
        )
    }

    fn compile_print_variable(&mut self, name: &String)
        ensures
            final(self)@ == (CompilerView {
                program: load(old(self)@.program, name@, old(self)@.line).emit(
                    Opcode::Print,
                    old(self)@.line,
                ),
                line: old(self)@.line,
            }),
    {
        self.load_variable(name);
        self.emit(Opcode::Print);
    }

    fn compile_print_string(&mut self, parts: &Vec<String>)
        ensures
            final(self)@ == (CompilerView {
                program: emit_print_string(old(self)@.program, texts(parts@), old(self)@.line),
                line: old(self)@.line,
            }),
    {
        if parts.len() == 0 {
            return ;
        }
        self.compile_joined(parts, PartKind::PrintPart, Opcode::Concat);
        self.emit(Opcode::Print);
    }

    fn compile_input(&mut self, name: &String)
        ensures
            final(self)@ == (CompilerView {
                program: emit_statement(
                    old(self)@.program,
                    StatementView::Input(name@),
                    old(self)@.line,
                ).program,
                line: old(self)@.line,
            }),
    {
        let slot = self.declare(name);
        self.emit(Opcode::Input);
        self.emit(Opcode::StoreVariable(slot));
    }

    fn compile_condition(&mut self, condition: &Condition)
        ensures
            final(self)@ == (CompilerView {
                program: emit_condition(old(self)@.program, condition@, old(self)@.line),
                line: old(self)@.line,
            }),
    {
        match condition {
            Condition::Equals(name, literal) => {
                self.load_variable(name);
                self.push_string(literal.clone());
                self.emit(Opcode::Equal);
            },
            Condition::NotEquals(name, literal) => {
                self.load_variable(name);
                self.push_string(literal.clone());
                self.emit(Opcode::NotEqual);
            },
        }
    }

    #[verifier::loop_isolation(false)]
    fn compile_conditional(&mut self, statement: &Statement) -> (result: Result<(), NepalError>)
        requires
            *statement is If,
        ensures
            outcome_of(
                old(self)@,
                final(self)@,
                result,
                emit_statement(old(self)@.program, statement@, old(self)@.line),
            ),
        decreases statement, 0nat,
    {
        let ghost line = self@.line;
        match statement {
            Statement::If(condition, then_branch, else_branch) => {
                let ghost then_view = block_view(then_branch@);
                self.compile_condition(condition);
                let jump_index = self.size();
                self.emit(Opcode::JumpIfFalse(0));
                let ghost entered = self@.program;
                let mut i: usize = 0;
                while i < then_branch.len()
                    invariant
                        i <= then_branch.len(),
                        *statement matches Statement::If(_, branch, _) && branch == *then_branch,
                        then_view == block_view(then_branch@),
                        self@.line == line,
                        emit_block(entered, then_view.take(i as int), line) == emitted(
                            self@.program,
                        ),
                        jump_index < self@.program.instructions.len(),
                    decreases then_branch.len() - i,
                {
                    let ghost before = self@.program;
                    proof {
                        assert(then_view.take(i + 1).drop_last() == then_view.take(i as int));
                        assert(then_view.take(i + 1).last() == statement_view(
                            then_branch@[i as int],
                        ));
                        lemma_statement_extends(
                            before,
                            statement_view(then_branch@[i as int]),
                            line,
                        );
                    }
                    let result = self.compile_statement(&then_branch[i]);
                    if let Err(e) = result {
                        proof {
                            lemma_block_stops_at_failure(entered, then_view, i + 1, line);
                        }
                        return Err(e);
                    }
                    i = i + 1;
                }
                proof {
                    assert(then_view.take(then_branch.len() as int) == then_view);
                }
                match else_branch {
                    None => {
                        let after_then = self.size();
                        self.patch(jump_index, Opcode::JumpIfFalse(after_then));
                        Ok(())
                    },
                    Some(else_statement) => {
                        let else_jump_index = self.size();
                        self.emit(Opcode::Jump(0));
                        let after_then = self.size();
                        self.patch(jump_index, Opcode::JumpIfFalse(after_then));
                        proof {
                            lemma_statement_extends(
                                self@.program,
                                statement_view(**else_statement),
                                line,
                            );
                        }
                        let result = self.compile_statement(else_statement);
                        if let Err(e) = result {
                            return Err(e);
                        }
                        let after_else = self.size();
                        self.patch(else_jump_index, Opcode::Jump(after_else));
                        Ok(())
                    },
                }
            },
            _ => Ok(()),
        }
    }

    fn compile_statement(&mut self, statement: &Statement) -> (result: Result<(), NepalError>)
        ensures
            outcome_of(
                old(self)@,
                final(self)@,
                result,
                emit_statement(old(self)@.program, statement@, old(self)@.line),
            ),
        decreases statement, 1nat,
    {
        match statement {
            Statement::Declaration(name, value) => {
                self.compile_declaration(name, value);
                Ok(())
            },
            Statement::Addition(target, sources) => self.compile_addition(target, sources),
            Statement::Subtraction(target, sources) => self.compile_subtraction(target, sources),
            Statement::StringConcat(target, parts) => self.compile_string_concat(target, parts),
            Statement::Print(name) => {
                self.compile_print_variable(name);
                Ok(())
            },
            Statement::PrintString(parts) => {
                self.compile_print_string(parts);
                Ok(())
            },
            Statement::Input(name) => {
                self.compile_input(name);
                Ok(())
            },
            Statement::If(_, _, _) => self.compile_conditional(statement),
        }
    }

    /// Compiles `statements` after what this compiler has compiled before
    /// and returns the program, ended by `halt`. An addition, subtraction or
    /// concatenation without operands, at the top or in a branch, is an
    /// error: compilation stops there and no program is returned. Nothing
    /// else is an error.
    ///
    /// In the program returned every jump that this call emitted goes
    /// forward to an instruction of the program, and every pool index that
    /// it emitted refers to an entry of its pool. Pools that held no text
    /// twice hold none twice afterwards.
    #[verifier::loop_isolation(false)]
    pub fn compile(&mut self, statements: Vec<Statement>) -> (result: Result<
        BytecodeProgram,
        NepalError,
    >)
        ensures
            final(self)@.line == old(self)@.line,
            final(self)@.program == compiled(
                old(self)@.program,
                block_view(statements@),
                old(self)@.line,
            ).program,
            match compiled(old(self)@.program, block_view(statements@), old(self)@.line).failure {
                None => result matches Ok(program) && program@ == final(self)@.program,
                Some(message) => result matches Err(e) && e@ == ErrorView::RuntimeError(message),
            },
            result is Ok <==> all_have_operands(block_view(statements@)),
            result is Ok ==> jumps_valid(
                final(self)@.program,
                old(self)@.program.instructions.len() as int,
            ),
            operands_valid(final(self)@.program, old(self)@.program.instructions.len() as int),
            old(self)@.program.well_formed() ==> final(self)@.program.well_formed(),
    {
        let ghost start = self@.program;
        let ghost line = self@.line;
        let ghost script = block_view(statements@);
        let mut i: usize = 0;
        while i < statements.len()
            invariant
                i <= statements.len(),
                script == block_view(statements@),
                self@.line == line,
                emit_block(start, script.take(i as int), line) == emitted(self@.program),
            decreases statements.len() - i,
        {
            proof {
                assert(script.take(i + 1).drop_last() == script.take(i as int));
                assert(script.take(i + 1).last() == statement_view(statements@[i as int]));
            }
            let result = self.compile_statement(&statements[i]);
            if let Err(e) = result {
                let _size = self.size();
                proof {
                    lemma_block_stops_at_failure(start, script, i + 1, line);
                    lemma_compiled_pools(start, script, line);
                    lemma_block_compiles(start, script, line);
                }
                return Err(e);
            }
            i = i + 1;
        }
        proof {
            assert(script.take(statements.len() as int) == script);
        }
        self.emit(Opcode::Halt);
        let _size = self.size();
        proof {
            lemma_compiled_jumps_valid(start, script, line);
            lemma_compiled_pools(start, script, line);
            lemma_block_compiles(start, script, line);
        }
        Ok(self.program.clone())
    }
}

} // verus!
