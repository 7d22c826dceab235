//! Where the jumps of compiled code go, and that code whose jumps all go
//! forward cannot loop.

use vstd::prelude::*;
use crate::ast::{ConditionView, StatementView};
use crate::bytecode::{Opcode, ProgramView};
use crate::vm::{MachineView, SignalView, run_spec, step_spec};
use crate::compiler::{PartKind, compiled, emit_block, emit_condition, emit_joined,
    emit_statement, extends, lemma_block_extends, lemma_joined_extends, lemma_statement_extends};

verus! {

/// The address that `opcode` may continue at, if it is a jump.
pub open spec fn jump_target(opcode: Opcode) -> Option<usize> {
    match opcode {
        Opcode::JumpIfTrue(address) => Some(address),
        Opcode::JumpIfFalse(address) => Some(address),
        Opcode::Jump(address) => Some(address),
        _ => None,
    }
}

/// No instruction of `p` from index `from` on is a jump.
pub open spec fn no_jumps(p: ProgramView, from: int) -> bool {
    forall|i: int|
        from <= i < p.instructions.len() ==> (#[trigger] jump_target(p.instructions[i].opcode))
            is None
}

/// Every jump of `p` from index `from` on goes forward, at most to the index
/// after the last instruction.
pub open spec fn jumps_forward(p: ProgramView, from: int) -> bool {
    forall|i: int|
        from <= i < p.instructions.len() ==> match #[trigger] jump_target(
            p.instructions[i].opcode,
        ) {
            Some(address) => i < address <= p.instructions.len(),
            None => true,
        }
}

/// Every jump of `p` from index `from` on goes forward to an instruction of `p`.
pub open spec fn jumps_valid(p: ProgramView, from: int) -> bool {
    forall|i: int|
        from <= i < p.instructions.len() ==> match #[trigger] jump_target(
            p.instructions[i].opcode,
        ) {
            Some(address) => i < address < p.instructions.len(),
            None => true,
        }
}

/// The code of an operand list holds no jump.
pub proof fn lemma_joined_has_no_jumps(
    p: ProgramView,
    parts: Seq<Seq<char>>,
    kind: PartKind,
    joiner: Opcode,
    line: usize,
)
    requires
        jump_target(joiner) is None,
    ensures
        extends(p, emit_joined(p, parts, kind, joiner, line)),
        no_jumps(emit_joined(p, parts, kind, joiner, line), p.instructions.len() as int),
    decreases parts.len(),
{
    lemma_joined_extends(p, parts, kind, joiner, line);
    if parts.len() > 1 {
        lemma_joined_has_no_jumps(p, parts.drop_last(), kind, joiner, line);
        let shorter = emit_joined(p, parts.drop_last(), kind, joiner, line);
        let result = emit_joined(p, parts, kind, joiner, line);
        assert forall|i: int| p.instructions.len() <= i < result.instructions.len() implies (
        #[trigger] jump_target(result.instructions[i].opcode)) is None by {
            if i < shorter.instructions.len() {
                assert(result.instructions[i] == shorter.instructions[i]);
            }
        }
    }
}

/// Jump-target soundness of a compiled conditional. The `jump-if-false`
/// stands right after the three instructions of the condition. Without an
/// else branch its target is the index after the last instruction of the
/// then branch, which is where the conditional ends. With an else branch
/// the unconditional `jump` stands at that index, the target of the
/// `jump-if-false` is the index after that `jump`, and the target of the
/// `jump` is the index after the last instruction of the else branch, which
/// is where the conditional ends.
pub proof fn lemma_conditional_jump_targets(
    p: ProgramView,
    condition: ConditionView,
    then_branch: Seq<StatementView>,
    else_branch: Option<Box<StatementView>>,
    line: usize,
)
    requires
        emit_statement(p, StatementView::If(condition, then_branch, else_branch), line).failure
            is None,
        emit_statement(
            p,
            StatementView::If(condition, then_branch, else_branch),
            line,
        ).program.instructions.len() <= usize::MAX,
    ensures
        ({
            let result = emit_statement(
                p,
                StatementView::If(condition, then_branch, else_branch),
                line,
            ).program.instructions;
            let jump_at = p.instructions.len() as int + 3;
            let then_end = emit_block(
                emit_condition(p, condition, line).emit(Opcode::JumpIfFalse(0), line),
                then_branch,
                line,
            ).program.instructions.len();
            &&& jump_at < then_end <= result.len()
            &&& match else_branch {
                None => {
                    &&& result[jump_at].opcode == Opcode::JumpIfFalse(then_end as usize)
                    &&& result.len() == then_end
                },
                Some(statement) => {
                    &&& result[jump_at].opcode == Opcode::JumpIfFalse((then_end + 1) as usize)
                    &&& result[then_end as int].opcode == Opcode::Jump(result.len() as usize)
                    &&& then_end < result.len()
                },
            }
        }),
{
    let head = emit_condition(p, condition, line);
    let entered = head.emit(Opcode::JumpIfFalse(0), line);
    lemma_block_extends(entered, then_branch, line);
    let then_result = emit_block(entered, then_branch, line);
    match else_branch {
        None => {},
        Some(statement) => {
            let skipping = then_result.program.emit(Opcode::Jump(0), line);
            let patched = skipping.patch(
                head.instructions.len() as int,
                Opcode::JumpIfFalse(skipping.instructions.len() as usize),
            );
            lemma_statement_extends(patched, *statement, line);
        },
    }
}

/// Every jump that compiling a statement emits goes forward and stays
/// within the code of that statement, or lands just after it.
pub proof fn lemma_statement_jumps_forward(p: ProgramView, statement: StatementView, line: usize)
    requires
        emit_statement(p, statement, line).failure is None,
        emit_statement(p, statement, line).program.instructions.len() <= usize::MAX,
    ensures
        jumps_forward(emit_statement(p, statement, line).program, p.instructions.len() as int),
    decreases statement,
{
    let result = emit_statement(p, statement, line).program;
    let start = p.instructions.len() as int;
    match statement {
        StatementView::Addition(target, sources) => {
            lemma_joined_has_no_jumps(
                p.with_variable(target),
                sources,
                PartKind::Variable,
                Opcode::Add,
                line,
            );
        },
        StatementView::Subtraction(target, sources) => {
            lemma_joined_has_no_jumps(
                p.with_variable(target),
                sources,
                PartKind::Variable,
                Opcode::Subtract,
                line,
            );
        },
        StatementView::StringConcat(target, parts) => {
            lemma_joined_has_no_jumps(
                p.with_variable(target),
                parts,
                PartKind::ConcatPart,
                Opcode::Concat,
                line,
            );
        },
        StatementView::PrintString(parts) => {
            lemma_joined_has_no_jumps(p, parts, PartKind::PrintPart, Opcode::Concat, line);
        },
        StatementView::If(condition, then_branch, else_branch) => {
            let head = emit_condition(p, condition, line);
            let jump_at = head.instructions.len() as int;
            let entered = head.emit(Opcode::JumpIfFalse(0), line);
            let then_result = emit_block(entered, then_branch, line).program;
            lemma_block_extends(entered, then_branch, line);
            lemma_statement_extends(p, statement, line);
            lemma_conditional_jump_targets(p, condition, then_branch, else_branch, line);
            match else_branch {
                None => {
                    lemma_block_jumps_forward(entered, then_branch, line);
                    assert forall|i: int| start <= i < result.instructions.len() implies match (
                    #[trigger] jump_target(result.instructions[i].opcode)) {
                        Some(address) => i < address <= result.instructions.len(),
                        None => true,
                    } by {
                        if i < jump_at {
                            assert(result.instructions[i] == head.instructions[i]);
                        } else if i > jump_at {
                            assert(result.instructions[i] == then_result.instructions[i]);
                        }
                    }
                },
                Some(else_statement) => {
                    let else_jump_at = then_result.instructions.len() as int;
                    let skipping = then_result.emit(Opcode::Jump(0), line);
                    let patched = skipping.patch(
                        jump_at,
                        Opcode::JumpIfFalse(skipping.instructions.len() as usize),
                    );
                    let else_result = emit_statement(patched, *else_statement, line).program;
                    lemma_statement_extends(patched, *else_statement, line);
                    lemma_block_jumps_forward(entered, then_branch, line);
                    lemma_statement_jumps_forward(patched, *else_statement, line);
                    assert forall|i: int| start <= i < result.instructions.len() implies match (
                    #[trigger] jump_target(result.instructions[i].opcode)) {
                        Some(address) => i < address <= result.instructions.len(),
                        None => true,
                    } by {
                        if i < jump_at {
                            assert(result.instructions[i] == head.instructions[i]);
                        } else if i == jump_at {
                        } else if i < else_jump_at {
                            assert(result.instructions[i] == then_result.instructions[i]);
                            assert(jump_target(then_result.instructions[i].opcode) matches Some(
                                address,
                            ) ==> address <= else_jump_at);
                        } else if i == else_jump_at {
                        } else {
                            assert(result.instructions[i] == else_result.instructions[i]);
                        }
                    }
                },
            }
        },
        _ => {},
    }
}

/// Every jump that compiling a block emits goes forward and stays within
/// the code of that block, or lands just after it.
pub proof fn lemma_block_jumps_forward(p: ProgramView, block: Seq<StatementView>, line: usize)
    requires
        emit_block(p, block, line).failure is None,
        emit_block(p, block, line).program.instructions.len() <= usize::MAX,
    ensures
        jumps_forward(emit_block(p, block, line).program, p.instructions.len() as int),
    decreases block,
{
    if block.len() > 0 {
        let before = emit_block(p, block.drop_last(), line).program;
        let result = emit_block(p, block, line).program;
        lemma_block_extends(p, block.drop_last(), line);
        lemma_statement_extends(before, block.last(), line);
        lemma_block_jumps_forward(p, block.drop_last(), line);
        lemma_statement_jumps_forward(before, block.last(), line);
        assert forall|i: int| p.instructions.len() <= i < result.instructions.len() implies match (
        #[trigger] jump_target(result.instructions[i].opcode)) {
            Some(address) => i < address <= result.instructions.len(),
            None => true,
        } by {
            if i < before.instructions.len() {
                assert(result.instructions[i] == before.instructions[i]);
                assert(jump_target(before.instructions[i].opcode) matches Some(address)
                    ==> address <= before.instructions.len());
            }
        }
    }
}

/// In a compiled script every jump goes forward to an instruction of the
/// program: no target is left as a placeholder, and none points outside.
pub proof fn lemma_compiled_jumps_valid(p: ProgramView, script: Seq<StatementView>, line: usize)
    requires
        compiled(p, script, line).failure is None,
        compiled(p, script, line).program.instructions.len() <= usize::MAX,
    ensures
        jumps_valid(compiled(p, script, line).program, p.instructions.len() as int),
{
    let body = emit_block(p, script, line).program;
    let result = compiled(p, script, line).program;
    lemma_block_jumps_forward(p, script, line);
    assert forall|i: int| p.instructions.len() <= i < result.instructions.len() implies match (
    #[trigger] jump_target(result.instructions[i].opcode)) {
        Some(address) => i < address < result.instructions.len(),
        None => true,
    } by {
        if i < body.instructions.len() {
            assert(result.instructions[i] == body.instructions[i]);
            assert(jump_target(body.instructions[i].opcode) matches Some(address) ==> address
                <= body.instructions.len());
        }
    }
}

/// A step that has nothing to report moves the instruction pointer forward
/// if every jump of the program goes forward.
pub proof fn lemma_step_moves_forward(m: MachineView)
    requires
        jumps_forward(m.program, 0),
        m.program.instructions.len() <= usize::MAX,
        m.ip < m.program.instructions.len(),
        step_spec(m).outcome == Ok::<SignalView, Seq<char>>(SignalView::Continue),
    ensures
        m.ip < step_spec(m).machine.ip <= m.program.instructions.len(),
        step_spec(m).machine.program == m.program,
{
    assert(jump_target(m.program.instructions[m.ip as int].opcode) matches Some(address) ==> m.ip
        < address <= m.program.instructions.len());
}

/// A program whose jumps all go forward cannot loop: a run with a budget of
/// at least as many instructions as lie ahead does not use the budget up.
/// It ends in a halt, an output, a request for input or an error.
pub proof fn lemma_forward_jumps_end(m: MachineView, budget: nat)
    requires
        jumps_forward(m.program, 0),
        m.program.instructions.len() <= usize::MAX,
        budget >= m.program.instructions.len() - m.ip,
    ensures
        run_spec(m, budget).outcome != Ok::<SignalView, Seq<char>>(SignalView::Continue),
    decreases budget,
{
    if m.running && m.ip < m.program.instructions.len() {
        let step = step_spec(m);
        if step.outcome == Ok::<SignalView, Seq<char>>(SignalView::Continue) {
            lemma_step_moves_forward(m);
            lemma_forward_jumps_end(step.machine, (budget - 1) as nat);
        }
    }
}

} // verus!
