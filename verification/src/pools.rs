//! The pools of compiled code: they stay sets, every index that an
//! instruction carries refers into them, and a machine that runs such code
//! never fails on an index.

use vstd::prelude::*;
use crate::ast::{ConditionView, LiteralView, StatementView};
use crate::bytecode::{Opcode, ProgramView, lemma_insert_keeps_distinct, lemma_slot_of, slot_of};
use crate::vm::{MachineView, SignalView, Step, run_spec, step_spec};
use crate::compiler::{PartKind, compiled, emit_block, emit_condition, emit_joined, emit_part,
    emit_statement, extends, inner, lemma_block_extends, lemma_joined_extends,
    lemma_statement_extends};

verus! {

/// Every instruction of `p` from index `from` on that carries a pool index
/// carries one that the pool has.
pub open spec fn operands_valid(p: ProgramView, from: int) -> bool {
    forall|i: int|
        from <= i < p.instructions.len() ==> match (#[trigger] p.instructions[i]).opcode {
            Opcode::PushString(index) => index < p.string_pool.len(),
            Opcode::PushVariable(index) => index < p.variable_names.len(),
            Opcode::StoreVariable(index) => index < p.variable_names.len(),
            Opcode::LoadVariable(index) => index < p.variable_names.len(),
            _ => true,
        }
}

/// The pools of `p` hold no more entries than an index can count.
pub open spec fn indexable(p: ProgramView) -> bool {
    p.string_pool.len() <= usize::MAX && p.variable_names.len() <= usize::MAX
}

/// What was valid in a program stays valid in one that extends it.
pub proof fn lemma_operands_stay_valid(before: ProgramView, after: ProgramView, from: int)
    requires
        0 <= from,
        extends(before, after),
        operands_valid(before, from),
        operands_valid(after, before.instructions.len() as int),
    ensures
        operands_valid(after, from),
{
    assert forall|i: int| from <= i < after.instructions.len() implies match (
    #[trigger] after.instructions[i]).opcode {
        Opcode::PushString(index) => index < after.string_pool.len(),
        Opcode::PushVariable(index) => index < after.variable_names.len(),
        Opcode::StoreVariable(index) => index < after.variable_names.len(),
        Opcode::LoadVariable(index) => index < after.variable_names.len(),
        _ => true,
    } by {
        if i < before.instructions.len() {
            assert(after.instructions[i] == before.instructions[i]);
        }
    }
}

/// The code of an operand list keeps the pools free of duplicates and
/// refers only to entries that the pools have.
pub proof fn lemma_joined_pools(
    p: ProgramView,
    parts: Seq<Seq<char>>,
    kind: PartKind,
    joiner: Opcode,
    line: usize,
)
    requires
        joiner == Opcode::Add || joiner == Opcode::Subtract || joiner == Opcode::Concat,
        indexable(emit_joined(p, parts, kind, joiner, line)),
    ensures
        p.well_formed() ==> emit_joined(p, parts, kind, joiner, line).well_formed(),
        operands_valid(emit_joined(p, parts, kind, joiner, line), p.instructions.len() as int),
    decreases parts.len(),
{
    let result = emit_joined(p, parts, kind, joiner, line);
    if parts.len() == 0 {
    } else {
        let shorter = if parts.len() == 1 {
            p
        } else {
            emit_joined(p, parts.drop_last(), kind, joiner, line)
        };
        lemma_joined_extends(p, parts, kind, joiner, line);
        if parts.len() > 1 {
            lemma_joined_extends(p, parts.drop_last(), kind, joiner, line);
            lemma_joined_pools(p, parts.drop_last(), kind, joiner, line);
        }
        let part = parts.last();
        assert(parts.len() == 1 ==> part == parts[0]);
        lemma_part_pools(shorter, part, kind, line);
        lemma_operands_stay_valid(shorter, result, p.instructions.len() as int);
    }
}

/// The code of one part keeps the pools free of duplicates and refers only
/// to entries that the pools have.
pub proof fn lemma_part_pools(p: ProgramView, part: Seq<char>, kind: PartKind, line: usize)
    requires
        indexable(emit_part(p, part, kind, line)),
    ensures
        p.well_formed() ==> emit_part(p, part, kind, line).well_formed(),
        operands_valid(emit_part(p, part, kind, line), p.instructions.len() as int),
{
    let text = inner(part);
    lemma_slot_of(p.variable_names, part);
    lemma_slot_of(p.variable_names, text);
    lemma_slot_of(p.string_pool, part);
    lemma_slot_of(p.string_pool, text);
    if p.well_formed() {
        lemma_insert_keeps_distinct(p.variable_names, part);
        lemma_insert_keeps_distinct(p.variable_names, text);
        lemma_insert_keeps_distinct(p.string_pool, part);
        lemma_insert_keeps_distinct(p.string_pool, text);
    }
}

/// Entering a variable and storing into its slot later, after code that
/// only appends, refers to an entry that the table has.
proof fn lemma_declared_slot(p: ProgramView, name: Seq<char>, after: ProgramView)
    requires
        extends(p.with_variable(name), after),
    ensures
        slot_of(p.variable_names, name) < after.variable_names.len(),
        p.well_formed() ==> p.with_variable(name).well_formed(),
{
    lemma_slot_of(p.variable_names, name);
    if p.well_formed() {
        lemma_insert_keeps_distinct(p.variable_names, name);
    }
}

/// Compiling a statement keeps the pools free of duplicates, and every pool
/// index in its code refers to an entry that the pools have.
pub proof fn lemma_statement_pools(p: ProgramView, statement: StatementView, line: usize)
    requires
        indexable(emit_statement(p, statement, line).program),
    ensures
        p.well_formed() ==> emit_statement(p, statement, line).program.well_formed(),
        operands_valid(emit_statement(p, statement, line).program, p.instructions.len() as int),
    decreases statement,
{
    let result = emit_statement(p, statement, line).program;
    let start = p.instructions.len() as int;
    match statement {
        StatementView::Declaration(name, value) => {
            let declared = p.with_variable(name);
            lemma_declared_slot(p, name, declared);
            match value {
                LiteralView::Number(n) => {},
                LiteralView::String(text) => {
                    lemma_slot_of(declared.string_pool, text);
                    if p.well_formed() {
                        lemma_insert_keeps_distinct(declared.string_pool, text);
                    }
                },
            }
        },
        StatementView::Addition(target, sources) => {
            lemma_assignment_pools(p, target, sources, PartKind::Variable, Opcode::Add, line);
        },
        StatementView::Subtraction(target, sources) => {
            lemma_assignment_pools(p, target, sources, PartKind::Variable, Opcode::Subtract, line);
        },
        StatementView::StringConcat(target, parts) => {
            lemma_assignment_pools(p, target, parts, PartKind::ConcatPart, Opcode::Concat, line);
        },
        StatementView::Print(name) => {
            lemma_part_pools(p, name, PartKind::Variable, line);
        },
        StatementView::PrintString(parts) => {
            if parts.len() > 0 {
                let joined = emit_joined(p, parts, PartKind::PrintPart, Opcode::Concat, line);
                lemma_joined_pools(p, parts, PartKind::PrintPart, Opcode::Concat, line);
                lemma_joined_extends(p, parts, PartKind::PrintPart, Opcode::Concat, line);
                assert forall|i: int| start <= i < result.instructions.len() implies match (
                #[trigger] result.instructions[i]).opcode {
                    Opcode::PushString(index) => index < result.string_pool.len(),
                    Opcode::PushVariable(index) => index < result.variable_names.len(),
                    Opcode::StoreVariable(index) => index < result.variable_names.len(),
                    Opcode::LoadVariable(index) => index < result.variable_names.len(),
                    _ => true,
                } by {
                    if i < joined.instructions.len() {
                        assert(result.instructions[i] == joined.instructions[i]);
                    }
                }
            }
        },
        StatementView::Input(name) => {
            lemma_declared_slot(p, name, p.with_variable(name));
        },
        StatementView::If(condition, then_branch, else_branch) => {
            let head = emit_condition(p, condition, line);
            let jump_at = head.instructions.len() as int;
            let entered = head.emit(Opcode::JumpIfFalse(0), line);
            let then_result = emit_block(entered, then_branch, line);
            lemma_block_extends(entered, then_branch, line);
            lemma_statement_extends(p, statement, line);
            if then_result.failure is Some {
                lemma_condition_pools(p, condition, line);
                lemma_block_pools(entered, then_branch, line);
                lemma_operands_stay_valid(entered, result, start);
            } else {
                match else_branch {
                    None => {
                        lemma_condition_pools(p, condition, line);
                        lemma_block_pools(entered, then_branch, line);
                        lemma_operands_stay_valid(entered, then_result.program, start);
                        assert forall|i: int| start <= i < result.instructions.len() implies match (
                        #[trigger] result.instructions[i]).opcode {
                            Opcode::PushString(index) => index < result.string_pool.len(),
                            Opcode::PushVariable(index) => index < result.variable_names.len(),
                            Opcode::StoreVariable(index) => index < result.variable_names.len(),
                            Opcode::LoadVariable(index) => index < result.variable_names.len(),
                            _ => true,
                        } by {
                            if i != jump_at {
                                assert(result.instructions[i] == then_result.program.instructions[i]);
                            }
                        }
                    },
                    Some(else_statement) => {
                        let else_jump_at = then_result.program.instructions.len() as int;
                        let skipping = then_result.program.emit(Opcode::Jump(0), line);
                        let patched = skipping.patch(
                            jump_at,
                            Opcode::JumpIfFalse(skipping.instructions.len() as usize),
                        );
                        let else_result = emit_statement(patched, *else_statement, line);
                        lemma_statement_extends(patched, *else_statement, line);
                        lemma_condition_pools(p, condition, line);
                        lemma_block_pools(entered, then_branch, line);
                        lemma_operands_stay_valid(entered, then_result.program, start);
                        assert(operands_valid(patched, start)) by {
                            assert forall|i: int| start <= i < patched.instructions.len() implies match (
                            #[trigger] patched.instructions[i]).opcode {
                                Opcode::PushString(index) => index < patched.string_pool.len(),
                                Opcode::PushVariable(index) => index < patched.variable_names.len(),
                                Opcode::StoreVariable(index) => index < patched.variable_names.len(),
                                Opcode::LoadVariable(index) => index < patched.variable_names.len(),
                                _ => true,
                            } by {
                                if i != jump_at && i != else_jump_at {
                                    assert(patched.instructions[i]
                                        == then_result.program.instructions[i]);
                                }
                            }
                        }
                        lemma_statement_pools(patched, *else_statement, line);
                        lemma_operands_stay_valid(patched, else_result.program, start);
                        assert forall|i: int| start <= i < result.instructions.len() implies match (
                        #[trigger] result.instructions[i]).opcode {
                            Opcode::PushString(index) => index < result.string_pool.len(),
                            Opcode::PushVariable(index) => index < result.variable_names.len(),
                            Opcode::StoreVariable(index) => index < result.variable_names.len(),
                            Opcode::LoadVariable(index) => index < result.variable_names.len(),
                            _ => true,
                        } by {
                            if i != else_jump_at || else_result.failure is Some {
                                assert(result.instructions[i] == else_result.program.instructions[i]);
                            }
                        }
                    },
                }
            }
        },
    }
}

/// The code of a condition keeps the pools free of duplicates and refers
/// only to entries that the pools have.
proof fn lemma_condition_pools(p: ProgramView, condition: ConditionView, line: usize)
    requires
        indexable(emit_condition(p, condition, line)),
    ensures
        p.well_formed() ==> emit_condition(p, condition, line).well_formed(),
        operands_valid(
            emit_condition(p, condition, line).emit(Opcode::JumpIfFalse(0), line),
            p.instructions.len() as int,
        ),
        extends(p, emit_condition(p, condition, line).emit(Opcode::JumpIfFalse(0), line)),
{
    let (name, literal) = match condition {
        ConditionView::Equals(name, literal) => (name, literal),
        ConditionView::NotEquals(name, literal) => (name, literal),
    };
    lemma_slot_of(p.variable_names, name);
    lemma_slot_of(p.string_pool, literal);
    if p.well_formed() {
        lemma_insert_keeps_distinct(p.variable_names, name);
        lemma_insert_keeps_distinct(p.string_pool, literal);
    }
}

/// The code of an assignment keeps the pools free of duplicates and refers
/// only to entries that the pools have.
proof fn lemma_assignment_pools(
    p: ProgramView,
    target: Seq<char>,
    parts: Seq<Seq<char>>,
    kind: PartKind,
    joiner: Opcode,
    line: usize,
)
    requires
        joiner == Opcode::Add || joiner == Opcode::Subtract || joiner == Opcode::Concat,
        parts.len() > 0 ==> indexable(emit_joined(p.with_variable(target), parts, kind, joiner, line)),
    ensures
        ({
            let result = if parts.len() == 0 {
                p
            } else {
                emit_joined(p.with_variable(target), parts, kind, joiner, line).emit(
                    Opcode::StoreVariable(slot_of(p.variable_names, target) as usize),
                    line,
                )
            };
            &&& p.well_formed() ==> result.well_formed()
            &&& operands_valid(result, p.instructions.len() as int)
        }),
{
    if parts.len() > 0 {
        let declared = p.with_variable(target);
        let joined = emit_joined(declared, parts, kind, joiner, line);
        let result = joined.emit(
            Opcode::StoreVariable(slot_of(p.variable_names, target) as usize),
            line,
        );
        lemma_joined_extends(declared, parts, kind, joiner, line);
        lemma_joined_pools(declared, parts, kind, joiner, line);
        lemma_declared_slot(p, target, joined);
        assert forall|i: int| p.instructions.len() <= i < result.instructions.len() implies match (
        #[trigger] result.instructions[i]).opcode {
            Opcode::PushString(index) => index < result.string_pool.len(),
            Opcode::PushVariable(index) => index < result.variable_names.len(),
            Opcode::StoreVariable(index) => index < result.variable_names.len(),
            Opcode::LoadVariable(index) => index < result.variable_names.len(),
            _ => true,
        } by {
            if i < joined.instructions.len() {
                assert(result.instructions[i] == joined.instructions[i]);
            }
        }
    }
}

/// Compiling a block keeps the pools free of duplicates, and every pool
/// index in its code refers to an entry that the pools have.
pub proof fn lemma_block_pools(p: ProgramView, block: Seq<StatementView>, line: usize)
    requires
        indexable(emit_block(p, block, line).program),
    ensures
        p.well_formed() ==> emit_block(p, block, line).program.well_formed(),
        operands_valid(emit_block(p, block, line).program, p.instructions.len() as int),
    decreases block,
{
    if block.len() > 0 {
        let before = emit_block(p, block.drop_last(), line);
        if before.failure is None {
            lemma_block_extends(p, block.drop_last(), line);
            lemma_statement_extends(before.program, block.last(), line);
            lemma_block_pools(p, block.drop_last(), line);
            lemma_statement_pools(before.program, block.last(), line);
            lemma_operands_stay_valid(
                before.program,
                emit_block(p, block, line).program,
                p.instructions.len() as int,
            );
        } else {
            lemma_block_pools(p, block.drop_last(), line);
        }
    }
}

/// A compiled script keeps the pools free of duplicates, and every pool
/// index in its code refers to an entry that the pools have: executing it
/// on a machine made for it never fails on an index.
pub proof fn lemma_compiled_pools(p: ProgramView, script: Seq<StatementView>, line: usize)
    requires
        indexable(compiled(p, script, line).program),
    ensures
        p.well_formed() ==> compiled(p, script, line).program.well_formed(),
        operands_valid(compiled(p, script, line).program, p.instructions.len() as int),
{
    let body = emit_block(p, script, line).program;
    let result = compiled(p, script, line).program;
    lemma_block_pools(p, script, line);
    lemma_block_extends(p, script, line);
    assert forall|i: int| p.instructions.len() <= i < result.instructions.len() implies match (
    #[trigger] result.instructions[i]).opcode {
        Opcode::PushString(index) => index < result.string_pool.len(),
        Opcode::PushVariable(index) => index < result.variable_names.len(),
        Opcode::StoreVariable(index) => index < result.variable_names.len(),
        Opcode::LoadVariable(index) => index < result.variable_names.len(),
        _ => true,
    } by {
        if i < body.instructions.len() {
            assert(result.instructions[i] == body.instructions[i]);
        }
    }
}

/// The state has one variable slot for each entry of the variable table,
/// and every pool index in its program refers to an entry of its pool: as
/// in a new machine for a compiled program.
pub open spec fn fits_program(m: MachineView) -> bool {
    &&& m.variables.len() == m.program.variable_names.len()
    &&& operands_valid(m.program, 0)
}

/// Whether a step ended in one of the two index errors.
pub open spec fn is_index_error(step: Step) -> bool {
    step.outcome == Err::<SignalView, Seq<char>>("String constant index out of bounds"@)
        || step.outcome == Err::<SignalView, Seq<char>>(
        "Variable index out of bounds"@,
    )
}

/// A machine that fits its program never fails on an index, and still fits
/// its program after the step.
pub proof fn lemma_step_finds_its_operands(m: MachineView)
    requires
        fits_program(m),
    ensures
        !is_index_error(step_spec(m)),
        fits_program(step_spec(m).machine),
{
    reveal_strlit("Stack underflow");
    reveal_strlit("String constant index out of bounds");
    reveal_strlit("Variable index out of bounds");
    reveal_strlit("Type error: Cannot add these types");
    reveal_strlit("Type error: Cannot subtract these types");
    reveal_strlit("Type error: Cannot concatenate these types");
    reveal_strlit("Type error: Cannot compare these types");
    reveal_strlit("Type error: Condition must be boolean");
    if m.ip < m.program.instructions.len() {
        let instruction = m.program.instructions[m.ip as int];
        assert(match instruction.opcode {
            Opcode::PushString(index) => index < m.program.string_pool.len(),
            Opcode::PushVariable(index) => index < m.program.variable_names.len(),
            Opcode::StoreVariable(index) => index < m.program.variable_names.len(),
            Opcode::LoadVariable(index) => index < m.program.variable_names.len(),
            _ => true,
        });
        let step = step_spec(m);
        assert(step.outcome is Err ==> step.outcome->Err_0.len()
            != "String constant index out of bounds"@.len() && step.outcome->Err_0.len()
            != "Variable index out of bounds"@.len());
    }
}

/// A new machine for a program whose pool indices are valid fits it.
pub proof fn lemma_new_machine_fits(program: ProgramView)
    requires
        operands_valid(program, 0),
    ensures
        fits_program(MachineView::initial(program)),
{
}

/// A machine that fits its program never fails on an index, however long
/// it runs, and still fits its program afterwards.
pub proof fn lemma_run_finds_its_operands(m: MachineView, budget: nat)
    requires
        fits_program(m),
    ensures
        !is_index_error(run_spec(m, budget)),
        fits_program(run_spec(m, budget).machine),
    decreases budget,
{
    reveal_strlit("String constant index out of bounds");
    reveal_strlit("Variable index out of bounds");
    if m.running && m.ip < m.program.instructions.len() && budget > 0 {
        lemma_step_finds_its_operands(m);
        let step = step_spec(m);
        if step.outcome == Ok::<SignalView, Seq<char>>(SignalView::Continue) {
            lemma_run_finds_its_operands(step.machine, (budget - 1) as nat);
        }
    }
}

} // verus!
