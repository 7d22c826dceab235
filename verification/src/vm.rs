//! The stack-based virtual machine that executes a bytecode program.
//!
//! The machine does no input or output itself. `step` and `run` stop and say
//! so when a line is ready to be written or a line has to be read; the caller
//! writes or reads and calls again.

use vstd::prelude::*;
use crate::bytecode::{BytecodeProgram, Opcode, ProgramView};
use crate::error::{ErrorView, NepalError};
use crate::text::{chars_of, decimal, number_text, text_of_range};

verus! {

/// A value on the operand stack or in a variable slot.
#[derive(Debug)]
pub enum Value {
    Number(i32),
    String(String),
    Boolean(bool),
}

/// The mathematical content of a value.
pub enum ValueView {
    Number(i32),
    String(Seq<char>),
    Boolean(bool),
}

impl View for Value {
    type V = ValueView;

    open spec fn view(&self) -> ValueView {
        match *self {
            Value::Number(n) => ValueView::Number(n),
            Value::String(s) => ValueView::String(s@),
            Value::Boolean(b) => ValueView::Boolean(b),
        }
    }
}

/// The content of each value of `values`, in order.
pub open spec fn value_views(values: Seq<Value>) -> Seq<ValueView> {
    Seq::new(values.len(), |i: int| values[i]@)
}

/// The text that printing or concatenating a value uses: a number in
/// decimal, a string as it is, a boolean as `true` or `false`.
pub open spec fn text_of(value: ValueView) -> Seq<char> {
    match value {
        ValueView::Number(n) => decimal(n as int),
        ValueView::String(s) => s,
        ValueView::Boolean(b) => if b {
            "true"@
        } else {
            "false"@
        },
    }
}

impl Clone for Value {
    fn clone(&self) -> (copy: Self)
        ensures
            copy@ == self@,
    {
        match self {
            Value::Number(n) => Value::Number(*n),
            Value::String(s) => Value::String(s.clone()),
            Value::Boolean(b) => Value::Boolean(*b),
        }
    }
}

impl Value {
    /// The text of the value, as `print` writes it.
    pub fn to_text(&self) -> (text: String)
        ensures
            text@ == text_of(self@),
    {
        match self {
            Value::Number(n) => number_text(*n),
            Value::String(s) => s.clone(),
            Value::Boolean(b) => if *b {
                String::from_str("true")
            } else {
                String::from_str("false")
            },
        }
    }
}

/// `x` reduced to the 32-bit two's complement range.
pub open spec fn wrap32(x: int) -> i32 {
    if x > i32::MAX {
        (x - 0x1_0000_0000) as i32
    } else if x < i32::MIN {
        (x + 0x1_0000_0000) as i32
    } else {
        x as i32
    }
}

pub(crate) fn wrapped(x: i64) -> (r: i32)
    requires
        2 * i32::MIN <= x <= 2 * i32::MAX + 1,
    ensures
        r == wrap32(x as int),
{
    if x > 2147483647 {
        (x - 4294967296) as i32
    } else if x < -2147483648 {
        (x + 4294967296) as i32
    } else {
        x as i32
    }
}

/// What `add` leaves for the operands `a` and `b`: the sum of two numbers,
/// wrapped to 32 bits; the concatenation where both are strings or one is a
/// string and the other a number; an error for every other pair.
pub open spec fn added(a: ValueView, b: ValueView) -> Result<ValueView, Seq<char>> {
    match (a, b) {
        (ValueView::Number(x), ValueView::Number(y)) => Ok(ValueView::Number(wrap32(x + y))),
        (ValueView::String(x), ValueView::String(y)) => Ok(ValueView::String(x + y)),
        (ValueView::String(x), ValueView::Number(y)) => Ok(
            ValueView::String(x + decimal(y as int)),
        ),
        (ValueView::Number(x), ValueView::String(y)) => Ok(
            ValueView::String(decimal(x as int) + y),
        ),
        _ => Err("Type error: Cannot add these types"@),
    }
}

/// What `subtract` leaves: the difference of two numbers, wrapped to 32
/// bits; an error for every other pair.
pub open spec fn subtracted(a: ValueView, b: ValueView) -> Result<ValueView, Seq<char>> {
    match (a, b) {
        (ValueView::Number(x), ValueView::Number(y)) => Ok(ValueView::Number(wrap32(x - y))),
        _ => Err("Type error: Cannot subtract these types"@),
    }
}

/// What `concat` leaves: the text of `a` followed by the text of `b` where
/// at least one of them is a string; an error for every other pair.
pub open spec fn concatenated(a: ValueView, b: ValueView) -> Result<ValueView, Seq<char>> {
    if a is String || b is String {
        Ok(ValueView::String(text_of(a) + text_of(b)))
    } else {
        Err("Type error: Cannot concatenate these types"@)
    }
}

/// What `equal` (with `negate` false) and `not-equal` (with `negate` true)
/// leave: whether two values of one kind are equal, respectively differ; an
/// error for a pair of different kinds.
pub open spec fn compared(a: ValueView, b: ValueView, negate: bool) -> Result<
    ValueView,
    Seq<char>,
> {
    match (a, b) {
        (ValueView::Number(x), ValueView::Number(y)) => Ok(ValueView::Boolean((x == y) != negate)),
        (ValueView::String(x), ValueView::String(y)) => Ok(ValueView::Boolean((x == y) != negate)),
        (ValueView::Boolean(x), ValueView::Boolean(y)) => Ok(
            ValueView::Boolean((x == y) != negate),
        ),
        _ => Err("Type error: Cannot compare these types"@),
    }
}

/// `result` is the value or the runtime error that `expected` describes.
pub open spec fn yields(result: Result<Value, NepalError>, expected: Result<ValueView, Seq<char>>) -> bool {
    match expected {
        Ok(value) => result matches Ok(v) && v@ == value,
        Err(message) => result matches Err(e) && e@ == ErrorView::RuntimeError(message),
    }
}

/// Applies `add` to two operands.
pub fn add_values(a: Value, b: Value) -> (result: Result<Value, NepalError>)
    ensures
        yields(result, added(a@, b@)),
{
    match (a, b) {
        (Value::Number(x), Value::Number(y)) => Ok(Value::Number(wrapped(x as i64 + y as i64))),
        (Value::String(x), Value::String(y)) => Ok(Value::String(x.concat(y.as_str()))),
        (Value::String(x), Value::Number(y)) => Ok(
            Value::String(x.concat(number_text(y).as_str())),
        ),
        (Value::Number(x), Value::String(y)) => Ok(
            Value::String(number_text(x).concat(y.as_str())),
        ),
        _ => Err(NepalError::RuntimeError("Type error: Cannot add these types")),
    }
}

/// Applies `subtract` to two operands.
pub fn subtract_values(a: Value, b: Value) -> (result: Result<Value, NepalError>)
    ensures
        yields(result, subtracted(a@, b@)),
{
    match (a, b) {
        (Value::Number(x), Value::Number(y)) => Ok(Value::Number(wrapped(x as i64 - y as i64))),
        _ => Err(NepalError::RuntimeError("Type error: Cannot subtract these types")),
    }
}

/// Applies `concat` to two operands.
pub fn concat_values(a: Value, b: Value) -> (result: Result<Value, NepalError>)
    ensures
        yields(result, concatenated(a@, b@)),
{
    let textual = match (&a, &b) {
        (Value::String(_), _) => true,
        (_, Value::String(_)) => true,
        _ => false,
    };
    if textual {
        Ok(Value::String(a.to_text().concat(b.to_text().as_str())))
    } else {
        Err(NepalError::RuntimeError("Type error: Cannot concatenate these types"))
    }
}

/// Applies `equal`, or with `negate` set `not-equal`, to two operands.
pub fn compare_values(a: Value, b: Value, negate: bool) -> (result: Result<Value, NepalError>)
    ensures
        yields(result, compared(a@, b@, negate)),
{
    match (a, b) {
        (Value::Number(x), Value::Number(y)) => Ok(Value::Boolean((x == y) != negate)),
        (Value::String(x), Value::String(y)) => Ok(Value::Boolean((x == y) != negate)),
        (Value::Boolean(x), Value::Boolean(y)) => Ok(Value::Boolean((x == y) != negate)),
        _ => Err(NepalError::RuntimeError("Type error: Cannot compare these types")),
    }
}

/// The text of a line of input without the line ending that follows it:
/// `line` without the line feeds and carriage returns at its end.
pub open spec fn without_line_end(line: Seq<char>) -> Seq<char>
    decreases line.len(),
{
    if line.len() > 0 && (line.last() == '\n' || line.last() == '\r') {
        without_line_end(line.drop_last())
    } else {
        line
    }
}

/// Removes the line ending from a line of input.
pub fn trim_line_end(line: &str) -> (text: String)
    ensures
        text@ == without_line_end(line@),
{
    let chars = chars_of(line);
    let mut end: usize = chars.len();
    assert(chars@.take(chars.len() as int) == chars@);
    while end > 0 && (chars[end - 1] == '\n' || chars[end - 1] == '\r')
        invariant
            end <= chars.len(),
            without_line_end(chars@) == without_line_end(chars@.take(end as int)),
        decreases end,
    {
        assert(chars@.take(end as int).drop_last() == chars@.take(end - 1));
        end = end - 1;
    }
    text_of_range(&chars, 0, end)
}

/// What the machine tells its caller when it stops.
#[derive(Debug)]
pub enum Signal {
    /// Nothing to do for the caller: the machine can go on.
    Continue,
    /// `print` ran: this line, followed by a newline, goes to the output.
    Output(String),
    /// The machine stands at an `input` instruction: a line has to be read
    /// and handed over with `provide_input`.
    AwaitingInput,
    /// `halt` ran, or the instruction pointer is past the last instruction.
    Halted,
}

/// The mathematical content of a signal.
pub enum SignalView {
    Continue,
    Output(Seq<char>),
    AwaitingInput,
    Halted,
}

impl View for Signal {
    type V = SignalView;

    open spec fn view(&self) -> SignalView {
        match *self {
            Signal::Continue => SignalView::Continue,
            Signal::Output(line) => SignalView::Output(line@),
            Signal::AwaitingInput => SignalView::AwaitingInput,
            Signal::Halted => SignalView::Halted,
        }
    }
}

/// The state of a machine.
pub struct MachineView {
    pub program: ProgramView,
    /// The index of the next instruction.
    pub ip: usize,
    /// The operand stack, its top last.
    pub stack: Seq<ValueView>,
    /// One slot for each entry of the variable table.
    pub variables: Seq<ValueView>,
    pub running: bool,
}

/// A state together with what the machine reported on reaching it: a signal,
/// or the message of a runtime error.
pub struct Step {
    pub machine: MachineView,
    pub outcome: Result<SignalView, Seq<char>>,
}

impl MachineView {
    /// The state of a new machine for `program`: at the first instruction,
    /// with an empty stack and every variable `Number(0)`.
    pub open spec fn initial(program: ProgramView) -> MachineView {
        MachineView {
            program,
            ip: 0,
            stack: Seq::empty(),
            variables: Seq::new(program.variable_names.len(), |i: int| ValueView::Number(0)),
            running: false,
        }
    }

    /// The state after a reset: as a new machine, with as many variable
    /// slots as before.
    pub open spec fn cleared(self) -> MachineView {
        MachineView {
            program: self.program,
            ip: 0,
            stack: Seq::empty(),
            variables: Seq::new(self.variables.len(), |i: int| ValueView::Number(0)),
            running: false,
        }
    }

    /// The state with `value` on top of the stack.
    pub open spec fn push(self, value: ValueView) -> MachineView {
        MachineView { stack: self.stack.push(value), ..self }
    }

    /// The state without the top `count` values of the stack.
    pub open spec fn drop(self, count: int) -> MachineView {
        MachineView { stack: self.stack.take(self.stack.len() - count), ..self }
    }

    /// The state with `value` in the variable slot `slot`.
    pub open spec fn store(self, slot: int, value: ValueView) -> MachineView {
        MachineView { variables: self.variables.update(slot, value), ..self }
    }

    /// The state with the instruction pointer at the next instruction.
    pub open spec fn advance(self) -> MachineView {
        MachineView { ip: (self.ip + 1) as usize, ..self }
    }

    /// The state with the instruction pointer at `address`.
    pub open spec fn jump(self, address: usize) -> MachineView {
        MachineView { ip: address, ..self }
    }

    /// The state marked as running.
    pub open spec fn started(self) -> MachineView {
        MachineView { running: true, ..self }
    }

    /// The state marked as not running.
    pub open spec fn stopped(self) -> MachineView {
        MachineView { running: false, ..self }
    }

    /// The value `depth` places below the top of the stack.
    pub open spec fn operand(self, depth: int) -> ValueView {
        self.stack[self.stack.len() - 1 - depth]
    }

    /// The step that ends in this state with nothing to report.
    pub open spec fn proceed(self) -> Step {
        Step { machine: self, outcome: Ok(SignalView::Continue) }
    }

    /// The step that ends in this state with a runtime error.
    pub open spec fn fail(self, message: Seq<char>) -> Step {
        Step { machine: self, outcome: Err(message) }
    }

    /// The step that ends in this state with the machine at rest.
    pub open spec fn halt(self) -> Step {
        Step { machine: self, outcome: Ok(SignalView::Halted) }
    }

    /// Whether the next instruction is `input`.
    pub open spec fn awaits_input(self) -> bool {
        self.ip < self.program.instructions.len() && self.program.instructions[self.ip as int].opcode
            == Opcode::Input
    }

    /// The state after a line of input arrived: at an `input` instruction
    /// the line, without its line ending, is pushed as a string and the
    /// instruction is passed; anywhere else nothing changes.
    pub open spec fn with_input(self, line: Seq<char>) -> MachineView {
        if self.awaits_input() {
            self.push(ValueView::String(without_line_end(line))).advance()
        } else {
            self
        }
    }
}

/// What a binary opcode leaves for the operands `a` (pushed first) and `b`.
pub open spec fn applied(opcode: Opcode, a: ValueView, b: ValueView) -> Result<
    ValueView,
    Seq<char>,
> {
    match opcode {
        Opcode::Add => added(a, b),
        Opcode::Subtract => subtracted(a, b),
        Opcode::Concat => concatenated(a, b),
        Opcode::Equal => compared(a, b, false),
        _ => compared(a, b, true),
    }
}

/// A binary opcode: with fewer than two operands it fails and leaves the
/// stack alone; otherwise it pops both and pushes the result, or fails with
/// both popped.
pub open spec fn binary_step(m: MachineView, opcode: Opcode) -> Step {
    if m.stack.len() < 2 {
        m.fail("Stack underflow"@)
    } else {
        match applied(opcode, m.operand(1), m.operand(0)) {
            Ok(value) => m.drop(2).push(value).advance().proceed(),
            Err(message) => m.drop(2).fail(message),
        }
    }
}

/// A conditional jump that is taken when the popped boolean equals `taken_on`.
pub open spec fn branch_step(m: MachineView, address: usize, taken_on: bool) -> Step {
    if m.stack.len() < 1 {
        m.fail("Stack underflow"@)
    } else {
        match m.operand(0) {
            ValueView::Boolean(b) => if b == taken_on {
                m.drop(1).jump(address).proceed()
            } else {
                m.drop(1).advance().proceed()
            },
            _ => m.drop(1).fail("Type error: Condition must be boolean"@),
        }
    }
}

/// The effect of executing `opcode` in state `m`.
pub open spec fn execute(m: MachineView, opcode: Opcode) -> Step {
    match opcode {
        Opcode::PushNumber(n) => m.push(ValueView::Number(n)).advance().proceed(),
        Opcode::PushString(index) => if index < m.program.string_pool.len() {
            m.push(ValueView::String(m.program.string_pool[index as int])).advance().proceed()
        } else {
            m.fail("String constant index out of bounds"@)
        },
        Opcode::PushVariable(index) => if index < m.program.variable_names.len() {
            m.push(ValueView::String(m.program.variable_names[index as int])).advance().proceed()
        } else {
            m.fail("Variable index out of bounds"@)
        },
        Opcode::Pop => if m.stack.len() < 1 {
            m.fail("Stack underflow"@)
        } else {
            m.drop(1).advance().proceed()
        },
        Opcode::StoreVariable(index) => if m.stack.len() < 1 {
            m.fail("Stack underflow"@)
        } else if index < m.variables.len() {
            m.drop(1).store(index as int, m.operand(0)).advance().proceed()
        } else {
            m.drop(1).fail("Variable index out of bounds"@)
        },
        Opcode::LoadVariable(index) => if index < m.variables.len() {
            m.push(m.variables[index as int]).advance().proceed()
        } else {
            m.fail("Variable index out of bounds"@)
        },
        Opcode::Add | Opcode::Subtract | Opcode::Concat | Opcode::Equal | Opcode::NotEqual => {
            binary_step(m, opcode)
        },
        Opcode::Print => if m.stack.len() < 1 {
            m.fail("Stack underflow"@)
        } else {
            Step {
                machine: m.drop(1).advance(),
                outcome: Ok(SignalView::Output(text_of(m.operand(0)))),
            }
        },
        Opcode::Input => Step { machine: m, outcome: Ok(SignalView::AwaitingInput) },
        Opcode::JumpIfTrue(address) => branch_step(m, address, true),
        Opcode::JumpIfFalse(address) => branch_step(m, address, false),
        Opcode::Jump(address) => m.jump(address).proceed(),
        Opcode::Return => m.advance().proceed(),
        Opcode::Halt => m.stopped().halt(),
    }
}

/// One step of the machine: past the end of the program it is at rest;
/// otherwise it executes the instruction at the instruction pointer.
pub open spec fn step_spec(m: MachineView) -> Step {
    if m.ip >= m.program.instructions.len() {
        m.halt()
    } else {
        execute(m, m.program.instructions[m.ip as int].opcode)
    }
}

/// The fetch-decode-execute loop, for at most `budget` instructions: it
/// goes on while the machine runs, stands inside the program and the last
/// step had nothing to report.
pub open spec fn run_spec(m: MachineView, budget: nat) -> Step
    decreases budget,
{
    if !m.running || m.ip >= m.program.instructions.len() {
        m.halt()
    } else if budget == 0 {
        m.proceed()
    } else {
        let step = step_spec(m);
        if step.outcome == Ok::<SignalView, Seq<char>>(SignalView::Continue) {
            run_spec(step.machine, (budget - 1) as nat)
        } else {
            step
        }
    }
}

/// How many operands an opcode takes from the stack.
pub open spec fn operands_needed(opcode: Opcode) -> nat {
    match opcode {
        Opcode::Add | Opcode::Subtract | Opcode::Concat | Opcode::Equal | Opcode::NotEqual => 2,
        Opcode::Pop | Opcode::StoreVariable(_) | Opcode::Print | Opcode::JumpIfTrue(_)
        | Opcode::JumpIfFalse(_) => 1,
        _ => 0,
    }
}

/// Stack discipline: an instruction fails with a stack underflow if and
/// only if the stack holds fewer operands than its opcode takes, and then
/// it changes nothing.
pub proof fn lemma_stack_discipline(m: MachineView)
    requires
        m.ip < m.program.instructions.len(),
    ensures
        step_spec(m).outcome == Err::<SignalView, Seq<char>>("Stack underflow"@) <==> m.stack.len()
            < operands_needed(m.program.instructions[m.ip as int].opcode),
        step_spec(m).outcome == Err::<SignalView, Seq<char>>("Stack underflow"@) ==> step_spec(
            m,
        ).machine == m,
{
    reveal_strlit("Stack underflow");
    reveal_strlit("String constant index out of bounds");
    reveal_strlit("Variable index out of bounds");
    reveal_strlit("Type error: Cannot add these types");
    reveal_strlit("Type error: Cannot subtract these types");
    reveal_strlit("Type error: Cannot concatenate these types");
    reveal_strlit("Type error: Cannot compare these types");
    reveal_strlit("Type error: Condition must be boolean");
    let step = step_spec(m);
    assert(m.stack.len() >= operands_needed(m.program.instructions[m.ip as int].opcode)
        && step.outcome is Err ==> step.outcome->Err_0.len() != "Stack underflow"@.len());
}

/// `result` is the signal or the runtime error that `outcome` describes.
pub open spec fn reports(result: Result<Signal, NepalError>, outcome: Result<SignalView, Seq<char>>) -> bool {
    match outcome {
        Ok(signal) => result matches Ok(s) && s@ == signal,
        Err(message) => result matches Err(e) && e@ == ErrorView::RuntimeError(message),
    }
}

/// A virtual machine with the program it executes.
pub struct VM {
    program: BytecodeProgram,
    ip: usize,
    stack: Vec<Value>,
    variables: Vec<Value>,
    running: bool,
}

impl View for VM {
    type V = MachineView;

    closed spec fn view(&self) -> MachineView {
        MachineView {
            program: self.program@,
            ip: self.ip,
            stack: value_views(self.stack@),
            variables: value_views(self.variables@),
            running: self.running,
        }
    }
}

impl VM {
    /// A machine for `program`, at its first instruction, with an empty
    /// stack and one variable slot, holding `Number(0)`, for each entry of
    /// the variable table.
    pub fn new(program: BytecodeProgram) -> (vm: Self)
        ensures
            vm@ == MachineView::initial(program@),
    {
        let variables = zeroed(program.variable_names.len());
        let vm = Self { program, ip: 0, stack: Vec::new(), variables, running: false };
        assert(vm@.stack == Seq::<ValueView>::empty());
        assert(vm@.variables == MachineView::initial(program@).variables);
        vm
    }

    fn push(&mut self, value: Value)
        ensures
            final(self)@ == old(self)@.push(value@),
    {
        self.stack.push(value);
        assert(value_views(self.stack@) == value_views(old(self).stack@).push(value@));
    }

    fn pop(&mut self) -> (value: Value)
        requires
            old(self)@.stack.len() >= 1,
        ensures
            final(self)@ == old(self)@.drop(1),
            value@ == old(self)@.operand(0),
    {
        let popped = self.stack.pop();
        assert(value_views(self.stack@) == value_views(old(self).stack@).take(
            old(self).stack@.len() - 1,
        ));
        match popped {
            Some(value) => value,
            None => Value::Number(0),
        }
    }

    fn depth(&self) -> (n: usize)
        ensures
            n == self@.stack.len(),
    {
        self.stack.len()
    }

    fn fail(&self, message: &'static str) -> (result: Result<Signal, NepalError>)
        ensures
            reports(result, Err(message@)),
    {
        Err(NepalError::RuntimeError(message))
    }

    fn binary(&mut self, opcode: Opcode) -> (result: Result<Signal, NepalError>)
        requires
            old(self).ip < usize::MAX,
            opcode == Opcode::Add || opcode == Opcode::Subtract || opcode == Opcode::Concat
                || opcode == Opcode::Equal || opcode == Opcode::NotEqual,
        ensures
            final(self)@ == binary_step(old(self)@, opcode).machine,
            reports(result, binary_step(old(self)@, opcode).outcome),
    {
        if self.depth() < 2 {
            return self.fail("Stack underflow");
        }
        let b = self.pop();
        let a = self.pop();
        assert(self@ == old(self)@.drop(2)) by {
            assert(old(self)@.drop(1).drop(1).stack == old(self)@.drop(2).stack);
        }
        let outcome = match opcode {
            Opcode::Add => add_values(a, b),
            Opcode::Subtract => subtract_values(a, b),
            Opcode::Concat => concat_values(a, b),
            Opcode::Equal => compare_values(a, b, false),
            _ => compare_values(a, b, true),
        };
        match outcome {
            Ok(value) => {
                self.push(value);
                self.ip = self.ip + 1;
                Ok(Signal::Continue)
            },
            Err(e) => Err(e),
        }
    }

    fn branch(&mut self, address: usize, taken_on: bool) -> (result: Result<Signal, NepalError>)
        requires
            old(self).ip < usize::MAX,
        ensures
            final(self)@ == branch_step(old(self)@, address, taken_on).machine,
            reports(result, branch_step(old(self)@, address, taken_on).outcome),
    {
        if self.depth() < 1 {
            return self.fail("Stack underflow");
        }
        match self.pop() {
            Value::Boolean(b) => {
                if b == taken_on {
                    self.ip = address;
                } else {
                    self.ip = self.ip + 1;
                }
                Ok(Signal::Continue)
            },
            _ => self.fail("Type error: Condition must be boolean"),
        }
    }

    /// Executes the instruction at the instruction pointer, whether or not
    /// the machine is marked as running, and reports what the caller has to
    /// do. At `input` nothing changes until `provide_input` hands the line
    /// over. After an error the stack is as the failing instruction left it.
    pub fn step(&mut self) -> (result: Result<Signal, NepalError>)
        ensures
            final(self)@ == step_spec(old(self)@).machine,
            reports(result, step_spec(old(self)@).outcome),
            final(self)@.program == old(self)@.program,
            final(self)@.variables.len() == old(self)@.variables.len(),
    {
        if self.ip >= self.program.instructions.len() {
            return Ok(Signal::Halted);
        }
        let opcode = self.program.instructions[self.ip].opcode;
        match opcode {
            Opcode::PushNumber(n) => {
                self.push(Value::Number(n));
                self.ip = self.ip + 1;
                Ok(Signal::Continue)
            },
            Opcode::PushString(index) => {
                if index < self.program.string_pool.len() {
                    let text = self.program.string_pool[index].clone();
                    self.push(Value::String(text));
                    self.ip = self.ip + 1;
                    Ok(Signal::Continue)
                } else {
                    self.fail("String constant index out of bounds")
                }
            },
            Opcode::PushVariable(index) => {
                if index < self.program.variable_names.len() {
                    let name = self.program.variable_names[index].clone();
                    self.push(Value::String(name));
                    self.ip = self.ip + 1;
                    Ok(Signal::Continue)
                } else {
                    self.fail("Variable index out of bounds")
                }
            },
            Opcode::Pop => {
                if self.depth() < 1 {
                    return self.fail("Stack underflow");
                }
                let _ = self.pop();
                self.ip = self.ip + 1;
                Ok(Signal::Continue)
            },
            Opcode::StoreVariable(index) => {
                if self.depth() < 1 {
                    return self.fail("Stack underflow");
                }
                let value = self.pop();
                if index < self.variables.len() {
                    let ghost before = value_views(self.variables@);
                    self.variables.set(index, value);
                    assert(value_views(self.variables@) == before.update(index as int, value@));
                    self.ip = self.ip + 1;
                    Ok(Signal::Continue)
                } else {
                    self.fail("Variable index out of bounds")
                }
            },
            Opcode::LoadVariable(index) => {
                if index < self.variables.len() {
                    let value = self.variables[index].clone();
                    self.push(value);
                    self.ip = self.ip + 1;
                    Ok(Signal::Continue)
                } else {
                    self.fail("Variable index out of bounds")
                }
            },
            Opcode::Add | Opcode::Subtract | Opcode::Concat | Opcode::Equal | Opcode::NotEqual => {
                self.binary(opcode)
            },
            Opcode::Print => {
                if self.depth() < 1 {
                    return self.fail("Stack underflow");
                }
                let value = self.pop();
                self.ip = self.ip + 1;
                Ok(Signal::Output(value.to_text()))
            },
            Opcode::Input => Ok(Signal::AwaitingInput),
            Opcode::JumpIfTrue(address) => self.branch(address, true),
            Opcode::JumpIfFalse(address) => self.branch(address, false),
            Opcode::Jump(address) => {
                self.ip = address;
                Ok(Signal::Continue)
            },
            Opcode::Return => {
                self.ip = self.ip + 1;
                Ok(Signal::Continue)
            },
            Opcode::Halt => {
                self.running = false;
                Ok(Signal::Halted)
            },
        }
    }

    /// Marks the machine as running and executes instructions until one of
    /// them has something to report, the machine halts or leaves the
    /// program, or `budget` instructions have run. `Continue` means that the
    /// budget is used up and the machine can go on. Running off the end of
    /// the program is a halt, not an error.
    pub fn run(&mut self, budget: usize) -> (result: Result<Signal, NepalError>)
        ensures
            final(self)@ == run_spec(old(self)@.started(), budget as nat).machine,
            reports(result, run_spec(old(self)@.started(), budget as nat).outcome),
            final(self)@.program == old(self)@.program,
            final(self)@.variables.len() == old(self)@.variables.len(),
    {
        self.running = true;
        let mut left: usize = budget;
        while self.running && self.ip < self.program.instructions.len() && left > 0
            invariant
                self@.program == old(self)@.program,
                self@.variables.len() == old(self)@.variables.len(),
                run_spec(old(self)@.started(), budget as nat) == run_spec(self@, left as nat),
            decreases left,
        {
            let result = self.step();
            match result {
                Ok(Signal::Continue) => {
                    left = left - 1;
                },
                _ => {
                    return result;
                },
            }
        }
        if self.running && self.ip < self.program.instructions.len() {
            Ok(Signal::Continue)
        } else {
            Ok(Signal::Halted)
        }
    }

    /// Hands a line of input to a machine that stands at an `input`
    /// instruction: the line, without its line ending, is pushed as a
    /// string and the instruction is passed. Returns whether the machine
    /// stood at such an instruction; if not, nothing changes.
    pub fn provide_input(&mut self, line: &str) -> (accepted: bool)
        ensures
            accepted == old(self)@.awaits_input(),
            final(self)@ == old(self)@.with_input(line@),
    {
        if self.ip < self.program.instructions.len() {
            if self.program.instructions[self.ip].opcode == Opcode::Input {
                self.push(Value::String(trim_line_end(line)));
                self.ip = self.ip + 1;
                return true;
            }
        }
        false
    }

    /// The value on top of the stack, if there is one.
    pub fn peek(&self) -> (top: Option<&Value>)
        ensures
            match top {
                Some(value) => self@.stack.len() > 0 && value@ == self@.stack.last(),
                None => self@.stack.len() == 0,
            },
    {
        if self.stack.len() > 0 {
            Some(&self.stack[self.stack.len() - 1])
        } else {
            None
        }
    }

    /// Puts the machine back into the state of a new one: the instruction
    /// pointer at the start, the stack empty, every variable `Number(0)`.
    pub fn reset(&mut self)
        ensures
            final(self)@ == old(self)@.cleared(),
    {
        self.ip = 0;
        self.stack.clear();
        self.running = false;
        self.variables = zeroed(self.variables.len());
        assert(self@.stack == Seq::<ValueView>::empty());
        assert(self@.variables == old(self)@.cleared().variables);
    }
}

/// `count` variable slots, each holding `Number(0)`.
fn zeroed(count: usize) -> (slots: Vec<Value>)
    ensures
        slots.len() == count,
        forall|i: int| 0 <= i < count ==> slots@[i]@ == ValueView::Number(0),
{
    let mut slots: Vec<Value> = Vec::new();
    while slots.len() < count
        invariant
            slots.len() <= count,
            forall|i: int| 0 <= i < slots.len() ==> slots@[i]@ == ValueView::Number(0),
        decreases count - slots.len(),
    {
        slots.push(Value::Number(0));
    }
    slots
}

} // verus!
