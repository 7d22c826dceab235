//! The bytecode program model: the instruction set, the instruction stream and
//! the two append-only, deduplicated pools (string constants and variable names).

use vstd::prelude::*;

verus! {

/// One operation of the virtual machine.
#[derive(Debug, Clone, Copy, PartialEq, Eq, Structural)]
pub enum Opcode {
    /// Push a number literal.
    PushNumber(i32),
    /// Push the string constant at this index of the string pool.
    PushString(usize),
    /// Push the name of the variable at this index of the variable table.
    PushVariable(usize),
    /// Discard the top of the stack.
    Pop,
    /// Pop a value into the variable slot with this index.
    StoreVariable(usize),
    /// Push a copy of the variable slot with this index.
    LoadVariable(usize),
    Add,
    Subtract,
    Concat,
    Print,
    Input,
    /// Pop a boolean; continue at this address if it is true.
    JumpIfTrue(usize),
    /// Pop a boolean; continue at this address if it is false.
    JumpIfFalse(usize),
    /// Continue at this address.
    Jump(usize),
    Equal,
    NotEqual,
    Return,
    Halt,
}

/// An opcode together with the source line it was produced for.
#[derive(Debug, Clone, Copy, PartialEq, Eq, Structural)]
pub struct Instruction {
    pub opcode: Opcode,
    pub line_number: usize,
}

impl Instruction {
    /// The instruction with this opcode, produced for this source line.
    pub fn new(opcode: Opcode, line_number: usize) -> (instruction: Self)
        ensures
            instruction == (Instruction { opcode, line_number }),
    {
        Self { opcode, line_number }
    }
}

/// A sequence of instructions with its string pool and variable table.
#[derive(Debug)]
pub struct BytecodeProgram {
    pub instructions: Vec<Instruction>,
    pub string_pool: Vec<String>,
    pub variable_names: Vec<String>,
}

/// The contents of each text of `pool`, in order.
pub open spec fn texts(pool: Seq<String>) -> Seq<Seq<char>> {
    Seq::new(pool.len(), |i: int| pool[i]@)
}

/// The index at which `text` first occurs in `pool`, or the length of `pool`
/// if it does not occur: the index that inserting `text` gives it.
pub open spec fn slot_of(pool: Seq<Seq<char>>, text: Seq<char>) -> nat
    decreases pool.len(),
{
    if pool.len() == 0 {
        0
    } else {
        let before = slot_of(pool.drop_last(), text);
        if before < pool.len() - 1 {
            before
        } else if pool.last() == text {
            before
        } else {
            pool.len()
        }
    }
}

/// `pool` after inserting `text`: unchanged if `text` is present, else with
/// `text` appended.
pub open spec fn intern(pool: Seq<Seq<char>>, text: Seq<char>) -> Seq<Seq<char>> {
    if slot_of(pool, text) < pool.len() {
        pool
    } else {
        pool.push(text)
    }
}

/// `slot_of` is the least index that holds `text`, and the length when none does.
pub proof fn lemma_slot_of(pool: Seq<Seq<char>>, text: Seq<char>)
    ensures
        slot_of(pool, text) <= pool.len(),
        forall|j: int| 0 <= j < slot_of(pool, text) ==> pool[j] != text,
        slot_of(pool, text) < pool.len() ==> pool[slot_of(pool, text) as int] == text,
        slot_of(pool, text) < pool.len() <==> pool.contains(text),
    decreases pool.len(),
{
    if pool.len() > 0 {
        let shorter = pool.drop_last();
        lemma_slot_of(shorter, text);
        let k = slot_of(pool, text);
        assert forall|j: int| 0 <= j < k implies pool[j] != text by {
            if j < shorter.len() {
                assert(shorter[j] == pool[j]);
            }
        }
        if k < pool.len() {
            if k < shorter.len() {
                assert(shorter[k as int] == pool[k as int]);
            }
            assert(pool[k as int] == text);
        }
    }
    if pool.contains(text) {
        let i = choose|i: int| 0 <= i < pool.len() && pool[i] == text;
        assert(slot_of(pool, text) <= i);
    }
}

/// An index that holds `text` and has no earlier occurrence before it is `slot_of`.
pub proof fn lemma_slot_of_unique(pool: Seq<Seq<char>>, text: Seq<char>, k: int)
    requires
        0 <= k <= pool.len(),
        forall|j: int| 0 <= j < k ==> pool[j] != text,
        k < pool.len() ==> pool[k] == text,
    ensures
        slot_of(pool, text) == k,
{
    lemma_slot_of(pool, text);
}

/// The mathematical content of a program.
pub struct ProgramView {
    pub instructions: Seq<Instruction>,
    pub string_pool: Seq<Seq<char>>,
    pub variable_names: Seq<Seq<char>>,
}

impl ProgramView {
    /// A program with no instructions and empty pools.
    pub open spec fn empty() -> ProgramView {
        ProgramView {
            instructions: Seq::empty(),
            string_pool: Seq::empty(),
            variable_names: Seq::empty(),
        }
    }

    /// Neither pool holds a text twice.
    pub open spec fn well_formed(self) -> bool {
        &&& self.string_pool.no_duplicates()
        &&& self.variable_names.no_duplicates()
    }

    /// The program with one more instruction at the end.
    pub open spec fn emit(self, opcode: Opcode, line: usize) -> ProgramView {
        ProgramView {
            instructions: self.instructions.push(Instruction { opcode, line_number: line }),
            ..self
        }
    }

    /// The program with `text` inserted into the string pool.
    pub open spec fn with_string(self, text: Seq<char>) -> ProgramView {
        ProgramView { string_pool: intern(self.string_pool, text), ..self }
    }

    /// The program with `name` inserted into the variable table.
    pub open spec fn with_variable(self, name: Seq<char>) -> ProgramView {
        ProgramView { variable_names: intern(self.variable_names, name), ..self }
    }

    /// The program with the opcode at `index` replaced, its line kept.
    pub open spec fn patch(self, index: int, opcode: Opcode) -> ProgramView {
        ProgramView {
            instructions: self.instructions.update(
                index,
                Instruction { opcode, line_number: self.instructions[index].line_number },
            ),
            ..self
        }
    }
}

impl View for BytecodeProgram {
    type V = ProgramView;

    open spec fn view(&self) -> ProgramView {
        ProgramView {
            instructions: self.instructions@,
            string_pool: texts(self.string_pool@),
            variable_names: texts(self.variable_names@),
        }
    }
}

/// Inserts `text` into `pool` unless it is there, and returns its index.
fn pool_insert(pool: &mut Vec<String>, text: String) -> (index: usize)
    ensures
        index == slot_of(texts(old(pool)@), text@),
        texts(final(pool)@) == intern(texts(old(pool)@), text@),
{
    let ghost model = texts(pool@);
    let mut i: usize = 0;
    while i < pool.len()
        invariant
            i <= pool.len(),
            *pool == *old(pool),
            model == texts(pool@),
            forall|j: int| 0 <= j < i ==> model[j] != text@,
        decreases pool.len() - i,
    {
        if pool[i] == text {
            proof {
                assert(model[i as int] == text@);
                lemma_slot_of_unique(model, text@, i as int);
            }
            return i;
        }
        i = i + 1;
    }
    proof {
        lemma_slot_of_unique(model, text@, i as int);
    }
    pool.push(text);
    assert(texts(pool@) == model.push(text@));
    i
}

impl BytecodeProgram {
    /// A program with no instructions and empty pools.
    pub fn new() -> (program: Self)
        ensures
            program@ == ProgramView::empty(),
    {
        let program = Self {
            instructions: Vec::new(),
            string_pool: Vec::new(),
            variable_names: Vec::new(),
        };
        assert(texts(program.string_pool@) == Seq::<Seq<char>>::empty());
        assert(texts(program.variable_names@) == Seq::<Seq<char>>::empty());
        program
    }

    /// Appends an instruction. Jump targets are not checked here: the compiler
    /// writes them once the address is known.
    pub fn add_instruction(&mut self, opcode: Opcode, line_number: usize)
        ensures
            final(self)@ == old(self)@.emit(opcode, line_number),
    {
        self.instructions.push(Instruction::new(opcode, line_number));
    }

    /// Inserts `string` into the string pool unless it is there, and returns
    /// the index it has in the pool.
    pub fn add_string(&mut self, string: String) -> (index: usize)
        ensures
            index == slot_of(old(self)@.string_pool, string@),
            final(self)@ == old(self)@.with_string(string@),
    {
        pool_insert(&mut self.string_pool, string)
    }

    /// Inserts `name` into the variable table unless it is there, and returns
    /// the index it has in the table, which is also its storage slot.
    pub fn add_variable(&mut self, name: String) -> (index: usize)
        ensures
            index == slot_of(old(self)@.variable_names, name@),
            final(self)@ == old(self)@.with_variable(name@),
    {
        pool_insert(&mut self.variable_names, name)
    }
}

/// A copy of a pool with the same texts in the same order.
fn copy_pool(pool: &Vec<String>) -> (copy: Vec<String>)
    ensures
        texts(copy@) == texts(pool@),
{
    let mut copy: Vec<String> = Vec::new();
    let mut i: usize = 0;
    while i < pool.len()
        invariant
            i <= pool.len(),
            texts(copy@) == texts(pool@).take(i as int),
        decreases pool.len() - i,
    {
        let ghost before = texts(copy@);
        copy.push(pool[i].clone());
        assert(texts(copy@) == before.push(pool@[i as int]@));
        assert(texts(pool@).take(i + 1) == texts(pool@).take(i as int).push(pool@[i as int]@));
        i = i + 1;
    }
    assert(texts(pool@).take(pool.len() as int) == texts(pool@));
    copy
}

impl Clone for BytecodeProgram {
    fn clone(&self) -> (copy: Self)
        ensures
            copy@ == self@,
    {
        let mut instructions: Vec<Instruction> = Vec::new();
        let mut i: usize = 0;
        while i < self.instructions.len()
            invariant
                i <= self.instructions.len(),
                instructions@ == self.instructions@.take(i as int),
            decreases self.instructions.len() - i,
        {
            instructions.push(self.instructions[i]);
            i = i + 1;
        }
        assert(self.instructions@.take(self.instructions.len() as int) == self.instructions@);
        BytecodeProgram {
            instructions,
            string_pool: copy_pool(&self.string_pool),
            variable_names: copy_pool(&self.variable_names),
        }
    }
}

/// Inserting a text that was inserted before gives the same index again and
/// leaves the pool as it was.
pub proof fn lemma_insert_twice(pool: Seq<Seq<char>>, text: Seq<char>)
    ensures
        slot_of(intern(pool, text), text) == slot_of(pool, text),
        intern(intern(pool, text), text) == intern(pool, text),
        intern(intern(pool, text), text).len() == intern(pool, text).len(),
{
    lemma_slot_of(pool, text);
    lemma_slot_of(intern(pool, text), text);
    lemma_slot_of_unique(intern(pool, text), text, slot_of(pool, text) as int);
}

/// Inserting a text moves no text that was in the pool: every earlier index
/// still holds what it held.
pub proof fn lemma_insert_keeps_indices(pool: Seq<Seq<char>>, text: Seq<char>, other: Seq<char>)
    requires
        pool.contains(other),
    ensures
        slot_of(intern(pool, text), other) == slot_of(pool, other),
        pool.is_prefix_of(intern(pool, text)),
{
    lemma_slot_of(pool, other);
    lemma_slot_of(pool, text);
    lemma_slot_of_unique(intern(pool, text), other, slot_of(pool, other) as int);
}

/// A pool without duplicates has none after an insertion.
pub proof fn lemma_insert_keeps_distinct(pool: Seq<Seq<char>>, text: Seq<char>)
    requires
        pool.no_duplicates(),
    ensures
        intern(pool, text).no_duplicates(),
{
    lemma_slot_of(pool, text);
}

} // verus!
