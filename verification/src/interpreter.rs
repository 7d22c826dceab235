//! The tree-walking interpreter: it executes statements directly on a table
//! of variables.
//!
//! The interpreter does no input or output itself. `execute` reports what
//! the caller has to do: write a line, read a line, or execute the
//! statements of the branch that a conditional chose.

use vstd::prelude::*;
use crate::ast::{Condition, ConditionView, LiteralView, Statement, StatementView, Value,
    block_view, statement_view};
use crate::bytecode::{lemma_slot_of, lemma_slot_of_unique, slot_of, texts};
use crate::compiler::{inner, is_delimited};
use crate::text::{chars_of, decimal, number_text, trim, trimmed_range};
use crate::vm::{wrap32, wrapped};

verus! {

/// The variables of a script: the value of each name that has one.
pub type Variables = Map<Seq<char>, LiteralView>;

/// The text of a value: a number in decimal, a string as it is.
pub open spec fn literal_text(value: LiteralView) -> Seq<char> {
    match value {
        LiteralView::Number(n) => decimal(n as int),
        LiteralView::String(s) => s,
    }
}

/// The sum, wrapped to 32 bits, of those `sources` that name a number.
pub open spec fn sum_of(variables: Variables, sources: Seq<Seq<char>>) -> i32
    decreases sources.len(),
{
    if sources.len() == 0 {
        0
    } else {
        let before = sum_of(variables, sources.drop_last());
        if variables.contains_key(sources.last()) {
            match variables[sources.last()] {
                LiteralView::Number(n) => wrap32(before + n),
                _ => before,
            }
        } else {
            before
        }
    }
}

/// `first` minus those `sources` that name a number, wrapped to 32 bits.
pub open spec fn difference_of(variables: Variables, first: i32, sources: Seq<Seq<char>>) -> i32
    decreases sources.len(),
{
    if sources.len() == 0 {
        first
    } else {
        let before = difference_of(variables, first, sources.drop_last());
        if variables.contains_key(sources.last()) {
            match variables[sources.last()] {
                LiteralView::Number(n) => wrap32(before - n),
                _ => before,
            }
        } else {
            before
        }
    }
}

/// What a part of a concatenation stands for: the text of the variable
/// that it names, or the part itself if it names none.
pub open spec fn concat_part_text(variables: Variables, part: Seq<char>) -> Seq<char> {
    if variables.contains_key(part) {
        literal_text(variables[part])
    } else {
        part
    }
}

/// What a part of a print stands for: for a name in braces the text of
/// that variable, or nothing if there is none; else the part itself.
pub open spec fn print_part_text(variables: Variables, part: Seq<char>) -> Seq<char> {
    if is_delimited(part, '{', '}') {
        if variables.contains_key(inner(part)) {
            literal_text(variables[inner(part)])
        } else {
            Seq::empty()
        }
    } else {
        part
    }
}

/// The texts of the parts, one after the other.
pub open spec fn joined_text(variables: Variables, parts: Seq<Seq<char>>, printing: bool) -> Seq<
    char,
>
    decreases parts.len(),
{
    if parts.len() == 0 {
        Seq::empty()
    } else {
        joined_text(variables, parts.drop_last(), printing) + if printing {
            print_part_text(variables, parts.last())
        } else {
            concat_part_text(variables, parts.last())
        }
    }
}

/// Whether a condition holds: the variable is a string that equals,
/// respectively differs from, the literal. With a number or no value the
/// condition does not hold, whichever it is.
pub open spec fn holds(variables: Variables, condition: ConditionView) -> bool {
    match condition {
        ConditionView::Equals(name, literal) => variables.contains_key(name)
            && variables[name] == LiteralView::String(literal),
        ConditionView::NotEquals(name, literal) => variables.contains_key(name)
            && variables[name] is String && variables[name] != LiteralView::String(literal),
    }
}

/// What the caller of `execute` has to do.
#[derive(Debug)]
pub enum Effect {
    /// Nothing.
    Done,
    /// Write this line, followed by a newline.
    Print(String),
    /// Write the prompt, read a line and hand it over with `provide_input`
    /// for the variable named here.
    Read(String),
    /// Execute these statements in order.
    Run(Vec<Statement>),
}

/// The mathematical content of an effect.
pub enum EffectView {
    Done,
    Print(Seq<char>),
    Read(Seq<char>),
    Run(Seq<StatementView>),
}

impl View for Effect {
    type V = EffectView;

    open spec fn view(&self) -> EffectView {
        match *self {
            Effect::Done => EffectView::Done,
            Effect::Print(line) => EffectView::Print(line@),
            Effect::Read(name) => EffectView::Read(name@),
            Effect::Run(statements) => EffectView::Run(block_view(statements@)),
        }
    }
}

/// The variables after executing a statement, and what is left to the
/// caller.
pub struct Executed {
    pub variables: Variables,
    pub effect: EffectView,
}

/// The effect of one statement.
///
/// A declaration sets its variable. An addition sets the target to the sum
/// of the sources that are numbers. A subtraction sets the target only if
/// the first source is a number. A concatenation sets the target to the
/// joined texts of its parts. A print of a variable without a value prints
/// nothing; a print of parts always prints a line. A conditional leaves the
/// statements of the branch taken to the caller.
pub open spec fn execute_spec(variables: Variables, statement: StatementView) -> Executed {
    match statement {
        StatementView::Declaration(name, value) => Executed {
            variables: variables.insert(name, value),
            effect: EffectView::Done,
        },
        StatementView::Addition(target, sources) => Executed {
            variables: variables.insert(target, LiteralView::Number(sum_of(variables, sources))),
            effect: EffectView::Done,
        },
        StatementView::Subtraction(target, sources) => Executed {
            variables: if sources.len() > 0 && variables.contains_key(sources[0])
                && variables[sources[0]] is Number {
                variables.insert(
                    target,
                    LiteralView::Number(
                        difference_of(variables, variables[sources[0]]->Number_0, sources.skip(1)),
                    ),
                )
            } else {
                variables
            },
            effect: EffectView::Done,
        },
        StatementView::StringConcat(target, parts) => Executed {
            variables: variables.insert(
                target,
                LiteralView::String(joined_text(variables, parts, false)),
            ),
            effect: EffectView::Done,
        },
        StatementView::Print(name) => Executed {
            variables,
            effect: if variables.contains_key(name) {
                EffectView::Print(literal_text(variables[name]))
            } else {
                EffectView::Done
            },
        },
        StatementView::PrintString(parts) => Executed {
            variables,
            effect: EffectView::Print(joined_text(variables, parts, true)),
        },
        StatementView::Input(name) => Executed { variables, effect: EffectView::Read(name) },
        StatementView::If(condition, then_branch, else_branch) => Executed {
            variables,
            effect: if holds(variables, condition) {
                EffectView::Run(then_branch)
            } else {
                match else_branch {
                    Some(statement) => EffectView::Run(seq![*statement]),
                    None => EffectView::Done,
                }
            },
        },
    }
}

/// A variable with its value.
struct Binding {
    name: String,
    value: Value,
}

/// The names of `bindings`, in order.
spec fn names_of(bindings: Seq<Binding>) -> Seq<Seq<char>> {
    Seq::new(bindings.len(), |i: int| bindings[i].name@)
}

/// Executes statements on a table of variables.
pub struct Interpreter {
    /// The value of a name is that of the first binding with that name.
    variables: Vec<Binding>,
}

impl View for Interpreter {
    type V = Variables;

    closed spec fn view(&self) -> Variables {
        Map::new(
            |name: Seq<char>| slot_of(names_of(self.variables@), name) < self.variables@.len(),
            |name: Seq<char>| self.variables@[slot_of(names_of(self.variables@), name) as int].value@,
        )
    }
}

fn copy_of(value: &Value) -> (copy: Value)
    ensures
        copy@ == value@,
{
    match value {
        Value::Number(n) => Value::Number(*n),
        Value::String(s) => Value::String(s.clone()),
    }
}

fn text_of_literal(value: &Value) -> (text: String)
    ensures
        text@ == literal_text(value@),
{
    match value {
        Value::Number(n) => number_text(*n),
        Value::String(s) => s.clone(),
    }
}

impl Interpreter {
    /// An interpreter in which no variable has a value.
    pub fn new() -> (interpreter: Self)
        ensures
            interpreter@ == Map::<Seq<char>, LiteralView>::empty(),
    {
        let interpreter = Interpreter { variables: Vec::new() };
        assert(interpreter@ =~= Map::<Seq<char>, LiteralView>::empty());
        interpreter
    }

    fn find(&self, name: &String) -> (index: usize)
        ensures
            index == slot_of(names_of(self.variables@), name@),
            index <= self.variables@.len(),
            index < self.variables@.len() <==> self@.contains_key(name@),
            index < self.variables@.len() ==> self@[name@] == self.variables@[index as int].value@,
    {
        let ghost names = names_of(self.variables@);
        let mut i: usize = 0;
        while i < self.variables.len()
            invariant
                i <= self.variables.len(),
                names == names_of(self.variables@),
                forall|j: int| 0 <= j < i ==> names[j] != name@,
            decreases self.variables.len() - i,
        {
            if self.variables[i].name == *name {
                proof {
                    assert(names[i as int] == name@);
                    lemma_slot_of_unique(names, name@, i as int);
                }
                return i;
            }
            i = i + 1;
        }
        proof {
            lemma_slot_of_unique(names, name@, i as int);
        }
        i
    }

    fn get(&self, name: &String) -> (value: Option<&Value>)
        ensures
            match value {
                Some(v) => self@.contains_key(name@) && self@[name@] == v@,
                None => !self@.contains_key(name@),
            },
    {
        let index = self.find(name);
        if index < self.variables.len() {
            Some(&self.variables[index].value)
        } else {
            None
        }
    }

    fn set(&mut self, name: String, value: Value)
        ensures
            final(self)@ == old(self)@.insert(name@, value@),
    {
        let ghost names = names_of(self.variables@);
        let ghost before = self.variables@;
        let index = self.find(&name);
        proof {
            lemma_slot_of(names, name@);
        }
        if index < self.variables.len() {
            self.variables.set(index, Binding { name, value });
            assert(names_of(self.variables@) == names);
            assert forall|other: Seq<char>| #[trigger]
                old(self)@.insert(name@, value@).contains_key(other) implies self@.contains_key(
                other,
            ) && self@[other] == old(self)@.insert(name@, value@)[other] by {
                lemma_slot_of(names, other);
            }
        } else {
            self.variables.push(Binding { name, value });
            assert(names_of(self.variables@) == names.push(name@));
            assert forall|other: Seq<char>|
                #[trigger] slot_of(names.push(name@), other) == if other == name@ || slot_of(
                    names,
                    other,
                ) < names.len() {
                    slot_of(names, other)
                } else {
                    (names.len() + 1) as nat
                } by {
                lemma_slot_of(names, other);
                assert(names.push(name@).drop_last() == names);
            }
            assert forall|other: Seq<char>| #[trigger]
                old(self)@.insert(name@, value@).contains_key(other) implies self@.contains_key(
                other,
            ) && self@[other] == old(self)@.insert(name@, value@)[other] by {
                lemma_slot_of(names, other);
                if other != name@ {
                    assert(self.variables@[slot_of(names, other) as int] == before[slot_of(
                        names,
                        other,
                    ) as int]);
                }
            }
        }
        assert forall|other: Seq<char>| #[trigger] self@.contains_key(other) implies old(
            self,
        )@.insert(name@, value@).contains_key(other) by {
            lemma_slot_of(names, other);
        }
        assert(self@ =~= old(self)@.insert(name@, value@));
    }

    fn number(&self, name: &String) -> (number: Option<i32>)
        ensures
            match number {
                Some(n) => self@.contains_key(name@) && self@[name@] == LiteralView::Number(n),
                None => !(self@.contains_key(name@) && self@[name@] is Number),
            },
    {
        match self.get(name) {
            Some(Value::Number(n)) => Some(*n),
            _ => None,
        }
    }

    fn sum(&self, sources: &Vec<String>) -> (sum: i32)
        ensures
            sum == sum_of(self@, texts(sources@)),
    {
        let ghost names = texts(sources@);
        let mut sum: i32 = 0;
        let mut i: usize = 0;
        while i < sources.len()
            invariant
                i <= sources.len(),
                names == texts(sources@),
                sum == sum_of(self@, names.take(i as int)),
            decreases sources.len() - i,
        {
            proof {
                assert(names.take(i + 1).drop_last() == names.take(i as int));
                assert(names.take(i + 1).last() == sources@[i as int]@);
            }
            if let Some(n) = self.number(&sources[i]) {
                sum = wrapped(sum as i64 + n as i64);
            }
            i = i + 1;
        }
        proof {
            assert(names.take(sources.len() as int) == names);
        }
        sum
    }

    fn difference(&self, first: i32, sources: &Vec<String>) -> (difference: i32)
        requires
            sources.len() > 0,
        ensures
            difference == difference_of(self@, first, texts(sources@).skip(1)),
    {
        let ghost names = texts(sources@).skip(1);
        let mut difference: i32 = first;
        let mut i: usize = 1;
        while i < sources.len()
            invariant
                1 <= i <= sources.len(),
                names == texts(sources@).skip(1),
                difference == difference_of(self@, first, names.take(i - 1)),
            decreases sources.len() - i,
        {
            proof {
                assert(names.take(i as int).drop_last() == names.take(i - 1));
                assert(names.take(i as int).last() == sources@[i as int]@);
            }
            if let Some(n) = self.number(&sources[i]) {
                difference = wrapped(difference as i64 - n as i64);
            }
            i = i + 1;
        }
        proof {
            assert(names.take(sources.len() - 1) == names);
        }
        difference
    }

    fn part_text(&self, part: &String, printing: bool) -> (text: String)
        ensures
            text@ == if printing {
                print_part_text(self@, part@)
            } else {
                concat_part_text(self@, part@)
            },
    {
        if printing {
            let slice = part.as_str();
            let length = slice.unicode_len();
            if length >= 2 && slice.get_char(0) == '{' && slice.get_char(length - 1) == '}' {
                let name = String::from_str(slice.substring_char(1, length - 1));
                match self.get(&name) {
                    Some(value) => text_of_literal(value),
                    None => String::new(),
                }
            } else {
                part.clone()
            }
        } else {
            match self.get(part) {
                Some(value) => text_of_literal(value),
                None => part.clone(),
            }
        }
    }

    fn join(&self, parts: &Vec<String>, printing: bool) -> (text: String)
        ensures
            text@ == joined_text(self@, texts(parts@), printing),
    {
        let ghost all = texts(parts@);
        let mut text = String::new();
        let mut i: usize = 0;
        while i < parts.len()
            invariant
                i <= parts.len(),
                all == texts(parts@),
                text@ == joined_text(self@, all.take(i as int), printing),
            decreases parts.len() - i,
        {
            proof {
                assert(all.take(i + 1).drop_last() == all.take(i as int));
                assert(all.take(i + 1).last() == parts@[i as int]@);
            }
            let piece = self.part_text(&parts[i], printing);
            text.append(piece.as_str());
            i = i + 1;
        }
        proof {
            assert(all.take(parts.len() as int) == all);
        }
        text
    }

    fn test(&self, condition: &Condition) -> (result: bool)
        ensures
            result == holds(self@, condition@),
    {
        match condition {
            Condition::Equals(name, literal) => match self.get(name) {
                Some(Value::String(text)) => *text == *literal,
                _ => false,
            },
            Condition::NotEquals(name, literal) => match self.get(name) {
                Some(Value::String(text)) => !(*text == *literal),
                _ => false,
            },
        }
    }

    /// Executes one statement as far as that takes no input or output, and
    /// returns what is left to the caller.
    pub fn execute(&mut self, statement: Statement) -> (effect: Effect)
        ensures
            final(self)@ == execute_spec(old(self)@, statement@).variables,
            effect@ == execute_spec(old(self)@, statement@).effect,
    {
        match statement {
            Statement::Declaration(name, value) => {
                self.set(name, value);
                Effect::Done
            },
            Statement::Addition(target, sources) => {
                let sum = self.sum(&sources);
                self.set(target, Value::Number(sum));
                Effect::Done
            },
            Statement::Subtraction(target, sources) => {
                if sources.len() > 0 {
                    if let Some(first) = self.number(&sources[0]) {
                        let difference = self.difference(first, &sources);
                        self.set(target, Value::Number(difference));
                    }
                }
                Effect::Done
            },
            Statement::StringConcat(target, parts) => {
                let text = self.join(&parts, false);
                self.set(target, Value::String(text));
                Effect::Done
            },
            Statement::Print(name) => match self.get(&name) {
                Some(value) => Effect::Print(text_of_literal(value)),
                None => Effect::Done,
            },
            Statement::PrintString(parts) => Effect::Print(self.join(&parts, true)),
            Statement::Input(name) => Effect::Read(name),
            Statement::If(condition, then_branch, else_branch) => {
                if self.test(&condition) {
                    Effect::Run(then_branch)
                } else {
                    match else_branch {
                        Some(statement) => {
                            let mut branch: Vec<Statement> = Vec::new();
                            branch.push(*statement);
                            assert(block_view(branch@) == seq![statement_view(*statement)]);
                            Effect::Run(branch)
                        },
                        None => Effect::Done,
                    }
                }
            },
        }
    }

    /// Stores a line of input in the variable `name`, as a string and
    /// without the whitespace at its start and at its end.
    pub fn provide_input(&mut self, name: String, line: &str)
        ensures
            final(self)@ == old(self)@.insert(name@, LiteralView::String(trim(line@))),
    {
        let chars = chars_of(line);
        let text = trimmed_range(&chars, 0, chars.len());
        assert(chars@.subrange(0, chars.len() as int) == line@);
        self.set(name, Value::String(text));
    }
}

} // verus!
