use lyangpiler::ast::{Condition, Statement, Value as Literal};
use lyangpiler::bytecode::{BytecodeProgram, Instruction, Opcode};
use lyangpiler::compiler::Compiler;
use lyangpiler::error::NepalError;
use lyangpiler::vm::{add_values, compare_values, concat_values, subtract_values, trim_line_end,
    Signal, Value, VM};

fn s(text: &str) -> String {
    text.to_string()
}

fn names(list: &[&str]) -> Vec<String> {
    list.iter().map(|n| n.to_string()).collect()
}

fn compile(statements: Vec<Statement>) -> BytecodeProgram {
    Compiler::new().compile(statements).expect("the script compiles")
}

fn opcodes(program: &BytecodeProgram) -> Vec<Opcode> {
    program.instructions.iter().map(|i| i.opcode).collect()
}

/// Runs the machine to its end, handing it the lines of `input` in order.
fn run_to_end(vm: &mut VM, input: &[&str]) -> Result<Vec<String>, NepalError> {
    let mut output = Vec::new();
    let mut next = 0;
    loop {
        match vm.run(1000)? {
            Signal::Continue => {}
            Signal::Output(line) => output.push(line),
            Signal::AwaitingInput => {
                assert!(vm.provide_input(input[next]));
                next += 1;
            }
            Signal::Halted => return Ok(output),
        }
    }
}

fn run_script(statements: Vec<Statement>, input: &[&str]) -> Result<Vec<String>, NepalError> {
    let mut vm = VM::new(compile(statements));
    run_to_end(&mut vm, input)
}

fn program_of(opcodes: Vec<Opcode>, strings: &[&str], variables: &[&str]) -> BytecodeProgram {
    let mut program = BytecodeProgram::new();
    for text in strings {
        program.add_string(text.to_string());
    }
    for name in variables {
        program.add_variable(name.to_string());
    }
    for opcode in opcodes {
        program.add_instruction(opcode, 1);
    }
    program
}

fn runtime_message(result: Result<Vec<String>, NepalError>) -> &'static str {
    match result {
        Err(NepalError::RuntimeError(message)) => message,
        other => panic!("expected a runtime error, got {:?}", other),
    }
}

#[test]
fn pool_insertion_is_idempotent() {
    let mut program = BytecodeProgram::new();
    assert_eq!(program.add_string(s("hello")), 0);
    assert_eq!(program.add_string(s("world")), 1);
    assert_eq!(program.add_string(s("hello")), 0);
    assert_eq!(program.string_pool, vec![s("hello"), s("world")]);
    assert_eq!(program.add_variable(s("x")), 0);
    assert_eq!(program.add_variable(s("y")), 1);
    assert_eq!(program.add_variable(s("x")), 0);
    assert_eq!(program.add_variable(s("y")), 1);
    assert_eq!(program.variable_names.len(), 2);
}

#[test]
fn pools_are_independent() {
    let mut program = BytecodeProgram::new();
    assert_eq!(program.add_string(s("x")), 0);
    assert_eq!(program.add_variable(s("y")), 0);
    assert_eq!(program.add_variable(s("x")), 1);
    assert_eq!(program.string_pool.len(), 1);
}

#[test]
fn add_instruction_appends() {
    let mut program = BytecodeProgram::new();
    program.add_instruction(Opcode::Jump(99), 7);
    program.add_instruction(Opcode::Halt, 8);
    assert_eq!(
        program.instructions,
        vec![Instruction::new(Opcode::Jump(99), 7), Instruction::new(Opcode::Halt, 8)]
    );
}

#[test]
fn program_clone_keeps_everything() {
    let program = program_of(vec![Opcode::PushString(0), Opcode::Print], &["a"], &["v"]);
    let copy = program.clone();
    assert_eq!(copy.instructions, program.instructions);
    assert_eq!(copy.string_pool, program.string_pool);
    assert_eq!(copy.variable_names, program.variable_names);
}

#[test]
fn declaration_emits_push_and_store() {
    let program = compile(vec![
        Statement::Declaration(s("n"), Literal::Number(5)),
        Statement::Declaration(s("t"), Literal::String(s("hi"))),
    ]);
    assert_eq!(
        opcodes(&program),
        vec![
            Opcode::PushNumber(5),
            Opcode::StoreVariable(0),
            Opcode::PushString(0),
            Opcode::StoreVariable(1),
            Opcode::Halt,
        ]
    );
    assert_eq!(program.variable_names, names(&["n", "t"]));
    assert_eq!(program.string_pool, names(&["hi"]));
}

#[test]
fn addition_emits_fold() {
    let program = compile(vec![Statement::Addition(s("t"), names(&["a", "b", "c"]))]);
    assert_eq!(
        opcodes(&program),
        vec![
            Opcode::LoadVariable(1),
            Opcode::LoadVariable(2),
            Opcode::Add,
            Opcode::LoadVariable(3),
            Opcode::Add,
            Opcode::StoreVariable(0),
            Opcode::Halt,
        ]
    );
    assert_eq!(program.variable_names, names(&["t", "a", "b", "c"]));
}

#[test]
fn instructions_carry_the_current_line() {
    let mut compiler = Compiler::new();
    let first = compiler.compile(vec![Statement::Print(s("a"))]).unwrap();
    assert!(first.instructions.iter().all(|i| i.line_number == 1));
    compiler.set_line(42);
    let second = compiler.compile(vec![Statement::Print(s("a"))]).unwrap();
    let lines: Vec<usize> = second.instructions.iter().map(|i| i.line_number).collect();
    assert_eq!(lines, vec![1, 1, 1, 42, 42, 42]);
    assert_eq!(second.variable_names, names(&["a"]));
}

#[test]
fn arithmetic_fold_addition() {
    let output = run_script(
        vec![
            Statement::Declaration(s("a"), Literal::Number(2)),
            Statement::Declaration(s("b"), Literal::Number(3)),
            Statement::Declaration(s("c"), Literal::Number(4)),
            Statement::Addition(s("t"), names(&["a", "b", "c"])),
            Statement::Print(s("t")),
        ],
        &[],
    );
    assert_eq!(output.unwrap(), vec![s("9")]);
}

#[test]
fn arithmetic_fold_subtraction() {
    let output = run_script(
        vec![
            Statement::Declaration(s("a"), Literal::Number(2)),
            Statement::Declaration(s("b"), Literal::Number(3)),
            Statement::Declaration(s("c"), Literal::Number(4)),
            Statement::Subtraction(s("t"), names(&["a", "b", "c"])),
            Statement::Print(s("t")),
        ],
        &[],
    );
    assert_eq!(output.unwrap(), vec![s("-5")]);
}

#[test]
fn arithmetic_result_is_left_in_the_slot() {
    let program = compile(vec![
        Statement::Declaration(s("a"), Literal::Number(2)),
        Statement::Declaration(s("b"), Literal::Number(3)),
        Statement::Declaration(s("c"), Literal::Number(4)),
        Statement::Addition(s("t"), names(&["a", "b", "c"])),
    ]);
    let slot = program.variable_names.iter().position(|n| n == "t").unwrap();
    let mut with_load = program.clone();
    let halt = with_load.instructions.len() - 1;
    with_load.instructions[halt] = Instruction::new(Opcode::LoadVariable(slot), 1);
    let mut vm = VM::new(with_load);
    assert!(matches!(vm.run(100), Ok(Signal::Halted)));
    assert!(matches!(vm.peek(), Some(Value::Number(9))));
}

#[test]
fn concatenation_table() {
    let joined = concat_values(Value::String(s("x")), Value::Number(1)).unwrap();
    assert!(matches!(joined, Value::String(ref t) if t == "x1"));
    let joined = concat_values(Value::Number(-12), Value::String(s("x"))).unwrap();
    assert!(matches!(joined, Value::String(ref t) if t == "-12x"));
    let joined = concat_values(Value::String(s("a")), Value::String(s("b"))).unwrap();
    assert!(matches!(joined, Value::String(ref t) if t == "ab"));
    let joined = concat_values(Value::String(s("is ")), Value::Boolean(true)).unwrap();
    assert!(matches!(joined, Value::String(ref t) if t == "is true"));
    let joined = concat_values(Value::Boolean(false), Value::String(s("!"))).unwrap();
    assert!(matches!(joined, Value::String(ref t) if t == "false!"));
    for (a, b) in [
        (Value::Number(1), Value::Number(1)),
        (Value::Boolean(true), Value::Boolean(true)),
        (Value::Number(1), Value::Boolean(true)),
        (Value::Boolean(true), Value::Number(1)),
    ] {
        assert!(matches!(
            concat_values(a, b),
            Err(NepalError::RuntimeError("Type error: Cannot concatenate these types"))
        ));
    }
}

#[test]
fn concat_opcode_on_the_machine() {
    let mut vm = VM::new(program_of(
        vec![Opcode::PushString(0), Opcode::PushNumber(1), Opcode::Concat, Opcode::Print],
        &["x"],
        &[],
    ));
    assert_eq!(run_to_end(&mut vm, &[]).unwrap(), vec![s("x1")]);
    let mut vm = VM::new(program_of(
        vec![Opcode::PushNumber(1), Opcode::PushNumber(1), Opcode::Concat, Opcode::Print],
        &[],
        &[],
    ));
    assert_eq!(
        runtime_message(run_to_end(&mut vm, &[])),
        "Type error: Cannot concatenate these types"
    );
    assert!(vm.peek().is_none());
}

#[test]
fn addition_table() {
    assert!(matches!(add_values(Value::Number(2), Value::Number(3)), Ok(Value::Number(5))));
    assert!(matches!(
        add_values(Value::String(s("a")), Value::String(s("b"))),
        Ok(Value::String(ref t)) if t == "ab"
    ));
    assert!(matches!(
        add_values(Value::String(s("a")), Value::Number(7)),
        Ok(Value::String(ref t)) if t == "a7"
    ));
    assert!(matches!(
        add_values(Value::Number(0), Value::String(s("b"))),
        Ok(Value::String(ref t)) if t == "0b"
    ));
    assert!(matches!(
        add_values(Value::String(s("a")), Value::Boolean(true)),
        Err(NepalError::RuntimeError("Type error: Cannot add these types"))
    ));
    assert!(matches!(
        add_values(Value::Boolean(true), Value::Number(1)),
        Err(NepalError::RuntimeError("Type error: Cannot add these types"))
    ));
}

#[test]
fn addition_wraps_at_32_bits() {
    assert!(matches!(
        add_values(Value::Number(i32::MAX), Value::Number(1)),
        Ok(Value::Number(i32::MIN))
    ));
    assert!(matches!(
        subtract_values(Value::Number(i32::MIN), Value::Number(1)),
        Ok(Value::Number(i32::MAX))
    ));
    assert!(matches!(
        add_values(Value::Number(i32::MIN), Value::Number(i32::MIN)),
        Ok(Value::Number(0))
    ));
}

#[test]
fn subtraction_table() {
    assert!(matches!(subtract_values(Value::Number(2), Value::Number(3)), Ok(Value::Number(-1))));
    assert!(matches!(
        subtract_values(Value::String(s("a")), Value::Number(3)),
        Err(NepalError::RuntimeError("Type error: Cannot subtract these types"))
    ));
}

#[test]
fn comparison_table() {
    assert!(matches!(
        compare_values(Value::Number(2), Value::Number(2), false),
        Ok(Value::Boolean(true))
    ));
    assert!(matches!(
        compare_values(Value::Number(2), Value::Number(2), true),
        Ok(Value::Boolean(false))
    ));
    assert!(matches!(
        compare_values(Value::String(s("a")), Value::String(s("b")), false),
        Ok(Value::Boolean(false))
    ));
    assert!(matches!(
        compare_values(Value::String(s("a")), Value::String(s("b")), true),
        Ok(Value::Boolean(true))
    ));
    assert!(matches!(
        compare_values(Value::Boolean(true), Value::Boolean(true), false),
        Ok(Value::Boolean(true))
    ));
    assert!(matches!(
        compare_values(Value::Number(1), Value::String(s("1")), false),
        Err(NepalError::RuntimeError("Type error: Cannot compare these types"))
    ));
}

#[test]
fn value_text() {
    assert_eq!(Value::Number(0).to_text(), "0");
    assert_eq!(Value::Number(7).to_text(), "7");
    assert_eq!(Value::Number(10).to_text(), "10");
    assert_eq!(Value::Number(-305).to_text(), "-305");
    assert_eq!(Value::Number(i32::MAX).to_text(), "2147483647");
    assert_eq!(Value::Number(i32::MIN).to_text(), "-2147483648");
    assert_eq!(Value::String(s("text")).to_text(), "text");
    assert_eq!(Value::Boolean(true).to_text(), "true");
    assert_eq!(Value::Boolean(false).to_text(), "false");
}

fn answer_script(with_else: bool) -> Vec<Statement> {
    vec![
        Statement::Input(s("answer")),
        Statement::If(
            Condition::Equals(s("answer"), s("yes")),
            vec![Statement::PrintString(names(&["ok"]))],
            if with_else {
                Some(Box::new(Statement::PrintString(names(&["not ok"]))))
            } else {
                None
            },
        ),
    ]
}

#[test]
fn conditional_branching() {
    assert_eq!(run_script(answer_script(false), &["yes\n"]).unwrap(), vec![s("ok")]);
    assert_eq!(run_script(answer_script(false), &["no\n"]).unwrap(), Vec::<String>::new());
}

#[test]
fn conditional_with_else_branch() {
    assert_eq!(run_script(answer_script(true), &["yes\n"]).unwrap(), vec![s("ok")]);
    assert_eq!(run_script(answer_script(true), &["no\n"]).unwrap(), vec![s("not ok")]);
}

#[test]
fn inequality_condition_takes_the_other_branch() {
    let script = |answer: &str| {
        vec![
            Statement::Declaration(s("answer"), Literal::String(s(answer))),
            Statement::If(
                Condition::NotEquals(s("answer"), s("yes")),
                vec![Statement::PrintString(names(&["different"]))],
                None,
            ),
        ]
    };
    assert_eq!(run_script(script("no"), &[]).unwrap(), vec![s("different")]);
    assert_eq!(run_script(script("yes"), &[]).unwrap(), Vec::<String>::new());
}

#[test]
fn jump_targets_without_else() {
    let program = compile(vec![Statement::If(
        Condition::Equals(s("answer"), s("yes")),
        vec![Statement::PrintString(names(&["ok"]))],
        None,
    )]);
    assert_eq!(
        opcodes(&program),
        vec![
            Opcode::LoadVariable(0),
            Opcode::PushString(0),
            Opcode::Equal,
            Opcode::JumpIfFalse(6),
            Opcode::PushString(1),
            Opcode::Print,
            Opcode::Halt,
        ]
    );
}

#[test]
fn jump_targets_with_else() {
    let program = compile(answer_script(true));
    assert_eq!(
        opcodes(&program),
        vec![
            Opcode::Input,
            Opcode::StoreVariable(0),
            Opcode::LoadVariable(0),
            Opcode::PushString(0),
            Opcode::Equal,
            Opcode::JumpIfFalse(9),
            Opcode::PushString(1),
            Opcode::Print,
            Opcode::Jump(11),
            Opcode::PushString(2),
            Opcode::Print,
            Opcode::Halt,
        ]
    );
}

#[test]
fn jump_targets_of_nested_conditionals() {
    let inner = Statement::If(
        Condition::NotEquals(s("b"), s("2")),
        vec![Statement::Print(s("b"))],
        Some(Box::new(Statement::Print(s("a")))),
    );
    let program = compile(vec![Statement::If(
        Condition::Equals(s("a"), s("1")),
        vec![inner, Statement::Print(s("a"))],
        None,
    )]);
    assert_eq!(
        opcodes(&program),
        vec![
            Opcode::LoadVariable(0),
            Opcode::PushString(0),
            Opcode::Equal,
            Opcode::JumpIfFalse(15),
            Opcode::LoadVariable(1),
            Opcode::PushString(1),
            Opcode::NotEqual,
            Opcode::JumpIfFalse(11),
            Opcode::LoadVariable(1),
            Opcode::Print,
            Opcode::Jump(13),
            Opcode::LoadVariable(0),
            Opcode::Print,
            Opcode::LoadVariable(0),
            Opcode::Print,
            Opcode::Halt,
        ]
    );
    for (index, instruction) in program.instructions.iter().enumerate() {
        if let Opcode::Jump(target) | Opcode::JumpIfFalse(target) = instruction.opcode {
            assert!(index < target && target < program.instructions.len());
        }
    }
}

#[test]
fn interpolated_print() {
    let output = run_script(
        vec![
            Statement::Declaration(s("name"), Literal::String(s("World"))),
            Statement::PrintString(names(&["Hello, ", "{name}"])),
        ],
        &[],
    );
    assert_eq!(output.unwrap(), vec![s("Hello, World")]);
}

#[test]
fn print_string_without_parts_emits_nothing() {
    let program = compile(vec![Statement::PrintString(vec![])]);
    assert_eq!(opcodes(&program), vec![Opcode::Halt]);
}

#[test]
fn string_concat_parts() {
    let program = compile(vec![Statement::StringConcat(
        s("t"),
        names(&["\"lit\"", "v", "\"", "\"\""]),
    )]);
    assert_eq!(
        opcodes(&program),
        vec![
            Opcode::PushString(0),
            Opcode::LoadVariable(1),
            Opcode::Concat,
            Opcode::LoadVariable(2),
            Opcode::Concat,
            Opcode::PushString(1),
            Opcode::Concat,
            Opcode::StoreVariable(0),
            Opcode::Halt,
        ]
    );
    assert_eq!(program.string_pool, names(&["lit", ""]));
    assert_eq!(program.variable_names, names(&["t", "v", "\""]));
}

#[test]
fn string_concat_runs() {
    let output = run_script(
        vec![
            Statement::Declaration(s("n"), Literal::Number(3)),
            Statement::StringConcat(s("t"), names(&["\"n = \"", "n"])),
            Statement::Print(s("t")),
        ],
        &[],
    );
    assert_eq!(output.unwrap(), vec![s("n = 3")]);
}

#[test]
fn empty_sources_fail() {
    let cases = [
        (Statement::Addition(s("t"), vec![]), "Addition requires at least one source variable"),
        (
            Statement::Subtraction(s("t"), vec![]),
            "Subtraction requires at least one source variable",
        ),
        (
            Statement::StringConcat(s("t"), vec![]),
            "String concatenation requires at least one part",
        ),
    ];
    for (statement, expected) in cases {
        let mut compiler = Compiler::new();
        match compiler.compile(vec![statement]) {
            Err(NepalError::RuntimeError(message)) => assert_eq!(message, expected),
            other => panic!("expected a compile-time error, got {:?}", other),
        }
        let after = compiler.compile(vec![]).unwrap();
        assert_eq!(opcodes(&after), vec![Opcode::Halt]);
        assert!(after.variable_names.is_empty());
    }
}

#[test]
fn failure_inside_a_branch_aborts_compilation() {
    let mut compiler = Compiler::new();
    let result = compiler.compile(vec![
        Statement::Print(s("a")),
        Statement::If(
            Condition::Equals(s("a"), s("x")),
            vec![Statement::Addition(s("t"), vec![])],
            None,
        ),
        Statement::Print(s("never")),
    ]);
    assert!(matches!(result, Err(NepalError::RuntimeError(_))));
}

#[test]
fn stack_underflow_on_print() {
    let mut vm = VM::new(program_of(vec![Opcode::Print], &[], &[]));
    assert!(matches!(vm.run(10), Err(NepalError::RuntimeError("Stack underflow"))));
}

#[test]
fn stack_underflow_on_every_popping_opcode() {
    for opcode in [
        Opcode::Pop,
        Opcode::StoreVariable(0),
        Opcode::Add,
        Opcode::Subtract,
        Opcode::Concat,
        Opcode::Equal,
        Opcode::NotEqual,
        Opcode::JumpIfTrue(0),
        Opcode::JumpIfFalse(0),
    ] {
        let mut vm = VM::new(program_of(vec![opcode], &[], &["v"]));
        assert!(matches!(vm.step(), Err(NepalError::RuntimeError("Stack underflow"))));
        let mut vm = VM::new(program_of(vec![Opcode::PushNumber(1), opcode], &[], &["v"]));
        let binary = matches!(
            opcode,
            Opcode::Add | Opcode::Subtract | Opcode::Concat | Opcode::Equal | Opcode::NotEqual
        );
        assert!(matches!(vm.step(), Ok(Signal::Continue)));
        if binary {
            assert!(matches!(vm.step(), Err(NepalError::RuntimeError("Stack underflow"))));
            assert!(matches!(vm.peek(), Some(Value::Number(1))));
        }
    }
}

#[test]
fn index_errors() {
    let mut vm = VM::new(program_of(vec![Opcode::PushString(1)], &["only"], &[]));
    assert!(matches!(
        vm.step(),
        Err(NepalError::RuntimeError("String constant index out of bounds"))
    ));
    let mut vm = VM::new(program_of(vec![Opcode::LoadVariable(1)], &[], &["only"]));
    assert!(matches!(vm.step(), Err(NepalError::RuntimeError("Variable index out of bounds"))));
    let mut vm = VM::new(program_of(vec![Opcode::PushVariable(1)], &[], &["only"]));
    assert!(matches!(vm.step(), Err(NepalError::RuntimeError("Variable index out of bounds"))));
    let mut vm =
        VM::new(program_of(vec![Opcode::PushNumber(4), Opcode::StoreVariable(1)], &[], &["only"]));
    assert!(matches!(vm.step(), Ok(Signal::Continue)));
    assert!(matches!(vm.step(), Err(NepalError::RuntimeError("Variable index out of bounds"))));
    assert!(vm.peek().is_none());
}

#[test]
fn jump_condition_must_be_boolean() {
    let mut vm = VM::new(program_of(vec![Opcode::PushNumber(1), Opcode::JumpIfFalse(0)], &[], &[]));
    assert!(matches!(
        vm.run(10),
        Err(NepalError::RuntimeError("Type error: Condition must be boolean"))
    ));
}

#[test]
fn conditional_jumps() {
    let program = |jump: Opcode, b: i32| {
        program_of(
            vec![
                Opcode::PushNumber(1),
                Opcode::PushNumber(b),
                Opcode::Equal,
                jump,
                Opcode::PushString(0),
                Opcode::Print,
                Opcode::Halt,
            ],
            &["fell through"],
            &[],
        )
    };
    let run = |jump: Opcode, b: i32| run_to_end(&mut VM::new(program(jump, b)), &[]).unwrap();
    assert_eq!(run(Opcode::JumpIfTrue(6), 1), Vec::<String>::new());
    assert_eq!(run(Opcode::JumpIfTrue(6), 2), vec![s("fell through")]);
    assert_eq!(run(Opcode::JumpIfFalse(6), 1), vec![s("fell through")]);
    assert_eq!(run(Opcode::JumpIfFalse(6), 2), Vec::<String>::new());
    assert_eq!(run(Opcode::Jump(6), 1), Vec::<String>::new());
}

#[test]
fn push_variable_pushes_the_name() {
    let mut vm = VM::new(program_of(vec![Opcode::PushVariable(0)], &[], &["count"]));
    assert!(matches!(vm.step(), Ok(Signal::Continue)));
    assert!(matches!(vm.peek(), Some(Value::String(name)) if name == "count"));
}

#[test]
fn variables_start_as_zero() {
    let mut vm = VM::new(program_of(vec![Opcode::LoadVariable(1), Opcode::Print], &[], &["a", "b"]));
    assert_eq!(run_to_end(&mut vm, &[]).unwrap(), vec![s("0")]);
}

#[test]
fn return_and_pop_only_advance() {
    let mut vm = VM::new(program_of(
        vec![Opcode::Return, Opcode::PushNumber(1), Opcode::PushNumber(2), Opcode::Pop],
        &[],
        &[],
    ));
    assert!(matches!(vm.run(10), Ok(Signal::Halted)));
    assert!(matches!(vm.peek(), Some(Value::Number(1))));
}

#[test]
fn running_off_the_end_is_a_halt() {
    let mut vm = VM::new(program_of(vec![Opcode::PushNumber(1)], &[], &[]));
    assert!(matches!(vm.run(10), Ok(Signal::Halted)));
    assert!(matches!(vm.run(10), Ok(Signal::Halted)));
    assert!(matches!(vm.step(), Ok(Signal::Halted)));
    let mut empty = VM::new(BytecodeProgram::new());
    assert!(matches!(empty.run(0), Ok(Signal::Halted)));
}

#[test]
fn halt_stops_before_later_instructions() {
    let mut vm = VM::new(program_of(
        vec![Opcode::PushNumber(1), Opcode::Halt, Opcode::PushNumber(2)],
        &[],
        &[],
    ));
    assert!(matches!(vm.run(10), Ok(Signal::Halted)));
    assert!(matches!(vm.peek(), Some(Value::Number(1))));
    assert!(matches!(vm.run(10), Ok(Signal::Halted)));
    assert!(matches!(vm.peek(), Some(Value::Number(1))));
}

#[test]
fn budget_limits_a_run() {
    let mut vm = VM::new(program_of(vec![Opcode::Jump(0)], &[], &[]));
    assert!(matches!(vm.run(1000), Ok(Signal::Continue)));
    assert!(matches!(vm.run(0), Ok(Signal::Continue)));
    let mut vm = VM::new(program_of(vec![Opcode::PushNumber(1), Opcode::PushNumber(2)], &[], &[]));
    assert!(matches!(vm.run(1), Ok(Signal::Continue)));
    assert!(matches!(vm.peek(), Some(Value::Number(1))));
    assert!(matches!(vm.run(1), Ok(Signal::Halted)));
    assert!(matches!(vm.peek(), Some(Value::Number(2))));
}

#[test]
fn input_waits_for_a_line() {
    let mut vm = VM::new(program_of(vec![Opcode::Input, Opcode::Print], &[], &[]));
    assert!(!VM::new(BytecodeProgram::new()).provide_input("ignored"));
    assert!(matches!(vm.run(10), Ok(Signal::AwaitingInput)));
    assert!(matches!(vm.run(10), Ok(Signal::AwaitingInput)));
    assert!(vm.peek().is_none());
    assert!(vm.provide_input("  two words \r\n"));
    assert!(matches!(vm.peek(), Some(Value::String(line)) if line == "  two words "));
    assert!(!vm.provide_input("again"));
    assert!(matches!(vm.run(10), Ok(Signal::Output(line)) if line == "  two words "));
    assert!(matches!(vm.run(10), Ok(Signal::Halted)));
}

#[test]
fn line_endings_are_trimmed() {
    assert_eq!(trim_line_end("yes\n"), "yes");
    assert_eq!(trim_line_end("yes\r\n"), "yes");
    assert_eq!(trim_line_end("yes"), "yes");
    assert_eq!(trim_line_end("a\nb\n\n"), "a\nb");
    assert_eq!(trim_line_end("\n"), "");
    assert_eq!(trim_line_end(""), "");
    assert_eq!(trim_line_end(" padded \n"), " padded ");
}

#[test]
fn reset_restores_the_initial_state() {
    let mut vm = VM::new(program_of(
        vec![Opcode::PushNumber(5), Opcode::StoreVariable(0), Opcode::PushNumber(6), Opcode::Halt],
        &[],
        &["v"],
    ));
    assert!(matches!(vm.run(10), Ok(Signal::Halted)));
    assert!(matches!(vm.peek(), Some(Value::Number(6))));
    vm.reset();
    assert!(vm.peek().is_none());
    assert!(matches!(vm.run(10), Ok(Signal::Halted)));
    assert!(matches!(vm.peek(), Some(Value::Number(6))));
    vm.reset();
    let mut probe = VM::new(program_of(vec![Opcode::LoadVariable(0)], &[], &["v"]));
    probe.reset();
    assert!(matches!(probe.step(), Ok(Signal::Continue)));
    assert!(matches!(probe.peek(), Some(Value::Number(0))));
}

#[test]
fn value_clone_is_equal() {
    let value = Value::String(s("copy me"));
    assert!(matches!(value.clone(), Value::String(text) if text == "copy me"));
    assert!(matches!(Value::Number(3).clone(), Value::Number(3)));
    assert!(matches!(Value::Boolean(true).clone(), Value::Boolean(true)));
}

#[test]
fn compiled_code_ends_within_its_length() {
    let inner = Statement::If(
        Condition::NotEquals(s("b"), s("2")),
        vec![Statement::Addition(s("t"), names(&["a", "b"]))],
        Some(Box::new(Statement::Subtraction(s("t"), names(&["a"])))),
    );
    let program = compile(vec![
        Statement::Declaration(s("a"), Literal::String(s("1"))),
        Statement::Declaration(s("b"), Literal::String(s("2"))),
        Statement::If(Condition::Equals(s("a"), s("1")), vec![inner], None),
    ]);
    let budget = program.instructions.len();
    let mut vm = VM::new(program);
    assert!(matches!(vm.run(budget), Ok(Signal::Halted)));
    assert!(vm.peek().is_none());
}

#[test]
fn compiled_code_refers_into_its_pools() {
    let program = compile(vec![
        Statement::Declaration(s("a"), Literal::String(s("x"))),
        Statement::StringConcat(s("t"), names(&["\"lit\"", "a", "b"])),
        Statement::PrintString(names(&["{t}", "!", "x"])),
    ]);
    for instruction in &program.instructions {
        match instruction.opcode {
            Opcode::PushString(index) => assert!(index < program.string_pool.len()),
            Opcode::LoadVariable(index) | Opcode::StoreVariable(index) => {
                assert!(index < program.variable_names.len())
            }
            _ => {}
        }
    }
    assert_eq!(program.string_pool, names(&["x", "lit", "!"]));
    assert_eq!(program.variable_names, names(&["a", "t", "b"]));
    let mut vm = VM::new(program);
    assert_eq!(run_to_end(&mut vm, &[]).unwrap(), vec![s("litx0!x")]);
}

#[test]
fn source_text_to_output() {
    let source = "// greet\noi mug name = \"World\"\nbol mug \"Hello, \" + name\n\
                  oi mug a = 2\noi mug b = 3\nmug jod a, b lai t\nbol mug t\n\
                  yedi name babaal \"World\" bhane bol mug \"yes\" sakiyo";
    let tokens = lyangpiler::lexer::Lexer::new(source).tokenize().unwrap();
    let statements = lyangpiler::parser::Parser::new(tokens).parse().unwrap();
    assert_eq!(
        run_script(statements, &[]).unwrap(),
        vec![s("Hello, World"), s("5"), s("yes")]
    );
}
