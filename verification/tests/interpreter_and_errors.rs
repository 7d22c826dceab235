use lyangpiler::ast::{Condition, Statement, Value};
use lyangpiler::error::NepalError;
use lyangpiler::interpreter::{Effect, Interpreter};

fn s(text: &str) -> String {
    text.to_string()
}

fn names(list: &[&str]) -> Vec<String> {
    list.iter().map(|n| n.to_string()).collect()
}

/// Executes the statements in order, handing out the lines of `input`, and
/// returns the lines printed.
fn interpret(
    interpreter: &mut Interpreter,
    statements: Vec<Statement>,
    input: &mut Vec<&str>,
    output: &mut Vec<String>,
) {
    for statement in statements {
        match interpreter.execute(statement) {
            Effect::Done => {}
            Effect::Print(line) => output.push(line),
            Effect::Read(name) => interpreter.provide_input(name, input.remove(0)),
            Effect::Run(branch) => interpret(interpreter, branch, input, output),
        }
    }
}

fn run(statements: Vec<Statement>, input: &[&str]) -> Vec<String> {
    let mut output = Vec::new();
    interpret(&mut Interpreter::new(), statements, &mut input.to_vec(), &mut output);
    output
}

fn number(name: &str, value: i32) -> Statement {
    Statement::Declaration(s(name), Value::Number(value))
}

fn string(name: &str, value: &str) -> Statement {
    Statement::Declaration(s(name), Value::String(s(value)))
}

#[test]
fn interpreter_prints_variables() {
    let output = run(
        vec![
            number("n", -7),
            string("t", "text"),
            Statement::Print(s("n")),
            Statement::Print(s("t")),
            Statement::Print(s("missing")),
        ],
        &[],
    );
    assert_eq!(output, vec![s("-7"), s("text")]);
}

#[test]
fn interpreter_redeclares() {
    let output = run(
        vec![number("n", 1), string("n", "now text"), Statement::Print(s("n"))],
        &[],
    );
    assert_eq!(output, vec![s("now text")]);
}

#[test]
fn interpreter_adds_the_numbers_among_the_sources() {
    let output = run(
        vec![
            number("a", 2),
            number("b", 3),
            number("c", 4),
            string("d", "5"),
            Statement::Addition(s("t"), names(&["a", "b", "d", "missing", "c"])),
            Statement::Print(s("t")),
            Statement::Addition(s("u"), vec![]),
            Statement::Print(s("u")),
        ],
        &[],
    );
    assert_eq!(output, vec![s("9"), s("0")]);
}

#[test]
fn interpreter_subtracts_from_the_first_source() {
    let output = run(
        vec![
            number("a", 2),
            number("b", 3),
            number("c", 4),
            string("d", "5"),
            Statement::Subtraction(s("t"), names(&["a", "b", "d", "c"])),
            Statement::Print(s("t")),
            Statement::Subtraction(s("u"), names(&["d", "a"])),
            Statement::Print(s("u")),
            Statement::Subtraction(s("v"), vec![]),
            Statement::Print(s("v")),
            Statement::Subtraction(s("a"), names(&["a", "a"])),
            Statement::Print(s("a")),
        ],
        &[],
    );
    assert_eq!(output, vec![s("-5"), s("0")]);
}

#[test]
fn interpreter_arithmetic_wraps() {
    let output = run(
        vec![
            number("big", i32::MAX),
            number("one", 1),
            Statement::Addition(s("t"), names(&["big", "one"])),
            Statement::Print(s("t")),
            number("small", i32::MIN),
            Statement::Subtraction(s("u"), names(&["small", "one"])),
            Statement::Print(s("u")),
        ],
        &[],
    );
    assert_eq!(output, vec![s("-2147483648"), s("2147483647")]);
}

#[test]
fn interpreter_concatenates() {
    let output = run(
        vec![
            number("n", 3),
            string("who", "World"),
            Statement::StringConcat(s("t"), names(&["Hello, ", "who", " x", "n", "\"q\""])),
            Statement::Print(s("t")),
            Statement::StringConcat(s("e"), vec![]),
            Statement::Print(s("e")),
        ],
        &[],
    );
    assert_eq!(output, vec![s("Hello, World x3\"q\""), s("")]);
}

#[test]
fn interpreter_prints_parts() {
    let output = run(
        vec![
            string("name", "World"),
            number("n", 12),
            Statement::PrintString(names(&["Hello, ", "{name}", "{missing}", "!", "{n}", "name"])),
            Statement::PrintString(vec![]),
            Statement::PrintString(names(&["{", "}", "{}"])),
        ],
        &[],
    );
    assert_eq!(output, vec![s("Hello, World!12name"), s(""), s("{}")]);
}

fn branch(condition: Condition, with_else: bool) -> Statement {
    Statement::If(
        condition,
        vec![Statement::PrintString(names(&["then"])), Statement::PrintString(names(&["more"]))],
        if with_else { Some(Box::new(Statement::PrintString(names(&["else"])))) } else { None },
    )
}

#[test]
fn interpreter_conditionals() {
    let equals = || Condition::Equals(s("answer"), s("yes"));
    let differs = || Condition::NotEquals(s("answer"), s("yes"));
    let yes = || string("answer", "yes");
    let no = || string("answer", "no");
    assert_eq!(run(vec![yes(), branch(equals(), true)], &[]), vec![s("then"), s("more")]);
    assert_eq!(run(vec![no(), branch(equals(), true)], &[]), vec![s("else")]);
    assert_eq!(run(vec![no(), branch(equals(), false)], &[]), Vec::<String>::new());
    assert_eq!(run(vec![no(), branch(differs(), true)], &[]), vec![s("then"), s("more")]);
    assert_eq!(run(vec![yes(), branch(differs(), true)], &[]), vec![s("else")]);
}

#[test]
fn interpreter_conditions_on_numbers_and_missing_variables_do_not_hold() {
    let equals = || Condition::Equals(s("answer"), s("1"));
    let differs = || Condition::NotEquals(s("answer"), s("2"));
    assert_eq!(run(vec![number("answer", 1), branch(equals(), true)], &[]), vec![s("else")]);
    assert_eq!(run(vec![number("answer", 1), branch(differs(), true)], &[]), vec![s("else")]);
    assert_eq!(run(vec![branch(equals(), true)], &[]), vec![s("else")]);
    assert_eq!(run(vec![branch(differs(), false)], &[]), Vec::<String>::new());
}

#[test]
fn interpreter_reads_input() {
    let mut interpreter = Interpreter::new();
    match interpreter.execute(Statement::Input(s("answer"))) {
        Effect::Read(name) => assert_eq!(name, "answer"),
        other => panic!("expected a request for input, got {:?}", other),
    }
    assert!(matches!(interpreter.execute(Statement::Print(s("answer"))), Effect::Done));
    interpreter.provide_input(s("answer"), " \t two words \r\n");
    match interpreter.execute(Statement::Print(s("answer"))) {
        Effect::Print(line) => assert_eq!(line, "two words"),
        other => panic!("expected a line to print, got {:?}", other),
    }
    let output = run(
        vec![Statement::Input(s("answer")), branch(Condition::Equals(s("answer"), s("yes")), true)],
        &["  yes\n"],
    );
    assert_eq!(output, vec![s("then"), s("more")]);
}

#[test]
fn interpreter_conditional_hands_back_the_branch() {
    let mut interpreter = Interpreter::new();
    interpreter.execute(string("answer", "yes"));
    match interpreter.execute(branch(Condition::Equals(s("answer"), s("yes")), true)) {
        Effect::Run(statements) => assert_eq!(
            format!("{:?}", statements),
            "[PrintString([\"then\"]), PrintString([\"more\"])]"
        ),
        other => panic!("expected a branch, got {:?}", other),
    }
    match interpreter.execute(branch(Condition::NotEquals(s("answer"), s("yes")), true)) {
        Effect::Run(statements) => {
            assert_eq!(format!("{:?}", statements), "[PrintString([\"else\"])]")
        }
        other => panic!("expected a branch, got {:?}", other),
    }
}

#[test]
fn error_descriptions() {
    assert_eq!(NepalError::LexError("bad").to_text(), "Lexical error: bad");
    assert_eq!(NepalError::ParseError("bad").to_text(), "Parse error: bad");
    assert_eq!(NepalError::RuntimeError("bad").to_text(), "Runtime error: bad");
    assert_eq!(NepalError::TypeError("bad").to_text(), "Type error: bad");
    assert_eq!(NepalError::NameError("bad").to_text(), "Name error: bad");
    assert_eq!(NepalError::IoError(s("disk full")).to_text(), "IO error: disk full");
    assert_eq!(NepalError::LexError("").to_text(), "Lexical error: ");
    let located = NepalError::FormattedError {
        line: 120,
        error_type: s("Kind"),
        message: s("what happened"),
        code: s("bol mug x"),
        pointer: s("  ^"),
    };
    assert_eq!(
        located.to_text(),
        "Error at line 120: Kind\nDetails: what happened\nCode: bol mug x\n  ^"
    );
}

fn located(error: NepalError, line: usize, code: &str, column: usize) -> (usize, [String; 4]) {
    match NepalError::with_location(error, line, code, column) {
        NepalError::FormattedError { line, error_type, message, code, pointer } => {
            (line, [error_type, message, code, pointer])
        }
        other => panic!("expected a located error, got {:?}", other),
    }
}

#[test]
fn with_location_splits_the_description() {
    let code = "line one\nline two\nline three";
    assert_eq!(
        located(NepalError::RuntimeError("Stack underflow"), 2, code, 4),
        (2, [s("Runtime error"), s("Stack underflow"), s("line two"), s("    ^---- Error location")])
    );
    assert_eq!(
        located(NepalError::RuntimeError("Type error: Cannot add these types"), 1, code, 0),
        (1, [s("Runtime error"), s("Type error"), s("line one"), s("^---- Error location")])
    );
    assert_eq!(
        located(NepalError::ParseError("  spaced \t"), 3, code, 1),
        (3, [s("Parse error"), s("spaced"), s("line three"), s(" ^---- Error location")])
    );
    assert_eq!(
        located(NepalError::LexError(""), 3, code, 1)
            .1[1],
        ""
    );
}

#[test]
fn with_location_of_a_located_error() {
    let inner = NepalError::with_location(NepalError::NameError("x"), 7, "", 0);
    assert_eq!(
        located(inner, 1, "code", 2),
        (1, [s("Error at line 7"), s("Name error\nDetails"), s("code"), s("  ^---- Error location")])
    );
}

#[test]
fn with_location_picks_the_source_line() {
    let error = || NepalError::LexError("x");
    let line = |number: usize, code: &str| located(error(), number, code, 0).1[2].clone();
    assert_eq!(line(1, "only"), "only");
    assert_eq!(line(2, "only"), "");
    assert_eq!(line(0, "only"), "");
    assert_eq!(line(1, ""), "");
    assert_eq!(line(1, "a\r\nb\r\n"), "a");
    assert_eq!(line(2, "a\r\nb\r\n"), "b");
    assert_eq!(line(3, "a\r\nb\r\n"), "");
    assert_eq!(line(2, "a\n\nb"), "");
    assert_eq!(line(3, "a\n\nb"), "b");
    assert_eq!(line(1, "a\rb\nc"), "a\rb");
    assert_eq!(line(2, "a\nb\r"), "b\r");
    assert_eq!(line(1, "\r\n"), "");
    assert_eq!(line(usize::MAX, "a\nb"), "");
}

#[test]
fn nepali_messages() {
    assert_eq!(
        NepalError::NameError("x").to_nepali_message(),
        "\u{905}\u{92a}\u{930}\u{93f}\u{92d}\u{93e}\u{937}\u{93f}\u{924} \u{91a}\u{930}"
    );
    assert_eq!(
        NepalError::TypeError("x").to_nepali_message(),
        "\u{92a}\u{94d}\u{930}\u{915}\u{93e}\u{930} \u{92c}\u{947}\u{92e}\u{947}\u{932}"
    );
    assert_eq!(
        NepalError::RuntimeError("Invalid operation").to_nepali_message(),
        "\u{905}\u{92e}\u{93e}\u{928}\u{94d}\u{92f} \u{938}\u{902}\u{91a}\u{93e}\u{932}\u{928}"
    );
    assert_eq!(
        NepalError::RuntimeError("An Invalid operation here").to_nepali_message(),
        "\u{905}\u{92e}\u{93e}\u{928}\u{94d}\u{92f} \u{938}\u{902}\u{91a}\u{93e}\u{932}\u{928}"
    );
    assert_eq!(
        NepalError::ParseError("x").to_nepali_message(),
        "\u{935}\u{93e}\u{915}\u{94d}\u{92f} \u{930}\u{91a}\u{928}\u{93e} \
         \u{924}\u{94d}\u{930}\u{941}\u{91f}\u{93f}"
    );
    assert_eq!(
        NepalError::RuntimeError("Stack underflow").to_nepali_message(),
        "Runtime error: Stack underflow"
    );
    assert_eq!(
        NepalError::RuntimeError("invalid operation").to_nepali_message(),
        "Runtime error: invalid operation"
    );
    assert_eq!(
        NepalError::RuntimeError("Invalid operatio").to_nepali_message(),
        "Runtime error: Invalid operatio"
    );
    assert_eq!(NepalError::LexError("Invalid operation").to_nepali_message(), "Lexical error: Invalid operation");
    assert_eq!(NepalError::IoError(s("gone")).to_nepali_message(), "IO error: gone");
}
