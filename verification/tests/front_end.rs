use lyangpiler::error::NepalError;
use lyangpiler::lexer::Lexer;
use lyangpiler::parser::Parser;
use lyangpiler::token::Token;

fn lex(source: &str) -> Result<Vec<Token>, NepalError> {
    Lexer::new(source).tokenize()
}

fn show_tokens(source: &str) -> String {
    format!("{:?}", lex(source).expect("the text tokenizes"))
}

fn lex_error(source: &str) -> &'static str {
    match lex(source) {
        Err(NepalError::LexError(message)) => message,
        other => panic!("expected a lexical error, got {:?}", other),
    }
}

fn ident(name: &str) -> Token {
    Token::Identifier(name.to_string())
}

fn text(value: &str) -> Token {
    Token::String(value.to_string())
}

fn show_parse(tokens: Vec<Token>) -> String {
    format!("{:?}", Parser::new(tokens).parse().expect("the tokens parse"))
}

fn parse_error(tokens: Vec<Token>) -> &'static str {
    match Parser::new(tokens).parse() {
        Err(NepalError::ParseError(message)) => message,
        other => panic!("expected a parse error, got {:?}", other),
    }
}

fn show_source(source: &str) -> String {
    show_parse(lex(source).expect("the text tokenizes"))
}

#[test]
fn tokenizes_a_declaration() {
    assert_eq!(show_tokens("oi mug x = 5"), "[OiMug, Identifier(\"x\"), Equals, Number(5)]");
}

#[test]
fn tokenizes_a_print_with_parts() {
    assert_eq!(
        show_tokens("bol mug \"Hello, \" + name"),
        "[BolMug, String(\"Hello, \"), Plus, Identifier(\"name\")]"
    );
}

#[test]
fn tokenizes_every_keyword() {
    assert_eq!(
        show_tokens("oi mug bol mug mug bhan jod ghata lai yedi bhane sakiyo babaal laamo aile feri"),
        "[OiMug, BolMug, Mug, Bhan, Jod, Ghata, Lai, Yedi, Bhane, Sakiyo, Babaal, Laamo, Aile, Feri]"
    );
}

#[test]
fn tokenizes_operators() {
    assert_eq!(
        show_tokens("x == y != z = w + v , u"),
        "[Identifier(\"x\"), IsEquals, Identifier(\"y\"), NotEquals, Identifier(\"z\"), Equals, \
         Identifier(\"w\"), Plus, Identifier(\"v\"), Comma, Identifier(\"u\")]"
    );
    assert_eq!(show_tokens("==="), "[IsEquals, Equals]");
    assert_eq!(show_tokens("="), "[Equals]");
}

#[test]
fn keywords_are_taken_at_the_start_of_a_word() {
    assert_eq!(show_tokens("mugdha"), "[Mug, Identifier(\"dha\")]");
    assert_eq!(show_tokens("bhanx"), "[Bhan, Identifier(\"x\")]");
    assert_eq!(show_tokens("bhanex"), "[Bhane, Identifier(\"x\")]");
    assert_eq!(show_tokens("jodi"), "[Jod, Identifier(\"i\")]");
    assert_eq!(show_tokens("laixlaamo"), "[Lai, Identifier(\"xlaamo\")]");
    assert_eq!(show_tokens("samug"), "[Identifier(\"samug\")]");
    assert_eq!(show_tokens("bol  mug"), "[Identifier(\"bol\"), Mug]");
}

#[test]
fn the_longer_keyword_wins_where_it_is_listed_first() {
    assert_eq!(show_tokens("bhane"), "[Bhane]");
    assert_eq!(show_tokens("bhan"), "[Bhan]");
    assert_eq!(show_tokens("laamo"), "[Laamo]");
}

#[test]
fn skips_whitespace_and_comments() {
    assert_eq!(show_tokens(""), "[]");
    assert_eq!(show_tokens("  \t\r\n  "), "[]");
    assert_eq!(show_tokens("// only a comment"), "[]");
    assert_eq!(
        show_tokens("// first\nbol mug x // trailing\n\u{a0}\u{2003}bol mug y"),
        "[BolMug, Identifier(\"x\"), BolMug, Identifier(\"y\")]"
    );
    assert_eq!(show_tokens("x//y\rz"), "[Identifier(\"x\"), Identifier(\"z\")]");
}

#[test]
fn a_single_slash_is_invalid() {
    assert_eq!(lex_error("x / y"), "Invalid character found");
}

#[test]
fn tokenizes_strings() {
    assert_eq!(show_tokens("\"\""), "[String(\"\")]");
    assert_eq!(show_tokens("\"a b // c\""), "[String(\"a b // c\")]");
    assert_eq!(show_tokens("\"mug\"\"x\""), "[String(\"mug\"), String(\"x\")]");
    assert_eq!(show_tokens("\"\u{928}\u{92e}\""), "[String(\"\u{928}\u{92e}\")]");
    assert_eq!(lex_error("\"abc"), "Unterminated string");
    assert_eq!(lex_error("\""), "Unterminated string");
}

#[test]
fn tokenizes_identifiers() {
    assert_eq!(show_tokens("answer"), "[Identifier(\"answer\")]");
    assert_eq!(show_tokens("x1"), "[Identifier(\"x\"), Number(1)]");
    assert_eq!(show_tokens("\u{e9}t\u{e9}"), "[Identifier(\"\u{e9}t\u{e9}\")]");
    assert_eq!(lex_error("foo_bar"), "Invalid character found");
}

#[test]
fn tokenizes_numbers() {
    assert_eq!(show_tokens("0"), "[Number(0)]");
    assert_eq!(show_tokens("007"), "[Number(7)]");
    assert_eq!(show_tokens("42 7"), "[Number(42), Number(7)]");
    assert_eq!(show_tokens("2147483647"), "[Number(2147483647)]");
    assert_eq!(show_tokens("0000000000002147483647"), "[Number(2147483647)]");
    assert_eq!(lex_error("2147483648"), "Invalid number");
    assert_eq!(lex_error("99999999999999999999999999"), "Invalid number");
    assert_eq!(lex_error("\u{663}"), "Invalid number");
    assert_eq!(lex_error("1\u{b2}"), "Invalid number");
    assert_eq!(lex_error("-5"), "Invalid character found");
}

#[test]
fn lexical_errors() {
    assert_eq!(lex_error("!"), "Expected '=' after '!'");
    assert_eq!(lex_error("x ! y"), "Expected '=' after '!'");
    assert_eq!(lex_error("@"), "Invalid character found");
    assert_eq!(lex_error("bol mug x;"), "Invalid character found");
}

#[test]
fn tokenizing_again_finds_nothing_more() {
    let mut lexer = Lexer::new("bol mug x");
    assert_eq!(lexer.tokenize().unwrap().len(), 2);
    assert!(lexer.tokenize().unwrap().is_empty());
}

#[test]
fn tokenizing_goes_on_after_an_error() {
    let mut lexer = Lexer::new("x ! y");
    assert!(lexer.tokenize().is_err());
    assert_eq!(format!("{:?}", lexer.tokenize().unwrap()), "[Identifier(\"y\")]");
    let mut lexer = Lexer::new("@ y");
    assert!(lexer.tokenize().is_err());
    assert!(lexer.tokenize().is_err());
}

#[test]
fn token_clone_is_equal() {
    let tokens = vec![ident("a"), text("b"), Token::Number(3), Token::Sakiyo];
    let copies: Vec<Token> = tokens.iter().map(|t| t.clone()).collect();
    assert_eq!(format!("{:?}", copies), format!("{:?}", tokens));
}

#[test]
fn parses_declarations() {
    assert_eq!(
        show_parse(vec![Token::OiMug, ident("x"), Token::Equals, Token::Number(5)]),
        "[Declaration(\"x\", Number(5))]"
    );
    assert_eq!(
        show_parse(vec![Token::OiMug, ident("s"), Token::Equals, text("hi")]),
        "[Declaration(\"s\", String(\"hi\"))]"
    );
    assert_eq!(
        show_parse(vec![Token::OiMug, ident("s"), Token::Equals, ident("other")]),
        "[Declaration(\"s\", String(\"other\"))]"
    );
}

#[test]
fn parses_concatenations() {
    assert_eq!(
        show_parse(vec![
            Token::OiMug,
            ident("s"),
            Token::Equals,
            text("a"),
            Token::Plus,
            ident("b"),
            Token::Plus,
            Token::Plus,
            text("c"),
            ident("d"),
            Token::Comma,
        ][..10].to_vec()),
        "[StringConcat(\"s\", [\"a\", \"b\", \"c\", \"d\"])]"
    );
    assert_eq!(
        show_parse(vec![Token::OiMug, ident("s"), Token::Equals, ident("a"), Token::Plus]),
        "[StringConcat(\"s\", [\"a\"])]"
    );
}

#[test]
fn parses_arithmetic_declarations() {
    assert_eq!(
        show_source("oi mug t = jod a, b, c"),
        "[Addition(\"t\", [\"a\", \"b\", \"c\"])]"
    );
    assert_eq!(show_source("oi mug t = ghata a, b"), "[Subtraction(\"t\", [\"a\", \"b\"])]");
    assert_eq!(show_source("oi mug t = jod"), "[Addition(\"t\", [])]");
    assert_eq!(
        show_source("oi mug t = jod a, bol mug t"),
        "[Addition(\"t\", [\"a\"]), Print(\"t\")]"
    );
}

#[test]
fn parses_standalone_arithmetic() {
    assert_eq!(
        show_source("mug jod a, b lai t"),
        "[Addition(\"t\", [\"a\", \"b\"])]"
    );
    assert_eq!(show_source("mug ghata a lai t"), "[Subtraction(\"t\", [\"a\"])]");
}

#[test]
fn parses_prints_and_input() {
    assert_eq!(show_source("bol mug x"), "[Print(\"x\")]");
    assert_eq!(
        show_source("bol mug \"Hello, \" + name"),
        "[PrintString([\"Hello, \", \"{name}\"])]"
    );
    assert_eq!(show_source("bol mug \"a\" \"b\" x"), "[PrintString([\"a\", \"b\", \"{x}\"])]");
    assert_eq!(show_source("oi mug bhan answer"), "[Input(\"answer\")]");
}

#[test]
fn parses_conditionals() {
    assert_eq!(
        show_source("yedi answer babaal \"yes\" bhane bol mug \"ok\" sakiyo"),
        "[If(Equals(\"answer\", \"yes\"), [PrintString([\"ok\"])], None)]"
    );
    assert_eq!(
        show_source("yedi answer laamo \"yes\" bhane sakiyo bol mug x"),
        "[If(NotEquals(\"answer\", \"yes\"), [], None), Print(\"x\")]"
    );
    assert_eq!(
        show_source("yedi a babaal \"1\" bhane bol mug x"),
        "[If(Equals(\"a\", \"1\"), [Print(\"x\")], None)]"
    );
}

#[test]
fn else_if_starts_a_conditional_of_its_own() {
    assert_eq!(
        show_source(
            "yedi a babaal \"1\" bhane bol mug x aile feri a babaal \"2\" bhane bol mug y sakiyo"
        ),
        "[If(Equals(\"a\", \"1\"), [Print(\"x\")], None), \
         If(Equals(\"a\", \"2\"), [Print(\"y\")], None)]"
    );
}

#[test]
fn parses_nested_conditionals() {
    assert_eq!(
        show_source(
            "yedi a babaal \"1\" bhane yedi b laamo \"2\" bhane bol mug b sakiyo bol mug a sakiyo"
        ),
        "[If(Equals(\"a\", \"1\"), [If(NotEquals(\"b\", \"2\"), [Print(\"b\")], None), \
         Print(\"a\")], None)]"
    );
}

#[test]
fn parses_nothing_from_nothing() {
    assert_eq!(show_parse(vec![]), "[]");
}

#[test]
fn parsing_again_finds_nothing_more() {
    let mut parser = Parser::new(vec![Token::BolMug, ident("x")]);
    assert_eq!(parser.parse().unwrap().len(), 1);
    assert!(parser.parse().unwrap().is_empty());
}

#[test]
fn parse_errors_of_statements() {
    assert_eq!(parse_error(vec![Token::Comma]), "Unexpected token");
    assert_eq!(parse_error(vec![ident("x")]), "Unexpected token");
    assert_eq!(parse_error(vec![Token::Sakiyo]), "Unexpected token");
    assert_eq!(
        parse_error(vec![Token::Mug, Token::Plus]),
        "Expected 'jod' or 'ghata' after 'mug'"
    );
    assert_eq!(parse_error(vec![Token::Aile, Token::Plus]), "Expected 'feri' after 'aile'");
    assert_eq!(parse_error(vec![Token::Aile]), "Expected 'feri' after 'aile'");
}

#[test]
fn parse_errors_of_declarations() {
    assert_eq!(parse_error(vec![Token::OiMug, Token::Number(1)]), "Expected identifier");
    assert_eq!(parse_error(vec![Token::OiMug, ident("x"), Token::Plus]), "Expected '='");
    assert_eq!(
        parse_error(vec![Token::OiMug, ident("x"), Token::Equals, Token::Comma]),
        "Expected value"
    );
    assert_eq!(
        parse_error(vec![Token::OiMug, Token::Bhan, Token::Number(1)]),
        "Expected identifier after bhan"
    );
}

#[test]
fn parse_errors_of_prints() {
    assert_eq!(parse_error(vec![Token::BolMug, Token::Comma]), "Expected identifier or string");
}

#[test]
fn parse_errors_of_arithmetic() {
    assert_eq!(
        parse_error(vec![Token::Mug, Token::Jod, ident("a"), Token::Plus]),
        "Expected comma or 'lai'"
    );
    assert_eq!(parse_error(vec![Token::Mug, Token::Jod, ident("a")]), "Expected comma or 'lai'");
    assert_eq!(parse_error(vec![Token::Mug, Token::Jod, Token::Number(1)]), "Expected identifier");
    assert_eq!(
        parse_error(vec![Token::Mug, Token::Ghata, ident("a"), Token::Lai, Token::Number(1)]),
        "Expected target identifier after 'lai'"
    );
}

#[test]
fn parse_errors_of_conditionals() {
    assert_eq!(
        parse_error(vec![Token::Yedi, Token::Number(1)]),
        "Expected variable name after yedi"
    );
    assert_eq!(parse_error(vec![Token::Yedi, ident("a"), Token::Plus]), "Expected babaal or laamo");
    assert_eq!(
        parse_error(vec![Token::Yedi, ident("a"), Token::Babaal, ident("b")]),
        "Expected string literal"
    );
    assert_eq!(
        parse_error(vec![Token::Yedi, ident("a"), Token::Babaal, text("b"), Token::Plus]),
        "Expected 'bhane' after condition"
    );
    assert_eq!(
        parse_error(vec![Token::Yedi, ident("a"), Token::Babaal, text("b")]),
        "Expected 'bhane' after condition"
    );
    assert_eq!(
        parse_error(vec![
            Token::Yedi,
            ident("a"),
            Token::Laamo,
            text("b"),
            Token::Bhane,
            Token::Comma,
        ]),
        "Unexpected token"
    );
}

#[test]
fn statements_cut_short_by_the_end() {
    for tokens in [
        vec![Token::OiMug],
        vec![Token::OiMug, ident("x")],
        vec![Token::OiMug, ident("x"), Token::Equals],
        vec![Token::OiMug, Token::Bhan],
        vec![Token::BolMug],
        vec![Token::Mug],
        vec![Token::Mug, Token::Jod],
        vec![Token::Mug, Token::Jod, ident("a"), Token::Comma],
        vec![Token::Mug, Token::Jod, ident("a"), Token::Lai],
        vec![Token::Yedi],
        vec![Token::Yedi, ident("a")],
        vec![Token::Yedi, ident("a"), Token::Babaal],
        vec![Token::Aile, Token::Feri],
    ] {
        assert_eq!(parse_error(tokens), "Unexpected end of input");
    }
}
