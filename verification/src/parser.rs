//! The parser from tokens to statements.
//!
//! The `parse_*` spec functions say which statement stands at a place of the
//! token sequence; `Parser` produces exactly that. Where a statement needs a
//! token and the sequence has ended, the error is "Unexpected end of input".

use vstd::prelude::*;
use crate::ast::{Condition, ConditionView, LiteralView, Statement, StatementView, Value,
    block_view, statement_view};
use crate::bytecode::texts;
use crate::error::{ErrorView, NepalError};
use crate::token::{Token, TokenView, token_views};

verus! {

/// What parsing at one place gave, a value or the message of a parse error,
/// and the index of the token at which the parser then stands.
pub struct Parsed<T> {
    pub result: Result<T, Seq<char>>,
    pub next: int,
}

/// Parsing gave `value`, and the parser stands at `next`.
pub open spec fn parsed<T>(value: T, next: int) -> Parsed<T> {
    Parsed { result: Ok(value), next }
}

/// Parsing failed with `message`, and the parser stands at `next`.
pub open spec fn failed<T>(message: Seq<char>, next: int) -> Parsed<T> {
    Parsed { result: Err(message), next }
}

/// The error for a statement that the end of the tokens cuts short.
pub open spec fn cut_short<T>(next: int) -> Parsed<T> {
    failed("Unexpected end of input"@, next)
}

/// The token at `pos`, if there is one.
pub open spec fn token_at(tokens: Seq<TokenView>, pos: int) -> Option<TokenView> {
    if 0 <= pos < tokens.len() {
        Some(tokens[pos])
    } else {
        None
    }
}

/// The identifier at `pos`: with any other token there the error is
/// `message`.
pub open spec fn parse_name(tokens: Seq<TokenView>, pos: int, message: Seq<char>) -> Parsed<
    Seq<char>,
> {
    match token_at(tokens, pos) {
        Some(TokenView::Identifier(name)) => parsed(name, pos + 1),
        Some(_) => failed(message, pos),
        None => cut_short(pos),
    }
}

/// The operands of a concatenation from `pos` on, after `before`: strings
/// and identifiers, with any number of `+` among them.
pub open spec fn parse_concat_parts(tokens: Seq<TokenView>, pos: int, before: Seq<Seq<char>>) -> Parsed<
    Seq<Seq<char>>,
>
    decreases tokens.len() - pos,
{
    match token_at(tokens, pos) {
        Some(TokenView::String(text)) => parse_concat_parts(tokens, pos + 1, before.push(text)),
        Some(TokenView::Identifier(name)) => parse_concat_parts(
            tokens,
            pos + 1,
            before.push(name),
        ),
        Some(TokenView::Plus) => parse_concat_parts(tokens, pos + 1, before),
        _ => parsed(before, pos),
    }
}

/// An identifier as a part of a print: its name in braces.
pub open spec fn interpolation(name: Seq<char>) -> Seq<char> {
    "{"@ + name + "}"@
}

/// The parts of a print from `pos` on, after `before`: strings as they are
/// and identifiers in braces, with any number of `+` among them.
pub open spec fn parse_print_parts(tokens: Seq<TokenView>, pos: int, before: Seq<Seq<char>>) -> Parsed<
    Seq<Seq<char>>,
>
    decreases tokens.len() - pos,
{
    match token_at(tokens, pos) {
        Some(TokenView::String(text)) => parse_print_parts(tokens, pos + 1, before.push(text)),
        Some(TokenView::Identifier(name)) => parse_print_parts(
            tokens,
            pos + 1,
            before.push(interpolation(name)),
        ),
        Some(TokenView::Plus) => parse_print_parts(tokens, pos + 1, before),
        _ => parsed(before, pos),
    }
}

/// The sources of `target = jod a, b` from `pos` on, after `before`:
/// identifiers, each but the last followed by a comma.
pub open spec fn parse_sources(tokens: Seq<TokenView>, pos: int, before: Seq<Seq<char>>) -> Parsed<
    Seq<Seq<char>>,
>
    decreases tokens.len() - pos,
{
    match token_at(tokens, pos) {
        Some(TokenView::Identifier(name)) => if token_at(tokens, pos + 1) == Some(
            TokenView::Comma,
        ) {
            parse_sources(tokens, pos + 2, before.push(name))
        } else {
            parsed(before.push(name), pos + 1)
        },
        _ => parsed(before, pos),
    }
}

/// The sources of `mug jod a, b lai target` from `pos` on, after `before`:
/// identifiers, each followed by a comma, the last by `lai`. The end of the
/// tokens ends the list too.
pub open spec fn parse_listed_sources(tokens: Seq<TokenView>, pos: int, before: Seq<Seq<char>>) -> Parsed<
    Seq<Seq<char>>,
>
    decreases tokens.len() - pos,
{
    match token_at(tokens, pos) {
        Some(TokenView::Identifier(name)) => match token_at(tokens, pos + 1) {
            Some(TokenView::Comma) => parse_listed_sources(tokens, pos + 2, before.push(name)),
            Some(TokenView::Lai) => parsed(before.push(name), pos + 2),
            _ => failed("Expected comma or 'lai'"@, pos + 1),
        },
        Some(_) => failed("Expected identifier"@, pos),
        None => parsed(before, pos),
    }
}

/// The statement `target = jod a, b` or `target = ghata a, b`, with the
/// operator at `pos`.
pub open spec fn parse_arithmetic_operation(tokens: Seq<TokenView>, pos: int, target: Seq<char>) -> Parsed<
    StatementView,
> {
    let sources = parse_sources(tokens, pos + 1, Seq::empty());
    match (token_at(tokens, pos), sources.result) {
        (Some(TokenView::Jod), Ok(names)) => parsed(
            StatementView::Addition(target, names),
            sources.next,
        ),
        (_, Ok(names)) => parsed(StatementView::Subtraction(target, names), sources.next),
        (_, Err(message)) => failed(message, sources.next),
    }
}

/// The statement `mug jod a, b lai target` or `mug ghata a, b lai target`,
/// with the first source at `pos`.
pub open spec fn parse_standalone_arithmetic(tokens: Seq<TokenView>, pos: int, is_addition: bool) -> Parsed<
    StatementView,
> {
    let sources = parse_listed_sources(tokens, pos, Seq::empty());
    match sources.result {
        Err(message) => failed(message, sources.next),
        Ok(names) => {
            let target = parse_name(
                tokens,
                sources.next,
                "Expected target identifier after 'lai'"@,
            );
            match target.result {
                Err(message) => failed(message, target.next),
                Ok(name) => parsed(
                    if is_addition {
                        StatementView::Addition(name, names)
                    } else {
                        StatementView::Subtraction(name, names)
                    },
                    target.next,
                ),
            }
        },
    }
}

/// What follows the first operand `first` of a declaration, with `pos`
/// after that operand: with a `+` there a concatenation, else the
/// declaration of a string.
pub open spec fn parse_text_value(tokens: Seq<TokenView>, pos: int, name: Seq<char>, first: Seq<char>) -> Parsed<
    StatementView,
> {
    if token_at(tokens, pos) == Some(TokenView::Plus) {
        let parts = parse_concat_parts(tokens, pos + 1, seq![first]);
        match parts.result {
            Ok(list) => parsed(StatementView::StringConcat(name, list), parts.next),
            Err(message) => failed(message, parts.next),
        }
    } else {
        parsed(StatementView::Declaration(name, LiteralView::String(first)), pos)
    }
}

/// The statement `oi mug name = value`, with the name at `pos`. The value is
/// a number, a string or an identifier, which may start a concatenation, or
/// `jod` or `ghata` with their sources. A lone identifier declares the
/// string that spells it.
pub open spec fn parse_declaration(tokens: Seq<TokenView>, pos: int) -> Parsed<StatementView> {
    let name = parse_name(tokens, pos, "Expected identifier"@);
    match name.result {
        Err(message) => failed(message, name.next),
        Ok(target) => match token_at(tokens, pos + 1) {
            None => cut_short(pos + 1),
            Some(TokenView::Equals) => match token_at(tokens, pos + 2) {
                None => cut_short(pos + 2),
                Some(TokenView::Number(n)) => parsed(
                    StatementView::Declaration(target, LiteralView::Number(n)),
                    pos + 3,
                ),
                Some(TokenView::String(text)) => parse_text_value(tokens, pos + 3, target, text),
                Some(TokenView::Identifier(text)) => parse_text_value(
                    tokens,
                    pos + 3,
                    target,
                    text,
                ),
                Some(TokenView::Jod) => parse_arithmetic_operation(tokens, pos + 2, target),
                Some(TokenView::Ghata) => parse_arithmetic_operation(tokens, pos + 2, target),
                Some(_) => failed("Expected value"@, pos + 2),
            },
            Some(_) => failed("Expected '='"@, pos + 1),
        },
    }
}

/// The statement `bol mug ...`, with `bol mug` at `pos`: with a string
/// next a print of parts, else the print of a variable.
pub open spec fn parse_print(tokens: Seq<TokenView>, pos: int) -> Parsed<StatementView> {
    match token_at(tokens, pos + 1) {
        None => cut_short(pos + 1),
        Some(TokenView::String(_)) => {
            let parts = parse_print_parts(tokens, pos + 1, Seq::empty());
            match parts.result {
                Ok(list) => parsed(StatementView::PrintString(list), parts.next),
                Err(message) => failed(message, parts.next),
            }
        },
        Some(TokenView::Identifier(name)) => parsed(StatementView::Print(name), pos + 2),
        Some(_) => failed("Expected identifier or string"@, pos + 1),
    }
}

/// The statement `oi mug bhan name`, with the name at `pos`.
pub open spec fn parse_input(tokens: Seq<TokenView>, pos: int) -> Parsed<StatementView> {
    let name = parse_name(tokens, pos, "Expected identifier after bhan"@);
    match name.result {
        Ok(target) => parsed(StatementView::Input(target), name.next),
        Err(message) => failed(message, name.next),
    }
}

/// The head of a conditional from `pos` on: an optional `yedi`, a variable,
/// `babaal` (equal) or `laamo` (different), a string and `bhane`.
pub open spec fn parse_condition(tokens: Seq<TokenView>, pos: int) -> Parsed<ConditionView> {
    let start = if token_at(tokens, pos) == Some(TokenView::Yedi) {
        pos + 1
    } else {
        pos
    };
    let name = parse_name(tokens, start, "Expected variable name after yedi"@);
    match name.result {
        Err(message) => failed(message, name.next),
        Ok(variable) => match token_at(tokens, start + 1) {
            None => cut_short(start + 1),
            Some(relation) => if relation != TokenView::Babaal && relation != TokenView::Laamo {
                failed("Expected babaal or laamo"@, start + 1)
            } else {
                match token_at(tokens, start + 2) {
                    None => cut_short(start + 2),
                    Some(TokenView::String(literal)) => if token_at(tokens, start + 3) == Some(
                        TokenView::Bhane,
                    ) {
                        parsed(
                            if relation == TokenView::Babaal {
                                ConditionView::Equals(variable, literal)
                            } else {
                                ConditionView::NotEquals(variable, literal)
                            },
                            start + 4,
                        )
                    } else {
                        failed("Expected 'bhane' after condition"@, start + 3)
                    },
                    Some(_) => failed("Expected string literal"@, start + 2),
                }
            },
        },
    }
}

/// The statement at `pos`, where there is a token.
pub open spec fn parse_statement(tokens: Seq<TokenView>, pos: int) -> Parsed<StatementView>
    decreases tokens.len() - pos, 1nat,
{
    match token_at(tokens, pos) {
        Some(TokenView::OiMug) => if token_at(tokens, pos + 1) == Some(TokenView::Bhan) {
            parse_input(tokens, pos + 2)
        } else {
            parse_declaration(tokens, pos + 1)
        },
        Some(TokenView::BolMug) => parse_print(tokens, pos),
        Some(TokenView::Mug) => match token_at(tokens, pos + 1) {
            None => cut_short(pos + 1),
            Some(TokenView::Jod) => parse_standalone_arithmetic(tokens, pos + 2, true),
            Some(TokenView::Ghata) => parse_standalone_arithmetic(tokens, pos + 2, false),
            Some(_) => failed("Expected 'jod' or 'ghata' after 'mug'"@, pos + 1),
        },
        Some(TokenView::Yedi) => parse_if_statement(tokens, pos),
        Some(TokenView::Aile) => if token_at(tokens, pos + 1) == Some(TokenView::Feri) {
            parse_if_statement(tokens, pos + 2)
        } else {
            failed("Expected 'feri' after 'aile'"@, pos + 1)
        },
        _ => failed("Unexpected token"@, pos),
    }
}

/// The conditional whose head starts at `pos`: the head, then statements up
/// to `sakiyo`, which is consumed, or up to `aile` or the end of the tokens.
/// It has no else branch: `aile feri` starts a conditional of its own.
pub open spec fn parse_if_statement(tokens: Seq<TokenView>, pos: int) -> Parsed<StatementView>
    decreases tokens.len() - pos, 0nat,
{
    let head = parse_condition(tokens, pos);
    match head.result {
        Err(message) => failed(message, head.next),
        Ok(condition) => if head.next > pos {
            let body = parse_block(tokens, head.next, Seq::empty());
            match body.result {
                Err(message) => failed(message, body.next),
                Ok(statements) => parsed(StatementView::If(condition, statements, None), body.next),
            }
        } else {
            failed("Unexpected token"@, pos)
        },
    }
}

/// The statements of a branch from `pos` on, after `before`. A statement
/// that parses takes at least one token and none past the end.
pub open spec fn parse_block(tokens: Seq<TokenView>, pos: int, before: Seq<StatementView>) -> Parsed<
    Seq<StatementView>,
>
    decreases tokens.len() - pos, 2nat,
{
    match token_at(tokens, pos) {
        None => parsed(before, pos),
        Some(TokenView::Sakiyo) => parsed(before, pos + 1),
        Some(TokenView::Aile) => parsed(before, pos),
        Some(_) => {
            let statement = parse_statement(tokens, pos);
            match statement.result {
                Err(message) => failed(message, statement.next),
                Ok(s) => if pos < statement.next <= tokens.len() {
                    parse_block(tokens, statement.next, before.push(s))
                } else {
                    parsed(before.push(s), statement.next)
                },
            }
        },
    }
}

/// The statements of a script from `pos` on, after `before`.
pub open spec fn parse_script(tokens: Seq<TokenView>, pos: int, before: Seq<StatementView>) -> Parsed<
    Seq<StatementView>,
>
    decreases tokens.len() - pos,
{
    if 0 <= pos < tokens.len() {
        let statement = parse_statement(tokens, pos);
        match statement.result {
            Err(message) => failed(message, statement.next),
            Ok(s) => if pos < statement.next <= tokens.len() {
                parse_script(tokens, statement.next, before.push(s))
            } else {
                parsed(before.push(s), statement.next)
            },
        }
    } else {
        parsed(before, pos)
    }
}

/// A list parser stays within the tokens.
pub proof fn lemma_lists_stay_within(tokens: Seq<TokenView>, pos: int, before: Seq<Seq<char>>)
    requires
        0 <= pos <= tokens.len(),
    ensures
        pos <= parse_concat_parts(tokens, pos, before).next <= tokens.len(),
        pos <= parse_print_parts(tokens, pos, before).next <= tokens.len(),
        pos <= parse_sources(tokens, pos, before).next <= tokens.len(),
        pos <= parse_listed_sources(tokens, pos, before).next <= tokens.len(),
    decreases tokens.len() - pos,
{
    match token_at(tokens, pos) {
        Some(TokenView::String(text)) => {
            lemma_lists_stay_within(tokens, pos + 1, before.push(text));
        },
        Some(TokenView::Identifier(name)) => {
            lemma_lists_stay_within(tokens, pos + 1, before.push(name));
            lemma_lists_stay_within(tokens, pos + 1, before.push(interpolation(name)));
            if pos + 2 <= tokens.len() {
                lemma_lists_stay_within(tokens, pos + 2, before.push(name));
            }
        },
        Some(TokenView::Plus) => {
            lemma_lists_stay_within(tokens, pos + 1, before);
        },
        _ => {},
    }
}

/// A statement that parses takes at least one token, and no parser goes
/// past the end of the tokens.
pub proof fn lemma_statement_takes_tokens(tokens: Seq<TokenView>, pos: int)
    requires
        0 <= pos < tokens.len(),
    ensures
        pos <= parse_statement(tokens, pos).next <= tokens.len(),
        parse_statement(tokens, pos).result is Ok ==> pos < parse_statement(tokens, pos).next,
    decreases tokens.len() - pos, 1nat,
{
    if pos + 1 <= tokens.len() {
        lemma_lists_stay_within(tokens, pos + 1, Seq::empty());
    }
    if pos + 2 <= tokens.len() {
        lemma_lists_stay_within(tokens, pos + 2, Seq::empty());
    }
    if pos + 3 <= tokens.len() {
        lemma_lists_stay_within(tokens, pos + 3, Seq::empty());
    }
    match token_at(tokens, pos) {
        Some(TokenView::OiMug) => {
            if pos + 4 <= tokens.len() {
                lemma_lists_stay_within(tokens, pos + 4, Seq::empty());
                match token_at(tokens, pos + 3) {
                    Some(TokenView::String(text)) => {
                        if pos + 5 <= tokens.len() {
                            lemma_lists_stay_within(tokens, pos + 5, seq![text]);
                        }
                    },
                    Some(TokenView::Identifier(text)) => {
                        if pos + 5 <= tokens.len() {
                            lemma_lists_stay_within(tokens, pos + 5, seq![text]);
                        }
                    },
                    _ => {},
                }
            }
        },
        Some(TokenView::Yedi) => {
            lemma_conditional_takes_tokens(tokens, pos);
        },
        Some(TokenView::Aile) => {
            if pos + 2 <= tokens.len() {
                lemma_conditional_takes_tokens(tokens, pos + 2);
            }
        },
        _ => {},
    }
}

/// A conditional that parses takes at least four tokens and stays within
/// the tokens.
pub proof fn lemma_conditional_takes_tokens(tokens: Seq<TokenView>, pos: int)
    requires
        0 <= pos <= tokens.len(),
    ensures
        pos <= parse_if_statement(tokens, pos).next <= tokens.len(),
        parse_if_statement(tokens, pos).result is Ok ==> pos + 4 <= parse_if_statement(
            tokens,
            pos,
        ).next,
        pos <= parse_condition(tokens, pos).next <= tokens.len(),
        parse_condition(tokens, pos).result is Ok ==> pos + 4 <= parse_condition(tokens, pos).next,
    decreases tokens.len() - pos, 0nat,
{
    let head = parse_condition(tokens, pos);
    if head.result is Ok {
        lemma_block_stays_within(tokens, head.next, Seq::empty());
    }
}

/// A branch stays within the tokens.
pub proof fn lemma_block_stays_within(
    tokens: Seq<TokenView>,
    pos: int,
    before: Seq<StatementView>,
)
    requires
        0 <= pos <= tokens.len(),
    ensures
        pos <= parse_block(tokens, pos, before).next <= tokens.len(),
    decreases tokens.len() - pos, 2nat,
{
    match token_at(tokens, pos) {
        None => {},
        Some(TokenView::Sakiyo) => {},
        Some(TokenView::Aile) => {},
        Some(_) => {
            lemma_statement_takes_tokens(tokens, pos);
            let statement = parse_statement(tokens, pos);
            if statement.result is Ok {
                lemma_block_stays_within(tokens, statement.next, before.push(statement.result->Ok_0));
            }
        },
    }
}

/// `result` is the statement or the parse error that `expected` describes.
pub open spec fn gives(result: Result<Statement, NepalError>, expected: Result<StatementView, Seq<char>>) -> bool {
    match expected {
        Ok(statement) => result matches Ok(s) && s@ == statement,
        Err(message) => result matches Err(e) && e@ == ErrorView::ParseError(message),
    }
}

/// The state of a parser: the tokens and the index of the next one.
pub struct ParserView {
    pub tokens: Seq<TokenView>,
    pub position: usize,
}

/// Turns tokens into statements.
pub struct Parser {
    tokens: Vec<Token>,
    position: usize,
}

impl View for Parser {
    type V = ParserView;

    closed spec fn view(&self) -> ParserView {
        ParserView { tokens: token_views(self.tokens@), position: self.position }
    }
}

impl Parser {
    /// A parser at the first of `tokens`.
    pub fn new(tokens: Vec<Token>) -> (parser: Self)
        ensures
            parser@ == (ParserView { tokens: token_views(tokens@), position: 0 }),
    {
        Parser { tokens, position: 0 }
    }

    /// `after` is `before` moved to the token with index `next`.
    pub open spec fn moved(before: ParserView, after: ParserView, next: int) -> bool {
        after.tokens == before.tokens && after.position == next
    }

    fn peek(&self) -> (token: Option<&Token>)
        ensures
            match token {
                Some(t) => token_at(self@.tokens, self@.position as int) == Some(t@)
                    && self@.position < usize::MAX,
                None => token_at(self@.tokens, self@.position as int) is None,
            },
    {
        if self.position < self.tokens.len() {
            Some(&self.tokens[self.position])
        } else {
            None
        }
    }

    fn advance(&mut self)
        requires
            old(self)@.position < usize::MAX,
        ensures
            Self::moved(old(self)@, final(self)@, old(self)@.position + 1),
    {
        self.position = self.position + 1;
    }

    fn end_of_input<T>(&self) -> (result: Result<T, NepalError>)
        ensures
            result matches Err(e) && e@ == ErrorView::ParseError("Unexpected end of input"@),
    {
        Err(NepalError::ParseError("Unexpected end of input"))
    }

    fn parse_name(&mut self, message: &'static str) -> (result: Result<String, NepalError>)
        ensures
            Self::moved(
                old(self)@,
                final(self)@,
                parse_name(old(self)@.tokens, old(self)@.position as int, message@).next,
            ),
            match parse_name(old(self)@.tokens, old(self)@.position as int, message@).result {
                Ok(name) => result matches Ok(n) && n@ == name,
                Err(text) => result matches Err(e) && e@ == ErrorView::ParseError(text),
            },
    {
        match self.peek() {
            Some(Token::Identifier(name)) => {
                let name = name.clone();
                self.advance();
                Ok(name)
            },
            Some(_) => Err(NepalError::ParseError(message)),
            None => self.end_of_input(),
        }
    }

    fn parse_concat_parts(&mut self, first: String) -> (parts: Vec<String>)
        ensures
            Self::moved(
                old(self)@,
                final(self)@,
                parse_concat_parts(
                    old(self)@.tokens,
                    old(self)@.position as int,
                    seq![first@],
                ).next,
            ),
            parse_concat_parts(
                old(self)@.tokens,
                old(self)@.position as int,
                seq![first@],
            ).result == Ok::<Seq<Seq<char>>, Seq<char>>(texts(parts@)),
    {
        let mut parts: Vec<String> = Vec::new();
        parts.push(first);
        assert(texts(parts@) == seq![first@]);
        loop
            invariant
                self@.tokens == old(self)@.tokens,
                parse_concat_parts(old(self)@.tokens, old(self)@.position as int, seq![first@])
                    == parse_concat_parts(self@.tokens, self@.position as int, texts(parts@)),
            decreases self@.tokens.len() - self@.position,
        {
            let ghost before = texts(parts@);
            match self.peek() {
                Some(Token::String(text)) => {
                    parts.push(text.clone());
                    assert(texts(parts@) == before.push(text@));
                    self.advance();
                },
                Some(Token::Identifier(name)) => {
                    parts.push(name.clone());
                    assert(texts(parts@) == before.push(name@));
                    self.advance();
                },
                Some(Token::Plus) => {
                    self.advance();
                },
                _ => {
                    return parts;
                },
            }
        }
    }

    fn parse_print_parts(&mut self) -> (parts: Vec<String>)
        ensures
            Self::moved(
                old(self)@,
                final(self)@,
                parse_print_parts(
                    old(self)@.tokens,
                    old(self)@.position as int,
                    Seq::empty(),
                ).next,
            ),
            parse_print_parts(old(self)@.tokens, old(self)@.position as int, Seq::empty()).result
                == Ok::<Seq<Seq<char>>, Seq<char>>(texts(parts@)),
    {
        let mut parts: Vec<String> = Vec::new();
        assert(texts(parts@) == Seq::<Seq<char>>::empty());
        loop
            invariant
                self@.tokens == old(self)@.tokens,
                parse_print_parts(old(self)@.tokens, old(self)@.position as int, Seq::empty())
                    == parse_print_parts(self@.tokens, self@.position as int, texts(parts@)),
            decreases self@.tokens.len() - self@.position,
        {
            let ghost before = texts(parts@);
            match self.peek() {
                Some(Token::String(text)) => {
                    parts.push(text.clone());
                    assert(texts(parts@) == before.push(text@));
                    self.advance();
                },
                Some(Token::Identifier(name)) => {
                    let part = String::from_str("{").concat(name.as_str()).concat("}");
                    parts.push(part);
                    assert(texts(parts@) == before.push(interpolation(name@)));
                    self.advance();
                },
                Some(Token::Plus) => {
                    self.advance();
                },
                _ => {
                    return parts;
                },
            }
        }
    }

    fn parse_sources(&mut self) -> (sources: Vec<String>)
        ensures
            Self::moved(
                old(self)@,
                final(self)@,
                parse_sources(old(self)@.tokens, old(self)@.position as int, Seq::empty()).next,
            ),
            parse_sources(old(self)@.tokens, old(self)@.position as int, Seq::empty()).result
                == Ok::<Seq<Seq<char>>, Seq<char>>(texts(sources@)),
    {
        let mut sources: Vec<String> = Vec::new();
        assert(texts(sources@) == Seq::<Seq<char>>::empty());
        loop
            invariant
                self@.tokens == old(self)@.tokens,
                parse_sources(old(self)@.tokens, old(self)@.position as int, Seq::empty())
                    == parse_sources(self@.tokens, self@.position as int, texts(sources@)),
            decreases self@.tokens.len() - self@.position,
        {
            let ghost before = texts(sources@);
            match self.peek() {
                Some(Token::Identifier(name)) => {
                    sources.push(name.clone());
                    assert(texts(sources@) == before.push(name@));
                    self.advance();
                    match self.peek() {
                        Some(Token::Comma) => {
                            self.advance();
                        },
                        _ => {
                            return sources;
                        },
                    }
                },
                _ => {
                    return sources;
                },
            }
        }
    }

    fn parse_listed_sources(&mut self) -> (result: Result<Vec<String>, NepalError>)
        ensures
            Self::moved(
                old(self)@,
                final(self)@,
                parse_listed_sources(
                    old(self)@.tokens,
                    old(self)@.position as int,
                    Seq::empty(),
                ).next,
            ),
            match parse_listed_sources(
                old(self)@.tokens,
                old(self)@.position as int,
                Seq::empty(),
            ).result {
                Ok(names) => result matches Ok(sources) && texts(sources@) == names,
                Err(message) => result matches Err(e) && e@ == ErrorView::ParseError(message),
            },
    {
        let mut sources: Vec<String> = Vec::new();
        assert(texts(sources@) == Seq::<Seq<char>>::empty());
        loop
            invariant
                self@.tokens == old(self)@.tokens,
                parse_listed_sources(old(self)@.tokens, old(self)@.position as int, Seq::empty())
                    == parse_listed_sources(
                    self@.tokens,
                    self@.position as int,
                    texts(sources@),
                ),
            decreases self@.tokens.len() - self@.position,
        {
            let ghost before = texts(sources@);
            match self.peek() {
                Some(Token::Identifier(name)) => {
                    sources.push(name.clone());
                    assert(texts(sources@) == before.push(name@));
                    self.advance();
                    match self.peek() {
                        Some(Token::Comma) => {
                            self.advance();
                        },
                        Some(Token::Lai) => {
                            self.advance();
                            return Ok(sources);
                        },
                        _ => {
                            return Err(NepalError::ParseError("Expected comma or 'lai'"));
                        },
                    }
                },
                Some(_) => {
                    return Err(NepalError::ParseError("Expected identifier"));
                },
                None => {
                    return Ok(sources);
                },
            }
        }
    }

    fn parse_arithmetic_operation(&mut self, target: String) -> (result: Result<
        Statement,
        NepalError,
    >)
        requires
            token_at(old(self)@.tokens, old(self)@.position as int) is Some,
            old(self)@.position < usize::MAX,
        ensures
            Self::moved(
                old(self)@,
                final(self)@,
                parse_arithmetic_operation(
                    old(self)@.tokens,
                    old(self)@.position as int,
                    target@,
                ).next,
            ),
            gives(
                result,
                parse_arithmetic_operation(
                    old(self)@.tokens,
                    old(self)@.position as int,
                    target@,
                ).result,
            ),
    {
        let is_addition = match self.peek() {
            Some(Token::Jod) => true,
            _ => false,
        };
        self.advance();
        let sources = self.parse_sources();
        if is_addition {
            Ok(Statement::Addition(target, sources))
        } else {
            Ok(Statement::Subtraction(target, sources))
        }
    }

    fn parse_standalone_arithmetic(&mut self, is_addition: bool) -> (result: Result<
        Statement,
        NepalError,
    >)
        ensures
            Self::moved(
                old(self)@,
                final(self)@,
                parse_standalone_arithmetic(
                    old(self)@.tokens,
                    old(self)@.position as int,
                    is_addition,
                ).next,
            ),
            gives(
                result,
                parse_standalone_arithmetic(
                    old(self)@.tokens,
                    old(self)@.position as int,
                    is_addition,
                ).result,
            ),
    {
        let sources = match self.parse_listed_sources() {
            Ok(sources) => sources,
            Err(e) => {
                return Err(e);
            },
        };
        let target = match self.parse_name("Expected target identifier after 'lai'") {
            Ok(target) => target,
            Err(e) => {
                return Err(e);
            },
        };
        if is_addition {
            Ok(Statement::Addition(target, sources))
        } else {
            Ok(Statement::Subtraction(target, sources))
        }
    }

    fn parse_text_value(&mut self, name: String, first: String) -> (result: Result<
        Statement,
        NepalError,
    >)
        ensures
            Self::moved(
                old(self)@,
                final(self)@,
                parse_text_value(
                    old(self)@.tokens,
                    old(self)@.position as int,
                    name@,
                    first@,
                ).next,
            ),
            gives(
                result,
                parse_text_value(
                    old(self)@.tokens,
                    old(self)@.position as int,
                    name@,
                    first@,
                ).result,
            ),
    {
        match self.peek() {
            Some(Token::Plus) => {
                self.advance();
                let parts = self.parse_concat_parts(first);
                Ok(Statement::StringConcat(name, parts))
            },
            _ => Ok(Statement::Declaration(name, Value::String(first))),
        }
    }

    fn parse_declaration(&mut self) -> (result: Result<Statement, NepalError>)
        ensures
            Self::moved(
                old(self)@,
                final(self)@,
                parse_declaration(old(self)@.tokens, old(self)@.position as int).next,
            ),
            gives(result, parse_declaration(old(self)@.tokens, old(self)@.position as int).result),
    {
        let name = match self.parse_name("Expected identifier") {
            Ok(name) => name,
            Err(e) => {
                return Err(e);
            },
        };
        match self.peek() {
            None => {
                return self.end_of_input();
            },
            Some(Token::Equals) => {
                self.advance();
            },
            Some(_) => {
                return Err(NepalError::ParseError("Expected '='"));
            },
        }
        match self.peek() {
            None => self.end_of_input(),
            Some(Token::Number(value)) => {
                let value = *value;
                self.advance();
                Ok(Statement::Declaration(name, Value::Number(value)))
            },
            Some(Token::String(value)) => {
                let first = value.clone();
                self.advance();
                self.parse_text_value(name, first)
            },
            Some(Token::Identifier(value)) => {
                let first = value.clone();
                self.advance();
                self.parse_text_value(name, first)
            },
            Some(Token::Jod) => self.parse_arithmetic_operation(name),
            Some(Token::Ghata) => self.parse_arithmetic_operation(name),
            Some(_) => Err(NepalError::ParseError("Expected value")),
        }
    }

    fn parse_print(&mut self) -> (result: Result<Statement, NepalError>)
        requires
            old(self)@.position < usize::MAX,
        ensures
            Self::moved(
                old(self)@,
                final(self)@,
                parse_print(old(self)@.tokens, old(self)@.position as int).next,
            ),
            gives(result, parse_print(old(self)@.tokens, old(self)@.position as int).result),
    {
        self.advance();
        match self.peek() {
            None => self.end_of_input(),
            Some(Token::String(_)) => {
                let parts = self.parse_print_parts();
                Ok(Statement::PrintString(parts))
            },
            Some(Token::Identifier(name)) => {
                let name = name.clone();
                self.advance();
                Ok(Statement::Print(name))
            },
            Some(_) => Err(NepalError::ParseError("Expected identifier or string")),
        }
    }

    fn parse_input(&mut self) -> (result: Result<Statement, NepalError>)
        ensures
            Self::moved(
                old(self)@,
                final(self)@,
                parse_input(old(self)@.tokens, old(self)@.position as int).next,
            ),
            gives(result, parse_input(old(self)@.tokens, old(self)@.position as int).result),
    {
        match self.parse_name("Expected identifier after bhan") {
            Ok(name) => Ok(Statement::Input(name)),
            Err(e) => Err(e),
        }
    }

    fn parse_condition(&mut self) -> (result: Result<Condition, NepalError>)
        ensures
            Self::moved(
                old(self)@,
                final(self)@,
                parse_condition(old(self)@.tokens, old(self)@.position as int).next,
            ),
            match parse_condition(old(self)@.tokens, old(self)@.position as int).result {
                Ok(condition) => result matches Ok(c) && c@ == condition,
                Err(message) => result matches Err(e) && e@ == ErrorView::ParseError(message),
            },
    {
        match self.peek() {
            Some(Token::Yedi) => {
                self.advance();
            },
            _ => {},
        }
        let variable = match self.parse_name("Expected variable name after yedi") {
            Ok(name) => name,
            Err(e) => {
                return Err(e);
            },
        };
        let equal = match self.peek() {
            None => {
                return self.end_of_input();
            },
            Some(Token::Babaal) => true,
            Some(Token::Laamo) => false,
            Some(_) => {
                return Err(NepalError::ParseError("Expected babaal or laamo"));
            },
        };
        self.advance();
        let literal = match self.peek() {
            None => {
                return self.end_of_input();
            },
            Some(Token::String(text)) => text.clone(),
            Some(_) => {
                return Err(NepalError::ParseError("Expected string literal"));
            },
        };
        self.advance();
        match self.peek() {
            Some(Token::Bhane) => {
                self.advance();
            },
            _ => {
                return Err(NepalError::ParseError("Expected 'bhane' after condition"));
            },
        }
        if equal {
            Ok(Condition::Equals(variable, literal))
        } else {
            Ok(Condition::NotEquals(variable, literal))
        }
    }

    #[verifier::loop_isolation(false)]
    fn parse_if_statement(&mut self) -> (result: Result<Statement, NepalError>)
        ensures
            Self::moved(
                old(self)@,
                final(self)@,
                parse_if_statement(old(self)@.tokens, old(self)@.position as int).next,
            ),
            gives(result, parse_if_statement(old(self)@.tokens, old(self)@.position as int).result),
        decreases old(self)@.tokens.len() - old(self)@.position, 0nat,
    {
        let ghost tokens = self@.tokens;
        let ghost start = self@.position as int;
        proof {
            if start <= tokens.len() {
                lemma_conditional_takes_tokens(tokens, start);
            }
        }
        let condition = match self.parse_condition() {
            Ok(condition) => condition,
            Err(e) => {
                return Err(e);
            },
        };
        let ghost body_start = self@.position as int;
        let mut statements: Vec<Statement> = Vec::new();
        assert(block_view(statements@) == Seq::<StatementView>::empty());
        loop
            invariant
                self@.tokens == tokens,
                body_start <= self@.position,
                parse_block(tokens, body_start, Seq::empty()) == parse_block(
                    tokens,
                    self@.position as int,
                    block_view(statements@),
                ),
            decreases tokens.len() - self@.position,
        {
            match self.peek() {
                None => {
                    break ;
                },
                Some(Token::Sakiyo) => {
                    self.advance();
                    break ;
                },
                Some(Token::Aile) => {
                    break ;
                },
                Some(_) => {
                    proof {
                        lemma_statement_takes_tokens(tokens, self@.position as int);
                    }
                    let ghost before = block_view(statements@);
                    match self.parse_statement() {
                        Ok(statement) => {
                            statements.push(statement);
                            assert(block_view(statements@) == before.push(statement@));
                        },
                        Err(e) => {
                            return Err(e);
                        },
                    }
                },
            }
        }
        Ok(Statement::If(condition, statements, None))
    }

    fn parse_statement(&mut self) -> (result: Result<Statement, NepalError>)
        ensures
            Self::moved(
                old(self)@,
                final(self)@,
                parse_statement(old(self)@.tokens, old(self)@.position as int).next,
            ),
            gives(result, parse_statement(old(self)@.tokens, old(self)@.position as int).result),
        decreases old(self)@.tokens.len() - old(self)@.position, 1nat,
    {
        match self.peek() {
            Some(Token::OiMug) => {
                self.advance();
                match self.peek() {
                    Some(Token::Bhan) => {
                        self.advance();
                        self.parse_input()
                    },
                    _ => self.parse_declaration(),
                }
            },
            Some(Token::BolMug) => self.parse_print(),
            Some(Token::Mug) => {
                self.advance();
                match self.peek() {
                    None => self.end_of_input(),
                    Some(Token::Jod) => {
                        self.advance();
                        self.parse_standalone_arithmetic(true)
                    },
                    Some(Token::Ghata) => {
                        self.advance();
                        self.parse_standalone_arithmetic(false)
                    },
                    Some(_) => Err(NepalError::ParseError("Expected 'jod' or 'ghata' after 'mug'")),
                }
            },
            Some(Token::Yedi) => self.parse_if_statement(),
            Some(Token::Aile) => {
                self.advance();
                match self.peek() {
                    Some(Token::Feri) => {
                        self.advance();
                        self.parse_if_statement()
                    },
                    _ => Err(NepalError::ParseError("Expected 'feri' after 'aile'")),
                }
            },
            _ => Err(NepalError::ParseError("Unexpected token")),
        }
    }

    /// Parses the statements from the position to the end of the tokens.
    /// After an error the position is where the parser gave up.
    #[verifier::loop_isolation(false)]
    pub fn parse(&mut self) -> (result: Result<Vec<Statement>, NepalError>)
        ensures
            Self::moved(
                old(self)@,
                final(self)@,
                parse_script(old(self)@.tokens, old(self)@.position as int, Seq::empty()).next,
            ),
            match parse_script(old(self)@.tokens, old(self)@.position as int, Seq::empty()).result {
                Ok(script) => result matches Ok(statements) && block_view(statements@) == script,
                Err(message) => result matches Err(e) && e@ == ErrorView::ParseError(message),
            },
    {
        let ghost tokens = self@.tokens;
        let mut statements: Vec<Statement> = Vec::new();
        assert(block_view(statements@) == Seq::<StatementView>::empty());
        while self.position < self.tokens.len()
            invariant
                self@.tokens == tokens,
                parse_script(tokens, old(self)@.position as int, Seq::empty()) == parse_script(
                    tokens,
                    self@.position as int,
                    block_view(statements@),
                ),
            decreases tokens.len() - self@.position,
        {
            proof {
                lemma_statement_takes_tokens(tokens, self@.position as int);
            }
            let ghost before = block_view(statements@);
            match self.parse_statement() {
                Ok(statement) => {
                    statements.push(statement);
                    assert(block_view(statements@) == before.push(statement@));
                },
                Err(e) => {
                    return Err(e);
                },
            }
        }
        Ok(statements)
    }
}

} // verus!
