//! The tokenizer.
//!
//! `lex` says which tokens a text gives; `Lexer::tokenize` produces them.
//! Keywords are recognised wherever their letters stand, also at the start
//! of a longer word. A comment runs from `//` to the end of the line.

use vstd::prelude::*;
use crate::error::{ErrorView, NepalError};
use crate::text::{char_is_alphabetic, char_is_numeric, char_is_whitespace, chars_of, find_char,
    find_from, is_alphabetic, is_numeric, is_whitespace, lemma_find_from, text_of_range};
use crate::token::{Token, TokenView, token_views};

verus! {

/// A class of characters that a run is made of.
#[derive(Debug, Clone, Copy, PartialEq, Eq, Structural)]
pub enum CharClass {
    Whitespace,
    Alphabetic,
    Numeric,
    /// Every character but line feed and carriage return.
    WithinLine,
}

/// Whether `c` belongs to `class`.
pub open spec fn in_class(class: CharClass, c: char) -> bool {
    match class {
        CharClass::Whitespace => is_whitespace(c),
        CharClass::Alphabetic => is_alphabetic(c),
        CharClass::Numeric => is_numeric(c),
        CharClass::WithinLine => c != '\n' && c != '\r',
    }
}

/// The index after the run of characters of `class` that starts at `pos`.
pub open spec fn run_end(input: Seq<char>, pos: int, class: CharClass) -> int
    decreases input.len() - pos,
{
    if 0 <= pos < input.len() && in_class(class, input[pos]) {
        run_end(input, pos + 1, class)
    } else {
        pos
    }
}

/// A run ends at or after its start and within the text.
pub proof fn lemma_run_end(input: Seq<char>, pos: int, class: CharClass)
    requires
        0 <= pos <= input.len(),
    ensures
        pos <= run_end(input, pos, class) <= input.len(),
        pos < input.len() && in_class(class, input[pos]) ==> pos < run_end(input, pos, class),
    decreases input.len() - pos,
{
    if pos < input.len() && in_class(class, input[pos]) {
        lemma_run_end(input, pos + 1, class);
    }
}

/// The value of a decimal digit, if `c` is one of `0` to `9`.
pub open spec fn digit_value(c: char) -> Option<int> {
    if c == '0' {
        Some(0)
    } else if c == '1' {
        Some(1)
    } else if c == '2' {
        Some(2)
    } else if c == '3' {
        Some(3)
    } else if c == '4' {
        Some(4)
    } else if c == '5' {
        Some(5)
    } else if c == '6' {
        Some(6)
    } else if c == '7' {
        Some(7)
    } else if c == '8' {
        Some(8)
    } else if c == '9' {
        Some(9)
    } else {
        None
    }
}

/// The number that `digits` writes in decimal, if all of them are digits
/// `0` to `9`.
pub open spec fn number_value(digits: Seq<char>) -> Option<int>
    decreases digits.len(),
{
    if digits.len() == 0 {
        Some(0)
    } else {
        match (number_value(digits.drop_last()), digit_value(digits.last())) {
            (Some(value), Some(digit)) => Some(value * 10 + digit),
            _ => None,
        }
    }
}

/// The number literal that `digits` writes: its decimal value, if all of
/// `digits` are digits `0` to `9` and the value fits in 32 bits.
pub open spec fn parse_number(digits: Seq<char>) -> Option<i32> {
    match number_value(digits) {
        Some(value) => if value <= i32::MAX {
            Some(value as i32)
        } else {
            None
        },
        None => None,
    }
}

/// A number has a value only if each of its prefixes has one, and that
/// value is at least the prefix's.
pub proof fn lemma_number_value_prefix(digits: Seq<char>, count: int)
    requires
        0 <= count <= digits.len(),
        number_value(digits) is Some,
    ensures
        number_value(digits.take(count)) is Some,
        0 <= number_value(digits.take(count))->0 <= number_value(digits)->0,
    decreases digits.len() - count,
{
    if count == digits.len() {
        assert(digits.take(count) == digits);
        lemma_number_value_nonnegative(digits);
    } else {
        assert(digits.drop_last().take(count) == digits.take(count));
        lemma_number_value_prefix(digits.drop_last(), count);
    }
}

proof fn lemma_number_value_nonnegative(digits: Seq<char>)
    requires
        number_value(digits) is Some,
    ensures
        0 <= number_value(digits)->0,
    decreases digits.len(),
{
    if digits.len() > 0 {
        lemma_number_value_nonnegative(digits.drop_last());
    }
}

/// What stands at one place of the text.
pub enum Scan {
    /// A token.
    Token(TokenView),
    /// A comment or a line break: nothing to report.
    Skip,
    /// A lexical error, with its message.
    Fail(Seq<char>),
}

/// What stands at one place of the text, and where the tokenizer goes on.
pub struct Scanned {
    pub scan: Scan,
    pub next: int,
}

/// Whether the characters of `word` stand in `input` at `pos`.
pub open spec fn word_at(input: Seq<char>, pos: int, word: Seq<char>) -> bool {
    pos + word.len() <= input.len() && input.subrange(pos, pos + word.len()) == word
}

/// A token was found, and the tokenizer goes on at `next`.
pub open spec fn found(token: TokenView, next: int) -> Scanned {
    Scanned { scan: Scan::Token(token), next }
}

/// The keyword that stands at `pos`, if one does. Where two keywords match,
/// the one that comes first in this list is taken.
pub open spec fn keyword_at(input: Seq<char>, pos: int) -> Option<Scanned> {
    if word_at(input, pos, "bhane"@) {
        Some(found(TokenView::Bhane, pos + "bhane"@.len()))
    } else if word_at(input, pos, "babaal"@) {
        Some(found(TokenView::Babaal, pos + "babaal"@.len()))
    } else if word_at(input, pos, "bol mug"@) {
        Some(found(TokenView::BolMug, pos + "bol mug"@.len()))
    } else if word_at(input, pos, "bhan"@) {
        Some(found(TokenView::Bhan, pos + "bhan"@.len()))
    } else if word_at(input, pos, "oi mug"@) {
        Some(found(TokenView::OiMug, pos + "oi mug"@.len()))
    } else if word_at(input, pos, "mug"@) {
        Some(found(TokenView::Mug, pos + "mug"@.len()))
    } else if word_at(input, pos, "jod"@) {
        Some(found(TokenView::Jod, pos + "jod"@.len()))
    } else if word_at(input, pos, "ghata"@) {
        Some(found(TokenView::Ghata, pos + "ghata"@.len()))
    } else if word_at(input, pos, "lai"@) {
        Some(found(TokenView::Lai, pos + "lai"@.len()))
    } else if word_at(input, pos, "laamo"@) {
        Some(found(TokenView::Laamo, pos + "laamo"@.len()))
    } else if word_at(input, pos, "yedi"@) {
        Some(found(TokenView::Yedi, pos + "yedi"@.len()))
    } else if word_at(input, pos, "sakiyo"@) {
        Some(found(TokenView::Sakiyo, pos + "sakiyo"@.len()))
    } else if word_at(input, pos, "aile"@) {
        Some(found(TokenView::Aile, pos + "aile"@.len()))
    } else if word_at(input, pos, "feri"@) {
        Some(found(TokenView::Feri, pos + "feri"@.len()))
    } else {
        None
    }
}

/// What stands at `pos`, where the text has a character that is no
/// whitespace: a comment, a keyword, an operator, a string in double
/// quotes, an identifier (a run of alphabetic characters), a number (a run
/// of numeric characters) or a line break. Anything else is an error.
pub open spec fn scan_at(input: Seq<char>, pos: int) -> Scanned {
    let c = input[pos];
    let followed_by_equals = pos + 1 < input.len() && input[pos + 1] == '=';
    if pos + 1 < input.len() && c == '/' && input[pos + 1] == '/' {
        Scanned { scan: Scan::Skip, next: run_end(input, pos, CharClass::WithinLine) }
    } else if keyword_at(input, pos) is Some {
        keyword_at(input, pos)->0
    } else if c == '=' {
        if followed_by_equals {
            found(TokenView::IsEquals, pos + 2)
        } else {
            found(TokenView::Equals, pos + 1)
        }
    } else if c == '!' {
        if followed_by_equals {
            found(TokenView::NotEquals, pos + 2)
        } else {
            Scanned { scan: Scan::Fail("Expected '=' after '!'"@), next: pos + 1 }
        }
    } else if c == '+' {
        found(TokenView::Plus, pos + 1)
    } else if c == ',' {
        found(TokenView::Comma, pos + 1)
    } else if c == '"' {
        let close = find_from(input, '"', pos + 1);
        if close < input.len() {
            found(TokenView::String(input.subrange(pos + 1, close)), close + 1)
        } else {
            Scanned { scan: Scan::Fail("Unterminated string"@), next: input.len() as int }
        }
    } else if is_alphabetic(c) {
        let end = run_end(input, pos, CharClass::Alphabetic);
        found(TokenView::Identifier(input.subrange(pos, end)), end)
    } else if is_numeric(c) {
        let end = run_end(input, pos, CharClass::Numeric);
        match parse_number(input.subrange(pos, end)) {
            Some(n) => found(TokenView::Number(n), end),
            None => Scanned { scan: Scan::Fail("Invalid number"@), next: end },
        }
    } else if c == '\n' || c == '\r' {
        Scanned { scan: Scan::Skip, next: pos + 1 }
    } else {
        Scanned { scan: Scan::Fail("Invalid character found"@), next: pos }
    }
}

/// Unless it fails, scanning moves on.
pub proof fn lemma_scan_advances(input: Seq<char>, pos: int)
    requires
        0 <= pos < input.len(),
    ensures
        !(scan_at(input, pos).scan is Fail) ==> pos < scan_at(input, pos).next <= input.len(),
        pos <= scan_at(input, pos).next <= input.len(),
{
    reveal_strlit("bhane");
    reveal_strlit("babaal");
    reveal_strlit("bol mug");
    reveal_strlit("bhan");
    reveal_strlit("oi mug");
    reveal_strlit("mug");
    reveal_strlit("jod");
    reveal_strlit("ghata");
    reveal_strlit("lai");
    reveal_strlit("laamo");
    reveal_strlit("yedi");
    reveal_strlit("sakiyo");
    reveal_strlit("aile");
    reveal_strlit("feri");
    lemma_run_end(input, pos, CharClass::WithinLine);
    lemma_run_end(input, pos, CharClass::Alphabetic);
    lemma_run_end(input, pos, CharClass::Numeric);
    lemma_find_from(input, '"', pos + 1);
}

/// The outcome of tokenizing: the tokens found, the message of the lexical
/// error that stopped the tokenizer, if one did, and where it stopped.
pub struct Lexed {
    pub tokens: Seq<TokenView>,
    pub failure: Option<Seq<char>>,
    pub position: int,
}

/// The outcome of tokenizing `input` from `pos` on, after the tokens
/// `before`: whitespace is skipped, then what stands there is scanned,
/// until the text ends or something fails.
pub open spec fn lex(input: Seq<char>, pos: int, before: Seq<TokenView>) -> Lexed
    decreases input.len() - pos,
{
    if 0 <= pos < input.len() {
        let at = run_end(input, pos, CharClass::Whitespace);
        if at < input.len() {
            let scanned = scan_at(input, at);
            proof {
                lemma_run_end(input, pos, CharClass::Whitespace);
                lemma_scan_advances(input, at);
            }
            match scanned.scan {
                Scan::Token(token) => lex(input, scanned.next, before.push(token)),
                Scan::Skip => lex(input, scanned.next, before),
                Scan::Fail(message) => Lexed {
                    tokens: before,
                    failure: Some(message),
                    position: scanned.next,
                },
            }
        } else {
            Lexed { tokens: before, failure: None, position: at }
        }
    } else {
        Lexed { tokens: before, failure: None, position: pos }
    }
}

/// The tokens of `input`, or the message of the first lexical error.
pub open spec fn tokens_of(input: Seq<char>) -> Result<Seq<TokenView>, Seq<char>> {
    match lex(input, 0, Seq::empty()).failure {
        None => Ok(lex(input, 0, Seq::empty()).tokens),
        Some(message) => Err(message),
    }
}

/// The state of a tokenizer: the characters of the text and the index of
/// the next one to look at.
pub struct LexerView {
    pub input: Seq<char>,
    pub position: usize,
}

/// Turns a source text into tokens.
pub struct Lexer {
    input: Vec<char>,
    position: usize,
}

impl View for Lexer {
    type V = LexerView;

    closed spec fn view(&self) -> LexerView {
        LexerView { input: self.input@, position: self.position }
    }
}

fn in_class_exec(class: CharClass, c: char) -> (r: bool)
    ensures
        r == in_class(class, c),
{
    match class {
        CharClass::Whitespace => char_is_whitespace(c),
        CharClass::Alphabetic => char_is_alphabetic(c),
        CharClass::Numeric => char_is_numeric(c),
        CharClass::WithinLine => c != '\n' && c != '\r',
    }
}

fn digit_value_of(c: char) -> (value: Option<i64>)
    ensures
        match value {
            Some(v) => digit_value(c) == Some(v as int) && 0 <= v <= 9,
            None => digit_value(c) is None,
        },
{
    if c == '0' {
        Some(0)
    } else if c == '1' {
        Some(1)
    } else if c == '2' {
        Some(2)
    } else if c == '3' {
        Some(3)
    } else if c == '4' {
        Some(4)
    } else if c == '5' {
        Some(5)
    } else if c == '6' {
        Some(6)
    } else if c == '7' {
        Some(7)
    } else if c == '8' {
        Some(8)
    } else if c == '9' {
        Some(9)
    } else {
        None
    }
}

/// The number literal that `chars[from..to]` writes.
#[verifier::loop_isolation(false)]
fn parse_digits(chars: &Vec<char>, from: usize, to: usize) -> (number: Option<i32>)
    requires
        from <= to <= chars.len(),
    ensures
        number == parse_number(chars@.subrange(from as int, to as int)),
{
    let ghost digits = chars@.subrange(from as int, to as int);
    let mut value: i64 = 0;
    let mut i: usize = from;
    while i < to
        invariant
            from <= i <= to,
            number_value(digits.take(i - from)) == Some(value as int),
            0 <= value <= i32::MAX,
        decreases to - i,
    {
        proof {
            assert(digits.take(i - from + 1).drop_last() == digits.take(i - from));
            assert(digits.take(i - from + 1).last() == chars@[i as int]);
            if number_value(digits) is Some {
                lemma_number_value_prefix(digits, i - from + 1);
            }
        }
        match digit_value_of(chars[i]) {
            Some(digit) => {
                value = value * 10 + digit;
                if value > 2147483647 {
                    return None;
                }
            },
            None => {
                return None;
            },
        }
        i = i + 1;
    }
    proof {
        assert(digits.take(to - from) == digits);
    }
    Some(value as i32)
}

impl Lexer {
    /// A tokenizer at the start of `input`.
    pub fn new(input: &str) -> (lexer: Self)
        ensures
            lexer@ == (LexerView { input: input@, position: 0 }),
    {
        Lexer { input: chars_of(input), position: 0 }
    }

    fn peek_char(&self) -> (c: char)
        requires
            self@.position < self@.input.len(),
        ensures
            c == self@.input[self@.position as int],
    {
        self.input[self.position]
    }

    fn follows(&self, c: char) -> (r: bool)
        requires
            self@.position < self@.input.len(),
        ensures
            r == (self@.position + 1 < self@.input.len() && self@.input[self@.position + 1] == c),
    {
        let length = self.input.len();
        self.position + 1 < length && self.input[self.position + 1] == c
    }

    fn skip_run(&mut self, class: CharClass)
        requires
            old(self)@.position <= old(self)@.input.len(),
        ensures
            final(self)@.input == old(self)@.input,
            final(self)@.position == run_end(old(self)@.input, old(self)@.position as int, class),
            old(self)@.position <= final(self)@.position <= old(self)@.input.len(),
    {
        while self.position < self.input.len() && in_class_exec(class, self.input[self.position])
            invariant
                self.input@ == old(self).input@,
                old(self).position <= self.position <= self.input.len(),
                run_end(self.input@, old(self).position as int, class) == run_end(
                    self.input@,
                    self.position as int,
                    class,
                ),
            decreases self.input.len() - self.position,
        {
            self.position = self.position + 1;
        }
    }

    fn skip_whitespace(&mut self)
        requires
            old(self)@.position <= old(self)@.input.len(),
        ensures
            final(self)@.input == old(self)@.input,
            final(self)@.position == run_end(
                old(self)@.input,
                old(self)@.position as int,
                CharClass::Whitespace,
            ),
            old(self)@.position <= final(self)@.position <= old(self)@.input.len(),
    {
        self.skip_run(CharClass::Whitespace)
    }

    fn skip_until_newline(&mut self)
        requires
            old(self)@.position <= old(self)@.input.len(),
        ensures
            final(self)@.input == old(self)@.input,
            final(self)@.position == run_end(
                old(self)@.input,
                old(self)@.position as int,
                CharClass::WithinLine,
            ),
            old(self)@.position <= final(self)@.position <= old(self)@.input.len(),
    {
        self.skip_run(CharClass::WithinLine)
    }

    fn match_keyword(&mut self, keyword: &str) -> (matched: bool)
        requires
            old(self)@.position <= old(self)@.input.len(),
        ensures
            final(self)@.input == old(self)@.input,
            matched == word_at(old(self)@.input, old(self)@.position as int, keyword@),
            final(self)@.position == if matched {
                old(self)@.position + keyword@.len()
            } else {
                old(self)@.position as int
            },
    {
        let word = chars_of(keyword);
        if word.len() > self.input.len() - self.position {
            return false;
        }
        let mut k: usize = 0;
        while k < word.len()
            invariant
                k <= word.len(),
                word@ == keyword@,
                self.position + word.len() <= self.input.len(),
                self.input@.subrange(self.position as int, self.position + k) == word@.take(
                    k as int,
                ),
            decreases word.len() - k,
        {
            if self.input[self.position + k] != word[k] {
                assert(self.input@.subrange(
                    self.position as int,
                    self.position + word.len(),
                )[k as int] != word@[k as int]);
                return false;
            }
            assert(self.input@.subrange(self.position as int, self.position + k + 1)
                == self.input@.subrange(self.position as int, self.position + k).push(
                self.input@[self.position + k],
            ));
            assert(word@.take(k + 1) == word@.take(k as int).push(word@[k as int]));
            k = k + 1;
        }
        assert(word@.take(word.len() as int) == word@);
        self.position = self.position + word.len();
        true
    }

    fn read_identifier(&mut self) -> (name: String)
        requires
            old(self)@.position <= old(self)@.input.len(),
        ensures
            final(self)@.input == old(self)@.input,
            final(self)@.position == run_end(
                old(self)@.input,
                old(self)@.position as int,
                CharClass::Alphabetic,
            ),
            name@ == old(self)@.input.subrange(
                old(self)@.position as int,
                final(self)@.position as int,
            ),
    {
        let start = self.position;
        self.skip_run(CharClass::Alphabetic);
        text_of_range(&self.input, start, self.position)
    }

    fn read_number(&mut self) -> (result: Result<i32, NepalError>)
        requires
            old(self)@.position <= old(self)@.input.len(),
        ensures
            final(self)@.input == old(self)@.input,
            final(self)@.position == run_end(
                old(self)@.input,
                old(self)@.position as int,
                CharClass::Numeric,
            ),
            match parse_number(
                old(self)@.input.subrange(old(self)@.position as int, final(self)@.position as int),
            ) {
                Some(n) => result == Ok::<i32, NepalError>(n),
                None => result matches Err(e) && e@ == ErrorView::LexError("Invalid number"@),
            },
    {
        let start = self.position;
        self.skip_run(CharClass::Numeric);
        match parse_digits(&self.input, start, self.position) {
            Some(n) => Ok(n),
            None => Err(NepalError::LexError("Invalid number")),
        }
    }

    fn read_string(&mut self) -> (result: Result<String, NepalError>)
        requires
            old(self)@.position < old(self)@.input.len(),
        ensures
            final(self)@.input == old(self)@.input,
            ({
                let close = find_from(old(self)@.input, '"', old(self)@.position + 1);
                if close < old(self)@.input.len() {
                    &&& result matches Ok(text)
                    &&& text@ == old(self)@.input.subrange(old(self)@.position + 1, close)
                    &&& final(self)@.position == close + 1
                } else {
                    &&& result matches Err(e)
                    &&& e@ == ErrorView::LexError("Unterminated string"@)
                    &&& final(self)@.position == old(self)@.input.len()
                }
            }),
    {
        let length = self.input.len();
        let start = self.position + 1;
        let close = find_char(&self.input, '"', start);
        self.position = close;
        if close >= length {
            return Err(NepalError::LexError("Unterminated string"));
        }
        let text = text_of_range(&self.input, start, close);
        self.position = close + 1;
        Ok(text)
    }

    fn keyword(&mut self) -> (token: Option<Token>)
        requires
            old(self)@.position <= old(self)@.input.len(),
        ensures
            final(self)@.input == old(self)@.input,
            match keyword_at(old(self)@.input, old(self)@.position as int) {
                Some(scanned) => token matches Some(t) && Scan::Token(t@) == scanned.scan
                    && final(self)@.position == scanned.next,
                None => token is None && final(self)@.position == old(self)@.position,
            },
    {
        if self.match_keyword("bhane") {
            Some(Token::Bhane)
        } else if self.match_keyword("babaal") {
            Some(Token::Babaal)
        } else if self.match_keyword("bol mug") {
            Some(Token::BolMug)
        } else if self.match_keyword("bhan") {
            Some(Token::Bhan)
        } else if self.match_keyword("oi mug") {
            Some(Token::OiMug)
        } else if self.match_keyword("mug") {
            Some(Token::Mug)
        } else if self.match_keyword("jod") {
            Some(Token::Jod)
        } else if self.match_keyword("ghata") {
            Some(Token::Ghata)
        } else if self.match_keyword("lai") {
            Some(Token::Lai)
        } else if self.match_keyword("laamo") {
            Some(Token::Laamo)
        } else if self.match_keyword("yedi") {
            Some(Token::Yedi)
        } else if self.match_keyword("sakiyo") {
            Some(Token::Sakiyo)
        } else if self.match_keyword("aile") {
            Some(Token::Aile)
        } else if self.match_keyword("feri") {
            Some(Token::Feri)
        } else {
            None
        }
    }

    /// Scans what stands at the position, which holds a character that is
    /// no whitespace.
    fn scan(&mut self) -> (result: Result<Option<Token>, NepalError>)
        requires
            old(self)@.position < old(self)@.input.len(),
        ensures
            final(self)@.input == old(self)@.input,
            final(self)@.position == scan_at(old(self)@.input, old(self)@.position as int).next,
            match scan_at(old(self)@.input, old(self)@.position as int).scan {
                Scan::Token(token) => result matches Ok(Some(t)) && t@ == token,
                Scan::Skip => result matches Ok(None),
                Scan::Fail(message) => result matches Err(e) && e@ == ErrorView::LexError(message),
            },
    {
        let length = self.input.len();
        let c = self.peek_char();
        if c == '/' && self.follows('/') {
            self.skip_until_newline();
            return Ok(None);
        }
        if let Some(token) = self.keyword() {
            return Ok(Some(token));
        }
        if c == '=' {
            if self.follows('=') {
                self.position = self.position + 2;
                Ok(Some(Token::IsEquals))
            } else {
                self.position = self.position + 1;
                Ok(Some(Token::Equals))
            }
        } else if c == '!' {
            if self.follows('=') {
                self.position = self.position + 2;
                Ok(Some(Token::NotEquals))
            } else {
                self.position = self.position + 1;
                Err(NepalError::LexError("Expected '=' after '!'"))
            }
        } else if c == '+' {
            self.position = self.position + 1;
            Ok(Some(Token::Plus))
        } else if c == ',' {
            self.position = self.position + 1;
            Ok(Some(Token::Comma))
        } else if c == '"' {
            match self.read_string() {
                Ok(text) => Ok(Some(Token::String(text))),
                Err(e) => Err(e),
            }
        } else if char_is_alphabetic(c) {
            Ok(Some(Token::Identifier(self.read_identifier())))
        } else if char_is_numeric(c) {
            match self.read_number() {
                Ok(n) => Ok(Some(Token::Number(n))),
                Err(e) => Err(e),
            }
        } else if c == '\n' || c == '\r' {
            self.position = self.position + 1;
            Ok(None)
        } else {
            Err(NepalError::LexError("Invalid character found"))
        }
    }

    /// Tokenizes the text from the position on. On success the position is
    /// at the end of the text; after an error it is where the tokenizer
    /// gave up.
    #[verifier::loop_isolation(false)]
    pub fn tokenize(&mut self) -> (result: Result<Vec<Token>, NepalError>)
        ensures
            final(self)@.input == old(self)@.input,
            final(self)@.position == lex(
                old(self)@.input,
                old(self)@.position as int,
                Seq::empty(),
            ).position,
            match lex(old(self)@.input, old(self)@.position as int, Seq::empty()).failure {
                None => result matches Ok(tokens) && token_views(tokens@) == lex(
                    old(self)@.input,
                    old(self)@.position as int,
                    Seq::empty(),
                ).tokens,
                Some(message) => result matches Err(e) && e@ == ErrorView::LexError(message),
            },
    {
        let mut tokens: Vec<Token> = Vec::new();
        assert(token_views(tokens@) == Seq::<TokenView>::empty());
        while self.position < self.input.len()
            invariant
                self.input@ == old(self).input@,
                lex(old(self)@.input, old(self)@.position as int, Seq::empty()) == lex(
                    self.input@,
                    self.position as int,
                    token_views(tokens@),
                ),
            decreases self.input.len() - self.position,
        {
            let ghost before = self.position;
            self.skip_whitespace();
            if self.position >= self.input.len() {
                break ;
            }
            proof {
                lemma_scan_advances(self.input@, self.position as int);
            }
            match self.scan() {
                Ok(Some(token)) => {
                    let ghost found = token_views(tokens@);
                    tokens.push(token);
                    assert(token_views(tokens@) == found.push(token@));
                },
                Ok(None) => {},
                Err(e) => {
                    return Err(e);
                },
            }
        }
        Ok(tokens)
    }
}

} // verus!
