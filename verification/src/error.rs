//! The error type shared by every stage.

use vstd::prelude::*;
use crate::text::{chars_of, contains_text, count_text, decimal, find_char, find_from, lemma_find_from,
    occurs_in, push_spaces, spaces, text_of_range, trim, trimmed_range};

verus! {

/// What went wrong, with the message that describes it.
#[derive(Debug)]
pub enum NepalError {
    LexError(&'static str),
    ParseError(&'static str),
    RuntimeError(&'static str),
    TypeError(&'static str),
    NameError(&'static str),
    /// An input or output failure, with the text of the underlying error.
    IoError(String),
    /// An error placed in the source text: the line, the kind and message of
    /// the error, the offending source line and a line pointing at the column.
    FormattedError { line: usize, error_type: String, message: String, code: String, pointer: String },
}

/// The mathematical content of an error.
pub enum ErrorView {
    LexError(Seq<char>),
    ParseError(Seq<char>),
    RuntimeError(Seq<char>),
    TypeError(Seq<char>),
    NameError(Seq<char>),
    IoError(Seq<char>),
    FormattedError {
        line: usize,
        error_type: Seq<char>,
        message: Seq<char>,
        code: Seq<char>,
        pointer: Seq<char>,
    },
}

impl View for NepalError {
    type V = ErrorView;

    open spec fn view(&self) -> ErrorView {
        match *self {
            NepalError::LexError(m) => ErrorView::LexError(m@),
            NepalError::ParseError(m) => ErrorView::ParseError(m@),
            NepalError::RuntimeError(m) => ErrorView::RuntimeError(m@),
            NepalError::TypeError(m) => ErrorView::TypeError(m@),
            NepalError::NameError(m) => ErrorView::NameError(m@),
            NepalError::IoError(m) => ErrorView::IoError(m@),
            NepalError::FormattedError { line, error_type, message, code, pointer } => {
                ErrorView::FormattedError {
                    line,
                    error_type: error_type@,
                    message: message@,
                    code: code@,
                    pointer: pointer@,
                }
            },
        }
    }
}

/// The text that describes an error: its kind, a colon and its message; for
/// a located error the line, the kind, the message, the source line and the
/// pointer, each on its own line.
pub open spec fn description(error: ErrorView) -> Seq<char> {
    match error {
        ErrorView::LexError(m) => "Lexical error: "@ + m,
        ErrorView::ParseError(m) => "Parse error: "@ + m,
        ErrorView::RuntimeError(m) => "Runtime error: "@ + m,
        ErrorView::TypeError(m) => "Type error: "@ + m,
        ErrorView::NameError(m) => "Name error: "@ + m,
        ErrorView::IoError(m) => "IO error: "@ + m,
        ErrorView::FormattedError { line, error_type, message, code, pointer } => {
            "Error at line "@ + decimal(line as int) + ": "@ + error_type + "\nDetails: "@
                + message + "\nCode: "@ + code + "\n"@ + pointer
        },
    }
}

/// The line of `code` with the zero-based index `index`, without its line
/// ending, or the empty text if `code` has no such line. A line ends at a
/// line feed; a carriage return just before that line feed belongs to the
/// line ending. The last line need not have a line ending.
pub open spec fn source_line(code: Seq<char>, index: nat) -> Seq<char>
    decreases code.len(),
{
    if code.len() == 0 {
        Seq::empty()
    } else {
        let end = find_from(code, '\n', 0);
        if 0 <= end < code.len() {
            if index == 0 {
                if end > 0 && code[end - 1] == '\r' {
                    code.take(end - 1)
                } else {
                    code.take(end)
                }
            } else {
                source_line(code.skip(end + 1), (index - 1) as nat)
            }
        } else if index == 0 {
            code
        } else {
            Seq::empty()
        }
    }
}

/// The error that places `error` in the source text `code`. Its kind is
/// the description of `error` up to the first colon; its message is what
/// stands between the first and the second colon, without the whitespace
/// around it, or "Unknown error" if the description has no colon. The
/// source line is line `line` of `code`, counted from 1, or empty if there
/// is none. The pointer is a caret after `column` spaces.
pub open spec fn located(error: ErrorView, line: usize, code: Seq<char>, column: usize) -> ErrorView {
    let text = description(error);
    let first = find_from(text, ':', 0);
    ErrorView::FormattedError {
        line,
        error_type: text.take(first),
        message: if first < text.len() {
            trim(text.subrange(first + 1, find_from(text, ':', first + 1)))
        } else {
            "Unknown error"@
        },
        code: if line == 0 {
            Seq::empty()
        } else {
            source_line(code, (line - 1) as nat)
        },
        pointer: spaces(column as nat) + "^---- Error location"@,
    }
}

/// The short message in Nepali for the kinds of error that have one, and
/// the description for the others.
pub open spec fn nepali_message(error: ErrorView) -> Seq<char> {
    match error {
        ErrorView::NameError(_) => "\u{0905}\u{092a}\u{0930}\u{093f}\u{092d}\u{093e}\u{0937}\u{093f}\u{0924} \u{091a}\u{0930}"@,
        ErrorView::TypeError(_) => "\u{092a}\u{094d}\u{0930}\u{0915}\u{093e}\u{0930} \u{092c}\u{0947}\u{092e}\u{0947}\u{0932}"@,
        ErrorView::RuntimeError(_) => if occurs_in("Invalid operation"@, description(error)) {
            "\u{0905}\u{092e}\u{093e}\u{0928}\u{094d}\u{092f} \u{0938}\u{0902}\u{091a}\u{093e}\u{0932}\u{0928}"@
        } else {
            description(error)
        },
        ErrorView::ParseError(_) => "\u{0935}\u{093e}\u{0915}\u{094d}\u{092f} \u{0930}\u{091a}\u{0928}\u{093e} \u{0924}\u{094d}\u{0930}\u{0941}\u{091f}\u{093f}"@,
        _ => description(error),
    }
}

/// Searching in a suffix finds the same place as searching in the whole
/// text from where the suffix starts.
proof fn lemma_find_in_suffix(s: Seq<char>, mark: char, start: int)
    requires
        0 <= start <= s.len(),
    ensures
        find_from(s.skip(start), mark, 0) + start == find_from(s, mark, start),
{
    let suffix = s.skip(start);
    lemma_find_from(suffix, mark, 0);
    lemma_find_from(s, mark, start);
    let a = find_from(suffix, mark, 0) + start;
    let b = find_from(s, mark, start);
    if a < b {
        assert(suffix[a - start] == s[a]);
    } else if b < a {
        assert(suffix[b - start] == s[b]);
    }
}

/// The line of `code` with the zero-based index `index`.
fn line_of(code: &str, index: usize) -> (text: String)
    ensures
        text@ == source_line(code@, index as nat),
{
    let chars = chars_of(code);
    let mut start: usize = 0;
    let mut remaining: usize = index;
    assert(chars@.skip(0) == chars@);
    loop
        invariant
            chars@ == code@,
            start <= chars.len(),
            source_line(code@, index as nat) == source_line(
                chars@.skip(start as int),
                remaining as nat,
            ),
        decreases chars.len() - start,
    {
        if start >= chars.len() {
            return String::new();
        }
        let end = find_char(&chars, '\n', start);
        let ghost rest = chars@.skip(start as int);
        proof {
            lemma_find_in_suffix(chars@, '\n', start as int);
            lemma_find_from(chars@, '\n', start as int);
        }
        if end < chars.len() {
            if remaining == 0 {
                if end > start && chars[end - 1] == '\r' {
                    assert(rest.take(end - 1 - start) == chars@.subrange(start as int, end - 1));
                    return text_of_range(&chars, start, end - 1);
                } else {
                    assert(rest.take(end - start) == chars@.subrange(start as int, end as int));
                    return text_of_range(&chars, start, end);
                }
            }
            assert(rest.skip(end - start + 1) == chars@.skip(end + 1));
            start = end + 1;
            remaining = remaining - 1;
        } else {
            if remaining == 0 {
                assert(rest == chars@.subrange(start as int, end as int));
                return text_of_range(&chars, start, end);
            }
            return String::new();
        }
    }
}

impl NepalError {
    /// The description of the error, as it is shown to the user.
    pub fn to_text(&self) -> (text: String)
        ensures
            text@ == description(self@),
    {
        match self {
            NepalError::LexError(m) => String::from_str("Lexical error: ").concat(m),
            NepalError::ParseError(m) => String::from_str("Parse error: ").concat(m),
            NepalError::RuntimeError(m) => String::from_str("Runtime error: ").concat(m),
            NepalError::TypeError(m) => String::from_str("Type error: ").concat(m),
            NepalError::NameError(m) => String::from_str("Name error: ").concat(m),
            NepalError::IoError(m) => String::from_str("IO error: ").concat(m.as_str()),
            NepalError::FormattedError { line, error_type, message, code, pointer } => {
                let mut text = String::from_str("Error at line ");
                text.append(count_text(*line).as_str());
                text.append(": ");
                text.append(error_type.as_str());
                text.append("\nDetails: ");
                text.append(message.as_str());
                text.append("\nCode: ");
                text.append(code.as_str());
                text.append("\n");
                text.append(pointer.as_str());
                text
            },
        }
    }

    /// Places `error` in the source text: `line` is counted from 1, and
    /// `column` is the number of spaces before the caret of the pointer.
    pub fn with_location(error: NepalError, line: usize, code: &str, column: usize) -> (result:
        Self)
        ensures
            result@ == located(error@, line, code@, column),
    {
        let text = error.to_text();
        let chars = chars_of(text.as_str());
        let first = find_char(&chars, ':', 0);
        let error_type = text_of_range(&chars, 0, first);
        let message = if first < chars.len() {
            let second = find_char(&chars, ':', first + 1);
            trimmed_range(&chars, first + 1, second)
        } else {
            String::from_str("Unknown error")
        };
        let code_line = if line == 0 {
            String::new()
        } else {
            line_of(code, line - 1)
        };
        let mut pointer = String::new();
        push_spaces(&mut pointer, column);
        pointer.append("^---- Error location");
        assert(pointer@ == spaces(column as nat) + "^---- Error location"@);
        NepalError::FormattedError { line, error_type, message, code: code_line, pointer }
    }

    /// The short message in Nepali for a name, type or parse error and for
    /// a runtime error about an invalid operation; the description for
    /// every other error.
    pub fn to_nepali_message(&self) -> (text: String)
        ensures
            text@ == nepali_message(self@),
    {
        match self {
            NepalError::NameError(_) => String::from_str("\u{0905}\u{092a}\u{0930}\u{093f}\u{092d}\u{093e}\u{0937}\u{093f}\u{0924} \u{091a}\u{0930}"),
            NepalError::TypeError(_) => String::from_str("\u{092a}\u{094d}\u{0930}\u{0915}\u{093e}\u{0930} \u{092c}\u{0947}\u{092e}\u{0947}\u{0932}"),
            NepalError::RuntimeError(_) => {
                let text = self.to_text();
                if contains_text(text.as_str(), "Invalid operation") {
                    String::from_str("\u{0905}\u{092e}\u{093e}\u{0928}\u{094d}\u{092f} \u{0938}\u{0902}\u{091a}\u{093e}\u{0932}\u{0928}")
                } else {
                    text
                }
            },
            NepalError::ParseError(_) => String::from_str("\u{0935}\u{093e}\u{0915}\u{094d}\u{092f} \u{0930}\u{091a}\u{0928}\u{093e} \u{0924}\u{094d}\u{0930}\u{0941}\u{091f}\u{093f}"),
            _ => self.to_text(),
        }
    }
}

} // verus!
