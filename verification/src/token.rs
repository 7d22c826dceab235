//! The tokens of the language.

use vstd::prelude::*;

verus! {

/// A token of the source text.
#[derive(Debug)]
pub enum Token {
    /// `oi mug`: declares a variable or reads one.
    OiMug,
    /// `bol mug`: prints.
    BolMug,
    /// `mug`: starts an arithmetic statement.
    Mug,
    Identifier(String),
    Number(i32),
    String(String),
    Plus,
    /// `bhan`: reads a line of input.
    Bhan,
    /// `jod`: addition.
    Jod,
    /// `ghata`: subtraction.
    Ghata,
    /// `lai`: names the target of an arithmetic statement.
    Lai,
    Equals,
    Comma,
    IsEquals,
    NotEquals,
    /// `yedi`: if.
    Yedi,
    /// `bhane`: then.
    Bhane,
    /// `sakiyo`: end.
    Sakiyo,
    /// `babaal`: the condition holds if the two are equal.
    Babaal,
    /// `laamo`: the condition holds if the two differ.
    Laamo,
    /// `aile`: else, followed by `feri`.
    Aile,
    Feri,
}

/// The mathematical content of a token.
pub enum TokenView {
    OiMug,
    BolMug,
    Mug,
    Identifier(Seq<char>),
    Number(i32),
    String(Seq<char>),
    Plus,
    Bhan,
    Jod,
    Ghata,
    Lai,
    Equals,
    Comma,
    IsEquals,
    NotEquals,
    Yedi,
    Bhane,
    Sakiyo,
    Babaal,
    Laamo,
    Aile,
    Feri,
}

impl View for Token {
    type V = TokenView;

    open spec fn view(&self) -> TokenView {
        match *self {
            Token::OiMug => TokenView::OiMug,
            Token::BolMug => TokenView::BolMug,
            Token::Mug => TokenView::Mug,
            Token::Identifier(name) => TokenView::Identifier(name@),
            Token::Number(n) => TokenView::Number(n),
            Token::String(text) => TokenView::String(text@),
            Token::Plus => TokenView::Plus,
            Token::Bhan => TokenView::Bhan,
            Token::Jod => TokenView::Jod,
            Token::Ghata => TokenView::Ghata,
            Token::Lai => TokenView::Lai,
            Token::Equals => TokenView::Equals,
            Token::Comma => TokenView::Comma,
            Token::IsEquals => TokenView::IsEquals,
            Token::NotEquals => TokenView::NotEquals,
            Token::Yedi => TokenView::Yedi,
            Token::Bhane => TokenView::Bhane,
            Token::Sakiyo => TokenView::Sakiyo,
            Token::Babaal => TokenView::Babaal,
            Token::Laamo => TokenView::Laamo,
            Token::Aile => TokenView::Aile,
            Token::Feri => TokenView::Feri,
        }
    }
}

/// The content of each token of `tokens`, in order.
pub open spec fn token_views(tokens: Seq<Token>) -> Seq<TokenView> {
    Seq::new(tokens.len(), |i: int| tokens[i]@)
}

impl Clone for Token {
    fn clone(&self) -> (copy: Self)
        ensures
            copy@ == self@,
    {
        match self {
            Token::OiMug => Token::OiMug,
            Token::BolMug => Token::BolMug,
            Token::Mug => Token::Mug,
            Token::Identifier(name) => Token::Identifier(name.clone()),
            Token::Number(n) => Token::Number(*n),
            Token::String(text) => Token::String(text.clone()),
            Token::Plus => Token::Plus,
            Token::Bhan => Token::Bhan,
            Token::Jod => Token::Jod,
            Token::Ghata => Token::Ghata,
            Token::Lai => Token::Lai,
            Token::Equals => Token::Equals,
            Token::Comma => Token::Comma,
            Token::IsEquals => Token::IsEquals,
            Token::NotEquals => Token::NotEquals,
            Token::Yedi => Token::Yedi,
            Token::Bhane => Token::Bhane,
            Token::Sakiyo => Token::Sakiyo,
            Token::Babaal => Token::Babaal,
            Token::Laamo => Token::Laamo,
            Token::Aile => Token::Aile,
            Token::Feri => Token::Feri,
        }
    }
}

} // verus!
