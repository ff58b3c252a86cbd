use vstd::prelude::*;

verus! {

/// A token of the language.
///
/// A number literal keeps the text it was written with (digits, and an
/// optional `.` followed by more digits); its numeric value is not computed
/// here.
#[derive(Clone, Debug, PartialEq)]
pub enum Token {
    // literals
    String(String),
    Number(String),
    LParens,
    RParens,
    Dot,
    // keywords and names
    Ident(String),
    Method,
    Return,
    Move,
    Void,
    Inherit,
    Use,
    As,
    Do,
    Until,
    If,
    Tab,
    NewLine,
}

/// A token as a mathematical value: its text as a sequence of characters.
pub enum SpecToken {
    String(Seq<char>),
    Number(Seq<char>),
    LParens,
    RParens,
    Dot,
    Ident(Seq<char>),
    Method,
    Return,
    Move,
    Void,
    Inherit,
    Use,
    As,
    Do,
    Until,
    If,
    Tab,
    NewLine,
}

impl View for Token {
    type V = SpecToken;

    open spec fn view(&self) -> SpecToken {
        match self {
            Token::String(s) => SpecToken::String(s@),
            Token::Number(s) => SpecToken::Number(s@),
            Token::LParens => SpecToken::LParens,
            Token::RParens => SpecToken::RParens,
            Token::Dot => SpecToken::Dot,
            Token::Ident(s) => SpecToken::Ident(s@),
            Token::Method => SpecToken::Method,
            Token::Return => SpecToken::Return,
            Token::Move => SpecToken::Move,
            Token::Void => SpecToken::Void,
            Token::Inherit => SpecToken::Inherit,
            Token::Use => SpecToken::Use,
            Token::As => SpecToken::As,
            Token::Do => SpecToken::Do,
            Token::Until => SpecToken::Until,
            Token::If => SpecToken::If,
            Token::Tab => SpecToken::Tab,
            Token::NewLine => SpecToken::NewLine,
        }
    }
}

/// A sequence of tokens as mathematical values.
pub open spec fn view_tokens(ts: Seq<Token>) -> Seq<SpecToken> {
    ts.map_values(|t: Token| t@)
}

} // verus!
