use vstd::prelude::*;

verus! {

/// The lexical category of a token.
#[derive(Debug, Clone, Copy, PartialEq, Eq, Structural, Default)]
pub enum Kind {
    LeftBrace,
    RightBrace,
    LeftParen,
    RightParen,
    Comma,
    Dot,
    Minus,
    Plus,
    Slash,
    Star,
    Semicolon,
    Bang,
    BangEqual,
    Equal,
    EqualEqual,
    Greater,
    GreaterEqual,
    Less,
    LessEqual,
    IdentifierLiteral,
    StringLiteral,
    NumberLiteral,
    And,
    Or,
    Class,
    Fun,
    Var,
    If,
    Else,
    While,
    For,
    True,
    False,
    Nil,
    Print,
    Return,
    Super,
    This,
    #[default]
    Eof,
    Error,
}

/// One token at the specification level.
pub struct TokenV {
    pub kind: Kind,
    pub line: int,
    pub index_in_source: int,
    pub string: Seq<char>,
}

/// One token: its kind, the 1-based source line it starts on, the position of
/// its first character in the source, and its text.
#[derive(Debug)]
pub struct Token {
    pub kind: Kind,
    pub line: usize,
    pub index_in_source: usize,
    pub string: String,
}

impl View for Token {
    type V = TokenV;

    open spec fn view(&self) -> TokenV {
        TokenV {
            kind: self.kind,
            line: self.line as int,
            index_in_source: self.index_in_source as int,
            string: self.string@,
        }
    }
}

impl Clone for Token {
    /// Copies the token, text included.
    fn clone(&self) -> (t: Token)
        ensures
            t == self,
    {
        Token {
            kind: self.kind,
            line: self.line,
            index_in_source: self.index_in_source,
            string: self.string.clone(),
        }
    }
}

} // verus!
