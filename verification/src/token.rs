use vstd::prelude::*;

verus! {

/// The kinds of token the lexer produces.
#[derive(Debug, Clone, Copy, PartialEq, Eq, Structural)]
pub enum TokenKind {
    // Keywords
    Create,
    Table,
    Insert,
    Into,
    Select,
    Values,
    From,
    Where,
    // Operators
    Plus,
    Equal,
    LessThan,
    LessThanEqual,
    GreaterThan,
    GreaterThanEqual,
    LeftParen,
    RightParen,
    Comma,
    // Literals
    Identifier,
    String,
    Number,
    // End of input
    Eof,
}

/// A token: its kind, the text it stands for, and where that text starts.
#[derive(Debug, Clone, Copy)]
pub struct Token<'a> {
    /// The type of Token this is
    pub kind: TokenKind,
    /// The actual text this Token refers to (lexeme in compiler terms)
    pub lexeme: &'a str,
    /// The byte offset in the broader input this Token starts at
    pub position: usize,
}

/// The mathematical value of a [`Token`]: its lexeme as a sequence of characters.
pub struct TokenView {
    pub kind: TokenKind,
    pub lexeme: Seq<char>,
    pub position: usize,
}

impl<'a> View for Token<'a> {
    type V = TokenView;

    open spec fn view(&self) -> TokenView {
        TokenView { kind: self.kind, lexeme: self.lexeme@, position: self.position }
    }
}

/// The values of a sequence of tokens.
pub open spec fn token_views<'a>(ts: Seq<Token<'a>>) -> Seq<TokenView> {
    ts.map_values(|t: Token<'a>| t@)
}

} // verus!
