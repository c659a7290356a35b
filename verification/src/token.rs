//! Tokens and their categories.

use vstd::prelude::*;

verus! {

/// The closed set of token categories.
#[derive(Clone, Copy, Debug, PartialEq, Eq, Structural)]
pub enum TokenType {
    LeftParen,
    RightParen,
    LeftBrace,
    RightBrace,
    Comma,
    Dot,
    Semicolon,
    Minus,
    Plus,
    Star,
    Divide,
    Modulus,
    Bang,
    BangEqual,
    Equal,
    EqualEqual,
    Less,
    LessEqual,
    Greater,
    GreaterEqual,
    Number,
    String,
    Identifier,
    Var,
    Fun,
    Return,
    If,
    Else,
    For,
    While,
    Print,
    Break,
    Continue,
    Class,
    This,
    True,
    False,
    Nil,
    Or,
    And,
    Super,
    Comment,
    Eof,
}

/// The kind of literal a token stands for; a tag, not a parsed value.
#[derive(Clone, Copy, Debug, PartialEq, Eq, Structural)]
pub enum Literal {
    Number,
    String,
    Boolean,
    Nil,
}

/// The literal tag that belongs to a token category.
pub open spec fn literal_of(kind: TokenType) -> Literal {
    match kind {
        TokenType::Number => Literal::Number,
        TokenType::String => Literal::String,
        TokenType::True => Literal::Boolean,
        TokenType::False => Literal::Boolean,
        _ => Literal::Nil,
    }
}

/// A classified, positioned fragment of source text.
#[derive(Clone, Debug)]
pub struct Token {
    pub token_type: TokenType,
    pub lexeme: String,
    pub literal: Literal,
    pub line: usize,
    pub column: usize,
}

/// The mathematical value of a [`Token`].
pub struct TokenView {
    pub kind: TokenType,
    pub lexeme: Seq<char>,
    pub literal: Literal,
    pub line: int,
    pub column: int,
}

impl View for Token {
    type V = TokenView;

    open spec fn view(&self) -> TokenView {
        TokenView {
            kind: self.token_type,
            lexeme: self.lexeme@,
            literal: self.literal,
            line: self.line as int,
            column: self.column as int,
        }
    }
}

impl Token {
    /// Builds a token from its parts.
    pub fn new(
        token_type: TokenType,
        lexeme: String,
        literal: Literal,
        line: usize,
        column: usize,
    ) -> (token: Token)
        ensures
            token.token_type == token_type,
            token.lexeme == lexeme,
            token.literal == literal,
            token.line == line,
            token.column == column,
    {
        Token { token_type, lexeme, literal, line, column }
    }
}

/// The views of a sequence of tokens, in order.
pub open spec fn token_views(tokens: Seq<Token>) -> Seq<TokenView> {
    tokens.map_values(|t: Token| t@)
}

} // verus!
