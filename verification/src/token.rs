//! The token model: lexical categories, source positions and their
//! mathematical views.

use vstd::prelude::*;

verus! {

/// The two comment forms of the language.
#[derive(Debug, Clone, Copy, PartialEq, Eq, Structural)]
pub enum CommentType {
    /// `(* ... *)`
    Parenthesis,
    /// `{ ... }`
    CurlyBrackets,
}

/// The lexical category of a token, with its payload where it has one.
#[derive(Debug)]
pub enum TokenType {
    Identifier(String),
    Keyword(String),
    IntLiteral(String),
    CharLiteral(char),
    StringLiteral(String),
    AssignmentOperator,
    Operator(String),
    Comment(CommentType),
    Hash,
    Colon,
    Semicolon,
    PointerSymbol,
    DollarSign,
    AtSign,
    Ampersand,
    OpenParenthesis,
    CloseParenthesis,
    OpenSquareBracket,
    CloseSquareBracket,
    Period,
    Comma,
    Eof,
}

/// What a `TokenType` is in contracts: the same categories, with text
/// payloads as sequences of characters.
pub ghost enum TokenKind {
    Identifier(Seq<char>),
    Keyword(Seq<char>),
    IntLiteral(Seq<char>),
    CharLiteral(char),
    StringLiteral(Seq<char>),
    AssignmentOperator,
    Operator(Seq<char>),
    Comment(CommentType),
    Hash,
    Colon,
    Semicolon,
    PointerSymbol,
    DollarSign,
    AtSign,
    Ampersand,
    OpenParenthesis,
    CloseParenthesis,
    OpenSquareBracket,
    CloseSquareBracket,
    Period,
    Comma,
    Eof,
}

impl View for TokenType {
    type V = TokenKind;

    open spec fn view(&self) -> TokenKind {
        match self {
            TokenType::Identifier(s) => TokenKind::Identifier(s@),
            TokenType::Keyword(s) => TokenKind::Keyword(s@),
            TokenType::IntLiteral(s) => TokenKind::IntLiteral(s@),
            TokenType::CharLiteral(c) => TokenKind::CharLiteral(*c),
            TokenType::StringLiteral(s) => TokenKind::StringLiteral(s@),
            TokenType::AssignmentOperator => TokenKind::AssignmentOperator,
            TokenType::Operator(s) => TokenKind::Operator(s@),
            TokenType::Comment(c) => TokenKind::Comment(*c),
            TokenType::Hash => TokenKind::Hash,
            TokenType::Colon => TokenKind::Colon,
            TokenType::Semicolon => TokenKind::Semicolon,
            TokenType::PointerSymbol => TokenKind::PointerSymbol,
            TokenType::DollarSign => TokenKind::DollarSign,
            TokenType::AtSign => TokenKind::AtSign,
            TokenType::Ampersand => TokenKind::Ampersand,
            TokenType::OpenParenthesis => TokenKind::OpenParenthesis,
            TokenType::CloseParenthesis => TokenKind::CloseParenthesis,
            TokenType::OpenSquareBracket => TokenKind::OpenSquareBracket,
            TokenType::CloseSquareBracket => TokenKind::CloseSquareBracket,
            TokenType::Period => TokenKind::Period,
            TokenType::Comma => TokenKind::Comma,
            TokenType::Eof => TokenKind::Eof,
        }
    }
}

impl TokenType {
    /// A copy of this category with the same payload.
    pub fn duplicate(&self) -> (r: TokenType)
        ensures
            r@ == self@,
    {
        match self {
            TokenType::Identifier(s) => TokenType::Identifier(s.clone()),
            TokenType::Keyword(s) => TokenType::Keyword(s.clone()),
            TokenType::IntLiteral(s) => TokenType::IntLiteral(s.clone()),
            TokenType::CharLiteral(c) => TokenType::CharLiteral(*c),
            TokenType::StringLiteral(s) => TokenType::StringLiteral(s.clone()),
            TokenType::AssignmentOperator => TokenType::AssignmentOperator,
            TokenType::Operator(s) => TokenType::Operator(s.clone()),
            TokenType::Comment(c) => TokenType::Comment(*c),
            TokenType::Hash => TokenType::Hash,
            TokenType::Colon => TokenType::Colon,
            TokenType::Semicolon => TokenType::Semicolon,
            TokenType::PointerSymbol => TokenType::PointerSymbol,
            TokenType::DollarSign => TokenType::DollarSign,
            TokenType::AtSign => TokenType::AtSign,
            TokenType::Ampersand => TokenType::Ampersand,
            TokenType::OpenParenthesis => TokenType::OpenParenthesis,
            TokenType::CloseParenthesis => TokenType::CloseParenthesis,
            TokenType::OpenSquareBracket => TokenType::OpenSquareBracket,
            TokenType::CloseSquareBracket => TokenType::CloseSquareBracket,
            TokenType::Period => TokenType::Period,
            TokenType::Comma => TokenType::Comma,
            TokenType::Eof => TokenType::Eof,
        }
    }
}

/// A token: its category and the position of its first character, both
/// counted from one.
#[derive(Debug)]
pub struct Token {
    pub token_type: TokenType,
    pub col: usize,
    pub line: usize,
}

/// What a `Token` is in contracts.
pub ghost struct Lexeme {
    pub kind: TokenKind,
    pub line: int,
    pub col: int,
}

impl View for Token {
    type V = Lexeme;

    open spec fn view(&self) -> Lexeme {
        Lexeme { kind: self.token_type@, line: self.line as int, col: self.col as int }
    }
}

impl Token {
    /// A copy of this token: same category, payload and position.
    pub fn duplicate(&self) -> (r: Token)
        ensures
            r@ == self@,
    {
        Token { token_type: self.token_type.duplicate(), col: self.col, line: self.line }
    }
}

/// The views of a sequence of tokens, in order.
pub open spec fn lexemes(tokens: Seq<Token>) -> Seq<Lexeme> {
    tokens.map_values(|t: Token| t@)
}

} // verus!
