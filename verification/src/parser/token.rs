//! Tokens and source positions.

use vstd::prelude::*;

verus! {

/// A place in the source text: its offset in bytes of UTF-8, its line, and
/// its column, which is the number of characters between it and the start
/// of the line. All three are counted from zero.
#[derive(Clone, Copy, Debug, PartialEq, Eq, Structural)]
pub struct Position {
    pub offset: usize,
    pub line: usize,
    pub column: usize,
}

/// What a token is, with its text where it has one.
#[derive(Debug)]
pub enum TokenKind {
    LBrace,
    RBrace,
    LParen,
    RParen,
    LBracket,
    RBracket,
    Colon,
    Comma,
    /// An identifier: a letter or underscore, then letters, digits and
    /// underscores.
    Name(String),
    /// A run of decimal digits.
    Number(String),
    /// The text between two double quotes.
    Str(String),
}

/// The model of a [`TokenKind`].
pub enum Lexeme {
    LBrace,
    RBrace,
    LParen,
    RParen,
    LBracket,
    RBracket,
    Colon,
    Comma,
    Name(Seq<char>),
    Number(Seq<char>),
    Str(Seq<char>),
}

impl View for TokenKind {
    type V = Lexeme;

    open spec fn view(&self) -> Lexeme {
        match self {
            TokenKind::LBrace => Lexeme::LBrace,
            TokenKind::RBrace => Lexeme::RBrace,
            TokenKind::LParen => Lexeme::LParen,
            TokenKind::RParen => Lexeme::RParen,
            TokenKind::LBracket => Lexeme::LBracket,
            TokenKind::RBracket => Lexeme::RBracket,
            TokenKind::Colon => Lexeme::Colon,
            TokenKind::Comma => Lexeme::Comma,
            TokenKind::Name(s) => Lexeme::Name(s@),
            TokenKind::Number(s) => Lexeme::Number(s@),
            TokenKind::Str(s) => Lexeme::Str(s@),
        }
    }
}

/// A token and the number of characters before it in the source.
#[derive(Debug)]
pub struct Token {
    pub kind: TokenKind,
    pub offset: usize,
}

/// The model of a [`Token`].
pub struct TokenView {
    pub kind: Lexeme,
    pub offset: int,
}

impl View for Token {
    type V = TokenView;

    open spec fn view(&self) -> TokenView {
        TokenView { kind: self.kind@, offset: self.offset as int }
    }
}

/// The models of the tokens of `tokens`, in order.
pub open spec fn token_views(tokens: Seq<Token>) -> Seq<TokenView> {
    Seq::new(tokens.len(), |i: int| tokens[i]@)
}

/// The lexemes of `tokens`, in order, without their offsets.
pub open spec fn lexemes(tokens: Seq<TokenView>) -> Seq<Lexeme> {
    Seq::new(tokens.len(), |i: int| tokens[i].kind)
}


/// The lexemes of `tokens`, in order.
pub open spec fn kinds(tokens: Seq<Token>) -> Seq<Lexeme> {
    Seq::new(tokens.len(), |i: int| tokens[i].kind@)
}

pub proof fn lemma_kinds(tokens: Seq<Token>)
    ensures
        kinds(tokens) == lexemes(token_views(tokens)),
{
    assert(kinds(tokens) =~= lexemes(token_views(tokens)));
}

impl TokenKind {
    /// Whether two kinds are the same, texts included.
    pub fn same(&self, other: &TokenKind) -> (res: bool)
        ensures
            res == (self@ == other@),
    {
        match (self, other) {
            (TokenKind::LBrace, TokenKind::LBrace) => true,
            (TokenKind::RBrace, TokenKind::RBrace) => true,
            (TokenKind::LParen, TokenKind::LParen) => true,
            (TokenKind::RParen, TokenKind::RParen) => true,
            (TokenKind::LBracket, TokenKind::LBracket) => true,
            (TokenKind::RBracket, TokenKind::RBracket) => true,
            (TokenKind::Colon, TokenKind::Colon) => true,
            (TokenKind::Comma, TokenKind::Comma) => true,
            (TokenKind::Name(a), TokenKind::Name(b)) => *a == *b,
            (TokenKind::Number(a), TokenKind::Number(b)) => *a == *b,
            (TokenKind::Str(a), TokenKind::Str(b)) => *a == *b,
            _ => false,
        }
    }
}

/// Whether the token at `p` exists and is of kind `kind`.
pub fn token_is(tokens: &Vec<Token>, p: usize, kind: &TokenKind) -> (res: bool)
    ensures
        res == (p < tokens.len() && kinds(tokens@)[p as int] == kind@),
{
    p < tokens.len() && tokens[p].kind.same(kind)
}

} // verus!
