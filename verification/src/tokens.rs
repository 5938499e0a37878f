//! The token set of the language, and its specification-level mirror in
//! which identifier and constant text appears as a character sequence.

use vstd::prelude::*;

verus! {

/// The comment kinds the lexer recognizes; both are discarded before parsing.
#[derive(Debug, Clone, Copy, PartialEq, Eq, Structural)]
pub enum CommentToken {
    LineComment,
    BlockComment,
}

/// Punctuation and operator tokens, including the whitespace token that the
/// lexer produces and later filters out.
#[derive(Debug, Clone, Copy, PartialEq, Eq, Structural)]
pub enum SymbolToken {
    OpenParen,
    CloseParen,
    OpenBrace,
    CloseBrace,
    Semicolon,
    Quote,
    Whitespace,
    Plus,
    Minus,
    Asterisk,
    ForwardSlash,
    Percent,
    DoubleMinnus,
    Tilde,
    Exclamation,
    DoubleAmpersand,
    DoubleBar,
    DoubleEqual,
    ExclamationEqual,
    LeftAngleBracket,
    RightAngleBracket,
    LeftABEqual,
    RightABEqual,
    Equal,
}

/// The three keywords, recognized only at an identifier boundary.
#[derive(Debug, Clone, Copy, PartialEq, Eq, Structural)]
pub enum KeywordToken {
    Int,
    Void,
    Return,
}

/// A lexical token. Identifier and constant tokens carry their source text.
#[derive(Debug, PartialEq, Eq)]
pub enum Token {
    Identifier(String),
    Constant(String),
    Keyword(KeywordToken),
    Symbol(SymbolToken),
    Comment(CommentToken),
    Macro(String),
}

/// The mathematical model of a token: text fields are character sequences.
pub enum SpecToken {
    Identifier(Seq<char>),
    Constant(Seq<char>),
    Keyword(KeywordToken),
    Symbol(SymbolToken),
    Comment(CommentToken),
    Macro(Seq<char>),
}

impl View for Token {
    type V = SpecToken;

    open spec fn view(&self) -> SpecToken {
        match self {
            Token::Identifier(s) => SpecToken::Identifier(s@),
            Token::Constant(s) => SpecToken::Constant(s@),
            Token::Keyword(k) => SpecToken::Keyword(*k),
            Token::Symbol(s) => SpecToken::Symbol(*s),
            Token::Comment(c) => SpecToken::Comment(*c),
            Token::Macro(s) => SpecToken::Macro(s@),
        }
    }
}

impl Clone for Token {
    /// A clone is equal to the original, field for field.
    fn clone(&self) -> (r: Self)
        ensures
            r == *self,
    {
        match self {
            Token::Identifier(s) => Token::Identifier(s.clone()),
            Token::Constant(s) => Token::Constant(s.clone()),
            Token::Keyword(k) => Token::Keyword(*k),
            Token::Symbol(s) => Token::Symbol(*s),
            Token::Comment(c) => Token::Comment(*c),
            Token::Macro(s) => Token::Macro(s.clone()),
        }
    }
}

/// The model of a token vector.
pub open spec fn tokens_view(ts: Seq<Token>) -> Seq<SpecToken> {
    ts.map(|i: int, t: Token| t@)
}

} // verus!
