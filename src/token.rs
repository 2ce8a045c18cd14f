//! The lexical vocabulary: tokens, their kinds and their mathematical view.
use vstd::prelude::*;
use crate::types::{Type, Ty};

verus! {

/// A lexical unit of a protocol source.
#[derive(Debug, PartialEq, Eq)]
pub enum Token {
    Str(String),
    Ident(String),
    Prim(Type),
    Comment(String),
    Lit(u64),
    Newtype,
    Category,
    Include,
    Method,
    Config,
    Semi,
    LBrace,
    RBrace,
    Lt,
    Gt,
    Comma,
    Equals,
    Colon,
    Eof,
}

/// The kind of a token: its variant, whatever it carries.
#[derive(Clone, Copy, Debug, PartialEq, Eq, Structural)]
pub enum TokenKind {
    Str,
    Ident,
    Prim,
    Comment,
    Lit,
    Newtype,
    Category,
    Include,
    Method,
    Config,
    Semi,
    LBrace,
    RBrace,
    Lt,
    Gt,
    Comma,
    Equals,
    Colon,
    Eof,
}

/// The mathematical value of a `Token`.
pub enum Tok {
    Str(Seq<char>),
    Ident(Seq<char>),
    Prim(Ty),
    Comment(Seq<char>),
    Lit(u64),
    Newtype,
    Category,
    Include,
    Method,
    Config,
    Semi,
    LBrace,
    RBrace,
    Lt,
    Gt,
    Comma,
    Equals,
    Colon,
    Eof,
}

impl Tok {
    pub open spec fn kind(self) -> TokenKind {
        match self {
            Tok::Str(_) => TokenKind::Str,
            Tok::Ident(_) => TokenKind::Ident,
            Tok::Prim(_) => TokenKind::Prim,
            Tok::Comment(_) => TokenKind::Comment,
            Tok::Lit(_) => TokenKind::Lit,
            Tok::Newtype => TokenKind::Newtype,
            Tok::Category => TokenKind::Category,
            Tok::Include => TokenKind::Include,
            Tok::Method => TokenKind::Method,
            Tok::Config => TokenKind::Config,
            Tok::Semi => TokenKind::Semi,
            Tok::LBrace => TokenKind::LBrace,
            Tok::RBrace => TokenKind::RBrace,
            Tok::Lt => TokenKind::Lt,
            Tok::Gt => TokenKind::Gt,
            Tok::Comma => TokenKind::Comma,
            Tok::Equals => TokenKind::Equals,
            Tok::Colon => TokenKind::Colon,
            Tok::Eof => TokenKind::Eof,
        }
    }
}

impl Token {
    pub open spec fn view(&self) -> Tok {
        match self {
            Token::Str(s) => Tok::Str(s@),
            Token::Ident(s) => Tok::Ident(s@),
            Token::Prim(t) => Tok::Prim(t@),
            Token::Comment(s) => Tok::Comment(s@),
            Token::Lit(v) => Tok::Lit(*v),
            Token::Newtype => Tok::Newtype,
            Token::Category => Tok::Category,
            Token::Include => Tok::Include,
            Token::Method => Tok::Method,
            Token::Config => Tok::Config,
            Token::Semi => Tok::Semi,
            Token::LBrace => Tok::LBrace,
            Token::RBrace => Tok::RBrace,
            Token::Lt => Tok::Lt,
            Token::Gt => Tok::Gt,
            Token::Comma => Tok::Comma,
            Token::Equals => Tok::Equals,
            Token::Colon => Tok::Colon,
            Token::Eof => Tok::Eof,
        }
    }

    /// The kind of this token; two tokens are of one kind when their variants agree.
    pub fn kind(&self) -> (r: TokenKind)
        ensures
            r == self@.kind(),
    {
        match self {
            Token::Str(_) => TokenKind::Str,
            Token::Ident(_) => TokenKind::Ident,
            Token::Prim(_) => TokenKind::Prim,
            Token::Comment(_) => TokenKind::Comment,
            Token::Lit(_) => TokenKind::Lit,
            Token::Newtype => TokenKind::Newtype,
            Token::Category => TokenKind::Category,
            Token::Include => TokenKind::Include,
            Token::Method => TokenKind::Method,
            Token::Config => TokenKind::Config,
            Token::Semi => TokenKind::Semi,
            Token::LBrace => TokenKind::LBrace,
            Token::RBrace => TokenKind::RBrace,
            Token::Lt => TokenKind::Lt,
            Token::Gt => TokenKind::Gt,
            Token::Comma => TokenKind::Comma,
            Token::Equals => TokenKind::Equals,
            Token::Colon => TokenKind::Colon,
            Token::Eof => TokenKind::Eof,
        }
    }
}

/// The view of a sequence of tokens.
pub open spec fn toks_view(ts: Seq<Token>) -> Seq<Tok> {
    ts.map_values(|t: Token| t@)
}

} // verus!
