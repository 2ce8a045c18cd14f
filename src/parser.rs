//! The recursive-descent parser: one token of lookahead, no recovery. Each
//! function is proved to compute what the grammar states.
use vstd::prelude::*;
use crate::grammar::{
    expect,
    find_source,
    find_source_from,
    free_count,
    lemma_free_count_update,
    mismatch,
    p_attrs,
    p_cat_body,
    p_category,
    p_config,
    p_config_fields,
    p_fields,
    p_method,
    p_method_body,
    p_newtype,
    p_open,
    p_open_body,
    p_open_protocol,
    p_property,
    p_protocol,
    p_protocol_file,
    p_type,
    doc_line,
    empty_protocol,
    tok_at,
};
use crate::lexer::{lex, str_eq, LexFault};
use crate::name_map::NameMap;
use crate::protocol::{Category, Failure, Method, ParseError, Protocol, ProtocolM, strings_view};
use crate::token::{Token, TokenKind, Tok, toks_view};
use crate::types::{Object, ProtoConfig, Type, Ty, fields_view};

verus! {

/// The view of a list of named sources: each entry is a file name and its text.
pub open spec fn sources_view(v: Seq<(String, String)>) -> Seq<(Seq<char>, Seq<char>)> {
    v.map_values(|p: (String, String)| (p.0@, p.1@))
}

/// The protocol that the parse of the source named `file` yields, or why
/// it fails. No source is being parsed when the parse starts.
pub open spec fn parse_spec(srcs: Seq<(Seq<char>, Seq<char>)>, file: Seq<char>) -> Result<
    ProtocolM,
    Failure,
> {
    p_open_protocol(srcs, Seq::new(srcs.len(), |i: int| false), file, true)
}

/// A name for the kind of token, for messages.
pub fn kind_name(k: TokenKind) -> &'static str {
    match k {
        TokenKind::Str => "string",
        TokenKind::Ident => "identifier",
        TokenKind::Prim => "primitive type",
        TokenKind::Comment => "doc comment",
        TokenKind::Lit => "integer",
        TokenKind::Newtype => "`newtype`",
        TokenKind::Category => "`category`",
        TokenKind::Include => "`include`",
        TokenKind::Method => "`method`",
        TokenKind::Config => "`config`",
        TokenKind::Semi => "`;`",
        TokenKind::LBrace => "`{`",
        TokenKind::RBrace => "`}`",
        TokenKind::Lt => "`<`",
        TokenKind::Gt => "`>`",
        TokenKind::Comma => "`,`",
        TokenKind::Equals => "`=`",
        TokenKind::Colon => "`:`",
        TokenKind::Eof => "end of input",
    }
}

/// The error for finding a token of kind `found` where `expected` was due.
fn unexpected(expected: &str, found: TokenKind) -> (e: ParseError)
    ensures
        found == TokenKind::Eof ==> e is UnexpectedEof,
        found != TokenKind::Eof ==> e is UnexpectedToken,
{
    let mut msg = String::from_str("expected ");
    msg.append(expected);
    msg.append(", found ");
    msg.append(kind_name(found));
    if found == TokenKind::Eof {
        ParseError::UnexpectedEof(msg)
    } else {
        ParseError::UnexpectedToken(msg)
    }
}

/// A message that names `what` and the text `name`.
fn message(what: &str, name: &str) -> (m: String) {
    let mut m = String::from_str(what);
    m.append(" `");
    m.append(name);
    m.append("`");
    m
}

fn lex_error(f: LexFault) -> (e: ParseError)
    ensures
        e.reports(Failure::Lexical(f)),
{
    match f {
        LexFault::BadLineEnding => ParseError::Other(
            String::from_str("carriage return not followed by a line feed"),
        ),
        LexFault::LiteralOverflow => ParseError::Other(
            String::from_str("numeric literal does not fit in 64 bits"),
        ),
        LexFault::UnexpectedChar(_) => ParseError::Other(
            String::from_str("unexpected character"),
        ),
    }
}

/// A parser over the tokens of one source.
pub struct Parser {
    /// The tokens not yet consumed, the next one last.
    rest: Vec<Token>,
    orig: Ghost<Seq<Tok>>,
}

impl Parser {
    /// The tokens being parsed.
    pub closed spec fn tokens(&self) -> Seq<Tok> {
        self.orig@
    }

    /// The position of the next token among them.
    pub closed spec fn pos(&self) -> int {
        self.orig@.len() - self.rest@.len()
    }

    pub closed spec fn remaining(&self) -> nat {
        self.rest@.len()
    }

    pub closed spec fn wf(&self) -> bool {
        &&& self.rest@.len() <= self.orig@.len()
        &&& forall|k: int|
            0 <= k < self.rest@.len() ==> #[trigger] self.rest@[k]@ == self.orig@[self.orig@.len() - 1
                - k]
    }

    pub open spec fn step(old: &Parser, new: &Parser) -> bool {
        &&& new.wf()
        &&& new.tokens() == old.tokens()
        &&& old.pos() <= new.pos()
        &&& new.remaining() <= old.remaining()
    }

    pub fn new(toks: Vec<Token>) -> (p: Parser)
        ensures
            p.wf(),
            p.tokens() == toks_view(toks@),
            p.pos() == 0,
    {
        let ghost t = toks_view(toks@);
        let mut toks = toks;
        let mut rest: Vec<Token> = Vec::new();
        while toks.len() > 0
            invariant
                rest@.len() + toks@.len() == t.len(),
                forall|k: int| 0 <= k < toks@.len() ==> #[trigger] toks@[k]@ == t[k],
                forall|k: int| 0 <= k < rest@.len() ==> #[trigger] rest@[k]@ == t[t.len() - 1 - k],
            decreases toks@.len(),
        {
            match toks.pop() {
                Some(tk) => rest.push(tk),
                None => {},
            }
        }
        Parser { rest, orig: Ghost(t) }
    }

    /// The kind of the next token.
    pub fn lookahead(&self) -> (k: TokenKind)
        requires
            self.wf(),
        ensures
            k == tok_at(self.tokens(), self.pos()).kind(),
    {
        let n = self.rest.len();
        if n == 0 {
            TokenKind::Eof
        } else {
            self.rest[n - 1].kind()
        }
    }

    /// Consumes the next token.
    pub fn next(&mut self) -> (r: Token)
        requires
            old(self).wf(),
            old(self).pos() < old(self).tokens().len(),
        ensures
            Parser::step(&*old(self), &*final(self)),
            final(self).pos() == old(self).pos() + 1,
            r@ == tok_at(old(self).tokens(), old(self).pos()),
    {
        match self.rest.pop() {
            Some(t) => t,
            None => {
                proof {
                    assert(false);
                }
                Token::Eof
            },
        }
    }

    /// Consumes the next token, which must be of kind `k`.
    pub fn expect(&mut self, k: TokenKind) -> (r: Result<Token, ParseError>)
        requires
            old(self).wf(),
            k != TokenKind::Eof,
        ensures
            Parser::step(&*old(self), &*final(self)),
            match expect(old(self).tokens(), old(self).pos(), k) {
                Ok(j) => r is Ok && r->Ok_0@ == tok_at(old(self).tokens(), old(self).pos())
                    && final(self).pos() == j,
                Err(f) => r is Err && r->Err_0.reports(f),
            },
    {
        let found = self.lookahead();
        if found == k {
            Ok(self.next())
        } else {
            Err(unexpected(kind_name(k), found))
        }
    }

    /// Consumes the next token, which must be of one of the kinds `ks`; the
    /// end-of-stream token stays where it is.
    pub fn expect_one_of(&mut self, ks: &[TokenKind]) -> (r: Result<Token, ParseError>)
        requires
            old(self).wf(),
        ensures
            Parser::step(&*old(self), &*final(self)),
            ks@.contains(tok_at(old(self).tokens(), old(self).pos()).kind()) ==> r is Ok
                && r->Ok_0@ == tok_at(old(self).tokens(), old(self).pos())
                && final(self).pos() == if old(self).pos() < old(self).tokens().len() {
                old(self).pos() + 1
            } else {
                old(self).pos()
            },
            !ks@.contains(tok_at(old(self).tokens(), old(self).pos()).kind()) ==> r is Err
                && r->Err_0.reports(mismatch(tok_at(old(self).tokens(), old(self).pos()))),
    {
        let found = self.lookahead();
        let mut i: usize = 0;
        while i < ks.len()
            invariant
                self.wf(),
                *self == *old(self),
                found == tok_at(self.tokens(), self.pos()).kind(),
                i <= ks@.len(),
                forall|m: int| 0 <= m < i ==> ks@[m] != found,
            decreases ks@.len() - i,
        {
            if ks[i] == found {
                if self.rest.len() == 0 {
                    return Ok(Token::Eof);
                }
                return Ok(self.next());
            }
            i = i + 1;
        }
        let mut expected = String::new();
        let mut m: usize = 0;
        while m < ks.len()
            decreases ks@.len() - m,
        {
            if m > 0 {
                expected.append(if m + 1 == ks.len() { " or " } else { ", " });
            }
            expected.append(kind_name(ks[m]));
            m = m + 1;
        }
        Err(unexpected(expected.as_str(), found))
    }

    /// Consumes a string literal and returns its text.
    pub fn expect_string(&mut self) -> (r: Result<String, ParseError>)
        requires
            old(self).wf(),
        ensures
            Parser::step(&*old(self), &*final(self)),
            match tok_at(old(self).tokens(), old(self).pos()) {
                Tok::Str(s) => r is Ok && r->Ok_0@ == s && final(self).pos() == old(self).pos() + 1,
                other => r is Err && r->Err_0.reports(mismatch(other)),
            },
    {
        match self.expect(TokenKind::Str) {
            Ok(Token::Str(s)) => Ok(s),
            Ok(_) => {
                proof {
                    assert(false);
                }
                Err(ParseError::Other(String::new()))
            },
            Err(e) => Err(e),
        }
    }

    /// Consumes an identifier and returns its text.
    pub fn expect_ident(&mut self) -> (r: Result<String, ParseError>)
        requires
            old(self).wf(),
        ensures
            Parser::step(&*old(self), &*final(self)),
            match tok_at(old(self).tokens(), old(self).pos()) {
                Tok::Ident(s) => r is Ok && r->Ok_0@ == s && final(self).pos() == old(self).pos()
                    + 1,
                other => r is Err && r->Err_0.reports(mismatch(other)),
            },
    {
        match self.expect(TokenKind::Ident) {
            Ok(Token::Ident(s)) => Ok(s),
            Ok(_) => {
                proof {
                    assert(false);
                }
                Err(ParseError::Other(String::new()))
            },
            Err(e) => Err(e),
        }
    }

    /// Consumes an integer literal and returns its value.
    pub fn expect_lit(&mut self) -> (r: Result<u64, ParseError>)
        requires
            old(self).wf(),
        ensures
            Parser::step(&*old(self), &*final(self)),
            match tok_at(old(self).tokens(), old(self).pos()) {
                Tok::Lit(v) => r == Ok::<u64, ParseError>(v) && final(self).pos() == old(self).pos()
                    + 1,
                other => r is Err && r->Err_0.reports(mismatch(other)),
            },
    {
        match self.expect(TokenKind::Lit) {
            Ok(Token::Lit(v)) => Ok(v),
            Ok(_) => {
                proof {
                    assert(false);
                }
                Err(ParseError::Other(String::new()))
            },
            Err(e) => Err(e),
        }
    }

    /// A type.
    pub fn parse_type(&mut self) -> (r: Result<Type, ParseError>)
        requires
            old(self).wf(),
        ensures
            Parser::step(&*old(self), &*final(self)),
            match p_type(old(self).tokens(), old(self).pos()) {
                Ok((ty, j)) => r is Ok && r->Ok_0@ == ty && final(self).pos() == j,
                Err(f) => r is Err && r->Err_0.reports(f),
            },
        decreases old(self).remaining(), 1int,
    {
        let ghost t = self.tokens();
        let ghost i = self.pos();
        let tok = match self.expect_one_of(&[TokenKind::Prim, TokenKind::Ident, TokenKind::LBrace]) {
            Ok(tok) => tok,
            Err(e) => return Err(e),
        };
        match tok {
            Token::Prim(ty) => Ok(ty),
            Token::Ident(name) => {
                if str_eq(name.as_str(), "array") {
                    if let Err(e) = self.expect(TokenKind::Lt) {
                        return Err(e);
                    }
                    let inner = match self.parse_type() {
                        Ok(ty) => ty,
                        Err(e) => return Err(e),
                    };
                    if let Err(e) = self.expect(TokenKind::Gt) {
                        return Err(e);
                    }
                    Ok(Type::Array(Box::new(inner)))
                } else if str_eq(name.as_str(), "map") {
                    if let Err(e) = self.expect(TokenKind::Lt) {
                        return Err(e);
                    }
                    let key = match self.parse_type() {
                        Ok(ty) => ty,
                        Err(e) => return Err(e),
                    };
                    if let Err(e) = self.expect(TokenKind::Comma) {
                        return Err(e);
                    }
                    let value = match self.parse_type() {
                        Ok(ty) => ty,
                        Err(e) => return Err(e),
                    };
                    if let Err(e) = self.expect(TokenKind::Gt) {
                        return Err(e);
                    }
                    Ok(Type::Mapping(Box::new(key), Box::new(value)))
                } else {
                    Ok(Type::NamedType(name))
                }
            },
            Token::LBrace => self.parse_aggregate(),
            _ => {
                proof {
                    assert(false);
                }
                Err(ParseError::Other(String::new()))
            },
        }
    }

    /// The fields of an aggregate, after its opening brace, through its
    /// closing brace; a comma may follow each field.
    pub fn parse_aggregate(&mut self) -> (r: Result<Type, ParseError>)
        requires
            old(self).wf(),
        ensures
            Parser::step(&*old(self), &*final(self)),
            match p_fields(old(self).tokens(), old(self).pos(), Seq::empty()) {
                Ok((ty, j)) => r is Ok && r->Ok_0@ == ty && final(self).pos() == j,
                Err(f) => r is Err && r->Err_0.reports(f),
            },
        decreases old(self).remaining(), 0int,
    {
        let ghost t = self.tokens();
        let ghost i0 = self.pos();
        let mut fields: Vec<(String, Type)> = Vec::new();
        loop
            invariant
                Parser::step(&*old(self), &*self),
                t == old(self).tokens(),
                i0 == old(self).pos(),
                p_fields(t, self.pos(), fields_view(fields@)) == p_fields(t, i0, Seq::empty()),
            decreases self.remaining(),
        {
            let ghost i = self.pos();
            let tok = match self.expect_one_of(&[TokenKind::Ident, TokenKind::RBrace, TokenKind::Comma]) {
                Ok(tok) => tok,
                Err(e) => return Err(e),
            };
            match tok {
                Token::Ident(name) => {
                    if let Err(e) = self.expect(TokenKind::Colon) {
                        return Err(e);
                    }
                    let ty = match self.parse_type() {
                        Ok(ty) => ty,
                        Err(e) => return Err(e),
                    };
                    let ghost before = fields@;
                    fields.push((name, ty));
                    assert(fields@.drop_last() =~= before);
                    if self.lookahead() == TokenKind::Comma {
                        self.next();
                    }
                },
                Token::Comma => {},
                Token::RBrace => {
                    return Ok(Type::Aggregate(Object { fields }));
                },
                _ => {
                    proof {
                        assert(false);
                    }
                    return Err(ParseError::Other(String::new()));
                },
            }
        }
    }

    /// A config block: `config { name: value, ... }`.
    pub fn parse_config(&mut self) -> (r: Result<ProtoConfig, ParseError>)
        requires
            old(self).wf(),
        ensures
            Parser::step(&*old(self), &*final(self)),
            r is Ok ==> old(self).pos() < final(self).pos(),
            match p_config(old(self).tokens(), old(self).pos()) {
                Ok((c, j)) => r == Ok::<ProtoConfig, ParseError>(c) && final(self).pos() == j,
                Err(f) => r is Err && r->Err_0.reports(f),
            },
    {
        let ghost t = self.tokens();
        let ghost i0 = self.pos();
        let mut pc = ProtoConfig::default();
        if let Err(e) = self.expect(TokenKind::Config) {
            return Err(e);
        }
        if let Err(e) = self.expect(TokenKind::LBrace) {
            return Err(e);
        }
        loop
            invariant
                Parser::step(&*old(self), &*self),
                t == old(self).tokens(),
                i0 == old(self).pos(),
                i0 < self.pos(),
                p_config(t, i0) == p_config_fields(t, self.pos(), pc),
            decreases self.remaining(),
        {
            let name = match self.expect_ident() {
                Ok(n) => n,
                Err(e) => return Err(e),
            };
            if let Err(e) = self.expect(TokenKind::Colon) {
                return Err(e);
            }
            let val = match self.expect_lit() {
                Ok(v) => v,
                Err(e) => return Err(e),
            };
            if str_eq(name.as_str(), "message_id_bits") {
                pc.message_id_bits = val;
            } else if str_eq(name.as_str(), "category_bits") {
                pc.category_bits = val;
            } else if str_eq(name.as_str(), "method_bits") {
                pc.method_bits = val;
            } else if str_eq(name.as_str(), "array_length_bits") {
                pc.array_length_bits = val;
            } else {
                return Err(ParseError::Other(message("unrecognized config field", name.as_str())));
            }
            let k = self.lookahead();
            if k == TokenKind::Comma {
                self.next();
            } else if k == TokenKind::RBrace {
                self.next();
                return Ok(pc);
            }
        }
    }

    /// The rest of a newtype declaration, after the keyword: `name = type ;`.
    pub fn parse_newtype(&mut self) -> (r: Result<(String, Type), ParseError>)
        requires
            old(self).wf(),
        ensures
            Parser::step(&*old(self), &*final(self)),
            match p_newtype(old(self).tokens(), old(self).pos()) {
                Ok((name, ty, j)) => r is Ok && r->Ok_0.0@ == name && r->Ok_0.1@ == ty
                    && final(self).pos() == j,
                Err(f) => r is Err && r->Err_0.reports(f),
            },
    {
        let name = match self.expect_ident() {
            Ok(n) => n,
            Err(e) => return Err(e),
        };
        if let Err(e) = self.expect(TokenKind::Equals) {
            return Err(e);
        }
        let ty = match self.parse_type() {
            Ok(ty) => ty,
            Err(e) => return Err(e),
        };
        if let Err(e) = self.expect(TokenKind::Semi) {
            return Err(e);
        }
        Ok((name, ty))
    }

    /// The rest of a property, after its name: `= { type } ;`.
    pub fn parse_property(&mut self) -> (r: Result<Type, ParseError>)
        requires
            old(self).wf(),
        ensures
            Parser::step(&*old(self), &*final(self)),
            match p_property(old(self).tokens(), old(self).pos()) {
                Ok((ty, j)) => r is Ok && r->Ok_0@ == ty && final(self).pos() == j,
                Err(f) => r is Err && r->Err_0.reports(f),
            },
    {
        if let Err(e) = self.expect(TokenKind::Equals) {
            return Err(e);
        }
        if let Err(e) = self.expect(TokenKind::LBrace) {
            return Err(e);
        }
        let ty = match self.parse_type() {
            Ok(ty) => ty,
            Err(e) => return Err(e),
        };
        if let Err(e) = self.expect(TokenKind::RBrace) {
            return Err(e);
        }
        if let Err(e) = self.expect(TokenKind::Semi) {
            return Err(e);
        }
        Ok(ty)
    }

    /// The rest of a method, after its name:
    /// `= id { attr, ... } { doc comments, properties }`.
    pub fn parse_method(&mut self) -> (r: Result<Method, ParseError>)
        requires
            old(self).wf(),
        ensures
            Parser::step(&*old(self), &*final(self)),
            match p_method(old(self).tokens(), old(self).pos()) {
                Ok((m, j)) => r is Ok && r->Ok_0@ == m && final(self).pos() == j,
                Err(f) => r is Err && r->Err_0.reports(f),
            },
    {
        let ghost t = self.tokens();
        let ghost i0 = self.pos();
        if let Err(e) = self.expect(TokenKind::Equals) {
            return Err(e);
        }
        let id = match self.expect_lit() {
            Ok(v) => v,
            Err(e) => return Err(e),
        };
        if let Err(e) = self.expect(TokenKind::LBrace) {
            return Err(e);
        }
        let ghost a0 = self.pos();
        let mut attrs: Vec<String> = Vec::new();
        assert(strings_view(attrs@) =~= Seq::<Seq<char>>::empty());
        loop
            invariant_except_break
                p_attrs(t, a0, Seq::empty()) == p_attrs(t, self.pos(), strings_view(attrs@)),
            invariant
                Parser::step(&*old(self), &*self),
                t == old(self).tokens(),
                i0 == old(self).pos(),
                p_method(t, i0) == match p_attrs(t, a0, Seq::empty()) {
                    Ok((attrs, j)) => if !(tok_at(t, j) is LBrace) {
                        Err(mismatch(tok_at(t, j)))
                    } else {
                        match p_method_body(t, j + 1, Seq::empty(), Map::empty(), false) {
                            Ok((comment, props, k)) => Ok(
                                (
                                    crate::protocol::MethodM {
                                        comment,
                                        id,
                                        properties: props,
                                        attributes: attrs,
                                    },
                                    k,
                                ),
                            ),
                            Err(e) => Err(e),
                        }
                    },
                    Err(e) => Err(e),
                },
            ensures
                p_attrs(t, a0, Seq::empty()) == Ok::<(Seq<Seq<char>>, int), Failure>(
                    (strings_view(attrs@), self.pos()),
                ),
            decreases self.remaining(),
        {
            let tok = match self.expect_one_of(&[TokenKind::Ident, TokenKind::RBrace]) {
                Ok(tok) => tok,
                Err(e) => return Err(e),
            };
            match tok {
                Token::Ident(a) => {
                    let ghost before = attrs@;
                    attrs.push(a);
                    assert(strings_view(attrs@) =~= strings_view(before).push(attrs@.last()@));
                    if self.lookahead() == TokenKind::Comma {
                        self.next();
                    }
                },
                Token::RBrace => {
                    break ;
                },
                _ => {
                    proof {
                        assert(false);
                    }
                    return Err(ParseError::Other(String::new()));
                },
            }
        }
        if let Err(e) = self.expect(TokenKind::LBrace) {
            return Err(e);
        }
        let ghost b0 = self.pos();
        let mut comment = String::new();
        let mut props: NameMap<Type> = NameMap::new();
        let mut seen = false;
        loop
            invariant
                Parser::step(&*old(self), &*self),
                t == old(self).tokens(),
                i0 == old(self).pos(),
                p_method(t, i0) == match p_method_body(
                    t,
                    self.pos(),
                    comment@,
                    props@,
                    seen,
                ) {
                    Ok((c, ps, k)) => Ok(
                        (
                            crate::protocol::MethodM {
                                comment: c,
                                id,
                                properties: ps,
                                attributes: strings_view(attrs@),
                            },
                            k,
                        ),
                    ),
                    Err(e) => Err(e),
                },
            decreases self.remaining(),
        {
            let ghost i = self.pos();
            let tok = match self.expect_one_of(&[TokenKind::Comment, TokenKind::Ident, TokenKind::RBrace]) {
                Ok(tok) => tok,
                Err(e) => return Err(e),
            };
            match tok {
                Token::Comment(c) => {
                    if seen {
                        return Err(unexpected("property or `}`", TokenKind::Comment));
                    }
                    let ghost before = comment@;
                    let n = c.as_str().unicode_len();
                    if n > 0 {
                        comment.append(c.as_str().substring_char(1, n));
                    } else {
                        comment.append(c.as_str());
                    }
                    comment.append("\n");
                    proof {
                        reveal_strlit("\n");
                    }
                    assert(comment@ =~= before + doc_line(c@));
                },
                Token::Ident(name) => {
                    let ty = match self.parse_property() {
                        Ok(ty) => ty,
                        Err(e) => return Err(e),
                    };
                    props.insert(name, ty);
                    seen = true;
                },
                Token::RBrace => {
                    return Ok(Method { comment, id, properties: props, attributes: attrs });
                },
                _ => {
                    proof {
                        assert(false);
                    }
                    return Err(ParseError::Other(String::new()));
                },
            }
        }
    }

    /// A whole protocol file, from its first token: an optional config
    /// block (only where `config_allowed`), then declarations through the
    /// end of input. `active` marks the sources being parsed.
    pub fn parse_protocol(
        &mut self,
        srcs: &Vec<(String, String)>,
        active: &mut Vec<bool>,
        config_allowed: bool,
    ) -> (r: Result<Protocol, ParseError>)
        requires
            old(self).wf(),
            old(self).pos() == 0,
        ensures
            Parser::step(&*old(self), &*final(self)),
            final(active)@ == old(active)@,
            match p_protocol_file(sources_view(srcs@), old(active)@, old(self).tokens(), config_allowed) {
                Ok(p) => r is Ok && r->Ok_0@ == p,
                Err(f) => r is Err && r->Err_0.reports(f),
            },
        decreases free_count(old(active)@), old(self).remaining() + 2,
    {
        let ghost t = self.tokens();
        let ghost sv = sources_view(srcs@);
        let ghost act = active@;
        let mut proto = Protocol {
            config: ProtoConfig::default(),
            types: NameMap::new(),
            categories: NameMap::new(),
        };
        if self.lookahead() == TokenKind::Config {
            if !config_allowed {
                return Err(ParseError::Other(String::from_str("config section in an included file")));
            }
            match self.parse_config() {
                Ok(c) => {
                    proto.config = c;
                },
                Err(e) => return Err(e),
            }
        }
        assert(proto@ == empty_protocol(proto.config)) by {
            assert(proto@.types =~= Map::<Seq<char>, Ty>::empty());
        }
        loop
            invariant
                Parser::step(&*old(self), &*self),
                t == old(self).tokens(),
                sv == sources_view(srcs@),
                act == old(active)@,
                active@ == act,
                p_protocol_file(sv, act, t, config_allowed) == p_protocol(
                    sv,
                    act,
                    t,
                    self.pos(),
                    proto@,
                ),
            decreases self.remaining(),
        {
            let tok = match self.expect_one_of(
                &[TokenKind::Newtype, TokenKind::Category, TokenKind::Include, TokenKind::Eof],
            ) {
                Ok(tok) => tok,
                Err(e) => return Err(e),
            };
            match tok {
                Token::Newtype => {
                    let (name, ty) = match self.parse_newtype() {
                        Ok(d) => d,
                        Err(e) => return Err(e),
                    };
                    proto.types.insert(name, ty);
                },
                Token::Category => {
                    let (name, cat) = match self.parse_category(srcs, active) {
                        Ok(d) => d,
                        Err(e) => return Err(e),
                    };
                    proto.categories.insert(name, cat);
                },
                Token::Include => {
                    let path = match self.expect_string() {
                        Ok(p) => p,
                        Err(e) => return Err(e),
                    };
                    let sub = match open_protocol(srcs, active, path, false) {
                        Ok(p) => p,
                        Err(e) => return Err(e),
                    };
                    proto.types.extend(sub.types);
                    proto.categories.extend(sub.categories);
                    if let Err(e) = self.expect(TokenKind::Semi) {
                        return Err(e);
                    }
                },
                Token::Eof => {
                    return Ok(proto);
                },
                _ => {
                    proof {
                        assert(false);
                    }
                    return Err(ParseError::Other(String::new()));
                },
            }
        }
    }

    /// The rest of a category, after the keyword: `name = id { body }`.
    pub fn parse_category(&mut self, srcs: &Vec<(String, String)>, active: &mut Vec<bool>) -> (r:
        Result<(String, Category), ParseError>)
        requires
            old(self).wf(),
        ensures
            Parser::step(&*old(self), &*final(self)),
            final(active)@ == old(active)@,
            match p_category(sources_view(srcs@), old(active)@, old(self).tokens(), old(self).pos()) {
                Ok((name, c, j)) => r is Ok && r->Ok_0.0@ == name && r->Ok_0.1@ == c
                    && final(self).pos() == j,
                Err(f) => r is Err && r->Err_0.reports(f),
            },
        decreases free_count(old(active)@), old(self).remaining() + 1,
    {
        let name = match self.expect_ident() {
            Ok(n) => n,
            Err(e) => return Err(e),
        };
        if let Err(e) = self.expect(TokenKind::Equals) {
            return Err(e);
        }
        let id = match self.expect_lit() {
            Ok(v) => v,
            Err(e) => return Err(e),
        };
        if let Err(e) = self.expect(TokenKind::LBrace) {
            return Err(e);
        }
        let mut cat = Category { id, methods: NameMap::new() };
        if let Err(e) = self.parse_category_body(srcs, active, &mut cat, false) {
            return Err(e);
        }
        Ok((name, cat))
    }

    /// The body of a category: methods and `include`s. In a file that a
    /// category body includes (`nested`) it runs to the end of input, else
    /// through the closing brace.
    pub fn parse_category_body(
        &mut self,
        srcs: &Vec<(String, String)>,
        active: &mut Vec<bool>,
        cat: &mut Category,
        nested: bool,
    ) -> (r: Result<(), ParseError>)
        requires
            old(self).wf(),
        ensures
            Parser::step(&*old(self), &*final(self)),
            final(active)@ == old(active)@,
            final(cat).id == old(cat).id,
            match p_cat_body(
                sources_view(srcs@),
                old(active)@,
                old(self).tokens(),
                old(self).pos(),
                old(cat).methods@,
                nested,
            ) {
                Ok((ms, j)) => r is Ok && final(cat).methods@ == ms && final(self).pos() == j,
                Err(f) => r is Err && r->Err_0.reports(f),
            },
        decreases free_count(old(active)@), old(self).remaining() + 1,
    {
        let ghost t = self.tokens();
        let ghost sv = sources_view(srcs@);
        let ghost act = active@;
        let ghost whole = p_cat_body(sv, act, t, self.pos(), cat.methods@, nested);
        loop
            invariant
                Parser::step(&*old(self), &*self),
                t == old(self).tokens(),
                sv == sources_view(srcs@),
                act == old(active)@,
                active@ == act,
                cat.id == old(cat).id,
                whole == p_cat_body(sv, act, t, old(self).pos(), old(cat).methods@, nested),
                whole == p_cat_body(sv, act, t, self.pos(), cat.methods@, nested),
            decreases self.remaining(),
        {
            let k = self.lookahead();
            if k == TokenKind::RBrace {
                if nested {
                    return Err(unexpected("`method`, `include` or end of input", k));
                }
                self.next();
                return Ok(());
            } else if k == TokenKind::Eof {
                if nested {
                    return Ok(());
                }
                return Err(unexpected("`}`", k));
            } else if k == TokenKind::Include {
                self.next();
                let path = match self.expect_string() {
                    Ok(p) => p,
                    Err(e) => return Err(e),
                };
                if let Err(e) = open_category_body(srcs, active, path, cat) {
                    return Err(e);
                }
                if let Err(e) = self.expect(TokenKind::Semi) {
                    return Err(e);
                }
            } else if k == TokenKind::Method {
                self.next();
                let name = match self.expect_ident() {
                    Ok(n) => n,
                    Err(e) => return Err(e),
                };
                let m = match self.parse_method() {
                    Ok(m) => m,
                    Err(e) => return Err(e),
                };
                cat.methods.insert(name, m);
            } else {
                return Err(unexpected("`method`, `include` or `}`", k));
            }
        }
    }
}

/// Finds the source named `path` and lexes it: its index and its tokens.
fn open_source(srcs: &Vec<(String, String)>, active: &Vec<bool>, path: &str) -> (r: Result<
    (usize, Vec<Token>),
    ParseError,
>)
    ensures
        match p_open(sources_view(srcs@), active@, path@) {
            Ok((k, t)) => r is Ok && r->Ok_0.0 == k && toks_view(r->Ok_0.1@) == t,
            Err(f) => r is Err && r->Err_0.reports(f),
        },
{
    let ghost sv = sources_view(srcs@);
    let mut i: usize = 0;
    let mut found = false;
    while !found && i < srcs.len()
        invariant
            sv == sources_view(srcs@),
            sv.len() == srcs@.len(),
            i <= srcs@.len(),
            found ==> i < srcs@.len() && find_source(sv, path@) == i,
            !found ==> find_source_from(sv, path@, i as int) == find_source(sv, path@),
        decreases srcs@.len() - i, if found { 0int } else { 1int },
    {
        if str_eq(srcs[i].0.as_str(), path) {
            assert(sv[i as int].0 == path@);
            found = true;
        } else {
            i = i + 1;
        }
    }
    if !found || i >= active.len() {
        return Err(ParseError::MissingFile(String::from_str(path)));
    }
    if active[i] {
        return Err(ParseError::Other(message("file includes itself", path)));
    }
    match lex(srcs[i].1.as_str()) {
        Ok(toks) => Ok((i, toks)),
        Err(f) => Err(lex_error(f)),
    }
}

/// Reads the source named `path` as more of the body of `cat`.
fn open_category_body(
    srcs: &Vec<(String, String)>,
    active: &mut Vec<bool>,
    path: String,
    cat: &mut Category,
) -> (r: Result<(), ParseError>)
    ensures
        final(active)@ == old(active)@,
        final(cat).id == old(cat).id,
        match p_open_body(sources_view(srcs@), old(active)@, path@, old(cat).methods@) {
            Ok(ms) => r is Ok && final(cat).methods@ == ms,
            Err(f) => r is Err && r->Err_0.reports(f),
        },
    decreases free_count(old(active)@), 0int,
{
    let (k, toks) = match open_source(srcs, active, path.as_str()) {
        Ok(o) => o,
        Err(e) => return Err(e),
    };
    proof {
        lemma_free_count_update(active@, k as int);
    }
    active.set(k, true);
    let mut p = Parser::new(toks);
    let r = p.parse_category_body(srcs, active, cat, true);
    active.set(k, false);
    assert(active@ =~= old(active)@);
    r
}

/// Parses the source named `path` as a protocol; `top` tells whether it is
/// the file that the parse starts from.
fn open_protocol(srcs: &Vec<(String, String)>, active: &mut Vec<bool>, path: String, top: bool) -> (r:
    Result<Protocol, ParseError>)
    ensures
        final(active)@ == old(active)@,
        match p_open_protocol(sources_view(srcs@), old(active)@, path@, top) {
            Ok(p) => r is Ok && r->Ok_0@ == p,
            Err(f) => r is Err && r->Err_0.reports(f),
        },
    decreases free_count(old(active)@), 0int,
{
    let (k, toks) = match open_source(srcs, active, path.as_str()) {
        Ok(o) => o,
        Err(e) => return Err(e),
    };
    proof {
        lemma_free_count_update(active@, k as int);
    }
    active.set(k, true);
    let mut p = Parser::new(toks);
    let r = p.parse_protocol(srcs, active, top);
    active.set(k, false);
    assert(active@ =~= old(active)@);
    r
}

/// Parses the protocol in the source named `file`. `sources` holds each
/// file that the parse may read, by name; `include` directives name files
/// among them. Where a file is not among them the parse fails with
/// `MissingFile`, naming it.
pub fn parse(file: String, sources: &Vec<(String, String)>) -> (r: Result<Protocol, ParseError>)
    ensures
        match parse_spec(sources_view(sources@), file@) {
            Ok(p) => r is Ok && r->Ok_0@ == p,
            Err(f) => r is Err && r->Err_0.reports(f),
        },
{
    let mut active: Vec<bool> = Vec::new();
    let mut i: usize = 0;
    while i < sources.len()
        invariant
            i <= sources@.len(),
            active@ == Seq::new(i as nat, |m: int| false),
        decreases sources@.len() - i,
    {
        active.push(false);
        assert(active@ =~= Seq::new((i + 1) as nat, |m: int| false));
        i = i + 1;
    }
    open_protocol(sources, &mut active, file, true)
}

} // verus!
