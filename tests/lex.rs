use protogen::{lex, LexFault, Lexer, Token, TokenKind, Type};

#[test]
fn punctuation_and_keywords() {
    let toks = lex("newtype category include method config ; { } < > , = :").unwrap();
    let kinds: Vec<TokenKind> = toks.iter().map(|t| t.kind()).collect();
    assert_eq!(
        kinds,
        vec![
            TokenKind::Newtype,
            TokenKind::Category,
            TokenKind::Include,
            TokenKind::Method,
            TokenKind::Config,
            TokenKind::Semi,
            TokenKind::LBrace,
            TokenKind::RBrace,
            TokenKind::Lt,
            TokenKind::Gt,
            TokenKind::Comma,
            TokenKind::Equals,
            TokenKind::Colon,
            TokenKind::Eof,
        ]
    );
}

#[test]
fn words_are_classified() {
    let toks = lex("i8 u8 i16 u16 i32 u32 f32 i64 u64 f64 array _x9").unwrap();
    assert_eq!(
        toks,
        vec![
            Token::Prim(Type::I8),
            Token::Prim(Type::U8),
            Token::Prim(Type::I16),
            Token::Prim(Type::U16),
            Token::Prim(Type::I32),
            Token::Prim(Type::U32),
            Token::Prim(Type::F32),
            Token::Prim(Type::I64),
            Token::Prim(Type::U64),
            Token::Prim(Type::F64),
            Token::Ident("array".to_string()),
            Token::Ident("_x9".to_string()),
            Token::Eof,
        ]
    );
}

#[test]
fn comments_strings_and_literals() {
    let toks = lex("# a comment ; {\n\"some path\" 42 'doc line\r\nx").unwrap();
    assert_eq!(
        toks,
        vec![
            Token::Str("some path".to_string()),
            Token::Lit(42),
            Token::Comment("'doc line".to_string()),
            Token::Ident("x".to_string()),
            Token::Eof,
        ]
    );
}

#[test]
fn empty_text_is_one_eof() {
    assert_eq!(lex("").unwrap(), vec![Token::Eof]);
    assert_eq!(lex(" \t\n\r\n").unwrap(), vec![Token::Eof]);
}

#[test]
fn bare_carriage_return_fails() {
    assert_eq!(lex("a\rb"), Err(LexFault::BadLineEnding));
    assert_eq!(lex("'doc\rx"), Err(LexFault::BadLineEnding));
}

#[test]
fn unexpected_character_fails() {
    assert_eq!(lex("a $ b"), Err(LexFault::UnexpectedChar('$')));
}

#[test]
fn literal_values() {
    assert_eq!(lex("18446744073709551615").unwrap(), vec![Token::Lit(u64::MAX), Token::Eof]);
    assert_eq!(lex("18446744073709551616"), Err(LexFault::LiteralOverflow));
    assert_eq!(lex("0").unwrap(), vec![Token::Lit(0), Token::Eof]);
}

#[test]
fn lexer_stops_after_eof() {
    let mut l = Lexer::new("x");
    assert_eq!(l.next(), Some(Ok(Token::Ident("x".to_string()))));
    assert_eq!(l.next(), Some(Ok(Token::Eof)));
    assert_eq!(l.next(), None);
}
