//! The lexer: turns protocol source text into a sequence of tokens that ends
//! with exactly one end-of-stream token.
use vstd::prelude::*;
use crate::types::{Type, Ty};
use crate::token::{Token, TokenKind, Tok, toks_view};

verus! {

/// Why lexing stopped.
#[derive(Clone, Copy, Debug, PartialEq, Eq, Structural)]
pub enum LexFault {
    /// A carriage return that is not followed by a line feed.
    BadLineEnding,
    /// A numeric literal whose value does not fit in 64 bits.
    LiteralOverflow,
    /// A character that starts no token.
    UnexpectedChar(char),
}

pub open spec fn is_digit(c: char) -> bool {
    '0' <= c && c <= '9'
}

pub open spec fn is_word_start(c: char) -> bool {
    ('a' <= c && c <= 'z') || ('A' <= c && c <= 'Z') || c == '_'
}

/// Whether a character is alphanumeric in the sense of Unicode.
pub uninterp spec fn alphanumeric(c: char) -> bool;

/// Relies on `char::is_alphanumeric`: whether `c` is alphabetic or numeric
/// in Unicode's sense depends on `c` alone.
#[verifier::external_body]
fn is_alphanumeric(c: char) -> (r: bool)
    ensures
        r == alphanumeric(c),
{
    c.is_alphanumeric()
}

pub open spec fn is_word_char(c: char) -> bool {
    alphanumeric(c) || c == '_'
}

/// The first index at or after `i` that holds `stop`, or the length of `s`.
pub open spec fn find_char(s: Seq<char>, i: int, stop: char) -> int
    decreases s.len() - i,
{
    if i >= s.len() {
        s.len() as int
    } else if s[i] == stop {
        i
    } else {
        find_char(s, i + 1, stop)
    }
}

/// The first index at or after `i` that ends a line, or the length of `s`.
pub open spec fn line_end(s: Seq<char>, i: int) -> int
    decreases s.len() - i,
{
    if i >= s.len() {
        s.len() as int
    } else if s[i] == '\n' || s[i] == '\r' {
        i
    } else {
        line_end(s, i + 1)
    }
}

/// The end of the run of decimal digits that starts at `i`.
pub open spec fn digits_end(s: Seq<char>, i: int) -> int
    decreases s.len() - i,
{
    if i >= s.len() || !is_digit(s[i]) {
        if i >= s.len() { s.len() as int } else { i }
    } else {
        digits_end(s, i + 1)
    }
}

/// The end of the run of word characters that starts at `i`.
pub open spec fn word_end(s: Seq<char>, i: int) -> int
    decreases s.len() - i,
{
    if i >= s.len() || !is_word_char(s[i]) {
        if i >= s.len() { s.len() as int } else { i }
    } else {
        word_end(s, i + 1)
    }
}

pub open spec fn digit_value(c: char) -> nat {
    (c as int - '0' as int) as nat
}

/// The value of a string of decimal digits.
pub open spec fn decimal(d: Seq<char>) -> nat
    decreases d.len(),
{
    if d.len() == 0 {
        0
    } else {
        decimal(d.drop_last()) * 10 + digit_value(d.last())
    }
}

/// The primitive type a word names, if it names one.
pub open spec fn prim_of(w: Seq<char>) -> Option<Ty> {
    if w == "i8"@ {
        Some(Ty::I8)
    } else if w == "u8"@ {
        Some(Ty::U8)
    } else if w == "i16"@ {
        Some(Ty::I16)
    } else if w == "u16"@ {
        Some(Ty::U16)
    } else if w == "i32"@ {
        Some(Ty::I32)
    } else if w == "u32"@ {
        Some(Ty::U32)
    } else if w == "f32"@ {
        Some(Ty::F32)
    } else if w == "i64"@ {
        Some(Ty::I64)
    } else if w == "u64"@ {
        Some(Ty::U64)
    } else if w == "f64"@ {
        Some(Ty::F64)
    } else {
        None
    }
}

/// The token a word stands for: a keyword, then a primitive type name, else an identifier.
pub open spec fn classify(w: Seq<char>) -> Tok {
    if w == "newtype"@ {
        Tok::Newtype
    } else if w == "category"@ {
        Tok::Category
    } else if w == "include"@ {
        Tok::Include
    } else if w == "method"@ {
        Tok::Method
    } else if w == "config"@ {
        Tok::Config
    } else {
        match prim_of(w) {
            Some(t) => Tok::Prim(t),
            None => Tok::Ident(w),
        }
    }
}

/// The token a punctuation character stands for.
pub open spec fn punct(c: char) -> Option<Tok> {
    if c == ';' {
        Some(Tok::Semi)
    } else if c == ':' {
        Some(Tok::Colon)
    } else if c == '{' {
        Some(Tok::LBrace)
    } else if c == '}' {
        Some(Tok::RBrace)
    } else if c == '<' {
        Some(Tok::Lt)
    } else if c == '>' {
        Some(Tok::Gt)
    } else if c == ',' {
        Some(Tok::Comma)
    } else if c == '=' {
        Some(Tok::Equals)
    } else {
        None
    }
}

/// What the lexer does with the character at `i`.
pub enum Scan {
    /// Emit a token and go on at the given index.
    Emit(Tok, int),
    /// Discard text and go on at the given index.
    Skip(int),
    Fail(LexFault),
}

/// One step of the lexer at index `i` (with `0 <= i < s.len()`).
pub open spec fn scan(s: Seq<char>, i: int) -> Scan {
    let c = s[i];
    if c == '#' {
        let j = find_char(s, i + 1, '\n');
        Scan::Skip(if j < s.len() { j + 1 } else { j })
    } else if c == '"' {
        let j = find_char(s, i + 1, '"');
        Scan::Emit(Tok::Str(s.subrange(i + 1, j)), if j < s.len() { j + 1 } else { j })
    } else if c == '\r' {
        if i + 1 < s.len() && s[i + 1] == '\n' {
            Scan::Skip(i + 2)
        } else {
            Scan::Fail(LexFault::BadLineEnding)
        }
    } else if c == '\'' {
        let j = line_end(s, i + 1);
        let t = Tok::Comment(s.subrange(i, j));
        if j >= s.len() {
            Scan::Emit(t, j)
        } else if s[j] == '\n' {
            Scan::Emit(t, j + 1)
        } else if j + 1 < s.len() && s[j + 1] == '\n' {
            Scan::Emit(t, j + 2)
        } else {
            Scan::Fail(LexFault::BadLineEnding)
        }
    } else if is_digit(c) {
        let j = digits_end(s, i + 1);
        let v = decimal(s.subrange(i, j));
        if v <= u64::MAX {
            Scan::Emit(Tok::Lit(v as u64), j)
        } else {
            Scan::Fail(LexFault::LiteralOverflow)
        }
    } else if is_word_start(c) {
        let j = word_end(s, i + 1);
        Scan::Emit(classify(s.subrange(i, j)), j)
    } else if c == ' ' || c == '\t' || c == '\n' {
        Scan::Skip(i + 1)
    } else {
        match punct(c) {
            Some(t) => Scan::Emit(t, i + 1),
            None => Scan::Fail(LexFault::UnexpectedChar(c)),
        }
    }
}

pub proof fn lemma_find_char(s: Seq<char>, i: int, stop: char)
    requires
        0 <= i <= s.len(),
    ensures
        i <= find_char(s, i, stop) <= s.len(),
        find_char(s, i, stop) < s.len() ==> s[find_char(s, i, stop)] == stop,
    decreases s.len() - i,
{
    if i < s.len() && s[i] != stop {
        lemma_find_char(s, i + 1, stop);
    }
}

pub proof fn lemma_line_end(s: Seq<char>, i: int)
    requires
        0 <= i <= s.len(),
    ensures
        i <= line_end(s, i) <= s.len(),
        line_end(s, i) < s.len() ==> (s[line_end(s, i)] == '\n' || s[line_end(s, i)] == '\r'),
    decreases s.len() - i,
{
    if i < s.len() && !(s[i] == '\n' || s[i] == '\r') {
        lemma_line_end(s, i + 1);
    }
}

pub proof fn lemma_digits_end(s: Seq<char>, i: int)
    requires
        0 <= i <= s.len(),
    ensures
        i <= digits_end(s, i) <= s.len(),
        forall|k: int| i <= k < digits_end(s, i) ==> is_digit(#[trigger] s[k]),
    decreases s.len() - i,
{
    if i < s.len() && is_digit(s[i]) {
        lemma_digits_end(s, i + 1);
    }
}

pub proof fn lemma_word_end(s: Seq<char>, i: int)
    requires
        0 <= i <= s.len(),
    ensures
        i <= word_end(s, i) <= s.len(),
    decreases s.len() - i,
{
    if i < s.len() && is_word_char(s[i]) {
        lemma_word_end(s, i + 1);
    }
}

/// A step never emits the end-of-stream token and always moves forward.
pub proof fn lemma_scan_advances(s: Seq<char>, i: int)
    requires
        0 <= i < s.len(),
    ensures
        match scan(s, i) {
            Scan::Emit(t, j) => i < j <= s.len() && !(t is Eof),
            Scan::Skip(j) => i < j <= s.len(),
            Scan::Fail(_) => true,
        },
{
    lemma_find_char(s, i + 1, '\n');
    lemma_find_char(s, i + 1, '"');
    lemma_line_end(s, i + 1);
    lemma_digits_end(s, i + 1);
    lemma_word_end(s, i + 1);
}

/// The next token at or after `i`, with the index after it; at the end of
/// the text, the end-of-stream token.
pub open spec fn lex_step(s: Seq<char>, i: int) -> Result<(Tok, int), LexFault>
    decreases s.len() - i,
    via lex_step_decreases
{
    if i < 0 || i >= s.len() {
        Ok((Tok::Eof, s.len() as int))
    } else {
        match scan(s, i) {
            Scan::Skip(j) => lex_step(s, j),
            Scan::Emit(t, j) => Ok((t, j)),
            Scan::Fail(f) => Err(f),
        }
    }
}

#[via_fn]
proof fn lex_step_decreases(s: Seq<char>, i: int) {
    if 0 <= i < s.len() {
        lemma_scan_advances(s, i);
    }
}

/// Where `lex_step` leaves off: past the token it emits, or at the end for
/// the end-of-stream token.
pub proof fn lemma_lex_step(s: Seq<char>, i: int)
    requires
        0 <= i,
    ensures
        match lex_step(s, i) {
            Ok((t, j)) => (t is Eof ==> j == s.len()) && (!(t is Eof) ==> i < j <= s.len()),
            Err(_) => true,
        },
    decreases s.len() - i,
{
    if i < s.len() {
        lemma_scan_advances(s, i);
        if let Scan::Skip(j) = scan(s, i) {
            lemma_lex_step(s, j);
        }
    }
}

/// `r` with `p` in front of the tokens, if it holds tokens.
pub open spec fn prepend(p: Seq<Tok>, r: Result<Seq<Tok>, LexFault>) -> Result<Seq<Tok>, LexFault> {
    match r {
        Ok(ts) => Ok(p + ts),
        Err(f) => Err(f),
    }
}

/// The tokens of `s` from index `i` on, through the end-of-stream token.
pub open spec fn lex_from(s: Seq<char>, i: int) -> Result<Seq<Tok>, LexFault>
    decreases s.len() - i,
    via lex_from_decreases
{
    match lex_step(s, i) {
        Err(f) => Err(f),
        Ok((t, j)) => if t is Eof {
            Ok(seq![Tok::Eof])
        } else {
            prepend(seq![t], lex_from(s, j))
        },
    }
}

#[via_fn]
proof fn lex_from_decreases(s: Seq<char>, i: int) {
    if 0 <= i {
        lemma_lex_step(s, i);
    } else {
        assert(lex_step(s, i) == Ok::<(Tok, int), LexFault>((Tok::Eof, s.len() as int)));
    }
}

/// The tokens of a whole source text.
pub open spec fn lex_spec(s: Seq<char>) -> Result<Seq<Tok>, LexFault> {
    lex_from(s, 0)
}

/// Whether two strings hold the same characters.
pub fn str_eq(a: &str, b: &str) -> (r: bool)
    ensures
        r == (a@ == b@),
{
    let n = a.unicode_len();
    if n != b.unicode_len() {
        return false;
    }
    let mut i: usize = 0;
    while i < n
        invariant
            n == a@.len(),
            n == b@.len(),
            i <= n,
            forall|k: int| 0 <= k < i ==> a@[k] == b@[k],
        decreases n - i,
    {
        if a.get_char(i) != b.get_char(i) {
            return false;
        }
        i = i + 1;
    }
    assert(a@ =~= b@);
    true
}

/// The primitive type that a word names, if any.
pub fn try_lex_prim(s: &str) -> (r: Option<Type>)
    ensures
        match prim_of(s@) {
            Some(t) => r is Some && r->Some_0@ == t,
            None => r is None,
        },
{
    if str_eq(s, "i8") {
        Some(Type::I8)
    } else if str_eq(s, "u8") {
        Some(Type::U8)
    } else if str_eq(s, "i16") {
        Some(Type::I16)
    } else if str_eq(s, "u16") {
        Some(Type::U16)
    } else if str_eq(s, "i32") {
        Some(Type::I32)
    } else if str_eq(s, "u32") {
        Some(Type::U32)
    } else if str_eq(s, "f32") {
        Some(Type::F32)
    } else if str_eq(s, "i64") {
        Some(Type::I64)
    } else if str_eq(s, "u64") {
        Some(Type::U64)
    } else if str_eq(s, "f64") {
        Some(Type::F64)
    } else {
        None
    }
}

/// The token that a scanned word stands for.
fn classify_word(w: String) -> (t: Token)
    ensures
        t@ == classify(w@),
{
    if str_eq(w.as_str(), "newtype") {
        Token::Newtype
    } else if str_eq(w.as_str(), "category") {
        Token::Category
    } else if str_eq(w.as_str(), "include") {
        Token::Include
    } else if str_eq(w.as_str(), "method") {
        Token::Method
    } else if str_eq(w.as_str(), "config") {
        Token::Config
    } else {
        match try_lex_prim(w.as_str()) {
            Some(t) => Token::Prim(t),
            None => Token::Ident(w),
        }
    }
}

/// The token that a punctuation character stands for.
fn punct_token(c: char) -> (r: Option<Token>)
    ensures
        match punct(c) {
            Some(t) => r is Some && r->Some_0@ == t,
            None => r is None,
        },
{
    match c {
        ';' => Some(Token::Semi),
        ':' => Some(Token::Colon),
        '{' => Some(Token::LBrace),
        '}' => Some(Token::RBrace),
        '<' => Some(Token::Lt),
        '>' => Some(Token::Gt),
        ',' => Some(Token::Comma),
        '=' => Some(Token::Equals),
        _ => None,
    }
}

fn find_char_from(text: &str, n: usize, i: usize, stop: char) -> (j: usize)
    requires
        n == text@.len(),
        i <= n,
    ensures
        j == find_char(text@, i as int, stop),
{
    let mut k = i;
    while k < n
        invariant
            n == text@.len(),
            i <= k <= n,
            find_char(text@, k as int, stop) == find_char(text@, i as int, stop),
        decreases n - k,
    {
        if text.get_char(k) == stop {
            return k;
        }
        k = k + 1;
    }
    k
}

fn line_end_from(text: &str, n: usize, i: usize) -> (j: usize)
    requires
        n == text@.len(),
        i <= n,
    ensures
        j == line_end(text@, i as int),
{
    let mut k = i;
    while k < n
        invariant
            n == text@.len(),
            i <= k <= n,
            line_end(text@, k as int) == line_end(text@, i as int),
        decreases n - k,
    {
        let c = text.get_char(k);
        if c == '\n' || c == '\r' {
            return k;
        }
        k = k + 1;
    }
    k
}

fn digits_end_from(text: &str, n: usize, i: usize) -> (j: usize)
    requires
        n == text@.len(),
        i <= n,
    ensures
        j == digits_end(text@, i as int),
{
    let mut k = i;
    while k < n
        invariant
            n == text@.len(),
            i <= k <= n,
            digits_end(text@, k as int) == digits_end(text@, i as int),
        decreases n - k,
    {
        let c = text.get_char(k);
        if !('0' <= c && c <= '9') {
            return k;
        }
        k = k + 1;
    }
    k
}

fn word_end_from(text: &str, n: usize, i: usize) -> (j: usize)
    requires
        n == text@.len(),
        i <= n,
    ensures
        j == word_end(text@, i as int),
{
    let mut k = i;
    while k < n
        invariant
            n == text@.len(),
            i <= k <= n,
            word_end(text@, k as int) == word_end(text@, i as int),
        decreases n - k,
    {
        let c = text.get_char(k);
        if !(is_alphanumeric(c) || c == '_') {
            return k;
        }
        k = k + 1;
    }
    k
}

/// The value of the digits `text[i..j]`, or `None` where it exceeds 64 bits.
fn decimal_value(text: &str, n: usize, i: usize, j: usize) -> (r: Option<u64>)
    requires
        n == text@.len(),
        i <= j <= n,
        forall|k: int| i <= k < j ==> is_digit(#[trigger] text@[k]),
    ensures
        decimal(text@.subrange(i as int, j as int)) <= u64::MAX ==> r == Some(
            decimal(text@.subrange(i as int, j as int)) as u64,
        ),
        decimal(text@.subrange(i as int, j as int)) > u64::MAX ==> r is None,
{
    let ghost s = text@;
    let mut acc: u64 = 0;
    let mut over = false;
    let mut k = i;
    assert(s.subrange(i as int, i as int) =~= Seq::<char>::empty());
    while k < j
        invariant
            n == s.len(),
            s == text@,
            i <= k <= j <= n,
            forall|m: int| i <= m < j ==> is_digit(#[trigger] s[m]),
            over == (decimal(s.subrange(i as int, k as int)) > u64::MAX),
            !over ==> acc == decimal(s.subrange(i as int, k as int)),
        decreases j - k,
    {
        let c = text.get_char(k);
        let d = (c as u32 - '0' as u32) as u64;
        let ghost prev = decimal(s.subrange(i as int, k as int));
        assert(s.subrange(i as int, k + 1 as int).drop_last() =~= s.subrange(i as int, k as int));
        assert(decimal(s.subrange(i as int, k + 1 as int)) == prev * 10 + d);
        if !over {
            match acc.checked_mul(10) {
                Some(m) => match m.checked_add(d) {
                    Some(v) => {
                        acc = v;
                    },
                    None => {
                        over = true;
                    },
                },
                None => {
                    over = true;
                },
            }
        } else {
            assert(prev * 10 >= prev) by (nonlinear_arith);
        }
        k = k + 1;
    }
    if over {
        None
    } else {
        Some(acc)
    }
}

/// A lexer over one source text; it hands out one token at a time.
pub struct Lexer<'a> {
    text: &'a str,
    len: usize,
    pos: usize,
    done: bool,
}

impl<'a> Lexer<'a> {
    /// The text being lexed.
    pub closed spec fn source(&self) -> Seq<char> {
        self.text@
    }

    /// The index of the next character to read.
    pub closed spec fn position(&self) -> int {
        self.pos as int
    }

    /// Whether the end-of-stream token, or a fault, has been handed out.
    pub closed spec fn finished(&self) -> bool {
        self.done
    }

    pub closed spec fn wf(&self) -> bool {
        self.len == self.text@.len() && self.pos <= self.len
    }

    pub fn new(text: &'a str) -> (r: Lexer<'a>)
        ensures
            r.wf(),
            r.source() == text@,
            r.position() == 0,
            !r.finished(),
    {
        Lexer { text, len: text.unicode_len(), pos: 0, done: false }
    }

    /// The next token, or the fault that stops lexing; `None` once the
    /// end-of-stream token or a fault has been handed out.
    pub fn next(&mut self) -> (r: Option<Result<Token, LexFault>>)
        requires
            old(self).wf(),
        ensures
            final(self).wf(),
            final(self).source() == old(self).source(),
            old(self).finished() ==> r is None && final(self).finished(),
            !old(self).finished() ==> match lex_step(old(self).source(), old(self).position()) {
                Ok((t, j)) => r is Some && r->Some_0 is Ok && r->Some_0->Ok_0@ == t
                    && final(self).position() == j && final(self).finished() == (t is Eof),
                Err(f) => r == Some(Err::<Token, LexFault>(f)) && final(self).finished(),
            },
    {
        if self.done {
            return None;
        }
        let ghost s = self.text@;
        let ghost start = self.pos as int;
        let n = self.len;
        loop
            invariant
                self.wf(),
                s == self.text@,
                s == old(self).text@,
                !old(self).done,
                start == old(self).pos,
                n == self.len,
                !self.done,
                0 <= start,
                lex_step(s, self.pos as int) == lex_step(s, start),
            decreases n - self.pos,
        {
            if self.pos >= n {
                self.done = true;
                return Some(Ok(Token::Eof));
            }
            let i = self.pos;
            proof {
                lemma_scan_advances(s, i as int);
                lemma_find_char(s, i + 1, '\n');
                lemma_find_char(s, i + 1, '"');
                lemma_line_end(s, i + 1);
                lemma_digits_end(s, i + 1);
                lemma_word_end(s, i + 1);
            }
            let c = self.text.get_char(i);
            if c == '#' {
                let j = find_char_from(self.text, n, i + 1, '\n');
                self.pos = if j < n { j + 1 } else { j };
            } else if c == '"' {
                let j = find_char_from(self.text, n, i + 1, '"');
                let body = String::from_str(self.text.substring_char(i + 1, j));
                self.pos = if j < n { j + 1 } else { j };
                return Some(Ok(Token::Str(body)));
            } else if c == '\r' {
                if i + 1 < n && self.text.get_char(i + 1) == '\n' {
                    self.pos = i + 2;
                } else {
                    self.done = true;
                    return Some(Err(LexFault::BadLineEnding));
                }
            } else if c == '\'' {
                let j = line_end_from(self.text, n, i + 1);
                let body = String::from_str(self.text.substring_char(i, j));
                if j >= n {
                    self.pos = j;
                } else if self.text.get_char(j) == '\n' {
                    self.pos = j + 1;
                } else if j + 1 < n && self.text.get_char(j + 1) == '\n' {
                    self.pos = j + 2;
                } else {
                    self.done = true;
                    return Some(Err(LexFault::BadLineEnding));
                }
                return Some(Ok(Token::Comment(body)));
            } else if '0' <= c && c <= '9' {
                let j = digits_end_from(self.text, n, i + 1);
                match decimal_value(self.text, n, i, j) {
                    Some(v) => {
                        self.pos = j;
                        return Some(Ok(Token::Lit(v)));
                    },
                    None => {
                        self.done = true;
                        return Some(Err(LexFault::LiteralOverflow));
                    },
                }
            } else if ('a' <= c && c <= 'z') || ('A' <= c && c <= 'Z') || c == '_' {
                let j = word_end_from(self.text, n, i + 1);
                let word = String::from_str(self.text.substring_char(i, j));
                self.pos = j;
                return Some(Ok(classify_word(word)));
            } else if c == ' ' || c == '\t' || c == '\n' {
                self.pos = i + 1;
            } else {
                match punct_token(c) {
                    Some(t) => {
                        self.pos = i + 1;
                        return Some(Ok(t));
                    },
                    None => {
                        self.done = true;
                        return Some(Err(LexFault::UnexpectedChar(c)));
                    },
                }
            }
        }
    }
}

/// The tokens of a source text, through the end-of-stream token, or the
/// fault that stops lexing.
pub fn lex(text: &str) -> (r: Result<Vec<Token>, LexFault>)
    ensures
        match lex_spec(text@) {
            Ok(ts) => r is Ok && toks_view(r->Ok_0@) == ts,
            Err(f) => r == Err::<Vec<Token>, LexFault>(f),
        },
{
    let ghost s = text@;
    let mut lexer = Lexer::new(text);
    let mut out: Vec<Token> = Vec::new();
    assert(prepend(toks_view(out@), lex_from(s, 0)) == lex_from(s, 0)) by {
        assert(toks_view(out@) =~= Seq::<Tok>::empty());
        if let Ok(ts) = lex_from(s, 0) {
            assert(Seq::<Tok>::empty() + ts =~= ts);
        }
    }
    loop
        invariant
            lexer.wf(),
            s == text@,
            lexer.source() == s,
            !lexer.finished(),
            0 <= lexer.position() <= s.len(),
            lex_from(s, 0) == prepend(toks_view(out@), lex_from(s, lexer.position())),
        decreases s.len() - lexer.position(),
    {
        let ghost pos = lexer.position();
        proof {
            lemma_lex_step(s, pos);
        }
        match lexer.next() {
            Some(Ok(t)) => {
                let ghost tv = t@;
                let ghost before = toks_view(out@);
                let at_end = t.kind() == TokenKind::Eof;
                out.push(t);
                assert(toks_view(out@) =~= before.push(tv));
                if at_end {
                    assert(lex_from(s, pos) == Ok::<Seq<Tok>, LexFault>(seq![Tok::Eof]));
                    assert(before + seq![Tok::Eof] =~= before.push(tv));
                    return Ok(out);
                }
                proof {
                    if let Ok(rest) = lex_from(s, lexer.position()) {
                        assert(before + (seq![tv] + rest) =~= before.push(tv) + rest);
                    }
                }
            },
            Some(Err(f)) => {
                return Err(f);
            },
            None => {
                proof {
                    assert(false);
                }
                return Err(LexFault::BadLineEnding);
            },
        }
    }
}

} // verus!
