//! General properties of the lexer and the parser, stated over the grammar
//! that `parse` is proved to follow, and proved.
use vstd::prelude::*;
use crate::grammar::{
    merge,
    p_fields,
    p_property,
    p_attrs,
    p_method_body,
    p_method,
    p_cat_body,
    p_category,
    p_newtype,
    p_open,
    p_open_protocol,
    p_protocol,
    p_type,
    tok_at,
};
use crate::lexer::{decimal, digits_end, is_digit, lex_from, lex_spec, lex_step, scan, LexFault, Scan};
use crate::parser::parse_spec;
use crate::protocol::{Failure, ProtocolM};
use crate::token::Tok;
use crate::types::Ty;

verus! {

broadcast use vstd::seq::group_seq_axioms;

/// Whether a type can be written down: no named type is called `array` or
/// `map`, which the grammar reads as the start of a composite type.
pub open spec fn renderable(ty: Ty) -> bool
    decreases ty,
{
    match ty {
        Ty::Array(a) => renderable(*a),
        Ty::Mapping(k, v) => renderable(*k) && renderable(*v),
        Ty::Aggregate(fs) => fields_renderable(fs),
        Ty::Named(n) => n != "array"@ && n != "map"@,
        _ => true,
    }
}

pub open spec fn fields_renderable(fs: Seq<(Seq<char>, Ty)>) -> bool
    decreases fs,
{
    if fs.len() == 0 {
        true
    } else {
        renderable(fs[0].1) && fields_renderable(fs.subrange(1, fs.len() as int))
    }
}

/// The tokens that write a type down.
pub open spec fn type_toks(ty: Ty) -> Seq<Tok>
    decreases ty,
{
    match ty {
        Ty::Array(a) => seq![Tok::Ident("array"@), Tok::Lt] + type_toks(*a) + seq![Tok::Gt],
        Ty::Mapping(k, v) => seq![Tok::Ident("map"@), Tok::Lt] + type_toks(*k) + seq![Tok::Comma]
            + type_toks(*v) + seq![Tok::Gt],
        Ty::Aggregate(fs) => seq![Tok::LBrace] + fields_toks(fs) + seq![Tok::RBrace],
        Ty::Named(n) => seq![Tok::Ident(n)],
        _ => seq![Tok::Prim(ty)],
    }
}

/// The tokens that write down the fields of an aggregate, `name : type`,
/// separated by commas.
pub open spec fn fields_toks(fs: Seq<(Seq<char>, Ty)>) -> Seq<Tok>
    decreases fs,
{
    if fs.len() == 0 {
        Seq::empty()
    } else if fs.len() == 1 {
        seq![Tok::Ident(fs[0].0), Tok::Colon] + type_toks(fs[0].1)
    } else {
        seq![Tok::Ident(fs[0].0), Tok::Colon] + type_toks(fs[0].1) + seq![Tok::Comma] + fields_toks(
            fs.subrange(1, fs.len() as int),
        )
    }
}

/// Whether the tokens `t` hold `w` from index `i` on.
pub open spec fn holds_at(t: Seq<Tok>, i: int, w: Seq<Tok>) -> bool {
    0 <= i && i + w.len() <= t.len() && t.subrange(i, i + w.len()) == w
}

proof fn lemma_holds_part(t: Seq<Tok>, i: int, w: Seq<Tok>, a: int, b: int)
    requires
        holds_at(t, i, w),
        0 <= a <= b <= w.len(),
    ensures
        holds_at(t, i + a, w.subrange(a, b)),
        forall|k: int| a <= k < b ==> t[i + k] == #[trigger] w[k],
{
    assert(t.subrange(i + a, i + b) =~= t.subrange(i, i + w.len()).subrange(a, b));
    assert forall|k: int| a <= k < b implies t[i + k] == w[k] by {
        assert(t.subrange(i, i + w.len())[k] == t[i + k]);
    }
}

/// Any type that can be written down parses back to itself from its tokens,
/// whatever follows them; composite types nest to any depth.
pub proof fn lemma_type_round_trip(ty: Ty, t: Seq<Tok>, i: int)
    requires
        renderable(ty),
        holds_at(t, i, type_toks(ty)),
    ensures
        p_type(t, i) == Ok::<(Ty, int), Failure>((ty, i + type_toks(ty).len())),
    decreases ty,
{
    let w = type_toks(ty);
    lemma_holds_part(t, i, w, 0, w.len() as int);
    match ty {
        Ty::Array(a) => {
            let m = type_toks(*a).len() as int;
            assert(w.subrange(2, 2 + m) =~= type_toks(*a));
            lemma_holds_part(t, i, w, 2, 2 + m);
            lemma_type_round_trip(*a, t, i + 2);
            assert(w[0] == Tok::Ident("array"@));
            assert(w[1] == Tok::Lt);
            assert(t[i + 2 + m] == w[2 + m]);
        },
        Ty::Mapping(k, v) => {
            let mk = type_toks(*k).len() as int;
            let mv = type_toks(*v).len() as int;
            assert(w.subrange(2, 2 + mk) =~= type_toks(*k));
            assert(w.subrange(3 + mk, 3 + mk + mv) =~= type_toks(*v));
            lemma_holds_part(t, i, w, 2, 2 + mk);
            lemma_holds_part(t, i, w, 3 + mk, 3 + mk + mv);
            lemma_type_round_trip(*k, t, i + 2);
            lemma_type_round_trip(*v, t, i + 3 + mk);
            reveal_strlit("map");
            reveal_strlit("array");
            assert("map"@ != "array"@) by {
                assert("map"@.len() != "array"@.len());
            }
            assert(w[0] == Tok::Ident("map"@));
            assert(w[1] == Tok::Lt);
            assert(w[2 + mk] == Tok::Comma);
            assert(t[i + 2 + mk] == w[2 + mk]);
            assert(t[i + 3 + mk + mv] == w[3 + mk + mv]);
        },
        Ty::Aggregate(fs) => {
            let m = fields_toks(fs).len() as int;
            assert(w.subrange(1, 1 + m) =~= fields_toks(fs));
            lemma_holds_part(t, i, w, 1, 1 + m);
            assert(w[0] == Tok::LBrace);
            assert(t[i + 1 + m] == w[1 + m]);
            lemma_fields_round_trip(fs, t, i + 1, Seq::empty());
            assert(Seq::<(Seq<char>, Ty)>::empty() + fs =~= fs);
        },
        Ty::Named(n) => {
            assert(w[0] == Tok::Ident(n));
        },
        _ => {
            assert(w[0] == Tok::Prim(ty));
        },
    }
}

/// The fields of an aggregate, written down and closed by a brace, parse
/// back to themselves, in the order written, after those in `acc`.
pub proof fn lemma_fields_round_trip(
    fs: Seq<(Seq<char>, Ty)>,
    t: Seq<Tok>,
    i: int,
    acc: Seq<(Seq<char>, Ty)>,
)
    requires
        fields_renderable(fs),
        holds_at(t, i, fields_toks(fs)),
        tok_at(t, i + fields_toks(fs).len()) == Tok::RBrace,
    ensures
        p_fields(t, i, acc) == Ok::<(Ty, int), Failure>(
            (Ty::Aggregate(acc + fs), i + fields_toks(fs).len() + 1),
        ),
    decreases fs,
{
    let w = fields_toks(fs);
    if fs.len() == 0 {
        assert(acc + fs =~= acc);
    } else {
        let f = fs[0];
        let m = type_toks(f.1).len() as int;
        lemma_holds_part(t, i, w, 0, w.len() as int);
        assert(w.subrange(2, 2 + m) =~= type_toks(f.1));
        lemma_holds_part(t, i, w, 2, 2 + m);
        lemma_type_round_trip(f.1, t, i + 2);
        assert(w[0] == Tok::Ident(f.0));
        assert(w[1] == Tok::Colon);
        let j = i + 2 + m;
        if fs.len() == 1 {
            assert(acc.push(f) =~= acc + fs);
            assert(w.len() == 2 + m);
            assert(p_fields(t, j, acc.push(f)) == Ok::<(Ty, int), Failure>(
                (Ty::Aggregate(acc.push(f)), j + 1),
            ));
        } else {
            let rest = fs.subrange(1, fs.len() as int);
            let mr = fields_toks(rest).len() as int;
            assert(w[2 + m] == Tok::Comma);
            assert(t[j] == w[2 + m]);
            assert(w.subrange(3 + m, 3 + m + mr) =~= fields_toks(rest));
            lemma_holds_part(t, i, w, 3 + m, 3 + m + mr);
            lemma_fields_round_trip(rest, t, j + 1, acc.push(f));
            assert(acc.push(f) + rest =~= acc + fs);
        }
    }
}

/// The fields of an aggregate come out of the parse in the order in which
/// they are written, each with its name and type.
pub proof fn lemma_aggregate_field_order(fs: Seq<(Seq<char>, Ty)>, t: Seq<Tok>, i: int)
    requires
        fields_renderable(fs),
        holds_at(t, i, type_toks(Ty::Aggregate(fs))),
    ensures
        p_type(t, i) is Ok,
        p_type(t, i)->Ok_0.0 == Ty::Aggregate(fs),
        forall|k: int|
            0 <= k < fs.len() ==> (#[trigger] p_type(t, i)->Ok_0.0->Aggregate_0[k]) == fs[k],
{
    lemma_type_round_trip(Ty::Aggregate(fs), t, i);
}

/// Parsing is a function of the sources and the file named: two parses of
/// the same sources from the same file give the same protocol, or fail in
/// the same way.
pub proof fn lemma_parse_deterministic(
    srcs1: Seq<(Seq<char>, Seq<char>)>,
    srcs2: Seq<(Seq<char>, Seq<char>)>,
    file1: Seq<char>,
    file2: Seq<char>,
)
    requires
        srcs1 == srcs2,
        file1 == file2,
    ensures
        parse_spec(srcs1, file1) == parse_spec(srcs2, file2),
{
}

/// An `include` among the declarations of a protocol merges the included
/// file's types and categories into those declared so far; on a name that
/// both hold, the included entry wins. A later declaration of that name in
/// the including file wins in turn, since a declaration stores its entry
/// over whatever the name held.
pub proof fn lemma_include_last_write_wins(
    srcs: Seq<(Seq<char>, Seq<char>)>,
    active: Seq<bool>,
    t: Seq<Tok>,
    i: int,
    acc: ProtocolM,
    path: Seq<char>,
    sub: ProtocolM,
    name: Seq<char>,
)
    requires
        tok_at(t, i) == Tok::Include,
        tok_at(t, i + 1) == Tok::Str(path),
        tok_at(t, i + 2) == Tok::Semi,
        p_open_protocol(srcs, active, path, false) == Ok::<ProtocolM, Failure>(sub),
    ensures
        p_protocol(srcs, active, t, i, acc) == p_protocol(srcs, active, t, i + 3, merge(acc, sub)),
        sub.types.contains_key(name) ==> merge(acc, sub).types[name] == sub.types[name],
        !sub.types.contains_key(name) && acc.types.contains_key(name) ==> merge(acc, sub).types[name]
            == acc.types[name],
        sub.categories.contains_key(name) ==> merge(acc, sub).categories[name]
            == sub.categories[name],
        !sub.categories.contains_key(name) && acc.categories.contains_key(name) ==> merge(
            acc,
            sub,
        ).categories[name] == acc.categories[name],
{
}

/// A later `newtype` stores its type under its name over whatever the name
/// held, also a type that an included file supplied.
pub proof fn lemma_newtype_overrides(
    srcs: Seq<(Seq<char>, Seq<char>)>,
    active: Seq<bool>,
    t: Seq<Tok>,
    i: int,
    acc: ProtocolM,
    name: Seq<char>,
    ty: Ty,
)
    requires
        renderable(ty),
        tok_at(t, i) == Tok::Newtype,
        tok_at(t, i + 1) == Tok::Ident(name),
        tok_at(t, i + 2) == Tok::Equals,
        holds_at(t, i + 3, type_toks(ty)),
        tok_at(t, i + 3 + type_toks(ty).len()) == Tok::Semi,
    ensures
        p_protocol(srcs, active, t, i, acc) == p_protocol(
            srcs,
            active,
            t,
            i + 4 + type_toks(ty).len(),
            ProtocolM { types: acc.types.insert(name, ty), ..acc },
        ),
{
    lemma_type_round_trip(ty, t, i + 3);
}

/// A file read through `include` at the level of declarations may not open
/// with a `config` block: the parse is rejected.
pub proof fn lemma_config_in_included_rejected(
    srcs: Seq<(Seq<char>, Seq<char>)>,
    active: Seq<bool>,
    path: Seq<char>,
    k: int,
    t: Seq<Tok>,
)
    requires
        p_open(srcs, active, path) == Ok::<(int, Seq<Tok>), Failure>((k, t)),
        tok_at(t, 0) == Tok::Config,
    ensures
        p_open_protocol(srcs, active, path, false) == Err::<ProtocolM, Failure>(
            Failure::ConfigInIncluded,
        ),
{
}

proof fn lemma_all_digits_end(s: Seq<char>, i: int)
    requires
        0 <= i <= s.len(),
        forall|k: int| 0 <= k < s.len() ==> is_digit(#[trigger] s[k]),
    ensures
        digits_end(s, i) == s.len(),
    decreases s.len() - i,
{
    if i < s.len() {
        lemma_all_digits_end(s, i + 1);
    }
}

/// A text that is one run of decimal digits lexes to one integer literal
/// of exactly the written value, then end-of-stream; a value that does not
/// fit in 64 bits fails lexing instead of wrapping.
pub proof fn lemma_literal_value(s: Seq<char>)
    requires
        s.len() > 0,
        forall|k: int| 0 <= k < s.len() ==> is_digit(#[trigger] s[k]),
    ensures
        decimal(s) <= u64::MAX ==> lex_spec(s) == Ok::<Seq<Tok>, LexFault>(
            seq![Tok::Lit(decimal(s) as u64), Tok::Eof],
        ),
        decimal(s) > u64::MAX ==> lex_spec(s) == Err::<Seq<Tok>, LexFault>(
            LexFault::LiteralOverflow,
        ),
{
    lemma_all_digits_end(s, 1);
    assert(s.subrange(0, s.len() as int) =~= s);
    assert(is_digit(s[0]));
    if decimal(s) <= u64::MAX {
        assert(scan(s, 0) == Scan::Emit(Tok::Lit(decimal(s) as u64), s.len() as int));
        assert(lex_step(s, 0) == Ok::<(Tok, int), LexFault>(
            (Tok::Lit(decimal(s) as u64), s.len() as int),
        ));
        assert(lex_step(s, s.len() as int) == Ok::<(Tok, int), LexFault>((Tok::Eof, s.len() as int)));
        assert(lex_from(s, s.len() as int) == Ok::<Seq<Tok>, LexFault>(seq![Tok::Eof]));
        assert(seq![Tok::Lit(decimal(s) as u64)] + seq![Tok::Eof] =~= seq![
            Tok::Lit(decimal(s) as u64),
            Tok::Eof,
        ]);
    }
}

/// No token from `i` up to `j` is the `config` keyword.
pub open spec fn config_free(t: Seq<Tok>, i: int, j: int) -> bool {
    forall|k: int| i <= k < j ==> !(#[trigger] tok_at(t, k) is Config)
}

proof fn lemma_type_config_free(t: Seq<Tok>, i: int)
    ensures
        p_type(t, i) is Ok ==> i < p_type(t, i)->Ok_0.1 && config_free(t, i, p_type(t, i)->Ok_0.1),
    decreases t.len() - i, 1int,
{
    match tok_at(t, i) {
        Tok::Ident(n) => {
            if n == "array"@ || n == "map"@ {
                if tok_at(t, i + 1) is Lt && i + 2 <= t.len() {
                    lemma_type_config_free(t, i + 2);
                    if let Ok((_, j)) = p_type(t, i + 2) {
                        if n != "array"@ && tok_at(t, j) is Comma && i < j <= t.len() {
                            lemma_type_config_free(t, j + 1);
                        }
                    }
                }
            }
        },
        Tok::LBrace => {
            lemma_fields_config_free(t, i + 1, Seq::empty());
        },
        _ => {},
    }
}

proof fn lemma_fields_config_free(t: Seq<Tok>, i: int, acc: Seq<(Seq<char>, Ty)>)
    ensures
        p_fields(t, i, acc) is Ok ==> i < p_fields(t, i, acc)->Ok_0.1 && config_free(
            t,
            i,
            p_fields(t, i, acc)->Ok_0.1,
        ),
    decreases t.len() - i, 0int,
{
    match tok_at(t, i) {
        Tok::Ident(n) => {
            if tok_at(t, i + 1) is Colon && i + 2 <= t.len() {
                lemma_type_config_free(t, i + 2);
                if let Ok((ty, j)) = p_type(t, i + 2) {
                    if i < j <= t.len() {
                        let k = if tok_at(t, j) is Comma { j + 1 } else { j };
                        lemma_fields_config_free(t, k, acc.push((n, ty)));
                    }
                }
            }
        },
        Tok::Comma => {
            if i + 1 <= t.len() {
                lemma_fields_config_free(t, i + 1, acc);
            }
        },
        _ => {},
    }
}

proof fn lemma_attrs_config_free(t: Seq<Tok>, i: int, acc: Seq<Seq<char>>)
    ensures
        p_attrs(t, i, acc) is Ok ==> i < p_attrs(t, i, acc)->Ok_0.1 && config_free(
            t,
            i,
            p_attrs(t, i, acc)->Ok_0.1,
        ),
    decreases t.len() - i,
{
    if let Tok::Ident(a) = tok_at(t, i) {
        lemma_attrs_config_free(t, if tok_at(t, i + 1) is Comma { i + 2 } else { i + 1 }, acc.push(a));
    }
}

proof fn lemma_method_body_config_free(
    t: Seq<Tok>,
    i: int,
    comment: Seq<char>,
    props: Map<Seq<char>, Ty>,
    seen: bool,
)
    ensures
        p_method_body(t, i, comment, props, seen) is Ok ==> i < p_method_body(
            t,
            i,
            comment,
            props,
            seen,
        )->Ok_0.2 && config_free(t, i, p_method_body(t, i, comment, props, seen)->Ok_0.2),
    decreases t.len() - i,
{
    match tok_at(t, i) {
        Tok::Comment(c) => {
            if !seen {
                lemma_method_body_config_free(t, i + 1, comment + crate::grammar::doc_line(c), props, false);
            }
        },
        Tok::Ident(n) => {
            lemma_type_config_free(t, i + 3);
            if let Ok((ty, j)) = p_property(t, i + 1) {
                if i < j <= t.len() {
                    lemma_method_body_config_free(t, j, comment, props.insert(n, ty), true);
                }
            }
        },
        _ => {},
    }
}

proof fn lemma_method_config_free(t: Seq<Tok>, i: int)
    ensures
        p_method(t, i) is Ok ==> i < p_method(t, i)->Ok_0.1 && config_free(t, i, p_method(t, i)->Ok_0.1),
{
    lemma_attrs_config_free(t, i + 3, Seq::empty());
    if let Ok((_, j)) = p_attrs(t, i + 3, Seq::empty()) {
        lemma_method_body_config_free(t, j + 1, Seq::empty(), Map::empty(), false);
    }
}

proof fn lemma_cat_body_config_free(
    srcs: Seq<(Seq<char>, Seq<char>)>,
    active: Seq<bool>,
    t: Seq<Tok>,
    i: int,
    ms: Map<Seq<char>, crate::protocol::MethodM>,
    nested: bool,
)
    ensures
        p_cat_body(srcs, active, t, i, ms, nested) is Ok ==> i <= p_cat_body(
            srcs,
            active,
            t,
            i,
            ms,
            nested,
        )->Ok_0.1 && config_free(t, i, p_cat_body(srcs, active, t, i, ms, nested)->Ok_0.1),
    decreases t.len() - i,
{
    match tok_at(t, i) {
        Tok::Include => {
            if let Tok::Str(path) = tok_at(t, i + 1) {
                if let Ok(ms2) = crate::grammar::p_open_body(srcs, active, path, ms) {
                    if tok_at(t, i + 2) is Semi {
                        lemma_cat_body_config_free(srcs, active, t, i + 3, ms2, nested);
                    }
                }
            }
        },
        Tok::Method => {
            if let Tok::Ident(name) = tok_at(t, i + 1) {
                lemma_method_config_free(t, i + 2);
                if let Ok((m, j)) = p_method(t, i + 2) {
                    if i < j <= t.len() {
                        lemma_cat_body_config_free(srcs, active, t, j, ms.insert(name, m), nested);
                    }
                }
            }
        },
        _ => {},
    }
}

proof fn lemma_protocol_config_free(
    srcs: Seq<(Seq<char>, Seq<char>)>,
    active: Seq<bool>,
    t: Seq<Tok>,
    i: int,
    acc: ProtocolM,
) -> (e: int)
    requires
        p_protocol(srcs, active, t, i, acc) is Ok,
    ensures
        i <= e,
        tok_at(t, e) is Eof,
        config_free(t, i, e),
    decreases t.len() - i,
{
    match tok_at(t, i) {
        Tok::Newtype => {
            lemma_type_config_free(t, i + 3);
            let (name, ty, j) = p_newtype(t, i + 1)->Ok_0;
            lemma_protocol_config_free(
                srcs,
                active,
                t,
                j,
                ProtocolM { types: acc.types.insert(name, ty), ..acc },
            )
        },
        Tok::Category => {
            lemma_cat_body_config_free(srcs, active, t, i + 5, Map::empty(), false);
            let (name, cat, j) = p_category(srcs, active, t, i + 1)->Ok_0;
            lemma_protocol_config_free(
                srcs,
                active,
                t,
                j,
                ProtocolM { categories: acc.categories.insert(name, cat), ..acc },
            )
        },
        Tok::Include => {
            let path = tok_at(t, i + 1)->Str_0;
            let sub = p_open_protocol(srcs, active, path, false)->Ok_0;
            lemma_protocol_config_free(srcs, active, t, i + 3, merge(acc, sub))
        },
        _ => i,
    }
}

proof fn lemma_lex_from_eof_last(s: Seq<char>, i: int)
    requires
        0 <= i,
    ensures
        lex_from(s, i) is Ok ==> {
            let ts = lex_from(s, i)->Ok_0;
            &&& ts.len() >= 1
            &&& ts.last() is Eof
            &&& forall|k: int| 0 <= k < ts.len() - 1 ==> !(#[trigger] ts[k] is Eof)
        },
    decreases s.len() - i,
{
    crate::lexer::lemma_lex_step(s, i);
    if let Ok((t, j)) = lex_step(s, i) {
        if !(t is Eof) {
            lemma_lex_from_eof_last(s, j);
            if let Ok(rest) = lex_from(s, j) {
                let ts = seq![t] + rest;
                assert(lex_from(s, i) == Ok::<Seq<Tok>, LexFault>(ts));
                assert forall|k: int| 0 <= k < ts.len() - 1 implies !(#[trigger] ts[k] is Eof) by {
                    if k > 0 {
                        assert(ts[k] == rest[k - 1]);
                    }
                }
            }
        }
    }
}

/// A file read through `include` at the level of declarations is rejected
/// wherever it holds the `config` keyword: a config block is allowed only
/// at the start of the file that the parse starts from.
pub proof fn lemma_config_anywhere_in_included_rejected(
    srcs: Seq<(Seq<char>, Seq<char>)>,
    active: Seq<bool>,
    path: Seq<char>,
    k: int,
    t: Seq<Tok>,
    c: int,
)
    requires
        p_open(srcs, active, path) == Ok::<(int, Seq<Tok>), Failure>((k, t)),
        0 <= c < t.len(),
        t[c] is Config,
    ensures
        p_open_protocol(srcs, active, path, false) is Err,
{
    assert(lex_spec(srcs[k].1) == Ok::<Seq<Tok>, LexFault>(t));
    lemma_lex_from_eof_last(srcs[k].1, 0);
    if !(tok_at(t, 0) is Config) {
        let act = active.update(k, true);
        let start = crate::grammar::empty_protocol(crate::types::default_config());
        if p_protocol(srcs, act, t, 0, start) is Ok {
            let e = lemma_protocol_config_free(srcs, act, t, 0, start);
            assert(tok_at(t, c) == t[c]);
            if c < e {
                assert(!(tok_at(t, c) is Config));
            }
            assert(false);
        }
    }
}

} // verus!
