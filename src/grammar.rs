//! The grammar of protocol sources, stated over token sequences: what a
//! parse of given tokens yields, or why it fails.
//!
//! Positions are indices into the token sequence; each production returns
//! the position after what it consumed.
use vstd::prelude::*;
use crate::lexer::lex_spec;
use crate::protocol::{CategoryM, Failure, MethodM, ProtocolM};
use crate::token::{Tok, TokenKind};
use crate::types::{ProtoConfig, Ty, default_config};

verus! {

/// The token at `i`; past the end, the end-of-stream token.
pub open spec fn tok_at(t: Seq<Tok>, i: int) -> Tok {
    if 0 <= i < t.len() {
        t[i]
    } else {
        Tok::Eof
    }
}

/// The failure for finding `found` where the grammar allows another kind.
pub open spec fn mismatch(found: Tok) -> Failure {
    if found is Eof {
        Failure::UnexpectedEof
    } else {
        Failure::UnexpectedToken
    }
}

/// Consumes a token of kind `k` at `i`.
pub open spec fn expect(t: Seq<Tok>, i: int, k: TokenKind) -> Result<int, Failure> {
    if tok_at(t, i).kind() == k {
        Ok(i + 1)
    } else {
        Err(mismatch(tok_at(t, i)))
    }
}

/// A production that started at `i` and ended at `j` consumed at least one
/// token and stayed within the tokens. Every production does so; the parser's
/// proofs show the test true wherever it is reached, and the grammar makes it
/// only so that its loops visibly end.
pub open spec fn moved_on(t: Seq<Tok>, i: int, j: int) -> bool {
    i < j <= t.len()
}

/// A type at `i`.
pub open spec fn p_type(t: Seq<Tok>, i: int) -> Result<(Ty, int), Failure>
    decreases t.len() - i, 1int,
{
    match tok_at(t, i) {
        Tok::Prim(ty) => Ok((ty, i + 1)),
        Tok::Ident(n) => if n == "array"@ {
            if tok_at(t, i + 1) is Lt {
                match p_type(t, i + 2) {
                    Ok((a, j)) => if tok_at(t, j) is Gt {
                        Ok((Ty::Array(Box::new(a)), j + 1))
                    } else {
                        Err(mismatch(tok_at(t, j)))
                    },
                    Err(e) => Err(e),
                }
            } else {
                Err(mismatch(tok_at(t, i + 1)))
            }
        } else if n == "map"@ {
            if tok_at(t, i + 1) is Lt {
                match p_type(t, i + 2) {
                    Ok((k, j)) => if !(tok_at(t, j) is Comma) {
                        Err(mismatch(tok_at(t, j)))
                    } else if !moved_on(t, i, j) {
                        Err(Failure::UnexpectedEof)
                    } else {
                        match p_type(t, j + 1) {
                            Ok((v, m)) => if tok_at(t, m) is Gt {
                                Ok((Ty::Mapping(Box::new(k), Box::new(v)), m + 1))
                            } else {
                                Err(mismatch(tok_at(t, m)))
                            },
                            Err(e) => Err(e),
                        }
                    },
                    Err(e) => Err(e),
                }
            } else {
                Err(mismatch(tok_at(t, i + 1)))
            }
        } else {
            Ok((Ty::Named(n), i + 1))
        },
        Tok::LBrace => p_fields(t, i + 1, Seq::empty()),
        other => Err(mismatch(other)),
    }
}

/// The fields of an aggregate at `i`, after its opening brace, through its
/// closing brace; `acc` holds the fields read so far.
pub open spec fn p_fields(t: Seq<Tok>, i: int, acc: Seq<(Seq<char>, Ty)>) -> Result<
    (Ty, int),
    Failure,
>
    decreases t.len() - i, 0int,
{
    match tok_at(t, i) {
        Tok::Ident(n) => if !(tok_at(t, i + 1) is Colon) {
            Err(mismatch(tok_at(t, i + 1)))
        } else {
            match p_type(t, i + 2) {
                Ok((ty, j)) => if moved_on(t, i, j) {
                    p_fields(t, if tok_at(t, j) is Comma { j + 1 } else { j }, acc.push((n, ty)))
                } else {
                    Err(Failure::UnexpectedEof)
                },
                Err(e) => Err(e),
            }
        },
        Tok::Comma => p_fields(t, i + 1, acc),
        Tok::RBrace => Ok((Ty::Aggregate(acc), i + 1)),
        other => Err(mismatch(other)),
    }
}

/// `c` with the field `name` set to `v`, if `name` is a configuration field.
pub open spec fn config_with(c: ProtoConfig, name: Seq<char>, v: u64) -> Option<ProtoConfig> {
    if name == "message_id_bits"@ {
        Some(ProtoConfig { message_id_bits: v, ..c })
    } else if name == "category_bits"@ {
        Some(ProtoConfig { category_bits: v, ..c })
    } else if name == "method_bits"@ {
        Some(ProtoConfig { method_bits: v, ..c })
    } else if name == "array_length_bits"@ {
        Some(ProtoConfig { array_length_bits: v, ..c })
    } else {
        None
    }
}

/// The `name: value` pairs of a config block at `i`, through its closing brace.
pub open spec fn p_config_fields(t: Seq<Tok>, i: int, c: ProtoConfig) -> Result<
    (ProtoConfig, int),
    Failure,
>
    decreases t.len() - i,
{
    match tok_at(t, i) {
        Tok::Ident(name) => if !(tok_at(t, i + 1) is Colon) {
            Err(mismatch(tok_at(t, i + 1)))
        } else {
            match tok_at(t, i + 2) {
                Tok::Lit(v) => match config_with(c, name, v) {
                    None => Err(Failure::UnknownConfigField(name)),
                    Some(c2) => if tok_at(t, i + 3) is Comma {
                        p_config_fields(t, i + 4, c2)
                    } else if tok_at(t, i + 3) is RBrace {
                        Ok((c2, i + 4))
                    } else {
                        p_config_fields(t, i + 3, c2)
                    },
                },
                other => Err(mismatch(other)),
            }
        },
        other => Err(mismatch(other)),
    }
}

/// A config block at `i`.
pub open spec fn p_config(t: Seq<Tok>, i: int) -> Result<(ProtoConfig, int), Failure> {
    if !(tok_at(t, i) is Config) {
        Err(mismatch(tok_at(t, i)))
    } else if !(tok_at(t, i + 1) is LBrace) {
        Err(mismatch(tok_at(t, i + 1)))
    } else {
        p_config_fields(t, i + 2, default_config())
    }
}

/// The rest of a newtype declaration at `i`, after the keyword: its name and type.
pub open spec fn p_newtype(t: Seq<Tok>, i: int) -> Result<(Seq<char>, Ty, int), Failure> {
    match tok_at(t, i) {
        Tok::Ident(name) => if !(tok_at(t, i + 1) is Equals) {
            Err(mismatch(tok_at(t, i + 1)))
        } else {
            match p_type(t, i + 2) {
                Ok((ty, j)) => if tok_at(t, j) is Semi {
                    Ok((name, ty, j + 1))
                } else {
                    Err(mismatch(tok_at(t, j)))
                },
                Err(e) => Err(e),
            }
        },
        other => Err(mismatch(other)),
    }
}

/// The attributes of a method at `i`, after their opening brace, through
/// their closing brace.
pub open spec fn p_attrs(t: Seq<Tok>, i: int, acc: Seq<Seq<char>>) -> Result<
    (Seq<Seq<char>>, int),
    Failure,
>
    decreases t.len() - i,
{
    match tok_at(t, i) {
        Tok::Ident(a) => p_attrs(
            t,
            if tok_at(t, i + 1) is Comma { i + 2 } else { i + 1 },
            acc.push(a),
        ),
        Tok::RBrace => Ok((acc, i + 1)),
        other => Err(mismatch(other)),
    }
}

/// The rest of a property at `i`, after its name: `= { type } ;`.
pub open spec fn p_property(t: Seq<Tok>, i: int) -> Result<(Ty, int), Failure> {
    if !(tok_at(t, i) is Equals) {
        Err(mismatch(tok_at(t, i)))
    } else if !(tok_at(t, i + 1) is LBrace) {
        Err(mismatch(tok_at(t, i + 1)))
    } else {
        match p_type(t, i + 2) {
            Ok((ty, j)) => if !(tok_at(t, j) is RBrace) {
                Err(mismatch(tok_at(t, j)))
            } else if !(tok_at(t, j + 1) is Semi) {
                Err(mismatch(tok_at(t, j + 1)))
            } else {
                Ok((ty, j + 2))
            },
            Err(e) => Err(e),
        }
    }
}

/// The text a doc-comment token adds to a method's comment: the line
/// without its leading quote, ended by a newline.
pub open spec fn doc_line(c: Seq<char>) -> Seq<char> {
    (if c.len() > 0 { c.subrange(1, c.len() as int) } else { c }) + seq!['\n']
}

/// The body of a method at `i`, after its opening brace: doc comments, then
/// properties, through the closing brace. `seen` tells whether a property
/// has been read, after which no doc comment may follow.
pub open spec fn p_method_body(
    t: Seq<Tok>,
    i: int,
    comment: Seq<char>,
    props: Map<Seq<char>, Ty>,
    seen: bool,
) -> Result<(Seq<char>, Map<Seq<char>, Ty>, int), Failure>
    decreases t.len() - i,
{
    match tok_at(t, i) {
        Tok::Comment(c) => if seen {
            Err(Failure::UnexpectedToken)
        } else {
            p_method_body(t, i + 1, comment + doc_line(c), props, false)
        },
        Tok::Ident(n) => match p_property(t, i + 1) {
            Ok((ty, j)) => if moved_on(t, i, j) {
                p_method_body(t, j, comment, props.insert(n, ty), true)
            } else {
                Err(Failure::UnexpectedEof)
            },
            Err(e) => Err(e),
        },
        Tok::RBrace => Ok((comment, props, i + 1)),
        other => Err(mismatch(other)),
    }
}

/// The rest of a method at `i`, after its name: `= id { attrs } { body }`.
pub open spec fn p_method(t: Seq<Tok>, i: int) -> Result<(MethodM, int), Failure> {
    if !(tok_at(t, i) is Equals) {
        Err(mismatch(tok_at(t, i)))
    } else {
        match tok_at(t, i + 1) {
            Tok::Lit(id) => if !(tok_at(t, i + 2) is LBrace) {
                Err(mismatch(tok_at(t, i + 2)))
            } else {
                match p_attrs(t, i + 3, Seq::empty()) {
                    Ok((attrs, j)) => if !(tok_at(t, j) is LBrace) {
                        Err(mismatch(tok_at(t, j)))
                    } else {
                        match p_method_body(t, j + 1, Seq::empty(), Map::empty(), false) {
                            Ok((comment, props, k)) => Ok(
                                (
                                    MethodM {
                                        comment,
                                        id,
                                        properties: props,
                                        attributes: attrs,
                                    },
                                    k,
                                ),
                            ),
                            Err(e) => Err(e),
                        }
                    },
                    Err(e) => Err(e),
                }
            },
            other => Err(mismatch(other)),
        }
    }
}

/// The index of the first source named `path`, or -1.
pub open spec fn find_source_from(srcs: Seq<(Seq<char>, Seq<char>)>, path: Seq<char>, k: int) -> int
    decreases srcs.len() - k,
{
    if k < 0 || k >= srcs.len() {
        -1
    } else if srcs[k].0 == path {
        k
    } else {
        find_source_from(srcs, path, k + 1)
    }
}

pub open spec fn find_source(srcs: Seq<(Seq<char>, Seq<char>)>, path: Seq<char>) -> int {
    find_source_from(srcs, path, 0)
}

/// The number of sources that are not being parsed.
pub open spec fn free_count(active: Seq<bool>) -> nat
    decreases active.len(),
{
    if active.len() == 0 {
        0
    } else {
        free_count(active.drop_last()) + if active.last() {
            0nat
        } else {
            1nat
        }
    }
}

/// Opens the source named `path`: its index and its tokens. `active` marks
/// the sources being parsed; opening one of them again is a cycle.
pub open spec fn p_open(srcs: Seq<(Seq<char>, Seq<char>)>, active: Seq<bool>, path: Seq<char>) -> Result<
    (int, Seq<Tok>),
    Failure,
> {
    let k = find_source(srcs, path);
    if k < 0 || k >= active.len() {
        Err(Failure::MissingFile(path))
    } else if active[k] {
        Err(Failure::CyclicInclude(path))
    } else {
        match lex_spec(srcs[k].1) {
            Ok(t) => Ok((k, t)),
            Err(f) => Err(Failure::Lexical(f)),
        }
    }
}

/// The protocol `acc` with the types and categories of `sub` merged in;
/// on a name held by both, the entry of `sub` wins.
pub open spec fn merge(acc: ProtocolM, sub: ProtocolM) -> ProtocolM {
    ProtocolM {
        config: acc.config,
        types: acc.types.union_prefer_right(sub.types),
        categories: acc.categories.union_prefer_right(sub.categories),
    }
}

pub open spec fn empty_protocol(c: ProtoConfig) -> ProtocolM {
    ProtocolM { config: c, types: Map::empty(), categories: Map::empty() }
}

/// The body of a category at `i`, after its opening brace; `ms` holds the
/// methods read so far. In a file that a category body includes (`nested`)
/// the body runs to the end of the file, else to the closing brace.
pub open spec fn p_cat_body(
    srcs: Seq<(Seq<char>, Seq<char>)>,
    active: Seq<bool>,
    t: Seq<Tok>,
    i: int,
    ms: Map<Seq<char>, MethodM>,
    nested: bool,
) -> Result<(Map<Seq<char>, MethodM>, int), Failure>
    decreases free_count(active), t.len() - i + 1,
{
    match tok_at(t, i) {
        Tok::RBrace => if nested {
            Err(Failure::UnexpectedToken)
        } else {
            Ok((ms, i + 1))
        },
        Tok::Eof => if nested {
            Ok((ms, i))
        } else {
            Err(Failure::UnexpectedEof)
        },
        Tok::Include => match tok_at(t, i + 1) {
            Tok::Str(path) => match p_open_body(srcs, active, path, ms) {
                Ok(ms2) => if tok_at(t, i + 2) is Semi {
                    p_cat_body(srcs, active, t, i + 3, ms2, nested)
                } else {
                    Err(mismatch(tok_at(t, i + 2)))
                },
                Err(e) => Err(e),
            },
            other => Err(mismatch(other)),
        },
        Tok::Method => match tok_at(t, i + 1) {
            Tok::Ident(name) => match p_method(t, i + 2) {
                Ok((m, j)) => if moved_on(t, i, j) {
                    p_cat_body(srcs, active, t, j, ms.insert(name, m), nested)
                } else {
                    Err(Failure::UnexpectedEof)
                },
                Err(e) => Err(e),
            },
            other => Err(mismatch(other)),
        },
        other => Err(mismatch(other)),
    }
}

/// The methods of category `ms` after the file `path` has been read as
/// more of the category's body.
pub open spec fn p_open_body(
    srcs: Seq<(Seq<char>, Seq<char>)>,
    active: Seq<bool>,
    path: Seq<char>,
    ms: Map<Seq<char>, MethodM>,
) -> Result<Map<Seq<char>, MethodM>, Failure>
    decreases free_count(active), 0int,
    via p_open_body_decreases
{
    match p_open(srcs, active, path) {
        Ok((k, t2)) => match p_cat_body(srcs, active.update(k, true), t2, 0, ms, true) {
            Ok((ms2, _)) => Ok(ms2),
            Err(e) => Err(e),
        },
        Err(e) => Err(e),
    }
}

/// The rest of a category at `i`, after the keyword: its name and value.
pub open spec fn p_category(
    srcs: Seq<(Seq<char>, Seq<char>)>,
    active: Seq<bool>,
    t: Seq<Tok>,
    i: int,
) -> Result<(Seq<char>, CategoryM, int), Failure>
    decreases free_count(active), t.len() - i + 1,
{
    match tok_at(t, i) {
        Tok::Ident(name) => if !(tok_at(t, i + 1) is Equals) {
            Err(mismatch(tok_at(t, i + 1)))
        } else {
            match tok_at(t, i + 2) {
                Tok::Lit(id) => if !(tok_at(t, i + 3) is LBrace) {
                    Err(mismatch(tok_at(t, i + 3)))
                } else {
                    match p_cat_body(srcs, active, t, i + 4, Map::empty(), false) {
                        Ok((ms, j)) => Ok((name, CategoryM { id, methods: ms }, j)),
                        Err(e) => Err(e),
                    }
                },
                other => Err(mismatch(other)),
            }
        },
        other => Err(mismatch(other)),
    }
}

/// The declarations of a protocol at `i` through the end of its tokens;
/// `acc` holds what has been declared so far.
pub open spec fn p_protocol(
    srcs: Seq<(Seq<char>, Seq<char>)>,
    active: Seq<bool>,
    t: Seq<Tok>,
    i: int,
    acc: ProtocolM,
) -> Result<ProtocolM, Failure>
    decreases free_count(active), t.len() - i + 1,
{
    match tok_at(t, i) {
        Tok::Newtype => match p_newtype(t, i + 1) {
            Ok((name, ty, j)) => if moved_on(t, i, j) {
                p_protocol(srcs, active, t, j, ProtocolM { types: acc.types.insert(name, ty), ..acc })
            } else {
                Err(Failure::UnexpectedEof)
            },
            Err(e) => Err(e),
        },
        Tok::Category => match p_category(srcs, active, t, i + 1) {
            Ok((name, cat, j)) => if moved_on(t, i, j) {
                p_protocol(
                    srcs,
                    active,
                    t,
                    j,
                    ProtocolM { categories: acc.categories.insert(name, cat), ..acc },
                )
            } else {
                Err(Failure::UnexpectedEof)
            },
            Err(e) => Err(e),
        },
        Tok::Include => match tok_at(t, i + 1) {
            Tok::Str(path) => match p_open_protocol(srcs, active, path, false) {
                Ok(sub) => if tok_at(t, i + 2) is Semi {
                    p_protocol(srcs, active, t, i + 3, merge(acc, sub))
                } else {
                    Err(mismatch(tok_at(t, i + 2)))
                },
                Err(e) => Err(e),
            },
            other => Err(mismatch(other)),
        },
        Tok::Eof => Ok(acc),
        other => Err(mismatch(other)),
    }
}

/// A whole protocol file's tokens; a leading config block is allowed only
/// in the file that the parse starts from (`top`).
pub open spec fn p_protocol_file(
    srcs: Seq<(Seq<char>, Seq<char>)>,
    active: Seq<bool>,
    t: Seq<Tok>,
    top: bool,
) -> Result<ProtocolM, Failure>
    decreases free_count(active), t.len() + 2,
{
    if tok_at(t, 0) is Config {
        if !top {
            Err(Failure::ConfigInIncluded)
        } else {
            match p_config(t, 0) {
                Ok((c, j)) => if moved_on(t, 0, j) {
                    p_protocol(srcs, active, t, j, empty_protocol(c))
                } else {
                    Err(Failure::UnexpectedEof)
                },
                Err(e) => Err(e),
            }
        }
    } else {
        p_protocol(srcs, active, t, 0, empty_protocol(default_config()))
    }
}

/// The protocol in the source named `path`.
pub open spec fn p_open_protocol(
    srcs: Seq<(Seq<char>, Seq<char>)>,
    active: Seq<bool>,
    path: Seq<char>,
    top: bool,
) -> Result<ProtocolM, Failure>
    decreases free_count(active), 0int,
    via p_open_protocol_decreases
{
    match p_open(srcs, active, path) {
        Ok((k, t2)) => p_protocol_file(srcs, active.update(k, true), t2, top),
        Err(e) => Err(e),
    }
}

pub proof fn lemma_free_count_update(active: Seq<bool>, k: int)
    requires
        0 <= k < active.len(),
        !active[k],
    ensures
        free_count(active.update(k, true)) + 1 == free_count(active),
    decreases active.len(),
{
    let u = active.update(k, true);
    if k < active.len() - 1 {
        assert(u.drop_last() =~= active.drop_last().update(k, true));
        lemma_free_count_update(active.drop_last(), k);
    } else {
        assert(u.drop_last() =~= active.drop_last());
    }
}

#[via_fn]
proof fn p_open_body_decreases(
    srcs: Seq<(Seq<char>, Seq<char>)>,
    active: Seq<bool>,
    path: Seq<char>,
    ms: Map<Seq<char>, MethodM>,
) {
    if let Ok((k, _)) = p_open(srcs, active, path) {
        lemma_free_count_update(active, k);
    }
}

#[via_fn]
proof fn p_open_protocol_decreases(
    srcs: Seq<(Seq<char>, Seq<char>)>,
    active: Seq<bool>,
    path: Seq<char>,
    top: bool,
) {
    if let Ok((k, _)) = p_open(srcs, active, path) {
        lemma_free_count_update(active, k);
    }
}

} // verus!
