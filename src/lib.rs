//! Front end for a small interface-definition language that describes
//! message-based protocols: a lexer, a recursive-descent parser and the
//! protocol model that the parser fills.
use vstd::prelude::*;

pub mod types;
pub mod token;
pub mod lexer;
pub mod name_map;
pub mod protocol;
pub mod grammar;
pub mod parser;
pub mod laws;

pub use lexer::{lex, LexFault, Lexer};
pub use name_map::NameMap;
pub use parser::{parse, Parser};
pub use protocol::{Category, Method, ParseError, Protocol};
pub use token::{Token, TokenKind};
pub use types::{Object, ProtoConfig, Type};

verus! {

} // verus!
