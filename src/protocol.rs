//! The protocol model that the parser fills, and the errors it reports.
use vstd::prelude::*;
use crate::lexer::LexFault;
use crate::name_map::NameMap;
use crate::types::{ProtoConfig, Type, Ty};

verus! {

/// An operation of a category.
#[derive(Debug)]
pub struct Method {
    /// The doc-comment lines, each ended by a newline.
    pub comment: String,
    pub id: u64,
    pub properties: NameMap<Type>,
    pub attributes: Vec<String>,
}

/// A named group of methods.
#[derive(Debug)]
pub struct Category {
    pub id: u64,
    pub methods: NameMap<Method>,
}

/// A parsed protocol.
#[derive(Debug)]
pub struct Protocol {
    pub config: ProtoConfig,
    pub types: NameMap<Type>,
    pub categories: NameMap<Category>,
}

/// The mathematical value of a `Method`.
pub struct MethodM {
    pub comment: Seq<char>,
    pub id: u64,
    pub properties: Map<Seq<char>, Ty>,
    pub attributes: Seq<Seq<char>>,
}

/// The mathematical value of a `Category`.
pub struct CategoryM {
    pub id: u64,
    pub methods: Map<Seq<char>, MethodM>,
}

/// The mathematical value of a `Protocol`.
pub struct ProtocolM {
    pub config: ProtoConfig,
    pub types: Map<Seq<char>, Ty>,
    pub categories: Map<Seq<char>, CategoryM>,
}

pub open spec fn strings_view(v: Seq<String>) -> Seq<Seq<char>> {
    v.map_values(|s: String| s@)
}

impl View for Method {
    type V = MethodM;

    open spec fn view(&self) -> MethodM {
        MethodM {
            comment: self.comment@,
            id: self.id,
            properties: self.properties@,
            attributes: strings_view(self.attributes@),
        }
    }
}

impl View for Category {
    type V = CategoryM;

    open spec fn view(&self) -> CategoryM {
        CategoryM { id: self.id, methods: self.methods@ }
    }
}

impl View for Protocol {
    type V = ProtocolM;

    open spec fn view(&self) -> ProtocolM {
        ProtocolM { config: self.config, types: self.types@, categories: self.categories@ }
    }
}

/// Why a parse fails.
pub enum Failure {
    /// A token of a kind that the grammar does not allow where it stands.
    UnexpectedToken,
    /// The tokens ended where the grammar asks for more.
    UnexpectedEof,
    /// The text of a file could not be lexed.
    Lexical(LexFault),
    /// A `config` block names a field that does not exist.
    UnknownConfigField(Seq<char>),
    /// A `config` block opens a file that is included by another.
    ConfigInIncluded,
    /// A file includes itself, directly or through other files.
    CyclicInclude(Seq<char>),
    /// A file to be read is not among the sources.
    MissingFile(Seq<char>),
}

/// The error a parse reports.
#[derive(Debug, PartialEq, Eq)]
pub enum ParseError {
    UnexpectedToken(String),
    UnexpectedEof(String),
    Other(String),
    /// The named file is needed and not among the sources.
    MissingFile(String),
}

impl ParseError {
    /// Whether this error reports the failure `f`.
    pub open spec fn reports(&self, f: Failure) -> bool {
        match self {
            ParseError::UnexpectedToken(_) => f is UnexpectedToken,
            ParseError::UnexpectedEof(_) => f is UnexpectedEof,
            ParseError::MissingFile(p) => f == Failure::MissingFile(p@),
            ParseError::Other(_) => f is Lexical || f is UnknownConfigField || f is ConfigInIncluded
                || f is CyclicInclude,
        }
    }
}

} // verus!
