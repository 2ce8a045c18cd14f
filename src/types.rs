//! The type language of the protocol model and its mathematical view.
use vstd::prelude::*;

verus! {

broadcast use vstd::std_specs::vec::group_vec_axioms, vstd::seq::group_seq_axioms;

/// Wire-format parameters: bit widths for the parts of an encoded message.
#[derive(Clone, Copy, Debug, PartialEq, Eq)]
pub struct ProtoConfig {
    pub message_id_bits: u64,
    pub category_bits: u64,
    pub method_bits: u64,
    pub array_length_bits: u64,
}

/// The configuration in force when a protocol declares no `config` block.
pub open spec fn default_config() -> ProtoConfig {
    ProtoConfig { message_id_bits: 16, category_bits: 8, method_bits: 8, array_length_bits: 16 }
}

impl Default for ProtoConfig {
    fn default() -> (r: ProtoConfig)
        ensures
            r == default_config(),
    {
        ProtoConfig { message_id_bits: 16, category_bits: 8, method_bits: 8, array_length_bits: 16 }
    }
}

/// A type of the protocol language.
#[derive(Debug, PartialEq, Eq)]
pub enum Type {
    I8,
    U8,
    I16,
    U16,
    I32,
    U32,
    F32,
    I64,
    U64,
    F64,
    Array(Box<Type>),
    Mapping(Box<Type>, Box<Type>),
    Aggregate(Object),
    NamedType(String),
}

/// An inline composite type: named fields in the order they were written.
#[derive(Debug, PartialEq, Eq)]
pub struct Object {
    pub fields: Vec<(String, Type)>,
}

/// The mathematical value of a `Type`.
pub enum Ty {
    I8,
    U8,
    I16,
    U16,
    I32,
    U32,
    F32,
    I64,
    U64,
    F64,
    Array(Box<Ty>),
    Mapping(Box<Ty>, Box<Ty>),
    Aggregate(Seq<(Seq<char>, Ty)>),
    Named(Seq<char>),
}

/// The view of a sequence of aggregate fields.
pub open spec fn fields_view(fs: Seq<(String, Type)>) -> Seq<(Seq<char>, Ty)>
    decreases fs,
{
    if fs.len() == 0 {
        Seq::empty()
    } else {
        fields_view(fs.drop_last()).push((fs.last().0@, fs.last().1.model()))
    }
}

impl Type {
    /// The mathematical value of this type.
    pub open spec fn model(&self) -> Ty
        decreases self,
    {
        match self {
            Type::I8 => Ty::I8,
            Type::U8 => Ty::U8,
            Type::I16 => Ty::I16,
            Type::U16 => Ty::U16,
            Type::I32 => Ty::I32,
            Type::U32 => Ty::U32,
            Type::F32 => Ty::F32,
            Type::I64 => Ty::I64,
            Type::U64 => Ty::U64,
            Type::F64 => Ty::F64,
            Type::Array(t) => Ty::Array(Box::new(t.model())),
            Type::Mapping(k, v) => Ty::Mapping(Box::new(k.model()), Box::new(v.model())),
            Type::Aggregate(o) => Ty::Aggregate(fields_view(o.fields@)),
            Type::NamedType(n) => Ty::Named(n@),
        }
    }
}

impl View for Type {
    type V = Ty;

    open spec fn view(&self) -> Ty {
        self.model()
    }
}

} // verus!
