//! The types that a column can be cast to.
use vstd::prelude::*;

verus! {

/// Whether a column can hold nulls.
#[derive(Debug, Clone, Copy, PartialEq, Eq, Structural)]
pub enum Nullability {
    NonNullable,
    Nullable,
}

/// The primitive types.
#[derive(Debug, Clone, Copy, PartialEq, Eq, Structural)]
pub enum PType {
    U8,
    U16,
    U32,
    U64,
    I8,
    I16,
    I32,
    I64,
    F16,
    F32,
    F64,
}

/// The logical type of a column.
#[derive(Debug, Clone, Copy, PartialEq, Eq, Structural)]
pub enum DType {
    Bool(Nullability),
    Primitive(PType, Nullability),
    Utf8(Nullability),
    Binary(Nullability),
}

impl Nullability {
    /// The byte that stands for it.
    pub open spec fn byte(self) -> u8 {
        match self {
            Nullability::NonNullable => 0,
            Nullability::Nullable => 1,
        }
    }

    fn to_byte(self) -> (r: u8)
        ensures
            r == self.byte(),
    {
        match self {
            Nullability::NonNullable => 0,
            Nullability::Nullable => 1,
        }
    }
}

impl PType {
    /// The byte that stands for it.
    pub open spec fn byte(self) -> u8 {
        match self {
            PType::U8 => 0,
            PType::U16 => 1,
            PType::U32 => 2,
            PType::U64 => 3,
            PType::I8 => 4,
            PType::I16 => 5,
            PType::I32 => 6,
            PType::I64 => 7,
            PType::F16 => 8,
            PType::F32 => 9,
            PType::F64 => 10,
        }
    }

    fn to_byte(self) -> (r: u8)
        ensures
            r == self.byte(),
    {
        match self {
            PType::U8 => 0,
            PType::U16 => 1,
            PType::U32 => 2,
            PType::U64 => 3,
            PType::I8 => 4,
            PType::I16 => 5,
            PType::I32 => 6,
            PType::I64 => 7,
            PType::F16 => 8,
            PType::F32 => 9,
            PType::F64 => 10,
        }
    }
}

impl DType {
    /// The serialised form: what kind of type it is, which primitive, and whether it can hold
    /// nulls.
    pub open spec fn bytes(self) -> Seq<u8> {
        match self {
            DType::Bool(n) => seq![0u8, 0u8, n.byte()],
            DType::Primitive(ptype, n) => seq![1u8, ptype.byte(), n.byte()],
            DType::Utf8(n) => seq![2u8, 0u8, n.byte()],
            DType::Binary(n) => seq![3u8, 0u8, n.byte()],
        }
    }

    /// The serialised form.
    pub fn to_bytes(self) -> (r: Vec<u8>)
        ensures
            r@ == self.bytes(),
    {
        match self {
            DType::Bool(n) => vec![0, 0, n.to_byte()],
            DType::Primitive(ptype, n) => vec![1, ptype.to_byte(), n.to_byte()],
            DType::Utf8(n) => vec![2, 0, n.to_byte()],
            DType::Binary(n) => vec![3, 0, n.to_byte()],
        }
    }
}

/// Two types have the same serialised form just where they are the same.
pub proof fn law_bytes_tell_types_apart(a: DType, b: DType)
    ensures
        a.bytes() == b.bytes() <==> a == b,
{
    if a.bytes() == b.bytes() {
        assert(a.bytes()[0] == b.bytes()[0]);
        assert(a.bytes()[1] == b.bytes()[1]);
        assert(a.bytes()[2] == b.bytes()[2]);
    }
}

} // verus!
