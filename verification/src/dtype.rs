//! Element types.

use vstd::prelude::*;

use crate::error::Error;
use crate::text::cat2;

verus! {

/// The type of an array's elements.
#[derive(Clone, Copy, PartialEq, Eq, Structural, Debug)]
pub enum Dtype {
    Bool,
    Uint8,
    Uint16,
    Uint32,
    Int8,
    Int16,
    Int32,
    Int64,
    Float16,
    Float32,
    Float64,
    Bfloat16,
}

/// Bytes per element.
pub open spec fn width(d: Dtype) -> nat {
    match d {
        Dtype::Bool | Dtype::Uint8 | Dtype::Int8 => 1,
        Dtype::Uint16 | Dtype::Int16 | Dtype::Float16 | Dtype::Bfloat16 => 2,
        Dtype::Uint32 | Dtype::Int32 | Dtype::Float32 => 4,
        Dtype::Int64 | Dtype::Float64 => 8,
    }
}

/// Whether the type is a floating-point type.
pub open spec fn floating(d: Dtype) -> bool {
    d == Dtype::Float16 || d == Dtype::Float32 || d == Dtype::Float64 || d == Dtype::Bfloat16
}

/// The type's tag in the name of a kernel; types without a kernel of their own
/// share the one for bytes.
pub open spec fn tag_text(d: Dtype) -> Seq<char> {
    match d {
        Dtype::Bool | Dtype::Int8 | Dtype::Uint8 => "uint8"@,
        Dtype::Uint16 => "uint16"@,
        Dtype::Uint32 => "uint32"@,
        Dtype::Int16 => "int16"@,
        Dtype::Int32 => "int32"@,
        Dtype::Int64 => "int64"@,
        Dtype::Float16 => "float16"@,
        Dtype::Float32 => "float32"@,
        Dtype::Float64 => "double"@,
        Dtype::Bfloat16 => "bfloat16"@,
    }
}

/// The type's spelling in Metal source.
pub open spec fn metal_text(d: Dtype) -> Seq<char> {
    match d {
        Dtype::Bool | Dtype::Uint8 => "uint8_t"@,
        Dtype::Uint16 => "uint16_t"@,
        Dtype::Uint32 => "uint32_t"@,
        Dtype::Int8 => "int8_t"@,
        Dtype::Int16 => "int16_t"@,
        Dtype::Int32 => "int32_t"@,
        Dtype::Int64 => "int64_t"@,
        Dtype::Float16 => "float16_t"@,
        Dtype::Float32 => "float"@,
        Dtype::Float64 => "double"@,
        Dtype::Bfloat16 => "bfloat16_t"@,
    }
}

/// The type's own name.
pub open spec fn variant_text(d: Dtype) -> Seq<char> {
    match d {
        Dtype::Bool => "Bool"@,
        Dtype::Uint8 => "Uint8"@,
        Dtype::Uint16 => "Uint16"@,
        Dtype::Uint32 => "Uint32"@,
        Dtype::Int8 => "Int8"@,
        Dtype::Int16 => "Int16"@,
        Dtype::Int32 => "Int32"@,
        Dtype::Int64 => "Int64"@,
        Dtype::Float16 => "Float16"@,
        Dtype::Float32 => "Float32"@,
        Dtype::Float64 => "Float64"@,
        Dtype::Bfloat16 => "Bfloat16"@,
    }
}

/// The types that the generic kernels are instantiated on.
pub open spec fn compilable(d: Dtype) -> bool {
    d != Dtype::Bool && d != Dtype::Uint16 && d != Dtype::Int8
}

/// The type's position in the declaration.
pub open spec fn code_of(d: Dtype) -> u32 {
    match d {
        Dtype::Bool => 0,
        Dtype::Uint8 => 1,
        Dtype::Uint16 => 2,
        Dtype::Uint32 => 3,
        Dtype::Int8 => 4,
        Dtype::Int16 => 5,
        Dtype::Int32 => 6,
        Dtype::Int64 => 7,
        Dtype::Float16 => 8,
        Dtype::Float32 => 9,
        Dtype::Float64 => 10,
        Dtype::Bfloat16 => 11,
    }
}

/// How far a type reaches in a mixed operation: the wider operand wins.
pub open spec fn promotion_rank(d: Dtype) -> nat {
    match d {
        Dtype::Float64 => 6,
        Dtype::Float32 => 5,
        Dtype::Bfloat16 => 4,
        Dtype::Float16 => 3,
        Dtype::Int64 => 2,
        Dtype::Uint32 | Dtype::Int32 => 1,
        _ => 0,
    }
}

/// The common type of two operands: a floating-point type beats any other, and
/// within a class the higher rank wins, the left operand on a tie.
pub open spec fn promoted(a: Dtype, b: Dtype) -> Dtype {
    if floating(a) == floating(b) {
        if promotion_rank(a) >= promotion_rank(b) {
            a
        } else {
            b
        }
    } else if floating(a) {
        a
    } else {
        b
    }
}

impl Dtype {
    /// Bytes per element.
    pub fn size_of(self) -> (n: usize)
        ensures
            n == width(self),
            1 <= n <= 8,
    {
        match self {
            Dtype::Bool | Dtype::Uint8 | Dtype::Int8 => 1,
            Dtype::Uint16 | Dtype::Int16 | Dtype::Float16 | Dtype::Bfloat16 => 2,
            Dtype::Uint32 | Dtype::Int32 | Dtype::Float32 => 4,
            Dtype::Int64 | Dtype::Float64 => 8,
        }
    }

    /// Bytes per element.
    pub fn size_in_bytes(self) -> (n: usize)
        ensures
            n == width(self),
            1 <= n <= 8,
    {
        self.size_of()
    }

    /// Whether the type is a floating-point type.
    pub fn is_float(self) -> (b: bool)
        ensures
            b == floating(self),
    {
        matches!(self, Dtype::Float16 | Dtype::Float32 | Dtype::Float64 | Dtype::Bfloat16)
    }

    /// The type's tag in the name of a kernel.
    pub fn mlx_name(self) -> (s: &'static str)
        ensures
            s@ == tag_text(self),
    {
        match self {
            Dtype::Uint8 => "uint8",
            Dtype::Uint16 => "uint16",
            Dtype::Uint32 => "uint32",
            Dtype::Int16 => "int16",
            Dtype::Int32 => "int32",
            Dtype::Int64 => "int64",
            Dtype::Float16 => "float16",
            Dtype::Float32 => "float32",
            Dtype::Float64 => "double",
            Dtype::Bfloat16 => "bfloat16",
            Dtype::Bool | Dtype::Int8 => "uint8",
        }
    }

    /// The type's spelling in Metal source.
    pub fn metal_name(self) -> (s: &'static str)
        ensures
            s@ == metal_text(self),
    {
        match self {
            Dtype::Bool | Dtype::Uint8 => "uint8_t",
            Dtype::Uint16 => "uint16_t",
            Dtype::Uint32 => "uint32_t",
            Dtype::Int8 => "int8_t",
            Dtype::Int16 => "int16_t",
            Dtype::Int32 => "int32_t",
            Dtype::Int64 => "int64_t",
            Dtype::Float16 => "float16_t",
            Dtype::Float32 => "float",
            Dtype::Float64 => "double",
            Dtype::Bfloat16 => "bfloat16_t",
        }
    }

    /// The type's own name.
    pub fn variant_name(self) -> (s: &'static str)
        ensures
            s@ == variant_text(self),
    {
        match self {
            Dtype::Bool => "Bool",
            Dtype::Uint8 => "Uint8",
            Dtype::Uint16 => "Uint16",
            Dtype::Uint32 => "Uint32",
            Dtype::Int8 => "Int8",
            Dtype::Int16 => "Int16",
            Dtype::Int32 => "Int32",
            Dtype::Int64 => "Int64",
            Dtype::Float16 => "Float16",
            Dtype::Float32 => "Float32",
            Dtype::Float64 => "Float64",
            Dtype::Bfloat16 => "Bfloat16",
        }
    }

    /// The type's position in the declaration.
    pub fn code(self) -> (c: u32)
        ensures
            c == code_of(self),
    {
        match self {
            Dtype::Bool => 0,
            Dtype::Uint8 => 1,
            Dtype::Uint16 => 2,
            Dtype::Uint32 => 3,
            Dtype::Int8 => 4,
            Dtype::Int16 => 5,
            Dtype::Int32 => 6,
            Dtype::Int64 => 7,
            Dtype::Float16 => 8,
            Dtype::Float32 => 9,
            Dtype::Float64 => 10,
            Dtype::Bfloat16 => 11,
        }
    }
}

/// The tag of a type that the generic kernels are instantiated on.
pub fn type_to_name(dt: Dtype) -> (r: Result<&'static str, Error>)
    ensures
        r is Ok <==> compilable(dt),
        r matches Ok(s) ==> s@ == tag_text(dt),
        r matches Err(e) ==> e.text() == "type_to_name: unsupported "@ + variant_text(dt),
{
    match dt {
        Dtype::Bool | Dtype::Uint16 | Dtype::Int8 => Err(
            Error::Msg(cat2("type_to_name: unsupported ", dt.variant_name())),
        ),
        _ => Ok(dt.mlx_name()),
    }
}

/// The Metal spelling of a type that the generic kernels are instantiated on.
pub fn type_string(dt: Dtype) -> (r: Result<&'static str, Error>)
    ensures
        r is Ok <==> compilable(dt),
        r matches Ok(s) ==> s@ == metal_text(dt),
        r matches Err(e) ==> e.text() == "unsupported compilation type "@ + variant_text(dt),
{
    match dt {
        Dtype::Bool | Dtype::Uint16 | Dtype::Int8 => Err(
            Error::Msg(cat2("unsupported compilation type ", dt.variant_name())),
        ),
        _ => Ok(dt.metal_name()),
    }
}

fn rank_of(d: Dtype) -> (r: u8)
    ensures
        r == promotion_rank(d),
{
    match d {
        Dtype::Float64 => 6,
        Dtype::Float32 => 5,
        Dtype::Bfloat16 => 4,
        Dtype::Float16 => 3,
        Dtype::Int64 => 2,
        Dtype::Uint32 | Dtype::Int32 => 1,
        _ => 0,
    }
}

/// The common type of two operands.
pub fn promote(a: Dtype, b: Dtype) -> (r: Dtype)
    ensures
        r == promoted(a, b),
{
    if a == b {
        return a;
    }
    if a.is_float() == b.is_float() {
        if rank_of(a) >= rank_of(b) {
            a
        } else {
            b
        }
    } else if a.is_float() {
        a
    } else {
        b
    }
}

/// Promotion never leaves the two operands, keeps a type with itself, and gives
/// a floating-point type as soon as either operand is one.
pub proof fn promotion_picks_an_operand(a: Dtype, b: Dtype)
    ensures
        promoted(a, b) == a || promoted(a, b) == b,
        promoted(a, a) == a,
        floating(promoted(a, b)) == (floating(a) || floating(b)),
        promotion_rank(promoted(a, b)) >= promotion_rank(a) || floating(promoted(a, b)),
{
}

/// Two floating-point operands have the same common type in either order.
pub proof fn float_promotion_commutes(a: Dtype, b: Dtype)
    requires
        floating(a),
    ensures
        promoted(a, b) == promoted(b, a),
{
}

} // verus!
