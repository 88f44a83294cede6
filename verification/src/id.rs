//! Opaque numeric identifier newtypes used across the IR.
//!
//! Every entity is referenced through a small, `Copy`, strongly-typed index.
//! Distinct newtypes keep identifier spaces apart. IDs are untrusted: the
//! verifier is the component that guarantees every referenced ID exists.

use vstd::prelude::*;
use vstd::utf8::*;

use crate::textbuf::{dec_digits, lemma_ascii_utf8, push_ascii, push_dec, into_string};

verus! {

/// Text of an identifier: its prefix followed by the decimal index.
pub open spec fn id_text(prefix: Seq<u8>, index: u32) -> Seq<u8> {
    prefix + dec_digits(index as nat)
}

/// Identifies an interned type inside a `TypeStore`.
#[derive(Clone, Copy, PartialEq, Eq, Structural, Hash, PartialOrd, Ord, Debug)]
pub struct TypeId(pub u32);

impl TypeId {
    /// Creates an ID from a raw index. Existence is not guaranteed until the
    /// module passes the verifier.
    pub fn new(index: u32) -> (r: Self)
        ensures
            r.0 == index,
    {
        TypeId(index)
    }

    /// Returns the zero-based index of this ID.
    pub fn index(self) -> (r: usize)
        ensures
            r == self.0,
    {
        self.0 as usize
    }

    /// Returns the raw `u32` value.
    pub fn as_u32(self) -> (r: u32)
        ensures
            r == self.0,
    {
        self.0
    }

    /// Display text: `t` followed by the decimal index.
    pub fn to_string(self) -> (r: String)
        ensures
            encode_utf8(r@) == id_text(seq![116u8], self.0),
    {
        let mut out: Vec<u8> = Vec::new();
        proof {
            lemma_ascii_utf8(Seq::<u8>::empty());
        }
        push_ascii(&mut out, 116u8);
        push_dec(&mut out, self.0 as u128);
        proof {
            assert(out@ =~= id_text(seq![116u8], self.0));
        }
        into_string(out)
    }
}

/// Identifies an interned symbol name inside a `SymbolStore`.
#[derive(Clone, Copy, PartialEq, Eq, Structural, Hash, PartialOrd, Ord, Debug)]
pub struct SymbolId(pub u32);

impl SymbolId {
    /// Creates an ID from a raw index. Existence is not guaranteed until the
    /// module passes the verifier.
    pub fn new(index: u32) -> (r: Self)
        ensures
            r.0 == index,
    {
        SymbolId(index)
    }

    /// Returns the zero-based index of this ID.
    pub fn index(self) -> (r: usize)
        ensures
            r == self.0,
    {
        self.0 as usize
    }

    /// Returns the raw `u32` value.
    pub fn as_u32(self) -> (r: u32)
        ensures
            r == self.0,
    {
        self.0
    }

    /// Display text: `s` followed by the decimal index.
    pub fn to_string(self) -> (r: String)
        ensures
            encode_utf8(r@) == id_text(seq![115u8], self.0),
    {
        let mut out: Vec<u8> = Vec::new();
        proof {
            lemma_ascii_utf8(Seq::<u8>::empty());
        }
        push_ascii(&mut out, 115u8);
        push_dec(&mut out, self.0 as u128);
        proof {
            assert(out@ =~= id_text(seq![115u8], self.0));
        }
        into_string(out)
    }
}

/// Identifies a constant inside the module constant pool.
#[derive(Clone, Copy, PartialEq, Eq, Structural, Hash, PartialOrd, Ord, Debug)]
pub struct ConstantId(pub u32);

impl ConstantId {
    /// Creates an ID from a raw index. Existence is not guaranteed until the
    /// module passes the verifier.
    pub fn new(index: u32) -> (r: Self)
        ensures
            r.0 == index,
    {
        ConstantId(index)
    }

    /// Returns the zero-based index of this ID.
    pub fn index(self) -> (r: usize)
        ensures
            r == self.0,
    {
        self.0 as usize
    }

    /// Returns the raw `u32` value.
    pub fn as_u32(self) -> (r: u32)
        ensures
            r == self.0,
    {
        self.0
    }

    /// Display text: `c` followed by the decimal index.
    pub fn to_string(self) -> (r: String)
        ensures
            encode_utf8(r@) == id_text(seq![99u8], self.0),
    {
        let mut out: Vec<u8> = Vec::new();
        proof {
            lemma_ascii_utf8(Seq::<u8>::empty());
        }
        push_ascii(&mut out, 99u8);
        push_dec(&mut out, self.0 as u128);
        proof {
            assert(out@ =~= id_text(seq![99u8], self.0));
        }
        into_string(out)
    }
}

/// Identifies an SSA value inside a single function.
#[derive(Clone, Copy, PartialEq, Eq, Structural, Hash, PartialOrd, Ord, Debug)]
pub struct ValueId(pub u32);

impl ValueId {
    /// Creates an ID from a raw index. Existence is not guaranteed until the
    /// module passes the verifier.
    pub fn new(index: u32) -> (r: Self)
        ensures
            r.0 == index,
    {
        ValueId(index)
    }

    /// Returns the zero-based index of this ID.
    pub fn index(self) -> (r: usize)
        ensures
            r == self.0,
    {
        self.0 as usize
    }

    /// Returns the raw `u32` value.
    pub fn as_u32(self) -> (r: u32)
        ensures
            r == self.0,
    {
        self.0
    }

    /// Display text: `v` followed by the decimal index.
    pub fn to_string(self) -> (r: String)
        ensures
            encode_utf8(r@) == id_text(seq![118u8], self.0),
    {
        let mut out: Vec<u8> = Vec::new();
        proof {
            lemma_ascii_utf8(Seq::<u8>::empty());
        }
        push_ascii(&mut out, 118u8);
        push_dec(&mut out, self.0 as u128);
        proof {
            assert(out@ =~= id_text(seq![118u8], self.0));
        }
        into_string(out)
    }
}

/// Identifies a basic block inside a single function.
#[derive(Clone, Copy, PartialEq, Eq, Structural, Hash, PartialOrd, Ord, Debug)]
pub struct BlockId(pub u32);

impl BlockId {
    /// Creates an ID from a raw index. Existence is not guaranteed until the
    /// module passes the verifier.
    pub fn new(index: u32) -> (r: Self)
        ensures
            r.0 == index,
    {
        BlockId(index)
    }

    /// Returns the zero-based index of this ID.
    pub fn index(self) -> (r: usize)
        ensures
            r == self.0,
    {
        self.0 as usize
    }

    /// Returns the raw `u32` value.
    pub fn as_u32(self) -> (r: u32)
        ensures
            r == self.0,
    {
        self.0
    }

    /// Display text: `bb` followed by the decimal index.
    pub fn to_string(self) -> (r: String)
        ensures
            encode_utf8(r@) == id_text(seq![98u8, 98u8], self.0),
    {
        let mut out: Vec<u8> = Vec::new();
        proof {
            lemma_ascii_utf8(Seq::<u8>::empty());
        }
        push_ascii(&mut out, 98u8);
        push_ascii(&mut out, 98u8);
        push_dec(&mut out, self.0 as u128);
        proof {
            assert(out@ =~= id_text(seq![98u8, 98u8], self.0));
        }
        into_string(out)
    }
}

/// Identifies a function (definition or external declaration) in a module.
#[derive(Clone, Copy, PartialEq, Eq, Structural, Hash, PartialOrd, Ord, Debug)]
pub struct FunctionId(pub u32);

impl FunctionId {
    /// Creates an ID from a raw index. Existence is not guaranteed until the
    /// module passes the verifier.
    pub fn new(index: u32) -> (r: Self)
        ensures
            r.0 == index,
    {
        FunctionId(index)
    }

    /// Returns the zero-based index of this ID.
    pub fn index(self) -> (r: usize)
        ensures
            r == self.0,
    {
        self.0 as usize
    }

    /// Returns the raw `u32` value.
    pub fn as_u32(self) -> (r: u32)
        ensures
            r == self.0,
    {
        self.0
    }

    /// Display text: `f` followed by the decimal index.
    pub fn to_string(self) -> (r: String)
        ensures
            encode_utf8(r@) == id_text(seq![102u8], self.0),
    {
        let mut out: Vec<u8> = Vec::new();
        proof {
            lemma_ascii_utf8(Seq::<u8>::empty());
        }
        push_ascii(&mut out, 102u8);
        push_dec(&mut out, self.0 as u128);
        proof {
            assert(out@ =~= id_text(seq![102u8], self.0));
        }
        into_string(out)
    }
}

/// Reserved for future global variables (not yet part of the model).
#[derive(Clone, Copy, PartialEq, Eq, Structural, Hash, PartialOrd, Ord, Debug)]
pub struct GlobalId(pub u32);

impl GlobalId {
    /// Creates an ID from a raw index. Existence is not guaranteed until the
    /// module passes the verifier.
    pub fn new(index: u32) -> (r: Self)
        ensures
            r.0 == index,
    {
        GlobalId(index)
    }

    /// Returns the zero-based index of this ID.
    pub fn index(self) -> (r: usize)
        ensures
            r == self.0,
    {
        self.0 as usize
    }

    /// Returns the raw `u32` value.
    pub fn as_u32(self) -> (r: u32)
        ensures
            r == self.0,
    {
        self.0
    }

    /// Display text: `g` followed by the decimal index.
    pub fn to_string(self) -> (r: String)
        ensures
            encode_utf8(r@) == id_text(seq![103u8], self.0),
    {
        let mut out: Vec<u8> = Vec::new();
        proof {
            lemma_ascii_utf8(Seq::<u8>::empty());
        }
        push_ascii(&mut out, 103u8);
        push_dec(&mut out, self.0 as u128);
        proof {
            assert(out@ =~= id_text(seq![103u8], self.0));
        }
        into_string(out)
    }
}

/// Reserved for future metadata nodes (not yet part of the model).
#[derive(Clone, Copy, PartialEq, Eq, Structural, Hash, PartialOrd, Ord, Debug)]
pub struct MetadataId(pub u32);

impl MetadataId {
    /// Creates an ID from a raw index. Existence is not guaranteed until the
    /// module passes the verifier.
    pub fn new(index: u32) -> (r: Self)
        ensures
            r.0 == index,
    {
        MetadataId(index)
    }

    /// Returns the zero-based index of this ID.
    pub fn index(self) -> (r: usize)
        ensures
            r == self.0,
    {
        self.0 as usize
    }

    /// Returns the raw `u32` value.
    pub fn as_u32(self) -> (r: u32)
        ensures
            r == self.0,
    {
        self.0
    }

    /// Display text: `m` followed by the decimal index.
    pub fn to_string(self) -> (r: String)
        ensures
            encode_utf8(r@) == id_text(seq![109u8], self.0),
    {
        let mut out: Vec<u8> = Vec::new();
        proof {
            lemma_ascii_utf8(Seq::<u8>::empty());
        }
        push_ascii(&mut out, 109u8);
        push_dec(&mut out, self.0 as u128);
        proof {
            assert(out@ =~= id_text(seq![109u8], self.0));
        }
        into_string(out)
    }
}

/// Scalar types pre-interned by every `TypeStore`, in exactly this order.
impl TypeId {
    /// The empty type.
    #[allow(non_snake_case)]
    #[verifier::allow_in_spec]
    pub fn VOID() -> TypeId
        returns
            TypeId(0u32),
    {
        TypeId(0u32)
    }
    /// The boolean type (`i1`).
    #[allow(non_snake_case)]
    #[verifier::allow_in_spec]
    pub fn I1() -> TypeId
        returns
            TypeId(1u32),
    {
        TypeId(1u32)
    }
    /// The `i8` type.
    #[allow(non_snake_case)]
    #[verifier::allow_in_spec]
    pub fn I8() -> TypeId
        returns
            TypeId(2u32),
    {
        TypeId(2u32)
    }
    /// The `i16` type.
    #[allow(non_snake_case)]
    #[verifier::allow_in_spec]
    pub fn I16() -> TypeId
        returns
            TypeId(3u32),
    {
        TypeId(3u32)
    }
    /// The `i32` type.
    #[allow(non_snake_case)]
    #[verifier::allow_in_spec]
    pub fn I32() -> TypeId
        returns
            TypeId(4u32),
    {
        TypeId(4u32)
    }
    /// The `i64` type.
    #[allow(non_snake_case)]
    #[verifier::allow_in_spec]
    pub fn I64() -> TypeId
        returns
            TypeId(5u32),
    {
        TypeId(5u32)
    }
    /// The `i128` type.
    #[allow(non_snake_case)]
    #[verifier::allow_in_spec]
    pub fn I128() -> TypeId
        returns
            TypeId(6u32),
    {
        TypeId(6u32)
    }
    /// The `u8` type.
    #[allow(non_snake_case)]
    #[verifier::allow_in_spec]
    pub fn U8() -> TypeId
        returns
            TypeId(7u32),
    {
        TypeId(7u32)
    }
    /// The `u16` type.
    #[allow(non_snake_case)]
    #[verifier::allow_in_spec]
    pub fn U16() -> TypeId
        returns
            TypeId(8u32),
    {
        TypeId(8u32)
    }
    /// The `u32` type.
    #[allow(non_snake_case)]
    #[verifier::allow_in_spec]
    pub fn U32() -> TypeId
        returns
            TypeId(9u32),
    {
        TypeId(9u32)
    }
    /// The `u64` type.
    #[allow(non_snake_case)]
    #[verifier::allow_in_spec]
    pub fn U64() -> TypeId
        returns
            TypeId(10u32),
    {
        TypeId(10u32)
    }
    /// The `u128` type.
    #[allow(non_snake_case)]
    #[verifier::allow_in_spec]
    pub fn U128() -> TypeId
        returns
            TypeId(11u32),
    {
        TypeId(11u32)
    }
    /// The IEEE binary32 type.
    #[allow(non_snake_case)]
    #[verifier::allow_in_spec]
    pub fn F32() -> TypeId
        returns
            TypeId(12u32),
    {
        TypeId(12u32)
    }
    /// The IEEE binary64 type.
    #[allow(non_snake_case)]
    #[verifier::allow_in_spec]
    pub fn F64() -> TypeId
        returns
            TypeId(13u32),
    {
        TypeId(13u32)
    }
}

} // verus!
