//! The type system and the interned [`TypeStore`].
//!
//! Every type used by the IR is interned: structurally identical types share
//! one [`TypeId`], so type equality is an index comparison.

use vstd::prelude::*;
use vstd::utf8::*;
use vstd::string::StringSliceAdditionalSpecFns;

use crate::id::TypeId;
use crate::textbuf::{dec_digits, into_string, lemma_ascii_utf8, push_dec, push_str};

verus! {

broadcast use {vstd::utf8::valid_utf8_concat, vstd::utf8::encode_utf8_valid_utf8};

/// Float kinds.
#[derive(Debug, Clone, Copy, PartialEq, Eq, Structural, Hash)]
pub enum FloatKind {
    /// IEEE 754 binary32.
    F32,
    /// IEEE 754 binary64.
    F64,
}

impl FloatKind {
    /// Width of the float format in bits.
    pub fn bits(self) -> (r: u32)
        ensures
            r == (match self {
                FloatKind::F32 => 32u32,
                FloatKind::F64 => 64u32,
            }),
    {
        match self {
            FloatKind::F32 => 32,
            FloatKind::F64 => 64,
        }
    }
}

/// A structural description of a type. Always interned through a
/// [`TypeStore`] and referenced by [`TypeId`].
#[derive(Debug, Clone, PartialEq, Eq, Hash)]
pub enum TypeData {
    /// The empty type; only valid as a function result type.
    Void,
    /// Integer type with an exact bit width; `i1` is the unsigned boolean.
    Int {
        /// Bit width.
        bits: u32,
        /// Whether arithmetic and comparisons treat the value as signed.
        signed: bool,
    },
    /// Floating point type.
    Float(FloatKind),
    /// Pointer type carrying its pointee type.
    Pointer {
        /// Type pointed to.
        pointee: TypeId,
        /// Address space index (0 = default).
        address_space: u32,
    },
    /// Fixed-size array type.
    Array {
        /// Element type.
        element: TypeId,
        /// Element count.
        length: u64,
    },
    /// Anonymous structural struct type.
    Struct {
        /// Field types, in order.
        fields: Vec<TypeId>,
    },
    /// Function signature type.
    Function {
        /// Parameter types.
        params: Vec<TypeId>,
        /// Whether extra arguments of any first-class type may be appended.
        variadic: bool,
        /// Result type (may be `void`).
        result: TypeId,
    },
}

/// Structural equality of two type descriptions (vectors compared by their
/// contents).
pub open spec fn same_type(a: TypeData, b: TypeData) -> bool {
    match (a, b) {
        (TypeData::Void, TypeData::Void) => true,
        (TypeData::Int { bits: b1, signed: s1 }, TypeData::Int { bits: b2, signed: s2 }) => b1
            == b2 && s1 == s2,
        (TypeData::Float(k1), TypeData::Float(k2)) => k1 == k2,
        (
            TypeData::Pointer { pointee: p1, address_space: a1 },
            TypeData::Pointer { pointee: p2, address_space: a2 },
        ) => p1 == p2 && a1 == a2,
        (
            TypeData::Array { element: e1, length: l1 },
            TypeData::Array { element: e2, length: l2 },
        ) => e1 == e2 && l1 == l2,
        (TypeData::Struct { fields: f1 }, TypeData::Struct { fields: f2 }) => f1@ == f2@,
        (
            TypeData::Function { params: p1, variadic: v1, result: r1 },
            TypeData::Function { params: p2, variadic: v2, result: r2 },
        ) => p1@ == p2@ && v1 == v2 && r1 == r2,
        _ => false,
    }
}

/// Integer type (including `i1`).
pub open spec fn spec_is_integer(d: TypeData) -> bool {
    d is Int
}

/// Integer of at least 8 bits.
pub open spec fn spec_is_arith_integer(d: TypeData) -> bool {
    d matches TypeData::Int { bits, .. } && bits >= 8
}

/// Float type.
pub open spec fn spec_is_float(d: TypeData) -> bool {
    d is Float
}

/// Pointer type.
pub open spec fn spec_is_pointer(d: TypeData) -> bool {
    d is Pointer
}

/// Struct or array type.
pub open spec fn spec_is_aggregate(d: TypeData) -> bool {
    d is Struct || d is Array
}

/// Types that can live in SSA values and memory.
pub open spec fn spec_is_first_class(d: TypeData) -> bool {
    spec_is_integer(d) || spec_is_float(d) || spec_is_pointer(d) || spec_is_aggregate(d)
}

fn same_ids(a: &Vec<TypeId>, b: &Vec<TypeId>) -> (r: bool)
    ensures
        r == (a@ == b@),
{
    if a.len() != b.len() {
        return false;
    }
    let mut i: usize = 0;
    while i < a.len()
        invariant
            a@.len() == b@.len(),
            i <= a@.len(),
            forall|j: int| 0 <= j < i ==> a@[j] == b@[j],
        decreases a@.len() - i,
    {
        if a[i].0 != b[i].0 {
            return false;
        }
        i = i + 1;
    }
    proof {
        assert(a@ =~= b@);
    }
    true
}

impl TypeData {
    /// Structural equality with another description.
    pub fn same(&self, other: &TypeData) -> (r: bool)
        ensures
            r == same_type(*self, *other),
    {
        match (self, other) {
            (TypeData::Void, TypeData::Void) => true,
            (TypeData::Int { bits: b1, signed: s1 }, TypeData::Int { bits: b2, signed: s2 }) => *b1
                == *b2 && *s1 == *s2,
            (TypeData::Float(k1), TypeData::Float(k2)) => match (k1, k2) {
                (FloatKind::F32, FloatKind::F32) => true,
                (FloatKind::F64, FloatKind::F64) => true,
                _ => false,
            },
            (
                TypeData::Pointer { pointee: p1, address_space: a1 },
                TypeData::Pointer { pointee: p2, address_space: a2 },
            ) => p1.0 == p2.0 && *a1 == *a2,
            (
                TypeData::Array { element: e1, length: l1 },
                TypeData::Array { element: e2, length: l2 },
            ) => e1.0 == e2.0 && *l1 == *l2,
            (TypeData::Struct { fields: f1 }, TypeData::Struct { fields: f2 }) => same_ids(f1, f2),
            (
                TypeData::Function { params: p1, variadic: v1, result: r1 },
                TypeData::Function { params: p2, variadic: v2, result: r2 },
            ) => *v1 == *v2 && r1.0 == r2.0 && same_ids(p1, p2),
            _ => false,
        }
    }

    /// A structurally identical copy.
    pub fn copy_data(&self) -> (r: TypeData)
        ensures
            r == *self || same_type(r, *self),
            same_type(r, *self),
    {
        match self {
            TypeData::Void => TypeData::Void,
            TypeData::Int { bits, signed } => TypeData::Int { bits: *bits, signed: *signed },
            TypeData::Float(k) => TypeData::Float(*k),
            TypeData::Pointer { pointee, address_space } => TypeData::Pointer {
                pointee: *pointee,
                address_space: *address_space,
            },
            TypeData::Array { element, length } => TypeData::Array {
                element: *element,
                length: *length,
            },
            TypeData::Struct { fields } => TypeData::Struct { fields: copy_ids(fields) },
            TypeData::Function { params, variadic, result } => TypeData::Function {
                params: copy_ids(params),
                variadic: *variadic,
                result: *result,
            },
        }
    }

    /// Returns true for any integer type (including `i1`).
    pub fn is_integer(&self) -> (r: bool)
        ensures
            r == spec_is_integer(*self),
    {
        matches!(self, TypeData::Int { .. })
    }

    /// Returns true for integers of at least 8 bits (arithmetically usable).
    pub fn is_arith_integer(&self) -> (r: bool)
        ensures
            r == spec_is_arith_integer(*self),
    {
        match self {
            TypeData::Int { bits, .. } => *bits >= 8,
            _ => false,
        }
    }

    /// Returns true for float types.
    pub fn is_float(&self) -> (r: bool)
        ensures
            r == spec_is_float(*self),
    {
        matches!(self, TypeData::Float(_))
    }

    /// Returns true for pointer types.
    pub fn is_pointer(&self) -> (r: bool)
        ensures
            r == spec_is_pointer(*self),
    {
        matches!(self, TypeData::Pointer { .. })
    }

    /// Returns true for struct and array types.
    pub fn is_aggregate(&self) -> (r: bool)
        ensures
            r == spec_is_aggregate(*self),
    {
        matches!(self, TypeData::Struct { .. } | TypeData::Array { .. })
    }

    /// Returns true for function signature types.
    pub fn is_function(&self) -> (r: bool)
        ensures
            r == (*self is Function),
    {
        matches!(self, TypeData::Function { .. })
    }

    /// Returns true for `void`.
    pub fn is_void(&self) -> (r: bool)
        ensures
            r == (*self is Void),
    {
        matches!(self, TypeData::Void)
    }

    /// Integers, floats, pointers and aggregates: the types that can live in
    /// SSA values and memory.
    pub fn is_first_class(&self) -> (r: bool)
        ensures
            r == spec_is_first_class(*self),
    {
        self.is_integer() || self.is_float() || self.is_pointer() || self.is_aggregate()
    }

    /// Bit width if this is an integer type.
    pub fn int_bits(&self) -> (r: Option<u32>)
        ensures
            r == (match *self {
                TypeData::Int { bits, .. } => Some(bits),
                _ => None,
            }),
    {
        match self {
            TypeData::Int { bits, .. } => Some(*bits),
            _ => None,
        }
    }

    /// Signedness if this is an integer type wider than `i1`.
    pub fn is_signed_int(&self) -> (r: Option<bool>)
        ensures
            r == (match *self {
                TypeData::Int { bits, signed } => if bits > 1 {
                    Some(signed)
                } else {
                    None
                },
                _ => None,
            }),
    {
        match self {
            TypeData::Int { signed, bits } => if *bits > 1 {
                Some(*signed)
            } else {
                None
            },
            _ => None,
        }
    }
}

/// Copies a list of type ids.
pub fn copy_ids(v: &Vec<TypeId>) -> (r: Vec<TypeId>)
    ensures
        r@ == v@,
{
    let mut out: Vec<TypeId> = Vec::new();
    let mut i: usize = 0;
    while i < v.len()
        invariant
            i <= v@.len(),
            out@ == v@.subrange(0, i as int),
        decreases v@.len() - i,
    {
        out.push(v[i]);
        i = i + 1;
        proof {
            assert(out@ =~= v@.subrange(0, i as int));
        }
    }
    proof {
        assert(v@.subrange(0, v@.len() as int) =~= v@);
    }
    out
}

/// The scalar types every store starts with, in the order of the
/// `TypeId` scalar constructors (`VOID` .. `F64`).
pub open spec fn scalar_types() -> Seq<TypeData> {
    seq![
        TypeData::Void,
        TypeData::Int { bits: 1, signed: false },
        TypeData::Int { bits: 8, signed: true },
        TypeData::Int { bits: 16, signed: true },
        TypeData::Int { bits: 32, signed: true },
        TypeData::Int { bits: 64, signed: true },
        TypeData::Int { bits: 128, signed: true },
        TypeData::Int { bits: 8, signed: false },
        TypeData::Int { bits: 16, signed: false },
        TypeData::Int { bits: 32, signed: false },
        TypeData::Int { bits: 64, signed: false },
        TypeData::Int { bits: 128, signed: false },
        TypeData::Float(FloatKind::F32),
        TypeData::Float(FloatKind::F64),
    ]
}

/// `data` is first found at index `i` of `types`.
pub open spec fn first_type_index(types: Seq<TypeData>, data: TypeData, i: int) -> bool {
    &&& 0 <= i < types.len()
    &&& same_type(types[i], data)
    &&& forall|j: int| 0 <= j < i ==> !same_type(types[j], data)
}

/// `data` occurs somewhere in `types`.
pub open spec fn type_present(types: Seq<TypeData>, data: TypeData) -> bool {
    exists|j: int| 0 <= j < types.len() && same_type(types[j], data)
}

/// Effect of interning `data` into `old`, yielding `new` and `id`: an
/// existing structurally equal entry is reused (the first one), otherwise
/// `data` is appended.
pub open spec fn interned(old: Seq<TypeData>, data: TypeData, new: Seq<TypeData>, id: TypeId) -> bool {
    &&& type_present(old, data) ==> {
        &&& new == old
        &&& exists|j: int| first_type_index(old, data, j) && id.0 == j as u32
    }
    &&& !type_present(old, data) ==> {
        &&& new == old.push(data)
        &&& id.0 == old.len() as u32
    }
}

/// Interning is idempotent: interning a type a second time returns the same
/// id and leaves the store unchanged.
pub proof fn law_type_intern_idempotent(
    old: Seq<TypeData>,
    data: TypeData,
    mid: Seq<TypeData>,
    first: TypeId,
    new: Seq<TypeData>,
    second: TypeId,
)
    requires
        interned(old, data, mid, first),
        interned(mid, data, new, second),
    ensures
        new == mid,
        second == first,
{
    assert(same_type(data, data));
    if type_present(old, data) {
        let j = choose|j: int| first_type_index(old, data, j) && first.0 == j as u32;
        assert(type_present(mid, data));
        let k = choose|k: int| first_type_index(mid, data, k) && second.0 == k as u32;
        assert(j == k);
    } else {
        assert(same_type(mid[old.len() as int], data));
        assert(type_present(mid, data));
        let k = choose|k: int| first_type_index(mid, data, k) && second.0 == k as u32;
        assert(k == old.len());
    }
}

/// Interning `struct<fields>` into `old` gave `new` and `id`: the store
/// grew by at most one entry and, when ids fit, `id` names a struct with
/// exactly these fields.
pub open spec fn interned_struct(old: Seq<TypeData>, fields: Seq<TypeId>, new: Seq<TypeData>, id: TypeId) -> bool {
    &&& (new == old || (new.len() == old.len() + 1 && new.drop_last() == old))
    &&& new.len() <= old.len() + 1
    &&& old.len() < u32::MAX ==> ((id.0 as int) < new.len() && (new[id.0 as int] matches TypeData::Struct { fields: f } && f@ == fields))
}

/// Interning `fn(params) -> result` into `old` gave `new` and `id`: the
/// store grew by at most one entry and, when ids fit, `id` names exactly
/// this signature.
pub open spec fn interned_function(old: Seq<TypeData>, params: Seq<TypeId>, variadic: bool, result: TypeId, new: Seq<TypeData>, id: TypeId) -> bool {
    &&& (new == old || (new.len() == old.len() + 1 && new.drop_last() == old))
    &&& new.len() <= old.len() + 1
    &&& old.len() < u32::MAX ==> ((id.0 as int) < new.len() && (new[id.0 as int] matches TypeData::Function { params: p, variadic: v, result: res } && p@ == params && v == variadic && res == result))
}

/// Interning table for types. Entry `i` describes `TypeId(i)`.
#[derive(Debug, Clone, PartialEq, Eq)]
pub struct TypeStore {
    /// Interned type descriptions, indexed by type id.
    pub types: Vec<TypeData>,
}

impl TypeStore {
    /// Creates a store with all scalar types pre-interned, in the exact
    /// order of the `TypeId` scalar constructors.
    pub fn new() -> (r: Self)
        ensures
            r.types@ == scalar_types(),
    {
        let mut types: Vec<TypeData> = Vec::new();
        types.push(TypeData::Void);
        types.push(TypeData::Int { bits: 1, signed: false });
        types.push(TypeData::Int { bits: 8, signed: true });
        types.push(TypeData::Int { bits: 16, signed: true });
        types.push(TypeData::Int { bits: 32, signed: true });
        types.push(TypeData::Int { bits: 64, signed: true });
        types.push(TypeData::Int { bits: 128, signed: true });
        types.push(TypeData::Int { bits: 8, signed: false });
        types.push(TypeData::Int { bits: 16, signed: false });
        types.push(TypeData::Int { bits: 32, signed: false });
        types.push(TypeData::Int { bits: 64, signed: false });
        types.push(TypeData::Int { bits: 128, signed: false });
        types.push(TypeData::Float(FloatKind::F32));
        types.push(TypeData::Float(FloatKind::F64));
        proof {
            assert(types@ =~= scalar_types());
        }
        TypeStore { types }
    }

    /// Interns a type, returning its canonical [`TypeId`].
    pub fn intern(&mut self, data: TypeData) -> (r: TypeId)
        ensures
            interned(old(self).types@, data, final(self).types@, r),
    {
        let mut i: usize = 0;
        while i < self.types.len()
            invariant
                i <= self.types@.len(),
                forall|j: int| 0 <= j < i ==> !same_type(self.types@[j], data),
            decreases self.types@.len() - i,
        {
            if self.types[i].same(&data) {
                proof {
                    assert(first_type_index(self.types@, data, i as int));
                }
                return TypeId::new(#[verifier::truncate] (i as u32));
            }
            i = i + 1;
        }
        let id = TypeId::new(#[verifier::truncate] (self.types.len() as u32));
        self.types.push(data);
        id
    }

    /// Returns the structural data for `id`, or `None` if the ID is invalid.
    pub fn get(&self, id: TypeId) -> (r: Option<&TypeData>)
        ensures
            r == self.spec_get(id),
    {
        if id.index() < self.types.len() {
            Some(&self.types[id.index()])
        } else {
            None
        }
    }

    /// The description of `id`, if it exists.
    pub open spec fn spec_get(&self, id: TypeId) -> Option<&TypeData> {
        if (id.0 as int) < self.types@.len() {
            Some(&self.types@[id.0 as int])
        } else {
            None
        }
    }

    /// Number of interned types.
    pub fn len(&self) -> (r: usize)
        ensures
            r == self.types@.len(),
    {
        self.types.len()
    }

    /// Returns true when no types are interned (never true for a store
    /// created with [`TypeStore::new`]).
    pub fn is_empty(&self) -> (r: bool)
        ensures
            r == (self.types@.len() == 0),
    {
        self.types.len() == 0
    }

    /// Interns `ptr<pointee>` in address space 0.
    pub fn ptr(&mut self, pointee: TypeId) -> (r: TypeId)
        ensures
            interned(
                old(self).types@,
                TypeData::Pointer { pointee, address_space: 0 },
                final(self).types@,
                r,
            ),
    {
        self.ptr_in(pointee, 0)
    }

    /// Interns `ptr<pointee>` in a specific address space.
    pub fn ptr_in(&mut self, pointee: TypeId, address_space: u32) -> (r: TypeId)
        ensures
            interned(
                old(self).types@,
                TypeData::Pointer { pointee, address_space },
                final(self).types@,
                r,
            ),
    {
        self.intern(TypeData::Pointer { pointee, address_space })
    }

    /// Interns `array<element, length>`.
    pub fn array(&mut self, element: TypeId, length: u64) -> (r: TypeId)
        ensures
            interned(old(self).types@, TypeData::Array { element, length }, final(self).types@, r),
    {
        self.intern(TypeData::Array { element, length })
    }

    /// Interns `struct<...fields>`.
    pub fn struct_of(&mut self, fields: &[TypeId]) -> (r: TypeId)
        ensures
            interned_struct(old(self).types@, fields@, final(self).types@, r),
    {
        let v = slice_ids(fields);
        let ghost d = TypeData::Struct { fields: v };
        let r = self.intern(TypeData::Struct { fields: v });
        proof {
            if type_present(old(self).types@, d) {
                let j = choose|j: int| first_type_index(old(self).types@, d, j) && r.0 == j as u32;
                if old(self).types@.len() < u32::MAX {
                    assert(j as u32 == j);
                    assert(same_type(self.types@[j], d));
                }
            } else {
                assert(self.types@.drop_last() =~= old(self).types@);
                assert(self.types@[old(self).types@.len() as int] == d);
            }
        }
        r
    }

    /// Interns `fn(params...) -> result`.
    pub fn function(&mut self, params: &[TypeId], variadic: bool, result: TypeId) -> (r: TypeId)
        ensures
            interned_function(old(self).types@, params@, variadic, result, final(self).types@, r),
    {
        let v = slice_ids(params);
        let ghost d = TypeData::Function { params: v, variadic, result };
        let r = self.intern(TypeData::Function { params: v, variadic, result });
        proof {
            if type_present(old(self).types@, d) {
                let j = choose|j: int| first_type_index(old(self).types@, d, j) && r.0 == j as u32;
                if old(self).types@.len() < u32::MAX {
                    assert(j as u32 == j);
                    assert(same_type(self.types@[j], d));
                }
            } else {
                assert(self.types@.drop_last() =~= old(self).types@);
                assert(self.types@[old(self).types@.len() as int] == d);
            }
        }
        r
    }
}

/// Copies a slice of type ids into a vector.
pub fn slice_ids(s: &[TypeId]) -> (r: Vec<TypeId>)
    ensures
        r@ == s@,
{
    let mut out: Vec<TypeId> = Vec::new();
    let mut i: usize = 0;
    while i < s.len()
        invariant
            i <= s@.len(),
            out@ == s@.subrange(0, i as int),
        decreases s@.len() - i,
    {
        out.push(s[i]);
        i = i + 1;
        proof {
            assert(out@ =~= s@.subrange(0, i as int));
        }
    }
    proof {
        assert(s@.subrange(0, s@.len() as int) =~= s@);
    }
    out
}

/// Bytes of a string literal.
pub open spec fn lit(s: &str) -> Seq<u8> {
    s.spec_bytes()
}

/// Canonical ARN text of type `id` in `types`. A store may describe
/// cyclic types; `fuel` bounds the nesting depth, and a type whose
/// description cannot be reached within it prints as `<invalid-type>`,
/// like an unknown id.
pub open spec fn type_text(types: Seq<TypeData>, id: TypeId, fuel: nat) -> Seq<u8>
    decreases fuel, 0nat,
{
    if fuel == 0 || id.0 as int >= types.len() {
        lit("<invalid-type>")
    } else {
        let f = (fuel - 1) as nat;
        match types[id.0 as int] {
            TypeData::Void => lit("void"),
            TypeData::Int { bits, signed } => if bits == 1 {
                lit("i1")
            } else if signed {
                lit("i") + dec_digits(bits as nat)
            } else {
                lit("u") + dec_digits(bits as nat)
            },
            TypeData::Float(k) => match k {
                FloatKind::F32 => lit("f32"),
                FloatKind::F64 => lit("f64"),
            },
            TypeData::Pointer { pointee, address_space } => if address_space == 0 {
                lit("ptr<") + type_text(types, pointee, f) + lit(">")
            } else {
                lit("ptr<") + type_text(types, pointee, f) + lit(", ") + dec_digits(
                    address_space as nat,
                ) + lit(">")
            },
            TypeData::Array { element, length } => lit("array<") + type_text(types, element, f)
                + lit(", ") + dec_digits(length as nat) + lit(">"),
            TypeData::Struct { fields } => lit("struct<") + type_list_text(types, fields@, f)
                + lit(">"),
            TypeData::Function { params, variadic, result } => {
                let list = type_list_text(types, params@, f);
                let with_dots = if variadic {
                    if params@.len() == 0 {
                        lit("...")
                    } else {
                        list + lit(", ") + lit("...")
                    }
                } else {
                    list
                };
                lit("fn(") + with_dots + lit(") -> ") + type_text(types, result, f)
            },
        }
    }
}

/// Comma-separated texts of the types in `ids`.
pub open spec fn type_list_text(types: Seq<TypeData>, ids: Seq<TypeId>, fuel: nat) -> Seq<u8>
    decreases fuel, ids.len(),
{
    if ids.len() == 0 {
        Seq::empty()
    } else if ids.len() == 1 {
        type_text(types, ids[0], fuel)
    } else {
        type_list_text(types, ids.drop_last(), fuel) + lit(", ") + type_text(
            types,
            ids.last(),
            fuel,
        )
    }
}

/// Appends the text of type `id`.
#[verifier::rlimit(50)]
pub fn push_type(out: &mut Vec<u8>, store: &TypeStore, id: TypeId, fuel: u64)
    requires
        valid_utf8(old(out)@),
    ensures
        final(out)@ == old(out)@ + type_text(store.types@, id, fuel as nat),
        valid_utf8(final(out)@),
    decreases fuel, 0nat,
{
    if fuel == 0 || id.index() >= store.types.len() {
        push_str(out, "<invalid-type>");
        return ;
    }
    let f = fuel - 1;
    let ghost start = out@;
    match &store.types[id.index()] {
        TypeData::Void => push_str(out, "void"),
        TypeData::Int { bits, signed } => {
            if *bits == 1 {
                push_str(out, "i1");
            } else if *signed {
                push_str(out, "i");
                push_dec(out, *bits as u128);
            } else {
                push_str(out, "u");
                push_dec(out, *bits as u128);
            }
            proof {
                assert(out@ =~= start + type_text(store.types@, id, fuel as nat));
            }
        },
        TypeData::Float(k) => match k {
            FloatKind::F32 => push_str(out, "f32"),
            FloatKind::F64 => push_str(out, "f64"),
        },
        TypeData::Pointer { pointee, address_space } => {
            push_str(out, "ptr<");
            push_type(out, store, *pointee, f);
            if *address_space != 0 {
                push_str(out, ", ");
                push_dec(out, *address_space as u128);
            }
            push_str(out, ">");
            proof {
                assert(out@ =~= start + type_text(store.types@, id, fuel as nat));
            }
        },
        TypeData::Array { element, length } => {
            push_str(out, "array<");
            push_type(out, store, *element, f);
            push_str(out, ", ");
            push_dec(out, *length as u128);
            push_str(out, ">");
            proof {
                assert(out@ =~= start + type_text(store.types@, id, fuel as nat));
            }
        },
        TypeData::Struct { fields } => {
            push_str(out, "struct<");
            push_type_list(out, store, fields.as_slice(), f);
            push_str(out, ">");
            proof {
                assert(out@ =~= start + type_text(store.types@, id, fuel as nat));
            }
        },
        TypeData::Function { params, variadic, result } => {
            push_str(out, "fn(");
            push_type_list(out, store, params.as_slice(), f);
            if *variadic {
                if params.len() > 0 {
                    push_str(out, ", ");
                }
                push_str(out, "...");
            }
            push_str(out, ") -> ");
            push_type(out, store, *result, f);
            proof {
                assert(out@ =~= start + type_text(store.types@, id, fuel as nat));
            }
        },
    }
}

/// Appends the comma-separated texts of the types in `ids`.
pub fn push_type_list(out: &mut Vec<u8>, store: &TypeStore, ids: &[TypeId], fuel: u64)
    requires
        valid_utf8(old(out)@),
    ensures
        final(out)@ == old(out)@ + type_list_text(store.types@, ids@, fuel as nat),
        valid_utf8(final(out)@),
    decreases fuel, ids@.len(),
{
    let ghost start = out@;
    let mut i: usize = 0;
    while i < ids.len()
        invariant
            i <= ids@.len(),
            valid_utf8(out@),
            out@ == start + type_list_text(store.types@, ids@.subrange(0, i as int), fuel as nat),
        decreases ids@.len() - i,
    {
        let ghost before = out@;
        if i > 0 {
            push_str(out, ", ");
        }
        push_type(out, store, ids[i], fuel);
        proof {
            let pre = ids@.subrange(0, i as int);
            let next = ids@.subrange(0, i + 1);
            assert(next.drop_last() =~= pre);
            assert(next.last() == ids@[i as int]);
            if i == 0 {
                assert(pre.len() == 0);
                assert(out@ =~= start + type_list_text(store.types@, next, fuel as nat));
            } else {
                assert(out@ =~= start + type_list_text(store.types@, next, fuel as nat));
            }
        }
        i = i + 1;
    }
    proof {
        assert(ids@.subrange(0, ids@.len() as int) =~= ids@);
    }
}

/// Formats a type using the canonical ARN type syntax. Unknown ids print
/// as `<invalid-type>` so that diagnostics never fail on malformed input.
pub fn type_to_string(store: &TypeStore, id: TypeId) -> (r: String)
    ensures
        encode_utf8(r@) == type_text(store.types@, id, store.types@.len() as nat),
{
    let mut out: Vec<u8> = Vec::new();
    proof {
        lemma_ascii_utf8(Seq::<u8>::empty());
    }
    let fuel: u64 = store.types.len() as u64;
    push_type(&mut out, store, id, fuel);
    proof {
        assert(out@ =~= type_text(store.types@, id, store.types@.len() as nat));
    }
    into_string(out)
}

} // verus!
