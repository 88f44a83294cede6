//! Memory layout of IR types on x86-64 (System V AMD64).
//!
//! Every SSA value lives in a stack slot, so a value's size and alignment
//! fully determine how it is moved into and out of memory. Aggregates use a
//! C-like layout (each field aligned to its own alignment, the aggregate
//! padded to its alignment), which keeps `alloca`/`load`/`store`/
//! `construct`/`extract`/`insert` consistent with aggregate constants.
//!
//! This module also decides which types the backend supports at all:
//! `i128`/`u128` are rejected with a structured error rather than lowered
//! incorrectly.
//!
//! A type store may describe cyclic types; the recursion over a type's
//! description is bounded by the number of types in the store, and a type
//! whose description cannot be reached within that bound is treated like
//! an unknown one.

use vstd::prelude::*;
use vstd::utf8::*;

use crate::id::TypeId;
use crate::nasm::error::BackendError;
use crate::textbuf::{concat_strs, dec_string};
use crate::types::{type_text, type_to_string, FloatKind, TypeData, TypeStore};

verus! {

/// Size of a pointer on x86-64.
pub const POINTER_SIZE: u64 = 8;

/// Alignment of a pointer on x86-64.
pub const POINTER_ALIGN: u64 = 8;

/// `a` is a power of two.
pub open spec fn is_power_of_two(a: u64) -> bool {
    a != 0 && a & ((a - 1) as u64) == 0
}

/// `v` rounded up to the next multiple of `a`.
pub open spec fn spec_align_up(v: int, a: int) -> int {
    ((v + a - 1) / a) * a
}

/// Rounds `value` up to the next multiple of `align` (`align` a power of
/// two). Returns `None` when the aligned value would overflow.
pub fn align_up(value: u64, align: u64) -> (r: Option<u64>)
    requires
        is_power_of_two(align),
    ensures
        r is None <==> value + align - 1 > u64::MAX,
        r matches Some(v) ==> v == spec_align_up(value as int, align as int),
{
    match value.checked_add(align - 1) {
        Some(s) => {
            let rounded = s - s % align;
            proof {
                let q = s / align;
                assert(s == q * align + s % align) by (nonlinear_arith)
                    requires
                        align > 0,
                        q == s / align,
                ;
            }
            Some(rounded)
        },
        None => None,
    }
}

/// Bytes an integer of `bits` width occupies: at least one.
pub open spec fn spec_int_bytes(bits: u32) -> int {
    let b = (bits + 7) / 8;
    if b == 0 {
        1
    } else {
        b
    }
}

/// Number of bytes an integer of `bits` width occupies (at least one byte).
pub fn int_bytes(bits: u32) -> (r: u64)
    ensures
        r == spec_int_bytes(bits),
{
    let b = (bits as u64 + 7) / 8;
    if b == 0 {
        1
    } else {
        b
    }
}

/// Natural alignment of an integer of `bits` width.
pub open spec fn spec_int_align(bits: u32) -> int {
    if bits <= 8 {
        1
    } else if bits <= 16 {
        2
    } else if bits <= 32 {
        4
    } else if bits <= 64 {
        8
    } else {
        16
    }
}

/// An integer is aligned to the smallest power of two that holds its
/// bytes: the alignment is a power of two, at least the size, and less
/// than twice the size (so an integer whose size is a power of two, such as
/// `i16`, is aligned to exactly its size), for every width up to 128 bits.
pub proof fn lemma_int_align_natural(bits: u32)
    requires
        bits <= 128,
    ensures
        spec_int_align(bits) == 1 || spec_int_align(bits) == 2 || spec_int_align(bits) == 4 || spec_int_align(bits) == 8
            || spec_int_align(bits) == 16,
        spec_int_bytes(bits) <= spec_int_align(bits) < 2 * spec_int_bytes(bits),
        bits == 8 || bits == 16 || bits == 32 || bits == 64 || bits == 128 ==> spec_int_align(bits) == spec_int_bytes(bits),
{
}

/// Natural alignment of an integer of `bits` width.
pub fn int_align(bits: u32) -> (r: u64)
    ensures
        r == spec_int_align(bits),
{
    if bits <= 8 {
        1
    } else if bits <= 16 {
        2
    } else if bits <= 32 {
        4
    } else if bits <= 64 {
        8
    } else {
        16
    }
}

/// One of the alignments a layout can produce.
pub open spec fn is_layout_align(a: int) -> bool {
    a == 1 || a == 2 || a == 4 || a == 8 || a == 16
}

pub proof fn lemma_layout_align_pow2(a: u64)
    requires
        is_layout_align(a as int),
    ensures
        is_power_of_two(a),
{
    if a == 1 {
        assert(1u64 & 0u64 == 0) by (bit_vector);
    } else if a == 2 {
        assert(2u64 & 1u64 == 0) by (bit_vector);
    } else if a == 4 {
        assert(4u64 & 3u64 == 0) by (bit_vector);
    } else if a == 8 {
        assert(8u64 & 7u64 == 0) by (bit_vector);
    } else {
        assert(16u64 & 15u64 == 0) by (bit_vector);
    }
}

/// The backend can represent type `ty`: integers of width 1, 8, 16, 32 or
/// 64, floats, pointers (whatever they point to), and arrays and structs
/// of supported types; not `void`, 128-bit integers or signatures.
pub open spec fn spec_supported(types: Seq<TypeData>, ty: TypeId, fuel: nat) -> bool
    decreases fuel, 0nat, 0nat,
{
    if fuel == 0 || ty.0 as int >= types.len() {
        false
    } else {
        match types[ty.0 as int] {
            TypeData::Void => false,
            TypeData::Int { bits, .. } => bits == 1 || bits == 8 || bits == 16 || bits == 32 || bits == 64,
            TypeData::Float(_) => true,
            TypeData::Pointer { .. } => true,
            TypeData::Array { element, .. } => spec_supported(types, element, (fuel - 1) as nat),
            TypeData::Struct { fields } => all_supported(types, fields@, (fuel - 1) as nat),
            TypeData::Function { .. } => false,
        }
    }
}

/// Every type in `tys` is supported.
pub open spec fn all_supported(types: Seq<TypeData>, tys: Seq<TypeId>, fuel: nat) -> bool
    decreases fuel, 1nat, tys.len(),
{
    if tys.len() == 0 {
        true
    } else {
        all_supported(types, tys.drop_last(), fuel) && spec_supported(types, tys.last(), fuel)
    }
}

/// Size in bytes of type `ty`; `None` when it has none or it overflows.
pub open spec fn spec_size(types: Seq<TypeData>, ty: TypeId, fuel: nat) -> Option<int>
    decreases fuel, 0nat, 0nat,
{
    if fuel == 0 || ty.0 as int >= types.len() {
        None
    } else {
        match types[ty.0 as int] {
            TypeData::Void => Some(0),
            TypeData::Int { bits, .. } => Some(spec_int_bytes(bits)),
            TypeData::Float(FloatKind::F32) => Some(4),
            TypeData::Float(FloatKind::F64) => Some(8),
            TypeData::Pointer { .. } => Some(8),
            TypeData::Array { element, length } => match spec_size(types, element, (fuel - 1) as nat) {
                Some(e) => if e * length <= u64::MAX {
                    Some(e * length)
                } else {
                    None
                },
                None => None,
            },
            TypeData::Struct { fields } => match spec_struct(types, fields@, (fuel - 1) as nat) {
                Some((end, align)) => if end + align - 1 <= u64::MAX {
                    Some(spec_align_up(end, align))
                } else {
                    None
                },
                None => None,
            },
            TypeData::Function { .. } => None,
        }
    }
}

/// Alignment in bytes of type `ty`; `None` when it has none.
pub open spec fn spec_align(types: Seq<TypeData>, ty: TypeId, fuel: nat) -> Option<int>
    decreases fuel, 0nat, 0nat,
{
    if fuel == 0 || ty.0 as int >= types.len() {
        None
    } else {
        match types[ty.0 as int] {
            TypeData::Void => Some(1),
            TypeData::Int { bits, .. } => Some(spec_int_align(bits)),
            TypeData::Float(FloatKind::F32) => Some(4),
            TypeData::Float(FloatKind::F64) => Some(8),
            TypeData::Pointer { .. } => Some(8),
            TypeData::Array { element, .. } => spec_align(types, element, (fuel - 1) as nat),
            TypeData::Struct { fields } => match spec_struct(types, fields@, (fuel - 1) as nat) {
                Some((end, align)) => if end + align - 1 <= u64::MAX {
                    Some(align)
                } else {
                    None
                },
                None => None,
            },
            TypeData::Function { .. } => None,
        }
    }
}

/// Lays out `fields` one after the other, each at its own alignment:
/// the offset just past the last field and the largest alignment (1 for
/// no fields); `None` when a field has no layout or an offset overflows.
pub open spec fn spec_struct(types: Seq<TypeData>, fields: Seq<TypeId>, fuel: nat) -> Option<(int, int)>
    decreases fuel, 1nat, fields.len(),
{
    if fields.len() == 0 {
        Some((0, 1))
    } else {
        match spec_struct(types, fields.drop_last(), fuel) {
            Some((end, align)) => match (
                spec_align(types, fields.last(), fuel),
                spec_size(types, fields.last(), fuel),
            ) {
                (Some(fa), Some(fs)) => {
                    let start = spec_align_up(end, fa);
                    if end + fa - 1 <= u64::MAX && start + fs <= u64::MAX {
                        Some((start + fs, if fa > align { fa } else { align }))
                    } else {
                        None
                    }
                },
                _ => None,
            },
            None => None,
        }
    }
}

pub proof fn lemma_align_values(types: Seq<TypeData>, ty: TypeId, fuel: nat)
    ensures
        spec_align(types, ty, fuel) matches Some(a) ==> is_layout_align(a),
    decreases fuel, 0nat, 0nat,
{
    if fuel > 0 && (ty.0 as int) < types.len() {
        match types[ty.0 as int] {
            TypeData::Array { element, .. } => lemma_align_values(types, element, (fuel - 1) as nat),
            TypeData::Struct { fields } => lemma_struct_align_values(types, fields@, (fuel - 1) as nat),
            _ => {},
        }
    }
}

proof fn lemma_struct_align_values(types: Seq<TypeData>, fields: Seq<TypeId>, fuel: nat)
    ensures
        spec_struct(types, fields, fuel) matches Some((end, a)) ==> is_layout_align(a) && 0 <= end <= u64::MAX,
    decreases fuel, 1nat, fields.len(),
{
    if fields.len() > 0 {
        lemma_struct_align_values(types, fields.drop_last(), fuel);
        lemma_align_values(types, fields.last(), fuel);
        lemma_size_nonneg(types, fields.last(), fuel);
        if let Some((end, a)) = spec_struct(types, fields.drop_last(), fuel) {
            if let Some(fa) = spec_align(types, fields.last(), fuel) {
                lemma_align_up_bounds(end, fa);
            }
        }
    }
}

proof fn lemma_size_nonneg(types: Seq<TypeData>, ty: TypeId, fuel: nat)
    ensures
        spec_size(types, ty, fuel) matches Some(s) ==> 0 <= s <= u64::MAX,
    decreases fuel, 0nat, 0nat,
{
    if fuel > 0 && (ty.0 as int) < types.len() {
        match types[ty.0 as int] {
            TypeData::Array { element, length } => {
                lemma_size_nonneg(types, element, (fuel - 1) as nat);
                if let Some(e) = spec_size(types, element, (fuel - 1) as nat) {
                    assert(0 <= e * length) by (nonlinear_arith)
                        requires
                            0 <= e,
                            0 <= length,
                    ;
                }
            },
            TypeData::Struct { fields } => {
                lemma_struct_align_values(types, fields@, (fuel - 1) as nat);
                if let Some((end, a)) = spec_struct(types, fields@, (fuel - 1) as nat) {
                    lemma_align_up_bounds(end, a);
                }
            },
            _ => {},
        }
    }
}

proof fn lemma_align_up_bounds(v: int, a: int)
    requires
        0 <= v,
        a > 0,
    ensures
        v <= spec_align_up(v, a) < v + a,
{
    let s = v + a - 1;
    let q = s / a;
    assert(s == q * a + s % a && 0 <= s % a < a) by (nonlinear_arith)
        requires
            a > 0,
            q == s / a,
    ;
}

proof fn lemma_struct_prefix_none(types: Seq<TypeData>, fields: Seq<TypeId>, k: int, fuel: nat)
    requires
        0 <= k <= fields.len(),
        spec_struct(types, fields.subrange(0, k), fuel) is None,
    ensures
        spec_struct(types, fields, fuel) is None,
    decreases fields.len() - k,
{
    if k < fields.len() {
        assert(fields.subrange(0, k + 1).drop_last() =~= fields.subrange(0, k));
        lemma_struct_prefix_none(types, fields, k + 1, fuel);
    } else {
        assert(fields.subrange(0, k) =~= fields);
    }
}

proof fn lemma_all_supported_prefix(types: Seq<TypeData>, tys: Seq<TypeId>, k: int, fuel: nat)
    requires
        0 <= k <= tys.len(),
        !all_supported(types, tys.subrange(0, k), fuel),
    ensures
        !all_supported(types, tys, fuel),
    decreases tys.len() - k,
{
    if k < tys.len() {
        assert(tys.subrange(0, k + 1).drop_last() =~= tys.subrange(0, k));
        lemma_all_supported_prefix(types, tys, k + 1, fuel);
    } else {
        assert(tys.subrange(0, k) =~= tys);
    }
}

/// Rounding up gives the least multiple of `a` that is at least `v`.
pub proof fn law_align_up(v: int, a: int)
    requires
        0 <= v,
        a > 0,
    ensures
        spec_align_up(v, a) % a == 0,
        v <= spec_align_up(v, a) < v + a,
{
    lemma_align_up_bounds(v, a);
    let q = (v + a - 1) / a;
    assert((q * a) % a == 0) by (nonlinear_arith)
        requires
            a > 0,
    ;
}

fn unsupported(ty: TypeId, store: &TypeStore, context: &str, reason: &str) -> (r: BackendError)
    ensures
        r matches BackendError::UnsupportedType { context: c, ty: t, reason: why } && c@ == context@
            && encode_utf8(t@) == type_text(store.types@, ty, store.types@.len() as nat) && why@ == reason@,
{
    BackendError::UnsupportedType {
        context: context.to_owned(),
        ty: type_to_string(store, ty),
        reason: reason.to_owned(),
    }
}

/// `ty` is an integer type wider than 64 bits.
pub open spec fn wide_int(types: Seq<TypeData>, ty: TypeId) -> bool {
    (ty.0 as int) < types.len() && (types[ty.0 as int] matches TypeData::Int { bits, .. } && bits > 64)
}

fn check_supported_fuel(store: &TypeStore, ty: TypeId, context: &str, fuel: u64) -> (r: Result<(), BackendError>)
    ensures
        r is Ok <==> spec_supported(store.types@, ty, fuel as nat),
        r matches Err(e) ==> e matches BackendError::UnsupportedType { context: c, .. } && c@ == context@,
        fuel > 0 && wide_int(store.types@, ty) ==> (r matches Err(BackendError::UnsupportedType { reason, .. }) && reason@
            == "128-bit integers are not supported by this backend"@),
    decreases fuel,
{
    if fuel == 0 || ty.index() >= store.types.len() {
        return Err(unsupported(ty, store, context, "unknown type"));
    }
    match &store.types[ty.index()] {
        TypeData::Void => Err(unsupported(ty, store, context, "`void` is not a value type")),
        TypeData::Int { bits, .. } => {
            if *bits > 64 {
                Err(unsupported(ty, store, context, "128-bit integers are not supported by this backend"))
            } else if *bits == 1 || *bits == 8 || *bits == 16 || *bits == 32 || *bits == 64 {
                Ok(())
            } else {
                Err(unsupported(ty, store, context, "integer width must be 1, 8, 16, 32 or 64 bits"))
            }
        },
        TypeData::Float(_) => Ok(()),
        TypeData::Pointer { .. } => Ok(()),
        TypeData::Array { element, .. } => check_supported_fuel(store, *element, context, fuel - 1),
        TypeData::Struct { fields } => {
            let mut i: usize = 0;
            while i < fields.len()
                invariant
                    fuel > 0,
                    (ty.0 as int) < store.types@.len(),
                    store.types@[ty.0 as int] == (TypeData::Struct { fields: *fields }),
                    i <= fields@.len(),
                    all_supported(store.types@, fields@.subrange(0, i as int), (fuel - 1) as nat),
                decreases fields@.len() - i,
            {
                let r = check_supported_fuel(store, fields[i], context, fuel - 1);
                proof {
                    assert(fields@.subrange(0, i + 1).drop_last() =~= fields@.subrange(0, i as int));
                }
                match r {
                    Ok(()) => {},
                    Err(e) => {
                        proof {
                            lemma_all_supported_prefix(store.types@, fields@, (i + 1) as int, (fuel - 1) as nat);
                        }
                        return Err(e);
                    },
                }
                i = i + 1;
            }
            proof {
                assert(fields@.subrange(0, fields@.len() as int) =~= fields@);
            }
            Ok(())
        },
        TypeData::Function { .. } => Err(unsupported(ty, store, context, "function signature types are not first-class")),
    }
}

/// Validates that `ty` can be represented by this backend.
///
/// Rejects `i128`/`u128`, function signature types and `void`,
/// recursively through aggregate fields (so `struct<i64, i128>` is rejected
/// too). Pointers are fine regardless of pointee.
pub fn check_supported(store: &TypeStore, ty: TypeId, context: &str) -> (r: Result<(), BackendError>)
    ensures
        r is Ok <==> spec_supported(store.types@, ty, store.types@.len() as nat),
        r matches Err(e) ==> e matches BackendError::UnsupportedType { context: c, .. } && c@ == context@,
        wide_int(store.types@, ty) ==> (r matches Err(BackendError::UnsupportedType { reason, .. }) && reason@
            == "128-bit integers are not supported by this backend"@),
{
    check_supported_fuel(store, ty, context, store.types.len() as u64)
}

fn size_fuel(store: &TypeStore, ty: TypeId, fuel: u64) -> (r: Result<u64, BackendError>)
    ensures
        match spec_size(store.types@, ty, fuel as nat) {
            Some(s) => r == Ok::<u64, BackendError>(s as u64),
            None => r is Err && r->Err_0 is UnsupportedType,
        },
    decreases fuel, 0nat,
{
    if fuel == 0 || ty.index() >= store.types.len() {
        return Err(unsupported(ty, store, "size_of", "unknown type"));
    }
    match &store.types[ty.index()] {
        TypeData::Void => Ok(0),
        TypeData::Int { bits, .. } => Ok(int_bytes(*bits)),
        TypeData::Float(FloatKind::F32) => Ok(4),
        TypeData::Float(FloatKind::F64) => Ok(8),
        TypeData::Pointer { .. } => Ok(POINTER_SIZE),
        TypeData::Array { element, length } => {
            proof {
                lemma_size_nonneg(store.types@, *element, (fuel - 1) as nat);
            }
            let elem = match size_fuel(store, *element, fuel - 1) {
                Ok(e) => e,
                Err(e) => {
                    return Err(e);
                },
            };
            match elem.checked_mul(*length) {
                Some(s) => {
                    proof {
                        assert(spec_size(store.types@, *element, (fuel - 1) as nat) == Some(elem as int));
                    }
                    Ok(s)
                },
                None => Err(unsupported(ty, store, "size_of", "array size overflows u64")),
            }
        },
        TypeData::Struct { fields } => {
            match struct_layout(store, ty, fields, fuel - 1) {
                Ok((size, _)) => Ok(size),
                Err(e) => Err(e),
            }
        },
        TypeData::Function { .. } => Err(unsupported(ty, store, "size_of", "function signature types have no size")),
    }
}

fn align_fuel(store: &TypeStore, ty: TypeId, fuel: u64) -> (r: Result<u64, BackendError>)
    ensures
        match spec_align(store.types@, ty, fuel as nat) {
            Some(a) => r == Ok::<u64, BackendError>(a as u64),
            None => r is Err && r->Err_0 is UnsupportedType,
        },
    decreases fuel, 0nat,
{
    if fuel == 0 || ty.index() >= store.types.len() {
        return Err(unsupported(ty, store, "align_of", "unknown type"));
    }
    proof {
        lemma_align_values(store.types@, ty, fuel as nat);
    }
    match &store.types[ty.index()] {
        TypeData::Void => Ok(1),
        TypeData::Int { bits, .. } => Ok(int_align(*bits)),
        TypeData::Float(FloatKind::F32) => Ok(4),
        TypeData::Float(FloatKind::F64) => Ok(8),
        TypeData::Pointer { .. } => Ok(POINTER_ALIGN),
        TypeData::Array { element, .. } => align_fuel(store, *element, fuel - 1),
        TypeData::Struct { fields } => {
            match struct_layout(store, ty, fields, fuel - 1) {
                Ok((_, align)) => Ok(align),
                Err(e) => Err(e),
            }
        },
        TypeData::Function { .. } => Err(unsupported(ty, store, "align_of", "function signature types have no alignment")),
    }
}

/// Total size and alignment of a struct with `fields`.
fn struct_layout(store: &TypeStore, ty: TypeId, fields: &Vec<TypeId>, fuel: u64) -> (r: Result<(u64, u64), BackendError>)
    ensures
        match spec_struct(store.types@, fields@, fuel as nat) {
            Some((end, align)) => if end + align - 1 <= u64::MAX {
                r == Ok::<(u64, u64), BackendError>((spec_align_up(end, align) as u64, align as u64))
            } else {
                r is Err && r->Err_0 is UnsupportedType
            },
            None => r is Err && r->Err_0 is UnsupportedType,
        },
    decreases fuel, 1nat,
{
    let mut offset: u64 = 0;
    let mut align: u64 = 1;
    let mut i: usize = 0;
    while i < fields.len()
        invariant
            i <= fields@.len(),
            spec_struct(store.types@, fields@.subrange(0, i as int), fuel as nat) == Some((offset as int, align as int)),
        decreases fields@.len() - i,
    {
        let ghost sub = fields@.subrange(0, i + 1);
        proof {
            assert(sub.drop_last() =~= fields@.subrange(0, i as int));
            lemma_struct_align_values(store.types@, sub.drop_last(), fuel as nat);
            lemma_align_values(store.types@, fields@[i as int], fuel as nat);
            lemma_size_nonneg(store.types@, fields@[i as int], fuel as nat);
        }
        let field_align = match align_fuel(store, fields[i], fuel) {
            Ok(a) => a,
            Err(e) => {
                proof {
                    lemma_struct_prefix_none(store.types@, fields@, i + 1, fuel as nat);
                }
                return Err(e);
            },
        };
        let field_size = match size_fuel(store, fields[i], fuel) {
            Ok(z) => z,
            Err(e) => {
                proof {
                    lemma_struct_prefix_none(store.types@, fields@, i + 1, fuel as nat);
                }
                return Err(e);
            },
        };
        proof {
            lemma_layout_align_pow2(field_align);
        }
        offset = match align_up(offset, field_align) {
            Some(o) => o,
            None => {
                proof {
                    lemma_struct_prefix_none(store.types@, fields@, i + 1, fuel as nat);
                }
                return Err(unsupported(ty, store, "struct layout", "struct size overflows u64"));
            },
        };
        offset = match offset.checked_add(field_size) {
            Some(o) => o,
            None => {
                proof {
                    lemma_struct_prefix_none(store.types@, fields@, i + 1, fuel as nat);
                }
                return Err(unsupported(ty, store, "struct layout", "struct size overflows u64"));
            },
        };
        if field_align > align {
            align = field_align;
        }
        i = i + 1;
    }
    proof {
        assert(fields@.subrange(0, fields@.len() as int) =~= fields@);
        lemma_struct_align_values(store.types@, fields@, fuel as nat);
        lemma_layout_align_pow2(align);
    }
    match align_up(offset, align) {
        Some(size) => Ok((size, align)),
        None => Err(unsupported(ty, store, "struct layout", "struct size overflows u64")),
    }
}

/// Size in bytes of a supported type.
pub fn size_of(store: &TypeStore, ty: TypeId) -> (r: Result<u64, BackendError>)
    ensures
        match spec_size(store.types@, ty, store.types@.len() as nat) {
            Some(s) => r == Ok::<u64, BackendError>(s as u64),
            None => r is Err && r->Err_0 is UnsupportedType,
        },
{
    size_fuel(store, ty, store.types.len() as u64)
}

/// Alignment in bytes of a supported type.
pub fn align_of(store: &TypeStore, ty: TypeId) -> (r: Result<u64, BackendError>)
    ensures
        match spec_align(store.types@, ty, store.types@.len() as nat) {
            Some(a) => r == Ok::<u64, BackendError>(a as u64),
            None => r is Err && r->Err_0 is UnsupportedType,
        },
{
    align_fuel(store, ty, store.types.len() as u64)
}

/// Byte offset of field `index` of aggregate `ty`; `None` when it has none
/// or it overflows.
pub open spec fn spec_field_offset(types: Seq<TypeData>, ty: TypeId, index: u64) -> Option<int> {
    let n = types.len() as nat;
    if ty.0 as int >= types.len() {
        None
    } else {
        match types[ty.0 as int] {
            TypeData::Array { element, .. } => match spec_size(types, element, n) {
                Some(e) => if e * index <= u64::MAX {
                    Some(e * index)
                } else {
                    None
                },
                None => None,
            },
            TypeData::Struct { fields } => if index >= fields@.len() {
                None
            } else {
                match spec_struct(types, fields@.subrange(0, index as int), n) {
                    Some((end, _)) => match spec_align(types, fields@[index as int], n) {
                        Some(fa) => if end + fa - 1 <= u64::MAX {
                            Some(spec_align_up(end, fa))
                        } else {
                            None
                        },
                        None => None,
                    },
                    None => None,
                }
            },
            _ => None,
        }
    }
}

/// Type `ty` is a struct with no field `index`.
pub open spec fn field_out_of_range(types: Seq<TypeData>, ty: TypeId, index: u64) -> bool {
    (ty.0 as int) < types.len() && (types[ty.0 as int] matches TypeData::Struct { fields } && index
        >= fields@.len())
}

/// The type of field `index` of aggregate `ty`: the element type of an
/// array, field `index` of a struct.
pub open spec fn spec_field_type(types: Seq<TypeData>, ty: TypeId, index: u64) -> Option<TypeId> {
    if (ty.0 as int) < types.len() {
        match types[ty.0 as int] {
            TypeData::Array { element, .. } => Some(element),
            TypeData::Struct { fields } => if index < fields@.len() {
                Some(fields@[index as int])
            } else {
                None
            },
            _ => None,
        }
    } else {
        None
    }
}

/// Type of field `index` of an aggregate: the element type of an array,
/// field `index` of a struct.
pub fn field_type(store: &TypeStore, ty: TypeId, index: u64) -> (r: Result<TypeId, BackendError>)
    ensures
        r matches Ok(t) ==> spec_field_type(store.types@, ty, index) == Some(t),
        r is Err ==> spec_field_type(store.types@, ty, index) is None,
        (ty.0 as int) < store.types@.len() && store.types@[ty.0 as int] is Array ==> r == Ok::<
            TypeId,
            BackendError,
        >(store.types@[ty.0 as int]->element),
        (ty.0 as int) < store.types@.len() && store.types@[ty.0 as int] is Struct && index
            < store.types@[ty.0 as int]->fields@.len() ==> r == Ok::<TypeId, BackendError>(
            store.types@[ty.0 as int]->fields@[index as int],
        ),
        field_out_of_range(store.types@, ty, index) ==> r is Err && r->Err_0 is InvalidModule,
        !((ty.0 as int) < store.types@.len() && (store.types@[ty.0 as int] is Array
            || store.types@[ty.0 as int] is Struct)) ==> r is Err && r->Err_0 is UnsupportedType,
{
    if ty.index() < store.types.len() {
        match &store.types[ty.index()] {
            TypeData::Array { element, .. } => {
                return Ok(*element);
            },
            TypeData::Struct { fields } => {
                if index < fields.len() as u64 {
                    return Ok(fields[index as usize]);
                }
                let digits = crate::textbuf::dec_string(index as u128);
                let parts = ["field ", digits.as_str(), " out of range for aggregate"];
                return Err(BackendError::InvalidModule { reason: concat_strs(&parts) });
            },
            _ => {},
        }
    }
    Err(unsupported(ty, store, "field_type", "not an aggregate type"))
}

/// Byte offset of field `index` of an aggregate.
pub fn field_offset(store: &TypeStore, ty: TypeId, index: u64) -> (r: Result<u64, BackendError>)
    ensures
        match spec_field_offset(store.types@, ty, index) {
            Some(o) => r == Ok::<u64, BackendError>(o as u64),
            None => r is Err,
        },
        field_out_of_range(store.types@, ty, index) ==> r is Err && r->Err_0 is InvalidModule,
{
    let n = store.types.len();
    if ty.index() >= n {
        return Err(unsupported(ty, store, "field_offset", "not an aggregate type"));
    }
    match &store.types[ty.index()] {
        TypeData::Array { element, .. } => {
            proof {
                lemma_size_nonneg(store.types@, *element, n as nat);
            }
            let elem = match size_of(store, *element) {
                Ok(e) => e,
                Err(e) => {
                    return Err(e);
                },
            };
            match elem.checked_mul(index) {
                Some(o) => Ok(o),
                None => Err(unsupported(ty, store, "field_offset", "field offset overflows u64")),
            }
        },
        TypeData::Struct { fields } => {
            if index >= fields.len() as u64 {
                let digits = crate::textbuf::dec_string(index as u128);
                let parts = ["field ", digits.as_str(), " out of range for struct"];
                return Err(BackendError::InvalidModule { reason: concat_strs(&parts) });
            }
            let k = index as usize;
            let mut offset: u64 = 0;
            let ghost mut al: int = 1;
            let mut i: usize = 0;
            while i < k
                invariant
                    k == index,
                    k < fields@.len(),
                    (ty.0 as int) < store.types@.len(),
                    store.types@[ty.0 as int] == (TypeData::Struct { fields: *fields }),
                    n == store.types@.len(),
                    i <= k,
                    spec_struct(store.types@, fields@.subrange(0, i as int), n as nat) == Some((offset as int, al)),
                decreases k - i,
            {
                let ghost sub = fields@.subrange(0, i + 1);
                proof {
                    assert(sub.drop_last() =~= fields@.subrange(0, i as int));
                    lemma_struct_align_values(store.types@, sub.drop_last(), n as nat);
                    lemma_align_values(store.types@, fields@[i as int], n as nat);
                    lemma_size_nonneg(store.types@, fields@[i as int], n as nat);
                }
                let fa = match align_of(store, fields[i]) {
                    Ok(a) => a,
                    Err(e) => {
                        proof {
                            lemma_struct_prefix_none(store.types@, fields@.subrange(0, k as int), i + 1, n as nat);
                            assert(fields@.subrange(0, k as int).subrange(0, i + 1) =~= sub);
                        }
                        return Err(e);
                    },
                };
                let fs = match size_of(store, fields[i]) {
                    Ok(z) => z,
                    Err(e) => {
                        proof {
                            assert(fields@.subrange(0, k as int).subrange(0, i + 1) =~= sub);
                            lemma_struct_prefix_none(store.types@, fields@.subrange(0, k as int), i + 1, n as nat);
                        }
                        return Err(e);
                    },
                };
                proof {
                    lemma_layout_align_pow2(fa);
                }
                let start = match align_up(offset, fa) {
                    Some(o) => o,
                    None => {
                        proof {
                            assert(fields@.subrange(0, k as int).subrange(0, i + 1) =~= sub);
                            lemma_struct_prefix_none(store.types@, fields@.subrange(0, k as int), i + 1, n as nat);
                        }
                        return Err(unsupported(ty, store, "field_offset", "field offset overflows u64"));
                    },
                };
                offset = match start.checked_add(fs) {
                    Some(o) => o,
                    None => {
                        proof {
                            assert(fields@.subrange(0, k as int).subrange(0, i + 1) =~= sub);
                            lemma_struct_prefix_none(store.types@, fields@.subrange(0, k as int), i + 1, n as nat);
                        }
                        return Err(unsupported(ty, store, "field_offset", "field offset overflows u64"));
                    },
                };
                proof {
                    al = if fa > al { fa as int } else { al };
                }
                i = i + 1;
            }
            proof {
                lemma_struct_align_values(store.types@, fields@.subrange(0, k as int), n as nat);
                lemma_align_values(store.types@, fields@[k as int], n as nat);
            }
            let fa = match align_of(store, fields[k]) {
                Ok(a) => a,
                Err(e) => {
                    return Err(e);
                },
            };
            proof {
                lemma_layout_align_pow2(fa);
            }
            match align_up(offset, fa) {
                Some(o) => Ok(o),
                None => Err(unsupported(ty, store, "field_offset", "field offset overflows u64")),
            }
        },
        _ => Err(unsupported(ty, store, "field_offset", "not an aggregate type")),
    }
}

/// True when `ty` is a struct or array (copied byte by byte).
pub fn is_aggregate(store: &TypeStore, ty: TypeId) -> (r: bool)
    ensures
        r == ((ty.0 as int) < store.types@.len() && (store.types@[ty.0 as int] is Struct
            || store.types@[ty.0 as int] is Array)),
{
    if ty.index() < store.types.len() {
        match &store.types[ty.index()] {
            TypeData::Struct { .. } => true,
            TypeData::Array { .. } => true,
            _ => false,
        }
    } else {
        false
    }
}

/// True when `ty` is `f32`.
pub fn is_f32(store: &TypeStore, ty: TypeId) -> (r: bool)
    ensures
        r == ((ty.0 as int) < store.types@.len() && store.types@[ty.0 as int] == TypeData::Float(
            FloatKind::F32,
        )),
{
    if ty.index() < store.types.len() {
        match &store.types[ty.index()] {
            TypeData::Float(FloatKind::F32) => true,
            _ => false,
        }
    } else {
        false
    }
}

/// True when `ty` is a float.
pub fn is_float(store: &TypeStore, ty: TypeId) -> (r: bool)
    ensures
        r == ((ty.0 as int) < store.types@.len() && store.types@[ty.0 as int] is Float),
{
    if ty.index() < store.types.len() {
        match &store.types[ty.index()] {
            TypeData::Float(_) => true,
            _ => false,
        }
    } else {
        false
    }
}

} // verus!
