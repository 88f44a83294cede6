//! The module constant pool.
//!
//! Constants are interned per module and referenced from `const`
//! instructions by [`ConstantId`]. Integer and float values are stored as
//! raw bit patterns so every width (including `u128`) is representable.

use vstd::prelude::*;

use crate::id::{ConstantId, TypeId};

verus! {

/// A constant value in the pool.
#[derive(Debug, Clone, PartialEq, Eq, Hash)]
pub enum ConstantData {
    /// Integer constant: the two's-complement bit pattern of exactly
    /// `width` bits, zero-extended into `u128`.
    Int {
        /// Integer type of the constant.
        ty: TypeId,
        /// Bit width of `ty`.
        width: u32,
        /// Two's-complement bit pattern.
        bits: u128,
    },
    /// Float constant holding the IEEE bit pattern.
    Float {
        /// `f32` or `f64` type.
        ty: TypeId,
        /// `f32` (zero-extended) or `f64` bit pattern.
        bits: u64,
    },
    /// Null pointer constant for `ptr<pointee>`.
    Null {
        /// Pointee type; the pointer type is `ptr<pointee>`.
        pointee: TypeId,
    },
    /// Immutable string data of type `ptr<i8>` (the trailing NUL is
    /// implicit, not stored).
    String {
        /// Raw bytes without the trailing NUL.
        bytes: Vec<u8>,
    },
    /// Aggregate constant composed of other constants.
    Aggregate {
        /// Struct or array type of the constant.
        ty: TypeId,
        /// Element constants, in order.
        elements: Vec<ConstantId>,
    },
}

/// Structural equality of two constants (vectors compared by contents).
pub open spec fn same_constant(a: ConstantData, b: ConstantData) -> bool {
    match (a, b) {
        (
            ConstantData::Int { ty: t1, width: w1, bits: b1 },
            ConstantData::Int { ty: t2, width: w2, bits: b2 },
        ) => t1 == t2 && w1 == w2 && b1 == b2,
        (ConstantData::Float { ty: t1, bits: b1 }, ConstantData::Float { ty: t2, bits: b2 }) => t1
            == t2 && b1 == b2,
        (ConstantData::Null { pointee: p1 }, ConstantData::Null { pointee: p2 }) => p1 == p2,
        (ConstantData::String { bytes: b1 }, ConstantData::String { bytes: b2 }) => b1@ == b2@,
        (
            ConstantData::Aggregate { ty: t1, elements: e1 },
            ConstantData::Aggregate { ty: t2, elements: e2 },
        ) => t1 == t2 && e1@ == e2@,
        _ => false,
    }
}

fn same_bytes(a: &Vec<u8>, b: &Vec<u8>) -> (r: bool)
    ensures
        r == (a@ == b@),
{
    if a.len() != b.len() {
        return false;
    }
    let mut i: usize = 0;
    while i < a.len()
        invariant
            a@.len() == b@.len(),
            i <= a@.len(),
            forall|j: int| 0 <= j < i ==> a@[j] == b@[j],
        decreases a@.len() - i,
    {
        if a[i] != b[i] {
            return false;
        }
        i = i + 1;
    }
    proof {
        assert(a@ =~= b@);
    }
    true
}

fn same_cids(a: &Vec<ConstantId>, b: &Vec<ConstantId>) -> (r: bool)
    ensures
        r == (a@ == b@),
{
    if a.len() != b.len() {
        return false;
    }
    let mut i: usize = 0;
    while i < a.len()
        invariant
            a@.len() == b@.len(),
            i <= a@.len(),
            forall|j: int| 0 <= j < i ==> a@[j] == b@[j],
        decreases a@.len() - i,
    {
        if a[i].0 != b[i].0 {
            return false;
        }
        i = i + 1;
    }
    proof {
        assert(a@ =~= b@);
    }
    true
}

impl ConstantData {
    /// Structural equality with another constant.
    pub fn same(&self, other: &ConstantData) -> (r: bool)
        ensures
            r == same_constant(*self, *other),
    {
        match (self, other) {
            (
                ConstantData::Int { ty: t1, width: w1, bits: b1 },
                ConstantData::Int { ty: t2, width: w2, bits: b2 },
            ) => t1.0 == t2.0 && *w1 == *w2 && *b1 == *b2,
            (
                ConstantData::Float { ty: t1, bits: b1 },
                ConstantData::Float { ty: t2, bits: b2 },
            ) => t1.0 == t2.0 && *b1 == *b2,
            (ConstantData::Null { pointee: p1 }, ConstantData::Null { pointee: p2 }) => p1.0
                == p2.0,
            (ConstantData::String { bytes: b1 }, ConstantData::String { bytes: b2 }) => same_bytes(
                b1,
                b2,
            ),
            (
                ConstantData::Aggregate { ty: t1, elements: e1 },
                ConstantData::Aggregate { ty: t2, elements: e2 },
            ) => t1.0 == t2.0 && same_cids(e1, e2),
            _ => false,
        }
    }
}

/// `data` is first found at index `i` of `pool`.
pub open spec fn first_constant_index(pool: Seq<ConstantData>, data: ConstantData, i: int) -> bool {
    &&& 0 <= i < pool.len()
    &&& same_constant(pool[i], data)
    &&& forall|j: int| 0 <= j < i ==> !same_constant(pool[j], data)
}

/// `data` occurs somewhere in `pool`.
pub open spec fn constant_present(pool: Seq<ConstantData>, data: ConstantData) -> bool {
    exists|j: int| 0 <= j < pool.len() && same_constant(pool[j], data)
}

/// Effect of interning `data` into `old`: an existing equal entry is
/// reused (the first one), otherwise `data` is appended.
pub open spec fn constant_interned(
    old: Seq<ConstantData>,
    data: ConstantData,
    new: Seq<ConstantData>,
    id: ConstantId,
) -> bool {
    &&& constant_present(old, data) ==> {
        &&& new == old
        &&& exists|j: int| first_constant_index(old, data, j) && id.0 == j as u32
    }
    &&& !constant_present(old, data) ==> {
        &&& new == old.push(data)
        &&& id.0 == old.len() as u32
    }
}

/// Interning is idempotent: interning a constant a second time returns the
/// same id and leaves the pool unchanged.
pub proof fn law_constant_intern_idempotent(
    old: Seq<ConstantData>,
    data: ConstantData,
    mid: Seq<ConstantData>,
    first: ConstantId,
    new: Seq<ConstantData>,
    second: ConstantId,
)
    requires
        constant_interned(old, data, mid, first),
        constant_interned(mid, data, new, second),
    ensures
        new == mid,
        second == first,
{
    assert(same_constant(data, data));
    if constant_present(old, data) {
        let j = choose|j: int| first_constant_index(old, data, j) && first.0 == j as u32;
        assert(constant_present(mid, data));
        let k = choose|k: int| first_constant_index(mid, data, k) && second.0 == k as u32;
        assert(j == k);
    } else {
        assert(same_constant(mid[old.len() as int], data));
        assert(constant_present(mid, data));
        let k = choose|k: int| first_constant_index(mid, data, k) && second.0 == k as u32;
        assert(k == old.len());
    }
}

/// All-ones mask for `width` bits (all 128 bits from width 128 on).
pub open spec fn spec_mask(width: u32) -> u128 {
    if width >= 128 {
        u128::MAX
    } else {
        ((1u128 << width) - 1) as u128
    }
}

/// Sign extension of the low `width` bits of `bits`; zero bits extend
/// to 0.
pub open spec fn spec_sign_extend(bits: u128, width: u32) -> i128 {
    if width == 0 {
        0
    } else if width >= 128 {
        bits as i128
    } else {
        (((bits << ((128 - width) as u32)) as i128) >> ((128 - width) as u32)) as i128
    }
}

/// `value` is representable as a signed integer of `width` bits.
pub open spec fn fits_signed(value: i128, width: u32) -> bool {
    width >= 128 || (-(1i128 << ((width - 1) as u32)) <= value && value < (1i128 << ((width - 1) as u32)))
}

/// A signed value that fits in `width` bits survives masking to `width`
/// bits and sign extension back: the two's-complement bits of a constant
/// determine its value.
pub proof fn law_sign_extend_of_mask(value: i128, width: u32)
    requires
        1 <= width,
        fits_signed(value, width),
    ensures
        spec_sign_extend((value as u128) & spec_mask(width), width) == value,
{
    if width >= 128 {
        assert(((value as u128) & u128::MAX) as i128 == value) by (bit_vector);
    } else {
        let w = width;
        let m: u128 = ((1u128 << w) - 1) as u128;
        let bits: u128 = (value as u128) & m;
        let sh: u32 = (128 - w) as u32;
        let half: i128 = 1i128 << ((w - 1) as u32);
        assert((((bits << sh) as i128) >> sh) == value) by (bit_vector)
            requires
                1 <= w < 128,
                m == ((1u128 << w) - 1) as u128,
                bits == (value as u128) & m,
                sh == (128 - w) as u32,
                half == 1i128 << ((w - 1) as u32),
                -half <= value < half,
        ;
    }
}

/// Interning table for constants. Entry `i` holds `ConstantId(i)`.
#[derive(Debug, Clone, PartialEq, Eq, Default)]
pub struct ConstantStore {
    /// Interned constants, indexed by constant id.
    pub constants: Vec<ConstantData>,
}

impl ConstantStore {
    /// Creates an empty pool.
    pub fn new() -> (r: Self)
        ensures
            r.constants@.len() == 0,
    {
        ConstantStore { constants: Vec::new() }
    }

    /// Interns a constant, returning its canonical [`ConstantId`].
    pub fn intern(&mut self, data: ConstantData) -> (r: ConstantId)
        ensures
            constant_interned(old(self).constants@, data, final(self).constants@, r),
    {
        let mut i: usize = 0;
        while i < self.constants.len()
            invariant
                i <= self.constants@.len(),
                forall|j: int| 0 <= j < i ==> !same_constant(self.constants@[j], data),
            decreases self.constants@.len() - i,
        {
            if self.constants[i].same(&data) {
                proof {
                    assert(first_constant_index(self.constants@, data, i as int));
                }
                return ConstantId::new(#[verifier::truncate] (i as u32));
            }
            i = i + 1;
        }
        let id = ConstantId::new(#[verifier::truncate] (self.constants.len() as u32));
        self.constants.push(data);
        id
    }

    /// The constant `id`, if it exists.
    pub open spec fn spec_get(&self, id: ConstantId) -> Option<&ConstantData> {
        if (id.0 as int) < self.constants@.len() {
            Some(&self.constants@[id.0 as int])
        } else {
            None
        }
    }

    /// Returns the data for `id`, or `None` if the ID is invalid.
    pub fn get(&self, id: ConstantId) -> (r: Option<&ConstantData>)
        ensures
            r == self.spec_get(id),
    {
        if id.index() < self.constants.len() {
            Some(&self.constants[id.index()])
        } else {
            None
        }
    }

    /// Number of interned constants.
    pub fn len(&self) -> (r: usize)
        ensures
            r == self.constants@.len(),
    {
        self.constants.len()
    }

    /// Returns true if the pool is empty.
    pub fn is_empty(&self) -> (r: bool)
        ensures
            r == (self.constants@.len() == 0),
    {
        self.constants.len() == 0
    }

    /// Masks a signed value to `width` bits (two's complement).
    pub fn mask_signed(value: i128, width: u32) -> (r: u128)
        ensures
            r == (value as u128) & spec_mask(width),
    {
        (value as u128) & Self::mask(width)
    }

    /// Truncates an unsigned value to `width` bits.
    pub fn mask_unsigned(value: u128, width: u32) -> (r: u128)
        ensures
            r == value & spec_mask(width),
    {
        value & Self::mask(width)
    }

    /// All-ones mask for `width` bits.
    pub fn mask(width: u32) -> (r: u128)
        ensures
            r == spec_mask(width),
    {
        if width >= 128 {
            u128::MAX
        } else {
            let one: u128 = 1;
            let w: u128 = width as u128;
            assert(one << w >= 1) by (bit_vector)
                requires
                    w < 128,
                    one == 1,
            ;
            (one << w) - 1
        }
    }

    /// Sign-extends the low `width` bits of `bits` to `i128`.
    pub fn sign_extend(bits: u128, width: u32) -> (r: i128)
        ensures
            r == spec_sign_extend(bits, width),
    {
        if width == 0 {
            0
        } else if width >= 128 {
            bits as i128
        } else {
            let shift: u32 = 128 - width;
            let shifted: u128 = bits << shift;
            let signed: i128 = shifted as i128;
            signed >> shift
        }
    }
}

} // verus!
