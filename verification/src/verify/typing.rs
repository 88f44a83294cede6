//! Type checking of instructions, calls and pool constants.

use vstd::prelude::*;

use crate::builder::{aggregate_arity, aggregate_field, arith_or_float, equality_operand, int_bits_of};
use crate::constant::ConstantData;
use crate::error::{constant_fits_type, spec_constant_fits, VerifyError};
use crate::function::Function;
use crate::id::{ConstantId, FunctionId, TypeId, ValueId};
use crate::instruction::{inst_operands, Instruction, InstructionKind};
use crate::module::Module;
use crate::textbuf::{cat2, concat_strs, dec_chars, dec_string};
use crate::types::{
    spec_is_aggregate, spec_is_arith_integer, spec_is_first_class, spec_is_float, spec_is_integer,
    spec_is_pointer, TypeData,
};
use crate::verify::extends;

verus! {

/// Type of value `v` of `f`, if it is in the arena.
pub open spec fn vty(f: Function, v: ValueId) -> Option<TypeId> {
    if (v.0 as int) < f.values@.len() {
        Some(f.values@[v.0 as int].ty)
    } else {
        None
    }
}

/// Description of type `t` in `m`, if it exists.
pub open spec fn tdata(m: Module, t: TypeId) -> Option<TypeData> {
    if (t.0 as int) < m.types.types@.len() {
        Some(m.types.types@[t.0 as int])
    } else {
        None
    }
}

/// `t` is an existing type satisfying `pred`.
pub open spec fn has_type(m: Module, t: Option<TypeId>, pred: spec_fn(TypeData) -> bool) -> bool {
    t matches Some(x) && (tdata(m, x) matches Some(d) && pred(d))
}

/// The pointee of `t` when `t` is an existing pointer type.
pub open spec fn pointee_of(m: Module, t: Option<TypeId>) -> Option<TypeId> {
    match t {
        Some(x) => match tdata(m, x) {
            Some(TypeData::Pointer { pointee, .. }) => Some(pointee),
            _ => None,
        },
        None => None,
    }
}

/// Bit width of integer type `t` (0 for other types).
pub open spec fn bits_of(m: Module, t: TypeId) -> u32 {
    match tdata(m, t) {
        Some(d) => int_bits_of(d),
        None => 0,
    }
}

/// `t` is the `void` type.
pub open spec fn is_void(m: Module, t: TypeId) -> bool {
    tdata(m, t) matches Some(d) && d is Void
}

/// Type of the result of `inst`, when it has one in the arena.
pub open spec fn result_type(f: Function, inst: Instruction) -> Option<TypeId> {
    match inst.result {
        Some(v) => vty(f, v),
        None => None,
    }
}

/// Every operand of `k` is a value of `f`.
pub open spec fn operands_known(f: Function, k: InstructionKind) -> bool {
    forall|i: int| 0 <= i < inst_operands(k).len() ==> (#[trigger] inst_operands(k)[i].0 as int) < f.values@.len()
}

/// Both operands have the same type, which satisfies `class`.
pub open spec fn binary_ok(m: Module, f: Function, lhs: ValueId, rhs: ValueId, class: spec_fn(TypeData) -> bool) -> bool {
    &&& vty(f, lhs) is Some
    &&& vty(f, rhs) == vty(f, lhs)
    &&& has_type(m, vty(f, lhs), class)
}

/// A direct call of `callee` with `args` and result `result` is well
/// typed in `f`.
pub open spec fn call_valid(m: Module, f: Function, callee: FunctionId, args: Seq<ValueId>, result: Option<ValueId>) -> bool {
    (callee.0 as int) < m.functions@.len() && {
        let g = m.functions@[callee.0 as int];
        let fixed = g.params@.len();
        &&& if g.variadic {
            args.len() >= fixed
        } else {
            args.len() == fixed
        }
        &&& forall|i: int| 0 <= i < args.len() && i < fixed ==> (vty(f, #[trigger] args[i]) is Some ==> vty(f, args[i]) == Some(g.params@[i].ty))
        &&& forall|i: int| fixed <= i < args.len() ==> (vty(f, #[trigger] args[i]) is Some ==> has_type(m, vty(f, args[i]), |d: TypeData| spec_is_first_class(d)))
        &&& match result {
            Some(r) => !is_void(m, g.result) && (vty(f, r) is Some ==> vty(f, r) == Some(g.result)),
            None => is_void(m, g.result),
        }
    }
}

/// The operation of `inst` is well typed in `f`, given that its operands
/// are values of `f`.
pub open spec fn kind_valid(m: Module, f: Function, inst: Instruction) -> bool {
    let rt = result_type(f, inst);
    match inst.kind {
        InstructionKind::Const(cid) => (cid.0 as int) < m.constants.constants@.len() && (rt matches Some(t) && spec_constant_fits(
            m.types.types@,
            m.constants.constants@[cid.0 as int],
            t,
        )),
        InstructionKind::Add { lhs, rhs } => binary_ok(m, f, lhs, rhs, |d: TypeData| arith_or_float(d)) && rt == vty(f, lhs),
        InstructionKind::Sub { lhs, rhs } => binary_ok(m, f, lhs, rhs, |d: TypeData| arith_or_float(d)) && rt == vty(f, lhs),
        InstructionKind::Mul { lhs, rhs } => binary_ok(m, f, lhs, rhs, |d: TypeData| arith_or_float(d)) && rt == vty(f, lhs),
        InstructionKind::Div { lhs, rhs } => binary_ok(m, f, lhs, rhs, |d: TypeData| arith_or_float(d)) && rt == vty(f, lhs),
        InstructionKind::Rem { lhs, rhs } => binary_ok(m, f, lhs, rhs, |d: TypeData| spec_is_arith_integer(d)) && rt == vty(f, lhs),
        InstructionKind::And { lhs, rhs } => binary_ok(m, f, lhs, rhs, |d: TypeData| spec_is_integer(d)) && rt == vty(f, lhs),
        InstructionKind::Or { lhs, rhs } => binary_ok(m, f, lhs, rhs, |d: TypeData| spec_is_integer(d)) && rt == vty(f, lhs),
        InstructionKind::Xor { lhs, rhs } => binary_ok(m, f, lhs, rhs, |d: TypeData| spec_is_integer(d)) && rt == vty(f, lhs),
        InstructionKind::Shl { lhs, rhs } => has_type(m, vty(f, lhs), |d: TypeData| spec_is_arith_integer(d)) && rt == vty(f, lhs)
            && has_type(m, vty(f, rhs), |d: TypeData| spec_is_integer(d)),
        InstructionKind::Shr { lhs, rhs } => has_type(m, vty(f, lhs), |d: TypeData| spec_is_arith_integer(d)) && rt == vty(f, lhs)
            && has_type(m, vty(f, rhs), |d: TypeData| spec_is_integer(d)),
        InstructionKind::Eq { lhs, rhs } => binary_ok(m, f, lhs, rhs, |d: TypeData| equality_operand(d)) && rt == Some(TypeId::I1()),
        InstructionKind::Ne { lhs, rhs } => binary_ok(m, f, lhs, rhs, |d: TypeData| equality_operand(d)) && rt == Some(TypeId::I1()),
        InstructionKind::Lt { lhs, rhs } => binary_ok(m, f, lhs, rhs, |d: TypeData| arith_or_float(d)) && rt == Some(TypeId::I1()),
        InstructionKind::Le { lhs, rhs } => binary_ok(m, f, lhs, rhs, |d: TypeData| arith_or_float(d)) && rt == Some(TypeId::I1()),
        InstructionKind::Gt { lhs, rhs } => binary_ok(m, f, lhs, rhs, |d: TypeData| arith_or_float(d)) && rt == Some(TypeId::I1()),
        InstructionKind::Ge { lhs, rhs } => binary_ok(m, f, lhs, rhs, |d: TypeData| arith_or_float(d)) && rt == Some(TypeId::I1()),
        InstructionKind::Alloca { pointee } => has_type(m, Some(pointee), |d: TypeData| spec_is_first_class(d)) && (rt matches Some(t)
            && tdata(m, t) == Some(TypeData::Pointer { pointee, address_space: 0 })),
        InstructionKind::Load { ty, pointer } => pointee_of(m, vty(f, pointer)) == Some(ty) && has_type(m, Some(ty), |d: TypeData| spec_is_first_class(d))
            && rt == Some(ty),
        InstructionKind::Store { pointer, value } => inst.result is None && pointee_of(m, vty(f, pointer)) is Some && vty(f, value)
            == pointee_of(m, vty(f, pointer)),
        InstructionKind::PtrOffset { pointer, offset } => pointee_of(m, vty(f, pointer)) is Some && has_type(m, vty(f, offset), |d: TypeData| spec_is_arith_integer(d))
            && rt == vty(f, pointer),
        InstructionKind::Ext { to, value } => has_type(m, vty(f, value), |d: TypeData| spec_is_integer(d)) && has_type(m, Some(to), |d: TypeData| spec_is_arith_integer(d))
            && bits_of(m, to) > bits_of(m, vty(f, value).unwrap()) && rt == Some(to),
        InstructionKind::Trunc { to, value } => has_type(m, vty(f, value), |d: TypeData| spec_is_integer(d)) && has_type(m, Some(to), |d: TypeData| spec_is_integer(d))
            && bits_of(m, to) < bits_of(m, vty(f, value).unwrap()) && rt == Some(to),
        InstructionKind::IntToFloat { to, value } => has_type(m, vty(f, value), |d: TypeData| spec_is_arith_integer(d)) && has_type(m, Some(to), |d: TypeData| spec_is_float(d))
            && rt == Some(to),
        InstructionKind::FloatToInt { to, value } => has_type(m, vty(f, value), |d: TypeData| spec_is_float(d)) && has_type(m, Some(to), |d: TypeData| spec_is_arith_integer(d))
            && rt == Some(to),
        InstructionKind::PtrCast { to, pointer } => has_type(m, vty(f, pointer), |d: TypeData| spec_is_pointer(d)) && has_type(m, Some(to), |d: TypeData| spec_is_pointer(d))
            && rt == Some(to),
        InstructionKind::Call { callee, args } => call_valid(m, f, callee, args@, inst.result),
        InstructionKind::Construct { ty, fields } => has_type(m, Some(ty), |d: TypeData| spec_is_aggregate(d)) && fields@.len() == aggregate_arity(tdata(m, ty).unwrap())
            && (forall|i: int| 0 <= i < fields@.len() ==> (vty(f, #[trigger] fields@[i]) is Some ==> vty(f, fields@[i]) == Some(aggregate_field(tdata(m, ty).unwrap(), i))))
            && rt == Some(ty),
        InstructionKind::Extract { aggregate, index } => has_type(m, vty(f, aggregate), |d: TypeData| spec_is_aggregate(d)) && (index as int)
            < aggregate_arity(tdata(m, vty(f, aggregate).unwrap()).unwrap()) && rt == Some(aggregate_field(tdata(m, vty(f, aggregate).unwrap()).unwrap(), index as int)),
        InstructionKind::Insert { aggregate, index, value } => has_type(m, vty(f, aggregate), |d: TypeData| spec_is_aggregate(d)) && (index as int)
            < aggregate_arity(tdata(m, vty(f, aggregate).unwrap()).unwrap()) && (vty(f, value) is Some ==> vty(f, value) == Some(aggregate_field(tdata(m, vty(f, aggregate).unwrap()).unwrap(), index as int)))
            && rt == vty(f, aggregate),
    }
}

/// `inst` is well formed in `f`: its operands are values of `f` and, when
/// the arena holds the parameters, it is well typed.
pub open spec fn inst_valid(m: Module, f: Function, inst: Instruction) -> bool {
    &&& operands_known(f, inst.kind)
    &&& (f.values@.len() < f.params@.len() || kind_valid(m, f, inst))
}

/// Pool constant `index` holding `c` is well formed in `m`.
pub open spec fn constant_valid(m: Module, index: int, c: ConstantData) -> bool {
    match c {
        ConstantData::Int { ty, width, .. } => tdata(m, ty) matches Some(TypeData::Int { bits, .. }) && bits == width,
        ConstantData::Float { ty, .. } => has_type(m, Some(ty), |d: TypeData| spec_is_float(d)),
        ConstantData::Null { pointee } => has_type(m, Some(pointee), |d: TypeData| spec_is_first_class(d)),
        ConstantData::String { .. } => true,
        ConstantData::Aggregate { ty, elements } => has_type(m, Some(ty), |d: TypeData| spec_is_aggregate(d)) && elements@.len()
            == aggregate_arity(tdata(m, ty).unwrap()) && forall|i: int| 0 <= i < elements@.len() ==> {
            let e = #[trigger] elements@[i];
            &&& (e.0 as int) < m.constants.constants@.len()
            &&& (e.0 as int) < index
            &&& spec_constant_fits(m.types.types@, m.constants.constants@[e.0 as int], aggregate_field(tdata(m, ty).unwrap(), i))
        },
    }
}

fn value_ty(f: &Function, v: ValueId) -> (r: Option<TypeId>)
    ensures
        r == vty(*f, v),
{
    if v.index() < f.values.len() {
        Some(f.values[v.index()].ty)
    } else {
        None
    }
}

fn type_desc(m: &Module, t: TypeId) -> String {
    m.type_label(t)
}

fn push_invalid_constant(errors: &mut Vec<VerifyError>, index: usize, reason: String)
    ensures
        final(errors)@.len() == old(errors)@.len() + 1,
        extends(old(errors)@, final(errors)@),
{
    errors.push(VerifyError::InvalidConstant { constant: #[verifier::truncate] (index as u32), reason });
}

/// Checks pool constant `index` holding `data`.
pub fn check_constant(m: &Module, index: usize, data: &ConstantData, errors: &mut Vec<VerifyError>)
    ensures
        extends(old(errors)@, final(errors)@),
        final(errors)@.len() == old(errors)@.len() <==> constant_valid(*m, index as int, *data),
{
    match data {
        ConstantData::Int { ty, width, .. } => match m.types.get(*ty) {
            Some(TypeData::Int { bits, .. }) => {
                if *bits != *width {
                    let w = dec_string(*width as u128);
                    let t = type_desc(m, *ty);
                    let b = dec_string(*bits as u128);
                    push_invalid_constant(errors, index, concat_strs(&["integer constant width ", w.as_str(), " does not match type `", t.as_str(), "` (", b.as_str(), " bits)"]));
                }
            },
            _ => {
                let t = type_desc(m, *ty);
                push_invalid_constant(errors, index, concat_strs(&["integer constant typed as non-integer `", t.as_str(), "`"]));
            },
        },
        ConstantData::Float { ty, .. } => {
            let ok = match m.types.get(*ty) {
                Some(d) => d.is_float(),
                None => false,
            };
            if !ok {
                let t = type_desc(m, *ty);
                push_invalid_constant(errors, index, concat_strs(&["float constant typed as non-float `", t.as_str(), "`"]));
            }
        },
        ConstantData::Null { pointee } => {
            let ok = match m.types.get(*pointee) {
                Some(d) => d.is_first_class(),
                None => false,
            };
            if !ok {
                let t = type_desc(m, *pointee);
                push_invalid_constant(errors, index, concat_strs(&["null pointer to non-first-class type `", t.as_str(), "`"]));
            }
        },
        ConstantData::String { .. } => {},
        ConstantData::Aggregate { ty, elements } => {
            let ghost start = errors@;
            let d = match m.types.get(*ty) {
                Some(d) => d,
                None => {
                    let t = type_desc(m, *ty);
                    push_invalid_constant(errors, index, concat_strs(&["aggregate constant typed as non-aggregate `", t.as_str(), "`"]));
                    return;
                },
            };
            let count: usize = match d {
                TypeData::Array { length, .. } => {
                    if elements.len() as u64 != *length {
                        let a = dec_string(*length as u128);
                        let b = dec_string(elements.len() as u128);
                        push_invalid_constant(errors, index, concat_strs(&["aggregate constant needs ", a.as_str(), " element(s), found ", b.as_str()]));
                    }
                    elements.len()
                },
                TypeData::Struct { fields } => {
                    if fields.len() != elements.len() {
                        let a = dec_string(fields.len() as u128);
                        let b = dec_string(elements.len() as u128);
                        push_invalid_constant(errors, index, concat_strs(&["aggregate constant needs ", a.as_str(), " field(s), found ", b.as_str()]));
                    }
                    if fields.len() < elements.len() { fields.len() } else { elements.len() }
                },
                _ => {
                    let t = type_desc(m, *ty);
                    push_invalid_constant(errors, index, concat_strs(&["aggregate constant typed as non-aggregate `", t.as_str(), "`"]));
                    return;
                },
            };
            let ghost mid = errors@;
            let ghost dd = *d;
            let mut i: usize = 0;
            while i < count
                invariant
                    count <= elements@.len(),
                    spec_is_aggregate(dd),
                    *d == dd,
                    tdata(*m, *ty) == Some(dd),
                    dd is Array ==> count == elements@.len(),
                    dd is Struct ==> count <= aggregate_arity(dd),
                    count == elements@.len() || count == aggregate_arity(dd),
                    i <= count,
                    extends(start, mid),
                    extends(mid, errors@),
                    mid.len() == start.len() <==> elements@.len() == aggregate_arity(dd),
                    errors@.len() == mid.len() <==> forall|k: int| 0 <= k < i ==> {
                        let e = #[trigger] elements@[k];
                        &&& (e.0 as int) < m.constants.constants@.len()
                        &&& (e.0 as int) < index
                        &&& spec_constant_fits(m.types.types@, m.constants.constants@[e.0 as int], aggregate_field(dd, k))
                    },
                decreases count - i,
            {
                let cid = elements[i];
                let field = match d {
                    TypeData::Array { element, .. } => *element,
                    TypeData::Struct { fields } => fields[i],
                    _ => TypeId(0),
                };
                let ghost before = errors@;
                if cid.index() >= m.constants.len() {
                    errors.push(VerifyError::UnknownConstant { constant: cid.0 });
                } else if cid.index() >= index {
                    let k = dec_string(i as u128);
                    push_invalid_constant(errors, index, concat_strs(&["element ", k.as_str(), " must reference an earlier constant (found self/forward reference)"]));
                } else {
                    let elem = &m.constants.constants[cid.index()];
                    if !constant_fits_type(&m.types, elem, field) {
                        let k = dec_string(i as u128);
                        let t = type_desc(m, field);
                        push_invalid_constant(errors, index, concat_strs(&["element ", k.as_str(), " does not match field type `", t.as_str(), "`"]));
                    }
                }
                proof {
                    assert(field == aggregate_field(dd, i as int));
                    if errors@.len() == mid.len() {
                        assert(before.len() == mid.len());
                    }
                }
                i = i + 1;
            }
        },
    }
}

fn check_result(m: &Module, fname: &str, op: &str, actual: Option<TypeId>, expected: TypeId, errors: &mut Vec<VerifyError>)
    ensures
        extends(old(errors)@, final(errors)@),
        actual == Some(expected) ==> final(errors)@ == old(errors)@,
        actual != Some(expected) ==> final(errors)@.len() == old(errors)@.len() + 1,
{
    match actual {
        Some(ty) => {
            if ty.0 != expected.0 {
                errors.push(VerifyError::InvalidResultType {
                    function: fname.to_owned(),
                    expected: type_desc(m, expected),
                    found: type_desc(m, ty),
                });
            }
        },
        None => {
            errors.push(VerifyError::InvalidResultType {
                function: fname.to_owned(),
                expected: type_desc(m, expected),
                found: concat_strs(&[op, " result value is missing"]),
            });
        },
    }
}

fn push_bad_operand(errors: &mut Vec<VerifyError>, fname: &str, reason: String)
    ensures
        final(errors)@.len() == old(errors)@.len() + 1,
        extends(old(errors)@, final(errors)@),
{
    errors.push(VerifyError::InvalidOperandType { function: fname.to_owned(), reason });
}

fn push_mismatch(errors: &mut Vec<VerifyError>, fname: &str, context: String, expected: String, found: String)
    ensures
        final(errors)@.len() == old(errors)@.len() + 1,
        extends(old(errors)@, final(errors)@),
{
    errors.push(VerifyError::TypeMismatch { function: fname.to_owned(), context, expected, found });
}

/// Reports a missing result of an instruction that must produce one.
fn check_presence(fname: &str, block: usize, inst: &Instruction, errors: &mut Vec<VerifyError>)
    ensures
        extends(old(errors)@, final(errors)@),
        inst.result is Some ==> final(errors)@ == old(errors)@,
        inst.result is None ==> final(errors)@.len() == old(errors)@.len() + 1,
{
    if inst.result.is_none() {
        let b = dec_string(block as u128);
        push_bad_operand(errors, fname, concat_strs(&["instruction in bb", b.as_str(), " is missing its result value"]));
    }
}

/// Arithmetic, bitwise and comparison instructions.
fn check_binary(m: &Module, f: &Function, fname: &str, block: usize, inst: &Instruction, errors: &mut Vec<VerifyError>)
    requires
        match inst.kind {
            InstructionKind::Add { .. } | InstructionKind::Sub { .. } | InstructionKind::Mul { .. } | InstructionKind::Div { .. }
            | InstructionKind::Rem { .. } | InstructionKind::And { .. } | InstructionKind::Or { .. } | InstructionKind::Xor { .. }
            | InstructionKind::Eq { .. } | InstructionKind::Ne { .. } | InstructionKind::Lt { .. } | InstructionKind::Le { .. }
            | InstructionKind::Gt { .. } | InstructionKind::Ge { .. } => true,
            _ => false,
        },
    ensures
        extends(old(errors)@, final(errors)@),
        operands_known(*f, inst.kind) ==> (final(errors)@.len() == old(errors)@.len() <==> kind_valid(*m, *f, *inst)),
{
    let (lhs, rhs, op, compares) = match inst.kind {
        InstructionKind::Add { lhs, rhs } => (lhs, rhs, "add", false),
        InstructionKind::Sub { lhs, rhs } => (lhs, rhs, "sub", false),
        InstructionKind::Mul { lhs, rhs } => (lhs, rhs, "mul", false),
        InstructionKind::Div { lhs, rhs } => (lhs, rhs, "div", false),
        InstructionKind::Rem { lhs, rhs } => (lhs, rhs, "rem", false),
        InstructionKind::And { lhs, rhs } => (lhs, rhs, "and", false),
        InstructionKind::Or { lhs, rhs } => (lhs, rhs, "or", false),
        InstructionKind::Xor { lhs, rhs } => (lhs, rhs, "xor", false),
        InstructionKind::Eq { lhs, rhs } => (lhs, rhs, "eq", true),
        InstructionKind::Ne { lhs, rhs } => (lhs, rhs, "ne", true),
        InstructionKind::Lt { lhs, rhs } => (lhs, rhs, "lt", true),
        InstructionKind::Le { lhs, rhs } => (lhs, rhs, "le", true),
        InstructionKind::Gt { lhs, rhs } => (lhs, rhs, "gt", true),
        InstructionKind::Ge { lhs, rhs } => (lhs, rhs, "ge", true),
        _ => (ValueId(0), ValueId(0), "", false),
    };
    let ghost start = errors@;
    proof {
        assert(inst_operands(inst.kind)[0] == lhs && inst_operands(inst.kind)[1] == rhs);
    }
    let lt = value_ty(f, lhs);
    let rt = value_ty(f, rhs);
    let mut pair: Option<TypeId> = None;
    match (lt, rt) {
        (Some(l), Some(r)) => {
            if l.0 != r.0 {
                let b = dec_string(block as u128);
                let ln = type_desc(m, l);
                let rn = type_desc(m, r);
                push_mismatch(errors, fname, concat_strs(&[op, " operands in bb", b.as_str()]), ln, rn);
            } else {
                let ok = match m.types.get(l) {
                    Some(d) => match inst.kind {
                        InstructionKind::Add { .. } | InstructionKind::Sub { .. } | InstructionKind::Mul { .. }
                        | InstructionKind::Div { .. } => d.is_arith_integer() || d.is_float(),
                        InstructionKind::Rem { .. } => d.is_arith_integer(),
                        InstructionKind::And { .. } | InstructionKind::Or { .. } | InstructionKind::Xor { .. } => d.is_integer(),
                        InstructionKind::Eq { .. } | InstructionKind::Ne { .. } => d.is_integer() || d.is_float() || d.is_pointer(),
                        _ => d.is_arith_integer() || d.is_float(),
                    },
                    None => false,
                };
                if !ok {
                    let b = dec_string(block as u128);
                    let ln = type_desc(m, l);
                    push_bad_operand(errors, fname, concat_strs(&[op, " operands in bb", b.as_str(), " have unsupported type `", ln.as_str(), "`"]));
                } else {
                    pair = Some(l);
                }
            }
        },
        _ => {},
    }
    let ghost after_pair = errors@;
    let actual = match inst.result {
        Some(v) => value_ty(f, v),
        None => None,
    };
    if compares {
        check_result(m, fname, op, actual, TypeId::I1(), errors);
    } else {
        match pair {
            Some(t) => check_result(m, fname, op, actual, t, errors),
            None => {},
        }
    }
    check_presence(fname, block, inst, errors);
}

/// Shift instructions: the left operand and the result share an integer
/// type of at least 8 bits; the count is any integer.
fn check_shift(m: &Module, f: &Function, fname: &str, block: usize, inst: &Instruction, errors: &mut Vec<VerifyError>)
    requires
        inst.kind is Shl || inst.kind is Shr,
    ensures
        extends(old(errors)@, final(errors)@),
        operands_known(*f, inst.kind) ==> (final(errors)@.len() == old(errors)@.len() <==> kind_valid(*m, *f, *inst)),
{
    let (lhs, rhs, op) = match inst.kind {
        InstructionKind::Shl { lhs, rhs } => (lhs, rhs, "shl"),
        InstructionKind::Shr { lhs, rhs } => (lhs, rhs, "shr"),
        _ => (ValueId(0), ValueId(0), ""),
    };
    proof {
        assert(inst_operands(inst.kind)[0] == lhs && inst_operands(inst.kind)[1] == rhs);
    }
    let actual = match inst.result {
        Some(v) => value_ty(f, v),
        None => None,
    };
    match value_ty(f, lhs) {
        Some(lt) => {
            let ok = match m.types.get(lt) {
                Some(d) => d.is_arith_integer(),
                None => false,
            };
            if !ok {
                let b = dec_string(block as u128);
                push_bad_operand(errors, fname, concat_strs(&[op, " left operand in bb", b.as_str(), " must be an integer of at least 8 bits"]));
            }
            check_result(m, fname, op, actual, lt, errors);
        },
        None => {},
    }
    match value_ty(f, rhs) {
        Some(rt) => {
            let ok = match m.types.get(rt) {
                Some(d) => d.is_integer(),
                None => false,
            };
            if !ok {
                let b = dec_string(block as u128);
                let t = type_desc(m, rt);
                push_bad_operand(errors, fname, concat_strs(&[op, " count in bb", b.as_str(), " must be an integer, found `", t.as_str(), "`"]));
            }
        },
        None => {},
    }
    check_presence(fname, block, inst, errors);
}

/// `const`: the constant exists and fits the result type. Returns false
/// when the constant does not exist (checking stops there).
fn check_const(m: &Module, f: &Function, fname: &str, block: usize, inst: &Instruction, errors: &mut Vec<VerifyError>) -> (go_on: bool)
    requires
        inst.kind is Const,
    ensures
        extends(old(errors)@, final(errors)@),
        !go_on ==> final(errors)@.len() > old(errors)@.len() && !kind_valid(*m, *f, *inst),
        go_on ==> (final(errors)@.len() == old(errors)@.len() <==> kind_valid(*m, *f, *inst)),
{
    let cid = match inst.kind {
        InstructionKind::Const(c) => c,
        _ => ConstantId(0),
    };
    if cid.index() >= m.constants.len() {
        errors.push(VerifyError::UnknownConstant { constant: cid.0 });
        return false;
    }
    let data = &m.constants.constants[cid.index()];
    let actual = match inst.result {
        Some(v) => value_ty(f, v),
        None => None,
    };
    match actual {
        Some(ty) => {
            if !constant_fits_type(&m.types, data, ty) {
                let which = match data {
                    ConstantData::Int { ty, .. } => type_desc(m, *ty),
                    ConstantData::Float { ty, .. } => type_desc(m, *ty),
                    ConstantData::Null { pointee } => {
                        let p = type_desc(m, *pointee);
                        concat_strs(&["ptr<", p.as_str(), ">"])
                    },
                    ConstantData::String { .. } => concat_strs(&["ptr<i8>"]),
                    ConstantData::Aggregate { ty, .. } => type_desc(m, *ty),
                };
                errors.push(VerifyError::InvalidResultType { function: fname.to_owned(), expected: which, found: type_desc(m, ty) });
            }
        },
        None => {
            let b = dec_string(block as u128);
            push_bad_operand(errors, fname, concat_strs(&["const in bb", b.as_str(), " is missing its result value"]));
        },
    }
    check_presence(fname, block, inst, errors);
    true
}

fn pointer_target(m: &Module, t: Option<TypeId>) -> (r: Option<TypeId>)
    ensures
        r == pointee_of(*m, t),
{
    match t {
        Some(x) => match m.types.get(x) {
            Some(TypeData::Pointer { pointee, .. }) => Some(*pointee),
            _ => None,
        },
        None => None,
    }
}

fn type_holds_first_class(m: &Module, t: TypeId) -> (r: bool)
    ensures
        r == has_type(*m, Some(t), |d: TypeData| spec_is_first_class(d)),
{
    match m.types.get(t) {
        Some(d) => d.is_first_class(),
        None => false,
    }
}

/// Memory instructions: `alloca`, `load`, `store` and `ptr_offset`.
/// Returns false when checking stops early.
fn check_memory(m: &Module, f: &Function, fname: &str, block: usize, inst: &Instruction, errors: &mut Vec<VerifyError>) -> (go_on: bool)
    requires
        inst.kind is Alloca || inst.kind is Load || inst.kind is Store || inst.kind is PtrOffset,
    ensures
        extends(old(errors)@, final(errors)@),
        !go_on ==> final(errors)@.len() > old(errors)@.len() && !kind_valid(*m, *f, *inst),
        go_on && operands_known(*f, inst.kind) ==> (final(errors)@.len() == old(errors)@.len() <==> kind_valid(*m, *f, *inst)),
{
    let actual = match inst.result {
        Some(v) => value_ty(f, v),
        None => None,
    };
    let b = dec_string(block as u128);
    match inst.kind {
        InstructionKind::Alloca { pointee } => {
            if !type_holds_first_class(m, pointee) {
                let t = type_desc(m, pointee);
                push_bad_operand(errors, fname, concat_strs(&["alloca pointee `", t.as_str(), "` in bb", b.as_str(), " is not first-class"]));
            }
            match actual {
                Some(ty) => {
                    let ok = match m.types.get(ty) {
                        Some(TypeData::Pointer { pointee: p, address_space }) => p.0 == pointee.0 && *address_space == 0,
                        _ => false,
                    };
                    if !ok {
                        let t = type_desc(m, pointee);
                        errors.push(VerifyError::InvalidResultType {
                            function: fname.to_owned(),
                            expected: concat_strs(&["ptr<", t.as_str(), ">"]),
                            found: type_desc(m, ty),
                        });
                    }
                },
                None => {
                    let t = type_desc(m, pointee);
                    errors.push(VerifyError::InvalidResultType {
                        function: fname.to_owned(),
                        expected: concat_strs(&["ptr<", t.as_str(), ">"]),
                        found: concat_strs(&["void"]),
                    });
                },
            }
            check_presence(fname, block, inst, errors);
            true
        },
        InstructionKind::Load { ty, pointer } => {
            match pointer_target(m, value_ty(f, pointer)) {
                Some(pointee) => {
                    if !type_holds_first_class(m, ty) {
                        let t = type_desc(m, ty);
                        push_bad_operand(errors, fname, concat_strs(&["load type `", t.as_str(), "` in bb", b.as_str(), " is not first-class"]));
                    } else if pointee.0 != ty.0 {
                        push_mismatch(errors, fname, concat_strs(&["load pointer pointee in bb", b.as_str()]), type_desc(m, ty), type_desc(m, pointee));
                    }
                    check_result(m, fname, "load", actual, ty, errors);
                },
                None => {
                    push_bad_operand(errors, fname, concat_strs(&["load pointer operand in bb", b.as_str(), " is not a pointer"]));
                },
            }
            check_presence(fname, block, inst, errors);
            true
        },
        InstructionKind::Store { pointer, value } => {
            proof {
                assert(inst_operands(inst.kind)[1] == value);
            }
            if inst.result.is_some() {
                push_bad_operand(errors, fname, concat_strs(&["store in bb", b.as_str(), " must not produce a value"]));
            }
            match pointer_target(m, value_ty(f, pointer)) {
                Some(pointee) => match value_ty(f, value) {
                    Some(vt) => {
                        if vt.0 != pointee.0 {
                            push_mismatch(errors, fname, concat_strs(&["store value in bb", b.as_str()]), type_desc(m, pointee), type_desc(m, vt));
                        }
                    },
                    None => {},
                },
                None => {
                    push_bad_operand(errors, fname, concat_strs(&["store pointer operand in bb", b.as_str(), " is not a pointer"]));
                },
            }
            true
        },
        InstructionKind::PtrOffset { pointer, offset } => {
            proof {
                assert(inst_operands(inst.kind)[1] == offset);
            }
            let pty = value_ty(f, pointer);
            let pt = match pty {
                Some(t) => {
                    if pointer_target(m, pty).is_some() {
                        t
                    } else {
                        push_bad_operand(errors, fname, concat_strs(&["ptr_offset base in bb", b.as_str(), " is not a pointer"]));
                        return false;
                    }
                },
                None => {
                    push_bad_operand(errors, fname, concat_strs(&["ptr_offset base in bb", b.as_str(), " is not a pointer"]));
                    return false;
                },
            };
            match value_ty(f, offset) {
                Some(ot) => {
                    let ok = match m.types.get(ot) {
                        Some(d) => d.is_arith_integer(),
                        None => false,
                    };
                    if !ok {
                        let t = type_desc(m, ot);
                        push_bad_operand(errors, fname, concat_strs(&["ptr_offset offset in bb", b.as_str(), " must be an integer, found `", t.as_str(), "`"]));
                    }
                },
                None => {},
            }
            check_result(m, fname, "ptr_offset", actual, pt, errors);
            check_presence(fname, block, inst, errors);
            true
        },
        _ => true,
    }
}

/// Value conversions and pointer casts.
fn check_conversion(m: &Module, f: &Function, fname: &str, block: usize, inst: &Instruction, errors: &mut Vec<VerifyError>)
    requires
        inst.kind is Ext || inst.kind is Trunc || inst.kind is IntToFloat || inst.kind is FloatToInt || inst.kind is PtrCast,
    ensures
        extends(old(errors)@, final(errors)@),
        operands_known(*f, inst.kind) ==> (final(errors)@.len() == old(errors)@.len() <==> kind_valid(*m, *f, *inst)),
{
    let actual = match inst.result {
        Some(v) => value_ty(f, v),
        None => None,
    };
    let b = dec_string(block as u128);
    let (to, value, op) = match inst.kind {
        InstructionKind::Ext { to, value } => (to, value, "ext"),
        InstructionKind::Trunc { to, value } => (to, value, "trunc"),
        InstructionKind::IntToFloat { to, value } => (to, value, "int_to_float"),
        InstructionKind::FloatToInt { to, value } => (to, value, "float_to_int"),
        InstructionKind::PtrCast { to, pointer } => (to, pointer, "ptr_cast"),
        _ => (TypeId(0), ValueId(0), ""),
    };
    proof {
        assert(inst_operands(inst.kind)[0] == value);
    }
    let from = value_ty(f, value);
    let from_data = match from {
        Some(t) => m.types.get(t),
        None => None,
    };
    let to_data = m.types.get(to);
    let (from_ok, to_ok) = match (from_data, to_data) {
        (Some(fd), Some(td)) => match inst.kind {
            InstructionKind::Ext { .. } => (fd.is_integer(), td.is_arith_integer()),
            InstructionKind::Trunc { .. } => (fd.is_integer(), td.is_integer()),
            InstructionKind::IntToFloat { .. } => (fd.is_arith_integer(), td.is_float()),
            InstructionKind::FloatToInt { .. } => (fd.is_float(), td.is_arith_integer()),
            _ => (fd.is_pointer(), td.is_pointer()),
        },
        (Some(fd), None) => (match inst.kind {
            InstructionKind::Ext { .. } => fd.is_integer(),
            InstructionKind::Trunc { .. } => fd.is_integer(),
            InstructionKind::IntToFloat { .. } => fd.is_arith_integer(),
            InstructionKind::FloatToInt { .. } => fd.is_float(),
            _ => fd.is_pointer(),
        }, false),
        (None, Some(td)) => (false, match inst.kind {
            InstructionKind::Ext { .. } => td.is_arith_integer(),
            InstructionKind::Trunc { .. } => td.is_integer(),
            InstructionKind::IntToFloat { .. } => td.is_float(),
            InstructionKind::FloatToInt { .. } => td.is_arith_integer(),
            _ => td.is_pointer(),
        }),
        (None, None) => (false, false),
    };
    if !from_ok || !to_ok {
        let reason = match inst.kind {
            InstructionKind::Ext { .. } => concat_strs(&["ext in bb", b.as_str(), " requires integer operand and integer target"]),
            InstructionKind::Trunc { .. } => concat_strs(&["trunc in bb", b.as_str(), " requires integer operand and integer target"]),
            InstructionKind::IntToFloat { .. } => concat_strs(&["int_to_float in bb", b.as_str(), " requires integer operand and float target"]),
            InstructionKind::FloatToInt { .. } => concat_strs(&["float_to_int in bb", b.as_str(), " requires float operand and integer target"]),
            _ => concat_strs(&["ptr_cast in bb", b.as_str(), " requires pointer operand and pointer target"]),
        };
        push_bad_operand(errors, fname, reason);
    } else {
        match (from_data, to_data) {
            (Some(TypeData::Int { bits: fb, .. }), Some(TypeData::Int { bits: tb, .. })) => {
                let fname_t = match from {
                    Some(t) => type_desc(m, t),
                    None => concat_strs(&[""]),
                };
                let tname_t = type_desc(m, to);
                match inst.kind {
                    InstructionKind::Ext { .. } => {
                        if *tb <= *fb {
                            push_bad_operand(errors, fname, concat_strs(&["ext in bb", b.as_str(), " must widen (", fname_t.as_str(), " -> ", tname_t.as_str(), ")"]));
                        }
                    },
                    InstructionKind::Trunc { .. } => {
                        if *tb >= *fb {
                            push_bad_operand(errors, fname, concat_strs(&["trunc in bb", b.as_str(), " must narrow (", fname_t.as_str(), " -> ", tname_t.as_str(), ")"]));
                        }
                    },
                    _ => {},
                }
            },
            _ => {},
        }
    }
    check_result(m, fname, op, actual, to, errors);
    check_presence(fname, block, inst, errors);
}

/// Direct calls: arity, argument types and result.
/// The name of `g` in messages: its symbol, or `<invalid>` when the
/// symbol does not exist.
pub open spec fn callee_text(m: Module, g: Function) -> Seq<char> {
    if (g.symbol.0 as int) < m.symbols.names@.len() {
        m.symbols.view_names()[g.symbol.0 as int]
    } else {
        "<invalid>"@
    }
}

/// A call of `g` with `n` arguments has the wrong number of them.
pub open spec fn arity_wrong(g: Function, n: int) -> bool {
    if g.variadic {
        n < g.params@.len()
    } else {
        n != g.params@.len()
    }
}

/// How the number of arguments `g` takes is described.
pub open spec fn arity_text(g: Function) -> Seq<char> {
    if g.variadic {
        "at least "@ + dec_chars(g.params@.len())
    } else {
        dec_chars(g.params@.len())
    }
}

/// `e` reports a call from `fname` to `callee` with `found` arguments
/// where `expected` are needed.
pub open spec fn is_arity_mismatch(e: VerifyError, fname: Seq<char>, callee: Seq<char>, expected: Seq<char>, found: int) -> bool {
    e matches VerifyError::CallArityMismatch { function, callee: c, expected: x, found: n } && function@ == fname && c@
        == callee && x@ == expected && n as int == found
}

/// Among the errors from `from` on, one reports that call.
pub open spec fn reports_arity_mismatch(
    errs: Seq<VerifyError>,
    from: int,
    fname: Seq<char>,
    callee: Seq<char>,
    expected: Seq<char>,
    found: int,
) -> bool {
    exists|j: int| 0 <= from <= j < errs.len() && is_arity_mismatch(#[trigger] errs[j], fname, callee, expected, found)
}

/// `inst` calls a function of `m` with the wrong number of arguments,
/// in a function whose value arena holds its parameters.
pub open spec fn call_arity_wrong(m: Module, f: Function, inst: Instruction) -> bool {
    &&& f.values@.len() >= f.params@.len()
    &&& inst.kind matches InstructionKind::Call { callee, args } && (callee.0 as int) < m.functions@.len() && arity_wrong(
        m.functions@[callee.0 as int],
        args@.len() as int,
    )
}

/// The report owed for a call with the wrong number of arguments.
pub open spec fn reports_call_arity(m: Module, inst: Instruction, errs: Seq<VerifyError>, from: int, fname: Seq<char>) -> bool {
    inst.kind matches InstructionKind::Call { callee, args } && reports_arity_mismatch(
        errs,
        from,
        fname,
        callee_text(m, m.functions@[callee.0 as int]),
        arity_text(m.functions@[callee.0 as int]),
        args@.len() as int,
    )
}

/// Appending errors, or counting them from an earlier position, keeps
/// the report on a call's arity.
pub proof fn lemma_call_arity_kept(m: Module, inst: Instruction, a: Seq<VerifyError>, c: Seq<VerifyError>, from: int, wider: int, fname: Seq<char>)
    requires
        extends(a, c),
        0 <= wider <= from,
        reports_call_arity(m, inst, a, from, fname),
    ensures
        reports_call_arity(m, inst, c, wider, fname),
{
    if let InstructionKind::Call { callee, args } = inst.kind {
        let g = m.functions@[callee.0 as int];
        let j = choose|j: int| 0 <= from <= j < a.len() && is_arity_mismatch(
            #[trigger] a[j],
            fname,
            callee_text(m, g),
            arity_text(g),
            args@.len() as int,
        );
        assert(c[j] == a[j]);
    }
}

fn check_call(m: &Module, f: &Function, fname: &str, block: usize, inst: &Instruction, errors: &mut Vec<VerifyError>)
    requires
        inst.kind is Call,
    ensures
        extends(old(errors)@, final(errors)@),
        operands_known(*f, inst.kind) ==> (final(errors)@.len() == old(errors)@.len() <==> kind_valid(*m, *f, *inst)),
        call_arity_wrong(*m, *f, *inst) ==> reports_call_arity(*m, *inst, final(errors)@, old(errors)@.len() as int, fname@),
{
    let ghost e0 = errors@;
    let (callee, args) = match &inst.kind {
        InstructionKind::Call { callee, args } => (*callee, args),
        _ => {
            return;
        },
    };
    let ci = callee.index();
    if ci >= m.functions.len() {
        errors.push(VerifyError::UnknownFunction { function: fname.to_owned(), callee: callee.0 });
        return;
    }
    let g = &m.functions[ci];
    let callee_name = match m.symbol_name(g.symbol) {
        Some(n) => n.to_owned(),
        None => "<invalid>".to_owned(),
    };
    let fixed = g.params.len();
    let ghost start = errors@;
    if g.variadic {
        if args.len() < fixed {
            let e = dec_string(fixed as u128);
            errors.push(VerifyError::CallArityMismatch {
                function: fname.to_owned(),
                callee: callee_name.clone(),
                expected: cat2("at least ", e.as_str()),
                found: args.len(),
            });
        }
    } else if args.len() != fixed {
        errors.push(VerifyError::CallArityMismatch {
            function: fname.to_owned(),
            callee: callee_name.clone(),
            expected: dec_string(fixed as u128),
            found: args.len(),
        });
    }
    let ghost mid = errors@;
    proof {
        if arity_wrong(*g, args@.len() as int) {
            assert(callee_name@ == callee_text(*m, *g));
            assert(is_arity_mismatch(mid[mid.len() - 1], fname@, callee_text(*m, *g), arity_text(*g), args@.len() as int));
            assert(reports_call_arity(*m, *inst, mid, e0.len() as int, fname@));
        }
    }
    let n = args.len();
    let mut i: usize = 0;
    while i < n
        invariant
            n == args@.len(),
            ci < m.functions@.len(),
            *g == m.functions@[ci as int],
            fixed == g.params@.len(),
            i <= n,
            extends(start, mid),
            extends(mid, errors@),
            errors@.len() == mid.len() <==> (forall|k: int| 0 <= k < i && k < fixed ==> (vty(*f, #[trigger] args@[k]) is Some
                ==> vty(*f, args@[k]) == Some(g.params@[k].ty))) && (forall|k: int| fixed <= k < i ==> (vty(*f, #[trigger] args@[k]) is Some
                ==> has_type(*m, vty(*f, args@[k]), |d: TypeData| spec_is_first_class(d)))),
        decreases n - i,
    {
        let ghost before = errors@;
        match value_ty(f, args[i]) {
            Some(actual) => {
                if i < fixed {
                    let expected = g.params[i].ty;
                    if actual.0 != expected.0 {
                        errors.push(VerifyError::CallArgTypeMismatch {
                            function: fname.to_owned(),
                            callee: callee_name.clone(),
                            index: i,
                            expected: type_desc(m, expected),
                            found: type_desc(m, actual),
                        });
                    }
                } else if !type_holds_first_class(m, actual) {
                    errors.push(VerifyError::CallArgTypeMismatch {
                        function: fname.to_owned(),
                        callee: callee_name.clone(),
                        index: i,
                        expected: concat_strs(&["a first-class type"]),
                        found: type_desc(m, actual),
                    });
                }
            },
            None => {},
        }
        proof {
            if errors@.len() == mid.len() {
                assert(before.len() == mid.len());
            }
        }
        i = i + 1;
    }
    let ghost after_args = errors@;
    let result_void = match m.types.get(g.result) {
        Some(d) => d.is_void(),
        None => false,
    };
    match inst.result {
        Some(r) => {
            if !result_void {
                match value_ty(f, r) {
                    Some(actual) => {
                        if actual.0 != g.result.0 {
                            errors.push(VerifyError::InvalidResultType {
                                function: fname.to_owned(),
                                expected: type_desc(m, g.result),
                                found: type_desc(m, actual),
                            });
                        }
                    },
                    None => {},
                }
            } else {
                let b = dec_string(block as u128);
                push_bad_operand(errors, fname, concat_strs(&["call to `", callee_name.as_str(), "` in bb", b.as_str(), " returns void and must not produce a value"]));
            }
        },
        None => {
            if !result_void {
                let b = dec_string(block as u128);
                push_bad_operand(errors, fname, concat_strs(&["call to `", callee_name.as_str(), "` in bb", b.as_str(), " returns a value and needs a result"]));
            }
        },
    }
    proof {
        assert(extends(after_args, errors@));
        crate::verify::lemma_extends_trans(mid, after_args, errors@);
        if arity_wrong(*g, args@.len() as int) {
            lemma_call_arity_kept(*m, *inst, mid, errors@, e0.len() as int, e0.len() as int, fname@);
        }
    }
}

/// Number of fields and type of field `i` of the aggregate type `ty`.
fn field_of(m: &Module, ty: TypeId, i: usize) -> (r: Option<(u64, TypeId)>)
    ensures
        !has_type(*m, Some(ty), |d: TypeData| spec_is_aggregate(d)) ==> r is None,
        has_type(*m, Some(ty), |d: TypeData| spec_is_aggregate(d)) ==> (r matches Some((n, t)) && n == aggregate_arity(tdata(*m, ty).unwrap())
            && ((i as int) < n ==> t == aggregate_field(tdata(*m, ty).unwrap(), i as int))),
{
    match m.types.get(ty) {
        Some(TypeData::Array { element, length }) => Some((*length, *element)),
        Some(TypeData::Struct { fields }) => {
            if i < fields.len() {
                Some((fields.len() as u64, fields[i]))
            } else {
                Some((fields.len() as u64, TypeId(0)))
            }
        },
        _ => None,
    }
}

/// Aggregate instructions: `construct`, `extract` and `insert`.
fn check_aggregate(m: &Module, f: &Function, fname: &str, block: usize, inst: &Instruction, errors: &mut Vec<VerifyError>)
    requires
        inst.kind is Construct || inst.kind is Extract || inst.kind is Insert,
    ensures
        extends(old(errors)@, final(errors)@),
        operands_known(*f, inst.kind) ==> (final(errors)@.len() == old(errors)@.len() <==> kind_valid(*m, *f, *inst)),
{
    let actual = match inst.result {
        Some(v) => value_ty(f, v),
        None => None,
    };
    let b = dec_string(block as u128);
    let ghost start = errors@;
    match &inst.kind {
        InstructionKind::Construct { ty, fields } => {
            let ty = *ty;
            match field_of(m, ty, 0) {
                Some((arity, _)) => {
                    if arity != fields.len() as u64 {
                        let t = type_desc(m, ty);
                        let a = dec_string(arity as u128);
                        let c = dec_string(fields.len() as u128);
                        push_bad_operand(errors, fname, concat_strs(&["construct of `", t.as_str(), "` in bb", b.as_str(), " needs ", a.as_str(), " field(s), found ", c.as_str()]));
                    }
                    let ghost mid = errors@;
                    let count: usize = if (fields.len() as u64) < arity { fields.len() } else { arity as usize };
                    let mut i: usize = 0;
                    while i < count
                        invariant
                            count as int == if (fields@.len() as int) < arity as int { fields@.len() as int } else { arity as int },
                            has_type(*m, Some(ty), |d: TypeData| spec_is_aggregate(d)),
                            arity == aggregate_arity(tdata(*m, ty).unwrap()),
                            i <= count,
                            extends(start, mid),
                            extends(mid, errors@),
                            errors@.len() == mid.len() <==> forall|k: int| 0 <= k < i ==> (vty(*f, #[trigger] fields@[k]) is Some
                                ==> vty(*f, fields@[k]) == Some(aggregate_field(tdata(*m, ty).unwrap(), k))),
                        decreases count - i,
                    {
                        let ghost before = errors@;
                        let want = match field_of(m, ty, i) {
                            Some((_, t)) => t,
                            None => TypeId(0),
                        };
                        match value_ty(f, fields[i]) {
                            Some(got) => {
                                if got.0 != want.0 {
                                    let k = dec_string(i as u128);
                                    push_mismatch(errors, fname, concat_strs(&["construct field ", k.as_str(), " in bb", b.as_str()]), type_desc(m, want), type_desc(m, got));
                                }
                            },
                            None => {},
                        }
                        proof {
                            if errors@.len() == mid.len() {
                                assert(before.len() == mid.len());
                            }
                        }
                        i = i + 1;
                    }
                },
                None => {
                    let t = type_desc(m, ty);
                    push_bad_operand(errors, fname, concat_strs(&["construct in bb", b.as_str(), " targets non-aggregate type `", t.as_str(), "`"]));
                },
            }
            check_result(m, fname, "construct", actual, ty, errors);
        },
        InstructionKind::Extract { aggregate, index } => {
            proof {
                assert(inst_operands(inst.kind)[0] == *aggregate);
            }
            match value_ty(f, *aggregate) {
                Some(aty) => match field_of(m, aty, *index as usize) {
                    Some((arity, field)) => {
                        if (*index as u64) < arity {
                            check_result(m, fname, "extract", actual, field, errors);
                        } else {
                            let k = dec_string(*index as u128);
                            push_bad_operand(errors, fname, concat_strs(&["extract index ", k.as_str(), " out of range in bb", b.as_str()]));
                        }
                    },
                    None => {
                        push_bad_operand(errors, fname, concat_strs(&["extract in bb", b.as_str(), " requires an aggregate operand"]));
                    },
                },
                None => {
                    push_bad_operand(errors, fname, concat_strs(&["extract in bb", b.as_str(), " requires an aggregate operand"]));
                },
            }
        },
        InstructionKind::Insert { aggregate, index, value } => {
            proof {
                assert(inst_operands(inst.kind)[0] == *aggregate);
                assert(inst_operands(inst.kind)[1] == *value);
            }
            match value_ty(f, *aggregate) {
                Some(aty) => match field_of(m, aty, *index as usize) {
                    Some((arity, field)) => {
                        if (*index as u64) < arity {
                            match value_ty(f, *value) {
                                Some(got) => {
                                    if got.0 != field.0 {
                                        let k = dec_string(*index as u128);
                                        push_mismatch(errors, fname, concat_strs(&["insert field ", k.as_str(), " in bb", b.as_str()]), type_desc(m, field), type_desc(m, got));
                                    }
                                },
                                None => {},
                            }
                            check_result(m, fname, "insert", actual, aty, errors);
                        } else {
                            let k = dec_string(*index as u128);
                            push_bad_operand(errors, fname, concat_strs(&["insert index ", k.as_str(), " out of range in bb", b.as_str()]));
                        }
                    },
                    None => {
                        push_bad_operand(errors, fname, concat_strs(&["insert in bb", b.as_str(), " requires an aggregate operand"]));
                    },
                },
                None => {
                    push_bad_operand(errors, fname, concat_strs(&["insert in bb", b.as_str(), " requires an aggregate operand"]));
                },
            }
        },
        _ => {},
    }
    check_presence(fname, block, inst, errors);
}

/// `e` reports `v` as an unknown value of the function named `fname`.
pub open spec fn unknown_report(e: VerifyError, fname: Seq<char>, v: u32) -> bool {
    e matches VerifyError::UnknownValue { function, value } && function@ == fname && value == v
}

/// Among the errors from position `from` on, one reports `v` as an
/// unknown value of the function named `fname`.
pub open spec fn reports_unknown(errs: Seq<VerifyError>, from: int, fname: Seq<char>, v: u32) -> bool {
    exists|j: int| 0 <= from <= j < errs.len() && unknown_report(#[trigger] errs[j], fname, v)
}

/// Appending errors keeps every report already made.
pub proof fn lemma_reports_unknown_kept(a: Seq<VerifyError>, b: Seq<VerifyError>, from: int, fname: Seq<char>, v: u32)
    requires
        extends(a, b),
        reports_unknown(a, from, fname, v),
    ensures
        reports_unknown(b, from, fname, v),
{
    let j = choose|j: int| 0 <= from <= j < a.len() && unknown_report(#[trigger] a[j], fname, v);
    assert(b[j] == a[j]);
}

/// Checks instruction `inst` of block `block` of `f`: every operand must
/// be a value of `f`, and the instruction must be well typed.
pub fn check_instruction(m: &Module, f: &Function, fname: &str, block: usize, inst: &Instruction, errors: &mut Vec<VerifyError>)
    ensures
        extends(old(errors)@, final(errors)@),
        final(errors)@.len() == old(errors)@.len() <==> inst_valid(*m, *f, *inst),
        forall|k: int| 0 <= k < inst_operands(inst.kind).len() && (#[trigger] inst_operands(inst.kind)[k].0 as int) >= f.values@.len()
            ==> reports_unknown(final(errors)@, old(errors)@.len() as int, fname@, inst_operands(inst.kind)[k].0),
        call_arity_wrong(*m, *f, *inst) ==> reports_call_arity(*m, *inst, final(errors)@, old(errors)@.len() as int, fname@),
{
    let ghost start = errors@;
    let operands = inst.kind.visit_values();
    let mut i: usize = 0;
    while i < operands.len()
        invariant
            operands@ == inst_operands(inst.kind),
            i <= operands@.len(),
            extends(start, errors@),
            errors@.len() == start.len() <==> forall|k: int| 0 <= k < i ==> (#[trigger] operands@[k].0 as int) < f.values@.len(),
            forall|k: int| 0 <= k < i && (#[trigger] operands@[k].0 as int) >= f.values@.len() ==> reports_unknown(
                errors@,
                start.len() as int,
                fname@,
                operands@[k].0,
            ),
        decreases operands@.len() - i,
    {
        let v = operands[i];
        let ghost before = errors@;
        if v.index() >= f.values.len() {
            errors.push(VerifyError::UnknownValue { function: fname.to_owned(), value: v.0 });
            proof {
                assert forall|k: int| 0 <= k < i && (#[trigger] operands@[k].0 as int) >= f.values@.len() implies reports_unknown(
                    errors@,
                    start.len() as int,
                    fname@,
                    operands@[k].0,
                ) by {
                    lemma_reports_unknown_kept(before, errors@, start.len() as int, fname@, operands@[k].0);
                }
                let last = errors@.len() - 1;
                assert(unknown_report(errors@[last], fname@, v.0));
                assert(reports_unknown(errors@, start.len() as int, fname@, v.0));
            }
        }
        i = i + 1;
    }
    proof {
        assert(errors@.len() == start.len() <==> operands_known(*f, inst.kind));
    }
    let ghost after_ops = errors@;
    if f.values.len() < f.params.len() {
        return;
    }
    let ghost mid = errors@;
    match inst.kind {
        InstructionKind::Const(_) => {
            check_const(m, f, fname, block, inst, errors);
        },
        InstructionKind::Add { .. } | InstructionKind::Sub { .. } | InstructionKind::Mul { .. } | InstructionKind::Div { .. }
        | InstructionKind::Rem { .. } | InstructionKind::And { .. } | InstructionKind::Or { .. } | InstructionKind::Xor { .. }
        | InstructionKind::Eq { .. } | InstructionKind::Ne { .. } | InstructionKind::Lt { .. } | InstructionKind::Le { .. }
        | InstructionKind::Gt { .. } | InstructionKind::Ge { .. } => {
            check_binary(m, f, fname, block, inst, errors);
        },
        InstructionKind::Shl { .. } | InstructionKind::Shr { .. } => {
            check_shift(m, f, fname, block, inst, errors);
        },
        InstructionKind::Alloca { .. } | InstructionKind::Load { .. } | InstructionKind::Store { .. }
        | InstructionKind::PtrOffset { .. } => {
            check_memory(m, f, fname, block, inst, errors);
        },
        InstructionKind::Ext { .. } | InstructionKind::Trunc { .. } | InstructionKind::IntToFloat { .. }
        | InstructionKind::FloatToInt { .. } | InstructionKind::PtrCast { .. } => {
            check_conversion(m, f, fname, block, inst, errors);
        },
        InstructionKind::Call { .. } => {
            check_call(m, f, fname, block, inst, errors);
        },
        InstructionKind::Construct { .. } | InstructionKind::Extract { .. } | InstructionKind::Insert { .. } => {
            check_aggregate(m, f, fname, block, inst, errors);
        },
    }
    proof {
        assert forall|k: int| 0 <= k < inst_operands(inst.kind).len() && (#[trigger] inst_operands(inst.kind)[k].0 as int)
            >= f.values@.len() implies reports_unknown(errors@, start.len() as int, fname@, inst_operands(inst.kind)[k].0) by {
            assert(operands@[k] == inst_operands(inst.kind)[k]);
            lemma_reports_unknown_kept(after_ops, errors@, start.len() as int, fname@, inst_operands(inst.kind)[k].0);
        }
        if call_arity_wrong(*m, *f, *inst) {
            lemma_call_arity_kept(*m, *inst, errors@, errors@, mid.len() as int, start.len() as int, fname@);
        }
    }
}

} // verus!
