//! The instruction set.
//!
//! Instructions are structured enums, never opcode strings. Control flow
//! lives in [`crate::Terminator`], not in instructions.

use vstd::prelude::*;

use crate::id::{ConstantId, FunctionId, TypeId, ValueId};
use crate::span::Span;

verus! {

/// What an instruction does, together with its operands. All binary forms
/// name their operands `lhs`/`rhs`.
#[allow(missing_docs)]
#[derive(Debug, Clone, PartialEq, Eq)]
pub enum InstructionKind {
    /// Materialize a constant from the module constant pool.
    Const(ConstantId),
    /// `lhs + rhs` (wrapping).
    Add { lhs: ValueId, rhs: ValueId },
    /// `lhs - rhs` (wrapping).
    Sub { lhs: ValueId, rhs: ValueId },
    /// `lhs * rhs` (wrapping).
    Mul { lhs: ValueId, rhs: ValueId },
    /// `lhs / rhs` (signed types: truncating; division by zero is undefined).
    Div { lhs: ValueId, rhs: ValueId },
    /// `lhs % rhs` (sign follows the dividend).
    Rem { lhs: ValueId, rhs: ValueId },
    /// Bitwise AND.
    And { lhs: ValueId, rhs: ValueId },
    /// Bitwise OR.
    Or { lhs: ValueId, rhs: ValueId },
    /// Bitwise XOR.
    Xor { lhs: ValueId, rhs: ValueId },
    /// Shift left (`rhs` is an unsigned count; counts >= width yield 0).
    Shl { lhs: ValueId, rhs: ValueId },
    /// Shift right (arithmetic for signed `lhs`, logical for unsigned).
    Shr { lhs: ValueId, rhs: ValueId },
    /// Equality.
    Eq { lhs: ValueId, rhs: ValueId },
    /// Inequality.
    Ne { lhs: ValueId, rhs: ValueId },
    /// Less than (signed/unsigned/float per operand type).
    Lt { lhs: ValueId, rhs: ValueId },
    /// Less or equal.
    Le { lhs: ValueId, rhs: ValueId },
    /// Greater than.
    Gt { lhs: ValueId, rhs: ValueId },
    /// Greater or equal.
    Ge { lhs: ValueId, rhs: ValueId },
    /// Allocate a stack slot for a value of type `pointee`; yields `ptr<pointee>`.
    Alloca { pointee: TypeId },
    /// Load a value of type `ty` from `pointer` (`ptr<ty>`).
    Load { ty: TypeId, pointer: ValueId },
    /// Store `value` into `pointer` (no result).
    Store { pointer: ValueId, value: ValueId },
    /// Element-wise pointer offset; same pointer type as `pointer`.
    PtrOffset { pointer: ValueId, offset: ValueId },
    /// Integer extend (sign-extend for signed sources). Strictly widening.
    Ext { to: TypeId, value: ValueId },
    /// Integer truncate. Strictly narrowing; wraps.
    Trunc { to: TypeId, value: ValueId },
    /// Integer to float (round to nearest, ties to even).
    IntToFloat { to: TypeId, value: ValueId },
    /// Float to integer (truncate toward zero, NaN -> 0, saturating).
    FloatToInt { to: TypeId, value: ValueId },
    /// Pointer to pointer cast (address preserved).
    PtrCast { to: TypeId, pointer: ValueId },
    /// Direct call of a defined function or a declaration.
    Call { callee: FunctionId, args: Vec<ValueId> },
    /// Construct an aggregate from field values.
    Construct { ty: TypeId, fields: Vec<ValueId> },
    /// Read field `index` of an aggregate.
    Extract { aggregate: ValueId, index: u32 },
    /// `aggregate` with field `index` replaced by `value`.
    Insert { aggregate: ValueId, index: u32, value: ValueId },
}

/// A single instruction with its optional SSA result and span.
#[derive(Debug, Clone, PartialEq, Eq)]
pub struct Instruction {
    /// What the instruction does.
    pub kind: InstructionKind,
    /// SSA value produced by this instruction, if any (`store` and
    /// `void`-returning calls produce none).
    pub result: Option<ValueId>,
    /// Optional source span (parsed IR only).
    pub span: Option<Span>,
}

impl Instruction {
    /// Creates an instruction without a span.
    pub fn new(kind: InstructionKind, result: Option<ValueId>) -> (r: Self)
        ensures
            r.kind == kind,
            r.result == result,
            r.span is None,
    {
        Instruction { kind, result, span: None }
    }
}

/// The values an instruction reads, in operand order.
pub open spec fn inst_operands(k: InstructionKind) -> Seq<ValueId> {
    match k {
        InstructionKind::Const(_) => seq![],
        InstructionKind::Alloca { .. } => seq![],
            InstructionKind::Add { lhs, rhs } => seq![lhs, rhs],
            InstructionKind::Sub { lhs, rhs } => seq![lhs, rhs],
            InstructionKind::Mul { lhs, rhs } => seq![lhs, rhs],
            InstructionKind::Div { lhs, rhs } => seq![lhs, rhs],
            InstructionKind::Rem { lhs, rhs } => seq![lhs, rhs],
            InstructionKind::And { lhs, rhs } => seq![lhs, rhs],
            InstructionKind::Or { lhs, rhs } => seq![lhs, rhs],
            InstructionKind::Xor { lhs, rhs } => seq![lhs, rhs],
            InstructionKind::Shl { lhs, rhs } => seq![lhs, rhs],
            InstructionKind::Shr { lhs, rhs } => seq![lhs, rhs],
            InstructionKind::Eq { lhs, rhs } => seq![lhs, rhs],
            InstructionKind::Ne { lhs, rhs } => seq![lhs, rhs],
            InstructionKind::Lt { lhs, rhs } => seq![lhs, rhs],
            InstructionKind::Le { lhs, rhs } => seq![lhs, rhs],
            InstructionKind::Gt { lhs, rhs } => seq![lhs, rhs],
            InstructionKind::Ge { lhs, rhs } => seq![lhs, rhs],
        InstructionKind::Load { pointer, .. } => seq![pointer],
        InstructionKind::PtrCast { pointer, .. } => seq![pointer],
        InstructionKind::Extract { aggregate, .. } => seq![aggregate],
        InstructionKind::Store { pointer, value } => seq![pointer, value],
        InstructionKind::PtrOffset { pointer, offset } => seq![pointer, offset],
        InstructionKind::Ext { value, .. } => seq![value],
        InstructionKind::Trunc { value, .. } => seq![value],
        InstructionKind::IntToFloat { value, .. } => seq![value],
        InstructionKind::FloatToInt { value, .. } => seq![value],
        InstructionKind::Call { args, .. } => args@,
        InstructionKind::Construct { fields, .. } => fields@,
        InstructionKind::Insert { aggregate, value, .. } => seq![aggregate, value],
    }
}

/// Copies a list of value ids.
pub fn copy_values(v: &[ValueId]) -> (r: Vec<ValueId>)
    ensures
        r@ == v@,
{
    let mut out: Vec<ValueId> = Vec::new();
    let mut i: usize = 0;
    while i < v.len()
        invariant
            i <= v@.len(),
            out@ == v@.subrange(0, i as int),
        decreases v@.len() - i,
    {
        out.push(v[i]);
        i = i + 1;
        proof {
            assert(out@ =~= v@.subrange(0, i as int));
        }
    }
    proof {
        assert(v@.subrange(0, v@.len() as int) =~= v@);
    }
    out
}

impl InstructionKind {
    /// Every [`ValueId`] referenced by this instruction, in operand order.
    pub fn visit_values(&self) -> (r: Vec<ValueId>)
        ensures
            r@ == inst_operands(*self),
    {
        let mut out: Vec<ValueId> = Vec::new();
        match self {
            InstructionKind::Const(_) => {}
            InstructionKind::Alloca { .. } => {}
            InstructionKind::Add { lhs, rhs } => { out.push(*lhs); out.push(*rhs); }
            InstructionKind::Sub { lhs, rhs } => { out.push(*lhs); out.push(*rhs); }
            InstructionKind::Mul { lhs, rhs } => { out.push(*lhs); out.push(*rhs); }
            InstructionKind::Div { lhs, rhs } => { out.push(*lhs); out.push(*rhs); }
            InstructionKind::Rem { lhs, rhs } => { out.push(*lhs); out.push(*rhs); }
            InstructionKind::And { lhs, rhs } => { out.push(*lhs); out.push(*rhs); }
            InstructionKind::Or { lhs, rhs } => { out.push(*lhs); out.push(*rhs); }
            InstructionKind::Xor { lhs, rhs } => { out.push(*lhs); out.push(*rhs); }
            InstructionKind::Shl { lhs, rhs } => { out.push(*lhs); out.push(*rhs); }
            InstructionKind::Shr { lhs, rhs } => { out.push(*lhs); out.push(*rhs); }
            InstructionKind::Eq { lhs, rhs } => { out.push(*lhs); out.push(*rhs); }
            InstructionKind::Ne { lhs, rhs } => { out.push(*lhs); out.push(*rhs); }
            InstructionKind::Lt { lhs, rhs } => { out.push(*lhs); out.push(*rhs); }
            InstructionKind::Le { lhs, rhs } => { out.push(*lhs); out.push(*rhs); }
            InstructionKind::Gt { lhs, rhs } => { out.push(*lhs); out.push(*rhs); }
            InstructionKind::Ge { lhs, rhs } => { out.push(*lhs); out.push(*rhs); }
            InstructionKind::Load { pointer, .. } => { out.push(*pointer); }
            InstructionKind::PtrCast { pointer, .. } => { out.push(*pointer); }
            InstructionKind::Extract { aggregate, .. } => { out.push(*aggregate); }
            InstructionKind::Store { pointer, value } => { out.push(*pointer); out.push(*value); }
            InstructionKind::PtrOffset { pointer, offset } => { out.push(*pointer); out.push(*offset); }
            InstructionKind::Ext { value, .. } => { out.push(*value); }
            InstructionKind::Trunc { value, .. } => { out.push(*value); }
            InstructionKind::IntToFloat { value, .. } => { out.push(*value); }
            InstructionKind::FloatToInt { value, .. } => { out.push(*value); }
            InstructionKind::Call { args, .. } => { out = copy_values(args.as_slice()); }
            InstructionKind::Construct { fields, .. } => { out = copy_values(fields.as_slice()); }
            InstructionKind::Insert { aggregate, value, .. } => { out.push(*aggregate); out.push(*value); }
        }
        proof {
            assert(out@ =~= inst_operands(*self));
        }
        out
    }
}

} // verus!
