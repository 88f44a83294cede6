//! Basic blocks and terminators.

use vstd::prelude::*;

use crate::id::{BlockId, SymbolId, TypeId, ValueId};
use crate::instruction::{copy_values, Instruction};
use crate::span::Span;

verus! {

/// A basic block parameter (block arguments replace phi nodes).
#[derive(Debug, Clone, Copy, PartialEq, Eq, Structural)]
pub struct BlockParam {
    /// The SSA value that binds on entry to the block.
    pub value: ValueId,
    /// Declared type (the verifier cross-checks it against the value).
    pub ty: TypeId,
}

/// A basic block: parameters, straight-line instructions, and exactly one
/// terminator once complete.
#[derive(Debug, Clone, PartialEq, Eq)]
pub struct BasicBlock {
    /// Block parameters bound by predecessor branch arguments.
    pub params: Vec<BlockParam>,
    /// Straight-line instructions; no control flow in here.
    pub instructions: Vec<Instruction>,
    /// Exactly one terminator once the block is complete.
    pub terminator: Option<Terminator>,
    /// Optional debug label (never part of semantic identity).
    pub name: Option<SymbolId>,
    /// Optional source span (parsed IR only).
    pub span: Option<Span>,
}

impl BasicBlock {
    /// Creates an empty block.
    pub fn new() -> (r: Self)
        ensures
            r.params@.len() == 0,
            r.instructions@.len() == 0,
            r.terminator is None,
            r.name is None,
            r.span is None,
    {
        BasicBlock {
            params: Vec::new(),
            instructions: Vec::new(),
            terminator: None,
            name: None,
            span: None,
        }
    }

    /// Returns the terminator, if the block is complete.
    pub fn terminator(&self) -> (r: Option<&Terminator>)
        ensures
            r == (match self.terminator {
                Some(t) => Some(&t),
                None => None,
            }),
    {
        match &self.terminator {
            Some(t) => Some(t),
            None => None,
        }
    }
}

/// Control-flow terminator of a basic block.
#[derive(Debug, Clone, PartialEq, Eq)]
pub enum Terminator {
    /// Unconditional jump, passing `args` to `target`'s block parameters.
    Jump {
        /// Destination block.
        target: BlockId,
        /// Arguments bound to the target's block parameters.
        args: Vec<ValueId>,
    },
    /// Conditional branch; both destinations receive their own arguments.
    Branch {
        /// Condition; must have type `i1`.
        condition: ValueId,
        /// Block taken when the condition is true.
        then_block: BlockId,
        /// Arguments passed to `then_block`.
        then_args: Vec<ValueId>,
        /// Block taken when the condition is false.
        else_block: BlockId,
        /// Arguments passed to `else_block`.
        else_args: Vec<ValueId>,
    },
    /// Return from the function.
    Return {
        /// Returned value; `None` exactly when the function returns `void`.
        value: Option<ValueId>,
    },
    /// A control-flow edge that must never be reached at runtime.
    Unreachable,
}

/// The values a terminator reads, in operand order.
pub open spec fn term_operands(t: Terminator) -> Seq<ValueId> {
    match t {
        Terminator::Jump { args, .. } => args@,
        Terminator::Branch { condition, then_args, else_args, .. } => seq![condition] + then_args@
            + else_args@,
        Terminator::Return { value } => match value {
            Some(v) => seq![v],
            None => seq![],
        },
        Terminator::Unreachable => seq![],
    }
}

/// The successor blocks of a terminator, in order.
pub open spec fn term_targets(t: Terminator) -> Seq<BlockId> {
    match t {
        Terminator::Jump { target, .. } => seq![target],
        Terminator::Branch { then_block, else_block, .. } => seq![then_block, else_block],
        Terminator::Return { .. } => seq![],
        Terminator::Unreachable => seq![],
    }
}

fn append_values(out: &mut Vec<ValueId>, v: &Vec<ValueId>)
    ensures
        final(out)@ == old(out)@ + v@,
{
    let mut i: usize = 0;
    let ghost start = out@;
    while i < v.len()
        invariant
            i <= v@.len(),
            out@ == start + v@.subrange(0, i as int),
        decreases v@.len() - i,
    {
        out.push(v[i]);
        i = i + 1;
        proof {
            assert(out@ =~= start + v@.subrange(0, i as int));
        }
    }
    proof {
        assert(v@.subrange(0, v@.len() as int) =~= v@);
    }
}

impl Terminator {
    /// Every [`ValueId`] referenced by this terminator, in operand order.
    pub fn visit_values(&self) -> (r: Vec<ValueId>)
        ensures
            r@ == term_operands(*self),
    {
        match self {
            Terminator::Jump { args, .. } => copy_values(args.as_slice()),
            Terminator::Branch { condition, then_args, else_args, .. } => {
                let mut out: Vec<ValueId> = Vec::new();
                out.push(*condition);
                append_values(&mut out, then_args);
                append_values(&mut out, else_args);
                proof {
                    assert(out@ =~= term_operands(*self));
                }
                out
            },
            Terminator::Return { value } => {
                let mut out: Vec<ValueId> = Vec::new();
                if let Some(v) = value {
                    out.push(*v);
                }
                proof {
                    assert(out@ =~= term_operands(*self));
                }
                out
            },
            Terminator::Unreachable => Vec::new(),
        }
    }

    /// Every successor [`BlockId`] of this terminator, in order.
    pub fn visit_targets(&self) -> (r: Vec<BlockId>)
        ensures
            r@ == term_targets(*self),
    {
        let mut out: Vec<BlockId> = Vec::new();
        match self {
            Terminator::Jump { target, .. } => out.push(*target),
            Terminator::Branch { then_block, else_block, .. } => {
                out.push(*then_block);
                out.push(*else_block);
            },
            Terminator::Return { .. } => {},
            Terminator::Unreachable => {},
        }
        proof {
            assert(out@ =~= term_targets(*self));
        }
        out
    }
}

} // verus!
