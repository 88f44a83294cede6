//! SSA values.
//!
//! Values are per-function entities numbered by a dense arena. A value is
//! defined exactly once by a function parameter, a block parameter or the
//! result of an instruction.

use vstd::prelude::*;

use crate::id::{BlockId, SymbolId, TypeId};
use crate::span::Span;

verus! {

/// Where a value came from. Used by the verifier to check SSA form.
#[derive(Debug, Clone, Copy, PartialEq, Eq, Structural)]
pub enum ValueKind {
    /// Reserved but not yet attached to a definition; the verifier rejects
    /// any value left in this state.
    Reserved,
    /// Function parameter at position `index`.
    Param {
        /// Zero-based parameter index.
        index: u32,
    },
    /// Basic block parameter.
    BlockParam {
        /// Owning block.
        block: BlockId,
        /// Zero-based parameter index within the block.
        index: u32,
    },
    /// Result of an instruction.
    Inst {
        /// Block containing the defining instruction.
        block: BlockId,
        /// Index of the defining instruction within its block.
        index: u32,
    },
}

/// Arena entry describing one SSA value.
#[derive(Debug, Clone, Copy, PartialEq, Eq, Structural)]
pub struct ValueData {
    /// Type of the value.
    pub ty: TypeId,
    /// Definition site.
    pub kind: ValueKind,
    /// Optional debug name. Never part of semantic identity.
    pub name: Option<SymbolId>,
    /// Optional source span (parsed IR only).
    pub span: Option<Span>,
}

impl ValueData {
    /// Creates a value description without name or span.
    pub fn new(ty: TypeId, kind: ValueKind) -> (r: Self)
        ensures
            r == (ValueData { ty, kind, name: None, span: None }),
    {
        ValueData { ty, kind, name: None, span: None }
    }
}

} // verus!
