//! Functions, linkage and ABI.

use vstd::prelude::*;

use crate::block::BasicBlock;
use crate::id::{BlockId, SymbolId, TypeId, ValueId};
use crate::span::Span;
use crate::value::{ValueData, ValueKind};

verus! {

/// Symbol linkage of a function.
#[derive(Debug, Clone, Copy, PartialEq, Eq, Structural, Hash)]
pub enum Linkage {
    /// Function is internal to this module.
    Internal,
    /// Function is visible to other modules; without a body it declares
    /// something defined elsewhere (an extern).
    External,
    /// Function is exported from the final artifact.
    Exported,
}

impl Linkage {
    /// Canonical ARN keyword.
    pub fn keyword(self) -> (r: &'static str)
        ensures
            r@ == (match self {
                Linkage::Internal => "internal"@,
                Linkage::External => "external"@,
                Linkage::Exported => "exported"@,
            }),
    {
        match self {
            Linkage::Internal => "internal",
            Linkage::External => "external",
            Linkage::Exported => "exported",
        }
    }
}

/// Calling convention / ABI of a function. Backends never guess the call
/// ABI: it is an explicit fact on every function.
#[derive(Debug, Clone, Copy, PartialEq, Eq, Structural, Hash)]
pub enum Abi {
    /// The default calling convention of the IR.
    Astronomy,
    /// The platform C ABI.
    C,
    /// The raw system (syscall-style) convention.
    System,
    /// A named custom convention.
    Custom(SymbolId),
}

impl Abi {
    /// Canonical ARN keyword (`custom` for custom conventions; the name is
    /// resolved separately through the symbol table).
    pub fn keyword(&self) -> (r: &'static str)
        ensures
            r@ == (match *self {
                Abi::Astronomy => "astronomy"@,
                Abi::C => "c"@,
                Abi::System => "system"@,
                Abi::Custom(_) => "custom"@,
            }),
    {
        match self {
            Abi::Astronomy => "astronomy",
            Abi::C => "c",
            Abi::System => "system",
            Abi::Custom(_) => "custom",
        }
    }
}

/// A function parameter.
#[derive(Debug, Clone, Copy, PartialEq, Eq, Structural)]
pub struct Param {
    /// SSA value bound to the parameter.
    pub value: ValueId,
    /// Declared type.
    pub ty: TypeId,
}

/// A function definition or external declaration. A function with no
/// blocks is a declaration.
#[derive(Debug, Clone, PartialEq, Eq)]
pub struct Function {
    /// Interned symbol name.
    pub symbol: SymbolId,
    /// Linkage.
    pub linkage: Linkage,
    /// ABI / calling convention.
    pub abi: Abi,
    /// Parameters, in order; parameter `i` is bound to value `i`.
    pub params: Vec<Param>,
    /// Result type (may be `void`).
    pub result: TypeId,
    /// Whether calls may pass extra arguments (declarations only).
    pub variadic: bool,
    /// Basic blocks; block 0 is the entry block. Empty for declarations.
    pub blocks: Vec<BasicBlock>,
    /// Per-function SSA value arena.
    pub values: Vec<ValueData>,
    /// Optional source span (parsed IR only).
    pub span: Option<Span>,
}

/// The arena a fresh function holds for `params`: value `i` is parameter
/// `i` with its type and name.
pub open spec fn param_values(params: Seq<(Option<SymbolId>, TypeId)>) -> Seq<ValueData> {
    Seq::new(
        params.len(),
        |i: int|
            ValueData {
                ty: params[i].1,
                kind: ValueKind::Param { index: i as u32 },
                name: params[i].0,
                span: None,
            },
    )
}

impl Function {
    /// Creates a function skeleton with parameters allocated in the value
    /// arena (parameter `i` is value `i`).
    pub fn new(
        symbol: SymbolId,
        linkage: Linkage,
        abi: Abi,
        params: Vec<(Option<SymbolId>, TypeId)>,
        result: TypeId,
        variadic: bool,
    ) -> (r: Self)
        ensures
            r.symbol == symbol,
            r.linkage == linkage,
            r.abi == abi,
            r.result == result,
            r.variadic == variadic,
            r.blocks@.len() == 0,
            r.span is None,
            r.values@ == param_values(params@),
            r.params@.len() == params@.len(),
            forall|i: int|
                0 <= i < params@.len() ==> #[trigger] r.params@[i] == (Param {
                    value: ValueId(i as u32),
                    ty: params@[i].1,
                }),
    {
        let mut function = Function {
            symbol,
            linkage,
            abi,
            params: Vec::new(),
            result,
            variadic,
            blocks: Vec::new(),
            values: Vec::new(),
            span: None,
        };
        let mut i: usize = 0;
        while i < params.len()
            invariant
                i <= params@.len(),
                function.symbol == symbol,
                function.linkage == linkage,
                function.abi == abi,
                function.result == result,
                function.variadic == variadic,
                function.blocks@.len() == 0,
                function.span is None,
                function.values@ == param_values(params@.subrange(0, i as int)),
                function.params@.len() == i,
                forall|j: int|
                    0 <= j < i ==> #[trigger] function.params@[j] == (Param {
                        value: ValueId(j as u32),
                        ty: params@[j].1,
                    }),
            decreases params@.len() - i,
        {
            let (name, ty) = params[i];
            let value = ValueId::new(#[verifier::truncate] (i as u32));
            function.values.push(
                ValueData {
                    ty,
                    kind: ValueKind::Param { index: #[verifier::truncate] (i as u32) },
                    name,
                    span: None,
                },
            );
            function.params.push(Param { value, ty });
            i = i + 1;
            proof {
                assert(function.values@ =~= param_values(params@.subrange(0, i as int)));
            }
        }
        proof {
            assert(params@.subrange(0, params@.len() as int) =~= params@);
        }
        function
    }

    /// True when the function has no body (it is an extern declaration).
    pub fn is_declaration(&self) -> (r: bool)
        ensures
            r == (self.blocks@.len() == 0),
    {
        self.blocks.len() == 0
    }

    /// Returns the entry block (block 0), if the function has a body.
    pub fn entry(&self) -> (r: Option<&BasicBlock>)
        ensures
            self.blocks@.len() > 0 ==> r == Some(&self.blocks@[0]),
            self.blocks@.len() == 0 ==> r is None,
    {
        if self.blocks.len() > 0 {
            Some(&self.blocks[0])
        } else {
            None
        }
    }

    /// Looks up a block by ID.
    pub fn block(&self, id: BlockId) -> (r: Option<&BasicBlock>)
        ensures
            (id.0 as int) < self.blocks@.len() ==> r == Some(&self.blocks@[id.0 as int]),
            (id.0 as int) >= self.blocks@.len() ==> r is None,
    {
        if id.index() < self.blocks.len() {
            Some(&self.blocks[id.index()])
        } else {
            None
        }
    }

    /// Looks up a value by ID.
    pub fn value(&self, id: ValueId) -> (r: Option<&ValueData>)
        ensures
            r == self.spec_value(id),
    {
        if id.index() < self.values.len() {
            Some(&self.values[id.index()])
        } else {
            None
        }
    }

    /// The arena entry of `id`, if it exists.
    pub open spec fn spec_value(&self, id: ValueId) -> Option<&ValueData> {
        if (id.0 as int) < self.values@.len() {
            Some(&self.values@[id.0 as int])
        } else {
            None
        }
    }
}

} // verus!
