//! The module container: types, symbols, constants and functions.

use vstd::prelude::*;

use crate::verify::{module_valid, Verifier};
use crate::error::{ParseError, VerifyErrorReport};
use crate::text::printer::is_module_text;
use crate::text::lexer::spec_lex;
use crate::text::parser::declares_supported_version;
use vstd::string::StringSliceAdditionalSpecFns;

use crate::constant::{ConstantData, ConstantStore, constant_interned};
use crate::block::{term_operands, term_targets, BasicBlock, Terminator};
use crate::function::Function;
use crate::instruction::{inst_operands, Instruction};
use crate::id::{ConstantId, FunctionId, SymbolId, TypeId};
use crate::symbol::{symbols_extend, SymbolStore};
use crate::types::{interned, type_text, type_to_string, TypeData, TypeStore, scalar_types};

verus! {

/// The ARN format version carried by a module. The parser rejects unknown
/// major versions; the minor version changes additively.
#[derive(Debug, Clone, Copy, PartialEq, Eq, Structural, Hash)]
pub struct ArnVersion {
    /// Incompatible version component.
    pub major: u32,
    /// Additive version component.
    pub minor: u32,
}

impl ArnVersion {
    /// The version this library reads and writes (1.0).
    #[allow(non_snake_case)]
    #[verifier::allow_in_spec]
    pub fn CURRENT() -> ArnVersion
        returns
            (ArnVersion { major: 1, minor: 0 }),
    {
        ArnVersion { major: 1, minor: 0 }
    }

    /// The version as text: `major.minor`.
    pub fn text(&self) -> (r: String)
        ensures
            r@ == crate::textbuf::dec_chars(self.major as nat) + "."@ + crate::textbuf::dec_chars(
                self.minor as nat,
            ),
    {
        let major = crate::textbuf::dec_string(self.major as u128);
        let minor = crate::textbuf::dec_string(self.minor as u128);
        let parts = [major.as_str(), ".", minor.as_str()];
        let r = crate::textbuf::join(&parts);
        proof {
            reveal_with_fuel(crate::textbuf::concat_chars, 4);
        }
        r
    }

    /// The lowest major version this library can read.
    pub const SUPPORTED_MAJOR: u32 = 1;
}

impl Default for ArnVersion {
    fn default() -> (r: Self)
        ensures
            r == ArnVersion::CURRENT(),
    {
        ArnVersion::CURRENT()
    }
}

/// A module: the unit of compilation passed to backends. It owns its type,
/// symbol and constant tables; handles are only meaningful inside the
/// module that produced them.
#[derive(Debug, Clone, PartialEq)]
pub struct Module {
    /// ARN version.
    pub version: ArnVersion,
    /// Optional module name.
    pub name: Option<SymbolId>,
    /// Symbol table.
    pub symbols: SymbolStore,
    /// Type table.
    pub types: TypeStore,
    /// Constant pool.
    pub constants: ConstantStore,
    /// Functions, in declaration order.
    pub functions: Vec<Function>,
}

/// Every function's name is an entry of the symbol table, and no two
/// functions have the same name.
pub open spec fn function_names_distinct(m: Module) -> bool {
    &&& forall|i: int| 0 <= i < m.functions@.len() ==> ((#[trigger] m.functions@[i]).symbol.0 as int) < m.symbols.names@.len()
    &&& forall|i: int, j: int|
        0 <= i < j < m.functions@.len() ==> m.symbols.view_names()[(#[trigger] m.functions@[i]).symbol.0 as int]
            != m.symbols.view_names()[(#[trigger] m.functions@[j]).symbol.0 as int]
}

/// Every named block of `f` has a name in `names`, and no two of its
/// blocks have the same name.
pub open spec fn function_block_names_distinct(names: Seq<Seq<char>>, f: Function) -> bool {
    &&& forall|i: int|
        0 <= i < f.blocks@.len() && (#[trigger] f.blocks@[i]).name is Some ==> ((f.blocks@[i].name->0).0 as int) < names.len()
    &&& forall|i: int, j: int|
        0 <= i < j < f.blocks@.len() && (#[trigger] f.blocks@[i]).name is Some && (#[trigger] f.blocks@[j]).name is Some
            ==> names[(f.blocks@[i].name->0).0 as int] != names[(f.blocks@[j].name->0).0 as int]
}

/// In every function, no two blocks have the same name.
pub open spec fn block_names_distinct(m: Module) -> bool {
    forall|k: int| 0 <= k < m.functions@.len() ==> function_block_names_distinct(m.symbols.view_names(), #[trigger] m.functions@[k])
}

/// Distinct block names stay distinct when the symbol table only grows.
pub proof fn lemma_block_names_distinct_extend(names: Seq<Seq<char>>, more: Seq<Seq<char>>, f: Function)
    requires
        function_block_names_distinct(names, f),
        symbols_extend(names, more),
    ensures
        function_block_names_distinct(more, f),
{
    assert forall|i: int, j: int|
        0 <= i < j < f.blocks@.len() && (#[trigger] f.blocks@[i]).name is Some && (#[trigger] f.blocks@[j]).name is Some
            implies more[(f.blocks@[i].name->0).0 as int] != more[(f.blocks@[j].name->0).0 as int] by {
        assert(more[(f.blocks@[i].name->0).0 as int] == names[(f.blocks@[i].name->0).0 as int]);
        assert(more[(f.blocks@[j].name->0).0 as int] == names[(f.blocks@[j].name->0).0 as int]);
    }
}

/// Every named value of `f` has a name in `names`, and no two of its
/// values have the same name.
pub open spec fn function_value_names_distinct(names: Seq<Seq<char>>, f: Function) -> bool {
    &&& forall|i: int|
        0 <= i < f.values@.len() && (#[trigger] f.values@[i]).name is Some ==> ((f.values@[i].name->0).0 as int) < names.len()
    &&& forall|i: int, j: int|
        0 <= i < j < f.values@.len() && (#[trigger] f.values@[i]).name is Some && (#[trigger] f.values@[j]).name is Some
            ==> names[(f.values@[i].name->0).0 as int] != names[(f.values@[j].name->0).0 as int]
}

/// In every function, no two values have the same name.
pub open spec fn value_names_distinct(m: Module) -> bool {
    forall|k: int| 0 <= k < m.functions@.len() ==> function_value_names_distinct(m.symbols.view_names(), #[trigger] m.functions@[k])
}

/// Distinct value names stay distinct when the symbol table only grows.
pub proof fn lemma_value_names_distinct_extend(names: Seq<Seq<char>>, more: Seq<Seq<char>>, f: Function)
    requires
        function_value_names_distinct(names, f),
        symbols_extend(names, more),
    ensures
        function_value_names_distinct(more, f),
{
    assert forall|i: int, j: int|
        0 <= i < j < f.values@.len() && (#[trigger] f.values@[i]).name is Some && (#[trigger] f.values@[j]).name is Some
            implies more[(f.values@[i].name->0).0 as int] != more[(f.values@[j].name->0).0 as int] by {
        assert(more[(f.values@[i].name->0).0 as int] == names[(f.values@[i].name->0).0 as int]);
        assert(more[(f.values@[j].name->0).0 as int] == names[(f.values@[j].name->0).0 as int]);
    }
}

/// Every value an instruction uses or defines is below `nv`.
pub open spec fn inst_refs_defined(nv: int, inst: Instruction) -> bool {
    &&& forall|k: int| 0 <= k < inst_operands(inst.kind).len() ==> ((#[trigger] inst_operands(inst.kind)[k]).0 as int) < nv
    &&& (inst.result matches Some(v) ==> (v.0 as int) < nv)
}

/// Every value a terminator uses is below `nv`, and every block it jumps
/// to below `nb`.
pub open spec fn term_refs_defined(nv: int, nb: int, t: Terminator) -> bool {
    &&& forall|k: int| 0 <= k < term_operands(t).len() ==> ((#[trigger] term_operands(t)[k]).0 as int) < nv
    &&& forall|k: int| 0 <= k < term_targets(t).len() ==> ((#[trigger] term_targets(t)[k]).0 as int) < nb
}

/// Every value and block that `blk` refers to is below `nv` and `nb`.
pub open spec fn block_refs_defined(nv: int, nb: int, blk: BasicBlock) -> bool {
    &&& forall|p: int| 0 <= p < blk.params@.len() ==> ((#[trigger] blk.params@[p]).value.0 as int) < nv
    &&& forall|i: int| 0 <= i < blk.instructions@.len() ==> inst_refs_defined(nv, #[trigger] blk.instructions@[i])
    &&& (blk.terminator matches Some(t) ==> term_refs_defined(nv, nb, t))
}

/// Every value and block that the body of `f` refers to is one of its own.
pub open spec fn function_refs_defined(f: Function) -> bool {
    forall|b: int| 0 <= b < f.blocks@.len() ==> block_refs_defined(f.values@.len() as int, f.blocks@.len() as int, #[trigger] f.blocks@[b])
}

/// In every function, every value and block referred to is defined.
pub open spec fn refs_defined(m: Module) -> bool {
    forall|k: int| 0 <= k < m.functions@.len() ==> function_refs_defined(#[trigger] m.functions@[k])
}

/// A fresh module: current version, no name, no symbols, scalar types,
/// empty pool, no functions.
pub open spec fn is_fresh_module(m: Module) -> bool {
    &&& m.version == ArnVersion::CURRENT()
    &&& m.name is None
    &&& m.symbols.names@.len() == 0
    &&& m.types.types@ == scalar_types()
    &&& m.constants.constants@.len() == 0
    &&& m.functions@.len() == 0
}

impl Module {
    /// Creates an empty module with all scalar types pre-interned.
    pub fn new() -> (r: Self)
        ensures
            is_fresh_module(r),
    {
        Module {
            version: ArnVersion::CURRENT(),
            name: None,
            symbols: SymbolStore::new(),
            types: TypeStore::new(),
            constants: ConstantStore::new(),
            functions: Vec::new(),
        }
    }

    /// The ARN version of this module.
    pub fn version(&self) -> (r: ArnVersion)
        ensures
            r == self.version,
    {
        self.version
    }

    /// Sets the ARN version (used by the parser).
    pub fn set_version(&mut self, version: ArnVersion)
        ensures
            final(self).version == version,
            final(self).name == old(self).name,
            final(self).symbols == old(self).symbols,
            final(self).types == old(self).types,
            final(self).constants == old(self).constants,
            final(self).functions == old(self).functions,
    {
        self.version = version;
    }

    /// The module name, if any.
    pub fn name(&self) -> (r: Option<&str>)
        ensures
            self.name is None ==> r is None,
            self.name matches Some(sym) ==> ((sym.0 as int) < self.symbols.names@.len() ==> (r matches Some(
                s,
            ) && s@ == self.symbols.view_names()[sym.0 as int])),
            self.name matches Some(sym) ==> ((sym.0 as int) >= self.symbols.names@.len() ==> r is None),
    {
        match self.name {
            Some(s) => self.symbols.name(s),
            None => None,
        }
    }

    /// Sets the module name.
    pub fn set_name(&mut self, name: &str)
        ensures
            final(self).name is Some,
            old(self).symbols.names@.len() < u32::MAX ==> (final(self).name matches Some(sym) && (
            sym.0 as int) < final(self).symbols.names@.len() && final(self).symbols.view_names()[sym.0 as int]
                == name@),
            final(self).version == old(self).version,
            final(self).types == old(self).types,
            final(self).constants == old(self).constants,
            final(self).functions == old(self).functions,
    {
        let sym = self.symbols.intern(name);
        proof {
            if old(self).symbols.names@.len() < u32::MAX {
                if exists|j: int|
                    0 <= j < old(self).symbols.names@.len() && old(self).symbols.view_names()[j]
                        == name@ {
                    let j = choose|j: int|
                        SymbolStore::first_index_of(old(self).symbols.view_names(), name@, j) && sym.0
                            == j as u32;
                    assert(j as u32 == j);
                    assert(sym.0 as int == j);
                    assert(self.symbols.view_names()[sym.0 as int] == name@);
                    assert((sym.0 as int) < self.symbols.names@.len());
                } else {
                    assert(sym.0 as int == old(self).symbols.names@.len());
                    assert(self.symbols.view_names().len() == self.symbols.names@.len());
                    assert(old(self).symbols.view_names().len() == old(self).symbols.names@.len());
                    assert(self.symbols.view_names()[sym.0 as int] == name@);
                    assert((sym.0 as int) < self.symbols.names@.len());
                }
            }
        }
        self.name = Some(sym);
    }

    /// The symbol table.
    pub fn symbols(&self) -> (r: &SymbolStore)
        ensures
            *r == self.symbols,
    {
        &self.symbols
    }

    /// The symbol table (mutable, for low-level construction).
    pub fn symbols_mut(&mut self) -> (r: &mut SymbolStore)
        ensures
            *r == old(self).symbols,
            final(self).symbols == *final(r),
            final(self).version == old(self).version,
            final(self).name == old(self).name,
            final(self).types == old(self).types,
            final(self).constants == old(self).constants,
            final(self).functions == old(self).functions,
    {
        &mut self.symbols
    }

    /// Resolves a symbol name.
    pub fn symbol_name(&self, id: SymbolId) -> (r: Option<&str>)
        ensures
            (id.0 as int) < self.symbols.names@.len() ==> (r matches Some(s) && s@
                == self.symbols.view_names()[id.0 as int]),
            (id.0 as int) >= self.symbols.names@.len() ==> r is None,
    {
        self.symbols.name(id)
    }

    /// The type table.
    pub fn types(&self) -> (r: &TypeStore)
        ensures
            *r == self.types,
    {
        &self.types
    }

    /// The type table (mutable, for low-level construction and interning).
    pub fn types_mut(&mut self) -> (r: &mut TypeStore)
        ensures
            *r == old(self).types,
            final(self).types == *final(r),
            final(self).version == old(self).version,
            final(self).name == old(self).name,
            final(self).symbols == old(self).symbols,
            final(self).constants == old(self).constants,
            final(self).functions == old(self).functions,
    {
        &mut self.types
    }

    /// Formats a type in canonical ARN syntax.
    pub fn type_label(&self, ty: TypeId) -> (r: String)
        ensures
            vstd::utf8::encode_utf8(r@) == type_text(
                self.types.types@,
                ty,
                self.types.types@.len() as nat,
            ),
    {
        type_to_string(&self.types, ty)
    }

    /// Interns a type.
    pub fn intern_type(&mut self, data: TypeData) -> (r: TypeId)
        ensures
            interned(old(self).types.types@, data, final(self).types.types@, r),
            final(self).version == old(self).version,
            final(self).name == old(self).name,
            final(self).symbols == old(self).symbols,
            final(self).constants == old(self).constants,
            final(self).functions == old(self).functions,
    {
        self.types.intern(data)
    }

    /// The constant pool.
    pub fn constants(&self) -> (r: &ConstantStore)
        ensures
            *r == self.constants,
    {
        &self.constants
    }

    /// The constant pool (mutable, for low-level construction).
    pub fn constants_mut(&mut self) -> (r: &mut ConstantStore)
        ensures
            *r == old(self).constants,
            final(self).constants == *final(r),
            final(self).version == old(self).version,
            final(self).name == old(self).name,
            final(self).symbols == old(self).symbols,
            final(self).types == old(self).types,
            final(self).functions == old(self).functions,
    {
        &mut self.constants
    }

    /// Interns a constant.
    pub fn intern_constant(&mut self, data: ConstantData) -> (r: ConstantId)
        ensures
            constant_interned(old(self).constants.constants@, data, final(self).constants.constants@, r),
            final(self).version == old(self).version,
            final(self).name == old(self).name,
            final(self).symbols == old(self).symbols,
            final(self).types == old(self).types,
            final(self).functions == old(self).functions,
    {
        self.constants.intern(data)
    }

    /// All functions, in declaration order.
    pub fn functions(&self) -> (r: &[Function])
        ensures
            r@ == self.functions@,
    {
        self.functions.as_slice()
    }

    /// All functions, mutable (for low-level construction).
    pub fn functions_mut(&mut self) -> (r: &mut Vec<Function>)
        ensures
            *r == old(self).functions,
            final(self).functions == *final(r),
            final(self).version == old(self).version,
            final(self).name == old(self).name,
            final(self).symbols == old(self).symbols,
            final(self).types == old(self).types,
            final(self).constants == old(self).constants,
    {
        &mut self.functions
    }

    /// Looks up a function by ID.
    pub fn function(&self, id: FunctionId) -> (r: Option<&Function>)
        ensures
            (id.0 as int) < self.functions@.len() ==> r == Some(&self.functions@[id.0 as int]),
            (id.0 as int) >= self.functions@.len() ==> r is None,
    {
        if id.index() < self.functions.len() {
            Some(&self.functions[id.index()])
        } else {
            None
        }
    }

    /// Looks up a function by ID (mutable).
    pub fn function_mut(&mut self, id: FunctionId) -> (r: Option<&mut Function>)
        ensures
            (id.0 as int) < old(self).functions@.len() ==> (r matches Some(f) && *f
                == old(self).functions@[id.0 as int] && final(self).functions@ == old(self).functions@.update(id.0 as int, *final(f))),
            (id.0 as int) >= old(self).functions@.len() ==> r is None && final(self).functions
                == old(self).functions,
            final(self).version == old(self).version,
            final(self).name == old(self).name,
            final(self).symbols == old(self).symbols,
            final(self).types == old(self).types,
            final(self).constants == old(self).constants,
    {
        if id.index() < self.functions.len() {
            Some(&mut self.functions[id.index()])
        } else {
            None
        }
    }

    /// `new` has the functions of `old`, each with the same name symbol,
    /// and a symbol table that keeps every entry of the old one.
    pub open spec fn functions_named_same(old: Module, new: Module) -> bool {
        &&& new.functions@.len() == old.functions@.len()
        &&& forall|k: int| 0 <= k < old.functions@.len() ==> #[trigger] new.functions@[k].symbol == old.functions@[k].symbol
        &&& symbols_extend(old.symbols.view_names(), new.symbols.view_names())
        &&& new.symbols.names@.len() == new.symbols.view_names().len()
    }

    /// True when function `i` is named `name`.
    pub open spec fn function_named(&self, i: int, name: Seq<char>) -> bool {
        let sym = self.functions@[i].symbol;
        (sym.0 as int) < self.symbols.names@.len() && self.symbols.view_names()[sym.0 as int] == name
    }

    /// Finds the first function with the given symbol name.
    pub fn function_by_name(&self, name: &str) -> (r: Option<FunctionId>)
        ensures
            r matches Some(id) ==> exists|i: int|
                0 <= i < self.functions@.len() && self.function_named(i, name@) && id.0 == i as u32
                    && forall|j: int| 0 <= j < i ==> !self.function_named(j, name@),
            r is None ==> forall|i: int|
                0 <= i < self.functions@.len() ==> !self.function_named(i, name@),
    {
        let mut i: usize = 0;
        while i < self.functions.len()
            invariant
                i <= self.functions@.len(),
                forall|j: int| 0 <= j < i ==> !self.function_named(j, name@),
            decreases self.functions@.len() - i,
        {
            if self.symbols.name_is(self.functions[i].symbol, name) {
                let id = FunctionId::new(#[verifier::truncate] (i as u32));
                proof {
                    assert(self.function_named(i as int, name@));
                    assert(0 <= i < self.functions@.len() && self.function_named(i as int, name@)
                        && id.0 == i as u32 && forall|j: int| 0 <= j < i ==> !self.function_named(j, name@));
                }
                return Some(id);
            }
            i = i + 1;
        }
        None
    }

    /// The name of a function (`<invalid-function>` for an unknown id or
    /// symbol).
    pub fn function_name(&self, id: FunctionId) -> (r: &str)
        ensures
            (id.0 as int) < self.functions@.len() && (self.functions@[id.0 as int].symbol.0 as int)
                < self.symbols.names@.len() ==> r@ == self.symbols.view_names()[self.functions@[id.0 as int].symbol.0 as int],
            !((id.0 as int) < self.functions@.len() && (self.functions@[id.0 as int].symbol.0 as int)
                < self.symbols.names@.len()) ==> r@ == "<invalid-function>"@,
    {
        match self.function(id) {
            Some(f) => match self.symbols.name(f.symbol) {
                Some(n) => n,
                None => "<invalid-function>",
            },
            None => "<invalid-function>",
        }
    }
}

impl Module {
    /// Verifies this module, returning a [`VerifiedModule`] on success or
    /// all collected errors on failure.
    pub fn verify(self) -> (r: Result<VerifiedModule, VerifyErrorReport>)
        ensures
            module_valid(self) <==> r is Ok,
            r matches Ok(vm) ==> vm.inner() == self,
            r matches Err(report) ==> report.spec_errors().len() > 0,
    {
        Verifier::verify(self)
    }

    /// Parses an `.arn` text into a module; `float_bits` reads the bit
    /// pattern of a float literal (the flag selects `f32`).
    pub fn parse_arn<F: Fn(&str, bool) -> Option<u64>>(source: &str, float_bits: &F) -> (r: Result<Module, ParseError>)
        requires
            forall|t: &str, single: bool| float_bits.requires((t, single)),
        ensures
            spec_lex(source.spec_bytes()) is Err ==> r is Err,
            r is Ok ==> (spec_lex(source.spec_bytes()) matches Ok(ls) && declares_supported_version(ls)),
            r matches Ok(m) ==> m.version == ArnVersion::CURRENT(),
            r matches Ok(m) ==> (m.symbols.names@.len() <= u32::MAX ==> function_names_distinct(m)),
            r matches Ok(m) ==> (m.symbols.names@.len() <= u32::MAX && m.functions@.len() <= u32::MAX ==> block_names_distinct(m)),
            r matches Ok(m) ==> (m.symbols.names@.len() <= u32::MAX && m.functions@.len() <= u32::MAX ==> value_names_distinct(m)),
            r matches Ok(m) ==> (m.functions@.len() <= u32::MAX ==> refs_defined(m)),
    {
        crate::text::parse(source, float_bits)
    }

    /// Serializes the module to canonical `.arn` text; `float_text`
    /// renders the bit pattern of a float constant.
    pub fn to_arn<G: Fn(u64, bool) -> String>(&self, float_text: &G) -> (r: String)
        requires
            forall|b: u64, single: bool| float_text.requires((b, single)),
        ensures
            is_module_text(float_text, *self, vstd::utf8::encode_utf8(r@)),
    {
        crate::text::print(self, float_text)
    }
}

impl Default for Module {
    fn default() -> (r: Self)
        ensures
            is_fresh_module(r),
    {
        Module::new()
    }
}

/// A module that has passed the verifier. Construction is only possible
/// through verification, so backends can rely on receiving valid IR; the
/// type invariant states it. (It is not `Clone`: a copy could not be shown
/// to be valid.)
#[derive(Debug, PartialEq)]
pub struct VerifiedModule {
    module: Module,
}

impl VerifiedModule {
    /// The wrapped module.
    pub closed spec fn inner(&self) -> Module {
        self.module
    }

    /// The wrapped module passed verification.
    #[verifier::type_invariant]
    spec fn wraps_valid(self) -> bool {
        module_valid(self.module)
    }

    /// Wraps a module that verification accepted.
    pub(crate) fn new(module: Module) -> (r: Self)
        requires
            module_valid(module),
        ensures
            r.inner() == module,
    {
        VerifiedModule { module }
    }

    /// Borrows the inner module.
    pub fn module(&self) -> (r: &Module)
        ensures
            *r == self.inner(),
            module_valid(*r),
    {
        proof {
            use_type_invariant(self);
        }
        &self.module
    }

    /// Consumes the wrapper, returning the inner module.
    pub fn into_inner(self) -> (r: Module)
        ensures
            r == self.inner(),
            module_valid(r),
    {
        proof {
            use_type_invariant(&self);
        }
        self.module
    }

    /// Re-serializes to canonical `.arn`.
    pub fn to_arn<G: Fn(u64, bool) -> String>(&self, float_text: &G) -> (r: String)
        requires
            forall|b: u64, single: bool| float_text.requires((b, single)),
        ensures
            is_module_text(float_text, self.inner(), vstd::utf8::encode_utf8(r@)),
    {
        self.module.to_arn(float_text)
    }
}

impl AsRef<Module> for VerifiedModule {
    fn as_ref(&self) -> &Module {
        &self.module
    }
}

impl core::ops::Deref for VerifiedModule {
    type Target = Module;

    fn deref(&self) -> &Module {
        &self.module
    }
}

} // verus!
