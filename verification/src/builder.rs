//! Builder API for frontends.
//!
//! The builder is the first-class way to construct IR from Rust. It
//! prevents common mistakes (unknown operands, type mismatches, double
//! terminators) but the verifier remains the final authority.

use vstd::prelude::*;
use vstd::string::StringSliceAdditionalSpecFns;

use crate::block::{BasicBlock, BlockParam, Terminator};
use crate::constant::{ConstantData, ConstantStore, constant_interned, spec_mask};
use crate::error::{BuildError, constant_fits_type, spec_constant_fits};
use crate::function::{Abi, Function, Linkage, Param, param_values};
use crate::id::{id_text, BlockId, ConstantId, FunctionId, SymbolId, TypeId, ValueId};
use vstd::utf8::encode_utf8;
use crate::instruction::{copy_values, Instruction, InstructionKind};
use crate::module::{is_fresh_module, ArnVersion, Module};
use crate::symbol::{lemma_symbol_interned, symbol_interned, symbols_extend, SymbolStore};
use crate::textbuf::{
    cat2, lemma_encode_utf8_concat, bytes_are_ident, bytes_are_reserved_block_name, concat_strs, dec_string, spec_is_ident,
    spec_is_reserved_block_name,
};
use crate::types::{
    lit,
    interned, slice_ids, spec_is_aggregate, spec_is_arith_integer, spec_is_first_class,
    spec_is_float, spec_is_integer, spec_is_pointer, scalar_types, TypeData, TypeStore,
};
use crate::value::{ValueData, ValueKind};

verus! {

/// Returns true for a valid IR identifier (`[A-Za-z_][A-Za-z0-9_]*`).
pub fn is_valid_ident(s: &str) -> (r: bool)
    ensures
        r == spec_is_ident(s.spec_bytes()),
{
    bytes_are_ident(s.as_bytes())
}

/// Returns true for names reserved for anonymous block labels (`bb[0-9]+`).
pub fn is_reserved_block_name(s: &str) -> (r: bool)
    ensures
        r == spec_is_reserved_block_name(s.spec_bytes()),
{
    bytes_are_reserved_block_name(s.as_bytes())
}

/// Type `ty` exists in `m` and satisfies `pred`.
pub open spec fn type_has(m: Module, ty: TypeId, pred: spec_fn(TypeData) -> bool) -> bool {
    (ty.0 as int) < m.types.types@.len() && pred(m.types.types@[ty.0 as int])
}

/// A type that may appear in a signature as a parameter: exists and is
/// first-class.
pub open spec fn spec_param_type_ok(m: Module, ty: TypeId) -> bool {
    type_has(m, ty, |d: TypeData| spec_is_first_class(d))
}

/// A type that may appear as a function result: first-class or `void`.
pub open spec fn spec_result_type_ok(m: Module, ty: TypeId) -> bool {
    type_has(m, ty, |d: TypeData| spec_is_first_class(d) || d is Void)
}

/// Two functions agree on everything but their body.
pub open spec fn same_header(a: Function, b: Function) -> bool {
    &&& a.symbol == b.symbol
    &&& a.linkage == b.linkage
    &&& a.abi == b.abi
    &&& a.params@ == b.params@
    &&& a.result == b.result
    &&& a.variadic == b.variadic
    &&& a.span == b.span
}

/// Only function `fid` differs between `old` and `new`; tables may only
/// have grown by interning.
pub open spec fn only_function_changed(old: Module, new: Module, fid: int) -> bool {
    &&& new.functions@.len() == old.functions@.len()
    &&& forall|j: int| 0 <= j < old.functions@.len() && j != fid ==> new.functions@[j] == old.functions@[j]
    &&& new.version == old.version
    &&& new.name == old.name
}

/// Fluent module builder.
#[derive(Debug, Clone)]
pub struct ModuleBuilder {
    module: Module,
}

impl ModuleBuilder {
    /// The module under construction.
    pub closed spec fn spec_module(&self) -> Module {
        self.module
    }

    /// Creates an empty builder.
    pub fn new() -> (r: Self)
        ensures
            is_fresh_module(r.spec_module()),
    {
        ModuleBuilder { module: Module::new() }
    }

    /// Creates a builder with a module name.
    pub fn with_name(name: &str) -> (r: Self)
        ensures
            r.spec_module().version == ArnVersion::CURRENT(),
            r.spec_module().name matches Some(sym) && (sym.0 as int) < r.spec_module().symbols.names@.len()
                && r.spec_module().symbols.view_names()[sym.0 as int] == name@,
            r.spec_module().types.types@ == scalar_types(),
            r.spec_module().constants.constants@.len() == 0,
            r.spec_module().functions@.len() == 0,
    {
        let mut b = Self::new();
        b.set_module_name(name);
        b
    }

    /// Sets the module name.
    pub fn set_module_name(&mut self, name: &str)
        ensures
            final(self).spec_module().name is Some,
            old(self).spec_module().symbols.names@.len() < u32::MAX ==> (final(self).spec_module().name matches Some(sym) && (sym.0 as int) < final(self).spec_module().symbols.names@.len() && final(self).spec_module().symbols.view_names()[sym.0 as int]
                == name@),
            final(self).spec_module().version == old(self).spec_module().version,
            final(self).spec_module().functions == old(self).spec_module().functions,
            final(self).spec_module().types == old(self).spec_module().types,
            final(self).spec_module().constants == old(self).spec_module().constants,
    {
        self.module.set_name(name);
    }

    /// Borrows the module under construction.
    pub fn module(&self) -> (r: &Module)
        ensures
            *r == self.spec_module(),
    {
        &self.module
    }

    /// Consumes the builder, returning the module.
    pub fn finish(self) -> (r: Module)
        ensures
            r == self.spec_module(),
    {
        self.module
    }

    /// Consumes the builder, returning the module.
    pub fn into_module(self) -> (r: Module)
        ensures
            r == self.spec_module(),
    {
        self.module
    }

    /// Mutably borrows the type store, for interning composite types.
    pub fn types(&mut self) -> (r: &mut TypeStore)
        ensures
            *r == old(self).spec_module().types,
            final(self).spec_module().types == *final(r),
            final(self).spec_module().functions == old(self).spec_module().functions,
            final(self).spec_module().symbols == old(self).spec_module().symbols,
            final(self).spec_module().constants == old(self).spec_module().constants,
    {
        &mut self.module.types
    }

    /// Interns `ptr<pointee>` in address space 0.
    pub fn ptr_type(&mut self, pointee: TypeId) -> (r: TypeId)
        ensures
            interned(
                old(self).spec_module().types.types@,
                TypeData::Pointer { pointee, address_space: 0 },
                final(self).spec_module().types.types@,
                r,
            ),
            final(self).spec_module().functions == old(self).spec_module().functions,
            final(self).spec_module().symbols == old(self).spec_module().symbols,
            final(self).spec_module().constants == old(self).spec_module().constants,
    {
        self.module.types.ptr(pointee)
    }

    /// Interns `array<element, length>`.
    pub fn array_type(&mut self, element: TypeId, length: u64) -> (r: TypeId)
        ensures
            interned(
                old(self).spec_module().types.types@,
                TypeData::Array { element, length },
                final(self).spec_module().types.types@,
                r,
            ),
            final(self).spec_module().functions == old(self).spec_module().functions,
            final(self).spec_module().symbols == old(self).spec_module().symbols,
            final(self).spec_module().constants == old(self).spec_module().constants,
    {
        self.module.types.array(element, length)
    }

    /// Interns `struct<...fields>`.
    pub fn struct_type(&mut self, fields: &[TypeId]) -> (r: TypeId)
        ensures
            crate::types::interned_struct(old(self).spec_module().types.types@, fields@, final(self).spec_module().types.types@, r),
            final(self).spec_module().functions == old(self).spec_module().functions,
            final(self).spec_module().symbols == old(self).spec_module().symbols,
            final(self).spec_module().constants == old(self).spec_module().constants,
    {
        self.module.types.struct_of(fields)
    }

    /// Interns a function signature type.
    pub fn fn_type(&mut self, params: &[TypeId], variadic: bool, result: TypeId) -> (r: TypeId)
        ensures
            crate::types::interned_function(old(self).spec_module().types.types@, params@, variadic, result, final(self).spec_module().types.types@, r),
            final(self).spec_module().functions == old(self).spec_module().functions,
            final(self).spec_module().symbols == old(self).spec_module().symbols,
            final(self).spec_module().constants == old(self).spec_module().constants,
    {
        self.module.types.function(params, variadic, result)
    }

    /// Interns a symbol name.
    pub fn intern_symbol(&mut self, name: &str) -> (r: SymbolId)
        ensures
            final(self).spec_module().functions == old(self).spec_module().functions,
            final(self).spec_module().types == old(self).spec_module().types,
            final(self).spec_module().constants == old(self).spec_module().constants,
            old(self).spec_module().symbols.view_names().contains(name@) ==> final(self).spec_module().symbols.view_names() == old(self).spec_module().symbols.view_names(),
            !old(self).spec_module().symbols.view_names().contains(name@) ==> (final(self).spec_module().symbols.view_names() == old(self).spec_module().symbols.view_names().push(
                name@,
            ) && r.0 == old(self).spec_module().symbols.names@.len() as u32),
    {
        let ghost before = self.module.symbols;
        let r = self.module.symbols.intern(name);
        proof {
            if before.view_names().contains(name@) {
                let j = choose|j: int| 0 <= j < before.view_names().len() && before.view_names()[j] == name@;
                assert(0 <= j < before.names@.len() && before.view_names()[j] == name@);
            }
        }
        r
    }

    /// Interns raw constant data (direct construction).
    pub fn intern_constant_data(&mut self, data: ConstantData) -> (r: ConstantId)
        ensures
            constant_interned(
                old(self).spec_module().constants.constants@,
                data,
                final(self).spec_module().constants.constants@,
                r,
            ),
            final(self).spec_module().functions == old(self).spec_module().functions,
            final(self).spec_module().types == old(self).spec_module().types,
            final(self).spec_module().symbols == old(self).spec_module().symbols,
    {
        self.module.constants.intern(data)
    }

    /// Declares a function and returns its ID. Parameters are given as
    /// `(name, type)` pairs; an empty name leaves the parameter anonymous.
    /// The function starts without a body.
    pub fn declare_function(
        &mut self,
        name: &str,
        linkage: Linkage,
        abi: Abi,
        params: &[(&str, TypeId)],
        result: TypeId,
    ) -> (r: Result<FunctionId, BuildError>)
        ensures
            declare_outcome(
                old(self).spec_module(),
                final(self).spec_module(),
                name@,
                linkage,
                abi,
                params@.map_values(|p: (&str, TypeId)| p.1),
                params@.map_values(|p: (&str, TypeId)| param_name(p.0)),
                result,
                false,
                r,
            ),
    {
        self.declare_function_inner(name, linkage, abi, params, result, false)
    }

    /// Declares an external (extern) function. `fixed_params` are the
    /// non-variadic parameters; when `variadic` is true, calls may append
    /// extra first-class arguments.
    pub fn declare_extern(
        &mut self,
        name: &str,
        abi: Abi,
        fixed_params: &[TypeId],
        variadic: bool,
        result: TypeId,
    ) -> (r: Result<FunctionId, BuildError>)
        ensures
            declare_outcome(
                old(self).spec_module(),
                final(self).spec_module(),
                name@,
                Linkage::External,
                abi,
                fixed_params@,
                fixed_params@.map_values(|t: TypeId| None::<Seq<char>>),
                result,
                variadic,
                r,
            ),
    {
        let mut params: Vec<(&str, TypeId)> = Vec::new();
        let mut i: usize = 0;
        while i < fixed_params.len()
            invariant
                i <= fixed_params@.len(),
                params@.len() == i,
                forall|j: int| 0 <= j < i ==> #[trigger] params@[j].1 == fixed_params@[j] && params@[j].0@ == ""@,
            decreases fixed_params@.len() - i,
        {
            params.push(("", fixed_params[i]));
            i = i + 1;
        }
        proof {
            assert(params@.map_values(|p: (&str, TypeId)| p.1) =~= fixed_params@);
            reveal_strlit("");
            assert forall|j: int| 0 <= j < params@.len() implies param_name(#[trigger] params@[j].0) is None by {
                assert(params@[j].1 == fixed_params@[j]);
                assert(params@[j].0@ =~= Seq::<char>::empty());
            }
            assert(params@.map_values(|p: (&str, TypeId)| param_name(p.0)) =~= fixed_params@.map_values(
                |t: TypeId| None::<Seq<char>>,
            ));
        }
        self.declare_function_inner(name, Linkage::External, abi, params.as_slice(), result, variadic)
    }

    fn first_bad_param(&self, params: &[(&str, TypeId)]) -> (r: Option<usize>)
        ensures
            r matches Some(i) ==> i < params@.len() && !spec_param_type_ok(self.spec_module(), params@[i as int].1),
            r is None ==> forall|i: int| 0 <= i < params@.len() ==> spec_param_type_ok(self.spec_module(), #[trigger] params@[i].1),
    {
        let mut i: usize = 0;
        while i < params.len()
            invariant
                i <= params@.len(),
                forall|j: int| 0 <= j < i ==> spec_param_type_ok(self.spec_module(), #[trigger] params@[j].1),
            decreases params@.len() - i,
        {
            let ty = params[i].1;
            let ok = match self.module.types.get(ty) {
                Some(d) => d.is_first_class(),
                None => false,
            };
            if !ok {
                return Some(i);
            }
            i = i + 1;
        }
        None
    }

    fn declare_function_inner(
        &mut self,
        name: &str,
        linkage: Linkage,
        abi: Abi,
        params: &[(&str, TypeId)],
        result: TypeId,
        variadic: bool,
    ) -> (r: Result<FunctionId, BuildError>)
        ensures
            declare_outcome(
                old(self).spec_module(),
                final(self).spec_module(),
                name@,
                linkage,
                abi,
                params@.map_values(|p: (&str, TypeId)| p.1),
                params@.map_values(|p: (&str, TypeId)| param_name(p.0)),
                result,
                variadic,
                r,
            ),
    {
        proof {
            reveal_strlit("function names must be identifiers");
        }
        if !is_valid_ident(name) {
            return Err(
                BuildError::InvalidName {
                    name: name.to_owned(),
                    reason: "function names must be identifiers",
                },
            );
        }
        if self.module.function_by_name(name).is_some() {
            return Err(BuildError::DuplicateFunctionName { name: name.to_owned() });
        }
        let ghost tys = params@.map_values(|p: (&str, TypeId)| p.1);
        match self.first_bad_param(params) {
            Some(i) => {
                proof {
                    assert(tys[i as int] == params@[i as int].1);
                }
                let tn = self.module.type_label(params[i].1);
                return Err(
                    BuildError::InvalidSignature {
                        reason: concat_strs(
                            &["parameter type `", tn.as_str(), "` is not a first-class type"],
                        ),
                    },
                );
            },
            None => {},
        }
        proof {
            assert forall|i: int| 0 <= i < tys.len() implies spec_param_type_ok(self.module, #[trigger] tys[i]) by {
                assert(tys[i] == params@[i].1);
            }
        }
        let result_ok = match self.module.types.get(result) {
            Some(d) => d.is_first_class() || d.is_void(),
            None => false,
        };
        if !result_ok {
            let tn = self.module.type_label(result);
            return Err(
                BuildError::InvalidSignature {
                    reason: concat_strs(&["result type `", tn.as_str(), "` must be first-class or void"]),
                },
            );
        }
        if variadic && !matches!(linkage, Linkage::External) {
            return Err(
                BuildError::InvalidSignature {
                    reason: concat_strs(&["only external declarations may be variadic"]),
                },
            );
        }
        let symbol = self.module.symbols.intern(name);
        let ghost names0 = old(self).module.symbols.view_names();
        let ghost names1 = self.module.symbols.view_names();
        let ghost pnames = params@.map_values(|p: (&str, TypeId)| param_name(p.0));
        proof {
            if exists|j: int| 0 <= j < old(self).module.symbols.names@.len() && old(self).module.symbols.view_names()[j] == name@ {
                let j = choose|j: int| 0 <= j < old(self).module.symbols.names@.len() && old(self).module.symbols.view_names()[j] == name@;
                assert(self.module.symbols.view_names()[j] == name@);
            } else {
                assert(self.module.symbols.view_names().last() == name@);
            }
        }
        let mut fparams: Vec<(Option<SymbolId>, TypeId)> = Vec::new();
        let mut i: usize = 0;
        let ghost types_before = self.module.types;
        while i < params.len()
            invariant
                i <= params@.len(),
                fparams@.len() == i,
                forall|j: int| 0 <= j < i ==> #[trigger] fparams@[j].1 == params@[j].1,
                self.module.types == types_before,
                self.module.functions == old(self).module.functions,
                self.module.constants == old(self).module.constants,
                self.module.version == old(self).module.version,
                self.module.name == old(self).module.name,
                self.module.symbols.view_names().contains(name@),
                symbols_extend(names0, self.module.symbols.view_names()),
                symbols_extend(names1, self.module.symbols.view_names()),
                self.module.symbols.names@.len() == self.module.symbols.view_names().len(),
                names1.len() <= u32::MAX ==> (symbol.0 as int) < names1.len() && names1[symbol.0 as int] == name@,
                pnames == params@.map_values(|p: (&str, TypeId)| param_name(p.0)),
                forall|j: int| 0 <= j < i ==> (self.module.symbols.names@.len() <= u32::MAX ==> names_value(
                    self.module.symbols.view_names(),
                    #[trigger] fparams@[j].0,
                    pnames[j],
                )),
                forall|j: int| 0 <= j < i ==> pnames[j] is None ==> (#[trigger] fparams@[j]).0 is None,
            decreases params@.len() - i,
        {
            let (n, t) = params[i];
            let ghost sb = self.module.symbols;
            let sym = if n.is_empty() {
                proof {
                    assert(param_name(n) is None);
                }
                None
            } else {
                Some(self.module.symbols.intern(n))
            };
            proof {
                if n@.len() != 0 {
                    let k = choose|k: int| 0 <= k < sb.view_names().len() && sb.view_names()[k] == name@;
                    if exists|j: int| 0 <= j < sb.names@.len() && sb.view_names()[j] == n@ {
                        assert(self.module.symbols.view_names()[k] == name@);
                    } else {
                        assert(self.module.symbols.view_names()[k] == name@);
                    }
                }
            }
            let ghost fp_before = fparams@;
            fparams.push((sym, t));
            proof {
                assert(pnames[i as int] == param_name(n));
                assert(params@[i as int] == (n, t));
                assert forall|j: int| 0 <= j < i + 1 implies (self.module.symbols.names@.len() <= u32::MAX ==> names_value(
                    self.module.symbols.view_names(),
                    #[trigger] fparams@[j].0,
                    pnames[j],
                )) by {
                    if j < i && self.module.symbols.names@.len() <= u32::MAX {
                        assert(fparams@[j] == fp_before[j]);
                        assert(sb.names@.len() <= u32::MAX);
                        assert(names_value(sb.view_names(), fp_before[j].0, pnames[j]));
                        if pnames[j] is Some {
                            let s0 = fparams@[j].0->0;
                            assert(self.module.symbols.view_names()[s0.0 as int] == sb.view_names()[s0.0 as int]);
                        }
                    } else if j == i && self.module.symbols.names@.len() <= u32::MAX {
                        assert(fparams@[j].0 == sym);
                    }
                }
            }
            i = i + 1;
        }
        let ghost fp = fparams@;
        let function = Function::new(symbol, linkage, abi, fparams, result, variadic);
        self.module.functions.push(function);
        let id = FunctionId::new(#[verifier::truncate] ((self.module.functions.len() - 1) as u32));
        proof {
            let f = self.module.functions@.last();
            assert(self.module.functions@.drop_last() =~= old(self).module.functions@);
            assert forall|i: int| 0 <= i < tys.len() implies #[trigger] f.params@[i] == (Param { value: ValueId(i as u32), ty: tys[i] }) by {
                assert(tys[i] == params@[i].1);
                assert(fp[i].1 == params@[i].1);
            }
        }
        Ok(id)
    }

    /// Declares a function and returns a builder cursor for its body in one
    /// step.
    pub fn build_function(
        &mut self,
        name: &str,
        linkage: Linkage,
        abi: Abi,
        params: &[(&str, TypeId)],
        result: TypeId,
    ) -> (r: Result<FunctionBuilder<'_>, BuildError>)
        ensures
            r matches Err(e) ==> declare_outcome(
                old(self).spec_module(),
                final(self).spec_module(),
                name@,
                linkage,
                abi,
                params@.map_values(|p: (&str, TypeId)| p.1),
                params@.map_values(|p: (&str, TypeId)| param_name(p.0)),
                result,
                false,
                Err::<FunctionId, BuildError>(e),
            ),
            r matches Ok(fb) ==> fb.wf() && fb.spec_current() is None && declare_outcome(
                old(self).spec_module(),
                fb.spec_module(),
                name@,
                linkage,
                abi,
                params@.map_values(|p: (&str, TypeId)| p.1),
                params@.map_values(|p: (&str, TypeId)| param_name(p.0)),
                result,
                false,
                Ok::<FunctionId, BuildError>(fb.spec_function_id()),
            ),
    {
        let id = self.declare_function(name, linkage, abi, params, result)?;
        proof {
            assert(declare_outcome(
                old(self).spec_module(),
                self.spec_module(),
                name@,
                linkage,
                abi,
                params@.map_values(|p: (&str, TypeId)| p.1),
                params@.map_values(|p: (&str, TypeId)| param_name(p.0)),
                result,
                false,
                Ok::<FunctionId, BuildError>(id),
            ));
        }
        self.function_builder(id)
    }

    /// Returns a builder cursor for an already-declared function.
    pub fn function_builder(&mut self, id: FunctionId) -> (r: Result<FunctionBuilder<'_>, BuildError>)
        ensures
            (id.0 as int) >= old(self).spec_module().functions@.len() ==> r == Err::<FunctionBuilder<'_>, BuildError>(
                BuildError::UnknownFunction { function: id },
            ),
            (id.0 as int) < old(self).spec_module().functions@.len() ==> (r matches Ok(fb) && fb.wf()
                && fb.spec_function_id() == id && fb.spec_current() is None && fb.spec_module()
                == old(self).spec_module()),
            r is Err ==> final(self).spec_module() == old(self).spec_module(),
    {
        if id.index() >= self.module.functions.len() {
            return Err(BuildError::UnknownFunction { function: id });
        }
        Ok(FunctionBuilder { module: &mut self.module, function: id, current: None })
    }
}

/// The name a parameter is declared with: none when the text is empty.
pub open spec fn param_name(s: &str) -> Option<Seq<char>> {
    if s@.len() == 0 {
        None
    } else {
        Some(s@)
    }
}

/// A value's debug name `sym` is the one declared: none for an anonymous
/// value, else a symbol of `names` that reads `n`.
pub open spec fn names_value(names: Seq<Seq<char>>, sym: Option<SymbolId>, declared: Option<Seq<char>>) -> bool {
    match declared {
        None => sym is None,
        Some(n) => sym matches Some(s) && (s.0 as int) < names.len() && names[s.0 as int] == n,
    }
}

/// Outcome of declaring a function: either the module is unchanged and an
/// error explains why (invalid name, duplicate name, non-first-class
/// parameter or result type, variadic non-external function), or a fresh
/// body-less function with these facts is appended.
pub open spec fn declare_outcome(
    old: Module,
    new: Module,
    name: Seq<char>,
    linkage: Linkage,
    abi: Abi,
    param_types: Seq<TypeId>,
    param_names: Seq<Option<Seq<char>>>,
    result: TypeId,
    variadic: bool,
    r: Result<FunctionId, BuildError>,
) -> bool {
    let valid_name = spec_is_ident(vstd::utf8::encode_utf8(name));
    let duplicate = exists|i: int| 0 <= i < old.functions@.len() && old.function_named(i, name);
    let params_ok = forall|i: int| 0 <= i < param_types.len() ==> spec_param_type_ok(old, #[trigger] param_types[i]);
    let result_ok = spec_result_type_ok(old, result);
    let variadic_ok = !variadic || linkage == Linkage::External;
    &&& (r is Ok <==> (valid_name && !duplicate && params_ok && result_ok && variadic_ok))
    &&& (!valid_name ==> (r matches Err(BuildError::InvalidName { name: n, reason }) && n@ == name && reason@
        == "function names must be identifiers"@))
    &&& (valid_name && duplicate ==> (r matches Err(BuildError::DuplicateFunctionName { name: n }) && n@ == name))
    &&& (valid_name && !duplicate && !(params_ok && result_ok && variadic_ok) ==> r matches Err(
        BuildError::InvalidSignature { .. },
    ))
    &&& r is Err ==> new == old
    &&& r matches Ok(id) ==> {
        &&& id.0 == old.functions@.len() as u32
        &&& new.functions@.len() == old.functions@.len() + 1
        &&& new.functions@.drop_last() == old.functions@
        &&& new.types == old.types
        &&& new.constants == old.constants
        &&& new.version == old.version
        &&& new.name == old.name
        &&& {
            let f = new.functions@.last();
            &&& f.linkage == linkage
            &&& f.abi == abi
            &&& f.result == result
            &&& f.variadic == variadic
            &&& f.blocks@.len() == 0
            &&& f.params@.len() == param_types.len()
            &&& forall|i: int| 0 <= i < param_types.len() ==> #[trigger] f.params@[i] == (Param { value: ValueId(i as u32), ty: param_types[i] })
            &&& new.symbols.view_names().contains(name)
            &&& f.values@.len() == param_types.len()
            &&& forall|i: int| 0 <= i < param_types.len() ==> (#[trigger] f.values@[i]).ty == param_types[i] && f.values@[i].kind
                == ValueKind::Param { index: i as u32 } && f.values@[i].span is None
            &&& symbols_extend(old.symbols.view_names(), new.symbols.view_names())
            &&& new.symbols.names@.len() <= u32::MAX ==> {
                &&& (f.symbol.0 as int) < new.symbols.names@.len()
                &&& new.symbols.view_names()[f.symbol.0 as int] == name
                &&& forall|i: int| 0 <= i < param_types.len() ==> names_value(new.symbols.view_names(), #[trigger] f.values@[i].name, param_names[i])
            }
        }
    }
}


/// Binary operators emitted by the builder.
#[derive(Clone, Copy)]
enum BinOp {
    Add,
    Sub,
    Mul,
    Div,
    Rem,
    And,
    Or,
    Xor,
    Eq,
    Ne,
    Lt,
    Le,
    Gt,
    Ge,
}

spec fn bin_kind(op: BinOp, lhs: ValueId, rhs: ValueId) -> InstructionKind {
    match op {
        BinOp::Add => InstructionKind::Add { lhs, rhs },
        BinOp::Sub => InstructionKind::Sub { lhs, rhs },
        BinOp::Mul => InstructionKind::Mul { lhs, rhs },
        BinOp::Div => InstructionKind::Div { lhs, rhs },
        BinOp::Rem => InstructionKind::Rem { lhs, rhs },
        BinOp::And => InstructionKind::And { lhs, rhs },
        BinOp::Or => InstructionKind::Or { lhs, rhs },
        BinOp::Xor => InstructionKind::Xor { lhs, rhs },
        BinOp::Eq => InstructionKind::Eq { lhs, rhs },
        BinOp::Ne => InstructionKind::Ne { lhs, rhs },
        BinOp::Lt => InstructionKind::Lt { lhs, rhs },
        BinOp::Le => InstructionKind::Le { lhs, rhs },
        BinOp::Gt => InstructionKind::Gt { lhs, rhs },
        BinOp::Ge => InstructionKind::Ge { lhs, rhs },
    }
}

fn make_bin(op: BinOp, lhs: ValueId, rhs: ValueId) -> (r: InstructionKind)
    ensures
        r == bin_kind(op, lhs, rhs),
{
    match op {
        BinOp::Add => InstructionKind::Add { lhs, rhs },
        BinOp::Sub => InstructionKind::Sub { lhs, rhs },
        BinOp::Mul => InstructionKind::Mul { lhs, rhs },
        BinOp::Div => InstructionKind::Div { lhs, rhs },
        BinOp::Rem => InstructionKind::Rem { lhs, rhs },
        BinOp::And => InstructionKind::And { lhs, rhs },
        BinOp::Or => InstructionKind::Or { lhs, rhs },
        BinOp::Xor => InstructionKind::Xor { lhs, rhs },
        BinOp::Eq => InstructionKind::Eq { lhs, rhs },
        BinOp::Ne => InstructionKind::Ne { lhs, rhs },
        BinOp::Lt => InstructionKind::Lt { lhs, rhs },
        BinOp::Le => InstructionKind::Le { lhs, rhs },
        BinOp::Gt => InstructionKind::Gt { lhs, rhs },
        BinOp::Ge => InstructionKind::Ge { lhs, rhs },
    }
}

/// Operand classes accepted by `add`, `sub`, `mul` and `div`, and by the
/// ordered comparisons: arithmetic integers or floats.
pub open spec fn arith_or_float(d: TypeData) -> bool {
    spec_is_arith_integer(d) || spec_is_float(d)
}

/// Operand classes accepted by `eq` and `ne`.
pub open spec fn equality_operand(d: TypeData) -> bool {
    spec_is_integer(d) || spec_is_float(d) || spec_is_pointer(d)
}

spec fn bin_class_ok(op: BinOp, d: TypeData) -> bool {
    match op {
        BinOp::Add | BinOp::Sub | BinOp::Mul | BinOp::Div => arith_or_float(d),
        BinOp::Rem => spec_is_arith_integer(d),
        BinOp::And | BinOp::Or | BinOp::Xor => spec_is_integer(d),
        BinOp::Eq | BinOp::Ne => equality_operand(d),
        BinOp::Lt | BinOp::Le | BinOp::Gt | BinOp::Ge => arith_or_float(d),
    }
}

spec fn bin_compares(op: BinOp) -> bool {
    match op {
        BinOp::Eq | BinOp::Ne | BinOp::Lt | BinOp::Le | BinOp::Gt | BinOp::Ge => true,
        _ => false,
    }
}

/// The lower-case name of a binary operation.
spec fn bin_name_text(op: BinOp) -> Seq<char> {
    match op {
        BinOp::Add => "add"@,
        BinOp::Sub => "sub"@,
        BinOp::Mul => "mul"@,
        BinOp::Div => "div"@,
        BinOp::Rem => "rem"@,
        BinOp::And => "and"@,
        BinOp::Or => "or"@,
        BinOp::Xor => "xor"@,
        BinOp::Eq => "eq"@,
        BinOp::Ne => "ne"@,
        BinOp::Lt => "lt"@,
        BinOp::Le => "le"@,
        BinOp::Gt => "gt"@,
        BinOp::Ge => "ge"@,
    }
}

fn bin_name(op: BinOp) -> (r: &'static str)
    ensures
        r@ == bin_name_text(op),
{
    match op {
        BinOp::Add => "add",
        BinOp::Sub => "sub",
        BinOp::Mul => "mul",
        BinOp::Div => "div",
        BinOp::Rem => "rem",
        BinOp::And => "and",
        BinOp::Or => "or",
        BinOp::Xor => "xor",
        BinOp::Eq => "eq",
        BinOp::Ne => "ne",
        BinOp::Lt => "lt",
        BinOp::Le => "le",
        BinOp::Gt => "gt",
        BinOp::Ge => "ge",
    }
}

/// Number of fields of aggregate `d`: the array length or the number of
/// struct fields.
pub open spec fn aggregate_arity(d: TypeData) -> int {
    match d {
        TypeData::Array { length, .. } => length as int,
        TypeData::Struct { fields } => fields@.len() as int,
        _ => 0,
    }
}

/// Type of field `i` of aggregate `d`.
pub open spec fn aggregate_field(d: TypeData, i: int) -> TypeId {
    match d {
        TypeData::Array { element, .. } => element,
        TypeData::Struct { fields } => fields@[i],
        _ => TypeId(0),
    }
}

/// `elements` form a valid constant of aggregate type `ty` in `m`: one
/// existing pool constant per field, each fitting its field type.
pub open spec fn aggregate_constant_ok(m: Module, ty: TypeId, elements: Seq<ConstantId>) -> bool {
    &&& type_has(m, ty, |d: TypeData| spec_is_aggregate(d))
    &&& elements.len() == aggregate_arity(m.types.types@[ty.0 as int])
    &&& forall|i: int| 0 <= i < elements.len() ==> {
        &&& (#[trigger] elements[i].0 as int) < m.constants.constants@.len()
        &&& spec_constant_fits(
            m.types.types@,
            m.constants.constants@[elements[i].0 as int],
            aggregate_field(m.types.types@[ty.0 as int], i),
        )
    }
}

/// Bit width of an integer type description (0 for other types).
pub open spec fn int_bits_of(d: TypeData) -> u32 {
    match d {
        TypeData::Int { bits, .. } => bits,
        _ => 0,
    }
}

/// Conversions emitted by the builder.
#[derive(Clone, Copy)]
enum ConvOp {
    Ext,
    Trunc,
    IntToFloat,
    FloatToInt,
}

spec fn conv_kind(op: ConvOp, to: TypeId, value: ValueId) -> InstructionKind {
    match op {
        ConvOp::Ext => InstructionKind::Ext { to, value },
        ConvOp::Trunc => InstructionKind::Trunc { to, value },
        ConvOp::IntToFloat => InstructionKind::IntToFloat { to, value },
        ConvOp::FloatToInt => InstructionKind::FloatToInt { to, value },
    }
}

spec fn conv_to_ok(op: ConvOp, d: TypeData) -> bool {
    match op {
        ConvOp::Ext => spec_is_arith_integer(d),
        ConvOp::Trunc => spec_is_integer(d),
        ConvOp::IntToFloat => spec_is_float(d),
        ConvOp::FloatToInt => spec_is_arith_integer(d),
    }
}

spec fn conv_from_ok(op: ConvOp, d: TypeData) -> bool {
    match op {
        ConvOp::Ext => spec_is_integer(d),
        ConvOp::Trunc => spec_is_integer(d),
        ConvOp::IntToFloat => spec_is_arith_integer(d),
        ConvOp::FloatToInt => spec_is_float(d),
    }
}

spec fn conv_widen(op: ConvOp) -> Option<bool> {
    match op {
        ConvOp::Ext => Some(true),
        ConvOp::Trunc => Some(false),
        _ => None,
    }
}

/// A cursor for building one function body.
///
/// Instructions are appended to the current block; terminators complete
/// the current block, which stays selected until the cursor moves.
pub struct FunctionBuilder<'m> {
    module: &'m mut Module,
    function: FunctionId,
    current: Option<BlockId>,
}

/// Everything but function `fid`'s body is unchanged; the symbol, type and
/// constant tables are unchanged too.
pub open spec fn tables_kept(old: Module, new: Module) -> bool {
    &&& new.symbols == old.symbols
    &&& new.types == old.types
    &&& new.constants == old.constants
}

impl<'m> FunctionBuilder<'m> {
    /// The module being built.
    pub closed spec fn spec_module(&self) -> Module {
        *self.module
    }

    /// The function being built.
    pub closed spec fn spec_function_id(&self) -> FunctionId {
        self.function
    }

    /// The block instructions are appended to.
    pub closed spec fn spec_current(&self) -> Option<BlockId> {
        self.current
    }

    /// The function being built.
    pub open spec fn func(&self) -> Function {
        self.spec_module().functions@[self.spec_function_id().0 as int]
    }

    /// The cursor points at an existing function and, if any, an existing
    /// block.
    pub open spec fn wf(&self) -> bool {
        &&& (self.spec_function_id().0 as int) < self.spec_module().functions@.len()
        &&& self.spec_current() matches Some(b) ==> (b.0 as int) < self.func().blocks@.len()
    }

    /// Type of value `v`, if it exists.
    pub open spec fn value_type(&self, v: ValueId) -> Option<TypeId> {
        if (v.0 as int) < self.func().values@.len() {
            Some(self.func().values@[v.0 as int].ty)
        } else {
            None
        }
    }

    /// Description of type `t`, if it exists.
    pub open spec fn type_data(&self, t: TypeId) -> Option<TypeData> {
        if (t.0 as int) < self.spec_module().types.types@.len() {
            Some(self.spec_module().types.types@[t.0 as int])
        } else {
            None
        }
    }

    /// `t` exists and satisfies `pred`.
    pub open spec fn type_is(&self, t: TypeId, pred: spec_fn(TypeData) -> bool) -> bool {
        self.type_data(t) matches Some(d) && pred(d)
    }

    /// A block is selected and not yet terminated.
    pub open spec fn can_emit(&self) -> bool {
        self.spec_current() matches Some(b) && self.func().blocks@[b.0 as int].terminator is None
    }

    /// The error emission reports when no instruction can be appended.
    pub open spec fn emit_error(&self) -> BuildError {
        match self.spec_current() {
            None => BuildError::NoCurrentBlock { action: "emit" },
            Some(b) => BuildError::BlockTerminated { block: b },
        }
    }

    /// The last instruction of the current block.
    pub open spec fn last_inst(&self) -> Instruction {
        self.func().blocks@[self.spec_current().unwrap().0 as int].instructions@.last()
    }

    /// `new` continues `old`: same cursor, only the function being built
    /// may have changed, and its header did not.
    pub open spec fn kept(old: Self, new: Self) -> bool {
        &&& new.wf()
        &&& new.spec_function_id() == old.spec_function_id()
        &&& only_function_changed(old.spec_module(), new.spec_module(), old.spec_function_id().0 as int)
        &&& same_header(old.func(), new.func())
    }

    /// `new` equals `old` (nothing was changed).
    pub open spec fn unchanged(old: Self, new: Self) -> bool {
        &&& new.spec_module() == old.spec_module()
        &&& new.spec_function_id() == old.spec_function_id()
        &&& new.spec_current() == old.spec_current()
    }

    /// `new` is `old` with one instruction appended to the current block;
    /// with a result type `ty`, a fresh value of that type (the next arena
    /// slot) is its result.
    pub open spec fn emitted(old: Self, new: Self, ty: Option<TypeId>, r: Option<ValueId>) -> bool {
        let b = old.spec_current().unwrap().0 as int;
        let of = old.func();
        let nf = new.func();
        &&& Self::kept(old, new)
        &&& new.spec_current() == old.spec_current()
        &&& nf.blocks@.len() == of.blocks@.len()
        &&& forall|j: int| 0 <= j < of.blocks@.len() && j != b ==> nf.blocks@[j] == of.blocks@[j]
        &&& nf.blocks@[b].params@ == of.blocks@[b].params@
        &&& nf.blocks@[b].terminator == of.blocks@[b].terminator
        &&& nf.blocks@[b].name == of.blocks@[b].name
        &&& nf.blocks@[b].span == of.blocks@[b].span
        &&& nf.blocks@[b].instructions@.drop_last() == of.blocks@[b].instructions@
        &&& nf.blocks@[b].instructions@.len() == of.blocks@[b].instructions@.len() + 1
        &&& new.last_inst().result == r
        &&& new.last_inst().span is None
        &&& match ty {
            Some(t) => {
                &&& r == Some(ValueId(of.values@.len() as u32))
                &&& nf.values@ == of.values@.push(
                    ValueData {
                        ty: t,
                        kind: ValueKind::Inst {
                            block: old.spec_current().unwrap(),
                            index: of.blocks@[b].instructions@.len() as u32,
                        },
                        name: None,
                        span: None,
                    },
                )
            },
            None => r is None && nf.values@ == of.values@,
        }
    }

    /// Outcome of a binary operation with operand class `class_ok`: unknown
    /// operands, differing operand types and unsupported types are
    /// rejected in that order, then the instruction `kind` is emitted with
    /// result type `i1` for comparisons and the operand type otherwise.
    pub open spec fn binop_outcome(
        old: Self,
        new: Self,
        lhs: ValueId,
        rhs: ValueId,
        kind: InstructionKind,
        class_ok: spec_fn(TypeData) -> bool,
        compares: bool,
        r: Result<ValueId, BuildError>,
    ) -> bool {
        &&& (old.value_type(lhs) is None ==> (r matches Err(BuildError::UnknownValue { value, .. }) && value == lhs))
        &&& (old.value_type(lhs) is Some && old.value_type(rhs) is None ==> (r matches Err(BuildError::UnknownValue { value, .. }) && value == rhs))
        &&& old.value_type(lhs) matches Some(lt) ==> (old.value_type(rhs) matches Some(rt) ==> {
            &&& (lt != rt ==> (r matches Err(BuildError::TypeMismatch { .. })))
            &&& (lt == rt && !old.type_is(lt, class_ok) ==> (r matches Err(BuildError::InvalidOperand { .. })))
            &&& lt == rt && old.type_is(lt, class_ok) && !old.can_emit() ==> r == Err::<ValueId, BuildError>(old.emit_error())
            &&& lt == rt && old.type_is(lt, class_ok) && old.can_emit() ==> (r matches Ok(v) && Self::emitted(old, new, Some(if compares { TypeId::I1() } else { lt }), Some(v))
                && new.last_inst().kind == kind && tables_kept(old.spec_module(), new.spec_module()))
        })
        &&& r is Err ==> Self::unchanged(old, new)
    }

    /// Outcome of a shift: unknown operands are rejected, then a left
    /// operand that is not an integer of at least 8 bits, then a count
    /// that is not an integer of any width; otherwise `kind` is emitted
    /// with the left operand's type as result type.
    pub open spec fn shift_outcome(
        old: Self,
        new: Self,
        lhs: ValueId,
        rhs: ValueId,
        kind: InstructionKind,
        r: Result<ValueId, BuildError>,
    ) -> bool {
        &&& (old.value_type(lhs) is None ==> (r matches Err(BuildError::UnknownValue { value, .. }) && value == lhs))
        &&& (old.value_type(lhs) is Some && old.value_type(rhs) is None ==> (r matches Err(BuildError::UnknownValue { value, .. }) && value == rhs))
        &&& old.value_type(lhs) matches Some(lt) ==> (old.value_type(rhs) matches Some(rt) ==> {
            &&& (!old.type_is(lt, |d: TypeData| spec_is_arith_integer(d)) ==> (r matches Err(BuildError::InvalidOperand { .. })))
            &&& (old.type_is(lt, |d: TypeData| spec_is_arith_integer(d)) && !old.type_is(rt, |d: TypeData| spec_is_integer(d))
                ==> (r matches Err(BuildError::InvalidOperand { .. })))
            &&& old.type_is(lt, |d: TypeData| spec_is_arith_integer(d)) && old.type_is(rt, |d: TypeData| spec_is_integer(d)) && !old.can_emit()
                ==> r == Err::<ValueId, BuildError>(old.emit_error())
            &&& old.type_is(lt, |d: TypeData| spec_is_arith_integer(d)) && old.type_is(rt, |d: TypeData| spec_is_integer(d)) && old.can_emit()
                ==> (r matches Ok(v) && Self::emitted(old, new, Some(lt), Some(v)) && new.last_inst().kind == kind
                && tables_kept(old.spec_module(), new.spec_module()))
        })
        &&& r is Err ==> Self::unchanged(old, new)
    }

    /// Outcome of materializing constant `data`: it is interned into the
    /// pool (also when the emission then fails); with `pointee` given, the
    /// type `ptr<pointee>` is interned too and is the result type,
    /// otherwise `ty` is. Then the `const` instruction is emitted, or the
    /// emission error is returned with the function untouched.
    pub open spec fn const_outcome(
        old: Self,
        new: Self,
        data: ConstantData,
        pointee: Option<TypeId>,
        ty: TypeId,
        r: Result<ValueId, BuildError>,
    ) -> bool {
        let om = old.spec_module();
        let nm = new.spec_module();
        &&& nm.symbols == om.symbols
        &&& new.spec_function_id() == old.spec_function_id()
        &&& new.spec_current() == old.spec_current()
        &&& new.wf()
        &&& pointee is None ==> nm.types == om.types
        &&& pointee matches Some(p) ==> exists|pt: TypeId| #[trigger] interned(om.types.types@, TypeData::Pointer { pointee: p, address_space: 0 }, nm.types.types@, pt)
            && (old.can_emit() ==> new.func().values@.last().ty == pt)
        &&& exists|cid: ConstantId| #[trigger] constant_interned(om.constants.constants@, data, nm.constants.constants@, cid)
            && (old.can_emit() ==> new.last_inst().kind == InstructionKind::Const(cid))
        &&& !old.can_emit() ==> {
            &&& r == Err::<ValueId, BuildError>(old.emit_error())
            &&& nm.functions == om.functions
            &&& nm.version == om.version
            &&& nm.name == om.name
        }
        &&& old.can_emit() ==> (r matches Ok(v) && Self::emitted(old, new, Some(new.func().values@.last().ty), Some(v)))
        &&& pointee is None && old.can_emit() ==> new.func().values@.last().ty == ty
    }

    /// Outcome of emitting `kind` whose result has type `ptr<pointee>`:
    /// that pointer type is interned (also when the emission then fails),
    /// then the instruction is emitted, or the emission error is returned
    /// with the function untouched.
    pub open spec fn ptr_emit_outcome(
        old: Self,
        new: Self,
        pointee: TypeId,
        kind: InstructionKind,
        r: Result<ValueId, BuildError>,
    ) -> bool {
        let om = old.spec_module();
        let nm = new.spec_module();
        &&& nm.symbols == om.symbols
        &&& nm.constants == om.constants
        &&& new.spec_function_id() == old.spec_function_id()
        &&& new.spec_current() == old.spec_current()
        &&& new.wf()
        &&& exists|pt: TypeId| #[trigger] interned(om.types.types@, TypeData::Pointer { pointee, address_space: 0 }, nm.types.types@, pt)
            && (old.can_emit() ==> (r matches Ok(v) && Self::emitted(old, new, Some(pt), Some(v))))
        &&& old.can_emit() ==> new.last_inst().kind == kind
        &&& !old.can_emit() ==> {
            &&& r == Err::<ValueId, BuildError>(old.emit_error())
            &&& nm.functions == om.functions
            &&& nm.version == om.version
            &&& nm.name == om.name
        }
    }

    /// Outcome of emitting `kind` with a result of type `ty` after all
    /// operand checks passed.
    pub open spec fn emit_outcome(old: Self, new: Self, kind: InstructionKind, ty: TypeId, r: Result<ValueId, BuildError>) -> bool {
        &&& !old.can_emit() ==> r == Err::<ValueId, BuildError>(old.emit_error()) && Self::unchanged(old, new)
        &&& old.can_emit() ==> (r matches Ok(v) && Self::emitted(old, new, Some(ty), Some(v)) && new.last_inst().kind == kind
            && tables_kept(old.spec_module(), new.spec_module()))
    }

    /// Outcome of emitting `kind` without a result after all operand
    /// checks passed.
    pub open spec fn emit_unit_outcome(old: Self, new: Self, kind: InstructionKind, r: Result<(), BuildError>) -> bool {
        &&& !old.can_emit() ==> r == Err::<(), BuildError>(old.emit_error()) && Self::unchanged(old, new)
        &&& old.can_emit() ==> r is Ok && Self::emitted(old, new, None, None) && new.last_inst().kind == kind
            && tables_kept(old.spec_module(), new.spec_module())
    }

    /// The pointee of pointer type `t`, if `t` is an existing pointer type.
    pub open spec fn pointee_type(&self, t: TypeId) -> Option<TypeId> {
        match self.type_data(t) {
            Some(TypeData::Pointer { pointee, .. }) => Some(pointee),
            _ => None,
        }
    }

    /// Rejection of operand `v` as unknown, with nothing changed.
    pub open spec fn rejects_unknown(old: Self, new: Self, v: ValueId, r: Result<ValueId, BuildError>) -> bool {
        (r matches Err(BuildError::UnknownValue { value, .. }) && value == v) && Self::unchanged(old, new)
    }

    /// Rejection with an `InvalidOperand` error, with nothing changed.
    pub open spec fn rejects_operand(old: Self, new: Self, r: Result<ValueId, BuildError>) -> bool {
        (r matches Err(BuildError::InvalidOperand { .. })) && Self::unchanged(old, new)
    }

    /// Outcome of a conversion of `value` to type `to`: the target must
    /// satisfy `to_ok`, the source `from_ok`, and for integer resizing the
    /// width must grow (`widen == Some(true)`) or shrink
    /// (`Some(false)`).
    pub open spec fn conv_outcome(
        old: Self,
        new: Self,
        to: TypeId,
        value: ValueId,
        kind: InstructionKind,
        to_ok: spec_fn(TypeData) -> bool,
        from_ok: spec_fn(TypeData) -> bool,
        widen: Option<bool>,
        r: Result<ValueId, BuildError>,
    ) -> bool {
        match old.value_type(value) {
            None => Self::rejects_unknown(old, new, value, r),
            Some(from) => {
                let ok = old.type_is(to, to_ok) && old.type_is(from, from_ok) && match widen {
                    None => true,
                    Some(true) => int_bits_of(old.type_data(to).unwrap()) > int_bits_of(old.type_data(from).unwrap()),
                    Some(false) => int_bits_of(old.type_data(to).unwrap()) < int_bits_of(old.type_data(from).unwrap()),
                };
                &&& !ok ==> Self::rejects_operand(old, new, r)
                &&& ok ==> Self::emit_outcome(old, new, kind, to, r)
            },
        }
    }

    /// Whether `n` arguments suit the arity of `f`: exactly its parameter
    /// count, or at least that many for a variadic function.
    pub open spec fn call_arity_ok(f: Function, n: int) -> bool {
        if f.variadic {
            n >= f.params@.len()
        } else {
            n == f.params@.len()
        }
    }

    /// Argument `i` of a call to `f` is acceptable: a fixed argument has
    /// exactly the parameter's type, an extra variadic argument is a
    /// first-class value.
    pub open spec fn call_arg_ok(&self, f: Function, args: Seq<ValueId>, i: int) -> bool {
        if i < f.params@.len() {
            self.value_type(args[i]) == Some(f.params@[i].ty)
        } else {
            self.value_type(args[i]) matches Some(t) && self.type_is(t, |d: TypeData| spec_is_first_class(d))
        }
    }

    /// `j` is the first unacceptable argument of a call to `f`.
    pub open spec fn first_bad_arg(&self, f: Function, args: Seq<ValueId>, j: int) -> bool {
        &&& 0 <= j < args.len()
        &&& !self.call_arg_ok(f, args, j)
        &&& forall|k: int| 0 <= k < j ==> self.call_arg_ok(f, args, k)
    }

    /// Outcome of a direct call of `callee` with `args`.
    pub open spec fn call_outcome(old: Self, new: Self, callee: FunctionId, args: Seq<ValueId>, r: Result<Option<ValueId>, BuildError>) -> bool {
        let m = old.spec_module();
        if (callee.0 as int) >= m.functions@.len() {
            r == Err::<Option<ValueId>, BuildError>(BuildError::UnknownFunction { function: callee }) && Self::unchanged(old, new)
        } else {
            let f = m.functions@[callee.0 as int];
            let result_ty = if type_has(m, f.result, |d: TypeData| !(d is Void)) { Some(f.result) } else { None };
            &&& r is Err ==> Self::unchanged(old, new)
            &&& !Self::call_arity_ok(f, args.len() as int) ==> (r matches Err(BuildError::InvalidOperand { .. }))
            &&& Self::call_arity_ok(f, args.len() as int) ==> forall|j: int| #[trigger] old.first_bad_arg(f, args, j) ==> {
                &&& old.value_type(args[j]) is None ==> (r matches Err(BuildError::UnknownValue { value, .. }) && value == args[j])
                &&& old.value_type(args[j]) is Some && j < f.params@.len() ==> (r matches Err(BuildError::TypeMismatch { .. }))
                &&& old.value_type(args[j]) is Some && j >= f.params@.len() ==> (r matches Err(BuildError::InvalidOperand { .. }))
            }
            &&& Self::call_arity_ok(f, args.len() as int) && (forall|i: int| 0 <= i < args.len() ==> old.call_arg_ok(f, args, i)) ==> {
                &&& !old.can_emit() ==> r == Err::<Option<ValueId>, BuildError>(old.emit_error())
                &&& old.can_emit() ==> (r matches Ok(res) && Self::emitted(old, new, result_ty, res) && tables_kept(old.spec_module(), new.spec_module())
                    && (new.last_inst().kind matches InstructionKind::Call { callee: c, args: a } && c == callee && a@ == args))
            }
        }
    }

    /// Field `i` of a construction of aggregate `d` from `fields` has
    /// the field's type.
    pub open spec fn field_ok(&self, d: TypeData, fields: Seq<ValueId>, i: int) -> bool {
        self.value_type(fields[i]) == Some(aggregate_field(d, i))
    }

    /// Outcome of constructing an aggregate of type `ty` from `fields`.
    pub open spec fn construct_outcome(old: Self, new: Self, ty: TypeId, fields: Seq<ValueId>, r: Result<ValueId, BuildError>) -> bool {
        if !old.type_is(ty, |d: TypeData| spec_is_aggregate(d)) {
            Self::rejects_operand(old, new, r)
        } else {
            let d = old.type_data(ty).unwrap();
            if fields.len() != aggregate_arity(d) {
                Self::rejects_operand(old, new, r)
            } else {
                &&& r is Err ==> Self::unchanged(old, new)
                &&& forall|j: int| 0 <= j < fields.len() && !(#[trigger] old.field_ok(d, fields, j)) && (forall|k: int| 0 <= k < j ==> old.field_ok(d, fields, k)) ==> {
                    &&& old.value_type(fields[j]) is None ==> (r matches Err(BuildError::UnknownValue { value, .. }) && value == fields[j])
                    &&& old.value_type(fields[j]) is Some ==> (r matches Err(BuildError::TypeMismatch { .. }))
                }
                &&& (forall|i: int| 0 <= i < fields.len() ==> old.field_ok(d, fields, i)) ==> {
                    &&& !old.can_emit() ==> r == Err::<ValueId, BuildError>(old.emit_error())
                    &&& old.can_emit() ==> (r matches Ok(v) && Self::emitted(old, new, Some(ty), Some(v)) && tables_kept(old.spec_module(), new.spec_module())
                        && (new.last_inst().kind matches InstructionKind::Construct { ty: t, fields: fs } && t == ty && fs@ == fields))
                }
            }
        }
    }

    proof fn lemma_first_bad_arg_unique(&self, f: Function, args: Seq<ValueId>, i: int)
        requires
            0 <= i < args.len(),
            !self.call_arg_ok(f, args, i),
            forall|k: int| 0 <= k < i ==> self.call_arg_ok(f, args, k),
        ensures
            forall|j: int| #[trigger] self.first_bad_arg(f, args, j) ==> j == i,
            !(forall|k: int| 0 <= k < args.len() ==> self.call_arg_ok(f, args, k)),
    {
        assert forall|j: int| #[trigger] self.first_bad_arg(f, args, j) implies j == i by {
            if j < i {
                assert(self.call_arg_ok(f, args, j));
            }
            if j > i {
                assert(self.call_arg_ok(f, args, i));
            }
        }
    }

    proof fn lemma_first_bad_field_unique(&self, d: TypeData, fields: Seq<ValueId>, i: int)
        requires
            0 <= i < fields.len(),
            !self.field_ok(d, fields, i),
            forall|k: int| 0 <= k < i ==> self.field_ok(d, fields, k),
        ensures
            forall|j: int| 0 <= j < fields.len() && !(#[trigger] self.field_ok(d, fields, j)) && (forall|k: int| 0 <= k < j ==> self.field_ok(d, fields, k)) ==> j == i,
            !(forall|k: int| 0 <= k < fields.len() ==> self.field_ok(d, fields, k)),
    {
        assert forall|j: int| 0 <= j < fields.len() && !(#[trigger] self.field_ok(d, fields, j)) && (forall|k: int| 0 <= k < j ==> self.field_ok(d, fields, k)) implies j == i by {
            if j < i {
                assert(self.field_ok(d, fields, j));
            }
            if j > i {
                assert(self.field_ok(d, fields, i));
            }
        }
    }

    /// The terminator of the current block.
    pub open spec fn current_terminator(&self) -> Option<Terminator> {
        self.func().blocks@[self.spec_current().unwrap().0 as int].terminator
    }

    /// `new` is `old` with a terminator set on the current block, which
    /// was not terminated before; nothing else changed.
    pub open spec fn terminated(old: Self, new: Self) -> bool {
        let b = old.spec_current().unwrap().0 as int;
        let of = old.func();
        let nf = new.func();
        &&& Self::kept(old, new)
        &&& tables_kept(old.spec_module(), new.spec_module())
        &&& new.spec_current() == old.spec_current()
        &&& nf.values == of.values
        &&& nf.blocks@.len() == of.blocks@.len()
        &&& forall|j: int| 0 <= j < of.blocks@.len() && j != b ==> nf.blocks@[j] == of.blocks@[j]
        &&& nf.blocks@[b].params == of.blocks@[b].params
        &&& nf.blocks@[b].instructions == of.blocks@[b].instructions
        &&& nf.blocks@[b].name == of.blocks@[b].name
        &&& nf.blocks@[b].span == of.blocks@[b].span
        &&& nf.blocks@[b].terminator is Some
    }

    /// Branch argument `i` has the type of parameter `i` of block `b`.
    pub open spec fn branch_arg_ok(&self, b: BasicBlock, args: Seq<ValueId>, i: int) -> bool {
        self.value_type(args[i]) == Some(b.params@[i].ty)
    }

    /// `args` are valid arguments for a branch to `target`.
    pub open spec fn branch_args_ok(&self, target: BlockId, args: Seq<ValueId>) -> bool {
        &&& (target.0 as int) < self.func().blocks@.len()
        &&& self.func().blocks@[target.0 as int].params@.len() == args.len()
        &&& forall|i: int| 0 <= i < args.len() ==> self.branch_arg_ok(self.func().blocks@[target.0 as int], args, i)
    }

    /// `e` is the error for invalid branch arguments `args` to `target`:
    /// an unknown target block, a wrong argument count, or at the first
    /// bad argument an unknown value or a type mismatch.
    pub open spec fn branch_args_error(&self, target: BlockId, args: Seq<ValueId>, e: BuildError) -> bool {
        if (target.0 as int) >= self.func().blocks@.len() {
            e == BuildError::UnknownBlock { block: target }
        } else {
            let b = self.func().blocks@[target.0 as int];
            if b.params@.len() != args.len() {
                e is InvalidOperand
            } else {
                forall|j: int| 0 <= j < args.len() && !(#[trigger] self.branch_arg_ok(b, args, j)) && (forall|k: int| 0 <= k < j ==> self.branch_arg_ok(b, args, k)) ==> {
                    &&& self.value_type(args[j]) is None ==> (e matches BuildError::UnknownValue { value, .. } && value == args[j])
                    &&& self.value_type(args[j]) is Some ==> e is TypeMismatch
                }
            }
        }
    }

    /// Outcome of setting a terminator once all operand checks passed: the
    /// emission error when no unterminated block is selected, otherwise
    /// the current block is terminated with a terminator satisfying
    /// `shape`.
    pub open spec fn terminate_outcome(old: Self, new: Self, shape: spec_fn(Terminator) -> bool, r: Result<(), BuildError>) -> bool {
        &&& !old.can_emit() ==> r == Err::<(), BuildError>(old.emit_error()) && Self::unchanged(old, new)
        &&& old.can_emit() ==> r is Ok && Self::terminated(old, new) && (new.current_terminator() matches Some(t) && shape(t))
    }

    proof fn lemma_first_bad_branch_arg_unique(&self, b: BasicBlock, args: Seq<ValueId>, i: int)
        requires
            0 <= i < args.len(),
            !self.branch_arg_ok(b, args, i),
            forall|k: int| 0 <= k < i ==> self.branch_arg_ok(b, args, k),
        ensures
            forall|j: int| 0 <= j < args.len() && !(#[trigger] self.branch_arg_ok(b, args, j)) && (forall|k: int| 0 <= k < j ==> self.branch_arg_ok(b, args, k)) ==> j == i,
            !(forall|k: int| 0 <= k < args.len() ==> self.branch_arg_ok(b, args, k)),
    {
        assert forall|j: int| 0 <= j < args.len() && !(#[trigger] self.branch_arg_ok(b, args, j)) && (forall|k: int| 0 <= k < j ==> self.branch_arg_ok(b, args, k)) implies j == i by {
            if j < i {
                assert(self.branch_arg_ok(b, args, j));
            }
            if j > i {
                assert(self.branch_arg_ok(b, args, i));
            }
        }
    }

    /// A parameter of type `ty` may be added to block `block` under a
    /// name with bytes `name`: the name is empty or an identifier, the
    /// block exists, is not the entry block and is still empty, and `ty`
    /// is first-class.
    pub open spec fn block_param_ok(&self, block: BlockId, name: Seq<u8>, ty: TypeId) -> bool {
        &&& (name.len() == 0 || spec_is_ident(name))
        &&& (block.0 as int) < self.func().blocks@.len()
        &&& block.0 != 0
        &&& self.func().blocks@[block.0 as int].instructions@.len() == 0
        &&& self.func().blocks@[block.0 as int].terminator is None
        &&& self.type_is(ty, |d: TypeData| spec_is_first_class(d))
    }

    /// `new` is `old` with parameter `value` of type `ty` appended to
    /// block `block`, named by interning `name` when `named`.
    pub open spec fn param_added(old: Self, new: Self, block: BlockId, name: Seq<char>, named: bool, ty: TypeId, value: ValueId) -> bool {
        let of = old.func();
        let nf = new.func();
        let b = block.0 as int;
        &&& Self::kept(old, new)
        &&& new.spec_current() == old.spec_current()
        &&& new.spec_module().types == old.spec_module().types
        &&& new.spec_module().constants == old.spec_module().constants
        &&& !named ==> new.spec_module().symbols == old.spec_module().symbols
        &&& value == ValueId(of.values@.len() as u32)
        &&& nf.values@.len() == of.values@.len() + 1
        &&& nf.values@.drop_last() == of.values@
        &&& nf.values@.last().ty == ty
        &&& nf.values@.last().kind == (ValueKind::BlockParam { block, index: of.blocks@[b].params@.len() as u32 })
        &&& nf.values@.last().span is None
        &&& (!named ==> nf.values@.last().name is None)
        &&& (named ==> (nf.values@.last().name matches Some(sym)
            && symbol_interned(old.spec_module().symbols.view_names(), name, new.spec_module().symbols.view_names(), sym)))
        &&& nf.blocks@.len() == of.blocks@.len()
        &&& forall|j: int| 0 <= j < of.blocks@.len() && j != b ==> nf.blocks@[j] == of.blocks@[j]
        &&& nf.blocks@[b].params@ == of.blocks@[b].params@.push(BlockParam { value, ty })
        &&& nf.blocks@[b].instructions == of.blocks@[b].instructions
        &&& nf.blocks@[b].terminator == of.blocks@[b].terminator
        &&& nf.blocks@[b].name == of.blocks@[b].name
        &&& nf.blocks@[b].span == of.blocks@[b].span
    }

    fn f(&self) -> (r: &Function)
        requires
            self.wf(),
        ensures
            *r == self.func(),
    {
        &self.module.functions[self.function.index()]
    }

    fn ty_of(&self, v: ValueId) -> (r: Result<TypeId, BuildError>)
        requires
            self.wf(),
        ensures
            self.value_type(v) matches Some(t) ==> r == Ok::<TypeId, BuildError>(t),
            self.value_type(v) is None ==> r == Err::<TypeId, BuildError>(BuildError::UnknownValue { value: v, context: "operand lookup" }),
    {
        match self.f().value(v) {
            Some(d) => Ok(d.ty),
            None => Err(BuildError::UnknownValue { value: v, context: "operand lookup" }),
        }
    }

    fn type_label(&self, ty: TypeId) -> String {
        self.module.type_label(ty)
    }

    /// The function being built.
    pub fn function_id(&self) -> (r: FunctionId)
        ensures
            r == self.spec_function_id(),
    {
        self.function
    }

    /// The value of function parameter `index`.
    pub fn param(&self, index: usize) -> (r: ValueId)
        requires
            self.wf(),
            index < self.func().params@.len(),
        ensures
            r == self.func().params@[index as int].value,
    {
        self.f().params[index].value
    }

    /// The value of block parameter `index` of `block`.
    pub fn block_param(&self, block: BlockId, index: usize) -> (r: Result<ValueId, BuildError>)
        requires
            self.wf(),
        ensures
            (block.0 as int) < self.func().blocks@.len() && index < self.func().blocks@[block.0 as int].params@.len()
                ==> r == Ok::<ValueId, BuildError>(self.func().blocks@[block.0 as int].params@[index as int].value),
            !((block.0 as int) < self.func().blocks@.len() && index < self.func().blocks@[block.0 as int].params@.len())
                ==> r == Err::<ValueId, BuildError>(BuildError::UnknownBlock { block }),
    {
        match self.f().block(block) {
            Some(b) => if index < b.params.len() {
                Ok(b.params[index].value)
            } else {
                Err(BuildError::UnknownBlock { block })
            },
            None => Err(BuildError::UnknownBlock { block }),
        }
    }

    /// Appends a new anonymous block and switches to it. The first block
    /// appended is the entry block.
    pub fn append_block(&mut self) -> (r: BlockId)
        requires
            old(self).wf(),
        ensures
            Self::kept(*old(self), *final(self)),
            tables_kept(old(self).spec_module(), final(self).spec_module()),
            r.0 == old(self).func().blocks@.len() as u32,
            final(self).spec_current() == Some(r),
            final(self).func().values == old(self).func().values,
            final(self).func().blocks@.len() == old(self).func().blocks@.len() + 1,
            final(self).func().blocks@.drop_last() == old(self).func().blocks@,
            final(self).func().blocks@.last().params@.len() == 0,
            final(self).func().blocks@.last().instructions@.len() == 0,
            final(self).func().blocks@.last().terminator is None,
            final(self).func().blocks@.last().name is None,
    {
        let fi = self.function.index();
        let id = BlockId::new(#[verifier::truncate] (self.module.functions[fi].blocks.len() as u32));
        self.module.functions[fi].blocks.push(BasicBlock::new());
        self.current = Some(id);
        proof {
            assert(id.0 == old(self).func().blocks@.len() as u32);
            assert((id.0 as int) < self.func().blocks@.len() || true);
        }
        id
    }

    /// Appends `kind` to the current block, with a fresh result value of
    /// type `result_ty` when one is given.
    fn append(&mut self, kind: InstructionKind, result_ty: Option<TypeId>) -> (r: Result<Option<ValueId>, BuildError>)
        requires
            old(self).wf(),
        ensures
            !old(self).can_emit() ==> r == Err::<Option<ValueId>, BuildError>(old(self).emit_error()) && Self::unchanged(*old(self), *final(self)),
            old(self).can_emit() ==> (r matches Ok(res) && Self::emitted(*old(self), *final(self), result_ty, res)
                && final(self).last_inst().kind == kind && tables_kept(old(self).spec_module(), final(self).spec_module())),
    {
        let block = match self.current {
            Some(b) => b,
            None => { return Err(BuildError::NoCurrentBlock { action: "emit" }); },
        };
        let fi = self.function.index();
        let bi = block.index();
        if self.module.functions[fi].blocks[bi].terminator.is_some() {
            return Err(BuildError::BlockTerminated { block });
        }
        let index = #[verifier::truncate] (self.module.functions[fi].blocks[bi].instructions.len() as u32);
        let result = match result_ty {
            Some(ty) => {
                let v = ValueId::new(#[verifier::truncate] (self.module.functions[fi].values.len() as u32));
                self.module.functions[fi].values.push(ValueData::new(ty, ValueKind::Inst { block, index }));
                Some(v)
            },
            None => None,
        };
        self.module.functions[fi].blocks[bi].instructions.push(Instruction::new(kind, result));
        proof {
            assert(self.func().blocks@[bi as int].instructions@.drop_last() =~= old(self).func().blocks@[bi as int].instructions@);
            assert(self.spec_module().functions@.len() == old(self).spec_module().functions@.len());
        }
        Ok(result)
    }

    /// Description of type `ty` for messages.
    fn type_desc(&self, ty: TypeId) -> (r: String) {
        self.module.type_label(ty)
    }

    /// Type of value `v`, or `UnknownValue` with `context`.
    fn operand_type(&self, v: ValueId) -> (r: Result<TypeId, BuildError>)
        requires
            self.wf(),
        ensures
            self.value_type(v) matches Some(t) ==> r == Ok::<TypeId, BuildError>(t),
            self.value_type(v) is None ==> (r matches Err(BuildError::UnknownValue { value, .. }) && value == v),
    {
        self.ty_of(v)
    }

    /// Whether type `t` exists and satisfies the class of `op`.
    fn bin_operand_ok(&self, op: BinOp, t: TypeId) -> (r: bool)
        ensures
            r == self.type_is(t, |d: TypeData| bin_class_ok(op, d)),
    {
        match self.module.types.get(t) {
            Some(d) => match op {
                BinOp::Add | BinOp::Sub | BinOp::Mul | BinOp::Div => d.is_arith_integer() || d.is_float(),
                BinOp::Rem => d.is_arith_integer(),
                BinOp::And | BinOp::Or | BinOp::Xor => d.is_integer(),
                BinOp::Eq | BinOp::Ne => d.is_integer() || d.is_float() || d.is_pointer(),
                BinOp::Lt | BinOp::Le | BinOp::Gt | BinOp::Ge => d.is_arith_integer() || d.is_float(),
            },
            None => false,
        }
    }

    /// Shared implementation of the binary operations.
    fn binop(&mut self, op: BinOp, lhs: ValueId, rhs: ValueId) -> (r: Result<ValueId, BuildError>)
        requires
            old(self).wf(),
        ensures
            Self::binop_outcome(
                *old(self),
                *final(self),
                lhs,
                rhs,
                bin_kind(op, lhs, rhs),
                |d: TypeData| bin_class_ok(op, d),
                bin_compares(op),
                r,
            ),
    {
        let name = bin_name(op);
        let lt = self.operand_type(lhs)?;
        let rt = self.operand_type(rhs)?;
        if lt.0 != rt.0 {
            return Err(BuildError::TypeMismatch {
                context: concat_strs(&[name, " operands"]),
                expected: self.type_desc(lt),
                found: self.type_desc(rt),
            });
        }
        if !self.bin_operand_ok(op, lt) {
            let found = if lt.index() < self.module.types.len() {
                self.type_desc(lt)
            } else {
                let n = dec_string(lt.0 as u128);
                concat_strs(&["<invalid TypeId(", n.as_str(), ")>"])
            };
            return Err(BuildError::InvalidOperand {
                context: name,
                reason: concat_strs(&["operand type `", found.as_str(), "` is not supported by ", name]),
            });
        }
        let compares = match op {
            BinOp::Eq | BinOp::Ne | BinOp::Lt | BinOp::Le | BinOp::Gt | BinOp::Ge => true,
            _ => false,
        };
        let result_ty = if compares { TypeId::I1() } else { lt };
        let kind = make_bin(op, lhs, rhs);
        match self.append(kind, Some(result_ty)) {
            Ok(Some(v)) => Ok(v),
            Ok(None) => Err(BuildError::InvalidOperand {
                context: name,
                reason: concat_strs(&["expected an instruction result"]),
            }),
            Err(e) => Err(e),
        }
    }

    /// Wrapping integer/float addition.
    pub fn add(&mut self, lhs: ValueId, rhs: ValueId) -> (r: Result<ValueId, BuildError>)
        requires
            old(self).wf(),
        ensures
            Self::binop_outcome(*old(self), *final(self), lhs, rhs, (InstructionKind::Add { lhs, rhs }), |d: TypeData| arith_or_float(d), false, r),
    {
        let r = self.binop(BinOp::Add, lhs, rhs);
        proof {
            assert((|d: TypeData| bin_class_ok(BinOp::Add, d)) =~= (|d: TypeData| arith_or_float(d)));
        }
        r
    }

    /// Wrapping integer/float subtraction.
    pub fn sub(&mut self, lhs: ValueId, rhs: ValueId) -> (r: Result<ValueId, BuildError>)
        requires
            old(self).wf(),
        ensures
            Self::binop_outcome(*old(self), *final(self), lhs, rhs, (InstructionKind::Sub { lhs, rhs }), |d: TypeData| arith_or_float(d), false, r),
    {
        let r = self.binop(BinOp::Sub, lhs, rhs);
        proof {
            assert((|d: TypeData| bin_class_ok(BinOp::Sub, d)) =~= (|d: TypeData| arith_or_float(d)));
        }
        r
    }

    /// Wrapping integer/float multiplication.
    pub fn mul(&mut self, lhs: ValueId, rhs: ValueId) -> (r: Result<ValueId, BuildError>)
        requires
            old(self).wf(),
        ensures
            Self::binop_outcome(*old(self), *final(self), lhs, rhs, (InstructionKind::Mul { lhs, rhs }), |d: TypeData| arith_or_float(d), false, r),
    {
        let r = self.binop(BinOp::Mul, lhs, rhs);
        proof {
            assert((|d: TypeData| bin_class_ok(BinOp::Mul, d)) =~= (|d: TypeData| arith_or_float(d)));
        }
        r
    }

    /// Integer (truncating) or float division.
    pub fn div(&mut self, lhs: ValueId, rhs: ValueId) -> (r: Result<ValueId, BuildError>)
        requires
            old(self).wf(),
        ensures
            Self::binop_outcome(*old(self), *final(self), lhs, rhs, (InstructionKind::Div { lhs, rhs }), |d: TypeData| arith_or_float(d), false, r),
    {
        let r = self.binop(BinOp::Div, lhs, rhs);
        proof {
            assert((|d: TypeData| bin_class_ok(BinOp::Div, d)) =~= (|d: TypeData| arith_or_float(d)));
        }
        r
    }

    /// Integer remainder.
    pub fn rem(&mut self, lhs: ValueId, rhs: ValueId) -> (r: Result<ValueId, BuildError>)
        requires
            old(self).wf(),
        ensures
            Self::binop_outcome(*old(self), *final(self), lhs, rhs, (InstructionKind::Rem { lhs, rhs }), |d: TypeData| spec_is_arith_integer(d), false, r),
    {
        let r = self.binop(BinOp::Rem, lhs, rhs);
        proof {
            assert((|d: TypeData| bin_class_ok(BinOp::Rem, d)) =~= (|d: TypeData| spec_is_arith_integer(d)));
        }
        r
    }

    /// Bitwise AND.
    pub fn bit_and(&mut self, lhs: ValueId, rhs: ValueId) -> (r: Result<ValueId, BuildError>)
        requires
            old(self).wf(),
        ensures
            Self::binop_outcome(*old(self), *final(self), lhs, rhs, (InstructionKind::And { lhs, rhs }), |d: TypeData| spec_is_integer(d), false, r),
    {
        let r = self.binop(BinOp::And, lhs, rhs);
        proof {
            assert((|d: TypeData| bin_class_ok(BinOp::And, d)) =~= (|d: TypeData| spec_is_integer(d)));
        }
        r
    }

    /// Bitwise OR.
    pub fn bit_or(&mut self, lhs: ValueId, rhs: ValueId) -> (r: Result<ValueId, BuildError>)
        requires
            old(self).wf(),
        ensures
            Self::binop_outcome(*old(self), *final(self), lhs, rhs, (InstructionKind::Or { lhs, rhs }), |d: TypeData| spec_is_integer(d), false, r),
    {
        let r = self.binop(BinOp::Or, lhs, rhs);
        proof {
            assert((|d: TypeData| bin_class_ok(BinOp::Or, d)) =~= (|d: TypeData| spec_is_integer(d)));
        }
        r
    }

    /// Bitwise XOR.
    pub fn bit_xor(&mut self, lhs: ValueId, rhs: ValueId) -> (r: Result<ValueId, BuildError>)
        requires
            old(self).wf(),
        ensures
            Self::binop_outcome(*old(self), *final(self), lhs, rhs, (InstructionKind::Xor { lhs, rhs }), |d: TypeData| spec_is_integer(d), false, r),
    {
        let r = self.binop(BinOp::Xor, lhs, rhs);
        proof {
            assert((|d: TypeData| bin_class_ok(BinOp::Xor, d)) =~= (|d: TypeData| spec_is_integer(d)));
        }
        r
    }

    /// Equality comparison; result is `i1`.
    pub fn eq(&mut self, lhs: ValueId, rhs: ValueId) -> (r: Result<ValueId, BuildError>)
        requires
            old(self).wf(),
        ensures
            Self::binop_outcome(*old(self), *final(self), lhs, rhs, (InstructionKind::Eq { lhs, rhs }), |d: TypeData| equality_operand(d), true, r),
    {
        let r = self.binop(BinOp::Eq, lhs, rhs);
        proof {
            assert((|d: TypeData| bin_class_ok(BinOp::Eq, d)) =~= (|d: TypeData| equality_operand(d)));
        }
        r
    }

    /// Inequality comparison; result is `i1`.
    pub fn ne(&mut self, lhs: ValueId, rhs: ValueId) -> (r: Result<ValueId, BuildError>)
        requires
            old(self).wf(),
        ensures
            Self::binop_outcome(*old(self), *final(self), lhs, rhs, (InstructionKind::Ne { lhs, rhs }), |d: TypeData| equality_operand(d), true, r),
    {
        let r = self.binop(BinOp::Ne, lhs, rhs);
        proof {
            assert((|d: TypeData| bin_class_ok(BinOp::Ne, d)) =~= (|d: TypeData| equality_operand(d)));
        }
        r
    }

    /// Signed/unsigned/float less-than; result is `i1`.
    pub fn lt(&mut self, lhs: ValueId, rhs: ValueId) -> (r: Result<ValueId, BuildError>)
        requires
            old(self).wf(),
        ensures
            Self::binop_outcome(*old(self), *final(self), lhs, rhs, (InstructionKind::Lt { lhs, rhs }), |d: TypeData| arith_or_float(d), true, r),
    {
        let r = self.binop(BinOp::Lt, lhs, rhs);
        proof {
            assert((|d: TypeData| bin_class_ok(BinOp::Lt, d)) =~= (|d: TypeData| arith_or_float(d)));
        }
        r
    }

    /// Less-or-equal; result is `i1`.
    pub fn le(&mut self, lhs: ValueId, rhs: ValueId) -> (r: Result<ValueId, BuildError>)
        requires
            old(self).wf(),
        ensures
            Self::binop_outcome(*old(self), *final(self), lhs, rhs, (InstructionKind::Le { lhs, rhs }), |d: TypeData| arith_or_float(d), true, r),
    {
        let r = self.binop(BinOp::Le, lhs, rhs);
        proof {
            assert((|d: TypeData| bin_class_ok(BinOp::Le, d)) =~= (|d: TypeData| arith_or_float(d)));
        }
        r
    }

    /// Greater-than; result is `i1`.
    pub fn gt(&mut self, lhs: ValueId, rhs: ValueId) -> (r: Result<ValueId, BuildError>)
        requires
            old(self).wf(),
        ensures
            Self::binop_outcome(*old(self), *final(self), lhs, rhs, (InstructionKind::Gt { lhs, rhs }), |d: TypeData| arith_or_float(d), true, r),
    {
        let r = self.binop(BinOp::Gt, lhs, rhs);
        proof {
            assert((|d: TypeData| bin_class_ok(BinOp::Gt, d)) =~= (|d: TypeData| arith_or_float(d)));
        }
        r
    }

    /// Greater-or-equal; result is `i1`.
    pub fn ge(&mut self, lhs: ValueId, rhs: ValueId) -> (r: Result<ValueId, BuildError>)
        requires
            old(self).wf(),
        ensures
            Self::binop_outcome(*old(self), *final(self), lhs, rhs, (InstructionKind::Ge { lhs, rhs }), |d: TypeData| arith_or_float(d), true, r),
    {
        let r = self.binop(BinOp::Ge, lhs, rhs);
        proof {
            assert((|d: TypeData| bin_class_ok(BinOp::Ge, d)) =~= (|d: TypeData| arith_or_float(d)));
        }
        r
    }

    /// Shift left; the count may be an integer of any width.
    pub fn shl(&mut self, lhs: ValueId, rhs: ValueId) -> (r: Result<ValueId, BuildError>)
        requires
            old(self).wf(),
        ensures
            Self::shift_outcome(*old(self), *final(self), lhs, rhs, (InstructionKind::Shl { lhs, rhs }), r),
    {
        self.shift(true, lhs, rhs)
    }

    /// Shift right (arithmetic for signed operands, logical otherwise);
    /// the count may be an integer of any width.
    pub fn shr(&mut self, lhs: ValueId, rhs: ValueId) -> (r: Result<ValueId, BuildError>)
        requires
            old(self).wf(),
        ensures
            Self::shift_outcome(*old(self), *final(self), lhs, rhs, (InstructionKind::Shr { lhs, rhs }), r),
    {
        self.shift(false, lhs, rhs)
    }

    fn shift(&mut self, left: bool, lhs: ValueId, rhs: ValueId) -> (r: Result<ValueId, BuildError>)
        requires
            old(self).wf(),
        ensures
            Self::shift_outcome(
                *old(self),
                *final(self),
                lhs,
                rhs,
                if left { InstructionKind::Shl { lhs, rhs } } else { InstructionKind::Shr { lhs, rhs } },
                r,
            ),
    {
        let name = if left { "shl" } else { "shr" };
        let lt = self.operand_type(lhs)?;
        let rt = self.operand_type(rhs)?;
        let lhs_ok = match self.module.types.get(lt) {
            Some(d) => d.is_arith_integer(),
            None => false,
        };
        if !lhs_ok {
            let found = self.type_desc(lt);
            return Err(BuildError::InvalidOperand {
                context: name,
                reason: concat_strs(&["operand type `", found.as_str(), "` is not supported by ", name]),
            });
        }
        let rhs_ok = match self.module.types.get(rt) {
            Some(d) => d.is_integer(),
            None => false,
        };
        if !rhs_ok {
            let found = self.type_desc(rt);
            return Err(BuildError::InvalidOperand {
                context: name,
                reason: concat_strs(&["shift count type `", found.as_str(), "` is not an integer type"]),
            });
        }
        let kind = if left { InstructionKind::Shl { lhs, rhs } } else { InstructionKind::Shr { lhs, rhs } };
        match self.append(kind, Some(lt)) {
            Ok(Some(v)) => Ok(v),
            Ok(None) => Err(BuildError::InvalidOperand {
                context: name,
                reason: concat_strs(&["expected an instruction result"]),
            }),
            Err(e) => Err(e),
        }
    }

    /// Bit width of `ty` if it is an integer type.
    fn int_width(&self, ty: TypeId) -> (r: Option<u32>)
        ensures
            r == (match self.type_data(ty) {
                Some(TypeData::Int { bits, .. }) => Some(bits),
                _ => None::<u32>,
            }),
    {
        match self.module.types.get(ty) {
            Some(TypeData::Int { bits, .. }) => Some(*bits),
            _ => None,
        }
    }

    /// Interns `data` and emits a `const` of type `ty`.
    fn emit_constant(&mut self, data: ConstantData, ty: TypeId) -> (r: Result<ValueId, BuildError>)
        requires
            old(self).wf(),
        ensures
            Self::const_outcome(*old(self), *final(self), data, None, ty, r),
    {
        let ghost d = data;
        let cid = self.module.intern_constant(data);
        proof {
            assert(constant_interned(old(self).spec_module().constants.constants@, d, self.spec_module().constants.constants@, cid));
        }
        match self.append(InstructionKind::Const(cid), Some(ty)) {
            Ok(Some(v)) => Ok(v),
            Ok(None) => Err(BuildError::InvalidOperand {
                context: "const",
                reason: concat_strs(&["expected an instruction result"]),
            }),
            Err(e) => Err(e),
        }
    }

    /// `const`: materializes an integer constant; the value wraps to the
    /// type width.
    pub fn const_int(&mut self, ty: TypeId, value: i128) -> (r: Result<ValueId, BuildError>)
        requires
            old(self).wf(),
        ensures
            match old(self).type_data(ty) {
                Some(TypeData::Int { bits: width, .. }) => Self::const_outcome(
                    *old(self),
                    *final(self),
                    ConstantData::Int { ty, width, bits: (value as u128) & spec_mask(width) },
                    None,
                    ty,
                    r,
                ),
                _ => (r matches Err(BuildError::InvalidOperand { context, .. }) && context == "const_int") && Self::unchanged(*old(self), *final(self)),
            },
    {
        let width = match self.int_width(ty) {
            Some(w) => w,
            None => {
                let tn = self.type_desc(ty);
                return Err(BuildError::InvalidOperand {
                    context: "const_int",
                    reason: concat_strs(&["`", tn.as_str(), "` is not an integer type"]),
                });
            },
        };
        let bits = ConstantStore::mask_signed(value, width);
        self.emit_constant(ConstantData::Int { ty, width, bits }, ty)
    }

    /// `const`: materializes an unsigned integer constant; the value is
    /// truncated to the type width.
    pub fn const_uint(&mut self, ty: TypeId, value: u128) -> (r: Result<ValueId, BuildError>)
        requires
            old(self).wf(),
        ensures
            match old(self).type_data(ty) {
                Some(TypeData::Int { bits: width, .. }) => Self::const_outcome(
                    *old(self),
                    *final(self),
                    ConstantData::Int { ty, width, bits: value & spec_mask(width) },
                    None,
                    ty,
                    r,
                ),
                _ => (r matches Err(BuildError::InvalidOperand { context, .. }) && context == "const_uint") && Self::unchanged(*old(self), *final(self)),
            },
    {
        let width = match self.int_width(ty) {
            Some(w) => w,
            None => {
                let tn = self.type_desc(ty);
                return Err(BuildError::InvalidOperand {
                    context: "const_uint",
                    reason: concat_strs(&["`", tn.as_str(), "` is not an integer type"]),
                });
            },
        };
        let bits = ConstantStore::mask_unsigned(value, width);
        self.emit_constant(ConstantData::Int { ty, width, bits }, ty)
    }

    /// `const`: materializes an `f32` constant from its IEEE bit pattern.
    pub fn const_f32_bits(&mut self, bits: u32) -> (r: Result<ValueId, BuildError>)
        requires
            old(self).wf(),
        ensures
            Self::const_outcome(*old(self), *final(self), ConstantData::Float { ty: TypeId::F32(), bits: bits as u64 }, None, TypeId::F32(), r),
    {
        self.emit_constant(ConstantData::Float { ty: TypeId::F32(), bits: bits as u64 }, TypeId::F32())
    }

    /// `const`: materializes an `f64` constant from its IEEE bit pattern.
    pub fn const_f64_bits(&mut self, bits: u64) -> (r: Result<ValueId, BuildError>)
        requires
            old(self).wf(),
        ensures
            Self::const_outcome(*old(self), *final(self), ConstantData::Float { ty: TypeId::F64(), bits }, None, TypeId::F64(), r),
    {
        self.emit_constant(ConstantData::Float { ty: TypeId::F64(), bits }, TypeId::F64())
    }

    /// Interns `data` and `ptr<pointee>` and emits a `const` of that
    /// pointer type.
    fn emit_pointer_constant(&mut self, data: ConstantData, pointee: TypeId) -> (r: Result<ValueId, BuildError>)
        requires
            old(self).wf(),
        ensures
            Self::const_outcome(*old(self), *final(self), data, Some(pointee), TypeId(0), r),
    {
        let ghost d = data;
        let cid = self.module.intern_constant(data);
        let ghost consts = self.spec_module().constants.constants@;
        let ptr = self.module.types.ptr(pointee);
        let ghost tys = self.spec_module().types.types@;
        let r = match self.append(InstructionKind::Const(cid), Some(ptr)) {
            Ok(Some(v)) => Ok(v),
            Ok(None) => Err(BuildError::InvalidOperand {
                context: "const",
                reason: concat_strs(&["expected an instruction result"]),
            }),
            Err(e) => Err(e),
        };
        proof {
            assert(self.spec_module().types.types@ == tys);
            assert(self.spec_module().constants.constants@ == consts);
            assert(constant_interned(old(self).spec_module().constants.constants@, d, self.spec_module().constants.constants@, cid));
            assert(interned(old(self).spec_module().types.types@, TypeData::Pointer { pointee, address_space: 0 }, self.spec_module().types.types@, ptr));
        }
        r
    }

    /// Whether `ty` exists and is first-class.
    fn first_class(&self, ty: TypeId) -> (r: bool)
        ensures
            r == self.type_is(ty, |d: TypeData| spec_is_first_class(d)),
    {
        match self.module.types.get(ty) {
            Some(d) => d.is_first_class(),
            None => false,
        }
    }

    /// `const`: materializes a null pointer of type `ptr<pointee>`.
    pub fn const_null(&mut self, pointee: TypeId) -> (r: Result<ValueId, BuildError>)
        requires
            old(self).wf(),
        ensures
            old(self).type_is(pointee, |d: TypeData| spec_is_first_class(d)) ==> Self::const_outcome(
                *old(self),
                *final(self),
                ConstantData::Null { pointee },
                Some(pointee),
                TypeId(0),
                r,
            ),
            !old(self).type_is(pointee, |d: TypeData| spec_is_first_class(d)) ==> (r matches Err(BuildError::InvalidOperand { context, .. })
                && context == "const_null") && Self::unchanged(*old(self), *final(self)),
    {
        if !self.first_class(pointee) {
            let tn = self.type_desc(pointee);
            return Err(BuildError::InvalidOperand {
                context: "const_null",
                reason: concat_strs(&["`", tn.as_str(), "` is not a valid pointee type"]),
            });
        }
        self.emit_pointer_constant(ConstantData::Null { pointee }, pointee)
    }

    /// `const`: materializes a string constant of type `ptr<i8>`.
    pub fn const_string(&mut self, bytes: &[u8]) -> (r: Result<ValueId, BuildError>)
        requires
            old(self).wf(),
        ensures
            exists|data: ConstantData| #[trigger] Self::const_outcome(*old(self), *final(self), data, Some(TypeId::I8()), TypeId(0), r)
                && (data matches ConstantData::String { bytes: b } && b@ == bytes@),
    {
        let v = vstd::slice::slice_to_vec(bytes);
        let data = ConstantData::String { bytes: v };
        let ghost d = data;
        let r = self.emit_pointer_constant(data, TypeId::I8());
        proof {
            assert(Self::const_outcome(*old(self), *self, d, Some(TypeId::I8()), TypeId(0), r));
        }
        r
    }

    /// Checks that `elements` form a valid constant of aggregate type `ty`.
    fn check_aggregate_constant(&self, ty: TypeId, elements: &[ConstantId]) -> (r: Result<(), BuildError>)
        requires
            self.wf(),
        ensures
            r is Ok <==> aggregate_constant_ok(self.spec_module(), ty, elements@),
            r matches Err(e) ==> e is InvalidConstant,
    {
        let d = match self.module.types.get(ty) {
            Some(d) => d,
            None => {
                let tn = self.type_desc(ty);
                return Err(BuildError::InvalidConstant {
                    reason: concat_strs(&["`", tn.as_str(), "` is not an aggregate type"]),
                });
            },
        };
        match d {
            TypeData::Array { length, .. } => {
                if elements.len() as u64 != *length {
                    let tn = self.type_desc(ty);
                    let need = dec_string(*length as u128);
                    let found = dec_string(elements.len() as u128);
                    return Err(BuildError::InvalidConstant {
                        reason: concat_strs(&["array constant of `", tn.as_str(), "` needs ", need.as_str(), " element(s), found ", found.as_str()]),
                    });
                }
            },
            TypeData::Struct { fields } => {
                if fields.len() != elements.len() {
                    let tn = self.type_desc(ty);
                    let need = dec_string(fields.len() as u128);
                    let found = dec_string(elements.len() as u128);
                    return Err(BuildError::InvalidConstant {
                        reason: concat_strs(&["struct constant of `", tn.as_str(), "` needs ", need.as_str(), " field(s), found ", found.as_str()]),
                    });
                }
            },
            _ => {
                let tn = self.type_desc(ty);
                return Err(BuildError::InvalidConstant {
                    reason: concat_strs(&["`", tn.as_str(), "` is not an aggregate type"]),
                });
            },
        }
        let ghost m = self.spec_module();
        let mut i: usize = 0;
        while i < elements.len()
            invariant
                self.wf(),
                m == self.spec_module(),
                (ty.0 as int) < m.types.types@.len(),
                *d == m.types.types@[ty.0 as int],
                spec_is_aggregate(*d),
                elements@.len() == aggregate_arity(*d),
                i <= elements@.len(),
                forall|j: int| 0 <= j < i ==> {
                    &&& (#[trigger] elements@[j].0 as int) < m.constants.constants@.len()
                    &&& spec_constant_fits(m.types.types@, m.constants.constants@[elements@[j].0 as int], aggregate_field(*d, j))
                },
            decreases elements@.len() - i,
        {
            let cid = elements[i];
            let field = match d {
                TypeData::Array { element, .. } => *element,
                TypeData::Struct { fields } => fields[i],
                _ => TypeId(0),
            };
            let data = match self.module.constants.get(cid) {
                Some(c) => c,
                None => {
                    let idx = dec_string(i as u128);
                    let c = dec_string(cid.0 as u128);
                    return Err(BuildError::InvalidConstant {
                        reason: concat_strs(&["element ", idx.as_str(), " references unknown constant c", c.as_str()]),
                    });
                },
            };
            if !constant_fits_type(&self.module.types, data, field) {
                let idx = dec_string(i as u128);
                let tn = self.type_desc(field);
                return Err(BuildError::InvalidConstant {
                    reason: concat_strs(&["element ", idx.as_str(), " does not match field type `", tn.as_str(), "`"]),
                });
            }
            i = i + 1;
        }
        Ok(())
    }

    /// `const`: materializes an aggregate constant from pool elements.
    pub fn const_aggregate(&mut self, ty: TypeId, elements: &[ConstantId]) -> (r: Result<ValueId, BuildError>)
        requires
            old(self).wf(),
        ensures
            !aggregate_constant_ok(old(self).spec_module(), ty, elements@) ==> (r matches Err(BuildError::InvalidConstant { .. }))
                && Self::unchanged(*old(self), *final(self)),
            aggregate_constant_ok(old(self).spec_module(), ty, elements@) ==> exists|data: ConstantData| #[trigger] Self::const_outcome(*old(self), *final(self), data, None, ty, r)
                && (data matches ConstantData::Aggregate { ty: t, elements: e } && t == ty && e@ == elements@),
    {
        self.check_aggregate_constant(ty, elements)?;
        let data = ConstantData::Aggregate { ty, elements: vstd::slice::slice_to_vec(elements) };
        let ghost d = data;
        let r = self.emit_constant(data, ty);
        proof {
            assert(Self::const_outcome(*old(self), *self, d, None, ty, r));
        }
        r
    }

    /// Allocates a stack slot; yields `ptr<pointee>`.
    pub fn alloca(&mut self, pointee: TypeId) -> (r: Result<ValueId, BuildError>)
        requires
            old(self).wf(),
        ensures
            old(self).type_is(pointee, |d: TypeData| spec_is_first_class(d)) ==> Self::ptr_emit_outcome(
                *old(self),
                *final(self),
                pointee,
                InstructionKind::Alloca { pointee },
                r,
            ),
            !old(self).type_is(pointee, |d: TypeData| spec_is_first_class(d)) ==> (r matches Err(BuildError::InvalidOperand { context, .. })
                && context == "alloca") && Self::unchanged(*old(self), *final(self)),
    {
        if !self.first_class(pointee) {
            let tn = self.type_desc(pointee);
            return Err(BuildError::InvalidOperand {
                context: "alloca",
                reason: concat_strs(&["`", tn.as_str(), "` is not a valid pointee type"]),
            });
        }
        let ptr = self.module.types.ptr(pointee);
        proof {
            assert(interned(old(self).spec_module().types.types@, TypeData::Pointer { pointee, address_space: 0 }, self.spec_module().types.types@, ptr));
        }
        match self.append(InstructionKind::Alloca { pointee }, Some(ptr)) {
            Ok(Some(v)) => Ok(v),
            Ok(None) => Err(BuildError::InvalidOperand {
                context: "alloca",
                reason: concat_strs(&["expected an instruction result"]),
            }),
            Err(e) => Err(e),
        }
    }

    /// Emits `kind` with result type `ty` after all checks passed.
    fn emit_value(&mut self, kind: InstructionKind, ty: TypeId, context: &'static str) -> (r: Result<ValueId, BuildError>)
        requires
            old(self).wf(),
        ensures
            Self::emit_outcome(*old(self), *final(self), kind, ty, r),
    {
        match self.append(kind, Some(ty)) {
            Ok(Some(v)) => Ok(v),
            Ok(None) => Err(BuildError::InvalidOperand {
                context,
                reason: concat_strs(&["expected an instruction result"]),
            }),
            Err(e) => Err(e),
        }
    }

    /// The pointee type of the pointer value `pointer`.
    fn pointee_of(&self, pointer: ValueId) -> (r: Result<TypeId, BuildError>)
        requires
            self.wf(),
        ensures
            match self.value_type(pointer) {
                None => r matches Err(BuildError::UnknownValue { value, .. }) && value == pointer,
                Some(pt) => match self.pointee_type(pt) {
                    None => r matches Err(BuildError::InvalidOperand { .. }),
                    Some(p) => r == Ok::<TypeId, BuildError>(p),
                },
            },
    {
        let ty = self.operand_type(pointer)?;
        match self.module.types.get(ty) {
            Some(TypeData::Pointer { pointee, .. }) => Ok(*pointee),
            _ => {
                let p = pointer.to_string();
                let tn = self.type_desc(ty);
                Err(BuildError::InvalidOperand {
                    context: "load/store",
                    reason: concat_strs(&["operand `", p.as_str(), "` must be a pointer, found `", tn.as_str(), "`"]),
                })
            },
        }
    }

    /// Loads a value from `pointer`; the result type is the pointee type.
    pub fn load(&mut self, pointer: ValueId) -> (r: Result<ValueId, BuildError>)
        requires
            old(self).wf(),
        ensures
            match old(self).value_type(pointer) {
                None => Self::rejects_unknown(*old(self), *final(self), pointer, r),
                Some(pt) => match old(self).pointee_type(pt) {
                    None => Self::rejects_operand(*old(self), *final(self), r),
                    Some(p) => if old(self).type_is(p, |d: TypeData| spec_is_first_class(d)) {
                        Self::emit_outcome(*old(self), *final(self), (InstructionKind::Load { ty: p, pointer }), p, r)
                    } else {
                        Self::rejects_operand(*old(self), *final(self), r)
                    },
                },
            },
    {
        let ty = self.pointee_of(pointer)?;
        if !self.first_class(ty) {
            return Err(BuildError::InvalidOperand {
                context: "load",
                reason: concat_strs(&["cannot load a non-first-class pointee"]),
            });
        }
        self.emit_value(InstructionKind::Load { ty, pointer }, ty, "load")
    }

    /// Stores `value` into `pointer`.
    pub fn store(&mut self, pointer: ValueId, value: ValueId) -> (r: Result<(), BuildError>)
        requires
            old(self).wf(),
        ensures
            match old(self).value_type(pointer) {
                None => r matches Err(BuildError::UnknownValue { value: v, .. }) && v == pointer,
                Some(pt) => match old(self).pointee_type(pt) {
                    None => r matches Err(BuildError::InvalidOperand { .. }),
                    Some(p) => match old(self).value_type(value) {
                        None => r matches Err(BuildError::UnknownValue { value: v, .. }) && v == value,
                        Some(vt) => if vt != p {
                            r matches Err(BuildError::TypeMismatch { .. })
                        } else {
                            Self::emit_unit_outcome(*old(self), *final(self), (InstructionKind::Store { pointer, value }), r)
                        },
                    },
                },
            },
            r is Err ==> Self::unchanged(*old(self), *final(self)),
    {
        let pointee = self.pointee_of(pointer)?;
        let vty = self.operand_type(value)?;
        if pointee.0 != vty.0 {
            return Err(BuildError::TypeMismatch {
                context: concat_strs(&["store"]),
                expected: self.type_desc(pointee),
                found: self.type_desc(vty),
            });
        }
        match self.append(InstructionKind::Store { pointer, value }, None) {
            Ok(_) => Ok(()),
            Err(e) => Err(e),
        }
    }

    /// Element-wise pointer offset; `offset` is a signed integer count of
    /// pointee-sized elements.
    pub fn ptr_offset(&mut self, pointer: ValueId, offset: ValueId) -> (r: Result<ValueId, BuildError>)
        requires
            old(self).wf(),
        ensures
            match old(self).value_type(pointer) {
                None => Self::rejects_unknown(*old(self), *final(self), pointer, r),
                Some(pt) => if old(self).pointee_type(pt) is None {
                    Self::rejects_operand(*old(self), *final(self), r)
                } else {
                    match old(self).value_type(offset) {
                        None => Self::rejects_unknown(*old(self), *final(self), offset, r),
                        Some(ot) => if old(self).type_is(ot, |d: TypeData| spec_is_arith_integer(d)) {
                            Self::emit_outcome(*old(self), *final(self), (InstructionKind::PtrOffset { pointer, offset }), pt, r)
                        } else {
                            Self::rejects_operand(*old(self), *final(self), r)
                        },
                    }
                },
            },
    {
        let pty = self.operand_type(pointer)?;
        let is_ptr = match self.module.types.get(pty) {
            Some(TypeData::Pointer { .. }) => true,
            _ => false,
        };
        if !is_ptr {
            let tn = self.type_desc(pty);
            return Err(BuildError::InvalidOperand {
                context: "ptr_offset",
                reason: concat_strs(&["base must be a pointer, found `", tn.as_str(), "`"]),
            });
        }
        let oty = self.operand_type(offset)?;
        let ok = match self.module.types.get(oty) {
            Some(d) => d.is_arith_integer(),
            None => false,
        };
        if !ok {
            let tn = self.type_desc(oty);
            return Err(BuildError::InvalidOperand {
                context: "ptr_offset",
                reason: concat_strs(&["offset must be an integer, found `", tn.as_str(), "`"]),
            });
        }
        self.emit_value(InstructionKind::PtrOffset { pointer, offset }, pty, "ptr_offset")
    }

    /// Shared implementation of the value conversions.
    fn conv(&mut self, op: ConvOp, to: TypeId, value: ValueId) -> (r: Result<ValueId, BuildError>)
        requires
            old(self).wf(),
        ensures
            Self::conv_outcome(
                *old(self),
                *final(self),
                to,
                value,
                conv_kind(op, to, value),
                |d: TypeData| conv_to_ok(op, d),
                |d: TypeData| conv_from_ok(op, d),
                conv_widen(op),
                r,
            ),
    {
        let name = match op {
            ConvOp::Ext => "ext",
            ConvOp::Trunc => "trunc",
            ConvOp::IntToFloat => "int_to_float",
            ConvOp::FloatToInt => "float_to_int",
        };
        let from = self.operand_type(value)?;
        let (to_ok, to_bits) = match self.module.types.get(to) {
            Some(d) => (match op {
                ConvOp::Ext => d.is_arith_integer(),
                ConvOp::Trunc => d.is_integer(),
                ConvOp::IntToFloat => d.is_float(),
                ConvOp::FloatToInt => d.is_arith_integer(),
            }, match d {
                TypeData::Int { bits, .. } => *bits,
                _ => 0,
            }),
            None => (false, 0),
        };
        let (from_ok, from_bits) = match self.module.types.get(from) {
            Some(d) => (match op {
                ConvOp::Ext => d.is_integer(),
                ConvOp::Trunc => d.is_integer(),
                ConvOp::IntToFloat => d.is_arith_integer(),
                ConvOp::FloatToInt => d.is_float(),
            }, match d {
                TypeData::Int { bits, .. } => *bits,
                _ => 0,
            }),
            None => (false, 0),
        };
        if !to_ok || !from_ok {
            let fname = self.type_desc(from);
            let tname = self.type_desc(to);
            return Err(BuildError::InvalidOperand {
                context: name,
                reason: concat_strs(&["cannot convert `", fname.as_str(), "` to `", tname.as_str(), "` with ", name]),
            });
        }
        match op {
            ConvOp::Ext => {
                if to_bits <= from_bits {
                    let fname = self.type_desc(from);
                    let tname = self.type_desc(to);
                    return Err(BuildError::InvalidOperand {
                        context: name,
                        reason: concat_strs(&[name, " must widen: `", fname.as_str(), "` -> `", tname.as_str(), "`"]),
                    });
                }
            },
            ConvOp::Trunc => {
                if to_bits >= from_bits {
                    let fname = self.type_desc(from);
                    let tname = self.type_desc(to);
                    return Err(BuildError::InvalidOperand {
                        context: name,
                        reason: concat_strs(&[name, " must narrow: `", fname.as_str(), "` -> `", tname.as_str(), "`"]),
                    });
                }
            },
            _ => {},
        }
        let kind = match op {
            ConvOp::Ext => InstructionKind::Ext { to, value },
            ConvOp::Trunc => InstructionKind::Trunc { to, value },
            ConvOp::IntToFloat => InstructionKind::IntToFloat { to, value },
            ConvOp::FloatToInt => InstructionKind::FloatToInt { to, value },
        };
        self.emit_value(kind, to, name)
    }

    /// Integer extend (sign- or zero-extend by source signedness).
    pub fn ext(&mut self, to: TypeId, value: ValueId) -> (r: Result<ValueId, BuildError>)
        requires
            old(self).wf(),
        ensures
            Self::conv_outcome(*old(self), *final(self), to, value, (InstructionKind::Ext { to, value }),
                |d: TypeData| spec_is_arith_integer(d), |d: TypeData| spec_is_integer(d), Some(true), r),
    {
        let r = self.conv(ConvOp::Ext, to, value);
        proof {
            assert((|d: TypeData| conv_to_ok(ConvOp::Ext, d)) =~= (|d: TypeData| spec_is_arith_integer(d)));
            assert((|d: TypeData| conv_from_ok(ConvOp::Ext, d)) =~= (|d: TypeData| spec_is_integer(d)));
        }
        r
    }

    /// Integer truncate.
    pub fn trunc(&mut self, to: TypeId, value: ValueId) -> (r: Result<ValueId, BuildError>)
        requires
            old(self).wf(),
        ensures
            Self::conv_outcome(*old(self), *final(self), to, value, (InstructionKind::Trunc { to, value }),
                |d: TypeData| spec_is_integer(d), |d: TypeData| spec_is_integer(d), Some(false), r),
    {
        let r = self.conv(ConvOp::Trunc, to, value);
        proof {
            assert((|d: TypeData| conv_to_ok(ConvOp::Trunc, d)) =~= (|d: TypeData| spec_is_integer(d)));
            assert((|d: TypeData| conv_from_ok(ConvOp::Trunc, d)) =~= (|d: TypeData| spec_is_integer(d)));
        }
        r
    }

    /// Integer to float.
    pub fn int_to_float(&mut self, to: TypeId, value: ValueId) -> (r: Result<ValueId, BuildError>)
        requires
            old(self).wf(),
        ensures
            Self::conv_outcome(*old(self), *final(self), to, value, (InstructionKind::IntToFloat { to, value }),
                |d: TypeData| spec_is_float(d), |d: TypeData| spec_is_arith_integer(d), None, r),
    {
        let r = self.conv(ConvOp::IntToFloat, to, value);
        proof {
            assert((|d: TypeData| conv_to_ok(ConvOp::IntToFloat, d)) =~= (|d: TypeData| spec_is_float(d)));
            assert((|d: TypeData| conv_from_ok(ConvOp::IntToFloat, d)) =~= (|d: TypeData| spec_is_arith_integer(d)));
        }
        r
    }

    /// Float to integer (truncating, saturating).
    pub fn float_to_int(&mut self, to: TypeId, value: ValueId) -> (r: Result<ValueId, BuildError>)
        requires
            old(self).wf(),
        ensures
            Self::conv_outcome(*old(self), *final(self), to, value, (InstructionKind::FloatToInt { to, value }),
                |d: TypeData| spec_is_arith_integer(d), |d: TypeData| spec_is_float(d), None, r),
    {
        let r = self.conv(ConvOp::FloatToInt, to, value);
        proof {
            assert((|d: TypeData| conv_to_ok(ConvOp::FloatToInt, d)) =~= (|d: TypeData| spec_is_arith_integer(d)));
            assert((|d: TypeData| conv_from_ok(ConvOp::FloatToInt, d)) =~= (|d: TypeData| spec_is_float(d)));
        }
        r
    }

    /// Pointer to pointer cast.
    pub fn ptr_cast(&mut self, to: TypeId, pointer: ValueId) -> (r: Result<ValueId, BuildError>)
        requires
            old(self).wf(),
        ensures
            match old(self).value_type(pointer) {
                None => Self::rejects_unknown(*old(self), *final(self), pointer, r),
                Some(from) => if old(self).pointee_type(to) is Some && old(self).pointee_type(from) is Some {
                    Self::emit_outcome(*old(self), *final(self), (InstructionKind::PtrCast { to, pointer }), to, r)
                } else {
                    Self::rejects_operand(*old(self), *final(self), r)
                },
            },
    {
        let from = self.operand_type(pointer)?;
        let to_ptr = match self.module.types.get(to) {
            Some(TypeData::Pointer { .. }) => true,
            _ => false,
        };
        let from_ptr = match self.module.types.get(from) {
            Some(TypeData::Pointer { .. }) => true,
            _ => false,
        };
        if !(to_ptr && from_ptr) {
            let fname = self.type_desc(from);
            let tname = self.type_desc(to);
            return Err(BuildError::InvalidOperand {
                context: "ptr_cast",
                reason: concat_strs(&["ptr_cast requires pointer types, found `", fname.as_str(), "` -> `", tname.as_str(), "`"]),
            });
        }
        self.emit_value(InstructionKind::PtrCast { to, pointer }, to, "ptr_cast")
    }

    /// Direct call. Returns `Some(value)` unless the callee returns `void`.
    pub fn call(&mut self, callee: FunctionId, args: &[ValueId]) -> (r: Result<Option<ValueId>, BuildError>)
        requires
            old(self).wf(),
        ensures
            Self::call_outcome(*old(self), *final(self), callee, args@, r),
    {
        let ci = callee.index();
        if ci >= self.module.functions.len() {
            return Err(BuildError::UnknownFunction { function: callee });
        }
        let callee_name = self.module.function_name(callee).to_owned();
        let fixed = self.module.functions[ci].params.len();
        let variadic = self.module.functions[ci].variadic;
        let result = self.module.functions[ci].result;
        let ghost f = self.spec_module().functions@[ci as int];
        if variadic {
            if args.len() < fixed {
                let need = dec_string(fixed as u128);
                let found = dec_string(args.len() as u128);
                return Err(BuildError::InvalidOperand {
                    context: "call",
                    reason: concat_strs(&["`", callee_name.as_str(), "` expects at least ", need.as_str(), " argument(s), found ", found.as_str()]),
                });
            }
        } else if args.len() != fixed {
            let need = dec_string(fixed as u128);
            let found = dec_string(args.len() as u128);
            return Err(BuildError::InvalidOperand {
                context: "call",
                reason: concat_strs(&["`", callee_name.as_str(), "` expects ", need.as_str(), " argument(s), found ", found.as_str()]),
            });
        }
        let mut i: usize = 0;
        while i < args.len()
            invariant
                self.wf(),
                *self == *old(self),
                ci < self.spec_module().functions@.len(),
                ci == callee.0,
                f == self.spec_module().functions@[ci as int],
                fixed == f.params@.len(),
                Self::call_arity_ok(f, args@.len() as int),
                i <= args@.len(),
                forall|k: int| 0 <= k < i ==> self.call_arg_ok(f, args@, k),
            decreases args@.len() - i,
        {
            let arg = args[i];
            let actual = match self.operand_type(arg) {
                Ok(t) => t,
                Err(e) => {
                    proof {
                        self.lemma_first_bad_arg_unique(f, args@, i as int);
                    }
                    return Err(e);
                },
            };
            if i < fixed {
                let expected = self.module.functions[ci].params[i].ty;
                if actual.0 != expected.0 {
                    let idx = dec_string(i as u128);
                    proof {
                        self.lemma_first_bad_arg_unique(f, args@, i as int);
                    }
                    return Err(BuildError::TypeMismatch {
                        context: concat_strs(&["call to `", callee_name.as_str(), "` argument ", idx.as_str()]),
                        expected: self.type_desc(expected),
                        found: self.type_desc(actual),
                    });
                }
            } else if !self.first_class(actual) {
                let idx = dec_string(i as u128);
                let tn = self.type_desc(actual);
                proof {
                    self.lemma_first_bad_arg_unique(f, args@, i as int);
                }
                return Err(BuildError::InvalidOperand {
                    context: "call",
                    reason: concat_strs(&["`", callee_name.as_str(), "` variadic argument ", idx.as_str(), " must be first-class, found `", tn.as_str(), "`"]),
                });
            }
            i = i + 1;
        }
        let returns_value = match self.module.types.get(result) {
            Some(d) => !d.is_void(),
            None => false,
        };
        let result_ty = if returns_value { Some(result) } else { None };
        let kind = InstructionKind::Call { callee, args: vstd::slice::slice_to_vec(args) };
        self.append(kind, result_ty)
    }

    /// Constructs an aggregate value of type `ty` from `fields`.
    pub fn construct(&mut self, ty: TypeId, fields: &[ValueId]) -> (r: Result<ValueId, BuildError>)
        requires
            old(self).wf(),
        ensures
            Self::construct_outcome(*old(self), *final(self), ty, fields@, r),
    {
        let (arity, is_array, element) = match self.module.types.get(ty) {
            Some(TypeData::Array { element, length }) => (*length, true, *element),
            Some(TypeData::Struct { fields: fs }) => (fs.len() as u64, false, TypeId(0)),
            _ => {
                let tn = self.type_desc(ty);
                return Err(BuildError::InvalidOperand {
                    context: "aggregate operation",
                    reason: concat_strs(&["`", tn.as_str(), "` is not an aggregate type"]),
                });
            },
        };
        let ghost d = self.type_data(ty).unwrap();
        if fields.len() as u64 != arity {
            let tn = self.type_desc(ty);
            let need = dec_string(arity as u128);
            let found = dec_string(fields.len() as u128);
            return Err(BuildError::InvalidOperand {
                context: "construct",
                reason: concat_strs(&["`", tn.as_str(), "` needs ", need.as_str(), " field(s), found ", found.as_str()]),
            });
        }
        let mut i: usize = 0;
        while i < fields.len()
            invariant
                self.wf(),
                *self == *old(self),
                self.type_data(ty) == Some(d),
                spec_is_aggregate(d),
                is_array == (d is Array),
                is_array ==> element == aggregate_field(d, 0),
                fields@.len() == aggregate_arity(d),
                i <= fields@.len(),
                forall|k: int| 0 <= k < i ==> self.field_ok(d, fields@, k),
            decreases fields@.len() - i,
        {
            let expected = if is_array {
                element
            } else {
                match self.module.types.get(ty) {
                    Some(TypeData::Struct { fields: fs }) => fs[i],
                    _ => TypeId(0),
                }
            };
            let actual = match self.operand_type(fields[i]) {
                Ok(t) => t,
                Err(e) => {
                    proof {
                        self.lemma_first_bad_field_unique(d, fields@, i as int);
                    }
                    return Err(e);
                },
            };
            if actual.0 != expected.0 {
                proof {
                    self.lemma_first_bad_field_unique(d, fields@, i as int);
                }
                let idx = dec_string(i as u128);
                return Err(BuildError::TypeMismatch {
                    context: concat_strs(&["construct field ", idx.as_str()]),
                    expected: self.type_desc(expected),
                    found: self.type_desc(actual),
                });
            }
            i = i + 1;
        }
        let kind = InstructionKind::Construct { ty, fields: vstd::slice::slice_to_vec(fields) };
        self.emit_value(kind, ty, "construct")
    }

    /// Number of fields and type of field `index` of aggregate type `ty`.
    fn aggregate_field_type(&self, ty: TypeId, index: u32) -> (r: Option<(u64, TypeId)>)
        ensures
            !self.type_is(ty, |d: TypeData| spec_is_aggregate(d)) ==> r is None,
            self.type_is(ty, |d: TypeData| spec_is_aggregate(d)) ==> (r matches Some((n, t)) && n == aggregate_arity(self.type_data(ty).unwrap())
                && (index < n ==> t == aggregate_field(self.type_data(ty).unwrap(), index as int))),
    {
        match self.module.types.get(ty) {
            Some(TypeData::Array { element, length }) => Some((*length, *element)),
            Some(TypeData::Struct { fields }) => {
                if (index as usize) < fields.len() {
                    Some((fields.len() as u64, fields[index as usize]))
                } else {
                    Some((fields.len() as u64, TypeId(0)))
                }
            },
            _ => None,
        }
    }

    /// Reads field `index` of an aggregate.
    pub fn extract(&mut self, aggregate: ValueId, index: u32) -> (r: Result<ValueId, BuildError>)
        requires
            old(self).wf(),
        ensures
            match old(self).value_type(aggregate) {
                None => Self::rejects_unknown(*old(self), *final(self), aggregate, r),
                Some(at) => if !old(self).type_is(at, |d: TypeData| spec_is_aggregate(d))
                    || index >= aggregate_arity(old(self).type_data(at).unwrap()) {
                    Self::rejects_operand(*old(self), *final(self), r)
                } else {
                    Self::emit_outcome(*old(self), *final(self), (InstructionKind::Extract { aggregate, index }),
                        aggregate_field(old(self).type_data(at).unwrap(), index as int), r)
                },
            },
    {
        let aty = self.operand_type(aggregate)?;
        let (n, field) = match self.aggregate_field_type(aty, index) {
            Some(x) => x,
            None => {
                let tn = self.type_desc(aty);
                return Err(BuildError::InvalidOperand {
                    context: "aggregate operation",
                    reason: concat_strs(&["`", tn.as_str(), "` is not an aggregate type"]),
                });
            },
        };
        if index as u64 >= n {
            let idx = dec_string(index as u128);
            let tn = self.type_desc(aty);
            return Err(BuildError::InvalidOperand {
                context: "extract",
                reason: concat_strs(&["index ", idx.as_str(), " out of range for `", tn.as_str(), "`"]),
            });
        }
        self.emit_value(InstructionKind::Extract { aggregate, index }, field, "extract")
    }

    /// Replaces field `index` of an aggregate, producing a new value.
    pub fn insert(&mut self, aggregate: ValueId, index: u32, value: ValueId) -> (r: Result<ValueId, BuildError>)
        requires
            old(self).wf(),
        ensures
            match old(self).value_type(aggregate) {
                None => Self::rejects_unknown(*old(self), *final(self), aggregate, r),
                Some(at) => if !old(self).type_is(at, |d: TypeData| spec_is_aggregate(d))
                    || index >= aggregate_arity(old(self).type_data(at).unwrap()) {
                    Self::rejects_operand(*old(self), *final(self), r)
                } else {
                    match old(self).value_type(value) {
                        None => Self::rejects_unknown(*old(self), *final(self), value, r),
                        Some(vt) => if vt != aggregate_field(old(self).type_data(at).unwrap(), index as int) {
                            (r matches Err(BuildError::TypeMismatch { .. })) && Self::unchanged(*old(self), *final(self))
                        } else {
                            Self::emit_outcome(*old(self), *final(self), (InstructionKind::Insert { aggregate, index, value }), at, r)
                        },
                    }
                },
            },
    {
        let aty = self.operand_type(aggregate)?;
        let (n, field) = match self.aggregate_field_type(aty, index) {
            Some(x) => x,
            None => {
                let tn = self.type_desc(aty);
                return Err(BuildError::InvalidOperand {
                    context: "aggregate operation",
                    reason: concat_strs(&["`", tn.as_str(), "` is not an aggregate type"]),
                });
            },
        };
        if index as u64 >= n {
            let idx = dec_string(index as u128);
            let tn = self.type_desc(aty);
            return Err(BuildError::InvalidOperand {
                context: "insert",
                reason: concat_strs(&["index ", idx.as_str(), " out of range for `", tn.as_str(), "`"]),
            });
        }
        let vty = self.operand_type(value)?;
        if vty.0 != field.0 {
            let idx = dec_string(index as u128);
            return Err(BuildError::TypeMismatch {
                context: concat_strs(&["insert field ", idx.as_str()]),
                expected: self.type_desc(field),
                found: self.type_desc(vty),
            });
        }
        self.emit_value(InstructionKind::Insert { aggregate, index, value }, aty, "insert")
    }

    /// Sets `term` as the terminator of the current block. The cursor stays
    /// on the terminated block, so that later appends report the block as
    /// terminated; `append_block` and `switch_to` move on.
    fn set_terminator(&mut self, term: Terminator) -> (r: Result<(), BuildError>)
        requires
            old(self).wf(),
        ensures
            Self::terminate_outcome(*old(self), *final(self), |t: Terminator| t == term, r),
    {
        let block = match self.current {
            Some(b) => b,
            None => { return Err(BuildError::NoCurrentBlock { action: "emit" }); },
        };
        let fi = self.function.index();
        let bi = block.index();
        if self.module.functions[fi].blocks[bi].terminator.is_some() {
            return Err(BuildError::BlockTerminated { block });
        }
        self.module.functions[fi].blocks[bi].terminator = Some(term);
        Ok(())
    }

    /// Label of `block` for messages: its name, or `bb` and its id.
    fn block_label(&self, block: BlockId) -> (r: String)
        requires
            self.wf(),
        ensures
            encode_utf8(r@) == (if (block.0 as int) < self.func().blocks@.len() && self.func().blocks@[block.0 as int].name is Some {
                let sym = self.func().blocks@[block.0 as int].name->0;
                if (sym.0 as int) < self.spec_module().symbols.names@.len() {
                    encode_utf8(self.spec_module().symbols.view_names()[sym.0 as int])
                } else {
                    lit("bb?")
                }
            } else {
                lit("bb") + id_text(seq![98u8, 98u8], block.0)
            }),
    {
        let fi = self.function.index();
        let bi = block.index();
        if bi < self.module.functions[fi].blocks.len() {
            match self.module.functions[fi].blocks[bi].name {
                Some(sym) => match self.module.symbol_name(sym) {
                    Some(n) => n.to_owned(),
                    None => "bb?".to_owned(),
                },
                None => {
                    let b = block.to_string();
                    let r = cat2("bb", b.as_str());
                    proof {
                        lemma_encode_utf8_concat("bb"@, b@);
                    }
                    r
                },
            }
        } else {
            let b = block.to_string();
            let r = cat2("bb", b.as_str());
            proof {
                lemma_encode_utf8_concat("bb"@, b@);
            }
            r
        }
    }

    /// Checks the arguments of a branch to `target`.
    fn check_branch_args(&self, target: BlockId, args: &[ValueId]) -> (r: Result<(), BuildError>)
        requires
            self.wf(),
        ensures
            r is Ok <==> self.branch_args_ok(target, args@),
            r matches Err(e) ==> self.branch_args_error(target, args@, e),
    {
        let fi = self.function.index();
        let ti = target.index();
        if ti >= self.module.functions[fi].blocks.len() {
            return Err(BuildError::UnknownBlock { block: target });
        }
        let ghost b = self.func().blocks@[ti as int];
        let nparams = self.module.functions[fi].blocks[ti].params.len();
        if nparams != args.len() {
            let label = self.block_label(target);
            let need = dec_string(nparams as u128);
            let found = dec_string(args.len() as u128);
            return Err(BuildError::InvalidOperand {
                context: "jump/branch",
                reason: concat_strs(&["block `", label.as_str(), "` expects ", need.as_str(), " argument(s), found ", found.as_str()]),
            });
        }
        let mut i: usize = 0;
        while i < args.len()
            invariant
                self.wf(),
                fi == self.spec_function_id().0,
                ti == target.0,
                (ti as int) < self.func().blocks@.len(),
                b == self.func().blocks@[ti as int],
                b.params@.len() == args@.len(),
                i <= args@.len(),
                forall|k: int| 0 <= k < i ==> self.branch_arg_ok(b, args@, k),
            decreases args@.len() - i,
        {
            let actual = match self.operand_type(args[i]) {
                Ok(t) => t,
                Err(e) => {
                    proof {
                        self.lemma_first_bad_branch_arg_unique(b, args@, i as int);
                    }
                    return Err(e);
                },
            };
            let expected = self.module.functions[fi].blocks[ti].params[i].ty;
            if actual.0 != expected.0 {
                proof {
                    self.lemma_first_bad_branch_arg_unique(b, args@, i as int);
                }
                let idx = dec_string(i as u128);
                let label = self.block_label(target);
                return Err(BuildError::TypeMismatch {
                    context: concat_strs(&["argument ", idx.as_str(), " for block `", label.as_str(), "`"]),
                    expected: self.type_desc(expected),
                    found: self.type_desc(actual),
                });
            }
            i = i + 1;
        }
        Ok(())
    }

    /// Unconditional jump with block arguments.
    pub fn jump(&mut self, target: BlockId, args: &[ValueId]) -> (r: Result<(), BuildError>)
        requires
            old(self).wf(),
        ensures
            old(self).spec_current() is None ==> r == Err::<(), BuildError>(BuildError::NoCurrentBlock { action: "emit" })
                && Self::unchanged(*old(self), *final(self)),
            old(self).spec_current() is Some && !old(self).branch_args_ok(target, args@) ==> (r matches Err(e)
                && old(self).branch_args_error(target, args@, e)) && Self::unchanged(*old(self), *final(self)),
            old(self).spec_current() is Some && old(self).branch_args_ok(target, args@) ==> Self::terminate_outcome(
                *old(self),
                *final(self),
                |t: Terminator| t matches Terminator::Jump { target: tb, args: a } && tb == target && a@ == args@,
                r,
            ),
    {
        if self.current.is_none() {
            return Err(BuildError::NoCurrentBlock { action: "emit" });
        }
        self.check_branch_args(target, args)?;
        self.set_terminator(Terminator::Jump { target, args: vstd::slice::slice_to_vec(args) })
    }

    /// Conditional branch; the condition must be `i1`.
    pub fn branch(
        &mut self,
        condition: ValueId,
        then_block: BlockId,
        then_args: &[ValueId],
        else_block: BlockId,
        else_args: &[ValueId],
    ) -> (r: Result<(), BuildError>)
        requires
            old(self).wf(),
        ensures
            old(self).spec_current() is None ==> r == Err::<(), BuildError>(BuildError::NoCurrentBlock { action: "emit" }),
            old(self).spec_current() is Some ==> match old(self).value_type(condition) {
                None => r matches Err(BuildError::UnknownValue { value, .. }) && value == condition,
                Some(ct) => if ct != TypeId::I1() {
                    r matches Err(BuildError::TypeMismatch { .. })
                } else if !old(self).branch_args_ok(then_block, then_args@) {
                    r matches Err(e) && old(self).branch_args_error(then_block, then_args@, e)
                } else if !old(self).branch_args_ok(else_block, else_args@) {
                    r matches Err(e) && old(self).branch_args_error(else_block, else_args@, e)
                } else {
                    Self::terminate_outcome(
                        *old(self),
                        *final(self),
                        |t: Terminator| t matches Terminator::Branch { condition: c, then_block: tb, then_args: ta, else_block: eb, else_args: ea }
                            && c == condition && tb == then_block && ta@ == then_args@ && eb == else_block && ea@ == else_args@,
                        r,
                    )
                },
            },
            r is Err ==> Self::unchanged(*old(self), *final(self)),
    {
        if self.current.is_none() {
            return Err(BuildError::NoCurrentBlock { action: "emit" });
        }
        let cty = self.operand_type(condition)?;
        if cty.0 != TypeId::I1().0 {
            return Err(BuildError::TypeMismatch {
                context: concat_strs(&["branch condition"]),
                expected: concat_strs(&["i1"]),
                found: self.type_desc(cty),
            });
        }
        self.check_branch_args(then_block, then_args)?;
        self.check_branch_args(else_block, else_args)?;
        let term = Terminator::Branch {
            condition,
            then_block,
            then_args: vstd::slice::slice_to_vec(then_args),
            else_block,
            else_args: vstd::slice::slice_to_vec(else_args),
        };
        self.set_terminator(term)
    }

    /// Returns a value, or nothing (`None`) from a `void` function.
    pub fn ret(&mut self, value: Option<ValueId>) -> (r: Result<(), BuildError>)
        requires
            old(self).wf(),
        ensures
            match value {
                Some(v) => match old(self).value_type(v) {
                    None => r matches Err(BuildError::UnknownValue { value: u, .. }) && u == v,
                    Some(t) => if t != old(self).func().result {
                        r matches Err(BuildError::TypeMismatch { .. })
                    } else {
                        Self::terminate_outcome(*old(self), *final(self), |t: Terminator| t == Terminator::Return { value }, r)
                    },
                },
                None => if !old(self).type_is(old(self).func().result, |d: TypeData| d is Void) {
                    r matches Err(BuildError::TypeMismatch { .. })
                } else {
                    Self::terminate_outcome(*old(self), *final(self), |t: Terminator| t == Terminator::Return { value }, r)
                },
            },
            r is Err ==> Self::unchanged(*old(self), *final(self)),
    {
        let fi = self.function.index();
        let result = self.module.functions[fi].result;
        match value {
            Some(v) => {
                let ty = self.operand_type(v)?;
                if ty.0 != result.0 {
                    return Err(BuildError::TypeMismatch {
                        context: concat_strs(&["return"]),
                        expected: self.type_desc(result),
                        found: self.type_desc(ty),
                    });
                }
            },
            None => {
                let is_void = match self.module.types.get(result) {
                    Some(d) => d.is_void(),
                    None => false,
                };
                if !is_void {
                    return Err(BuildError::TypeMismatch {
                        context: concat_strs(&["return"]),
                        expected: self.type_desc(result),
                        found: concat_strs(&["void"]),
                    });
                }
            },
        }
        self.set_terminator(Terminator::Return { value })
    }

    /// Returns from a `void` function.
    pub fn ret_void(&mut self) -> (r: Result<(), BuildError>)
        requires
            old(self).wf(),
        ensures
            !old(self).type_is(old(self).func().result, |d: TypeData| d is Void) ==> (r matches Err(BuildError::TypeMismatch { .. }))
                && Self::unchanged(*old(self), *final(self)),
            old(self).type_is(old(self).func().result, |d: TypeData| d is Void) ==> Self::terminate_outcome(
                *old(self),
                *final(self),
                |t: Terminator| t == Terminator::Return { value: None },
                r,
            ),
    {
        self.ret(None)
    }

    /// Marks the current block as unreachable.
    pub fn unreachable(&mut self) -> (r: Result<(), BuildError>)
        requires
            old(self).wf(),
        ensures
            Self::terminate_outcome(*old(self), *final(self), |t: Terminator| t == Terminator::Unreachable, r),
    {
        self.set_terminator(Terminator::Unreachable)
    }

    fn check_block_name(&self, name: &str) -> (r: Result<(), BuildError>)
        ensures
            r is Ok <==> spec_is_ident(name.spec_bytes()) && !spec_is_reserved_block_name(name.spec_bytes()),
            r matches Err(e) ==> e is InvalidName,
    {
        if !is_valid_ident(name) {
            return Err(BuildError::InvalidName {
                name: name.to_owned(),
                reason: "block names must be identifiers",
            });
        }
        if is_reserved_block_name(name) {
            return Err(BuildError::InvalidName {
                name: name.to_owned(),
                reason: "names of the form `bb<digits>` are reserved for anonymous blocks",
            });
        }
        Ok(())
    }

    fn check_value_name(&self, name: &str) -> (r: Result<(), BuildError>)
        ensures
            r is Ok <==> spec_is_ident(name.spec_bytes()),
            r matches Err(e) ==> e is InvalidName,
    {
        if !is_valid_ident(name) {
            return Err(BuildError::InvalidName {
                name: name.to_owned(),
                reason: "value names must be identifiers",
            });
        }
        Ok(())
    }

    /// Appends a new named block and switches to it.
    pub fn append_named_block(&mut self, name: &str) -> (r: Result<BlockId, BuildError>)
        requires
            old(self).wf(),
        ensures
            !(spec_is_ident(name.spec_bytes()) && !spec_is_reserved_block_name(name.spec_bytes())) ==> (r matches Err(BuildError::InvalidName { .. }))
                && Self::unchanged(*old(self), *final(self)),
            spec_is_ident(name.spec_bytes()) && !spec_is_reserved_block_name(name.spec_bytes()) ==> (r matches Ok(id) && {
                &&& Self::kept(*old(self), *final(self))
                &&& id.0 == old(self).func().blocks@.len() as u32
                &&& final(self).spec_current() == Some(id)
                &&& final(self).func().values == old(self).func().values
                &&& final(self).func().blocks@.len() == old(self).func().blocks@.len() + 1
                &&& final(self).func().blocks@.drop_last() == old(self).func().blocks@
                &&& final(self).func().blocks@.last().params@.len() == 0
                &&& final(self).func().blocks@.last().instructions@.len() == 0
                &&& final(self).func().blocks@.last().terminator is None
                &&& final(self).spec_module().types == old(self).spec_module().types
                &&& final(self).spec_module().constants == old(self).spec_module().constants
                &&& final(self).func().blocks@.last().name matches Some(sym) && symbol_interned(
                    old(self).spec_module().symbols.view_names(),
                    name@,
                    final(self).spec_module().symbols.view_names(),
                    sym,
                )
            }),
    {
        self.check_block_name(name)?;
        let id = self.append_block();
        let sym = self.module.symbols.intern(name);
        let fi = self.function.index();
        let bi = self.module.functions[fi].blocks.len() - 1;
        self.module.functions[fi].blocks[bi].name = Some(sym);
        proof {
            assert(self.func().blocks@.drop_last() =~= old(self).func().blocks@);
        }
        Ok(id)
    }

    /// Appends a block with parameters (block arguments) and switches to
    /// it. The entry block cannot take parameters; on an error the new
    /// block stays, with the parameters added before the failing one.
    pub fn append_block_with_params(&mut self, params: &[(&str, TypeId)]) -> (r: Result<BlockId, BuildError>)
        requires
            old(self).wf(),
        ensures
            final(self).wf(),
            final(self).spec_function_id() == old(self).spec_function_id(),
            old(self).func().blocks@.len() < u32::MAX ==> {
                &&& final(self).spec_current() == Some(BlockId(old(self).func().blocks@.len() as u32))
                &&& final(self).func().blocks@.len() == old(self).func().blocks@.len() + 1
                &&& final(self).func().blocks@.drop_last() == old(self).func().blocks@
                &&& (r is Ok <==> (params@.len() == 0 || (old(self).func().blocks@.len() > 0
                    && forall|i: int| 0 <= i < params@.len() ==> (params@[i].0.spec_bytes().len() == 0 || spec_is_ident(params@[i].0.spec_bytes()))
                    && old(self).type_is(params@[i].1, |d: TypeData| spec_is_first_class(d)))))
                &&& r matches Ok(id) ==> {
                    &&& id.0 == old(self).func().blocks@.len()
                    &&& final(self).func().blocks@.last().params@.len() == params@.len()
                    &&& forall|i: int| 0 <= i < params@.len() ==> #[trigger] final(self).func().blocks@.last().params@[i].ty == params@[i].1
                    &&& final(self).func().values@.len() == old(self).func().values@.len() + params@.len()
                    &&& forall|i: int| 0 <= i < params@.len() ==> (#[trigger] final(self).func().blocks@.last().params@[i]).value
                        == ValueId((old(self).func().values@.len() + i) as u32)
                    &&& forall|i: int| 0 <= i < params@.len() ==> (#[trigger] final(self).func().values@[old(self).func().values@.len() + i]).kind
                        == (ValueKind::BlockParam { block: id, index: i as u32 })
                }
                &&& old(self).func().blocks@.len() == 0 && params@.len() > 0 && (params@[0].0.spec_bytes().len() == 0 || spec_is_ident(
                    params@[0].0.spec_bytes(),
                )) ==> (r matches Err(BuildError::BlockNotEmpty { block: b, .. }) && b == BlockId(0))
            },
    {
        let id = self.append_block();
        let ghost exact = old(self).func().blocks@.len() < u32::MAX;
        let mut i: usize = 0;
        while i < params.len()
            invariant
                self.wf(),
                self.spec_function_id() == old(self).spec_function_id(),
                i <= params@.len(),
                exact == (old(self).func().blocks@.len() < u32::MAX),
                exact ==> {
                    &&& self.spec_current() == Some(id)
                    &&& id.0 == old(self).func().blocks@.len()
                    &&& self.func().blocks@.len() == old(self).func().blocks@.len() + 1
                    &&& self.func().blocks@.drop_last() == old(self).func().blocks@
                    &&& self.spec_module().types == old(self).spec_module().types
                    &&& self.func().blocks@.last().params@.len() == i
                    &&& self.func().blocks@.last().instructions@.len() == 0
                    &&& self.func().blocks@.last().terminator is None
                    &&& i > 0 ==> old(self).func().blocks@.len() > 0
                    &&& forall|k: int| 0 <= k < i ==> (params@[k].0.spec_bytes().len() == 0 || spec_is_ident(params@[k].0.spec_bytes()))
                        && old(self).type_is(params@[k].1, |d: TypeData| spec_is_first_class(d))
                    &&& forall|k: int| 0 <= k < i ==> #[trigger] self.func().blocks@.last().params@[k].ty == params@[k].1
                    &&& self.func().values@.len() == old(self).func().values@.len() + i
                    &&& forall|k: int| 0 <= k < i ==> (#[trigger] self.func().blocks@.last().params@[k]).value
                        == ValueId((old(self).func().values@.len() + k) as u32)
                    &&& forall|k: int| 0 <= k < i ==> (#[trigger] self.func().values@[old(self).func().values@.len() + k]).kind
                        == (ValueKind::BlockParam { block: id, index: k as u32 })
                },
            decreases params@.len() - i,
        {
            let (name, ty) = params[i];
            let ghost before = *self;
            match self.add_block_param_named(id, name, ty) {
                Ok(_) => {},
                Err(e) => {
                    proof {
                        if exact {
                            assert(!before.block_param_ok(id, name.spec_bytes(), ty));
                            assert(self.func().blocks@.drop_last() =~= old(self).func().blocks@);
                        }
                    }
                    return Err(e);
                },
            }
            proof {
                if exact {
                    assert(self.func().blocks@.drop_last() =~= old(self).func().blocks@);
                    let n0 = old(self).func().values@.len();
                    let b = id.0 as int;
                    assert(b == self.func().blocks@.len() - 1);
                    assert(self.func().blocks@.last() == self.func().blocks@[b]);
                    assert(before.func().blocks@.last() == before.func().blocks@[b]);
                    assert forall|k: int| 0 <= k < i + 1 implies (#[trigger] self.func().blocks@.last().params@[k]).value
                        == ValueId((n0 + k) as u32) by {
                        if k < i {
                            assert(self.func().blocks@.last().params@[k] == before.func().blocks@.last().params@[k]);
                        }
                    }
                    assert forall|k: int| 0 <= k < i + 1 implies (#[trigger] self.func().values@[n0 + k]).kind
                        == (ValueKind::BlockParam { block: id, index: k as u32 }) by {
                        if k < i {
                            assert(self.func().values@[n0 + k] == before.func().values@[n0 + k]);
                        }
                    }
                }
            }
            i = i + 1;
        }
        Ok(id)
    }

    /// Adds an anonymous parameter to `block`. Only allowed while the
    /// block is empty, and never on the entry block.
    pub fn add_block_param(&mut self, block: BlockId, ty: TypeId) -> (r: Result<ValueId, BuildError>)
        requires
            old(self).wf(),
        ensures
            !old(self).block_param_ok(block, seq![], ty) ==> r is Err && Self::unchanged(*old(self), *final(self)),
            old(self).block_param_ok(block, seq![], ty) ==> (r matches Ok(v) && Self::param_added(*old(self), *final(self), block, seq![], false, ty, v)),
            (block.0 as int) >= old(self).func().blocks@.len() ==> r == Err::<ValueId, BuildError>(BuildError::UnknownBlock { block }),
            (block.0 as int) < old(self).func().blocks@.len() && (block.0 == 0 || old(self).func().blocks@[block.0 as int].instructions@.len()
                != 0 || old(self).func().blocks@[block.0 as int].terminator is Some) ==> (r matches Err(
                BuildError::BlockNotEmpty { block: b, .. },
            ) && b == block),
    {
        let r = self.add_block_param_named(block, "", ty);
        proof {
            reveal_strlit("");
            assert(""@ =~= Seq::<char>::empty());
            assert("".spec_bytes() =~= Seq::<u8>::empty());
        }
        r
    }

    /// Adds a named parameter to `block` (an empty name leaves it
    /// anonymous).
    pub fn add_block_param_named(&mut self, block: BlockId, name: &str, ty: TypeId) -> (r: Result<ValueId, BuildError>)
        requires
            old(self).wf(),
        ensures
            !old(self).block_param_ok(block, name.spec_bytes(), ty) ==> r is Err && Self::unchanged(*old(self), *final(self)),
            !(name.spec_bytes().len() == 0 || spec_is_ident(name.spec_bytes())) ==> (r matches Err(BuildError::InvalidName { .. })),
            (name.spec_bytes().len() == 0 || spec_is_ident(name.spec_bytes())) && (block.0 as int) >= old(self).func().blocks@.len()
                ==> r == Err::<ValueId, BuildError>(BuildError::UnknownBlock { block }),
            (name.spec_bytes().len() == 0 || spec_is_ident(name.spec_bytes())) && (block.0 as int) < old(self).func().blocks@.len()
                && (block.0 == 0 || old(self).func().blocks@[block.0 as int].instructions@.len() != 0
                || old(self).func().blocks@[block.0 as int].terminator is Some) ==> (r matches Err(BuildError::BlockNotEmpty { block: b, .. }) && b == block),
            old(self).block_param_ok(block, name.spec_bytes(), ty) ==> (r matches Ok(v) && Self::param_added(
                *old(self),
                *final(self),
                block,
                name@,
                name.spec_bytes().len() != 0,
                ty,
                v,
            )),
    {
        let named = name.as_bytes().len() != 0;
        if named {
            self.check_value_name(name)?;
        }
        let fi = self.function.index();
        let bi = block.index();
        let nblocks = self.module.functions[fi].blocks.len();
        if nblocks == 0 || bi >= nblocks {
            return Err(BuildError::UnknownBlock { block });
        }
        if bi == 0 {
            return Err(BuildError::BlockNotEmpty {
                block,
                reason: "the entry block cannot take parameters (use function parameters)",
            });
        }
        if self.module.functions[fi].blocks[bi].instructions.len() != 0 || self.module.functions[fi].blocks[bi].terminator.is_some() {
            return Err(BuildError::BlockNotEmpty { block, reason: "parameters must be added before instructions" });
        }
        if !self.first_class(ty) {
            let tn = self.type_desc(ty);
            return Err(BuildError::InvalidOperand {
                context: "block parameter",
                reason: concat_strs(&["`", tn.as_str(), "` is not a first-class type"]),
            });
        }
        let index = #[verifier::truncate] (self.module.functions[fi].blocks[bi].params.len() as u32);
        let value = ValueId::new(#[verifier::truncate] (self.module.functions[fi].values.len() as u32));
        let name_sym = if named {
            Some(self.module.symbols.intern(name))
        } else {
            None
        };
        self.module.functions[fi].values.push(
            ValueData { ty, kind: ValueKind::BlockParam { block, index }, name: name_sym, span: None },
        );
        self.module.functions[fi].blocks[bi].params.push(BlockParam { value, ty });
        proof {
            assert(self.func().values@.drop_last() =~= old(self).func().values@);
        }
        Ok(value)
    }

    /// Switches the cursor to `block`.
    pub fn switch_to(&mut self, block: BlockId) -> (r: Result<(), BuildError>)
        requires
            old(self).wf(),
        ensures
            (block.0 as int) >= old(self).func().blocks@.len() ==> r == Err::<(), BuildError>(BuildError::UnknownBlock { block })
                && Self::unchanged(*old(self), *final(self)),
            (block.0 as int) < old(self).func().blocks@.len() ==> r is Ok && final(self).spec_module() == old(self).spec_module()
                && final(self).spec_function_id() == old(self).spec_function_id() && final(self).spec_current() == Some(block),
    {
        let fi = self.function.index();
        if block.index() >= self.module.functions[fi].blocks.len() {
            return Err(BuildError::UnknownBlock { block });
        }
        self.current = Some(block);
        Ok(())
    }

    /// The currently selected block.
    pub fn current_block(&self) -> (r: Option<BlockId>)
        ensures
            r == self.spec_current(),
    {
        self.current
    }

    /// Attaches a debug name to a value (must be a valid identifier). The
    /// name is interned before the value is looked up.
    pub fn set_value_name(&mut self, v: ValueId, name: &str) -> (r: Result<(), BuildError>)
        requires
            old(self).wf(),
        ensures
            !spec_is_ident(name.spec_bytes()) ==> (r matches Err(BuildError::InvalidName { .. })) && Self::unchanged(*old(self), *final(self)),
            spec_is_ident(name.spec_bytes()) ==> {
                &&& final(self).spec_function_id() == old(self).spec_function_id()
                &&& final(self).spec_current() == old(self).spec_current()
                &&& final(self).spec_module().types == old(self).spec_module().types
                &&& final(self).spec_module().constants == old(self).spec_module().constants
                &&& exists|sym: SymbolId| {
                    &&& #[trigger] symbol_interned(old(self).spec_module().symbols.view_names(), name@, final(self).spec_module().symbols.view_names(), sym)
                    &&& (v.0 as int) >= old(self).func().values@.len() ==> r == Err::<(), BuildError>(
                        BuildError::UnknownValue { value: v, context: "set_value_name" },
                    ) && final(self).spec_module().functions == old(self).spec_module().functions
                    &&& (v.0 as int) < old(self).func().values@.len() ==> r is Ok && Self::kept(*old(self), *final(self))
                        && final(self).func().blocks == old(self).func().blocks
                        && final(self).func().values@ == old(self).func().values@.update(
                        v.0 as int,
                        ValueData { name: Some(sym), ..old(self).func().values@[v.0 as int] },
                    )
                }
            },
    {
        self.check_value_name(name)?;
        let sym = self.module.symbols.intern(name);
        let fi = self.function.index();
        if v.index() >= self.module.functions[fi].values.len() {
            proof {
                assert(symbol_interned(old(self).spec_module().symbols.view_names(), name@, self.spec_module().symbols.view_names(), sym));
            }
            return Err(BuildError::UnknownValue { value: v, context: "set_value_name" });
        }
        let vi = v.index();
        self.module.functions[fi].values[vi].name = Some(sym);
        proof {
            assert(self.func().values@ =~= old(self).func().values@.update(
                v.0 as int,
                ValueData { name: Some(sym), ..old(self).func().values@[v.0 as int] },
            ));
            assert(symbol_interned(old(self).spec_module().symbols.view_names(), name@, self.spec_module().symbols.view_names(), sym));
        }
        Ok(())
    }
}

} // verus!
