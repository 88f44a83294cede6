//! The verifier: a module that has not been verified is untrusted, and
//! backends accept only verified modules.
//!
//! Checks are grouped by concern: single definition of values (`ssa`),
//! typing of instructions, calls and constants (`typing`), and the control
//! flow graph with dominance of uses by definitions (`cfg`).

pub mod cfg;
pub mod ssa;
pub mod typing;

use vstd::prelude::*;
use vstd::string::StringSliceAdditionalSpecFns;

use crate::error::{VerifyError, VerifyErrorReport};
use crate::function::{Function, Linkage};
use crate::module::{Module, VerifiedModule};
use crate::textbuf::{concat_strs, dec_string, str_eq};
use crate::types::{spec_is_first_class, TypeData};
use crate::verify::cfg::{cfg_valid, check_cfg, lemma_uses_kept, undominated_uses_reported};
use crate::verify::ssa::{check_definitions, definitions_ok, lemma_redefinitions_reported_kept, redefinitions_reported};
use crate::instruction::inst_operands;
use crate::verify::typing::{
    call_arity_wrong, check_constant, check_instruction, constant_valid, has_type, inst_valid, lemma_call_arity_kept,
    lemma_reports_unknown_kept, reports_call_arity, reports_unknown, unknown_report,
};

verus! {

/// `new` is `old` with zero or more errors appended.
pub open spec fn extends(old: Seq<VerifyError>, new: Seq<VerifyError>) -> bool {
    &&& new.len() >= old.len()
    &&& forall|i: int| 0 <= i < old.len() ==> new[i] == old[i]
}

/// The name of function `i` of `m` (`<invalid-function>` when its symbol
/// does not exist).
pub open spec fn function_label(m: Module, i: int) -> Seq<char> {
    let sym = m.functions@[i].symbol;
    if (sym.0 as int) < m.symbols.names@.len() {
        m.symbols.view_names()[sym.0 as int]
    } else {
        "<invalid-function>"@
    }
}

/// Function `f` of `m` is well formed: a body-less function is an
/// external declaration and only declarations are variadic; parameter and
/// block parameter types are first-class and the result first-class or
/// `void`; values are in SSA form; the entry block takes no parameters;
/// every instruction is well formed and the control flow is valid.
pub open spec fn function_valid(m: Module, f: Function) -> bool {
    &&& (f.blocks@.len() == 0 ==> f.linkage == Linkage::External)
    &&& (f.blocks@.len() > 0 ==> !f.variadic)
    &&& forall|i: int| 0 <= i < f.params@.len() ==> has_type(m, Some(#[trigger] f.params@[i].ty), |d: TypeData| spec_is_first_class(d))
    &&& has_type(m, Some(f.result), |d: TypeData| spec_is_first_class(d) || d is Void)
    &&& definitions_ok(f)
    &&& (f.blocks@.len() > 0 ==> f.blocks@[0].params@.len() == 0)
    &&& forall|b: int, p: int| 0 <= b < f.blocks@.len() && 0 <= p < f.blocks@[b].params@.len() ==> has_type(
        m,
        Some(#[trigger] f.blocks@[b].params@[p].ty),
        |d: TypeData| spec_is_first_class(d),
    )
    &&& forall|b: int, i: int| 0 <= b < f.blocks@.len() && 0 <= i < f.blocks@[b].instructions@.len() ==> inst_valid(
        m,
        f,
        #[trigger] f.blocks@[b].instructions@[i],
    )
    &&& cfg_valid(m, f)
}

/// Module `m` is well formed: function names are unique, every pool
/// constant is well formed and every function is.
pub open spec fn module_valid(m: Module) -> bool {
    &&& forall|i: int, j: int| 0 <= i < j < m.functions@.len() ==> function_label(m, i) != function_label(m, j)
    &&& forall|i: int| 0 <= i < m.constants.constants@.len() ==> constant_valid(m, i, #[trigger] m.constants.constants@[i])
    &&& forall|i: int| 0 <= i < m.functions@.len() ==> function_valid(m, #[trigger] m.functions@[i])
}

/// The name of `f` in messages: its symbol, or `<invalid>` when the
/// symbol does not exist.
pub open spec fn function_text(m: Module, f: Function) -> Seq<char> {
    if (f.symbol.0 as int) < m.symbols.names@.len() {
        m.symbols.view_names()[f.symbol.0 as int]
    } else {
        "<invalid>"@
    }
}

/// `e` reports that two functions are named `name`.
pub open spec fn is_duplicate_name(e: VerifyError, name: Seq<char>) -> bool {
    e matches VerifyError::DuplicateFunctionName { name: n } && n@ == name
}

/// `e` reports that the body-less function `fname` is not `external`.
pub open spec fn is_bodiless_definition(e: VerifyError, fname: Seq<char>) -> bool {
    e matches VerifyError::InvalidDeclaration { function, .. } && function@ == fname
}

/// `e` reports that `fname` is a variadic function with a body.
pub open spec fn is_variadic_definition(e: VerifyError, fname: Seq<char>) -> bool {
    e matches VerifyError::VariadicDefinition { function } && function@ == fname
}

/// `e` reports that the entry block of `fname` takes `count` parameters.
pub open spec fn is_entry_params(e: VerifyError, fname: Seq<char>, count: usize) -> bool {
    e matches VerifyError::EntryBlockWithParams { function, count: c } && function@ == fname && c == count
}

/// `e` reports that block `block` of `fname` has no terminator.
pub open spec fn is_missing_terminator(e: VerifyError, fname: Seq<char>, block: u32) -> bool {
    e matches VerifyError::MissingTerminator { function, block: b } && function@ == fname && b == block
}

/// Among the errors from `from` on, one reports the name `name` twice.
pub open spec fn reports_duplicate_name(errs: Seq<VerifyError>, from: int, name: Seq<char>) -> bool {
    exists|j: int| 0 <= from <= j < errs.len() && is_duplicate_name(#[trigger] errs[j], name)
}

/// Among the errors from `from` on, one reports `fname` as a body-less
/// function that is not `external`.
pub open spec fn reports_bodiless_definition(errs: Seq<VerifyError>, from: int, fname: Seq<char>) -> bool {
    exists|j: int| 0 <= from <= j < errs.len() && is_bodiless_definition(#[trigger] errs[j], fname)
}

/// Among the errors from `from` on, one reports `fname` as a variadic
/// function with a body.
pub open spec fn reports_variadic_definition(errs: Seq<VerifyError>, from: int, fname: Seq<char>) -> bool {
    exists|j: int| 0 <= from <= j < errs.len() && is_variadic_definition(#[trigger] errs[j], fname)
}

/// Among the errors from `from` on, one reports the `count` parameters
/// of the entry block of `fname`.
pub open spec fn reports_entry_params(errs: Seq<VerifyError>, from: int, fname: Seq<char>, count: usize) -> bool {
    exists|j: int| 0 <= from <= j < errs.len() && is_entry_params(#[trigger] errs[j], fname, count)
}

/// Among the errors from `from` on, one reports block `block` of `fname`
/// as lacking a terminator.
pub open spec fn reports_missing_terminator(errs: Seq<VerifyError>, from: int, fname: Seq<char>, block: u32) -> bool {
    exists|j: int| 0 <= from <= j < errs.len() && is_missing_terminator(#[trigger] errs[j], fname, block)
}

/// The problems of `f` found before its blocks that each have an error
/// of their own: a body-less function that is not `external`, a variadic
/// function with a body, an entry block with parameters.
pub open spec fn header_problems_reported(m: Module, f: Function, errs: Seq<VerifyError>, from: int) -> bool {
    let name = function_text(m, f);
    &&& (f.blocks@.len() == 0 && f.linkage != Linkage::External ==> reports_bodiless_definition(errs, from, name))
    &&& (f.blocks@.len() > 0 && f.variadic ==> reports_variadic_definition(errs, from, name))
    &&& (f.blocks@.len() > 0 && f.blocks@[0].params@.len() > 0 ==> reports_entry_params(
        errs,
        from,
        name,
        f.blocks@[0].params@.len() as usize,
    ))
}

/// The problems of the first `n` blocks of `f` that each have an error of
/// their own: a block without terminator, an operand that is no value of
/// `f`.
pub open spec fn block_problems_reported(m: Module, f: Function, errs: Seq<VerifyError>, from: int, n: int) -> bool {
    let name = function_text(m, f);
    &&& forall|b: int| 0 <= b < n && b < f.blocks@.len() && (#[trigger] f.blocks@[b]).terminator is None
        ==> reports_missing_terminator(errs, from, name, b as u32)
    &&& forall|b: int, i: int, k: int|
        0 <= b < n && b < f.blocks@.len() && 0 <= i < f.blocks@[b].instructions@.len() && 0 <= k < inst_operands(
            f.blocks@[b].instructions@[i].kind,
        ).len() && (#[trigger] inst_operands(#[trigger] f.blocks@[b].instructions@[i].kind)[k].0 as int) >= f.values@.len()
            ==> reports_unknown(errs, from, name, inst_operands(f.blocks@[b].instructions@[i].kind)[k].0)
    &&& forall|b: int, i: int|
        0 <= b < n && b < f.blocks@.len() && 0 <= i < f.blocks@[b].instructions@.len() && call_arity_wrong(
            m,
            f,
            #[trigger] f.blocks@[b].instructions@[i],
        ) ==> reports_call_arity(m, f.blocks@[b].instructions@[i], errs, from, name)
}

/// Each problem of `f` that has an error of its own is reported among
/// the errors from `from` on.
pub open spec fn function_problems_reported(m: Module, f: Function, errs: Seq<VerifyError>, from: int) -> bool {
    &&& header_problems_reported(m, f, errs, from)
    &&& block_problems_reported(m, f, errs, from, f.blocks@.len() as int)
    &&& dominance_problems_reported(m, f, errs, from)
    &&& redefinitions_reported(f, errs, from, function_text(m, f))
}

/// Every use in `f` that its definition does not dominate is reported
/// among the errors from `from` on.
pub open spec fn dominance_problems_reported(m: Module, f: Function, errs: Seq<VerifyError>, from: int) -> bool {
    forall|b: int| 0 <= b < f.blocks@.len() ==> #[trigger] undominated_uses_reported(f, errs, from, function_text(m, f), b)
}

/// Appending errors, or counting them from an earlier position, keeps
/// the reports on dominance.
pub proof fn lemma_dominance_kept(m: Module, f: Function, a: Seq<VerifyError>, c: Seq<VerifyError>, from: int, wider: int)
    requires
        extends(a, c),
        0 <= wider <= from,
        dominance_problems_reported(m, f, a, from),
    ensures
        dominance_problems_reported(m, f, c, wider),
{
    assert forall|b: int| 0 <= b < f.blocks@.len() implies #[trigger] undominated_uses_reported(
        f,
        c,
        wider,
        function_text(m, f),
        b,
    ) by {
        lemma_uses_kept(f, a, c, from, wider, function_text(m, f), b);
    }
}

/// `extends` is transitive.
pub proof fn lemma_extends_trans(a: Seq<VerifyError>, b: Seq<VerifyError>, c: Seq<VerifyError>)
    requires
        extends(a, b),
        extends(b, c),
    ensures
        extends(a, c),
{
    assert forall|i: int| 0 <= i < a.len() implies c[i] == a[i] by {
        assert(c[i] == b[i]);
    }
}

/// Appending errors keeps the reports on the header of `f`.
pub proof fn lemma_header_kept(m: Module, f: Function, a: Seq<VerifyError>, b: Seq<VerifyError>, from: int)
    requires
        extends(a, b),
        header_problems_reported(m, f, a, from),
    ensures
        header_problems_reported(m, f, b, from),
{
    let name = function_text(m, f);
    if f.blocks@.len() == 0 && f.linkage != Linkage::External {
        let j = choose|j: int| 0 <= from <= j < a.len() && is_bodiless_definition(#[trigger] a[j], name);
        assert(b[j] == a[j]);
    }
    if f.blocks@.len() > 0 && f.variadic {
        let j = choose|j: int| 0 <= from <= j < a.len() && is_variadic_definition(#[trigger] a[j], name);
        assert(b[j] == a[j]);
    }
    if f.blocks@.len() > 0 && f.blocks@[0].params@.len() > 0 {
        let c = f.blocks@[0].params@.len() as usize;
        let j = choose|j: int| 0 <= from <= j < a.len() && is_entry_params(#[trigger] a[j], name, c);
        assert(b[j] == a[j]);
    }
}

/// Appending errors keeps the reports on the first `n` blocks of `f`.
pub proof fn lemma_blocks_kept(m: Module, f: Function, a: Seq<VerifyError>, b: Seq<VerifyError>, from: int, n: int)
    requires
        extends(a, b),
        block_problems_reported(m, f, a, from, n),
    ensures
        block_problems_reported(m, f, b, from, n),
{
    let name = function_text(m, f);
    assert forall|x: int| 0 <= x < n && x < f.blocks@.len() && (#[trigger] f.blocks@[x]).terminator is None implies reports_missing_terminator(
        b,
        from,
        name,
        x as u32,
    ) by {
        let j = choose|j: int| 0 <= from <= j < a.len() && is_missing_terminator(#[trigger] a[j], name, x as u32);
        assert(b[j] == a[j]);
    }
    assert forall|x: int, i: int, k: int|
        0 <= x < n && x < f.blocks@.len() && 0 <= i < f.blocks@[x].instructions@.len() && 0 <= k < inst_operands(
            f.blocks@[x].instructions@[i].kind,
        ).len() && (#[trigger] inst_operands(#[trigger] f.blocks@[x].instructions@[i].kind)[k].0 as int) >= f.values@.len()
        implies reports_unknown(b, from, name, inst_operands(f.blocks@[x].instructions@[i].kind)[k].0) by {
        lemma_reports_unknown_kept(a, b, from, name, inst_operands(f.blocks@[x].instructions@[i].kind)[k].0);
    }
    assert forall|x: int, i: int|
        0 <= x < n && x < f.blocks@.len() && 0 <= i < f.blocks@[x].instructions@.len() && call_arity_wrong(
            m,
            f,
            #[trigger] f.blocks@[x].instructions@[i],
        ) implies reports_call_arity(m, f.blocks@[x].instructions@[i], b, from, name) by {
        lemma_call_arity_kept(m, f.blocks@[x].instructions@[i], a, b, from, from, name);
    }
}

/// Each pair of functions of `m` with one name, and each problem of a
/// function that has an error of its own, is reported among the errors
/// from `from` on.
pub open spec fn module_problems_reported(m: Module, errs: Seq<VerifyError>, from: int) -> bool {
    &&& forall|a: int, b: int|
        0 <= a < b < m.functions@.len() && #[trigger] function_label(m, a) == #[trigger] function_label(m, b)
            ==> reports_duplicate_name(errs, from, function_label(m, a))
    &&& forall|i: int| 0 <= i < m.functions@.len() ==> function_problems_reported(m, #[trigger] m.functions@[i], errs, from)
}

/// A report made from position `later` on is also one from any earlier
/// position.
pub proof fn lemma_header_widened(m: Module, f: Function, errs: Seq<VerifyError>, later: int, from: int)
    requires
        0 <= from <= later,
        header_problems_reported(m, f, errs, later),
    ensures
        header_problems_reported(m, f, errs, from),
{
}

/// A report made from position `later` on is also one from any earlier
/// position.
pub proof fn lemma_blocks_widened(m: Module, f: Function, errs: Seq<VerifyError>, later: int, from: int, n: int)
    requires
        0 <= from <= later,
        block_problems_reported(m, f, errs, later, n),
    ensures
        block_problems_reported(m, f, errs, from, n),
{
    let name = function_text(m, f);
    assert forall|x: int, i: int|
        0 <= x < n && x < f.blocks@.len() && 0 <= i < f.blocks@[x].instructions@.len() && call_arity_wrong(
            m,
            f,
            #[trigger] f.blocks@[x].instructions@[i],
        ) implies reports_call_arity(m, f.blocks@[x].instructions@[i], errs, from, name) by {
        lemma_call_arity_kept(m, f.blocks@[x].instructions@[i], errs, errs, later, from, name);
    }
}

/// Appending errors keeps a report of a duplicated name.
pub proof fn lemma_duplicate_kept(a: Seq<VerifyError>, b: Seq<VerifyError>, from: int, name: Seq<char>)
    requires
        extends(a, b),
        reports_duplicate_name(a, from, name),
    ensures
        reports_duplicate_name(b, from, name),
{
    let j = choose|j: int| 0 <= from <= j < a.len() && is_duplicate_name(#[trigger] a[j], name);
    assert(b[j] == a[j]);
}

/// How many of the first `n` functions of `m` are invalid.
pub open spec fn invalid_functions(m: Module, n: int) -> nat
    decreases n,
{
    if n <= 0 {
        0
    } else {
        invalid_functions(m, n - 1) + if function_valid(m, m.functions@[n - 1]) {
            0nat
        } else {
            1nat
        }
    }
}

/// How many of the first `n` constants of `m` are invalid.
pub open spec fn invalid_constants(m: Module, n: int) -> nat
    decreases n,
{
    if n <= 0 {
        0
    } else {
        invalid_constants(m, n - 1) + if constant_valid(m, n - 1, m.constants.constants@[n - 1]) {
            0nat
        } else {
            1nat
        }
    }
}

/// At least one error for each invalid function and each invalid constant.
pub open spec fn reports_each_problem(m: Module, errors: nat) -> bool {
    errors >= invalid_functions(m, m.functions@.len() as int) + invalid_constants(m, m.constants.constants@.len() as int)
}

/// Verifies modules, producing verified modules.
#[derive(Debug, Clone, Copy, Default)]
pub struct Verifier;

/// Verifies `module`; equivalent to [`Verifier::verify`].
pub fn verify(module: Module) -> (r: Result<VerifiedModule, VerifyErrorReport>)
    ensures
        module_valid(module) <==> r is Ok,
        r matches Ok(vm) ==> vm.inner() == module,
        r matches Err(report) ==> report.spec_errors().len() > 0,
        r matches Err(report) ==> reports_each_problem(module, report.spec_errors().len()),
        r matches Err(report) ==> module_problems_reported(module, report.spec_errors(), 0),
{
    Verifier::verify(module)
}

impl Verifier {
    /// Verifies `module`, returning all errors found (not just the first).
    /// On success the module is wrapped in a [`VerifiedModule`].
    pub fn verify(module: Module) -> (r: Result<VerifiedModule, VerifyErrorReport>)
        ensures
            module_valid(module) <==> r is Ok,
            r matches Ok(vm) ==> vm.inner() == module,
            r matches Err(report) ==> report.spec_errors().len() > 0,
            r matches Err(report) ==> reports_each_problem(module, report.spec_errors().len()),
            r matches Err(report) ==> module_problems_reported(module, report.spec_errors(), 0),
    {
        let mut errors: Vec<VerifyError> = Vec::new();
        Verifier::verify_ref(&module, &mut errors);
        if errors.len() == 0 {
            Ok(VerifiedModule::new(module))
        } else {
            Err(VerifyErrorReport::new(errors))
        }
    }

    /// Verifies a borrowed module, appending the errors found to `errors`.
    pub fn verify_ref(module: &Module, errors: &mut Vec<VerifyError>)
        ensures
            extends(old(errors)@, final(errors)@),
            final(errors)@.len() == old(errors)@.len() <==> module_valid(*module),
            reports_each_problem(*module, (final(errors)@.len() - old(errors)@.len()) as nat),
            module_problems_reported(*module, final(errors)@, old(errors)@.len() as int),
    {
        let ghost start = errors@;
        check_module(module, errors);
        let ghost mid = errors@;
        let n = module.functions.len();
        let mut i: usize = 0;
        while i < n
            invariant
                n == module.functions@.len(),
                i <= n,
                extends(start, mid),
                extends(mid, errors@),
                mid.len() == start.len() <==> (forall|a: int, b: int| 0 <= a < b < n ==> function_label(*module, a) != function_label(*module, b))
                    && (forall|c: int| 0 <= c < module.constants.constants@.len() ==> constant_valid(*module, c, #[trigger] module.constants.constants@[c])),
                errors@.len() == mid.len() <==> forall|k: int| 0 <= k < i ==> function_valid(*module, #[trigger] module.functions@[k]),
                mid.len() >= start.len() + invalid_constants(*module, module.constants.constants@.len() as int),
                errors@.len() >= mid.len() + invalid_functions(*module, i as int),
                forall|a: int, b: int|
                    0 <= a < b < n && #[trigger] function_label(*module, a) == #[trigger] function_label(*module, b)
                        ==> reports_duplicate_name(errors@, start.len() as int, function_label(*module, a)),
                forall|k: int| 0 <= k < i ==> function_problems_reported(*module, #[trigger] module.functions@[k], errors@, start.len() as int),
            decreases n - i,
        {
            let ghost before = errors@;
            check_function(module, &module.functions[i], errors);
            proof {
                if errors@.len() == mid.len() {
                    assert(before.len() == mid.len());
                }
                assert forall|a: int, b: int|
                    0 <= a < b < n && #[trigger] function_label(*module, a) == #[trigger] function_label(*module, b)
                    implies reports_duplicate_name(errors@, start.len() as int, function_label(*module, a)) by {
                    lemma_duplicate_kept(before, errors@, start.len() as int, function_label(*module, a));
                }
                assert forall|k: int| 0 <= k < i + 1 implies function_problems_reported(*module, #[trigger] module.functions@[k], errors@, start.len() as int) by {
                    let g = module.functions@[k];
                    if k < i {
                        lemma_header_kept(*module, g, before, errors@, start.len() as int);
                        lemma_blocks_kept(*module, g, before, errors@, start.len() as int, g.blocks@.len() as int);
                        lemma_dominance_kept(*module, g, before, errors@, start.len() as int, start.len() as int);
                        lemma_redefinitions_reported_kept(g, before, errors@, start.len() as int, start.len() as int, function_text(*module, g));
                    } else {
                        lemma_header_widened(*module, g, errors@, before.len() as int, start.len() as int);
                        lemma_blocks_widened(*module, g, errors@, before.len() as int, start.len() as int, g.blocks@.len() as int);
                        lemma_dominance_kept(*module, g, errors@, errors@, before.len() as int, start.len() as int);
                        lemma_redefinitions_reported_kept(g, errors@, errors@, before.len() as int, start.len() as int, function_text(*module, g));
                    }
                }
            }
            i = i + 1;
        }
    }
}

/// The name of function `i`.
fn label_of(m: &Module, i: usize) -> (r: &str)
    requires
        i < m.functions@.len(),
    ensures
        r@ == function_label(*m, i as int),
{
    match m.symbols.name(m.functions[i].symbol) {
        Some(n) => n,
        None => "<invalid-function>",
    }
}

/// Module-level checks: unique function names and well-formed constants.
fn check_module(m: &Module, errors: &mut Vec<VerifyError>)
    ensures
        extends(old(errors)@, final(errors)@),
        final(errors)@.len() == old(errors)@.len() <==> (forall|a: int, b: int| 0 <= a < b < m.functions@.len() ==> function_label(*m, a)
            != function_label(*m, b)) && (forall|c: int| 0 <= c < m.constants.constants@.len() ==> constant_valid(*m, c, #[trigger] m.constants.constants@[c])),
        final(errors)@.len() >= old(errors)@.len() + invalid_constants(*m, m.constants.constants@.len() as int),
        forall|a: int, b: int|
            0 <= a < b < m.functions@.len() && #[trigger] function_label(*m, a) == #[trigger] function_label(*m, b)
                ==> reports_duplicate_name(final(errors)@, old(errors)@.len() as int, function_label(*m, a)),
{
    let ghost start = errors@;
    let n = m.functions.len();
    let mut i: usize = 0;
    while i < n
        invariant
            n == m.functions@.len(),
            i <= n,
            extends(start, errors@),
            errors@.len() == start.len() <==> forall|a: int, b: int| 0 <= a < b < n && a < i ==> function_label(*m, a) != function_label(*m, b),
            forall|a: int, b: int|
                0 <= a < b < n && a < i && #[trigger] function_label(*m, a) == #[trigger] function_label(*m, b)
                    ==> reports_duplicate_name(errors@, start.len() as int, function_label(*m, a)),
        decreases n - i,
    {
        let name = label_of(m, i);
        let mut j: usize = i + 1;
        let ghost mid = errors@;
        while j < n
            invariant
                n == m.functions@.len(),
                i < j <= n,
                name@ == function_label(*m, i as int),
                extends(start, mid),
                extends(mid, errors@),
                errors@.len() == mid.len() <==> forall|b: int| i < b < j ==> function_label(*m, i as int) != function_label(*m, b),
                forall|a: int, b: int|
                    0 <= a < b < n && a < i && #[trigger] function_label(*m, a) == #[trigger] function_label(*m, b)
                        ==> reports_duplicate_name(errors@, start.len() as int, function_label(*m, a)),
                forall|b: int| i < b < j && function_label(*m, i as int) == #[trigger] function_label(*m, b)
                    ==> reports_duplicate_name(errors@, start.len() as int, function_label(*m, i as int)),
            decreases n - j,
        {
            let other = label_of(m, j);
            let ghost before = errors@;
            if str_eq(name, other) {
                errors.push(VerifyError::DuplicateFunctionName { name: name.to_owned() });
                proof {
                    assert(is_duplicate_name(errors@[errors@.len() - 1], name@));
                    assert forall|a: int, b: int|
                        0 <= a < b < n && a < i && #[trigger] function_label(*m, a) == #[trigger] function_label(*m, b)
                        implies reports_duplicate_name(errors@, start.len() as int, function_label(*m, a)) by {
                        lemma_duplicate_kept(before, errors@, start.len() as int, function_label(*m, a));
                    }
                    assert forall|b: int| i < b < j + 1 && function_label(*m, i as int) == #[trigger] function_label(*m, b)
                        implies reports_duplicate_name(errors@, start.len() as int, function_label(*m, i as int)) by {
                        if b < j {
                            lemma_duplicate_kept(before, errors@, start.len() as int, function_label(*m, i as int));
                        }
                    }
                }
            }
            proof {
                if errors@.len() == mid.len() {
                    assert(before.len() == mid.len());
                }
            }
            j = j + 1;
        }
        proof {
            if errors@.len() == start.len() {
                assert(mid.len() == start.len());
            }
        }
        i = i + 1;
    }
    let ghost mid = errors@;
    let nc = m.constants.constants.len();
    let mut c: usize = 0;
    while c < nc
        invariant
            nc == m.constants.constants@.len(),
            c <= nc,
            extends(start, mid),
            extends(mid, errors@),
            errors@.len() == mid.len() <==> forall|k: int| 0 <= k < c ==> constant_valid(*m, k, #[trigger] m.constants.constants@[k]),
            errors@.len() >= mid.len() + invalid_constants(*m, c as int),
            mid.len() >= start.len(),
        decreases nc - c,
    {
        let ghost before = errors@;
        check_constant(m, c, &m.constants.constants[c], errors);
        proof {
            if errors@.len() == mid.len() {
                assert(before.len() == mid.len());
            }
        }
        c = c + 1;
    }
    proof {
        assert forall|a: int, b: int|
            0 <= a < b < m.functions@.len() && #[trigger] function_label(*m, a) == #[trigger] function_label(*m, b)
            implies reports_duplicate_name(errors@, start.len() as int, function_label(*m, a)) by {
            lemma_duplicate_kept(mid, errors@, start.len() as int, function_label(*m, a));
        }
    }
}

/// The name of `f` for messages (`<invalid>` when its symbol does not
/// exist).
fn fname(m: &Module, f: &Function) -> (r: String)
    ensures
        r@ == (if (f.symbol.0 as int) < m.symbols.names@.len() {
            m.symbols.view_names()[f.symbol.0 as int]
        } else {
            "<invalid>"@
        }),
{
    match m.symbols.name(f.symbol) {
        Some(n) => n.to_owned(),
        None => "<invalid>".to_owned(),
    }
}

fn first_class(m: &Module, t: crate::id::TypeId) -> (r: bool)
    ensures
        r == has_type(*m, Some(t), |d: TypeData| spec_is_first_class(d)),
{
    match m.types.get(t) {
        Some(d) => d.is_first_class(),
        None => false,
    }
}

/// Checks one function.
fn check_function(m: &Module, f: &Function, errors: &mut Vec<VerifyError>)
    ensures
        extends(old(errors)@, final(errors)@),
        final(errors)@.len() == old(errors)@.len() <==> function_valid(*m, *f),
        function_problems_reported(*m, *f, final(errors)@, old(errors)@.len() as int),
{
    let ghost start = errors@;
    let name = fname(m, f);
    proof {
        assert(name@ == function_text(*m, *f));
    }
    let nblocks = f.blocks.len();
    if nblocks == 0 {
        if !matches!(f.linkage, Linkage::External) {
            errors.push(VerifyError::InvalidDeclaration {
                function: name.clone(),
                reason: concat_strs(&["a function without a body is an extern declaration and must use `external` linkage"]),
            });
        }
    } else if f.variadic {
        errors.push(VerifyError::VariadicDefinition { function: name.clone() });
    }
    let ghost s1 = errors@;
    let np = f.params.len();
    let mut i: usize = 0;
    while i < np
        invariant
            np == f.params@.len(),
            i <= np,
            extends(start, s1),
            extends(s1, errors@),
            errors@.len() == s1.len() <==> forall|k: int| 0 <= k < i ==> has_type(*m, Some(#[trigger] f.params@[k].ty), |d: TypeData| spec_is_first_class(d)),
        decreases np - i,
    {
        let ghost before = errors@;
        let ty = f.params[i].ty;
        if !first_class(m, ty) {
            let k = dec_string(i as u128);
            let t = m.type_label(ty);
            errors.push(VerifyError::InvalidSignature {
                function: name.clone(),
                reason: concat_strs(&["parameter ", k.as_str(), " has non-first-class type `", t.as_str(), "`"]),
            });
        }
        proof {
            if errors@.len() == s1.len() {
                assert(before.len() == s1.len());
            }
        }
        i = i + 1;
    }
    let ghost s2 = errors@;
    let result_ok = match m.types.get(f.result) {
        Some(d) => d.is_first_class() || d.is_void(),
        None => false,
    };
    if !result_ok {
        let t = m.type_label(f.result);
        errors.push(VerifyError::InvalidSignature {
            function: name.clone(),
            reason: concat_strs(&["result type `", t.as_str(), "` must be first-class or void"]),
        });
    }
    let ghost s3 = errors@;
    check_definitions(f, name.as_str(), errors);
    let ghost s4 = errors@;
    proof {
        assert(extends(s2, s3));
        lemma_extends_trans(start, s1, s2);
        lemma_extends_trans(start, s2, s3);
    }
    if nblocks > 0 && f.blocks[0].params.len() != 0 {
        errors.push(VerifyError::EntryBlockWithParams { function: name.clone(), count: f.blocks[0].params.len() });
    }
    let ghost s5 = errors@;
    proof {
        assert(extends(s2, s3));
        assert(extends(s4, s5));
        lemma_extends_trans(s1, s2, s3);
        lemma_extends_trans(s1, s3, s4);
        lemma_extends_trans(s1, s4, s5);
        if f.blocks@.len() == 0 && f.linkage != Linkage::External {
            let j = s1.len() - 1;
            assert(is_bodiless_definition(s1[j], name@));
            assert(s5[j] == s1[j]);
        }
        if f.blocks@.len() > 0 && f.variadic {
            let j = s1.len() - 1;
            assert(is_variadic_definition(s1[j], name@));
            assert(s5[j] == s1[j]);
        }
        if f.blocks@.len() > 0 && f.blocks@[0].params@.len() > 0 {
            let j = s5.len() - 1;
            assert(is_entry_params(s5[j], name@, f.blocks@[0].params@.len() as usize));
        }
        assert(header_problems_reported(*m, *f, s5, start.len() as int));
        assert(block_problems_reported(*m, *f, s5, start.len() as int, 0));
    }
    let mut bi: usize = 0;
    while bi < nblocks
        invariant
            nblocks == f.blocks@.len(),
            bi <= nblocks,
            extends(start, s5),
            extends(s5, errors@),
            errors@.len() == s5.len() <==> (forall|b: int| 0 <= b < bi ==> (#[trigger] f.blocks@[b]).terminator is Some)
                && (forall|b: int, p: int| 0 <= b < bi && 0 <= p < f.blocks@[b].params@.len() ==> has_type(
                    *m,
                    Some(#[trigger] f.blocks@[b].params@[p].ty),
                    |d: TypeData| spec_is_first_class(d),
                )) && (forall|b: int, k: int| 0 <= b < bi && 0 <= k < f.blocks@[b].instructions@.len() ==> inst_valid(
                    *m,
                    *f,
                    #[trigger] f.blocks@[b].instructions@[k],
                )),
            name@ == function_text(*m, *f),
            header_problems_reported(*m, *f, errors@, start.len() as int),
            block_problems_reported(*m, *f, errors@, start.len() as int, bi as int),
        decreases nblocks - bi,
    {
        let ghost b0 = errors@;
        let block = &f.blocks[bi];
        if block.terminator.is_none() {
            errors.push(VerifyError::MissingTerminator { function: name.clone(), block: #[verifier::truncate] (bi as u32) });
        }
        let ghost b1 = errors@;
        let npb = block.params.len();
        let mut pi: usize = 0;
        while pi < npb
            invariant
                *block == f.blocks@[bi as int],
                bi < nblocks,
                nblocks == f.blocks@.len(),
                npb == block.params@.len(),
                pi <= npb,
                extends(b1, errors@),
                errors@.len() == b1.len() <==> forall|p: int| 0 <= p < pi ==> has_type(
                    *m,
                    Some(#[trigger] block.params@[p].ty),
                    |d: TypeData| spec_is_first_class(d),
                ),
            decreases npb - pi,
        {
            let ghost before = errors@;
            let ty = block.params[pi].ty;
            if !first_class(m, ty) {
                let b = dec_string(bi as u128);
                let p = dec_string(pi as u128);
                let t = m.type_label(ty);
                errors.push(VerifyError::InvalidSignature {
                    function: name.clone(),
                    reason: concat_strs(&["block bb", b.as_str(), " parameter ", p.as_str(), " has non-first-class type `", t.as_str(), "`"]),
                });
            }
            proof {
                if errors@.len() == b1.len() {
                    assert(before.len() == b1.len());
                }
            }
            pi = pi + 1;
        }
        let ghost b2 = errors@;
        let ni = block.instructions.len();
        let mut ii: usize = 0;
        while ii < ni
            invariant
                *block == f.blocks@[bi as int],
                bi < nblocks,
                nblocks == f.blocks@.len(),
                ni == block.instructions@.len(),
                ii <= ni,
                extends(b2, errors@),
                errors@.len() == b2.len() <==> forall|k: int| 0 <= k < ii ==> inst_valid(*m, *f, #[trigger] block.instructions@[k]),
                start.len() <= b2.len(),
                forall|i: int, k: int|
                    0 <= i < ii && 0 <= k < inst_operands(block.instructions@[i].kind).len() && (#[trigger] inst_operands(
                        #[trigger] block.instructions@[i].kind,
                    )[k].0 as int) >= f.values@.len() ==> reports_unknown(
                        errors@,
                        start.len() as int,
                        name@,
                        inst_operands(block.instructions@[i].kind)[k].0,
                    ),
                forall|i: int| 0 <= i < ii && call_arity_wrong(*m, *f, #[trigger] block.instructions@[i]) ==> reports_call_arity(
                    *m,
                    block.instructions@[i],
                    errors@,
                    start.len() as int,
                    name@,
                ),
            decreases ni - ii,
        {
            let ghost before = errors@;
            check_instruction(m, f, name.as_str(), bi, &block.instructions[ii], errors);
            proof {
                if errors@.len() == b2.len() {
                    assert(before.len() == b2.len());
                }
                assert forall|i: int, k: int|
                    0 <= i < ii + 1 && 0 <= k < inst_operands(block.instructions@[i].kind).len() && (#[trigger] inst_operands(
                        #[trigger] block.instructions@[i].kind,
                    )[k].0 as int) >= f.values@.len() implies reports_unknown(
                    errors@,
                    start.len() as int,
                    name@,
                    inst_operands(block.instructions@[i].kind)[k].0,
                ) by {
                    let v = inst_operands(block.instructions@[i].kind)[k].0;
                    if i < ii {
                        lemma_reports_unknown_kept(before, errors@, start.len() as int, name@, v);
                    } else {
                        let j = choose|j: int| 0 <= before.len() <= j < errors@.len() && unknown_report(#[trigger] errors@[j], name@, v);
                        assert(unknown_report(errors@[j], name@, v));
                    }
                }
                assert forall|i: int| 0 <= i < ii + 1 && call_arity_wrong(*m, *f, #[trigger] block.instructions@[i]) implies reports_call_arity(
                    *m,
                    block.instructions@[i],
                    errors@,
                    start.len() as int,
                    name@,
                ) by {
                    if i < ii {
                        lemma_call_arity_kept(*m, block.instructions@[i], before, errors@, start.len() as int, start.len() as int, name@);
                    } else {
                        lemma_call_arity_kept(*m, block.instructions@[i], errors@, errors@, before.len() as int, start.len() as int, name@);
                    }
                }
            }
            ii = ii + 1;
        }
        proof {
            assert(extends(b0, errors@));
            if errors@.len() == s5.len() {
                assert(b0.len() == s5.len());
                assert(b1.len() == b0.len());
                assert(b2.len() == b1.len());
            }
            if errors@.len() == b0.len() {
                assert(b1.len() == b0.len());
                assert(b2.len() == b1.len());
            }
            lemma_header_kept(*m, *f, b0, errors@, start.len() as int);
            lemma_blocks_kept(*m, *f, b0, errors@, start.len() as int, bi as int);
            if block.terminator is None {
                let j = b1.len() - 1;
                assert(is_missing_terminator(b1[j], name@, bi as u32));
                assert(errors@[j] == b1[j]);
                assert(reports_missing_terminator(errors@, start.len() as int, name@, bi as u32));
            }
            assert(block_problems_reported(*m, *f, errors@, start.len() as int, bi + 1));
        }
        bi = bi + 1;
    }
    let ghost s6 = errors@;
    check_cfg(m, f, name.as_str(), errors);
    proof {
        lemma_header_kept(*m, *f, s6, errors@, start.len() as int);
        lemma_blocks_kept(*m, *f, s6, errors@, start.len() as int, nblocks as int);
        assert(start.len() <= s6.len());
        lemma_dominance_kept(*m, *f, errors@, errors@, s6.len() as int, start.len() as int);
        assert(extends(s4, s5));
        lemma_extends_trans(s4, s5, s6);
        lemma_extends_trans(s4, s6, errors@);
        lemma_redefinitions_reported_kept(*f, s4, errors@, s3.len() as int, start.len() as int, name@);
        if errors@.len() == start.len() {
            assert(s1.len() == start.len());
            assert(s2.len() == start.len());
            assert(s3.len() == start.len());
            assert(s4.len() == start.len());
            assert(s5.len() == start.len());
            assert(s6.len() == start.len());
        }
    }
}

} // verus!
