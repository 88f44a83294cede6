//! Single-definition checks: every value is defined exactly once, and the
//! kind recorded in the arena agrees with the actual definition site.

use vstd::prelude::*;

use crate::error::VerifyError;
use crate::function::Function;
use crate::id::ValueId;
use crate::instruction::Instruction;
use crate::textbuf::{cat2, cat4, concat_strs, dec_chars, dec_string};
use crate::value::ValueKind;
use crate::verify::extends;

verus! {

/// Where a definition of a value occurs.
#[derive(Debug, Clone, Copy, PartialEq, Eq, Structural)]
pub enum DefSite {
    /// Function parameter at this position.
    FunctionParam(usize),
    /// Parameter `index` of block `block`.
    BlockParam { block: usize, index: usize },
    /// Result of instruction `index` of block `block`.
    Inst { block: usize, index: usize },
}

/// Site `s` of `f` defines value `v`. An instruction result outside the
/// arena defines nothing (it is reported as an unknown value).
pub open spec fn site_defines(f: Function, s: DefSite, v: int) -> bool {
    match s {
        DefSite::FunctionParam(i) => i < f.params@.len() && f.params@[i as int].value.0 == v,
        DefSite::BlockParam { block, index } => block < f.blocks@.len() && index < f.blocks@[block as int].params@.len()
            && f.blocks@[block as int].params@[index as int].value.0 == v,
        DefSite::Inst { block, index } => block < f.blocks@.len() && index < f.blocks@[block as int].instructions@.len()
            && f.blocks@[block as int].instructions@[index as int].result == Some(ValueId(v as u32)) && 0 <= v
            < f.values@.len(),
    }
}

/// No value has two definition sites.
pub open spec fn single_definitions(f: Function) -> bool {
    forall|s1: DefSite, s2: DefSite, v: int| #[trigger] site_defines(f, s1, v) && #[trigger] site_defines(f, s2, v) ==> s1 == s2
}

/// The result of `inst`, if any, is one of the first `n` values.
pub open spec fn result_below(inst: Instruction, n: int) -> bool {
    match inst.result {
        Some(r) => (r.0 as int) < n,
        None => true,
    }
}

/// Every instruction result lies in the value arena.
pub open spec fn results_in_arena(f: Function) -> bool {
    forall|b: int, i: int| 0 <= b < f.blocks@.len() && 0 <= i < f.blocks@[b].instructions@.len() ==> result_below(
        #[trigger] f.blocks@[b].instructions@[i],
        f.values@.len() as int,
    )
}

/// `s` is function parameter site before position `i`.
spec fn param_site_before(s: DefSite, i: int) -> bool {
    match s {
        DefSite::FunctionParam(k) => k < i,
        _ => false,
    }
}

/// The arena holds the parameters, and parameter `i` is value `i`.
pub open spec fn params_numbered(f: Function) -> bool {
    &&& f.values@.len() >= f.params@.len()
    &&& forall|i: int| 0 <= i < f.params@.len() ==> (#[trigger] f.params@[i]).value.0 == i
}

/// The kind recorded for value `vi` names its actual definition, with
/// the declared type (values are numbered by `u32`).
pub open spec fn kind_consistent(f: Function, vi: int) -> bool {
    let d = f.values@[vi];
    let v = vi as u32;
    match d.kind {
        ValueKind::Reserved => false,
        ValueKind::Param { index } => (index as int) < f.params@.len() && f.params@[index as int].value.0 == v
            && f.params@[index as int].ty == d.ty,
        ValueKind::BlockParam { block, index } => (block.0 as int) < f.blocks@.len() && (index as int)
            < f.blocks@[block.0 as int].params@.len() && f.blocks@[block.0 as int].params@[index as int].value.0 == v
            && f.blocks@[block.0 as int].params@[index as int].ty == d.ty,
        ValueKind::Inst { block, index } => (block.0 as int) < f.blocks@.len() && (index as int)
            < f.blocks@[block.0 as int].instructions@.len() && f.blocks@[block.0 as int].instructions@[index as int].result
            == Some(ValueId(v)),
    }
}

/// The function is in SSA form: every value is defined exactly once, by
/// the site its arena entry names.
pub open spec fn definitions_ok(f: Function) -> bool {
    &&& params_numbered(f)
    &&& results_in_arena(f)
    &&& single_definitions(f)
    &&& forall|vi: int| 0 <= vi < f.values@.len() ==> #[trigger] kind_consistent(f, vi)
}

/// Site `s` comes before the scan position: all function parameters,
/// then block by block the parameters and then the instruction results.
/// The position is block `b`, in its parameters (`stage == 0`) or its
/// instructions (`stage == 1`), before index `i`.
spec fn scanned(s: DefSite, b: int, stage: int, i: int) -> bool {
    match s {
        DefSite::FunctionParam(_) => true,
        DefSite::BlockParam { block, index } => block < b || (block == b && (stage == 1 || index < i)),
        DefSite::Inst { block, index } => block < b || (block == b && stage == 1 && index < i),
    }
}

/// `t` holds an entry for value `v`.
spec fn table_has(t: Seq<(u32, DefSite)>, v: int) -> bool {
    exists|j: int| 0 <= j < t.len() && t[j].0 == v
}

/// The table lists valid definitions with distinct values.
spec fn table_valid(f: Function, t: Seq<(u32, DefSite)>) -> bool {
    &&& forall|j: int| 0 <= j < t.len() ==> site_defines(f, (#[trigger] t[j]).1, t[j].0 as int)
    &&& forall|i: int, j: int| 0 <= i < j < t.len() ==> t[i].0 != t[j].0
}

/// How a definition site is described in messages.
pub open spec fn site_text(s: DefSite) -> Seq<char> {
    match s {
        DefSite::FunctionParam(i) => "function parameter "@ + dec_chars(i as nat),
        DefSite::BlockParam { block, index } => "parameter "@ + dec_chars(index as nat) + " of bb"@ + dec_chars(
            block as nat,
        ),
        DefSite::Inst { block, index } => "instruction "@ + dec_chars(index as nat) + " of bb"@ + dec_chars(
            block as nat,
        ),
    }
}

/// Site `t` comes before site `s` in the order the definitions are
/// scanned: the function parameters, then block by block the block
/// parameters and then the instruction results.
pub open spec fn earlier(t: DefSite, s: DefSite) -> bool {
    match (t, s) {
        (DefSite::FunctionParam(i), DefSite::FunctionParam(j)) => i < j,
        (DefSite::FunctionParam(_), _) => true,
        (_, DefSite::FunctionParam(_)) => false,
        (DefSite::BlockParam { block: b1, index: i1 }, DefSite::BlockParam { block: b2, index: i2 }) => b1 < b2 || (b1 == b2
            && i1 < i2),
        (DefSite::BlockParam { block: b1, .. }, DefSite::Inst { block: b2, .. }) => b1 <= b2,
        (DefSite::Inst { block: b1, .. }, DefSite::BlockParam { block: b2, .. }) => b1 < b2,
        (DefSite::Inst { block: b1, index: i1 }, DefSite::Inst { block: b2, index: i2 }) => b1 < b2 || (b1 == b2 && i1 < i2),
    }
}

/// `s` is the first site, in scan order, that defines `v`.
pub open spec fn first_definition(f: Function, s: DefSite, v: int) -> bool {
    &&& site_defines(f, s, v)
    &&& forall|t: DefSite| #[trigger] site_defines(f, t, v) ==> !earlier(t, s)
}

/// `e` reports that `v`, first defined at `first`, is defined again at
/// `second` in the function named `fname`.
pub open spec fn is_redefinition(e: VerifyError, fname: Seq<char>, v: int, first: DefSite, second: DefSite) -> bool {
    e matches VerifyError::ValueRedefined { function, value, first: a, second: b } && function@ == fname && value as int == v
        && a@ == site_text(first) && b@ == site_text(second)
}

/// Among the errors from `from` on, one reports `v` as defined at
/// `first` and again at `second`.
pub open spec fn reports_redefinition(errs: Seq<VerifyError>, from: int, fname: Seq<char>, v: int, first: DefSite, second: DefSite) -> bool {
    exists|j: int| 0 <= from <= j < errs.len() && is_redefinition(#[trigger] errs[j], fname, v, first, second)
}

/// Each definition of a value after its first one, at a site scanned
/// before `cur`, is reported among the errors from `from` on, with both
/// sites.
pub open spec fn redefinitions_before(f: Function, errs: Seq<VerifyError>, from: int, fname: Seq<char>, cur: DefSite) -> bool {
    forall|s1: DefSite, s2: DefSite, v: int|
        0 <= v <= u32::MAX && #[trigger] first_definition(f, s1, v) && #[trigger] site_defines(f, s2, v) && s1 != s2 && earlier(
            s2,
            cur,
        ) ==> reports_redefinition(errs, from, fname, v, s1, s2)
}

/// Each definition of a value after its first one is reported among the
/// errors from `from` on, with both sites.
pub open spec fn redefinitions_reported(f: Function, errs: Seq<VerifyError>, from: int, fname: Seq<char>) -> bool {
    forall|s1: DefSite, s2: DefSite, v: int|
        0 <= v <= u32::MAX && #[trigger] first_definition(f, s1, v) && #[trigger] site_defines(f, s2, v) && s1 != s2
            ==> reports_redefinition(errs, from, fname, v, s1, s2)
}

/// Appending errors, or counting them from an earlier position, keeps
/// the reports of redefinitions.
pub proof fn lemma_redefinitions_reported_kept(
    f: Function,
    a: Seq<VerifyError>,
    c: Seq<VerifyError>,
    from: int,
    wider: int,
    fname: Seq<char>,
)
    requires
        extends(a, c),
        0 <= wider <= from,
        redefinitions_reported(f, a, from, fname),
    ensures
        redefinitions_reported(f, c, wider, fname),
{
    assert forall|s1: DefSite, s2: DefSite, v: int|
        0 <= v <= u32::MAX && #[trigger] first_definition(f, s1, v) && #[trigger] site_defines(f, s2, v) && s1 != s2
        implies reports_redefinition(c, wider, fname, v, s1, s2) by {
        let j = choose|j: int| 0 <= from <= j < a.len() && is_redefinition(#[trigger] a[j], fname, v, s1, s2);
        assert(c[j] == a[j]);
    }
}

/// The table holds, for each value defined at a site scanned before
/// `cur`, the first site that defines it.
spec fn table_sound(f: Function, t: Seq<(u32, DefSite)>, cur: DefSite) -> bool {
    &&& forall|j: int| 0 <= j < t.len() ==> earlier((#[trigger] t[j]).1, cur)
    &&& forall|j: int| 0 <= j < t.len() ==> first_definition(f, (#[trigger] t[j]).1, t[j].0 as int)
    &&& forall|s: DefSite, v: int| 0 <= v <= u32::MAX && #[trigger] site_defines(f, s, v) && earlier(s, cur) ==> table_has(t, v)
}

/// Two distinct sites are ordered.
proof fn lemma_earlier_total(a: DefSite, b: DefSite)
    ensures
        a == b || earlier(a, b) || earlier(b, a),
{
}

/// A site defines at most one value in the `u32` range.
proof fn lemma_defines_one(f: Function, s: DefSite, v: int, w: int)
    requires
        0 <= v <= u32::MAX,
        0 <= w <= u32::MAX,
        site_defines(f, s, v),
        site_defines(f, s, w),
    ensures
        v == w,
{
}

/// Appending errors keeps the reports of redefinitions.
proof fn lemma_redefinitions_kept(f: Function, a: Seq<VerifyError>, c: Seq<VerifyError>, from: int, fname: Seq<char>, cur: DefSite)
    requires
        extends(a, c),
        redefinitions_before(f, a, from, fname, cur),
    ensures
        redefinitions_before(f, c, from, fname, cur),
{
    assert forall|s1: DefSite, s2: DefSite, v: int|
        0 <= v <= u32::MAX && #[trigger] first_definition(f, s1, v) && #[trigger] site_defines(f, s2, v) && s1 != s2 && earlier(
            s2,
            cur,
        ) implies reports_redefinition(c, from, fname, v, s1, s2) by {
        let j = choose|j: int| 0 <= from <= j < a.len() && is_redefinition(#[trigger] a[j], fname, v, s1, s2);
        assert(c[j] == a[j]);
    }
}

/// Moving the scan cursor over positions where no site defines anything
/// keeps the table sound and the reports.
proof fn lemma_cursor_moved(f: Function, t: Seq<(u32, DefSite)>, errs: Seq<VerifyError>, from: int, fname: Seq<char>, x: DefSite, y: DefSite)
    requires
        table_valid(f, t),
        table_sound(f, t, x),
        redefinitions_before(f, errs, from, fname, x),
        forall|s: DefSite, v: int| 0 <= v <= u32::MAX && #[trigger] site_defines(f, s, v) ==> (earlier(s, x) <==> earlier(s, y)),
    ensures
        table_sound(f, t, y),
        redefinitions_before(f, errs, from, fname, y),
{
    assert forall|j: int| 0 <= j < t.len() implies earlier((#[trigger] t[j]).1, y) by {
        assert(site_defines(f, t[j].1, t[j].0 as int));
    }
}

/// The scan moves from `x` to `y` past `x`, where `v` is defined and
/// recorded: the table stays sound, and a second definition is reported.
proof fn lemma_recorded(
    f: Function,
    t0: Seq<(u32, DefSite)>,
    t1: Seq<(u32, DefSite)>,
    e0: Seq<VerifyError>,
    e1: Seq<VerifyError>,
    from: int,
    fname: Seq<char>,
    x: DefSite,
    y: DefSite,
    v: int,
)
    requires
        0 <= v <= u32::MAX,
        0 <= from <= e0.len(),
        site_defines(f, x, v),
        table_valid(f, t0),
        table_sound(f, t0, x),
        redefinitions_before(f, e0, from, fname, x),
        extends(e0, e1),
        forall|s: DefSite| #[trigger] earlier(s, y) <==> (earlier(s, x) || s == x),
        table_has(t0, v) ==> t1 == t0 && e1.len() == e0.len() + 1 && exists|j: int|
            0 <= j < t0.len() && t0[j].0 == v && is_redefinition(e1.last(), fname, v, t0[j].1, x),
        !table_has(t0, v) ==> t1 == t0.push((v as u32, x)),
    ensures
        table_sound(f, t1, y),
        redefinitions_before(f, e1, from, fname, y),
{
    lemma_redefinitions_kept(f, e0, e1, from, fname, x);
    if !table_has(t0, v) {
        assert forall|j: int| 0 <= j < t1.len() implies first_definition(f, (#[trigger] t1[j]).1, t1[j].0 as int) by {
            if j == t0.len() {
                assert forall|u: DefSite| #[trigger] site_defines(f, u, v) implies !earlier(u, x) by {
                    if earlier(u, x) {
                        assert(table_has(t0, v));
                    }
                }
            } else {
                assert(t1[j] == t0[j]);
            }
        }
        assert forall|s: DefSite, w: int| 0 <= w <= u32::MAX && #[trigger] site_defines(f, s, w) && earlier(s, y) implies table_has(t1, w) by {
            if s == x {
                lemma_defines_one(f, x, v, w);
                assert(t1[t0.len() as int].0 == w);
            } else {
                let j = choose|j: int| 0 <= j < t0.len() && t0[j].0 == w;
                assert(t1[j] == t0[j]);
            }
        }
        assert forall|j: int| 0 <= j < t1.len() implies earlier((#[trigger] t1[j]).1, y) by {
            if j < t0.len() {
                assert(t1[j] == t0[j]);
            }
        }
    } else {
        assert forall|s: DefSite, w: int| 0 <= w <= u32::MAX && #[trigger] site_defines(f, s, w) && earlier(s, y) implies table_has(t1, w) by {
            if s == x {
                lemma_defines_one(f, x, v, w);
            }
        }
    }
    assert forall|s1: DefSite, s2: DefSite, w: int|
        0 <= w <= u32::MAX && #[trigger] first_definition(f, s1, w) && #[trigger] site_defines(f, s2, w) && s1 != s2 && earlier(
            s2,
            y,
        ) implies reports_redefinition(e1, from, fname, w, s1, s2) by {
        if s2 == x {
            lemma_defines_one(f, x, v, w);
            lemma_earlier_total(s1, x);
            assert(earlier(s1, x));
            assert(table_has(t0, v));
            let j = choose|j: int| 0 <= j < t0.len() && t0[j].0 == v && is_redefinition(e1.last(), fname, v, t0[j].1, x);
            let first = t0[j].1;
            assert(first_definition(f, first, v));
            lemma_earlier_total(s1, first);
            assert(s1 == first);
            assert(is_redefinition(e1[e1.len() - 1], fname, w, s1, s2));
        }
    }
}

/// Description of a definition site for messages.
fn describe(s: DefSite) -> (r: String)
    ensures
        r@ == site_text(s),
{
    match s {
        DefSite::FunctionParam(i) => {
            let n = dec_string(i as u128);
            cat2("function parameter ", n.as_str())
        },
        DefSite::BlockParam { block, index } => {
            let i = dec_string(index as u128);
            let b = dec_string(block as u128);
            cat4("parameter ", i.as_str(), " of bb", b.as_str())
        },
        DefSite::Inst { block, index } => {
            let i = dec_string(index as u128);
            let b = dec_string(block as u128);
            cat4("instruction ", i.as_str(), " of bb", b.as_str())
        },
    }
}

/// The first table entry for `value`.
fn lookup(table: &Vec<(u32, DefSite)>, value: u32) -> (r: Option<usize>)
    ensures
        r matches Some(j) ==> j < table@.len() && table@[j as int].0 == value,
        r is None ==> !table_has(table@, value as int),
{
    let mut j: usize = 0;
    while j < table.len()
        invariant
            j <= table@.len(),
            forall|k: int| 0 <= k < j ==> table@[k].0 != value,
        decreases table@.len() - j,
    {
        if table[j].0 == value {
            return Some(j);
        }
        j = j + 1;
    }
    None
}

/// Records that `site` defines `value`: a second definition is reported,
/// a first one is entered into the table.
fn record(
    f: &Function,
    name: &str,
    table: &mut Vec<(u32, DefSite)>,
    errors: &mut Vec<VerifyError>,
    value: u32,
    site: DefSite,
)
    requires
        site_defines(*f, site, value as int),
        table_valid(*f, old(table)@),
        forall|j: int| 0 <= j < old(table)@.len() ==> old(table)@[j].1 != site,
    ensures
        table_valid(*f, final(table)@),
        extends(old(errors)@, final(errors)@),
        table_has(old(table)@, value as int) ==> final(table)@ == old(table)@ && final(errors)@.len() == old(errors)@.len() + 1
            && !single_definitions(*f),
        !table_has(old(table)@, value as int) ==> final(table)@ == old(table)@.push((value, site)) && final(errors)@ == old(errors)@,
        table_has(old(table)@, value as int) ==> exists|j: int|
            0 <= j < old(table)@.len() && old(table)@[j].0 == value && is_redefinition(
                final(errors)@.last(),
                name@,
                value as int,
                old(table)@[j].1,
                site,
            ),
{
    match lookup(table, value) {
        Some(j) => {
            let first = table[j].1;
            proof {
                assert(site_defines(*f, first, value as int));
                assert(first != site);
            }
            errors.push(
                VerifyError::ValueRedefined {
                    function: name.to_owned(),
                    value,
                    first: describe(first),
                    second: describe(site),
                },
            );
            proof {
                assert(is_redefinition(errors@.last(), name@, value as int, table@[j as int].1, site));
            }
        },
        None => {
            table.push((value, site));
        },
    }
}

/// Checks single definition of every value of `f`, appending one error per
/// violation to `errors`.
pub fn check_definitions(f: &Function, name: &str, errors: &mut Vec<VerifyError>)
    ensures
        extends(old(errors)@, final(errors)@),
        final(errors)@.len() == old(errors)@.len() <==> definitions_ok(*f),
        redefinitions_reported(*f, final(errors)@, old(errors)@.len() as int, name@),
{
    let ghost start = errors@;
    let mut table: Vec<(u32, DefSite)> = Vec::new();
    let nvalues = f.values.len();
    let nparams = f.params.len();
    if nvalues < nparams {
        let a = dec_string(nvalues as u128);
        let b = dec_string(nparams as u128);
        errors.push(
            VerifyError::InvalidSignature {
                function: name.to_owned(),
                reason: concat_strs(
                    &["value arena holds ", a.as_str(), " entries but the function has ", b.as_str(), " parameters"],
                ),
            },
        );
    }
    let mut i: usize = 0;
    while i < nparams
        invariant
            nparams == f.params@.len(),
            nvalues == f.values@.len(),
            i <= nparams,
            extends(start, errors@),
            table_valid(*f, table@),
            forall|j: int| 0 <= j < table@.len() ==> param_site_before(#[trigger] table@[j].1, i as int),
            errors@.len() == start.len() ==> {
                &&& nvalues >= nparams
                &&& forall|k: int| 0 <= k < i ==> (#[trigger] f.params@[k]).value.0 == k
                &&& forall|s: DefSite, v: int| #[trigger] site_defines(*f, s, v) && param_site_before(s, i as int)
                    ==> exists|j: int| 0 <= j < table@.len() && table@[j] == (v as u32, s)
            },
            errors@.len() > start.len() ==> !definitions_ok(*f),
            table_sound(*f, table@, DefSite::FunctionParam(i)),
            redefinitions_before(*f, errors@, start.len() as int, name@, DefSite::FunctionParam(i)),
        decreases nparams - i,
    {
        let ghost e_iter = errors@;
        let p = f.params[i];
        if p.value.index() != i {
            let a = dec_string(i as u128);
            let b = dec_string(p.value.0 as u128);
            errors.push(
                VerifyError::InconsistentDefinition {
                    function: name.to_owned(),
                    value: p.value.0,
                    reason: concat_strs(
                        &["function parameter ", a.as_str(), " must be value v", a.as_str(), ", found v", b.as_str()],
                    ),
                },
            );
        }
        let ghost before_t = table@;
        let ghost before_e = errors@;
        record(f, name, &mut table, errors, p.value.0, DefSite::FunctionParam(i));
        proof {
            lemma_redefinitions_kept(*f, e_iter, before_e, start.len() as int, name@, DefSite::FunctionParam(i));
            assert forall|s: DefSite| #[trigger] earlier(s, DefSite::FunctionParam((i + 1) as usize)) <==> (earlier(
                s,
                DefSite::FunctionParam(i),
            ) || s == DefSite::FunctionParam(i)) by {}
            lemma_recorded(
                *f,
                before_t,
                table@,
                before_e,
                errors@,
                start.len() as int,
                name@,
                DefSite::FunctionParam(i),
                DefSite::FunctionParam((i + 1) as usize),
                p.value.0 as int,
            );
            if errors@.len() == start.len() {
                assert forall|s: DefSite, v: int| #[trigger] site_defines(*f, s, v) && param_site_before(s, i + 1)
                    implies exists|j: int| 0 <= j < table@.len() && table@[j] == (v as u32, s) by {
                    if s == DefSite::FunctionParam(i) {
                        assert(table@[table@.len() - 1] == (v as u32, s));
                    } else {
                        let j = choose|j: int| 0 <= j < before_t.len() && before_t[j] == (v as u32, s);
                        assert(table@[j] == (v as u32, s));
                    }
                }
            }
        }
        i = i + 1;
    }
    let nblocks = f.blocks.len();
    proof {
        lemma_cursor_moved(
            *f,
            table@,
            errors@,
            start.len() as int,
            name@,
            DefSite::FunctionParam(nparams),
            DefSite::BlockParam { block: 0, index: 0 },
        );
    }
    let mut b: usize = 0;
    while b < nblocks
        invariant
            nparams == f.params@.len(),
            nvalues == f.values@.len(),
            nblocks == f.blocks@.len(),
            b <= nblocks,
            extends(start, errors@),
            table_valid(*f, table@),
            forall|j: int| 0 <= j < table@.len() ==> scanned(#[trigger] table@[j].1, b as int, 0, 0),
            errors@.len() == start.len() ==> {
                &&& params_numbered(*f)
                &&& forall|s: DefSite, v: int| #[trigger] site_defines(*f, s, v) && scanned(s, b as int, 0, 0)
                    ==> exists|j: int| 0 <= j < table@.len() && table@[j] == (v as u32, s)
                &&& forall|x: int, k: int| 0 <= x < b && 0 <= k < f.blocks@[x].instructions@.len() ==> result_below(#[trigger] f.blocks@[x].instructions@[k], nvalues as int)
            },
            errors@.len() > start.len() ==> !definitions_ok(*f),
            table_sound(*f, table@, DefSite::BlockParam { block: b, index: 0 }),
            redefinitions_before(*f, errors@, start.len() as int, name@, DefSite::BlockParam { block: b, index: 0 }),
        decreases nblocks - b,
    {
        let np = f.blocks[b].params.len();
        let mut pi: usize = 0;
        while pi < np
            invariant
                nparams == f.params@.len(),
                nvalues == f.values@.len(),
                nblocks == f.blocks@.len(),
                b < nblocks,
                np == f.blocks@[b as int].params@.len(),
                pi <= np,
                extends(start, errors@),
                table_valid(*f, table@),
                forall|j: int| 0 <= j < table@.len() ==> scanned(#[trigger] table@[j].1, b as int, 0, pi as int),
                errors@.len() == start.len() ==> {
                    &&& params_numbered(*f)
                    &&& forall|s: DefSite, v: int| #[trigger] site_defines(*f, s, v) && scanned(s, b as int, 0, pi as int)
                        ==> exists|j: int| 0 <= j < table@.len() && table@[j] == (v as u32, s)
                    &&& forall|x: int, k: int| 0 <= x < b && 0 <= k < f.blocks@[x].instructions@.len() ==> result_below(#[trigger] f.blocks@[x].instructions@[k], nvalues as int)
                },
                errors@.len() > start.len() ==> !definitions_ok(*f),
                table_sound(*f, table@, DefSite::BlockParam { block: b, index: pi }),
                redefinitions_before(*f, errors@, start.len() as int, name@, DefSite::BlockParam { block: b, index: pi }),
            decreases np - pi,
        {
            let v = f.blocks[b].params[pi].value.0;
            let site = DefSite::BlockParam { block: b, index: pi };
            let ghost before_t = table@;
            let ghost before_e = errors@;
            record(f, name, &mut table, errors, v, site);
            proof {
                assert forall|s: DefSite| #[trigger] earlier(s, DefSite::BlockParam { block: b, index: (pi + 1) as usize }) <==> (
                earlier(s, site) || s == site) by {}
                lemma_recorded(
                    *f,
                    before_t,
                    table@,
                    before_e,
                    errors@,
                    start.len() as int,
                    name@,
                    site,
                    DefSite::BlockParam { block: b, index: (pi + 1) as usize },
                    v as int,
                );
                assert forall|j: int| 0 <= j < table@.len() implies scanned(#[trigger] table@[j].1, b as int, 0, pi + 1) by {
                    if j < before_t.len() {
                        assert(table@[j] == before_t[j]);
                    }
                }
                if errors@.len() == start.len() {
                    assert forall|s: DefSite, w: int| #[trigger] site_defines(*f, s, w) && scanned(s, b as int, 0, pi + 1)
                        implies exists|j: int| 0 <= j < table@.len() && table@[j] == (w as u32, s) by {
                        if s == site {
                            assert(table@[table@.len() - 1] == (w as u32, s));
                        } else {
                            let j = choose|j: int| 0 <= j < before_t.len() && before_t[j] == (w as u32, s);
                            assert(table@[j] == (w as u32, s));
                        }
                    }
                }
            }
            pi = pi + 1;
        }
        let ni = f.blocks[b].instructions.len();
        proof {
            lemma_cursor_moved(
                *f,
                table@,
                errors@,
                start.len() as int,
                name@,
                DefSite::BlockParam { block: b, index: np },
                DefSite::Inst { block: b, index: 0 },
            );
        }
        let mut ii: usize = 0;
        while ii < ni
            invariant
                nparams == f.params@.len(),
                nvalues == f.values@.len(),
                nblocks == f.blocks@.len(),
                b < nblocks,
                ni == f.blocks@[b as int].instructions@.len(),
                ii <= ni,
                extends(start, errors@),
                table_valid(*f, table@),
                forall|j: int| 0 <= j < table@.len() ==> scanned(#[trigger] table@[j].1, b as int, 1, ii as int),
                errors@.len() == start.len() ==> {
                    &&& params_numbered(*f)
                    &&& forall|s: DefSite, v: int| #[trigger] site_defines(*f, s, v) && scanned(s, b as int, 1, ii as int)
                        ==> exists|j: int| 0 <= j < table@.len() && table@[j] == (v as u32, s)
                    &&& forall|x: int, k: int| 0 <= x < b && 0 <= k < f.blocks@[x].instructions@.len() ==> result_below(#[trigger] f.blocks@[x].instructions@[k], nvalues as int)
                    &&& forall|k: int| 0 <= k < ii ==> result_below(#[trigger] f.blocks@[b as int].instructions@[k], nvalues as int)
                },
                errors@.len() > start.len() ==> !definitions_ok(*f),
                table_sound(*f, table@, DefSite::Inst { block: b, index: ii }),
                redefinitions_before(*f, errors@, start.len() as int, name@, DefSite::Inst { block: b, index: ii }),
            decreases ni - ii,
        {
            let ghost before_t = table@;
            let ghost e_iter = errors@;
            let ghost x = DefSite::Inst { block: b, index: ii };
            let ghost y = DefSite::Inst { block: b, index: (ii + 1) as usize };
            proof {
                assert forall|s: DefSite| #[trigger] earlier(s, y) <==> (earlier(s, x) || s == x) by {}
            }
            match f.blocks[b].instructions[ii].result {
                Some(result) => {
                    if result.index() >= nvalues {
                        errors.push(VerifyError::UnknownValue { function: name.to_owned(), value: result.0 });
                        proof {
                            lemma_redefinitions_kept(*f, e_iter, errors@, start.len() as int, name@, x);
                            lemma_cursor_moved(*f, table@, errors@, start.len() as int, name@, x, y);
                        }
                    } else {
                        let site = DefSite::Inst { block: b, index: ii };
                        record(f, name, &mut table, errors, result.0, site);
                        proof {
                            lemma_recorded(
                                *f,
                                before_t,
                                table@,
                                e_iter,
                                errors@,
                                start.len() as int,
                                name@,
                                x,
                                y,
                                result.0 as int,
                            );
                            if errors@.len() == start.len() {
                                assert forall|s: DefSite, w: int| #[trigger] site_defines(*f, s, w) && scanned(s, b as int, 1, ii + 1)
                                    implies exists|j: int| 0 <= j < table@.len() && table@[j] == (w as u32, s) by {
                                    if s == site {
                                        assert(table@[table@.len() - 1] == (w as u32, s));
                                    } else {
                                        let j = choose|j: int| 0 <= j < before_t.len() && before_t[j] == (w as u32, s);
                                        assert(table@[j] == (w as u32, s));
                                    }
                                }
                            }
                        }
                    }
                },
                None => {
                    proof {
                        lemma_cursor_moved(*f, table@, errors@, start.len() as int, name@, x, y);
                    }
                },
            }
            proof {
                assert forall|j: int| 0 <= j < table@.len() implies scanned(#[trigger] table@[j].1, b as int, 1, ii + 1) by {
                    if j < before_t.len() {
                        assert(table@[j] == before_t[j]);
                    }
                }
                if errors@.len() == start.len() {
                    assert forall|s: DefSite, w: int| #[trigger] site_defines(*f, s, w) && scanned(s, b as int, 1, ii + 1)
                        implies exists|j: int| 0 <= j < table@.len() && table@[j] == (w as u32, s) by {
                        if !scanned(s, b as int, 1, ii as int) {
                            assert(s == DefSite::Inst { block: b as usize, index: ii as usize });
                        }
                    }
                }
            }
            ii = ii + 1;
        }
        proof {
            assert forall|j: int| 0 <= j < table@.len() implies scanned(#[trigger] table@[j].1, b + 1, 0, 0) by {
                assert(scanned(table@[j].1, b as int, 1, ni as int));
            }
            lemma_cursor_moved(
                *f,
                table@,
                errors@,
                start.len() as int,
                name@,
                DefSite::Inst { block: b, index: ni },
                DefSite::BlockParam { block: (b + 1) as usize, index: 0 },
            );
        }
        b = b + 1;
    }
    proof {
        if errors@.len() == start.len() {
            assert forall|s1: DefSite, s2: DefSite, v: int| #[trigger] site_defines(*f, s1, v) && #[trigger] site_defines(*f, s2, v)
                implies s1 == s2 by {
                assert(scanned(s1, nblocks as int, 0, 0));
                assert(scanned(s2, nblocks as int, 0, 0));
                let j1 = choose|j: int| 0 <= j < table@.len() && table@[j] == (v as u32, s1);
                let j2 = choose|j: int| 0 <= j < table@.len() && table@[j] == (v as u32, s2);
                assert(j1 == j2);
            }
        }
    }
    let mut vi: usize = 0;
    while vi < nvalues
        invariant
            nparams == f.params@.len(),
            nvalues == f.values@.len(),
            nblocks == f.blocks@.len(),
            vi <= nvalues,
            extends(start, errors@),
            table_valid(*f, table@),
            errors@.len() == start.len() ==> {
                &&& params_numbered(*f)
                &&& results_in_arena(*f)
                &&& single_definitions(*f)
                &&& forall|s: DefSite, v: int| #[trigger] site_defines(*f, s, v) ==> exists|j: int|
                    0 <= j < table@.len() && table@[j] == (v as u32, s)
                &&& forall|k: int| 0 <= k < vi ==> #[trigger] kind_consistent(*f, k)
            },
            errors@.len() > start.len() ==> !definitions_ok(*f),
            redefinitions_before(*f, errors@, start.len() as int, name@, DefSite::BlockParam { block: nblocks, index: 0 }),
        decreases nvalues - vi,
    {
        let ghost e_iter = errors@;
        let d = f.values[vi];
        let vid: u32 = #[verifier::truncate] (vi as u32);
        let ghost clean = errors@.len() == start.len();
        match d.kind {
            ValueKind::Reserved => {
                errors.push(VerifyError::UndefinedValue { function: name.to_owned(), value: vid });
            },
            ValueKind::Param { index } => {
                if index as usize >= nparams {
                    let a = dec_string(index as u128);
                    let c = dec_string(nparams as u128);
                    errors.push(
                        VerifyError::InconsistentDefinition {
                            function: name.to_owned(),
                            value: vid,
                            reason: concat_strs(
                                &["claims to be parameter ", a.as_str(), " but the function has ", c.as_str(), " parameters"],
                            ),
                        },
                    );
                } else {
                    let registered = match lookup(&table, vid) {
                        Some(j) => match table[j].1 {
                            DefSite::FunctionParam(k) => k == index as usize,
                            _ => false,
                        },
                        None => false,
                    };
                    proof {
                        if clean && kind_consistent(*f, vi as int) {
                            let site = DefSite::FunctionParam(index as usize);
                            assert(site_defines(*f, site, vid as int));
                            let j0 = choose|j: int| 0 <= j < table@.len() && table@[j] == (vid, site);
                            assert(table_has(table@, vid as int));
                        }
                    }
                    if !registered {
                        errors.push(
                            VerifyError::InconsistentDefinition {
                                function: name.to_owned(),
                                value: vid,
                                reason: concat_strs(&["claims to be a function parameter but is not registered as one"]),
                            },
                        );
                    }
                    let declared = f.params[index as usize];
                    if declared.value.0 != vid || declared.ty.0 != d.ty.0 {
                        errors.push(
                            VerifyError::InconsistentDefinition {
                                function: name.to_owned(),
                                value: vid,
                                reason: concat_strs(&["parameter type disagrees with the declared signature"]),
                            },
                        );
                    }
                }
            },
            ValueKind::BlockParam { block, index } => {
                let bi = block.index();
                let matches = bi < nblocks && (index as usize) < f.blocks[bi].params.len()
                    && f.blocks[bi].params[index as usize].value.0 == vid;
                if !matches {
                    let a = dec_string(index as u128);
                    let c = block.to_string();
                    errors.push(
                        VerifyError::InconsistentDefinition {
                            function: name.to_owned(),
                            value: vid,
                            reason: concat_strs(
                                &["claims to be parameter ", a.as_str(), " of bb", c.as_str(), " but that slot holds another value"],
                            ),
                        },
                    );
                } else if f.blocks[bi].params[index as usize].ty.0 != d.ty.0 {
                    errors.push(
                        VerifyError::InconsistentDefinition {
                            function: name.to_owned(),
                            value: vid,
                            reason: concat_strs(&["block parameter type disagrees with its declaration"]),
                        },
                    );
                }
            },
            ValueKind::Inst { block, index } => {
                let bi = block.index();
                let matches = bi < nblocks && (index as usize) < f.blocks[bi].instructions.len() && match f.blocks[bi].instructions[index as usize].result {
                    Some(r) => r.0 == vid,
                    None => false,
                };
                if !matches {
                    let a = dec_string(index as u128);
                    let c = block.to_string();
                    errors.push(
                        VerifyError::InconsistentDefinition {
                            function: name.to_owned(),
                            value: vid,
                            reason: concat_strs(
                                &["claims to be the result of instruction ", a.as_str(), " of bb", c.as_str(), " but that instruction produces another value"],
                            ),
                        },
                    );
                }
            },
        }
        proof {
            if clean && errors@.len() > start.len() {
                assert(!kind_consistent(*f, vi as int));
            }
            assert(extends(e_iter, errors@));
            lemma_redefinitions_kept(*f, e_iter, errors@, start.len() as int, name@, DefSite::BlockParam { block: nblocks, index: 0 });
        }
        vi = vi + 1;
    }
    proof {
        assert forall|s1: DefSite, s2: DefSite, v: int|
            0 <= v <= u32::MAX && #[trigger] first_definition(*f, s1, v) && #[trigger] site_defines(*f, s2, v) && s1 != s2
            implies reports_redefinition(errors@, start.len() as int, name@, v, s1, s2) by {
            assert(earlier(s2, DefSite::BlockParam { block: nblocks, index: 0 }));
        }
    }
}

} // verus!
