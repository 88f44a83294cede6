//! Parser for the `.arn` textual format.
//!
//! The parser never panics on malformed input; every failure is a
//! structured [`ParseError`] with a line number. Parsing is single-pass
//! into a raw tree, then a two-phase body resolution so that value
//! definitions may appear in any textual order (the printer emits blocks
//! in reverse post-order, which can reorder definitions).
//!
//! Float literals are converted by the caller-supplied `float_bits`
//! function, which maps the literal text and whether the target is `f32`
//! to the IEEE bit pattern (or `None` for an invalid literal).

use vstd::prelude::*;

use crate::block::{term_operands, term_targets, BasicBlock, BlockParam, Terminator};
use crate::builder::{is_reserved_block_name, is_valid_ident};
use crate::constant::{constant_interned, constant_present, spec_mask, ConstantData, ConstantStore};
use crate::error::{constant_fits_type, spec_constant_fits, ParseError};
use crate::function::{Abi, Function, Linkage};
use crate::id::{BlockId, ConstantId, FunctionId, SymbolId, TypeId, ValueId};
use crate::instruction::{inst_operands, Instruction, InstructionKind};
use crate::module::{
    block_names_distinct, block_refs_defined, function_block_names_distinct, function_names_distinct,
    function_refs_defined, function_value_names_distinct, inst_refs_defined, lemma_block_names_distinct_extend,
    lemma_value_names_distinct_extend, is_fresh_module, refs_defined, term_refs_defined, value_names_distinct, ArnVersion, Module,
};
use crate::symbol::symbols_extend;
use crate::span::Span;
use crate::text::printer::{binary_parts, typed_unary_parts};
use crate::text::lexer::{
    big_uints, digits_nat, lemma_digits_nat_prefix, lex, lexeme_of, lexemes, spec_lex, Lexeme, Token, TokenKind,
};
use vstd::string::StringSliceAdditionalSpecFns;
use crate::textbuf::{
    bytes_all_digits, cat3, concat_strs, dec_string, into_string, join, lemma_ascii_utf8, push_signed, signed_dec, spec_is_ident, str_eq,
};
use vstd::utf8::{decode_utf8, encode_utf8};
use crate::types::{first_type_index, interned, same_type, type_present, type_text, type_to_string, TypeData, TypeStore};
use crate::value::{ValueData, ValueKind};

verus! {

/// An annotated operand: `type %handle`.
struct RawOperand {
    ty: TypeId,
    handle: String,
    line: u32,
}

/// A binary operation or comparison opcode.
#[derive(Clone, Copy)]
pub enum BinOp {
    Add,
    Sub,
    Mul,
    Div,
    Rem,
    And,
    Or,
    Xor,
    Shl,
    Shr,
    Eq,
    Ne,
    Lt,
    Le,
    Gt,
    Ge,
}

/// A conversion opcode.
#[derive(Clone, Copy)]
pub enum ConvOp {
    Ext,
    Trunc,
    IntToFloat,
    FloatToInt,
    PtrCast,
}

enum RawInstKind {
    Const(ConstantId),
    Binary { op: BinOp, lhs: RawOperand, rhs: RawOperand },
    Alloca { pointee: TypeId },
    Load { ty: TypeId, pointer: RawOperand },
    Store { pointer: RawOperand, value: RawOperand },
    PtrOffset { pointer: RawOperand, offset: RawOperand },
    Conv { op: ConvOp, to: TypeId, value: RawOperand },
    Call { callee: String, args: Vec<RawOperand>, line: u32 },
    Construct { ty: TypeId, fields: Vec<RawOperand> },
    Extract { aggregate: RawOperand, index: u32 },
    Insert { aggregate: RawOperand, index: u32, value: RawOperand },
}

struct RawInst {
    kind: RawInstKind,
    result: Option<(String, TypeId, u32)>,
    line: u32,
}

enum RawTerm {
    Jump { target: String, args: Vec<RawOperand> },
    Branch {
        condition: RawOperand,
        then_target: String,
        then_args: Vec<RawOperand>,
        else_target: String,
        else_args: Vec<RawOperand>,
    },
    Return { value: Option<RawOperand> },
    Unreachable,
}

struct RawBlock {
    label: String,
    params: Vec<(String, TypeId, u32)>,
    insts: Vec<RawInst>,
    terminator: Option<RawTerm>,
    line: u32,
}

struct RawParam {
    handle: Option<String>,
    ty: TypeId,
}

struct RawFunction {
    name: String,
    linkage: Linkage,
    abi: Abi,
    params: Vec<RawParam>,
    result: TypeId,
    variadic: bool,
    blocks: Vec<RawBlock>,
    line: u32,
}

struct Parser {
    tokens: Vec<Token>,
    pos: usize,
    module: Module,
    functions: Vec<RawFunction>,
    function_names: Vec<String>,
}

/// Decimal text of a signed number, as characters.
spec fn signed_chars(v: int) -> Seq<char> {
    decode_utf8(signed_dec(v))
}

/// The text of a punctuation character (`?` for one the grammar lacks).
spec fn punct_text(c: char) -> Seq<char> {
    if c == '(' {
        "("@
    } else if c == ')' {
        ")"@
    } else if c == '<' {
        "<"@
    } else if c == '>' {
        ">"@
    } else if c == ',' {
        ","@
    } else if c == '=' {
        "="@
    } else {
        "?"@
    }
}

/// How a token is named in a message.
spec fn describe_text(kind: TokenKind) -> Seq<char> {
    match kind {
        TokenKind::Marker(m) => "`::ASTRONOMY::"@ + m@ + "`"@,
        TokenKind::ValueRef(v) => "`%"@ + v@ + "`"@,
        TokenKind::FuncRef(v) => "`@"@ + v@ + "`"@,
        TokenKind::Ident(v) => "`"@ + v@ + "`"@,
        TokenKind::Int(v) => "`"@ + signed_chars(v as int) + "`"@,
        TokenKind::UInt(v) => "`"@ + signed_chars(v as int) + "`"@,
        TokenKind::FloatText(v) => "`"@ + v@ + "`"@,
        TokenKind::Str(_) => "a string literal"@,
        TokenKind::Punct(c) => "`"@ + punct_text(c) + "`"@,
        TokenKind::Arrow => "`->`"@,
        TokenKind::Ellipsis => "`...`"@,
    }
}

/// Text of a token for messages.
fn describe(kind: &TokenKind) -> (r: String)
    ensures
        r@ == describe_text(*kind),
{
    match kind {
        TokenKind::Marker(m) => {
            let parts = ["`::ASTRONOMY::", m.as_str(), "`"];
            join3(&parts)
        },
        TokenKind::ValueRef(v) => {
            let parts = ["`%", v.as_str(), "`"];
            join3(&parts)
        },
        TokenKind::FuncRef(v) => {
            let parts = ["`@", v.as_str(), "`"];
            join3(&parts)
        },
        TokenKind::Ident(v) => {
            let parts = ["`", v.as_str(), "`"];
            join3(&parts)
        },
        TokenKind::Int(v) => {
            let t = signed_text(*v);
            let parts = ["`", t.as_str(), "`"];
            join3(&parts)
        },
        TokenKind::UInt(v) => {
            let t = dec_string(*v);
            let parts = ["`", t.as_str(), "`"];
            join3(&parts)
        },
        TokenKind::FloatText(v) => {
            let parts = ["`", v.as_str(), "`"];
            join3(&parts)
        },
        TokenKind::Str(_) => "a string literal".to_owned(),
        TokenKind::Punct(c) => {
            let parts = ["`", punct_str(*c), "`"];
            join3(&parts)
        },
        TokenKind::Arrow => "`->`".to_owned(),
        TokenKind::Ellipsis => "`...`".to_owned(),
    }
}

/// Joins three pieces.
fn join3(parts: &[&str; 3]) -> (r: String)
    ensures
        r@ == parts[0]@ + parts[1]@ + parts[2]@,
{
    let sl = parts.as_slice();
    let r = join(sl);
    proof {
        let s = sl@;
        assert(s.len() == 3);
        assert(s[0] == parts[0] && s[1] == parts[1] && s[2] == parts[2]);
        reveal_with_fuel(crate::textbuf::concat_chars, 4);
        assert(s.drop_last().drop_last().drop_last() =~= Seq::<&str>::empty());
        assert(s.drop_last().drop_last().last() == s[0]);
        assert(s.drop_last().last() == s[1]);
        assert(Seq::<char>::empty() + parts[0]@ =~= parts[0]@);
    }
    r
}

fn punct_str(c: char) -> (r: &'static str)
    ensures
        r@ == punct_text(c),
{
    if c == '(' {
        "("
    } else if c == ')' {
        ")"
    } else if c == '<' {
        "<"
    } else if c == '>' {
        ">"
    } else if c == ',' {
        ","
    } else if c == '=' {
        "="
    } else {
        "?"
    }
}

fn signed_text(v: i128) -> (r: String)
    ensures
        r@ == signed_chars(v as int),
{
    let mut out: Vec<u8> = Vec::new();
    proof {
        lemma_ascii_utf8(Seq::<u8>::empty());
    }
    push_signed(&mut out, v);
    let r = into_string(out);
    proof {
        vstd::utf8::encode_utf8_decode_utf8(r@);
    }
    r
}

/// The index a constant reference `cN` names: `c` and at least one
/// decimal digit, with a value that fits in `u32`.
spec fn cref_value(b: Seq<u8>) -> Option<u32> {
    if b.len() >= 2 && b[0] == 99u8 && (forall|k: int| 1 <= k < b.len() ==> 48 <= #[trigger] b[k] <= 57)
        && digits_nat(b.subrange(1, b.len() as int)) <= u32::MAX {
        Some(digits_nat(b.subrange(1, b.len() as int)) as u32)
    } else {
        None
    }
}

/// The type element `i` of an aggregate of type `ty` must have: the
/// element type of an array, the field type of a struct (`void` past its
/// fields or for another type).
spec fn element_type(m: Module, ty: TypeId, is_array: bool, element: TypeId, i: int) -> TypeId {
    if is_array {
        element
    } else {
        match m.types.spec_get(ty) {
            Some(TypeData::Struct { fields }) => if 0 <= i < fields@.len() {
                fields@[i]
            } else {
                TypeId(0)
            },
            _ => TypeId(0),
        }
    }
}

/// Constant `cid`, as element `i`, fits the type the aggregate asks for.
spec fn element_fits(m: Module, ty: TypeId, is_array: bool, element: TypeId, i: int, cid: ConstantId) -> bool {
    match m.constants.spec_get(cid) {
        Some(data) => spec_constant_fits(m.types.types@, *data, element_type(m, ty, is_array, element, i)),
        None => false,
    }
}

/// The integer constant of type `ty` that the literal token `k` writes:
/// an `i128` literal masked to the type's width, or a literal above
/// `i128::MAX` for a 128-bit unsigned type.
spec fn int_literal(types: Seq<TypeData>, ty: TypeId, k: Option<TokenKind>) -> Option<ConstantData> {
    if (ty.0 as int) < types.len() && types[ty.0 as int] is Int {
        let width = types[ty.0 as int]->Int_bits;
        let signed = types[ty.0 as int]->Int_signed;
        match k {
            Some(TokenKind::Int(v)) => Some(ConstantData::Int { ty, width, bits: (v as u128) & spec_mask(width) }),
            Some(TokenKind::UInt(v)) => if !signed && width >= 128 {
                Some(ConstantData::Int { ty, width, bits: v & spec_mask(width) })
            } else {
                None
            },
            _ => None,
        }
    } else {
        None
    }
}

/// The text of the float literal token `k`: float text, `0.0` for the
/// integer `0`, or a special form `nan`, `NaN` or `inf`.
spec fn float_literal_text(k: Option<TokenKind>) -> Option<Seq<char>> {
    match k {
        Some(TokenKind::FloatText(t)) => Some(t@),
        Some(TokenKind::Int(v)) => if v == 0 {
            Some("0.0"@)
        } else {
            None
        },
        Some(TokenKind::Ident(t)) => if t@ == "nan"@ || t@ == "NaN"@ || t@ == "inf"@ {
            Some(t@)
        } else {
            None
        },
        _ => None,
    }
}

/// The `f32` type.
spec fn is_f32_id(ty: TypeId) -> bool {
    ty == TypeId(12)
}

/// The module end directive is spelled unlike the other module
/// directives.
proof fn lemma_end_name()
    ensures
        "MODULE_END"@ != "MODULE_NAME"@,
        "MODULE_END"@ != "CONSTANTS_START"@,
        "MODULE_END"@ != "FUNCTION_START"@,
        "MODULE_END"@ != "MODULE_VERSION"@,
{
    reveal_strlit("MODULE_END");
    reveal_strlit("MODULE_NAME");
    reveal_strlit("CONSTANTS_START");
    reveal_strlit("FUNCTION_START");
    reveal_strlit("MODULE_VERSION");
    assert("MODULE_END"@[7] != "MODULE_NAME"@[7]);
    assert("MODULE_END"@[0] != "CONSTANTS_START"@[0]);
    assert("MODULE_END"@[0] != "FUNCTION_START"@[0]);
    assert("MODULE_END"@[7] != "MODULE_VERSION"@[7]);
}

/// The token at `p` is the punctuation `c`.
spec fn punct_at(toks: Seq<Token>, p: int, c: char) -> bool {
    0 <= p < toks.len() && toks[p].kind == TokenKind::Punct(c)
}

/// The token at `p` is `k`.
spec fn kind_at(toks: Seq<Token>, p: int, k: TokenKind) -> bool {
    0 <= p < toks.len() && toks[p].kind == k
}

/// How many tokens a type at `q` takes when it is a built-in type or a
/// pointer to one.
spec fn simple_type_len(toks: Seq<Token>, q: int) -> Option<int> {
    if word_at(toks, q) matches Some(w) && prim_type(w) is Some {
        Some(1)
    } else if word_at(toks, q) == Some("ptr"@) && punct_at(toks, q + 1, '<') && (word_at(toks, q + 2) matches Some(w)
        && prim_type(w) is Some) && punct_at(toks, q + 3, '>') {
        Some(4)
    } else {
        None
    }
}

/// A parameter list from `q` on, after its opening bracket, whose types
/// are built-in types or pointers to them: the position after its closing
/// bracket, and whether it ends with `...`.
spec fn simple_params(toks: Seq<Token>, q: int) -> Option<(int, bool)>
    decreases toks.len() - q,
{
    if q < 0 || q >= toks.len() {
        None
    } else if punct_at(toks, q, ')') {
        Some((q + 1, false))
    } else if kind_at(toks, q, TokenKind::Ellipsis) && punct_at(toks, q + 1, ')') {
        Some((q + 2, true))
    } else {
        match simple_type_len(toks, q) {
            Some(l) => {
                let h = if 0 <= q + l < toks.len() && toks[q + l].kind is ValueRef {
                    q + l + 1
                } else {
                    q + l
                };
                if punct_at(toks, h, ',') {
                    simple_params(toks, h + 1)
                } else if punct_at(toks, h, ')') {
                    Some((h + 1, false))
                } else {
                    None
                }
            },
            None => None,
        }
    }
}

/// The parameters of a list as [`simple_params`] reads it: each one's
/// handle, if written, and the position of its type.
spec fn simple_param_items(toks: Seq<Token>, q: int) -> Seq<(Option<Seq<char>>, int)>
    decreases toks.len() - q,
{
    if q < 0 || q >= toks.len() || punct_at(toks, q, ')') || kind_at(toks, q, TokenKind::Ellipsis) {
        Seq::empty()
    } else {
        match simple_type_len(toks, q) {
            Some(l) => {
                let handle = if 0 <= q + l < toks.len() {
                    match toks[q + l].kind {
                        TokenKind::ValueRef(v) => Some(v@),
                        _ => None,
                    }
                } else {
                    None
                };
                let h = if handle is Some { q + l + 1 } else { q + l };
                if punct_at(toks, h, ',') {
                    seq![(handle, q)] + simple_param_items(toks, h + 1)
                } else {
                    seq![(handle, q)]
                }
            },
            None => Seq::empty(),
        }
    }
}

/// A store that is unchanged or gained one entry keeps its entries.
proof fn lemma_types_grow(a: Seq<TypeData>, b: Seq<TypeData>)
    requires
        b == a || (b.len() == a.len() + 1 && b.drop_last() == a),
    ensures
        a.len() <= b.len(),
        forall|i: int| 0 <= i < a.len() ==> #[trigger] b[i] == a[i],
{
    if b != a && b.drop_last() == a {
        assert forall|i: int| 0 <= i < a.len() implies #[trigger] b[i] == a[i] by {
            assert(b.drop_last()[i] == b[i]);
        }
    }
}

/// The handle a parsed parameter carries.
spec fn handle_of(p: RawParam) -> Option<Seq<char>> {
    match p.handle {
        Some(h) => Some(h@),
        None => None,
    }
}

/// The parsed parameters are the listed ones: the same handles, and the
/// built-in type where one is written.
spec fn params_fit(toks: Seq<Token>, params: Seq<RawParam>, items: Seq<(Option<Seq<char>>, int)>) -> bool {
    &&& params.len() == items.len()
    &&& forall|k: int| 0 <= k < params.len() ==> handle_of(#[trigger] params[k]) == items[k].0 && ((word_at(toks, items[k].1) matches Some(
        w,
    ) && prim_type(w) is Some) ==> params[k].ty == prim_type(word_at(toks, items[k].1)->0)->0)
}

/// Type `id` names `data` in the store `types`.
spec fn type_is(types: Seq<TypeData>, id: TypeId, data: TypeData) -> bool {
    (id.0 as int) < types.len() && types[id.0 as int] == data
}

/// The pointer type `ptr<w>` for the built-in type named `w`.
spec fn ptr_to(w: Seq<char>) -> TypeData {
    TypeData::Pointer { pointee: prim_type(w)->0, address_space: 0 }
}

/// Every listed parameter written `ptr<t>`, for a built-in `t`, has that
/// pointer type in `types` (when the store's ids are exact).
spec fn ptr_params_fit(toks: Seq<Token>, types: Seq<TypeData>, params: Seq<RawParam>, items: Seq<(Option<Seq<char>>, int)>) -> bool {
    types.len() <= u32::MAX ==> forall|k: int|
        0 <= k < params.len() && k < items.len() && simple_type_len(toks, items[k].1) == Some(4int) ==> type_is(
            types,
            (#[trigger] params[k]).ty,
            ptr_to(word_at(toks, items[k].1 + 2)->0),
        )
}

/// `new` keeps the entries of `old`.
spec fn store_grown(old: Seq<TypeData>, new: Seq<TypeData>) -> bool {
    &&& old.len() <= new.len()
    &&& forall|i: int| 0 <= i < old.len() ==> #[trigger] new[i] == old[i]
}

/// A store that kept its entries keeps the parameters' pointer types.
proof fn lemma_ptr_params_grow(
    toks: Seq<Token>,
    a: Seq<TypeData>,
    b: Seq<TypeData>,
    params: Seq<RawParam>,
    items: Seq<(Option<Seq<char>>, int)>,
)
    requires
        ptr_params_fit(toks, a, params, items),
        store_grown(a, b),
    ensures
        ptr_params_fit(toks, b, params, items),
{
    if b.len() <= u32::MAX {
        assert forall|k: int|
            0 <= k < params.len() && k < items.len() && simple_type_len(toks, items[k].1) == Some(4int) implies type_is(
            b,
            (#[trigger] params[k]).ty,
            ptr_to(word_at(toks, items[k].1 + 2)->0),
        ) by {
            assert(type_is(a, params[k].ty, ptr_to(word_at(toks, items[k].1 + 2)->0)));
            assert(b[params[k].ty.0 as int] == a[params[k].ty.0 as int]);
        }
    }
}

/// Interning a pointer type names it, when the ids are exact.
proof fn lemma_interned_pointer(old: Seq<TypeData>, data: TypeData, new: Seq<TypeData>, id: TypeId)
    requires
        interned(old, data, new, id),
        data is Pointer,
        new.len() <= u32::MAX,
    ensures
        type_is(new, id, data),
        store_grown(old, new),
{
    if type_present(old, data) {
        let j = choose|j: int| first_type_index(old, data, j) && id.0 == j as u32;
        assert(j as u32 == j);
        assert(same_type(new[j], data));
    } else {
        assert(new[old.len() as int] == data);
    }
}

/// The pool after interning `d`: unchanged when an equal constant is
/// already there, else with `d` appended.
spec fn pool_with(pool: Seq<ConstantData>, d: ConstantData) -> Seq<ConstantData> {
    if constant_present(pool, d) {
        pool
    } else {
        pool.push(d)
    }
}

/// A constants section from `q` on made of integer constants of built-in
/// types, defined in index order, up to its end marker: the pool it
/// leaves, starting from `pool`, and the position after the end marker.
spec fn int_section(types: Seq<TypeData>, toks: Seq<Token>, q: int, pool: Seq<ConstantData>) -> Option<(Seq<ConstantData>, int)>
    decreases toks.len() - q,
{
    if q < 0 || q >= toks.len() {
        None
    } else if marker_at(toks, q, "CONSTANTS_END"@) {
        Some((pool, q + 1))
    } else if marker_at(toks, q, "CONSTANT_INT"@) && (cref_at(toks, q + 1) matches Some(i) && i as int == pool.len()) && (word_at(
        toks,
        q + 2,
    ) matches Some(w) && prim_type(w) is Some) && q + 3 < toks.len() && int_literal(
        types,
        prim_type(word_at(toks, q + 2)->0)->0,
        Some(toks[q + 3].kind),
    ) is Some {
        int_section(
            types,
            toks,
            q + 4,
            pool_with(pool, int_literal(types, prim_type(word_at(toks, q + 2)->0)->0, Some(toks[q + 3].kind))->0),
        )
    } else {
        None
    }
}

/// The constant directives are distinct from the end of the section.
proof fn lemma_constant_directive_words()
    ensures
        "CONSTANTS_END"@ != "CONSTANT_INT"@,
        "CONSTANTS_END"@ != "CONSTANT_FLOAT"@,
        "CONSTANTS_END"@ != "CONSTANT_NULL"@,
        "CONSTANTS_END"@ != "CONSTANT_STRING"@,
        "CONSTANTS_END"@ != "CONSTANT_AGGREGATE"@,
{
    reveal_strlit("CONSTANTS_END");
    reveal_strlit("CONSTANT_INT");
    reveal_strlit("CONSTANT_FLOAT");
    reveal_strlit("CONSTANT_NULL");
    reveal_strlit("CONSTANT_STRING");
    reveal_strlit("CONSTANT_AGGREGATE");
    assert("CONSTANTS_END"@[8] != "CONSTANT_INT"@[8]);
    assert("CONSTANTS_END"@[8] != "CONSTANT_FLOAT"@[8]);
    assert("CONSTANTS_END"@[8] != "CONSTANT_NULL"@[8]);
    assert("CONSTANTS_END"@[8] != "CONSTANT_STRING"@[8]);
    assert("CONSTANTS_END"@[8] != "CONSTANT_AGGREGATE"@[8]);
}

/// A `RETURN` line at `q` of a built-in type: the position after it. It
/// takes a value handle unless the type is `void`.
spec fn return_line_end(toks: Seq<Token>, q: int) -> Option<int> {
    if marker_at(toks, q, "RETURN"@) && (word_at(toks, q + 1) matches Some(w) && prim_type(w) is Some) {
        if word_at(toks, q + 1) == Some("void"@) {
            Some(q + 2)
        } else if 0 <= q + 2 < toks.len() && toks[q + 2].kind is ValueRef {
            Some(q + 3)
        } else {
            None
        }
    } else {
        None
    }
}

/// The token at `p` opens an instruction: a directive other than the end
/// of a block, or a value handle.
spec fn item_start_at(toks: Seq<Token>, p: int) -> bool {
    0 <= p < toks.len() && ((toks[p].kind matches TokenKind::Marker(m) && m@ != "BLOCK_END"@) || toks[p].kind is ValueRef)
}

/// A block at `p` whose header has no parameters, whose first line is a
/// `RETURN` as [`return_line_end`] reads it, and which goes on with an
/// instruction.
spec fn return_first_then_more(toks: Seq<Token>, p: int) -> bool {
    &&& word_at(toks, p + 1) is Some
    &&& !punct_at(toks, p + 2, '(')
    &&& return_line_end(toks, p + 2) matches Some(e) && item_start_at(toks, e)
}

/// A binary opcode is none of the other opcodes.
proof fn lemma_bin_op_names(m: Seq<char>)
    requires
        spec_bin_op(m) is Some,
    ensures
        m != "STORE"@,
        m != "CALL"@,
        m != "CONST"@,
        m != "ALLOCA"@,
        m != "LOAD"@,
        m != "PTR_OFFSET"@,
        m != "EXT"@,
        m != "TRUNC"@,
        m != "INT_TO_FLOAT"@,
        m != "FLOAT_TO_INT"@,
        m != "PTR_CAST"@,
        m != "CONSTRUCT"@,
        m != "EXTRACT"@,
        m != "INSERT"@,
{
    reveal_strlit("ADD");
    reveal_strlit("SUB");
    reveal_strlit("MUL");
    reveal_strlit("DIV");
    reveal_strlit("REM");
    reveal_strlit("AND");
    reveal_strlit("OR");
    reveal_strlit("XOR");
    reveal_strlit("SHL");
    reveal_strlit("SHR");
    reveal_strlit("EQ");
    reveal_strlit("NE");
    reveal_strlit("LT");
    reveal_strlit("LE");
    reveal_strlit("GT");
    reveal_strlit("GE");
    assert(m.len() <= 3 && (m.len() == 3 ==> m[0] != 'E'));
    reveal_strlit("STORE");
    assert("STORE"@.len() == 5);
    reveal_strlit("CALL");
    assert("CALL"@.len() == 4);
    reveal_strlit("CONST");
    assert("CONST"@.len() == 5);
    reveal_strlit("ALLOCA");
    assert("ALLOCA"@.len() == 6);
    reveal_strlit("LOAD");
    assert("LOAD"@.len() == 4);
    reveal_strlit("PTR_OFFSET");
    assert("PTR_OFFSET"@.len() == 10);
    reveal_strlit("EXT");
    assert("EXT"@[0] == 'E');
    reveal_strlit("TRUNC");
    assert("TRUNC"@.len() == 5);
    reveal_strlit("INT_TO_FLOAT");
    assert("INT_TO_FLOAT"@.len() == 12);
    reveal_strlit("FLOAT_TO_INT");
    assert("FLOAT_TO_INT"@.len() == 12);
    reveal_strlit("PTR_CAST");
    assert("PTR_CAST"@.len() == 8);
    reveal_strlit("CONSTRUCT");
    assert("CONSTRUCT"@.len() == 9);
    reveal_strlit("EXTRACT");
    assert("EXTRACT"@.len() == 7);
    reveal_strlit("INSERT");
    assert("INSERT"@.len() == 6);
}

/// A binary instruction line at `p` with built-in types:
/// `%h = ::ASTRONOMY::OP t t1 %a, t2 %b`.
spec fn binary_line(toks: Seq<Token>, p: int) -> bool {
    &&& 0 <= p && p + 8 < toks.len()
    &&& toks[p].kind is ValueRef
    &&& punct_at(toks, p + 1, '=')
    &&& toks[p + 2].kind matches TokenKind::Marker(m) && spec_bin_op(m@) is Some
    &&& word_at(toks, p + 3) matches Some(w) && prim_type(w) is Some
    &&& word_at(toks, p + 4) matches Some(w) && prim_type(w) is Some
    &&& toks[p + 5].kind is ValueRef
    &&& punct_at(toks, p + 6, ',')
    &&& word_at(toks, p + 7) matches Some(w) && prim_type(w) is Some
    &&& toks[p + 8].kind is ValueRef
}

/// The handle of the value reference at `p`.
spec fn handle_at(toks: Seq<Token>, p: int) -> Seq<char> {
    match toks[p].kind {
        TokenKind::ValueRef(v) => v@,
        _ => Seq::empty(),
    }
}

/// The operand written at `p` as a built-in type and a handle.
spec fn operand_fits(toks: Seq<Token>, p: int, op: RawOperand) -> bool {
    &&& op.ty == prim_type(word_at(toks, p)->0)->0
    &&& op.handle@ == handle_at(toks, p + 1)
    &&& op.line == toks[p + 1].line
}

/// The instruction read from a binary line at `p`.
spec fn binary_inst_fits(toks: Seq<Token>, p: int, inst: RawInst) -> bool {
    &&& inst.line == toks[p].line
    &&& inst.result matches Some((h, t, l)) && h@ == handle_at(toks, p) && t == prim_type(word_at(toks, p + 3)->0)->0 && l
        == toks[p].line
    &&& inst.kind matches RawInstKind::Binary { op, lhs, rhs } && Some(op) == spec_bin_op(toks[p + 2].kind->Marker_0@)
        && operand_fits(toks, p + 4, lhs) && operand_fits(toks, p + 7, rhs)
}

/// The linkage a word names.
spec fn linkage_named(w: Seq<char>) -> Option<Linkage> {
    if w == "internal"@ {
        Some(Linkage::Internal)
    } else if w == "external"@ {
        Some(Linkage::External)
    } else if w == "exported"@ {
        Some(Linkage::Exported)
    } else {
        None
    }
}

/// The ABI a word names, but for a custom one.
spec fn abi_named(w: Seq<char>) -> Option<Abi> {
    if w == "astronomy"@ {
        Some(Abi::Astronomy)
    } else if w == "c"@ {
        Some(Abi::C)
    } else if w == "system"@ {
        Some(Abi::System)
    } else {
        None
    }
}

/// The linkage and ABI that the header attributes from `q` on set,
/// starting from `lk` and `abi` (a later attribute overrides an earlier
/// one); `None` where one is malformed or names a custom ABI.
spec fn header_attrs(toks: Seq<Token>, q: int, lk: Linkage, abi: Abi) -> Option<(Linkage, Abi)>
    decreases toks.len() - q,
{
    if word_at(toks, q) == Some("linkage"@) {
        if punct_at(toks, q + 1, '=') && (word_at(toks, q + 2) matches Some(w) && linkage_named(w) is Some) {
            header_attrs(toks, q + 3, linkage_named(word_at(toks, q + 2)->0)->0, abi)
        } else {
            None
        }
    } else if word_at(toks, q) == Some("abi"@) {
        if punct_at(toks, q + 1, '=') && (word_at(toks, q + 2) matches Some(w) && abi_named(w) is Some) {
            header_attrs(toks, q + 3, lk, abi_named(word_at(toks, q + 2)->0)->0)
        } else {
            None
        }
    } else {
        Some((lk, abi))
    }
}

/// The position after the header attributes from `q` on.
spec fn attrs_end(toks: Seq<Token>, q: int) -> int
    decreases toks.len() - q,
{
    if (word_at(toks, q) == Some("linkage"@) || word_at(toks, q) == Some("abi"@)) && word_at(toks, q + 2) is Some {
        attrs_end(toks, q + 3)
    } else {
        q
    }
}

/// A function declaration at `p`: a header as [`header_fits`] reads it,
/// with well-formed attributes naming no custom ABI, then at once the
/// end of the function.
spec fn declaration_at(toks: Seq<Token>, p: int) -> bool {
    &&& word_at(toks, p + 1) matches Some(w) && spec_is_ident(encode_utf8(w))
    &&& word_at(toks, p + 2) == Some("fn"@)
    &&& punct_at(toks, p + 3, '(')
    &&& simple_params(toks, p + 4) matches Some((e, _)) && kind_at(toks, e, TokenKind::Arrow) && (word_at(toks, e + 1) matches Some(
        w,
    ) && prim_type(w) is Some) && header_attrs(toks, e + 2, Linkage::External, Abi::Astronomy) is Some && marker_at(
        toks,
        attrs_end(toks, e + 2),
        "FUNCTION_END"@,
    )
}

/// The position after the declaration at `p`, past its end marker.
spec fn decl_end(toks: Seq<Token>, p: int) -> int {
    attrs_end(toks, (simple_params(toks, p + 4)->0).0 + 2) + 1
}

/// The module text at `p` opens with its version and then two
/// declarations of one name.
spec fn duplicate_declarations_at(toks: Seq<Token>, p: int) -> bool {
    &&& marker_at(toks, p, "MODULE_START"@)
    &&& marker_at(toks, p + 1, "MODULE_VERSION"@)
    &&& int_at(toks, p + 2, 1)
    &&& marker_at(toks, p + 3, "FUNCTION_START"@)
    &&& declaration_at(toks, p + 3)
    &&& marker_at(toks, decl_end(toks, p + 3), "FUNCTION_START"@)
    &&& declaration_at(toks, decl_end(toks, p + 3))
    &&& word_at(toks, decl_end(toks, p + 3) + 1) == word_at(toks, p + 4)
}

/// The module directives are distinct words.
proof fn lemma_module_directive_words()
    ensures
        "FUNCTION_START"@ != "MODULE_NAME"@,
        "FUNCTION_START"@ != "MODULE_VERSION"@,
        "FUNCTION_START"@ != "CONSTANTS_START"@,
        "MODULE_VERSION"@ != "MODULE_NAME"@,
        "MODULE_VERSION"@ != "CONSTANTS_START"@,
{
    reveal_strlit("FUNCTION_START");
    reveal_strlit("MODULE_NAME");
    reveal_strlit("MODULE_VERSION");
    reveal_strlit("CONSTANTS_START");
    assert("FUNCTION_START"@[0] != "MODULE_NAME"@[0]);
    assert("FUNCTION_START"@[0] != "MODULE_VERSION"@[0]);
    assert("FUNCTION_START"@[0] != "CONSTANTS_START"@[0]);
    assert("MODULE_VERSION"@[7] != "MODULE_NAME"@[7]);
    assert("MODULE_VERSION"@[0] != "CONSTANTS_START"@[0]);
}

/// A function header at `p` whose parameter types are built-in types or
/// pointers to them, and whose result is a built-in type, sets what the
/// text says: the variadic flag, the result type, and (where the
/// attributes are well formed and name no custom ABI) the linkage and ABI,
/// `external` and `astronomy` unless given.
spec fn header_fits(toks: Seq<Token>, p: int, variadic: bool, result: TypeId, linkage: Linkage, abi: Abi) -> bool {
    match simple_params(toks, p + 4) {
        Some((e, var)) => punct_at(toks, p + 3, '(') && kind_at(toks, e, TokenKind::Arrow) && (word_at(toks, e + 1) matches Some(
            w,
        ) && prim_type(w) is Some) ==> {
            &&& variadic == var
            &&& result == prim_type(word_at(toks, e + 1)->0)->0
            &&& (header_attrs(toks, e + 2, Linkage::External, Abi::Astronomy) matches Some((lk, ab)) ==> linkage == lk && abi
                == ab)
        },
        None => true,
    }
}

/// The words of linkages and ABIs are distinct.
proof fn lemma_attribute_words()
    ensures
        "internal"@ != "external"@,
        "internal"@ != "exported"@,
        "external"@ != "exported"@,
        "astronomy"@ != "c"@,
        "astronomy"@ != "system"@,
        "c"@ != "system"@,
        abi_named("custom"@) is None,
        "linkage"@ != "abi"@,
        "FUNCTION_END"@ != "BLOCK_START"@,
        "RETURN"@ != "BLOCK_END"@,
{
    reveal_strlit("RETURN");
    reveal_strlit("BLOCK_END");
    assert("RETURN"@[0] != "BLOCK_END"@[0]);
    reveal_strlit("FUNCTION_END");
    reveal_strlit("BLOCK_START");
    assert("FUNCTION_END"@[0] != "BLOCK_START"@[0]);
    reveal_strlit("internal");
    reveal_strlit("external");
    reveal_strlit("exported");
    reveal_strlit("astronomy");
    reveal_strlit("c");
    reveal_strlit("system");
    reveal_strlit("custom");
    reveal_strlit("linkage");
    reveal_strlit("abi");
    assert("internal"@[1] != "external"@[1]);
    assert("internal"@[1] != "exported"@[1]);
    assert("external"@[2] != "exported"@[2]);
    assert("astronomy"@.len() != "c"@.len());
    assert("astronomy"@[0] != "system"@[0]);
    assert("c"@.len() != "system"@.len());
    assert("custom"@ != "astronomy"@) by {
        assert("custom"@[0] != "astronomy"@[0]);
    }
    assert("custom"@ != "c"@) by {
        assert("custom"@.len() != "c"@.len());
    }
    assert("custom"@ != "system"@) by {
        assert("custom"@[0] != "system"@[0]);
    }
    assert("linkage"@[0] != "abi"@[0]);
}

/// The words that open composite types are distinct.
proof fn lemma_type_words()
    ensures
        "ptr"@ != "array"@ && "ptr"@ != "struct"@ && "ptr"@ != "fn"@,
        "array"@ != "struct"@ && "array"@ != "fn"@,
        prim_type("ptr"@) is None,
        prim_type("array"@) is None,
{
    reveal_strlit("ptr");
    reveal_strlit("array");
    reveal_strlit("struct");
    reveal_strlit("fn");
    assert("ptr"@[0] != "array"@[0]);
    assert("ptr"@[0] != "struct"@[0]);
    assert("ptr"@.len() != "fn"@.len());
    assert("array"@[0] != "struct"@[0]);
    assert("array"@.len() != "fn"@.len());
    reveal_strlit("void");
    reveal_strlit("i1");
    reveal_strlit("i8");
    reveal_strlit("i16");
    reveal_strlit("i32");
    reveal_strlit("i64");
    reveal_strlit("i128");
    reveal_strlit("u8");
    reveal_strlit("u16");
    reveal_strlit("u32");
    reveal_strlit("u64");
    reveal_strlit("u128");
    reveal_strlit("f32");
    reveal_strlit("f64");
    assert(prim_type("ptr"@) is None);
    assert(prim_type("array"@) is None);
}

/// The integer literal at `p`, if any.
spec fn int_value_at(toks: Seq<Token>, p: int) -> Option<i128> {
    if 0 <= p < toks.len() {
        match toks[p].kind {
            TokenKind::Int(v) => Some(v),
            _ => None,
        }
    } else {
        None
    }
}

/// The identifier at `p`, if any.
spec fn word_at(toks: Seq<Token>, p: int) -> Option<Seq<char>> {
    if 0 <= p < toks.len() {
        match toks[p].kind {
            TokenKind::Ident(w) => Some(w@),
            _ => None,
        }
    } else {
        None
    }
}

/// The opcode at `p` needs a result handle: any opcode but `STORE`, and
/// `CALL` unless it returns `void`.
spec fn result_required(toks: Seq<Token>, p: int) -> bool {
    0 <= p < toks.len() && (toks[p].kind matches TokenKind::Marker(m) && m@ != "STORE"@ && (m@ == "CALL"@ ==> word_at(
        toks,
        p + 1,
    ) != Some("void"@)))
}

/// The opcode at `p` must not have a result handle: `STORE`, and `CALL`
/// returning `void`.
spec fn result_forbidden(toks: Seq<Token>, p: int) -> bool {
    marker_at(toks, p, "STORE"@) || (marker_at(toks, p, "CALL"@) && word_at(toks, p + 1) == Some("void"@))
}

/// The token at `p` is the directive `name`.
spec fn marker_at(toks: Seq<Token>, p: int, name: Seq<char>) -> bool {
    0 <= p < toks.len() && (toks[p].kind matches TokenKind::Marker(m) && m@ == name)
}

/// The token at `p` is the integer `n`.
spec fn int_at(toks: Seq<Token>, p: int, n: int) -> bool {
    0 <= p < toks.len() && (toks[p].kind matches TokenKind::Int(v) && v as int == n)
}

/// The built-in type a word names.
spec fn prim_type(w: Seq<char>) -> Option<TypeId> {
    if w == "void"@ {
        Some(TypeId(0))
    } else if w == "i1"@ {
        Some(TypeId(1))
    } else if w == "i8"@ {
        Some(TypeId(2))
    } else if w == "i16"@ {
        Some(TypeId(3))
    } else if w == "i32"@ {
        Some(TypeId(4))
    } else if w == "i64"@ {
        Some(TypeId(5))
    } else if w == "i128"@ {
        Some(TypeId(6))
    } else if w == "u8"@ {
        Some(TypeId(7))
    } else if w == "u16"@ {
        Some(TypeId(8))
    } else if w == "u32"@ {
        Some(TypeId(9))
    } else if w == "u64"@ {
        Some(TypeId(10))
    } else if w == "u128"@ {
        Some(TypeId(11))
    } else if w == "f32"@ {
        Some(TypeId(12))
    } else if w == "f64"@ {
        Some(TypeId(13))
    } else {
        None
    }
}

/// A word that starts a composite type.
spec fn composite_type_word(w: Seq<char>) -> bool {
    w == "ptr"@ || w == "array"@ || w == "struct"@ || w == "fn"@
}

/// The constant index the token at `p` names, if it is an identifier
/// spelled as a constant reference.
spec fn cref_at(toks: Seq<Token>, p: int) -> Option<u32> {
    if 0 <= p < toks.len() {
        match toks[p].kind {
            TokenKind::Ident(t) => cref_value(encode_utf8(t@)),
            _ => None,
        }
    } else {
        None
    }
}

/// Decimal index of a constant reference `cN`.
fn parse_cref(text: &str) -> (r: Option<u32>)
    ensures
        r == cref_value(text.spec_bytes()),
{
    let b = text.as_bytes();
    if b.len() < 2 || b[0] != 99 {
        return None;
    }
    let mut value: u64 = 0;
    let mut k: usize = 1;
    while k < b.len()
        invariant
            1 <= k <= b@.len(),
            b@ == text.spec_bytes(),
            b@.len() >= 2,
            b@[0] == 99u8,
            value <= u32::MAX,
            value == digits_nat(b@.subrange(1, k as int)),
            forall|j: int| 1 <= j < k ==> 48 <= #[trigger] b@[j] <= 57,
        decreases b@.len() - k,
    {
        let d = b[k];
        if !(48 <= d && d <= 57) {
            return None;
        }
        proof {
            assert(b@.subrange(1, k + 1).drop_last() =~= b@.subrange(1, k as int));
        }
        value = value * 10 + (d - 48) as u64;
        if value > u32::MAX as u64 {
            proof {
                if forall|j: int| 1 <= j < b@.len() ==> 48 <= #[trigger] b@[j] <= 57 {
                    let full = b@.subrange(1, b@.len() as int);
                    lemma_digits_nat_prefix(full, k as int);
                    assert(full.subrange(0, k as int) =~= b@.subrange(1, k + 1));
                }
            }
            return None;
        }
        k = k + 1;
    }
    proof {
        assert(b@.subrange(1, k as int) =~= b@.subrange(1, b@.len() as int));
    }
    Some(value as u32)
}

/// Digit-only handles are the printer's anonymous numbering and never
/// become debug names.
fn is_anonymous_handle(handle: &str) -> bool {
    bytes_all_digits(handle.as_bytes())
}

fn is_terminator_marker(marker: &str) -> (r: bool)
    ensures
        r == (marker@ == "JUMP"@ || marker@ == "BRANCH"@ || marker@ == "RETURN"@ || marker@ == "UNREACHABLE"@),
        r ==> marker@ != "MODULE_VERSION"@,
{
    proof {
        lemma_directive_names();
    }
    str_eq(marker, "JUMP") || str_eq(marker, "BRANCH") || str_eq(marker, "RETURN") || str_eq(marker, "UNREACHABLE")
}

/// The binary operation an opcode names.
pub open spec fn spec_bin_op(op: Seq<char>) -> Option<BinOp> {
    if op == "ADD"@ {
        Some(BinOp::Add)
    } else if op == "SUB"@ {
        Some(BinOp::Sub)
    } else if op == "MUL"@ {
        Some(BinOp::Mul)
    } else if op == "DIV"@ {
        Some(BinOp::Div)
    } else if op == "REM"@ {
        Some(BinOp::Rem)
    } else if op == "AND"@ {
        Some(BinOp::And)
    } else if op == "OR"@ {
        Some(BinOp::Or)
    } else if op == "XOR"@ {
        Some(BinOp::Xor)
    } else if op == "SHL"@ {
        Some(BinOp::Shl)
    } else if op == "SHR"@ {
        Some(BinOp::Shr)
    } else if op == "EQ"@ {
        Some(BinOp::Eq)
    } else if op == "NE"@ {
        Some(BinOp::Ne)
    } else if op == "LT"@ {
        Some(BinOp::Lt)
    } else if op == "LE"@ {
        Some(BinOp::Le)
    } else if op == "GT"@ {
        Some(BinOp::Gt)
    } else if op == "GE"@ {
        Some(BinOp::Ge)
    } else {
        None
    }
}

fn bin_op_of(op: &str) -> (r: Option<BinOp>)
    ensures
        r == spec_bin_op(op@),
        r is Some ==> op@ != "MODULE_VERSION"@,
{
    proof {
        lemma_directive_names();
    }
    if str_eq(op, "ADD") {
        Some(BinOp::Add)
    } else if str_eq(op, "SUB") {
        Some(BinOp::Sub)
    } else if str_eq(op, "MUL") {
        Some(BinOp::Mul)
    } else if str_eq(op, "DIV") {
        Some(BinOp::Div)
    } else if str_eq(op, "REM") {
        Some(BinOp::Rem)
    } else if str_eq(op, "AND") {
        Some(BinOp::And)
    } else if str_eq(op, "OR") {
        Some(BinOp::Or)
    } else if str_eq(op, "XOR") {
        Some(BinOp::Xor)
    } else if str_eq(op, "SHL") {
        Some(BinOp::Shl)
    } else if str_eq(op, "SHR") {
        Some(BinOp::Shr)
    } else if str_eq(op, "EQ") {
        Some(BinOp::Eq)
    } else if str_eq(op, "NE") {
        Some(BinOp::Ne)
    } else if str_eq(op, "LT") {
        Some(BinOp::Lt)
    } else if str_eq(op, "LE") {
        Some(BinOp::Le)
    } else if str_eq(op, "GT") {
        Some(BinOp::Gt)
    } else if str_eq(op, "GE") {
        Some(BinOp::Ge)
    } else {
        None
    }
}

/// Each version directive among `toks[from..to]` is followed, within that
/// range, by the supported major version.
pub open spec fn versions_supported(toks: Seq<Token>, from: int, to: int) -> bool {
    forall|k: int|
        from <= k < to && is_version_marker(#[trigger] toks[k].kind) ==> k + 1 < to && toks[k + 1].kind
            == TokenKind::Int(ArnVersion::SUPPORTED_MAJOR as i128)
}

/// The token is the `MODULE_VERSION` directive.
pub open spec fn is_version_marker(k: TokenKind) -> bool {
    k matches TokenKind::Marker(m) && m@ == "MODULE_VERSION"@
}

/// No other directive or opcode the parser knows is spelled like the
/// version directive.
proof fn lemma_directive_names()
    ensures
        "ADD"@ != "MODULE_VERSION"@,
        "ALLOCA"@ != "MODULE_VERSION"@,
        "AND"@ != "MODULE_VERSION"@,
        "BLOCK_END"@ != "MODULE_VERSION"@,
        "BLOCK_START"@ != "MODULE_VERSION"@,
        "BRANCH"@ != "MODULE_VERSION"@,
        "CALL"@ != "MODULE_VERSION"@,
        "CONST"@ != "MODULE_VERSION"@,
        "CONSTANTS_END"@ != "MODULE_VERSION"@,
        "CONSTANTS_START"@ != "MODULE_VERSION"@,
        "CONSTANT_AGGREGATE"@ != "MODULE_VERSION"@,
        "CONSTANT_FLOAT"@ != "MODULE_VERSION"@,
        "CONSTANT_INT"@ != "MODULE_VERSION"@,
        "CONSTANT_NULL"@ != "MODULE_VERSION"@,
        "CONSTANT_STRING"@ != "MODULE_VERSION"@,
        "CONSTRUCT"@ != "MODULE_VERSION"@,
        "DIV"@ != "MODULE_VERSION"@,
        "EQ"@ != "MODULE_VERSION"@,
        "EXT"@ != "MODULE_VERSION"@,
        "EXTRACT"@ != "MODULE_VERSION"@,
        "FLOAT_TO_INT"@ != "MODULE_VERSION"@,
        "FUNCTION_END"@ != "MODULE_VERSION"@,
        "FUNCTION_START"@ != "MODULE_VERSION"@,
        "GE"@ != "MODULE_VERSION"@,
        "GT"@ != "MODULE_VERSION"@,
        "INSERT"@ != "MODULE_VERSION"@,
        "INT_TO_FLOAT"@ != "MODULE_VERSION"@,
        "JUMP"@ != "MODULE_VERSION"@,
        "LE"@ != "MODULE_VERSION"@,
        "LOAD"@ != "MODULE_VERSION"@,
        "LT"@ != "MODULE_VERSION"@,
        "MODULE_END"@ != "MODULE_VERSION"@,
        "MODULE_NAME"@ != "MODULE_VERSION"@,
        "MODULE_START"@ != "MODULE_VERSION"@,
        "MUL"@ != "MODULE_VERSION"@,
        "NE"@ != "MODULE_VERSION"@,
        "OR"@ != "MODULE_VERSION"@,
        "PTR_CAST"@ != "MODULE_VERSION"@,
        "PTR_OFFSET"@ != "MODULE_VERSION"@,
        "REM"@ != "MODULE_VERSION"@,
        "RETURN"@ != "MODULE_VERSION"@,
        "SHL"@ != "MODULE_VERSION"@,
        "SHR"@ != "MODULE_VERSION"@,
        "STORE"@ != "MODULE_VERSION"@,
        "SUB"@ != "MODULE_VERSION"@,
        "TRUNC"@ != "MODULE_VERSION"@,
        "UNREACHABLE"@ != "MODULE_VERSION"@,
        "XOR"@ != "MODULE_VERSION"@,
{
    reveal_strlit("MODULE_VERSION");
    reveal_strlit("ADD");
    reveal_strlit("ALLOCA");
    reveal_strlit("AND");
    reveal_strlit("BLOCK_END");
    reveal_strlit("BLOCK_START");
    reveal_strlit("BRANCH");
    reveal_strlit("CALL");
    reveal_strlit("CONST");
    reveal_strlit("CONSTANTS_END");
    reveal_strlit("CONSTANTS_START");
    reveal_strlit("CONSTANT_AGGREGATE");
    reveal_strlit("CONSTANT_FLOAT");
    reveal_strlit("CONSTANT_INT");
    reveal_strlit("CONSTANT_NULL");
    reveal_strlit("CONSTANT_STRING");
    reveal_strlit("CONSTRUCT");
    reveal_strlit("DIV");
    reveal_strlit("EQ");
    reveal_strlit("EXT");
    reveal_strlit("EXTRACT");
    reveal_strlit("FLOAT_TO_INT");
    reveal_strlit("FUNCTION_END");
    reveal_strlit("FUNCTION_START");
    reveal_strlit("GE");
    reveal_strlit("GT");
    reveal_strlit("INSERT");
    reveal_strlit("INT_TO_FLOAT");
    reveal_strlit("JUMP");
    reveal_strlit("LE");
    reveal_strlit("LOAD");
    reveal_strlit("LT");
    reveal_strlit("MODULE_END");
    reveal_strlit("MODULE_NAME");
    reveal_strlit("MODULE_START");
    reveal_strlit("MUL");
    reveal_strlit("NE");
    reveal_strlit("OR");
    reveal_strlit("PTR_CAST");
    reveal_strlit("PTR_OFFSET");
    reveal_strlit("REM");
    reveal_strlit("RETURN");
    reveal_strlit("SHL");
    reveal_strlit("SHR");
    reveal_strlit("STORE");
    reveal_strlit("SUB");
    reveal_strlit("TRUNC");
    reveal_strlit("UNREACHABLE");
    reveal_strlit("XOR");
    assert("CONSTANT_FLOAT"@[0] != "MODULE_VERSION"@[0]);
    assert("FUNCTION_START"@[0] != "MODULE_VERSION"@[0]);
    assert("MODULE_END"@[7] != "MODULE_VERSION"@[7]);
    assert("MODULE_NAME"@[7] != "MODULE_VERSION"@[7]);
    assert("MODULE_START"@[7] != "MODULE_VERSION"@[7]);
    assert("MUL"@[1] != "MODULE_VERSION"@[1]);
}

impl Parser {
    /// The kind of the token at the current position, if any.
    spec fn kind_here(&self) -> Option<TokenKind> {
        if (self.pos as int) < self.tokens@.len() {
            Some(self.tokens@[self.pos as int].kind)
        } else {
            None
        }
    }

    /// The word of the identifier at the current position, if any.
    spec fn word_here(&self) -> Option<Seq<char>> {
        match self.kind_here() {
            Some(TokenKind::Ident(w)) => Some(w@),
            _ => None,
        }
    }

    /// `e` reports the token at the current position (or the end of the
    /// input) where `expected` was wanted.
    spec fn unexpected_here(&self, e: ParseError, expected: Seq<char>) -> bool {
        if (self.pos as int) < self.tokens@.len() {
            e matches ParseError::UnexpectedToken { line, expected: x, found } && line == self.tokens@[self.pos as int].line
                && x@ == expected && found@ == describe_text(self.tokens@[self.pos as int].kind)
        } else {
            e matches ParseError::UnexpectedEof { expected: x } && x@ == expected
        }
    }

    /// The token stream is unchanged and the position moved forward.
    spec fn advanced(old: &Parser, new: &Parser) -> bool {
        &&& Self::moved(old, new)
        &&& Self::functions_kept(old, new)
    }

    /// The token stream is unchanged, the position moved forward, and the
    /// module's version and functions are as they were (or the version is
    /// the current one).
    spec fn moved(old: &Parser, new: &Parser) -> bool {
        &&& new.tokens@ == old.tokens@
        &&& old.pos <= new.pos <= new.tokens@.len()
        &&& Self::version_kept(old, new)
        &&& new.module.functions == old.module.functions
        &&& Self::types_grown(old, new)
    }

    /// The type store only gained entries.
    spec fn types_grown(old: &Parser, new: &Parser) -> bool {
        &&& old.module.types.types@.len() <= new.module.types.types@.len()
        &&& forall|i: int| 0 <= i < old.module.types.types@.len() ==> #[trigger] new.module.types.types@[i] == old.module.types.types@[i]
    }

    /// The raw functions read so far have pairwise distinct names, and
    /// `function_names` lists them in order.
    spec fn raw_names_distinct(&self) -> bool {
        &&& self.function_names@.len() == self.functions@.len()
        &&& forall|k: int| 0 <= k < self.functions@.len() ==> (#[trigger] self.function_names@[k])@ == self.functions@[k].name@
        &&& forall|a: int, b: int| 0 <= a < b < self.functions@.len() ==> self.functions@[a].name@ != self.functions@[b].name@
    }

    /// The raw functions read so far are unchanged.
    spec fn functions_kept(old: &Parser, new: &Parser) -> bool {
        &&& new.functions == old.functions
        &&& new.function_names == old.function_names
        &&& new.module.functions == old.module.functions
    }

    /// The module's version is unchanged, or set to the current one.
    spec fn version_kept(old: &Parser, new: &Parser) -> bool {
        new.module.version == old.module.version || new.module.version == ArnVersion::CURRENT()
    }

    /// Only the position differs.
    spec fn same_state(old: &Parser, new: &Parser) -> bool {
        &&& new.module == old.module
        &&& new.functions == old.functions
        &&& new.function_names == old.function_names
    }

    spec fn progressed(old: &Parser, new: &Parser) -> bool {
        &&& new.tokens@ == old.tokens@
        &&& old.pos < new.pos <= new.tokens@.len()
        &&& Self::version_kept(old, new)
        &&& Self::functions_kept(old, new)
        &&& Self::clean(old, new)
        &&& Self::types_grown(old, new)
    }

    /// No token between the two positions is the version directive.
    spec fn clean(old: &Parser, new: &Parser) -> bool {
        forall|k: int| old.pos <= k < new.pos ==> !is_version_marker(#[trigger] new.tokens@[k].kind)
    }

    /// Moves past the current token.
    fn bump(&mut self)
        requires
            (old(self).pos as int) < old(self).tokens@.len(),
        ensures
            final(self).pos == old(self).pos + 1,
            final(self).tokens == old(self).tokens,
            final(self).module == old(self).module,
            final(self).functions == old(self).functions,
            final(self).function_names == old(self).function_names,
    {
        if self.pos < self.tokens.len() {
            self.pos = self.pos + 1;
        }
    }

    fn peek(&self) -> (r: Option<&TokenKind>)
        ensures
            (self.pos as int) < self.tokens@.len() ==> r == Some(&self.tokens@[self.pos as int].kind),
            (self.pos as int) >= self.tokens@.len() ==> r is None,
    {
        if self.pos < self.tokens.len() {
            Some(&self.tokens[self.pos].kind)
        } else {
            None
        }
    }

    fn line(&self) -> (r: u32)
        ensures
            r == (if (self.pos as int) < self.tokens@.len() {
                self.tokens@[self.pos as int].line
            } else {
                0
            }),
    {
        if self.pos < self.tokens.len() {
            self.tokens[self.pos].line
        } else {
            0
        }
    }

    fn unexpected(&self, expected: String) -> (r: ParseError)
        ensures
            self.unexpected_here(r, expected@),
    {
        if self.pos >= self.tokens.len() {
            ParseError::UnexpectedEof { expected }
        } else {
            ParseError::UnexpectedToken {
                line: self.tokens[self.pos].line,
                expected,
                found: describe(&self.tokens[self.pos].kind),
            }
        }
    }

    fn expect_marker(&mut self, name: &str) -> (r: Result<u32, ParseError>)
        requires
            old(self).pos <= old(self).tokens@.len(),
            name@ != "MODULE_VERSION"@,
        ensures
            r is Ok <==> (old(self).kind_here() matches Some(TokenKind::Marker(m)) && m@ == name@),
            r matches Ok(l) ==> l == old(self).tokens@[old(self).pos as int].line && final(self).pos == old(self).pos + 1,
            r matches Err(e) ==> old(self).unexpected_here(e, "`::ASTRONOMY::"@ + name@ + "`"@),
            r is Ok ==> Self::progressed(old(self), final(self)),
            Self::same_state(old(self), final(self)),
            r is Err ==> *final(self) == *old(self),
    {
        let ok = match self.peek() {
            Some(TokenKind::Marker(m)) => str_eq(m.as_str(), name),
            _ => false,
        };
        if ok {
            let line = self.tokens[self.pos].line;
            self.bump();
            Ok(line)
        } else {
            let parts = ["`::ASTRONOMY::", name, "`"];
            Err(self.unexpected(join3(&parts)))
        }
    }

    fn peek_is_punct(&self, c: char) -> (r: bool)
        ensures
            r == (self.kind_here() == Some(TokenKind::Punct(c))),
            r ==> (self.pos as int) < self.tokens@.len() && self.tokens@[self.pos as int].kind == TokenKind::Punct(c),
    {
        match self.peek() {
            Some(TokenKind::Punct(p)) => *p == c,
            _ => false,
        }
    }

    fn peek_is_ident(&self, name: &str) -> (r: bool)
        ensures
            r == (self.kind_here() matches Some(TokenKind::Ident(v)) && v@ == name@),
            r ==> (self.pos as int) < self.tokens@.len() && self.tokens@[self.pos as int].kind is Ident,
    {
        match self.peek() {
            Some(TokenKind::Ident(v)) => str_eq(v.as_str(), name),
            _ => false,
        }
    }

    fn peek_is_value_ref(&self) -> (r: bool)
        ensures
            r == (self.kind_here() matches Some(TokenKind::ValueRef(_))),
            r ==> (self.pos as int) < self.tokens@.len() && self.tokens@[self.pos as int].kind is ValueRef,
    {
        match self.peek() {
            Some(TokenKind::ValueRef(_)) => true,
            _ => false,
        }
    }

    fn peek_is_ellipsis(&self) -> (r: bool)
        ensures
            r == (self.kind_here() == Some(TokenKind::Ellipsis)),
            r ==> (self.pos as int) < self.tokens@.len() && self.tokens@[self.pos as int].kind is Ellipsis,
    {
        match self.peek() {
            Some(TokenKind::Ellipsis) => true,
            _ => false,
        }
    }

    fn expect_punct(&mut self, c: char) -> (r: Result<(), ParseError>)
        requires
            old(self).pos <= old(self).tokens@.len(),
        ensures
            r is Ok <==> old(self).kind_here() == Some(TokenKind::Punct(c)),
            r is Ok ==> final(self).pos == old(self).pos + 1,
            r matches Err(e) ==> old(self).unexpected_here(e, "`"@ + punct_text(c) + "`"@),
            r is Ok ==> Self::progressed(old(self), final(self)),
            Self::same_state(old(self), final(self)),
            r is Err ==> *final(self) == *old(self),
    {
        if self.peek_is_punct(c) {
            self.bump();
            Ok(())
        } else {
            let parts = ["`", punct_str(c), "`"];
            Err(self.unexpected(join3(&parts)))
        }
    }

    fn expect_arrow(&mut self) -> (r: Result<(), ParseError>)
        requires
            old(self).pos <= old(self).tokens@.len(),
        ensures
            r is Ok <==> old(self).kind_here() == Some(TokenKind::Arrow),
            r is Ok ==> final(self).pos == old(self).pos + 1,
            r matches Err(e) ==> old(self).unexpected_here(e, "`->`"@),
            r is Ok ==> Self::progressed(old(self), final(self)),
            Self::same_state(old(self), final(self)),
            r is Err ==> *final(self) == *old(self),
    {
        let ok = match self.peek() {
            Some(TokenKind::Arrow) => true,
            _ => false,
        };
        if ok {
            self.bump();
            Ok(())
        } else {
            Err(self.unexpected("`->`".to_owned()))
        }
    }

    fn expect_ident(&mut self, what: &str) -> (r: Result<(String, u32), ParseError>)
        requires
            old(self).pos <= old(self).tokens@.len(),
        ensures
            r is Ok <==> old(self).kind_here() matches Some(TokenKind::Ident(_)),
            r matches Ok((v, l)) ==> old(self).kind_here() == Some(TokenKind::Ident(v)) && l == old(
                self,
            ).tokens@[old(self).pos as int].line && final(self).pos == old(self).pos + 1,
            r matches Err(e) ==> old(self).unexpected_here(e, "an identifier ("@ + what@ + ")"@),
            r is Ok ==> Self::progressed(old(self), final(self)),
            Self::same_state(old(self), final(self)),
            r is Err ==> *final(self) == *old(self),
    {
        let v = match self.peek() {
            Some(TokenKind::Ident(v)) => Some(v.clone()),
            _ => None,
        };
        match v {
            Some(v) => {
                let line = self.tokens[self.pos].line;
                self.bump();
                Ok((v, line))
            },
            None => {
                let parts = ["an identifier (", what, ")"];
                Err(self.unexpected(join3(&parts)))
            },
        }
    }

    fn expect_int(&mut self, what: &str) -> (r: Result<(i128, u32), ParseError>)
        requires
            old(self).pos <= old(self).tokens@.len(),
        ensures
            r is Ok <==> old(self).kind_here() matches Some(TokenKind::Int(_)),
            r matches Ok((_, l)) ==> l == old(self).tokens@[old(self).pos as int].line,
            r matches Err(e) ==> old(self).unexpected_here(e, "an integer ("@ + what@ + ")"@),
            r is Ok ==> Self::progressed(old(self), final(self)),
            r matches Ok((v, _)) ==> final(self).pos == old(self).pos + 1
                && old(self).tokens@[old(self).pos as int].kind == TokenKind::Int(v),
            Self::same_state(old(self), final(self)),
            r is Err ==> *final(self) == *old(self),
    {
        let v = match self.peek() {
            Some(TokenKind::Int(v)) => Some(*v),
            _ => None,
        };
        match v {
            Some(v) => {
                let line = self.tokens[self.pos].line;
                self.bump();
                Ok((v, line))
            },
            None => {
                let parts = ["an integer (", what, ")"];
                Err(self.unexpected(join3(&parts)))
            },
        }
    }

    fn expect_str(&mut self) -> (r: Result<(Vec<u8>, u32), ParseError>)
        requires
            old(self).pos <= old(self).tokens@.len(),
        ensures
            r is Ok <==> old(self).kind_here() matches Some(TokenKind::Str(_)),
            r matches Ok((v, l)) ==> (old(self).kind_here() matches Some(TokenKind::Str(w)) && w@ == v@) && l == old(
                self,
            ).tokens@[old(self).pos as int].line && final(self).pos == old(self).pos + 1,
            r matches Err(e) ==> old(self).unexpected_here(e, "a string literal"@),
            r is Ok ==> Self::progressed(old(self), final(self)),
            Self::same_state(old(self), final(self)),
            r is Err ==> *final(self) == *old(self),
    {
        let v = match self.peek() {
            Some(TokenKind::Str(v)) => Some(v.clone()),
            _ => None,
        };
        match v {
            Some(v) => {
                let line = self.tokens[self.pos].line;
                self.bump();
                Ok((v, line))
            },
            None => Err(self.unexpected("a string literal".to_owned())),
        }
    }

    /// The marker name at the current position, if any.
    fn peek_marker(&self) -> (r: Option<String>)
        ensures
            r is Some <==> self.kind_here() matches Some(TokenKind::Marker(_)),
            r is Some ==> (self.pos as int) < self.tokens@.len(),
            r matches Some(m) ==> (self.tokens@[self.pos as int].kind matches TokenKind::Marker(t) && t@ == m@),
    {
        match self.peek() {
            Some(TokenKind::Marker(m)) => Some(m.clone()),
            _ => None,
        }
    }

    fn found_here(&self) -> (r: String)
        ensures
            r@ == describe_text(
                match self.kind_here() {
                    Some(k) => k,
                    None => TokenKind::Ellipsis,
                },
            ),
    {
        match self.peek() {
            Some(k) => describe(k),
            None => describe(&TokenKind::Ellipsis),
        }
    }

    // -- types ---------------------------------------------------------------

    /// Parses a type, interning composite types.
    fn parse_type(&mut self) -> (r: Result<TypeId, ParseError>)
        requires
            old(self).pos <= old(self).tokens@.len(),
        ensures
            old(self).word_here() matches Some(w) && prim_type(w) is Some ==> r == Ok::<TypeId, ParseError>(
                prim_type(old(self).word_here()->0)->0,
            ) && final(self).pos == old(self).pos + 1 && final(self).module == old(self).module,
            old(self).word_here() matches Some(w) && prim_type(w) is None && !composite_type_word(w) ==> (r matches Err(
                ParseError::InvalidType { line, reason },
            ) && line == old(self).tokens@[old(self).pos as int].line && reason@ == "unknown type `"@ + old(self).word_here()->0 + "`"@),
            old(self).word_here() == Some("ptr"@) && punct_at(old(self).tokens@, old(self).pos + 1, '<') && (word_at(
                old(self).tokens@,
                old(self).pos + 2,
            ) matches Some(w) && prim_type(w) is Some) && punct_at(old(self).tokens@, old(self).pos + 3, '>') ==> (r matches Ok(
                id,
            ) && final(self).pos == old(self).pos + 4 && interned(
                old(self).module.types.types@,
                TypeData::Pointer { pointee: prim_type(word_at(old(self).tokens@, old(self).pos + 2)->0)->0, address_space: 0 },
                final(self).module.types.types@,
                id,
            )),
            old(self).word_here() == Some("ptr"@) && punct_at(old(self).tokens@, old(self).pos + 1, '<') && (word_at(
                old(self).tokens@,
                old(self).pos + 2,
            ) matches Some(w) && prim_type(w) is Some) && punct_at(old(self).tokens@, old(self).pos + 3, ',') && (int_value_at(
                old(self).tokens@,
                old(self).pos + 4,
            ) matches Some(n) && 0 <= n <= u32::MAX) && punct_at(old(self).tokens@, old(self).pos + 5, '>') ==> (r matches Ok(id)
                && final(self).pos == old(self).pos + 6 && interned(
                old(self).module.types.types@,
                TypeData::Pointer {
                    pointee: prim_type(word_at(old(self).tokens@, old(self).pos + 2)->0)->0,
                    address_space: int_value_at(old(self).tokens@, old(self).pos + 4)->0 as u32,
                },
                final(self).module.types.types@,
                id,
            )),
            old(self).word_here() == Some("ptr"@) && punct_at(old(self).tokens@, old(self).pos + 1, '<') && (word_at(
                old(self).tokens@,
                old(self).pos + 2,
            ) matches Some(w) && prim_type(w) is Some) && punct_at(old(self).tokens@, old(self).pos + 3, ',') && (int_value_at(
                old(self).tokens@,
                old(self).pos + 4,
            ) matches Some(n) && !(0 <= n <= u32::MAX)) ==> (r matches Err(ParseError::InvalidNumber { line, .. }) && line
                == old(self).tokens@[old(self).pos + 4].line),
            old(self).word_here() == Some("array"@) && punct_at(old(self).tokens@, old(self).pos + 1, '<') && (word_at(
                old(self).tokens@,
                old(self).pos + 2,
            ) matches Some(w) && prim_type(w) is Some) && punct_at(old(self).tokens@, old(self).pos + 3, ',') && (int_value_at(
                old(self).tokens@,
                old(self).pos + 4,
            ) matches Some(n) && 0 <= n <= u64::MAX) && punct_at(old(self).tokens@, old(self).pos + 5, '>') ==> (r matches Ok(id) && final(self).pos
                == old(self).pos + 6 && interned(
                old(self).module.types.types@,
                TypeData::Array {
                    element: prim_type(word_at(old(self).tokens@, old(self).pos + 2)->0)->0,
                    length: int_value_at(old(self).tokens@, old(self).pos + 4)->0 as u64,
                },
                final(self).module.types.types@,
                id,
            )),
            old(self).word_here() is None ==> (r matches Err(e) && old(self).unexpected_here(e, "an identifier (a type)"@)),
            Self::advanced(old(self), final(self)),
            r is Ok ==> Self::progressed(old(self), final(self)),
        decreases old(self).tokens@.len() - old(self).pos,
    {
        proof {
            lemma_type_words();
            reveal_strlit("an identifier (");
            reveal_strlit("a type");
            reveal_strlit(")");
            reveal_strlit("an identifier (a type)");
            assert("an identifier ("@ + "a type"@ + ")"@ =~= "an identifier (a type)"@);
        }
        let (word, line) = self.expect_ident("a type")?;
        let w = word.as_str();
        if str_eq(w, "void") {
            Ok(TypeId::VOID())
        } else if str_eq(w, "i1") {
            Ok(TypeId::I1())
        } else if str_eq(w, "i8") {
            Ok(TypeId::I8())
        } else if str_eq(w, "i16") {
            Ok(TypeId::I16())
        } else if str_eq(w, "i32") {
            Ok(TypeId::I32())
        } else if str_eq(w, "i64") {
            Ok(TypeId::I64())
        } else if str_eq(w, "i128") {
            Ok(TypeId::I128())
        } else if str_eq(w, "u8") {
            Ok(TypeId::U8())
        } else if str_eq(w, "u16") {
            Ok(TypeId::U16())
        } else if str_eq(w, "u32") {
            Ok(TypeId::U32())
        } else if str_eq(w, "u64") {
            Ok(TypeId::U64())
        } else if str_eq(w, "u128") {
            Ok(TypeId::U128())
        } else if str_eq(w, "f32") {
            Ok(TypeId::F32())
        } else if str_eq(w, "f64") {
            Ok(TypeId::F64())
        } else if str_eq(w, "ptr") {
            self.expect_punct('<')?;
            let pointee = self.parse_type()?;
            let address_space: u32 = if self.peek_is_punct(',') {
                self.bump();
                let (n, nline) = self.expect_int("an address space")?;
                if !(0 <= n && n <= 0xFFFF_FFFFi128) {
                    return Err(ParseError::InvalidNumber { line: nline, reason: concat_strs(&["address space out of range"]) });
                }
                n as u32
            } else {
                0
            };
            self.expect_punct('>')?;
            let ghost t0 = self.module.types.types@;
            let id = self.module.types.ptr_in(pointee, address_space);
            proof {
                if self.module.types.types@ != t0 {
                    assert(self.module.types.types@.drop_last() =~= t0);
                }
                lemma_types_grow(t0, self.module.types.types@);
            }
            Ok(id)
        } else if str_eq(w, "array") {
            self.expect_punct('<')?;
            let element = self.parse_type()?;
            self.expect_punct(',')?;
            let (n, nline) = self.expect_int("an array length")?;
            if !(0 <= n && n <= 0xFFFF_FFFF_FFFF_FFFFi128) {
                return Err(ParseError::InvalidNumber { line: nline, reason: concat_strs(&["array length out of range"]) });
            }
            self.expect_punct('>')?;
            let ghost t0 = self.module.types.types@;
            let id = self.module.types.array(element, n as u64);
            proof {
                if self.module.types.types@ != t0 {
                    assert(self.module.types.types@.drop_last() =~= t0);
                }
                lemma_types_grow(t0, self.module.types.types@);
            }
            Ok(id)
        } else if str_eq(w, "struct") {
            self.expect_punct('<')?;
            let mut fields: Vec<TypeId> = Vec::new();
            if !self.peek_is_punct('>') {
                let t = self.parse_type()?;
                fields.push(t);
                while self.peek_is_punct(',')
                    invariant
                        Self::progressed(old(self), self),
                        old(self).word_here() matches Some(ww) && composite_type_word(ww) && prim_type(ww) is None,
                        old(self).word_here() != Some("ptr"@) && old(self).word_here() != Some("array"@),
                    decreases self.tokens@.len() - self.pos,
                {
                    self.bump();
                    let t = self.parse_type()?;
                    fields.push(t);
                }
            }
            self.expect_punct('>')?;
            let ghost t0 = self.module.types.types@;
            let id = self.module.types.struct_of(fields.as_slice());
            proof {
                lemma_types_grow(t0, self.module.types.types@);
            }
            Ok(id)
        } else if str_eq(w, "fn") {
            self.expect_punct('(')?;
            let mut params: Vec<TypeId> = Vec::new();
            let mut variadic = false;
            loop
                invariant
                    Self::progressed(old(self), self),
                    old(self).word_here() matches Some(ww) && composite_type_word(ww) && prim_type(ww) is None,
                    old(self).word_here() != Some("ptr"@) && old(self).word_here() != Some("array"@),
                decreases self.tokens@.len() - self.pos,
            {
                if self.peek_is_punct(')') {
                    self.bump();
                    break;
                }
                if self.peek_is_ellipsis() {
                    self.bump();
                    variadic = true;
                    self.expect_punct(')')?;
                    break;
                }
                let t = self.parse_type()?;
                params.push(t);
                if self.peek_is_value_ref() {
                    self.bump();
                }
                if self.peek_is_punct(',') {
                    self.bump();
                } else {
                    self.expect_punct(')')?;
                    break;
                }
            }
            self.expect_arrow()?;
            let result = self.parse_type()?;
            let ghost t0 = self.module.types.types@;
            let id = self.module.types.function(params.as_slice(), variadic, result);
            proof {
                lemma_types_grow(t0, self.module.types.types@);
            }
            Ok(id)
        } else {
            Err(ParseError::InvalidType { line, reason: cat3("unknown type `", w, "`") })
        }
    }

    // -- module ----------------------------------------------------------------

    #[verifier::rlimit(100)]
    #[verifier::spinoff_prover]
    fn parse_module<F: Fn(&str, bool) -> Option<u64>>(&mut self, float_bits: &F) -> (r: Result<(), ParseError>)
        requires
            old(self).pos <= old(self).tokens@.len(),
            forall|t: &str, single: bool| float_bits.requires((t, single)),
        ensures
            Self::moved(old(self), final(self)),
            r is Ok ==> final(self).pos == final(self).tokens@.len()
                && versions_supported(final(self).tokens@, old(self).pos as int, final(self).pos as int),
            old(self).raw_names_distinct() ==> final(self).raw_names_distinct(),
            !marker_at(old(self).tokens@, old(self).pos as int, "MODULE_START"@) ==> (r matches Err(e) && old(self).unexpected_here(
                e,
                "`::ASTRONOMY::MODULE_START`"@,
            )),
            marker_at(old(self).tokens@, old(self).pos as int, "MODULE_START"@) && marker_at(
                old(self).tokens@,
                old(self).pos + 1,
                "MODULE_VERSION"@,
            ) ==> forall|n: int|
                #![trigger int_at(old(self).tokens@, old(self).pos + 2, n)]
                int_at(old(self).tokens@, old(self).pos + 2, n) && n != 1 ==> if 0 <= n <= u32::MAX {
                    r == Err::<(), ParseError>(
                        ParseError::UnsupportedVersion {
                            line: old(self).tokens@[old(self).pos + 2].line,
                            found: n as u32,
                            supported: 1,
                        },
                    )
                } else {
                    r matches Err(ParseError::InvalidNumber { line, .. }) && line == old(self).tokens@[old(self).pos + 2].line
                },
            marker_at(old(self).tokens@, old(self).pos as int, "MODULE_START"@) && marker_at(
                old(self).tokens@,
                old(self).pos + 1,
                "MODULE_END"@,
            ) && old(self).tokens@.len() == old(self).pos + 2 ==> r is Ok && final(self).module == old(self).module
                && final(self).functions == old(self).functions,
            marker_at(old(self).tokens@, old(self).pos as int, "MODULE_START"@) && marker_at(
                old(self).tokens@,
                old(self).pos + 1,
                "MODULE_VERSION"@,
            ) && int_at(old(self).tokens@, old(self).pos + 2, 1) && marker_at(old(self).tokens@, old(self).pos + 3, "MODULE_END"@)
                && old(self).tokens@.len() == old(self).pos + 4 ==> r is Ok && final(self).functions == old(self).functions
                && final(self).module.version == ArnVersion::CURRENT() && final(self).module.constants == old(self).module.constants
                && final(self).module.functions == old(self).module.functions && final(self).module.name == old(self).module.name
                && final(self).module.symbols == old(self).module.symbols && final(self).module.types == old(self).module.types,
            old(self).function_names@.len() == 0 && duplicate_declarations_at(old(self).tokens@, old(self).pos as int) ==> (r matches Err(
                ParseError::DuplicateFunction { line, name },
            ) && line == old(self).tokens@[decl_end(old(self).tokens@, old(self).pos + 3)].line && Some(name@) == word_at(
                old(self).tokens@,
                old(self).pos + 4,
            )),
    {
        proof {
            lemma_directive_names();
        }
        let ghost dup = old(self).function_names@.len() == 0 && duplicate_declarations_at(old(self).tokens@, old(self).pos as int);
        let ghost q1 = decl_end(old(self).tokens@, old(self).pos + 3);
        proof {
            reveal_strlit("`::ASTRONOMY::");
            reveal_strlit("MODULE_START");
            reveal_strlit("`");
            reveal_strlit("`::ASTRONOMY::MODULE_START`");
            assert("`::ASTRONOMY::"@ + "MODULE_START"@ + "`"@ =~= "`::ASTRONOMY::MODULE_START`"@);
        }
        self.expect_marker("MODULE_START")?;
        loop
            invariant
                Self::moved(old(self), self),
                old(self).raw_names_distinct() ==> self.raw_names_distinct(),
                versions_supported(self.tokens@, old(self).pos as int, self.pos as int),
                forall|t: &str, single: bool| float_bits.requires((t, single)),
                self.pos >= old(self).pos + 1,
                marker_at(old(self).tokens@, old(self).pos as int, "MODULE_START"@),
                self.pos == old(self).pos + 1 ==> self.module == old(self).module && self.functions == old(self).functions,
                self.pos > old(self).pos + 1 ==> !marker_at(old(self).tokens@, old(self).pos + 1, "MODULE_END"@),
                marker_at(old(self).tokens@, old(self).pos + 1, "MODULE_VERSION"@) && self.pos == old(self).pos + 3 ==> {
                    &&& self.functions == old(self).functions
                    &&& self.module.version == ArnVersion::CURRENT()
                    &&& self.module.constants == old(self).module.constants
                    &&& self.module.functions == old(self).module.functions
                    &&& self.module.name == old(self).module.name
                    &&& self.module.symbols == old(self).module.symbols
                    &&& self.module.types == old(self).module.types
                },
                marker_at(old(self).tokens@, old(self).pos + 1, "MODULE_VERSION"@) && self.pos > old(self).pos + 1 ==> self.pos
                    >= old(self).pos + 3,
                marker_at(old(self).tokens@, old(self).pos + 1, "MODULE_VERSION"@) && self.pos > old(self).pos + 3 ==> !marker_at(
                    old(self).tokens@,
                    old(self).pos + 3,
                    "MODULE_END"@,
                ),
                dup == (old(self).function_names@.len() == 0 && duplicate_declarations_at(old(self).tokens@, old(self).pos as int)),
                q1 == decl_end(old(self).tokens@, old(self).pos + 3),
                dup ==> {
                    ||| self.pos == old(self).pos + 1 && self.function_names@.len() == 0
                    ||| self.pos == old(self).pos + 3 && self.function_names@.len() == 0
                    ||| self.pos == q1 && self.function_names@.len() == 1 && Some(self.function_names@[0]@) == word_at(
                        old(self).tokens@,
                        old(self).pos + 4,
                    )
                },
            decreases self.tokens@.len() - self.pos,
        {
            let ghost start = *self;
            proof {
                lemma_end_name();
                lemma_module_directive_words();
            }
            if self.pos >= self.tokens.len() {
                return Err(ParseError::UnexpectedEof { expected: concat_strs(&["`::ASTRONOMY::MODULE_END`"]) });
            }
            proof {
                lemma_directive_names();
            }
            let name = match self.peek_marker() {
                Some(m) => m,
                None => {
                    return Err(ParseError::UnexpectedToken {
                        line: self.line(),
                        expected: concat_strs(&["a module directive"]),
                        found: self.found_here(),
                    });
                },
            };
            let n = name.as_str();
            if str_eq(n, "MODULE_NAME") {
                self.bump();
                let (bytes, _) = self.expect_str()?;
                let text = match crate::textbuf::string_from_utf8(bytes) {
                    Some(t) => t,
                    None => {
                        return Err(ParseError::InvalidString {
                            line: self.line(),
                            reason: concat_strs(&["module name must be valid UTF-8"]),
                        });
                    },
                };
                self.module.set_name(text.as_str());
            } else if str_eq(n, "MODULE_VERSION") {
                self.bump();
                let (major, line) = self.expect_int("a version number")?;
                if !(0 <= major && major <= 0xFFFF_FFFFi128) {
                    return Err(ParseError::InvalidNumber { line, reason: concat_strs(&["version out of range"]) });
                }
                if major as u32 != ArnVersion::SUPPORTED_MAJOR {
                    return Err(ParseError::UnsupportedVersion {
                        line,
                        found: major as u32,
                        supported: ArnVersion::SUPPORTED_MAJOR,
                    });
                }
                self.module.set_version(ArnVersion { major: major as u32, minor: 0 });
            } else if str_eq(n, "CONSTANTS_START") {
                self.bump();
                self.parse_constants(float_bits)?;
            } else if str_eq(n, "FUNCTION_START") {
                let f = self.parse_function()?;
                if self.has_function_named(f.name.as_str()) {
                    return Err(ParseError::DuplicateFunction { line: f.line, name: f.name.clone() });
                }
                let ghost before = *self;
                self.function_names.push(f.name.clone());
                self.functions.push(f);
                proof {
                    if before.raw_names_distinct() {
                        let n = before.functions@.len() as int;
                        assert forall|a: int| 0 <= a < n implies self.functions@[a].name@ != self.functions@[n].name@ by {
                            assert(before.function_names@[a]@ == before.functions@[a].name@);
                        }
                        assert(self.raw_names_distinct());
                    }
                }
            } else if str_eq(n, "MODULE_END") {
                self.bump();
                if self.pos < self.tokens.len() {
                    return Err(ParseError::UnexpectedToken {
                        line: self.line(),
                        expected: concat_strs(&["end of input after `::ASTRONOMY::MODULE_END`"]),
                        found: self.found_here(),
                    });
                }
                return Ok(());
            } else {
                return Err(ParseError::UnknownDirective { line: self.line(), name: name.clone() });
            }
        }
    }

    // -- constants ---------------------------------------------------------------

    fn parse_constant_ref(&mut self) -> (r: Result<ConstantId, ParseError>)
        requires
            old(self).pos <= old(self).tokens@.len(),
        ensures
            r is Ok <==> (cref_at(old(self).tokens@, old(self).pos as int) matches Some(i) && (i as int) < old(
                self,
            ).module.constants.constants@.len()),
            r matches Ok(c) ==> cref_at(old(self).tokens@, old(self).pos as int) == Some(c.0) && final(self).pos == old(
                self,
            ).pos + 1,
            old(self).kind_here() matches Some(TokenKind::Ident(_)) ==> final(self).pos == old(self).pos + 1,
            Self::advanced(old(self), final(self)),
            r is Ok ==> Self::progressed(old(self), final(self)),
            final(self).module == old(self).module,
    {
        let (text, line) = self.expect_ident("a constant reference (`cN`)")?;
        let index = match parse_cref(text.as_str()) {
            Some(i) => i,
            None => {
                return Err(ParseError::UnexpectedToken {
                    line,
                    expected: concat_strs(&["a constant reference (`cN`)"]),
                    found: concat_strs(&["`", text.as_str(), "`"]),
                });
            },
        };
        if index as usize >= self.module.constants.len() {
            return Err(ParseError::UndefinedConstant { line, name: text });
        }
        Ok(ConstantId::new(index))
    }

    fn expect_fresh_constant_ref(&mut self) -> (r: Result<u32, ParseError>)
        requires
            old(self).pos <= old(self).tokens@.len(),
        ensures
            r is Ok <==> (cref_at(old(self).tokens@, old(self).pos as int) matches Some(i) && i as int == old(
                self,
            ).module.constants.constants@.len()),
            r matches Ok(i) ==> cref_at(old(self).tokens@, old(self).pos as int) == Some(i) && final(self).pos == old(
                self,
            ).pos + 1,
            Self::advanced(old(self), final(self)),
            Self::same_state(old(self), final(self)),
            r is Ok ==> Self::progressed(old(self), final(self)),
    {
        let (text, line) = self.expect_ident("a new constant id (`cN`)")?;
        let index = match parse_cref(text.as_str()) {
            Some(i) => i,
            None => {
                return Err(ParseError::UnexpectedToken {
                    line,
                    expected: concat_strs(&["a new constant id (`cN`)"]),
                    found: concat_strs(&["`", text.as_str(), "`"]),
                });
            },
        };
        if index as usize != self.module.constants.len() {
            let a = dec_string(index as u128);
            let b = dec_string(self.module.constants.len() as u128);
            return Err(ParseError::MisplacedDirective {
                line,
                name: concat_strs(&["CONSTANT_* c", a.as_str()]),
                reason: concat_strs(&["constants must be defined in index order; expected c", b.as_str()]),
            });
        }
        Ok(index)
    }

    fn peek_is_cref(&self) -> (r: bool)
        ensures
            r == cref_at(self.tokens@, self.pos as int) is Some,
            r ==> (self.pos as int) < self.tokens@.len(),
    {
        match self.peek() {
            Some(TokenKind::Ident(t)) => parse_cref(t.as_str()).is_some(),
            _ => false,
        }
    }

    fn parse_constants<F: Fn(&str, bool) -> Option<u64>>(&mut self, float_bits: &F) -> (r: Result<(), ParseError>)
        requires
            old(self).pos <= old(self).tokens@.len(),
            forall|t: &str, single: bool| float_bits.requires((t, single)),
        ensures
            Self::advanced(old(self), final(self)),
            r is Ok ==> Self::progressed(old(self), final(self)),
            int_section(
                old(self).module.types.types@,
                old(self).tokens@,
                old(self).pos as int,
                old(self).module.constants.constants@,
            ) matches Some((pool, e)) ==> (r is Ok && final(self).module.constants.constants@ == pool && final(self).pos == e
                && final(self).module.types == old(self).module.types),
    {
        proof {
            lemma_directive_names();
        }
        let ghost sec = int_section(
            old(self).module.types.types@,
            old(self).tokens@,
            old(self).pos as int,
            old(self).module.constants.constants@,
        );
        loop
            invariant
                Self::advanced(old(self), self),
                Self::clean(old(self), self),
                forall|t: &str, single: bool| float_bits.requires((t, single)),
                sec == int_section(
                    old(self).module.types.types@,
                    old(self).tokens@,
                    old(self).pos as int,
                    old(self).module.constants.constants@,
                ),
                sec is Some ==> int_section(
                    old(self).module.types.types@,
                    self.tokens@,
                    self.pos as int,
                    self.module.constants.constants@,
                ) == sec && self.module.types == old(self).module.types,
            decreases self.tokens@.len() - self.pos,
        {
            if self.pos >= self.tokens.len() {
                return Err(ParseError::UnexpectedEof { expected: concat_strs(&["`::ASTRONOMY::CONSTANTS_END`"]) });
            }
            proof {
                lemma_directive_names();
                lemma_constant_directive_words();
            }
            let name = match self.peek_marker() {
                Some(m) => m,
                None => {
                    return Err(ParseError::UnexpectedToken {
                        line: self.line(),
                        expected: concat_strs(&["a constant directive"]),
                        found: self.found_here(),
                    });
                },
            };
            let n = name.as_str();
            if str_eq(n, "CONSTANT_INT") {
                self.bump();
                self.expect_fresh_constant_ref()?;
                let ty = self.parse_type()?;
                let data = self.parse_int_literal(ty)?;
                let ghost pool0 = self.module.constants.constants@;
                self.module.intern_constant(data);
                proof {
                    assert(self.module.constants.constants@ == pool_with(pool0, data));
                }
            } else if str_eq(n, "CONSTANT_FLOAT") {
                self.bump();
                self.expect_fresh_constant_ref()?;
                let ty = self.parse_type()?;
                let data = self.parse_float_literal(ty, float_bits)?;
                self.module.intern_constant(data);
            } else if str_eq(n, "CONSTANT_NULL") {
                self.bump();
                self.expect_fresh_constant_ref()?;
                let ty = self.parse_type()?;
                let line = self.line();
                let pointee = match self.module.types.get(ty) {
                    Some(TypeData::Pointer { pointee, .. }) => *pointee,
                    _ => {
                        let t = self.module.type_label(ty);
                        return Err(ParseError::InvalidType { line, reason: concat_strs(&["`", t.as_str(), "` is not a pointer type"]) });
                    },
                };
                self.module.intern_constant(ConstantData::Null { pointee });
            } else if str_eq(n, "CONSTANT_STRING") {
                self.bump();
                self.expect_fresh_constant_ref()?;
                let (bytes, _) = self.expect_str()?;
                self.module.intern_constant(ConstantData::String { bytes });
            } else if str_eq(n, "CONSTANT_AGGREGATE") {
                self.bump();
                self.expect_fresh_constant_ref()?;
                let ty = self.parse_type()?;
                let line = self.line();
                let (arity, is_array, element) = match self.module.types.get(ty) {
                    Some(TypeData::Array { element, length }) => (*length, true, *element),
                    Some(TypeData::Struct { fields }) => (fields.len() as u64, false, TypeId(0)),
                    _ => {
                        let t = self.module.type_label(ty);
                        return Err(ParseError::InvalidType { line, reason: concat_strs(&["`", t.as_str(), "` is not an aggregate type"]) });
                    },
                };
                let elements = self.parse_crefs()?;
                self.check_aggregate_elements(ty, is_array, element, arity, line, &elements)?;
                self.module.intern_constant(ConstantData::Aggregate { ty, elements });
            } else if str_eq(n, "CONSTANTS_END") {
                self.bump();
                return Ok(());
            } else {
                return Err(ParseError::MisplacedDirective {
                    line: self.line(),
                    name: name.clone(),
                    reason: concat_strs(&["expected a constant directive or `CONSTANTS_END`"]),
                });
            }
        }
    }

    /// The integer constant of type `ty` written by the literal at the
    /// current position: an `i128` literal is masked to the type's width;
    /// a literal above `i128::MAX` is taken only by a 128-bit unsigned type.
    fn parse_int_literal(&mut self, ty: TypeId) -> (r: Result<ConstantData, ParseError>)
        requires
            old(self).pos <= old(self).tokens@.len(),
        ensures
            Self::same_state(old(self), final(self)),
            final(self).tokens == old(self).tokens,
            old(self).pos <= final(self).pos <= final(self).tokens@.len(),
            r is Ok ==> final(self).pos == old(self).pos + 1,
            r is Ok <==> int_literal(old(self).module.types.types@, ty, old(self).kind_here()) is Some,
            r matches Ok(d) ==> int_literal(old(self).module.types.types@, ty, old(self).kind_here()) == Some(d),
            r matches Err(e) ==> match old(self).kind_here() {
                Some(TokenKind::Int(_)) | Some(TokenKind::UInt(_)) => match old(self).module.types.spec_get(ty) {
                    Some(TypeData::Int { .. }) => e is InvalidNumber,
                    _ => e is InvalidType,
                },
                _ => old(self).unexpected_here(e, "an integer (an integer value)"@),
            },
    {
        let line = self.line();
        let lit = match self.peek() {
            Some(TokenKind::Int(v)) => Some((*v, 0u128, false)),
            Some(TokenKind::UInt(v)) => Some((0i128, *v, true)),
            _ => None,
        };
        let (value, big, is_big) = match lit {
            Some(x) => x,
            None => {
                proof {
                    reveal_strlit("an integer (");
                    reveal_strlit("an integer value");
                    reveal_strlit(")");
                    reveal_strlit("an integer (an integer value)");
                    assert("an integer ("@ + "an integer value"@ + ")"@ =~= "an integer (an integer value)"@);
                }
                let parts = ["an integer (", "an integer value", ")"];
                return Err(self.unexpected(join3(&parts)));
            },
        };
        self.bump();
        let (width, signed) = match self.module.types.get(ty) {
            Some(TypeData::Int { bits, signed }) => (*bits, *signed),
            _ => {
                let t = self.module.type_label(ty);
                return Err(ParseError::InvalidType { line, reason: concat_strs(&["`", t.as_str(), "` is not an integer type"]) });
            },
        };
        if is_big {
            if signed || width < 128 {
                let t = self.module.type_label(ty);
                return Err(ParseError::InvalidNumber {
                    line,
                    reason: concat_strs(&["integer literal out of range for `", t.as_str(), "`"]),
                });
            }
            Ok(ConstantData::Int { ty, width, bits: ConstantStore::mask_unsigned(big, width) })
        } else {
            Ok(ConstantData::Int { ty, width, bits: ConstantStore::mask_signed(value, width) })
        }
    }

    /// The float constant of type `ty` written by the literal at the
    /// current position: float text, the integer `0`, or one of the special
    /// forms `nan`, `NaN` and `inf` (`-inf` is float text). The literal's
    /// text goes to `float_bits`, whose bit pattern becomes the constant.
    fn parse_float_literal<F: Fn(&str, bool) -> Option<u64>>(&mut self, ty: TypeId, float_bits: &F) -> (r: Result<ConstantData, ParseError>)
        requires
            old(self).pos <= old(self).tokens@.len(),
            forall|t: &str, single: bool| float_bits.requires((t, single)),
        ensures
            Self::same_state(old(self), final(self)),
            final(self).tokens == old(self).tokens,
            old(self).pos <= final(self).pos <= final(self).tokens@.len(),
            r is Ok ==> final(self).pos == old(self).pos + 1,
            float_literal_text(old(self).kind_here()) is None ==> (r matches Err(e) && old(self).unexpected_here(e, "a float value"@)),
            float_literal_text(old(self).kind_here()) is Some && ty != TypeId(12) && ty != TypeId(13) ==> (r matches Err(e) && e is InvalidType),
            r matches Ok(d) ==> float_literal_text(old(self).kind_here()) is Some && (ty == TypeId(12) || ty == TypeId(13))
                && d is Float && d->Float_ty == ty && exists|text: &str|
                #![trigger text@]
                text@ == float_literal_text(old(self).kind_here())->0 && call_ensures(
                    *float_bits,
                    (text, is_f32_id(ty)),
                    Some(d->Float_bits),
                ),
            r matches Err(e) ==> e is InvalidNumber ==> float_literal_text(old(self).kind_here()) is Some && (ty == TypeId(12)
                || ty == TypeId(13)),
    {
        let line = self.line();
        let raw = match self.peek() {
            Some(TokenKind::FloatText(t)) => Some(t.clone()),
            Some(TokenKind::Int(v)) => if *v == 0 {
                Some("0.0".to_owned())
            } else {
                None
            },
            Some(TokenKind::Ident(t)) => if str_eq(t.as_str(), "nan") || str_eq(t.as_str(), "NaN") || str_eq(t.as_str(), "inf") {
                Some(t.clone())
            } else {
                None
            },
            _ => None,
        };
        let raw = match raw {
            Some(t) => {
                self.bump();
                t
            },
            None => {
                return Err(self.unexpected("a float value".to_owned()));
            },
        };
        let is_f32 = ty.0 == TypeId::F32().0;
        if !is_f32 && ty.0 != TypeId::F64().0 {
            let t = self.module.type_label(ty);
            return Err(ParseError::InvalidType { line, reason: concat_strs(&["`", t.as_str(), "` is not a float type"]) });
        }
        let text = raw.as_str();
        match float_bits(text, is_f32) {
            Some(bits) => {
                proof {
                    assert(text@ == float_literal_text(old(self).kind_here())->0);
                    let t = float_literal_text(old(self).kind_here())->0;
                    assert(is_f32 == is_f32_id(ty));
                    assert(text@ == t && float_bits.ensures((text, is_f32_id(ty)), Some(bits)));
                    assert(call_ensures(*float_bits, (text, is_f32_id(ty)), Some(bits)));
                }
                Ok(ConstantData::Float { ty, bits })
            },
            None => Err(ParseError::InvalidNumber { line, reason: concat_strs(&["invalid float literal `", text, "`"]) }),
        }
    }

    fn has_function_named(&self, name: &str) -> (r: bool)
        ensures
            r == exists|k: int| 0 <= k < self.function_names@.len() && (#[trigger] self.function_names@[k])@ == name@,
    {
        let mut k: usize = 0;
        while k < self.function_names.len()
            invariant
                k <= self.function_names@.len(),
                forall|j: int| 0 <= j < k ==> (#[trigger] self.function_names@[j])@ != name@,
            decreases self.function_names@.len() - k,
        {
            if str_eq(self.function_names[k].as_str(), name) {
                return true;
            }
            k = k + 1;
        }
        false
    }

    /// Parses constant references while the next token is one.
    fn parse_crefs(&mut self) -> (r: Result<Vec<ConstantId>, ParseError>)
        requires
            old(self).pos <= old(self).tokens@.len(),
        ensures
            r matches Ok(v) ==> final(self).pos == old(self).pos + v@.len() && cref_at(old(self).tokens@, final(self).pos as int)
                is None && forall|k: int|
                0 <= k < v@.len() ==> cref_at(old(self).tokens@, old(self).pos + k) == Some((#[trigger] v@[k]).0),
            r is Err ==> old(self).pos < final(self).pos && (cref_at(old(self).tokens@, final(self).pos - 1) matches Some(i)
                && i as int >= old(self).module.constants.constants@.len()),
            Self::advanced(old(self), final(self)),
            r is Ok ==> Self::clean(old(self), final(self)),
            final(self).module == old(self).module,
    {
        let mut elements: Vec<ConstantId> = Vec::new();
        while self.peek_is_cref()
            invariant
                Self::advanced(old(self), self),
                Self::clean(old(self), self),
                self.module == old(self).module,
                self.pos == old(self).pos + elements@.len(),
                forall|k: int| 0 <= k < elements@.len() ==> cref_at(old(self).tokens@, old(self).pos + k) == Some((#[trigger] elements@[k]).0),
            decreases self.tokens@.len() - self.pos,
        {
            let ghost before = *self;
            let ghost prev = elements@;
            let c = self.parse_constant_ref()?;
            elements.push(c);
            proof {
                assert(cref_at(old(self).tokens@, before.pos as int) == Some(c.0));
                assert forall|k: int| 0 <= k < elements@.len() implies cref_at(old(self).tokens@, old(self).pos + k) == Some(
                    (#[trigger] elements@[k]).0,
                ) by {
                    if k < prev.len() {
                        assert(elements@[k] == prev[k]);
                    }
                }
            }
        }
        Ok(elements)
    }

    /// Checks the elements of an aggregate constant against its fields.
    fn check_aggregate_elements(
        &self,
        ty: TypeId,
        is_array: bool,
        element: TypeId,
        arity: u64,
        line: u32,
        elements: &Vec<ConstantId>,
    ) -> (r: Result<(), ParseError>)
        ensures
            r is Ok <==> elements@.len() == arity && forall|i: int|
                0 <= i < elements@.len() ==> element_fits(self.module, ty, is_array, element, i, #[trigger] elements@[i]),
            r matches Err(e) ==> e is InvalidStructure,
    {
        if elements.len() as u64 != arity {
            let t = self.module.type_label(ty);
            let a = dec_string(arity as u128);
            let b = dec_string(elements.len() as u128);
            return Err(ParseError::InvalidStructure {
                line,
                reason: concat_strs(&["aggregate constant of `", t.as_str(), "` needs ", a.as_str(), " element(s), found ", b.as_str()]),
            });
        }
        let mut i: usize = 0;
        while i < elements.len()
            invariant
                i <= elements@.len(),
                forall|j: int| 0 <= j < i ==> element_fits(self.module, ty, is_array, element, j, #[trigger] elements@[j]),
            decreases elements@.len() - i,
        {
            let cid = elements[i];
            let field = if is_array {
                element
            } else {
                match self.module.types.get(ty) {
                    Some(TypeData::Struct { fields }) => if i < fields.len() {
                        fields[i]
                    } else {
                        TypeId(0)
                    },
                    _ => TypeId(0),
                }
            };
            let fits = match self.module.constants.get(cid) {
                Some(data) => constant_fits_type(&self.module.types, data, field),
                None => false,
            };
            if !fits {
                let k = dec_string(i as u128);
                let t = self.module.type_label(field);
                return Err(ParseError::InvalidStructure {
                    line,
                    reason: concat_strs(&["aggregate element ", k.as_str(), " does not match field type `", t.as_str(), "`"]),
                });
            }
            i = i + 1;
        }
        Ok(())
    }

    // -- functions ----------------------------------------------------------------

    fn parse_function(&mut self) -> (r: Result<RawFunction, ParseError>)
        requires
            old(self).pos < old(self).tokens@.len(),
            !is_version_marker(old(self).tokens@[old(self).pos as int].kind),
        ensures
            Self::advanced(old(self), final(self)),
            r is Ok ==> Self::progressed(old(self), final(self)),
            r matches Ok(f) ==> word_at(old(self).tokens@, old(self).pos + 1) == Some(f.name@) && spec_is_ident(
                encode_utf8(f.name@),
            ) && f.line == old(self).tokens@[old(self).pos as int].line && word_at(old(self).tokens@, old(self).pos + 2)
                == Some("fn"@),
            word_at(old(self).tokens@, old(self).pos + 1) is None ==> (r matches Err(e) && (e is UnexpectedToken
                || e is UnexpectedEof)),
            word_at(old(self).tokens@, old(self).pos + 1) is Some && !spec_is_ident(encode_utf8(word_at(old(self).tokens@, old(self).pos + 1)->0))
                ==> (r matches Err(ParseError::ReservedName { line, name, .. }) && line == old(self).tokens@[old(self).pos + 1].line
                && Some(name@) == word_at(old(self).tokens@, old(self).pos + 1)),
            word_at(old(self).tokens@, old(self).pos + 2) != Some("fn"@) ==> r is Err,
            r matches Ok(f) ==> header_fits(old(self).tokens@, old(self).pos as int, f.variadic, f.result, f.linkage, f.abi),
            r matches Ok(f) ==> (simple_params(old(self).tokens@, old(self).pos + 4) is Some ==> params_fit(
                old(self).tokens@,
                f.params@,
                simple_param_items(old(self).tokens@, old(self).pos + 4),
            ) && ptr_params_fit(
                old(self).tokens@,
                final(self).module.types.types@,
                f.params@,
                simple_param_items(old(self).tokens@, old(self).pos + 4),
            )),
            declaration_at(old(self).tokens@, old(self).pos as int) ==> (r matches Ok(f) && f.blocks@.len() == 0 && final(self).pos
                == decl_end(old(self).tokens@, old(self).pos as int)),
    {
        proof {
            lemma_directive_names();
            lemma_type_words();
            lemma_attribute_words();
        }
        let ghost toks = old(self).tokens@;
        let ghost p0 = old(self).pos as int;
        let ghost shape = simple_params(toks, p0 + 4);
        let line = self.line();
        self.bump();
        let (name, name_line) = self.expect_ident("a function name")?;
        if !is_valid_ident(name.as_str()) {
            return Err(ParseError::ReservedName {
                line: name_line,
                name,
                reason: concat_strs(&["function names must be identifiers"]),
            });
        }
        let (kw, kw_line) = self.expect_ident("`fn`")?;
        if !str_eq(kw.as_str(), "fn") {
            return Err(ParseError::UnexpectedToken {
                line: kw_line,
                expected: concat_strs(&["`fn`"]),
                found: concat_strs(&["`", kw.as_str(), "`"]),
            });
        }
        self.expect_punct('(')?;
        proof {
            assert(self.pos == p0 + 4);
            assert(punct_at(toks, p0 + 3, '('));
        }
        let mut params: Vec<RawParam> = Vec::new();
        let mut variadic = false;
        let ghost mut done: Seq<(Option<Seq<char>>, int)> = Seq::empty();
        loop
            invariant_except_break
                shape is Some ==> simple_params(toks, self.pos as int) == shape && !variadic,
                shape is Some ==> simple_param_items(toks, p0 + 4) == done + simple_param_items(toks, self.pos as int),
            invariant
                params_fit(toks, params@, done),
                ptr_params_fit(toks, self.module.types.types@, params@, done),
                Self::progressed(old(self), self),
                word_at(old(self).tokens@, old(self).pos + 1) == Some(name@),
                spec_is_ident(encode_utf8(name@)),
                word_at(old(self).tokens@, old(self).pos + 2) == Some("fn"@),
                line == old(self).tokens@[old(self).pos as int].line,
                toks == old(self).tokens@,
                p0 == old(self).pos as int,
                shape == simple_params(toks, p0 + 4),
                punct_at(toks, p0 + 3, '('),
            ensures
                Self::progressed(old(self), self),
                word_at(old(self).tokens@, old(self).pos + 1) == Some(name@),
                spec_is_ident(encode_utf8(name@)),
                word_at(old(self).tokens@, old(self).pos + 2) == Some("fn"@),
                line == old(self).tokens@[old(self).pos as int].line,
                toks == old(self).tokens@,
                p0 == old(self).pos as int,
                shape == simple_params(toks, p0 + 4),
                punct_at(toks, p0 + 3, '('),
                shape matches Some((e, var)) ==> self.pos == e && variadic == var,
                shape is Some ==> done == simple_param_items(toks, p0 + 4),
                params_fit(toks, params@, done),
                ptr_params_fit(toks, self.module.types.types@, params@, done),
            decreases self.tokens@.len() - self.pos,
        {
            let ghost q = self.pos as int;
            if self.peek_is_punct(')') {
                self.bump();
                break;
            }
            if self.peek_is_ellipsis() {
                self.bump();
                variadic = true;
                self.expect_punct(')')?;
                break;
            }
            let ghost tq = self.module.types.types@;
            let ty = self.parse_type()?;
            let ghost ta = self.module.types.types@;
            proof {
                lemma_ptr_params_grow(toks, tq, ta, params@, done);
            }
            let handle = match self.peek() {
                Some(TokenKind::ValueRef(v)) => Some(v.clone()),
                _ => None,
            };
            if handle.is_some() {
                self.bump();
            }
            let ghost before = params@;
            params.push(RawParam { handle, ty });
            proof {
                if ta.len() <= u32::MAX && simple_type_len(toks, q) == Some(4int) {
                    lemma_interned_pointer(tq, ptr_to(word_at(toks, q + 2)->0), ta, ty);
                }
                let nd = done.push((handle_of(params@[params@.len() - 1]), q));
                assert forall|k: int|
                    0 <= k < params@.len() && k < nd.len() && simple_type_len(toks, nd[k].1) == Some(4int) && ta.len() <= u32::MAX
                        implies type_is(ta, (#[trigger] params@[k]).ty, ptr_to(word_at(toks, nd[k].1 + 2)->0)) by {
                    if k < before.len() {
                        assert(params@[k] == before[k]);
                    }
                }
            }
            proof {
                let item = (handle_of(params@[params@.len() - 1]), q);
                done = done.push(item);
                assert forall|k: int| 0 <= k < params@.len() implies handle_of(#[trigger] params@[k]) == done[k].0 && ((word_at(
                    toks,
                    done[k].1,
                ) matches Some(w) && prim_type(w) is Some) ==> params@[k].ty == prim_type(word_at(toks, done[k].1)->0)->0) by {
                    if k < before.len() {
                        assert(params@[k] == before[k]);
                    }
                }
            }
            if self.peek_is_punct(',') {
                self.bump();
            } else {
                self.expect_punct(')')?;
                break;
            }
        }
        let ghost hyp = shape matches Some((e, var)) && kind_at(toks, e, TokenKind::Arrow) && (word_at(toks, e + 1) matches Some(w)
            && prim_type(w) is Some);
        let ghost e = (shape->0).0;
        let ghost tp = self.module.types.types@;
        let ghost items = simple_param_items(toks, p0 + 4);
        proof {
            if shape is Some {
                assert(ptr_params_fit(toks, tp, params@, items));
            }
        }
        self.expect_arrow()?;
        let result = self.parse_type()?;
        let mut linkage = Linkage::External;
        let mut abi = Abi::Astronomy;
        let ghost attrs = header_attrs(toks, e + 2, Linkage::External, Abi::Astronomy);
        proof {
            if hyp {
                assert(self.pos == e + 2);
                assert(result == prim_type(word_at(toks, e + 1)->0)->0);
            }
        }
        while self.peek_is_ident("linkage") || self.peek_is_ident("abi")
            invariant
                Self::progressed(old(self), self),
                word_at(old(self).tokens@, old(self).pos + 1) == Some(name@),
                spec_is_ident(encode_utf8(name@)),
                word_at(old(self).tokens@, old(self).pos + 2) == Some("fn"@),
                line == old(self).tokens@[old(self).pos as int].line,
                toks == old(self).tokens@,
                attrs == header_attrs(toks, e + 2, Linkage::External, Abi::Astronomy),
                hyp ==> (shape matches Some((ee, var)) && ee == e && variadic == var && result == prim_type(word_at(toks, e + 1)->0)->0),
                hyp && attrs is Some ==> header_attrs(toks, self.pos as int, linkage, abi) == attrs,
                hyp && attrs is Some ==> attrs_end(toks, self.pos as int) == attrs_end(toks, e + 2),
                shape is Some ==> params_fit(toks, params@, simple_param_items(toks, p0 + 4)),
                shape is Some ==> ptr_params_fit(toks, tp, params@, items),
                items == simple_param_items(toks, p0 + 4),
                store_grown(tp, self.module.types.types@),
                p0 == old(self).pos as int,
                shape == simple_params(toks, p0 + 4),
                e == (shape->0).0,
                hyp == (shape matches Some((ee, var)) && kind_at(toks, ee, TokenKind::Arrow) && (word_at(toks, ee + 1) matches Some(w)
                    && prim_type(w) is Some)),
            decreases self.tokens@.len() - self.pos,
        {
            if self.peek_is_ident("linkage") {
                self.bump();
                self.expect_punct('=')?;
                let (value, vline) = self.expect_ident("a linkage")?;
                let v = value.as_str();
                if str_eq(v, "internal") {
                    linkage = Linkage::Internal;
                } else if str_eq(v, "external") {
                    linkage = Linkage::External;
                } else if str_eq(v, "exported") {
                    linkage = Linkage::Exported;
                } else {
                    return Err(ParseError::InvalidStructure { line: vline, reason: concat_strs(&["unknown linkage `", v, "`"]) });
                }
            } else {
                self.bump();
                self.expect_punct('=')?;
                let (value, vline) = self.expect_ident("an ABI")?;
                let v = value.as_str();
                if str_eq(v, "astronomy") {
                    abi = Abi::Astronomy;
                } else if str_eq(v, "c") {
                    abi = Abi::C;
                } else if str_eq(v, "system") {
                    abi = Abi::System;
                } else if str_eq(v, "custom") {
                    let (custom, cline) = self.expect_ident("a custom ABI name")?;
                    if !is_valid_ident(custom.as_str()) {
                        return Err(ParseError::ReservedName {
                            line: cline,
                            name: custom,
                            reason: concat_strs(&["ABI names must be identifiers"]),
                        });
                    }
                    abi = Abi::Custom(self.module.symbols.intern(custom.as_str()));
                } else {
                    return Err(ParseError::InvalidStructure { line: vline, reason: concat_strs(&["unknown ABI `", v, "`"]) });
                }
            }
        }
        proof {
            if hyp {
                assert(header_attrs(toks, self.pos as int, linkage, abi) == Some((linkage, abi)));
            }
            assert(header_fits(toks, p0, variadic, result, linkage, abi));
            if declaration_at(toks, p0) {
                assert(attrs_end(toks, self.pos as int) == self.pos);
            }
        }
        let mut blocks: Vec<RawBlock> = Vec::new();
        loop
            invariant
                Self::progressed(old(self), self),
                word_at(old(self).tokens@, old(self).pos + 1) == Some(name@),
                spec_is_ident(encode_utf8(name@)),
                word_at(old(self).tokens@, old(self).pos + 2) == Some("fn"@),
                line == old(self).tokens@[old(self).pos as int].line,
                toks == old(self).tokens@,
                p0 == old(self).pos as int,
                header_fits(toks, p0, variadic, result, linkage, abi),
                simple_params(toks, p0 + 4) is Some ==> params_fit(toks, params@, simple_param_items(toks, p0 + 4)),
                simple_params(toks, p0 + 4) is Some ==> ptr_params_fit(toks, tp, params@, items),
                items == simple_param_items(toks, p0 + 4),
                store_grown(tp, self.module.types.types@),
                declaration_at(toks, p0) ==> self.pos == attrs_end(toks, (simple_params(toks, p0 + 4)->0).0 + 2) && blocks@.len() == 0,
            decreases self.tokens@.len() - self.pos,
        {
            if self.pos >= self.tokens.len() {
                return Err(ParseError::UnexpectedEof { expected: concat_strs(&["`::ASTRONOMY::FUNCTION_END`"]) });
            }
            proof {
                lemma_directive_names();
                lemma_attribute_words();
            }
            let marker = match self.peek_marker() {
                Some(m) => m,
                None => {
                    return Err(ParseError::UnexpectedToken {
                        line: self.line(),
                        expected: concat_strs(&["`::ASTRONOMY::BLOCK_START` or `::ASTRONOMY::FUNCTION_END`"]),
                        found: self.found_here(),
                    });
                },
            };
            if str_eq(marker.as_str(), "BLOCK_START") {
                let b = self.parse_block()?;
                blocks.push(b);
            } else if str_eq(marker.as_str(), "FUNCTION_END") {
                self.bump();
                proof {
                    if simple_params(toks, p0 + 4) is Some {
                        lemma_ptr_params_grow(toks, tp, self.module.types.types@, params@, items);
                    }
                }
                return Ok(RawFunction { name, linkage, abi, params, result, variadic, blocks, line });
            } else {
                return Err(ParseError::MisplacedDirective {
                    line: self.line(),
                    name: marker.clone(),
                    reason: concat_strs(&["expected a block or the end of the function"]),
                });
            }
        }
    }

    /// Takes a value handle at the current position.
    fn take_value_ref(&mut self, expected: &str) -> (r: Result<(String, u32), ParseError>)
        requires
            old(self).pos <= old(self).tokens@.len(),
        ensures
            r is Ok <==> old(self).kind_here() matches Some(TokenKind::ValueRef(_)),
            r matches Ok((v, l)) ==> old(self).kind_here() == Some(TokenKind::ValueRef(v)) && l == old(
                self,
            ).tokens@[old(self).pos as int].line && final(self).pos == old(self).pos + 1,
            r matches Err(e) ==> old(self).unexpected_here(e, expected@),
            Self::advanced(old(self), final(self)),
            r is Ok ==> Self::progressed(old(self), final(self)),
            Self::same_state(old(self), final(self)),
    {
        let v = match self.peek() {
            Some(TokenKind::ValueRef(v)) => Some(v.clone()),
            _ => None,
        };
        match v {
            Some(v) => {
                let l = self.tokens[self.pos].line;
                self.bump();
                Ok((v, l))
            },
            None => Err(self.unexpected(expected.to_owned())),
        }
    }

    fn parse_block(&mut self) -> (r: Result<RawBlock, ParseError>)
        requires
            old(self).pos < old(self).tokens@.len(),
            !is_version_marker(old(self).tokens@[old(self).pos as int].kind),
        ensures
            Self::advanced(old(self), final(self)),
            r is Ok ==> Self::progressed(old(self), final(self)),
            return_first_then_more(old(self).tokens@, old(self).pos as int) ==> (r matches Err(
                ParseError::InstructionAfterTerminator { line },
            ) && line == old(self).tokens@[return_line_end(old(self).tokens@, old(self).pos + 2)->0].line),
    {
        proof {
            lemma_directive_names();
            lemma_attribute_words();
        }
        let ghost toks = old(self).tokens@;
        let ghost p0 = old(self).pos as int;
        let ghost h = return_first_then_more(toks, p0);
        let ghost e = return_line_end(toks, p0 + 2)->0;
        let line = self.line();
        self.bump();
        let (label, _) = self.expect_ident("a block label")?;
        let mut params: Vec<(String, TypeId, u32)> = Vec::new();
        if self.peek_is_punct('(') {
            self.bump();
            loop
                invariant
                    Self::progressed(old(self), self),
                    !return_first_then_more(old(self).tokens@, old(self).pos as int),
                decreases self.tokens@.len() - self.pos,
            {
                if self.peek_is_punct(')') {
                    self.bump();
                    break;
                }
                let ty = self.parse_type()?;
                let (handle, hline) = self.take_value_ref("a block parameter handle")?;
                params.push((handle, ty, hline));
                if self.peek_is_punct(',') {
                    self.bump();
                } else {
                    self.expect_punct(')')?;
                    break;
                }
            }
        }
        let mut insts: Vec<RawInst> = Vec::new();
        let mut terminator: Option<RawTerm> = None;
        proof {
            if h {
                assert(self.pos == p0 + 2);
            }
        }
        loop
            invariant
                Self::progressed(old(self), self),
                toks == old(self).tokens@,
                p0 == old(self).pos as int,
                h == return_first_then_more(toks, p0),
                e == return_line_end(toks, p0 + 2)->0,
                h ==> (self.pos == p0 + 2 && terminator is None) || (self.pos == e && terminator is Some),
            decreases self.tokens@.len() - self.pos,
        {
            if self.pos >= self.tokens.len() {
                return Err(ParseError::UnexpectedEof { expected: concat_strs(&["`::ASTRONOMY::BLOCK_END`"]) });
            }
            proof {
                lemma_directive_names();
                lemma_attribute_words();
            }
            let marker = self.peek_marker();
            let is_value = self.peek_is_value_ref();
            match marker {
                Some(m) => {
                    if str_eq(m.as_str(), "BLOCK_END") {
                        self.bump();
                        return Ok(RawBlock { label, params, insts, terminator, line });
                    } else if is_terminator_marker(m.as_str()) {
                        if terminator.is_some() {
                            return Err(ParseError::InstructionAfterTerminator { line: self.line() });
                        }
                        let t = self.parse_terminator(m.as_str())?;
                        terminator = Some(t);
                    } else {
                        if terminator.is_some() {
                            return Err(ParseError::InstructionAfterTerminator { line: self.line() });
                        }
                        let inst = self.parse_instruction()?;
                        insts.push(inst);
                    }
                },
                None => {
                    if is_value {
                        if terminator.is_some() {
                            return Err(ParseError::InstructionAfterTerminator { line: self.line() });
                        }
                        let inst = self.parse_instruction()?;
                        insts.push(inst);
                    } else {
                        return Err(ParseError::UnexpectedToken {
                            line: self.line(),
                            expected: concat_strs(&["an instruction, a terminator or `::ASTRONOMY::BLOCK_END`"]),
                            found: self.found_here(),
                        });
                    }
                },
            }
        }
    }

    fn parse_operand(&mut self) -> (r: Result<RawOperand, ParseError>)
        requires
            old(self).pos <= old(self).tokens@.len(),
        ensures
            r matches Ok(op) ==> final(self).pos >= 1 && old(self).tokens@[final(self).pos - 1].kind == TokenKind::ValueRef(
                op.handle,
            ) && op.line == old(self).tokens@[final(self).pos - 1].line,
            old(self).word_here() matches Some(w) && prim_type(w) is Some ==> (r is Ok <==> (old(self).pos + 1 < old(
                self,
            ).tokens@.len() && old(self).tokens@[old(self).pos + 1].kind is ValueRef)),
            old(self).word_here() matches Some(w) && prim_type(w) is Some ==> (r matches Ok(op) ==> op.ty == prim_type(old(self).word_here()->0)->0
                && final(self).pos == old(self).pos + 2),
            Self::advanced(old(self), final(self)),
            r is Ok ==> Self::progressed(old(self), final(self)),
    {
        let ty = self.parse_type()?;
        let (handle, line) = self.take_value_ref("a value handle (`%name`)")?;
        Ok(RawOperand { ty, handle, line })
    }

    fn parse_parenthesized_operands(&mut self) -> (r: Result<Vec<RawOperand>, ParseError>)
        requires
            old(self).pos <= old(self).tokens@.len(),
        ensures
            old(self).kind_here() != Some(TokenKind::Punct('(')) ==> (r matches Err(e) && old(self).unexpected_here(
                e,
                "`"@ + punct_text('(') + "`"@,
            )),
            r is Ok ==> old(self).kind_here() == Some(TokenKind::Punct('(')) && final(self).pos >= old(self).pos + 2
                && old(self).tokens@[final(self).pos - 1].kind == TokenKind::Punct(')'),
            old(self).kind_here() == Some(TokenKind::Punct('(')) && old(self).pos + 1 < old(self).tokens@.len() && old(
                self,
            ).tokens@[old(self).pos + 1].kind == TokenKind::Punct(')') ==> (r matches Ok(v) && v@.len() == 0
                && final(self).pos == old(self).pos + 2),
            Self::advanced(old(self), final(self)),
            r is Ok ==> Self::progressed(old(self), final(self)),
    {
        self.expect_punct('(')?;
        let mut args: Vec<RawOperand> = Vec::new();
        loop
            invariant_except_break
                Self::progressed(old(self), self),
                old(self).kind_here() == Some(TokenKind::Punct('(')),
                args@.len() == 0 ==> self.pos == old(self).pos + 1,
                args@.len() > 0 ==> !(old(self).pos + 1 < old(self).tokens@.len() && old(self).tokens@[old(self).pos + 1].kind
                    == TokenKind::Punct(')')),
            ensures
                Self::progressed(old(self), self),
                self.pos >= old(self).pos + 2,
                old(self).tokens@[self.pos - 1].kind == TokenKind::Punct(')'),
                old(self).pos + 1 < old(self).tokens@.len() && old(self).tokens@[old(self).pos + 1].kind == TokenKind::Punct(')')
                    ==> args@.len() == 0 && self.pos == old(self).pos + 2,
            decreases self.tokens@.len() - self.pos,
        {
            if self.peek_is_punct(')') {
                self.bump();
                break;
            }
            let a = self.parse_operand()?;
            args.push(a);
            if self.peek_is_punct(',') {
                self.bump();
            } else {
                self.expect_punct(')')?;
                break;
            }
        }
        Ok(args)
    }

    fn parse_branch_args(&mut self) -> (r: Result<Vec<RawOperand>, ParseError>)
        requires
            old(self).pos <= old(self).tokens@.len(),
        ensures
            old(self).kind_here() != Some(TokenKind::Punct('(')) ==> (r matches Ok(v) && v@.len() == 0 && *final(self)
                == *old(self)),
            old(self).kind_here() == Some(TokenKind::Punct('(')) && r is Ok ==> final(self).pos >= old(self).pos + 2
                && old(self).tokens@[final(self).pos - 1].kind == TokenKind::Punct(')'),
            Self::advanced(old(self), final(self)),
            r is Ok ==> Self::clean(old(self), final(self)),
    {
        if self.peek_is_punct('(') {
            self.parse_parenthesized_operands()
        } else {
            Ok(Vec::new())
        }
    }

    fn parse_terminator(&mut self, marker: &str) -> (r: Result<RawTerm, ParseError>)
        requires
            old(self).pos < old(self).tokens@.len(),
            !is_version_marker(old(self).tokens@[old(self).pos as int].kind),
        ensures
            !(marker@ == "JUMP"@ || marker@ == "BRANCH"@ || marker@ == "RETURN"@) ==> (r matches Ok(RawTerm::Unreachable)
                && final(self).pos == old(self).pos + 1),
            marker@ == "JUMP"@ ==> (r matches Ok(RawTerm::Jump { target, .. }) ==> old(self).tokens@[old(self).pos + 1].kind
                == TokenKind::Ident(target)),
            marker@ == "JUMP"@ && !(old(self).pos + 1 < old(self).tokens@.len() && old(self).tokens@[old(self).pos + 1].kind is Ident)
                ==> r is Err,
            marker@ == "JUMP"@ && r is Ok ==> r matches Ok(RawTerm::Jump { .. }),
            marker@ == "BRANCH"@ && r is Ok ==> r matches Ok(RawTerm::Branch { .. }),
            marker@ == "RETURN"@ && r is Ok ==> r matches Ok(RawTerm::Return { .. }),
            marker@ == "RETURN"@ && return_line_end(old(self).tokens@, old(self).pos as int) is Some ==> (r is Ok && final(self).pos
                == return_line_end(old(self).tokens@, old(self).pos as int)->0),
            Self::advanced(old(self), final(self)),
            r is Ok ==> Self::progressed(old(self), final(self)),
    {
        proof {
            reveal_strlit("JUMP");
            reveal_strlit("BRANCH");
            reveal_strlit("RETURN");
            assert("JUMP"@[0] != "BRANCH"@[0] && "JUMP"@[0] != "RETURN"@[0] && "BRANCH"@[0] != "RETURN"@[0]);
        }
        self.bump();
        if str_eq(marker, "JUMP") {
            let (label, _) = self.expect_ident("a block label")?;
            let args = self.parse_branch_args()?;
            Ok(RawTerm::Jump { target: label, args })
        } else if str_eq(marker, "BRANCH") {
            let condition = self.parse_operand()?;
            self.expect_punct(',')?;
            let (then_label, _) = self.expect_ident("a block label")?;
            let then_args = self.parse_branch_args()?;
            self.expect_punct(',')?;
            let (else_label, _) = self.expect_ident("a block label")?;
            let else_args = self.parse_branch_args()?;
            Ok(RawTerm::Branch { condition, then_target: then_label, then_args, else_target: else_label, else_args })
        } else if str_eq(marker, "RETURN") {
            proof {
                reveal_strlit("void");
            }
            let ty = self.parse_type()?;
            if ty.0 == TypeId::VOID().0 {
                Ok(RawTerm::Return { value: None })
            } else {
                let (handle, line) = self.take_value_ref("a value handle")?;
                Ok(RawTerm::Return { value: Some(RawOperand { ty, handle, line }) })
            }
        } else {
            Ok(RawTerm::Unreachable)
        }
    }

    fn parse_index(&mut self) -> (r: Result<u32, ParseError>)
        requires
            old(self).pos <= old(self).tokens@.len(),
        ensures
            r is Ok <==> (old(self).kind_here() matches Some(TokenKind::Int(v)) && 0 <= v <= u32::MAX),
            r matches Ok(i) ==> old(self).kind_here() == Some(TokenKind::Int(i as i128)),
            r matches Err(e) ==> if old(self).kind_here() matches Some(TokenKind::Int(_)) {
                e matches ParseError::InvalidNumber { line, reason } && line == old(self).tokens@[old(
                    self,
                ).pos as int].line && reason@ == "field index out of range"@
            } else {
                old(self).unexpected_here(e, "an integer (a field index)"@)
            },
            Self::advanced(old(self), final(self)),
            r is Ok ==> Self::progressed(old(self), final(self)),
    {
        proof {
            reveal_strlit("an integer (");
            reveal_strlit("a field index");
            reveal_strlit(")");
            reveal_strlit("an integer (a field index)");
            assert("an integer ("@ + "a field index"@ + ")"@ =~= "an integer (a field index)"@);
        }
        let (index, iline) = self.expect_int("a field index")?;
        if !(0 <= index && index <= 0xFFFF_FFFFi128) {
            return Err(ParseError::InvalidNumber { line: iline, reason: "field index out of range".to_owned() });
        }
        Ok(index as u32)
    }

    fn parse_instruction(&mut self) -> (r: Result<RawInst, ParseError>)
        requires
            old(self).pos < old(self).tokens@.len(),
        ensures
            Self::advanced(old(self), final(self)),
            r is Ok ==> Self::progressed(old(self), final(self)),
            r matches Ok(inst) ==> (inst.result is Some <==> old(self).kind_here() matches Some(TokenKind::ValueRef(_))),
            !(old(self).kind_here() matches Some(TokenKind::ValueRef(_))) && result_required(old(self).tokens@, old(self).pos as int)
                ==> (r matches Err(ParseError::InvalidInstruction { line, .. }) && line == old(self).tokens@[old(self).pos as int].line),
            old(self).kind_here() matches Some(TokenKind::ValueRef(_)) && old(self).pos + 1 < old(self).tokens@.len() && old(
                self,
            ).tokens@[old(self).pos + 1].kind == TokenKind::Punct('=') && result_forbidden(old(self).tokens@, old(self).pos + 2) ==> (r matches Err(
                ParseError::InvalidInstruction { line, .. },
            ) && line == old(self).tokens@[old(self).pos as int].line),
            binary_line(old(self).tokens@, old(self).pos as int) ==> (r matches Ok(inst) && binary_inst_fits(
                old(self).tokens@,
                old(self).pos as int,
                inst,
            ) && final(self).pos == old(self).pos + 9),
    {
        proof {
            lemma_directive_names();
            if binary_line(old(self).tokens@, old(self).pos as int) {
                lemma_bin_op_names(old(self).tokens@[old(self).pos + 2].kind->Marker_0@);
            }
        }
        let line = self.line();
        let result_handle = if self.peek_is_value_ref() {
            let (h, _) = self.take_value_ref("a value handle")?;
            self.expect_punct('=')?;
            Some(h)
        } else {
            None
        };
        let mline = self.line();
        let marker = match self.peek_marker() {
            Some(m) => {
                self.bump();
                m
            },
            None => {
                return Err(self.unexpected(concat_strs(&["an instruction opcode (`::ASTRONOMY::OP`)"])));
            },
        };
        let m = marker.as_str();
        let mut result_decl: Option<(String, TypeId, u32)> = None;
        match result_handle {
            Some(handle) => {
                if str_eq(m, "STORE") {
                    return Err(ParseError::InvalidInstruction { line, reason: concat_strs(&["store must not have a result"]) });
                }
                if str_eq(m, "CALL") && self.peek_is_ident("void") {
                    return Err(ParseError::InvalidInstruction {
                        line,
                        reason: concat_strs(&["a call returning void must not have a result"]),
                    });
                }
                let ty = self.parse_type()?;
                result_decl = Some((handle, ty, line));
            },
            None => {
                if str_eq(m, "CALL") {
                    if !self.peek_is_ident("void") {
                        return Err(ParseError::InvalidInstruction {
                            line,
                            reason: concat_strs(&["`CALL` requires a result (`%handle = ...`) unless it returns void"]),
                        });
                    }
                    self.bump();
                } else if !str_eq(m, "STORE") {
                    return Err(ParseError::InvalidInstruction {
                        line,
                        reason: concat_strs(&["`", m, "` requires a result (`%handle = ...`)"]),
                    });
                }
            },
        }
        let declared: TypeId = match &result_decl {
            Some((_, t, _)) => *t,
            None => TypeId::VOID(),
        };
        let kind = if str_eq(m, "CONST") {
            let cid = self.parse_constant_ref()?;
            RawInstKind::Const(cid)
        } else if str_eq(m, "ALLOCA") {
            let pointee = self.parse_type()?;
            RawInstKind::Alloca { pointee }
        } else if str_eq(m, "LOAD") {
            let pointer = self.parse_operand()?;
            RawInstKind::Load { ty: declared, pointer }
        } else if str_eq(m, "STORE") {
            let pointer = self.parse_operand()?;
            self.expect_punct(',')?;
            let value = self.parse_operand()?;
            RawInstKind::Store { pointer, value }
        } else if str_eq(m, "PTR_OFFSET") {
            let pointer = self.parse_operand()?;
            self.expect_punct(',')?;
            let offset = self.parse_operand()?;
            RawInstKind::PtrOffset { pointer, offset }
        } else if str_eq(m, "EXT") || str_eq(m, "TRUNC") || str_eq(m, "INT_TO_FLOAT") || str_eq(m, "FLOAT_TO_INT") || str_eq(m, "PTR_CAST") {
            let op = conv_op_of(m);
            let value = self.parse_operand()?;
            RawInstKind::Conv { op, to: declared, value }
        } else if str_eq(m, "CALL") {
            let callee = match self.peek() {
                Some(TokenKind::FuncRef(name)) => Some(name.clone()),
                _ => None,
            };
            let callee = match callee {
                Some(c) => {
                    self.bump();
                    c
                },
                None => {
                    return Err(self.unexpected(concat_strs(&["a callee (`@name`)"])));
                },
            };
            let args = self.parse_parenthesized_operands()?;
            RawInstKind::Call { callee, args, line }
        } else if str_eq(m, "CONSTRUCT") {
            let fields = self.parse_parenthesized_operands()?;
            RawInstKind::Construct { ty: declared, fields }
        } else if str_eq(m, "EXTRACT") {
            let aggregate = self.parse_operand()?;
            self.expect_punct(',')?;
            let index = self.parse_index()?;
            RawInstKind::Extract { aggregate, index }
        } else if str_eq(m, "INSERT") {
            let aggregate = self.parse_operand()?;
            self.expect_punct(',')?;
            let index = self.parse_index()?;
            self.expect_punct(',')?;
            let value = self.parse_operand()?;
            RawInstKind::Insert { aggregate, index, value }
        } else {
            match bin_op_of(m) {
                Some(bin) => {
                    let lhs = self.parse_operand()?;
                    self.expect_punct(',')?;
                    let rhs = self.parse_operand()?;
                    RawInstKind::Binary { op: bin, lhs, rhs }
                },
                None => {
                    return Err(ParseError::UnknownDirective { line: mline, name: marker.clone() });
                },
            }
        };
        Ok(RawInst { kind, result: result_decl, line })
    }

    // -- assembly -----------------------------------------------------------------

    /// Builds the module's functions from the raw functions: skeletons
    /// first, so that calls may reference any function, then bodies.
    fn assemble(&mut self) -> (r: Result<(), ParseError>)
        requires
            old(self).raw_names_distinct(),
            old(self).module.functions@.len() == 0,
        ensures
            final(self).module.version == old(self).module.version,
            r is Ok && final(self).module.symbols.names@.len() <= u32::MAX ==> function_names_distinct(
                final(self).module,
            ),
            r is Ok && final(self).module.symbols.names@.len() <= u32::MAX && final(self).module.functions@.len()
                <= u32::MAX ==> block_names_distinct(final(self).module),
            r is Ok && final(self).module.symbols.names@.len() <= u32::MAX && final(self).module.functions@.len()
                <= u32::MAX ==> value_names_distinct(final(self).module),
            r is Ok && final(self).module.functions@.len() <= u32::MAX ==> refs_defined(final(self).module),
            old(self).functions@.len() == 0 ==> r is Ok && final(self).module == old(self).module,
    {
        let mut by_name: Vec<(String, FunctionId)> = Vec::new();
        let mut i: usize = 0;
        while i < self.functions.len()
            invariant
                old(self).functions@.len() == 0 ==> self.module == old(self).module,
                self.module.version == old(self).module.version,
                i <= self.functions@.len(),
                self.functions == old(self).functions,
                self.module.functions@.len() == i,
                self.module.symbols.names@.len() == self.module.symbols.view_names().len(),
                named_as_raw(self.module, self.functions@, i as int),
                forall|k: int| 0 <= k < i ==> (#[trigger] self.module.functions@[k]).blocks@.len() == 0,
                by_name@.len() == i,
                forall|k: int|
                    0 <= k < i ==> (#[trigger] by_name@[k]).0@ == self.functions@[k].name@ && by_name@[k].1.0 == k as u32,
                self.module.symbols.names@.len() <= u32::MAX ==> forall|k: int|
                    0 <= k < i ==> param_names_match(
                        self.module.symbols.view_names(),
                        #[trigger] self.module.functions@[k],
                        self.functions@[k],
                    ),
                forall|k: int| 0 <= k < i ==> params_in_range(#[trigger] self.module.functions@[k]),
            decreases self.functions@.len() - i,
        {
            let raw = &self.functions[i];
            let ghost m0 = self.module;
            let symbol = self.module.symbols.intern(raw.name.as_str());
            let ghost m1 = self.module;
            proof {
                lemma_named_as_raw_grows(m0, m1, self.functions@, i as int);
            }
            let mut params: Vec<(Option<SymbolId>, TypeId)> = Vec::new();
            let mut k: usize = 0;
            while k < raw.params.len()
                invariant
                    self.module.version == old(self).module.version,
                    k <= raw.params@.len(),
                    i < self.functions@.len(),
                    self.functions == old(self).functions,
                    self.module.functions == m1.functions,
                    symbols_extend(m1.symbols.view_names(), self.module.symbols.view_names()),
                    self.module.symbols.names@.len() == self.module.symbols.view_names().len(),
                    raw == &self.functions@[i as int],
                    params@.len() == k,
                    forall|q: int|
                        0 <= q < k && (#[trigger] params@[q]).0 is Some ==> raw.params@[q].handle is Some && (
                        self.module.symbols.names@.len() <= u32::MAX ==> ((params@[q].0->0).0 as int)
                            < self.module.symbols.view_names().len() && self.module.symbols.view_names()[(params@[q].0->0).0 as int]
                            == (raw.params@[q].handle->0)@),
                decreases raw.params@.len() - k,
            {
                let ghost s0 = self.module.symbols.view_names();
                let p = &raw.params[k];
                let name = match &p.handle {
                    Some(h) => if is_anonymous_handle(h.as_str()) {
                        None
                    } else {
                        Some(self.module.symbols.intern(h.as_str()))
                    },
                    None => None,
                };
                params.push((name, p.ty));
                proof {
                    assert forall|q: int|
                        0 <= q < k + 1 && (#[trigger] params@[q]).0 is Some implies raw.params@[q].handle is Some && (
                        self.module.symbols.names@.len() <= u32::MAX ==> ((params@[q].0->0).0 as int)
                            < self.module.symbols.view_names().len() && self.module.symbols.view_names()[(params@[q].0->0).0 as int]
                            == (raw.params@[q].handle->0)@) by {
                        if q < k && self.module.symbols.names@.len() <= u32::MAX {
                            assert(s0[(params@[q].0->0).0 as int] == (raw.params@[q].handle->0)@);
                        }
                    }
                }
                k = k + 1;
            }
            let ghost m2 = self.module;
            proof {
                lemma_named_as_raw_grows(m1, m2, self.functions@, i as int);
            }
            let function = Function::new(symbol, raw.linkage, raw.abi, params, raw.result, raw.variadic);
            self.module.functions.push(function);
            proof {
                lemma_named_as_raw_grows(m2, self.module, self.functions@, i as int);
                let fnew = self.module.functions@[i as int];
                assert forall|q: int| 0 <= q < fnew.params@.len() implies ((#[trigger] fnew.params@[q]).value.0 as int) < fnew.values@.len() by {
                    lemma_index_cut(q as usize);
                }
                assert forall|k: int| 0 <= k < i + 1 implies params_in_range(#[trigger] self.module.functions@[k]) by {
                    if k < i {
                        assert(self.module.functions@[k] == m0.functions@[k]);
                    }
                }
                if self.module.symbols.names@.len() <= u32::MAX {
                    assert(self.module.functions@[i as int].symbol == symbol);
                    assert(m1.symbols.view_names()[symbol.0 as int] == self.functions@[i as int].name@);
                    assert forall|k: int| 0 <= k < i + 1 implies param_names_match(
                        self.module.symbols.view_names(),
                        #[trigger] self.module.functions@[k],
                        self.functions@[k],
                    ) by {
                        if k < i {
                            assert(self.module.functions@[k] == m0.functions@[k]);
                            lemma_param_names_match_extend(
                                m0.symbols.view_names(),
                                self.module.symbols.view_names(),
                                m0.functions@[k],
                                self.functions@[k],
                            );
                        } else {
                            let f = self.module.functions@[k];
                            assert forall|q: int|
                                0 <= q < f.values@.len() && (#[trigger] f.values@[q]).name is Some implies self.functions@[k].params@[q].handle is Some && ((
                                f.values@[q].name->0).0 as int) < self.module.symbols.view_names().len() && self.module.symbols.view_names()[(f.values@[q].name->0).0 as int]
                                    == (self.functions@[k].params@[q].handle->0)@ by {
                                assert(f.values@[q].name == params@[q].0);
                            }
                        }
                    }
                }
            }
            let id = FunctionId::new(#[verifier::truncate] ((self.module.functions.len() - 1) as u32));
            by_name.push((raw.name.clone(), id));
            i = i + 1;
        }
        let mut j: usize = 0;
        while j < self.functions.len()
            invariant
                old(self).functions@.len() == 0 ==> self.module == old(self).module,
                self.module.version == old(self).module.version,
                j <= self.functions@.len(),
                self.functions == old(self).functions,
                self.module.functions@.len() == self.functions@.len(),
                self.module.symbols.names@.len() == self.module.symbols.view_names().len(),
                named_as_raw(self.module, self.functions@, self.functions@.len() as int),
                old(self).raw_names_distinct(),
                by_name@.len() == self.functions@.len(),
                forall|k: int|
                    0 <= k < self.functions@.len() ==> (#[trigger] by_name@[k]).0@ == self.functions@[k].name@
                        && by_name@[k].1.0 == k as u32,
                forall|k: int| j <= k < self.functions@.len() ==> (#[trigger] self.module.functions@[k]).blocks@.len() == 0,
                self.functions@.len() <= u32::MAX && self.module.symbols.names@.len() <= u32::MAX ==> forall|k: int|
                    0 <= k < j ==> function_block_names_distinct(self.module.symbols.view_names(), #[trigger] self.module.functions@[k]),
                self.functions@.len() <= u32::MAX && self.module.symbols.names@.len() <= u32::MAX ==> forall|k: int|
                    0 <= k < j ==> function_value_names_distinct(self.module.symbols.view_names(), #[trigger] self.module.functions@[k]),
                self.module.symbols.names@.len() <= u32::MAX ==> forall|k: int|
                    j <= k < self.functions@.len() ==> param_names_match(
                        self.module.symbols.view_names(),
                        #[trigger] self.module.functions@[k],
                        self.functions@[k],
                    ),
                forall|k: int| j <= k < self.functions@.len() ==> params_in_range(#[trigger] self.module.functions@[k]),
                self.functions@.len() <= u32::MAX ==> forall|k: int|
                    0 <= k < j ==> function_refs_defined(#[trigger] self.module.functions@[k]),
            decreases self.functions@.len() - j,
        {
            let raw = &self.functions[j];
            let ghost m_before = self.module;
            match lookup_function(&by_name, raw.name.as_str()) {
                Some(id) => {
                    if id.index() < self.module.functions.len() {
                        proof {
                            let k = choose|k: int| 0 <= k < by_name@.len() && (#[trigger] by_name@[k]).0@ == raw.name@ && by_name@[k].1 == id;
                            if k != j {
                                if k < j {
                                    assert(self.functions@[k].name@ != self.functions@[j as int].name@);
                                } else {
                                    assert(self.functions@[j as int].name@ != self.functions@[k].name@);
                                }
                            }
                            if self.functions@.len() <= u32::MAX {
                                assert(id.0 == j);
                            }
                        }
                        let ghost m0 = self.module;
                        assemble_function(&mut self.module, raw, id.index(), &by_name)?;
                        proof {
                            lemma_named_as_raw_grows(m0, self.module, self.functions@, self.functions@.len() as int);
                            if self.functions@.len() <= u32::MAX && self.module.symbols.names@.len() <= u32::MAX {
                                assert forall|k: int| 0 <= k < j + 1 implies function_block_names_distinct(
                                    self.module.symbols.view_names(),
                                    #[trigger] self.module.functions@[k],
                                ) by {
                                    if k < j {
                                        assert(self.module.functions@[k] == m0.functions@[k]);
                                        lemma_block_names_distinct_extend(
                                            m0.symbols.view_names(),
                                            self.module.symbols.view_names(),
                                            m0.functions@[k],
                                        );
                                    }
                                }
                                assert(param_names_match(m0.symbols.view_names(), m0.functions@[j as int], self.functions@[j as int]));
                                assert forall|k: int| 0 <= k < j + 1 implies function_value_names_distinct(
                                    self.module.symbols.view_names(),
                                    #[trigger] self.module.functions@[k],
                                ) by {
                                    if k < j {
                                        assert(self.module.functions@[k] == m0.functions@[k]);
                                        lemma_value_names_distinct_extend(
                                            m0.symbols.view_names(),
                                            self.module.symbols.view_names(),
                                            m0.functions@[k],
                                        );
                                    }
                                }
                            }
                            assert forall|k: int| j + 1 <= k < self.functions@.len() implies params_in_range(#[trigger] self.module.functions@[k]) by {
                                assert(self.module.functions@[k] == m0.functions@[k]);
                            }
                            if self.functions@.len() <= u32::MAX {
                                assert forall|k: int| 0 <= k < j + 1 implies function_refs_defined(#[trigger] self.module.functions@[k]) by {
                                    if k < j {
                                        assert(self.module.functions@[k] == m0.functions@[k]);
                                    }
                                }
                            }
                            if self.module.symbols.names@.len() <= u32::MAX {
                                assert forall|k: int| j + 1 <= k < self.functions@.len() implies param_names_match(
                                    self.module.symbols.view_names(),
                                    #[trigger] self.module.functions@[k],
                                    self.functions@[k],
                                ) by {
                                    assert(self.module.functions@[k] == m0.functions@[k]);
                                    lemma_param_names_match_extend(
                                        m0.symbols.view_names(),
                                        self.module.symbols.view_names(),
                                        m0.functions@[k],
                                        self.functions@[k],
                                    );
                                }
                            }
                            assert forall|k: int| j + 1 <= k < self.functions@.len() implies (#[trigger] self.module.functions@[k]).blocks@.len() == 0 by {
                                assert(self.module.functions@[k] == m0.functions@[k]);
                            }
                        }
                    }
                },
                None => {},
            }
            proof {
                if self.module == m_before {
                    assert(self.module.functions@[j as int].blocks@.len() == 0);
                    assert(by_name@[j as int].0@ == raw.name@);
                }
            }
            j = j + 1;
        }
        proof {
            let m = self.module;
            if m.functions@.len() <= u32::MAX {
                assert forall|k: int| 0 <= k < m.functions@.len() implies function_refs_defined(#[trigger] m.functions@[k]) by {}
            }
            if m.symbols.names@.len() <= u32::MAX && m.functions@.len() <= u32::MAX {
                assert forall|k: int| 0 <= k < m.functions@.len() implies function_block_names_distinct(
                    m.symbols.view_names(),
                    #[trigger] m.functions@[k],
                ) by {}
                assert forall|k: int| 0 <= k < m.functions@.len() implies function_value_names_distinct(
                    m.symbols.view_names(),
                    #[trigger] m.functions@[k],
                ) by {}
            }
            if m.symbols.names@.len() <= u32::MAX {
                assert forall|a: int, b: int| 0 <= a < b < m.functions@.len() implies m.symbols.view_names()[(
                #[trigger] m.functions@[a]).symbol.0 as int] != m.symbols.view_names()[(
                #[trigger] m.functions@[b]).symbol.0 as int] by {
                    assert(self.functions@[a].name@ != self.functions@[b].name@);
                }
            }
        }
        Ok(())
    }
}

/// The values of `f` are its parameters, named as the handles of `raw`'s
/// parameters (digit-only handles give unnamed values).
spec fn param_names_match(names: Seq<Seq<char>>, f: Function, raw: RawFunction) -> bool {
    &&& f.values@.len() == raw.params@.len()
    &&& f.params@.len() == raw.params@.len()
    &&& forall|q: int|
        0 <= q < f.values@.len() && (#[trigger] f.values@[q]).name is Some ==> raw.params@[q].handle is Some && ((
        f.values@[q].name->0).0 as int) < names.len() && names[(f.values@[q].name->0).0 as int]
            == (raw.params@[q].handle->0)@
}

/// Parameter naming is kept when the symbol table only grows.
proof fn lemma_param_names_match_extend(names: Seq<Seq<char>>, more: Seq<Seq<char>>, f: Function, raw: RawFunction)
    requires
        param_names_match(names, f, raw),
        symbols_extend(names, more),
    ensures
        param_names_match(more, f, raw),
{
    assert forall|q: int|
        0 <= q < f.values@.len() && (#[trigger] f.values@[q]).name is Some implies raw.params@[q].handle is Some && ((
        f.values@[q].name->0).0 as int) < more.len() && more[(f.values@[q].name->0).0 as int]
            == (raw.params@[q].handle->0)@ by {
        assert(more[(f.values@[q].name->0).0 as int] == names[(f.values@[q].name->0).0 as int]);
    }
}

/// The first `n` functions of `m` are named as the first `n` raw functions,
/// whenever the symbol table is small enough for its ids to be exact.
spec fn named_as_raw(m: Module, raws: Seq<RawFunction>, n: int) -> bool {
    m.symbols.names@.len() <= u32::MAX ==> forall|j: int|
        0 <= j < n ==> ((#[trigger] m.functions@[j]).symbol.0 as int) < m.symbols.names@.len()
            && m.symbols.view_names()[m.functions@[j].symbol.0 as int] == raws[j].name@
}

/// Naming is kept when the symbol table only grows and the first `n`
/// functions keep their name symbols.
proof fn lemma_named_as_raw_grows(m1: Module, m2: Module, raws: Seq<RawFunction>, n: int)
    requires
        named_as_raw(m1, raws, n),
        n <= m1.functions@.len(),
        n <= m2.functions@.len(),
        forall|k: int| 0 <= k < n ==> #[trigger] m2.functions@[k].symbol == m1.functions@[k].symbol,
        symbols_extend(m1.symbols.view_names(), m2.symbols.view_names()),
        m1.symbols.names@.len() == m1.symbols.view_names().len(),
        m2.symbols.names@.len() == m2.symbols.view_names().len(),
    ensures
        named_as_raw(m2, raws, n),
{
    if m2.symbols.names@.len() <= u32::MAX {
        assert forall|j: int| 0 <= j < n implies ((#[trigger] m2.functions@[j]).symbol.0 as int) < m2.symbols.names@.len()
            && m2.symbols.view_names()[m2.functions@[j].symbol.0 as int] == raws[j].name@ by {
            assert(m2.functions@[j].symbol == m1.functions@[j].symbol);
            assert(m1.functions@[j].symbol == m1.functions@[j].symbol);
        }
    }
}

fn lookup_function(table: &Vec<(String, FunctionId)>, name: &str) -> (r: Option<FunctionId>)
    ensures
        r matches Some(x) ==> exists|k: int| first_entry(table@, name@, k) && table@[k].1 == x,
        r is None <==> forall|k: int| 0 <= k < table@.len() ==> (#[trigger] table@[k]).0@ != name@,
        r matches Some(x) ==> exists|k: int| 0 <= k < table@.len() && (#[trigger] table@[k]).0@ == name@ && table@[k].1 == x,
{
    let mut k: usize = 0;
    while k < table.len()
        invariant
            k <= table@.len(),
            forall|j: int| 0 <= j < k ==> (#[trigger] table@[j]).0@ != name@,
        decreases table@.len() - k,
    {
        if str_eq(table[k].0.as_str(), name) {
            proof {
                assert(first_entry(table@, name@, k as int));
            }
            return Some(table[k].1);
        }
        k = k + 1;
    }
    None
}

/// The type of value `v` of `f` (`void` for an unknown value).
spec fn value_type_of(f: Function, v: ValueId) -> TypeId {
    match f.spec_value(v) {
        Some(d) => d.ty,
        None => TypeId(0),
    }
}

/// Entry `k` is the first of `table` named `name`.
spec fn first_entry<T>(table: Seq<(String, T)>, name: Seq<char>, k: int) -> bool {
    &&& 0 <= k < table.len()
    &&& table[k].0@ == name
    &&& forall|j: int| 0 <= j < k ==> (#[trigger] table[j]).0@ != name
}

/// The handle of `op` first names `x` in `values`, and `x` has the
/// annotated type.
spec fn resolves_to(values: Seq<(String, ValueId)>, f: Function, op: RawOperand, x: ValueId) -> bool {
    &&& exists|k: int| first_entry(values, op.handle@, k) && values[k].1 == x
    &&& value_type_of(f, x).0 == op.ty.0
}

/// The value the operand resolves to (meaningful when it resolves).
spec fn resolved(values: Seq<(String, ValueId)>, f: Function, op: RawOperand) -> ValueId {
    choose|x: ValueId| resolves_to(values, f, op, x)
}

/// An operand resolves to one value only.
proof fn lemma_resolved_unique(values: Seq<(String, ValueId)>, f: Function, op: RawOperand, x: ValueId)
    requires
        resolves_to(values, f, op, x),
    ensures
        resolved(values, f, op) == x,
{
    let y = resolved(values, f, op);
    assert(resolves_to(values, f, op, y));
    let k = choose|k: int| first_entry(values, op.handle@, k) && values[k].1 == x;
    let j = choose|j: int| first_entry(values, op.handle@, j) && values[j].1 == y;
    if k < j {
        assert(values[k].0@ != op.handle@);
    } else if j < k {
        assert(values[j].0@ != op.handle@);
    }
}

/// The operand resolves to some value.
spec fn resolvable(values: Seq<(String, ValueId)>, f: Function, op: RawOperand) -> bool {
    exists|x: ValueId| resolves_to(values, f, op, x)
}

fn lookup_value(table: &Vec<(String, ValueId)>, name: &str) -> (r: Option<ValueId>)
    ensures
        r matches Some(x) ==> exists|k: int| first_entry(table@, name@, k) && table@[k].1 == x,
        r is None <==> forall|k: int| 0 <= k < table@.len() ==> (#[trigger] table@[k]).0@ != name@,
        r matches Some(x) ==> exists|k: int| 0 <= k < table@.len() && (#[trigger] table@[k]).0@ == name@ && table@[k].1 == x,
{
    let mut k: usize = 0;
    while k < table.len()
        invariant
            k <= table@.len(),
            forall|j: int| 0 <= j < k ==> (#[trigger] table@[j]).0@ != name@,
        decreases table@.len() - k,
    {
        if str_eq(table[k].0.as_str(), name) {
            proof {
                assert(first_entry(table@, name@, k as int));
            }
            return Some(table[k].1);
        }
        k = k + 1;
    }
    None
}

fn lookup_block(table: &Vec<(String, BlockId)>, name: &str) -> (r: Option<BlockId>)
    ensures
        r matches Some(x) ==> exists|k: int| first_entry(table@, name@, k) && table@[k].1 == x,
        r is None <==> forall|k: int| 0 <= k < table@.len() ==> (#[trigger] table@[k]).0@ != name@,
        r matches Some(x) ==> exists|k: int| 0 <= k < table@.len() && (#[trigger] table@[k]).0@ == name@ && table@[k].1 == x,
{
    let mut k: usize = 0;
    while k < table.len()
        invariant
            k <= table@.len(),
            forall|j: int| 0 <= j < k ==> (#[trigger] table@[j]).0@ != name@,
        decreases table@.len() - k,
    {
        if str_eq(table[k].0.as_str(), name) {
            proof {
                assert(first_entry(table@, name@, k as int));
            }
            return Some(table[k].1);
        }
        k = k + 1;
    }
    None
}

fn lookup_symbol(table: &Vec<(String, SymbolId)>, name: &str) -> (r: Option<SymbolId>)
    ensures
        r is None <==> forall|k: int| 0 <= k < table@.len() ==> (#[trigger] table@[k]).0@ != name@,
        r matches Some(x) ==> exists|k: int| 0 <= k < table@.len() && (#[trigger] table@[k]).0@ == name@ && table@[k].1 == x,
{
    let mut k: usize = 0;
    while k < table.len()
        invariant
            k <= table@.len(),
            forall|j: int| 0 <= j < k ==> (#[trigger] table@[j]).0@ != name@,
        decreases table@.len() - k,
    {
        if str_eq(table[k].0.as_str(), name) {
            return Some(table[k].1);
        }
        k = k + 1;
    }
    None
}

/// Resolves an annotated operand to its value, checking the annotation.
/// `v` is the value of some entry of `table`.
spec fn in_values(table: Seq<(String, ValueId)>, v: ValueId) -> bool {
    exists|p: int| 0 <= p < table.len() && (#[trigger] table[p]).1 == v
}

/// `b` is the block of some entry of `table`.
spec fn in_labels(table: Seq<(String, BlockId)>, b: BlockId) -> bool {
    exists|p: int| 0 <= p < table.len() && (#[trigger] table[p]).1 == b
}

/// `r` is the error for operand `op`, whose value has type `actual` and
/// not the annotated one: its line and the two types as printed.
spec fn mismatch_error<T>(r: Result<T, ParseError>, op: RawOperand, types: TypeStore, actual: TypeId) -> bool {
    match r {
        Err(ParseError::OperandTypeMismatch { line, annotated, actual: shown }) => line == op.line && encode_utf8(annotated@)
            == type_text(types.types@, op.ty, types.types@.len() as nat) && encode_utf8(shown@) == type_text(
            types.types@,
            actual,
            types.types@.len() as nat,
        ),
        _ => false,
    }
}

/// When the handle of `op` first names a value whose type is not the
/// annotated one, `r` is the mismatch error for it.
#[verifier::opaque]
spec fn mismatch_reported<T>(values: Seq<(String, ValueId)>, f: Function, types: TypeStore, op: RawOperand, r: Result<T, ParseError>) -> bool {
    forall|k: int|
        first_entry(values, op.handle@, k) && value_type_of(f, #[trigger] values[k].1) != op.ty ==> mismatch_error(
            r,
            op,
            types,
            value_type_of(f, values[k].1),
        )
}

fn resolve(values: &Vec<(String, ValueId)>, f: &Function, types: &TypeStore, op: &RawOperand) -> (r: Result<ValueId, ParseError>)
    ensures
        r matches Ok(v) ==> in_values(values@, v),
        r matches Ok(v) ==> resolves_to(values@, *f, *op, v),
        r matches Ok(v) ==> v == resolved(values@, *f, *op),
        r is Err ==> !resolvable(values@, *f, *op),
        (forall|k: int| 0 <= k < values@.len() ==> (#[trigger] values@[k]).0@ != op.handle@) ==> (r matches Err(
            ParseError::UndefinedValue { line, name },
        ) && line == op.line && name@ == op.handle@),
        mismatch_reported(values@, *f, *types, *op, r),
{
    let v = match lookup_value(values, op.handle.as_str()) {
        Some(v) => v,
        None => {
            proof {
                reveal(mismatch_reported);
                if resolvable(values@, *f, *op) {
                    let x = choose|x: ValueId| resolves_to(values@, *f, *op, x);
                    let k = choose|k: int| first_entry(values@, op.handle@, k) && values@[k].1 == x;
                    assert(values@[k].0@ == op.handle@);
                }
            }
            return Err(ParseError::UndefinedValue { line: op.line, name: op.handle.clone() });
        },
    };
    let actual = match f.value(v) {
        Some(d) => d.ty,
        None => TypeId::VOID(),
    };
    proof {
        assert(actual == value_type_of(*f, v));
    }
    proof {
        if actual.0 == op.ty.0 {
            lemma_resolved_unique(values@, *f, *op, v);
        }
    }
    proof {
        let k0 = choose|k: int| first_entry(values@, op.handle@, k) && values@[k].1 == v;
        assert forall|k: int| first_entry(values@, op.handle@, k) implies values@[k].1 == v by {
            if k < k0 {
                assert(values@[k].0@ != op.handle@);
            } else if k0 < k {
                assert(values@[k0].0@ != op.handle@);
            }
        }
    }
    if actual.0 != op.ty.0 {
        let annotated = type_to_string(types, op.ty);
        let shown = type_to_string(types, actual);
        let r: Result<ValueId, ParseError> = Err(ParseError::OperandTypeMismatch { line: op.line, annotated, actual: shown });
        proof {
            reveal(mismatch_reported);
            let k0 = choose|k: int| first_entry(values@, op.handle@, k) && values@[k].1 == v;
            if resolvable(values@, *f, *op) {
                let x = choose|x: ValueId| resolves_to(values@, *f, *op, x);
                let k = choose|k: int| first_entry(values@, op.handle@, k) && values@[k].1 == x;
                if k < k0 {
                    assert(values@[k].0@ != op.handle@);
                } else if k0 < k {
                    assert(values@[k0].0@ != op.handle@);
                }
                assert(k == k0);
            }
        }
        return r;
    }
    proof {
        reveal(mismatch_reported);
    }
    Ok(v)
}

fn resolve_all(values: &Vec<(String, ValueId)>, f: &Function, types: &TypeStore, ops: &Vec<RawOperand>) -> (r: Result<Vec<ValueId>, ParseError>)
    ensures
        r matches Ok(out) ==> forall|k: int| 0 <= k < out@.len() ==> in_values(values@, #[trigger] out@[k]),
        r is Ok <==> forall|q: int| 0 <= q < ops@.len() ==> resolvable(values@, *f, #[trigger] ops@[q]),
        r is Ok <==> all_resolvable(values@, *f, ops@),
        r matches Ok(out) ==> all_resolved(values@, *f, ops@, out@),
        r matches Ok(out) ==> out@.len() == ops@.len() && forall|q: int|
            0 <= q < ops@.len() ==> resolves_to(values@, *f, ops@[q], #[trigger] out@[q]),
        first_mismatch_reported(values@, *f, *types, ops@, r),
{
    let mut out: Vec<ValueId> = Vec::new();
    let mut k: usize = 0;
    while k < ops.len()
        invariant
            k <= ops@.len(),
            out@.len() == k,
            forall|q: int| 0 <= q < out@.len() ==> in_values(values@, #[trigger] out@[q]),
            forall|q: int| 0 <= q < k ==> resolves_to(values@, *f, ops@[q], #[trigger] out@[q]),
        decreases ops@.len() - k,
    {
        let v = match resolve(values, f, types, &ops[k]) {
            Ok(v) => v,
            Err(e) => {
                let r: Result<Vec<ValueId>, ParseError> = Err(e);
                proof {
                    reveal(first_mismatch_reported);
                    reveal(mismatch_reported);
                    assert forall|q: int, j: int|
                        #![trigger ops@[q], values@[j]]
                        0 <= q < ops@.len() && (forall|p: int| 0 <= p < q ==> resolvable(values@, *f, #[trigger] ops@[p]))
                            && first_entry(values@, ops@[q].handle@, j) && value_type_of(*f, values@[j].1)
                            != ops@[q].ty implies mismatch_error(r, ops@[q], *types, value_type_of(*f, values@[j].1)) by {
                        if q > k {
                            assert(resolvable(values@, *f, ops@[k as int]));
                        } else if q < k {
                            assert(resolves_to(values@, *f, ops@[q], out@[q]));
                            let j0 = choose|j0: int| first_entry(values@, ops@[q].handle@, j0) && values@[j0].1 == out@[q];
                            if j < j0 {
                                assert(values@[j].0@ != ops@[q].handle@);
                            } else if j0 < j {
                                assert(values@[j0].0@ != ops@[q].handle@);
                            }
                        }
                    }
                }
                return r;
            },
        };
        out.push(v);
        k = k + 1;
    }
    proof {
        assert forall|q: int| 0 <= q < ops@.len() implies resolvable(values@, *f, #[trigger] ops@[q]) by {
            assert(resolves_to(values@, *f, ops@[q], out@[q]));
        }
    }
    let r: Result<Vec<ValueId>, ParseError> = Ok(out);
    proof {
        reveal(first_mismatch_reported);
        assert forall|q: int, j: int|
            #![trigger ops@[q], values@[j]]
            0 <= q < ops@.len() && (forall|p: int| 0 <= p < q ==> resolvable(values@, *f, #[trigger] ops@[p]))
                && first_entry(values@, ops@[q].handle@, j) && value_type_of(*f, values@[j].1)
                != ops@[q].ty implies false by {
            assert(resolves_to(values@, *f, ops@[q], out@[q]));
            let j0 = choose|j0: int| first_entry(values@, ops@[q].handle@, j0) && values@[j0].1 == out@[q];
            if j < j0 {
                assert(values@[j].0@ != ops@[q].handle@);
            } else if j0 < j {
                assert(values@[j0].0@ != ops@[q].handle@);
            }
        }
    }
    r
}

/// When the operands before `ops[q]` all resolve and the handle of
/// `ops[q]` first names a value whose type is not the annotated one, `r`
/// is the mismatch error for `ops[q]`.
#[verifier::opaque]
spec fn first_mismatch_reported<T>(
    values: Seq<(String, ValueId)>,
    f: Function,
    types: TypeStore,
    ops: Seq<RawOperand>,
    r: Result<T, ParseError>,
) -> bool {
    forall|q: int, j: int|
        #![trigger ops[q], values[j]]
        0 <= q < ops.len() && (forall|p: int| 0 <= p < q ==> resolvable(values, f, #[trigger] ops[p])) && first_entry(
            values,
            ops[q].handle@,
            j,
        ) && value_type_of(f, values[j].1) != ops[q].ty ==> mismatch_error(r, ops[q], types, value_type_of(f, values[j].1))
}

/// `x` is the entry `name` first names in `table`.
spec fn names_first<T>(table: Seq<(String, T)>, name: Seq<char>, x: T) -> bool {
    exists|k: int| first_entry(table, name, k) && table[k].1 == x
}

/// Every operand of `ops` resolves.
spec fn all_resolvable(values: Seq<(String, ValueId)>, f: Function, ops: Seq<RawOperand>) -> bool {
    forall|q: int| 0 <= q < ops.len() ==> resolvable(values, f, #[trigger] ops[q])
}

/// `out` holds, in order, the values the operands `ops` resolve to.
spec fn all_resolved(values: Seq<(String, ValueId)>, f: Function, ops: Seq<RawOperand>, out: Seq<ValueId>) -> bool {
    out.len() == ops.len() && forall|q: int| 0 <= q < ops.len() ==> resolves_to(values, f, ops[q], #[trigger] out[q])
}

/// The instruction kind that binary operation `op` builds from `l` and `r`.
pub open spec fn bin_kind(op: BinOp, l: ValueId, r: ValueId) -> InstructionKind {
    match op {
        BinOp::Add => InstructionKind::Add { lhs: l, rhs: r },
        BinOp::Sub => InstructionKind::Sub { lhs: l, rhs: r },
        BinOp::Mul => InstructionKind::Mul { lhs: l, rhs: r },
        BinOp::Div => InstructionKind::Div { lhs: l, rhs: r },
        BinOp::Rem => InstructionKind::Rem { lhs: l, rhs: r },
        BinOp::And => InstructionKind::And { lhs: l, rhs: r },
        BinOp::Or => InstructionKind::Or { lhs: l, rhs: r },
        BinOp::Xor => InstructionKind::Xor { lhs: l, rhs: r },
        BinOp::Shl => InstructionKind::Shl { lhs: l, rhs: r },
        BinOp::Shr => InstructionKind::Shr { lhs: l, rhs: r },
        BinOp::Eq => InstructionKind::Eq { lhs: l, rhs: r },
        BinOp::Ne => InstructionKind::Ne { lhs: l, rhs: r },
        BinOp::Lt => InstructionKind::Lt { lhs: l, rhs: r },
        BinOp::Le => InstructionKind::Le { lhs: l, rhs: r },
        BinOp::Gt => InstructionKind::Gt { lhs: l, rhs: r },
        BinOp::Ge => InstructionKind::Ge { lhs: l, rhs: r },
    }
}

/// Each binary opcode keyword reads as the operation of the same name.
proof fn lemma_bin_op_keywords()
    ensures
        spec_bin_op("ADD"@) == Some(BinOp::Add),
        spec_bin_op("SUB"@) == Some(BinOp::Sub),
        spec_bin_op("MUL"@) == Some(BinOp::Mul),
        spec_bin_op("DIV"@) == Some(BinOp::Div),
        spec_bin_op("REM"@) == Some(BinOp::Rem),
        spec_bin_op("AND"@) == Some(BinOp::And),
        spec_bin_op("OR"@) == Some(BinOp::Or),
        spec_bin_op("XOR"@) == Some(BinOp::Xor),
        spec_bin_op("SHL"@) == Some(BinOp::Shl),
        spec_bin_op("SHR"@) == Some(BinOp::Shr),
        spec_bin_op("EQ"@) == Some(BinOp::Eq),
        spec_bin_op("NE"@) == Some(BinOp::Ne),
        spec_bin_op("LT"@) == Some(BinOp::Lt),
        spec_bin_op("LE"@) == Some(BinOp::Le),
        spec_bin_op("GT"@) == Some(BinOp::Gt),
        spec_bin_op("GE"@) == Some(BinOp::Ge),
{
    reveal_strlit("ADD");
    reveal_strlit("SUB");
    reveal_strlit("MUL");
    reveal_strlit("DIV");
    reveal_strlit("REM");
    reveal_strlit("AND");
    reveal_strlit("OR");
    reveal_strlit("XOR");
    reveal_strlit("SHL");
    reveal_strlit("SHR");
    reveal_strlit("EQ");
    reveal_strlit("NE");
    reveal_strlit("LT");
    reveal_strlit("LE");
    reveal_strlit("GT");
    reveal_strlit("GE");
    assert("ADD"@.len() == 3 && "ADD"@[0] == 'A' && "ADD"@[1] == 'D');
    assert("SUB"@.len() == 3 && "SUB"@[0] == 'S' && "SUB"@[1] == 'U');
    assert("MUL"@.len() == 3 && "MUL"@[0] == 'M' && "MUL"@[1] == 'U');
    assert("DIV"@.len() == 3 && "DIV"@[0] == 'D' && "DIV"@[1] == 'I');
    assert("REM"@.len() == 3 && "REM"@[0] == 'R' && "REM"@[1] == 'E');
    assert("AND"@.len() == 3 && "AND"@[0] == 'A' && "AND"@[1] == 'N');
    assert("OR"@.len() == 2 && "OR"@[0] == 'O' && "OR"@[1] == 'R');
    assert("XOR"@.len() == 3 && "XOR"@[0] == 'X' && "XOR"@[1] == 'O');
    assert("SHL"@.len() == 3 && "SHL"@[0] == 'S' && "SHL"@[1] == 'H');
    assert("SHR"@.len() == 3 && "SHR"@[0] == 'S' && "SHR"@[1] == 'H');
    assert("EQ"@.len() == 2 && "EQ"@[0] == 'E' && "EQ"@[1] == 'Q');
    assert("NE"@.len() == 2 && "NE"@[0] == 'N' && "NE"@[1] == 'E');
    assert("LT"@.len() == 2 && "LT"@[0] == 'L' && "LT"@[1] == 'T');
    assert("LE"@.len() == 2 && "LE"@[0] == 'L' && "LE"@[1] == 'E');
    assert("GT"@.len() == 2 && "GT"@[0] == 'G' && "GT"@[1] == 'T');
    assert("GE"@.len() == 2 && "GE"@[0] == 'G' && "GE"@[1] == 'E');
    assert("ADD"@[2] == 'D');
    assert("SUB"@[2] == 'B');
    assert("MUL"@[2] == 'L');
    assert("DIV"@[2] == 'V');
    assert("REM"@[2] == 'M');
    assert("AND"@[2] == 'D');
    assert("XOR"@[2] == 'R');
    assert("SHL"@[2] == 'L');
    assert("SHR"@[2] == 'R');
}

/// Parsing inverts printing on binary instructions: the opcode the printer
/// writes for a binary operation or comparison reads back, through the
/// parser's opcode table, as the same instruction kind on the same two
/// operands. So distinct kinds print distinct opcodes, each of which the
/// parser maps to the kind it came from; the opcode of a pointer offset
/// names no binary operation.
pub proof fn lemma_binary_opcode_round_trip(k: InstructionKind)
    requires
        binary_parts(k) is Some,
    ensures
        !(k is PtrOffset) ==> (binary_parts(k) matches Some((name, l, r)) && (spec_bin_op(decode_utf8(name)) matches Some(op)
            && bin_kind(op, l, r) == k)),
        k is PtrOffset ==> (binary_parts(k) matches Some((name, _, _)) && spec_bin_op(decode_utf8(name)) is None),
{
    lemma_bin_op_keywords();
    match k {
        InstructionKind::PtrOffset { .. } => {
            vstd::utf8::encode_utf8_decode_utf8("PTR_OFFSET"@);
            if spec_bin_op("PTR_OFFSET"@) is Some {
                lemma_bin_op_names("PTR_OFFSET"@);
            }
        },
        InstructionKind::Add { .. } => {
            vstd::utf8::encode_utf8_decode_utf8("ADD"@);
        },
        InstructionKind::Sub { .. } => {
            vstd::utf8::encode_utf8_decode_utf8("SUB"@);
        },
        InstructionKind::Mul { .. } => {
            vstd::utf8::encode_utf8_decode_utf8("MUL"@);
        },
        InstructionKind::Div { .. } => {
            vstd::utf8::encode_utf8_decode_utf8("DIV"@);
        },
        InstructionKind::Rem { .. } => {
            vstd::utf8::encode_utf8_decode_utf8("REM"@);
        },
        InstructionKind::And { .. } => {
            vstd::utf8::encode_utf8_decode_utf8("AND"@);
        },
        InstructionKind::Or { .. } => {
            vstd::utf8::encode_utf8_decode_utf8("OR"@);
        },
        InstructionKind::Xor { .. } => {
            vstd::utf8::encode_utf8_decode_utf8("XOR"@);
        },
        InstructionKind::Shl { .. } => {
            vstd::utf8::encode_utf8_decode_utf8("SHL"@);
        },
        InstructionKind::Shr { .. } => {
            vstd::utf8::encode_utf8_decode_utf8("SHR"@);
        },
        InstructionKind::Eq { .. } => {
            vstd::utf8::encode_utf8_decode_utf8("EQ"@);
        },
        InstructionKind::Ne { .. } => {
            vstd::utf8::encode_utf8_decode_utf8("NE"@);
        },
        InstructionKind::Lt { .. } => {
            vstd::utf8::encode_utf8_decode_utf8("LT"@);
        },
        InstructionKind::Le { .. } => {
            vstd::utf8::encode_utf8_decode_utf8("LE"@);
        },
        InstructionKind::Gt { .. } => {
            vstd::utf8::encode_utf8_decode_utf8("GT"@);
        },
        InstructionKind::Ge { .. } => {
            vstd::utf8::encode_utf8_decode_utf8("GE"@);
        },
        _ => {},
    }
}

/// The conversion a directive name selects.
pub open spec fn spec_conv_op(m: Seq<char>) -> Option<ConvOp> {
    if m == "EXT"@ {
        Some(ConvOp::Ext)
    } else if m == "TRUNC"@ {
        Some(ConvOp::Trunc)
    } else if m == "INT_TO_FLOAT"@ {
        Some(ConvOp::IntToFloat)
    } else if m == "FLOAT_TO_INT"@ {
        Some(ConvOp::FloatToInt)
    } else if m == "PTR_CAST"@ {
        Some(ConvOp::PtrCast)
    } else {
        None
    }
}

/// The conversion named by a conversion directive.
fn conv_op_of(m: &str) -> (r: ConvOp)
    requires
        spec_conv_op(m@) is Some,
    ensures
        spec_conv_op(m@) == Some(r),
{
    if str_eq(m, "EXT") {
        ConvOp::Ext
    } else if str_eq(m, "TRUNC") {
        ConvOp::Trunc
    } else if str_eq(m, "INT_TO_FLOAT") {
        ConvOp::IntToFloat
    } else if str_eq(m, "FLOAT_TO_INT") {
        ConvOp::FloatToInt
    } else {
        ConvOp::PtrCast
    }
}

/// Each conversion keyword reads as the conversion of the same name.
proof fn lemma_conv_op_keywords()
    ensures
        spec_conv_op("EXT"@) == Some(ConvOp::Ext),
        spec_conv_op("TRUNC"@) == Some(ConvOp::Trunc),
        spec_conv_op("INT_TO_FLOAT"@) == Some(ConvOp::IntToFloat),
        spec_conv_op("FLOAT_TO_INT"@) == Some(ConvOp::FloatToInt),
        spec_conv_op("PTR_CAST"@) == Some(ConvOp::PtrCast),
{
    reveal_strlit("EXT");
    reveal_strlit("TRUNC");
    reveal_strlit("INT_TO_FLOAT");
    reveal_strlit("FLOAT_TO_INT");
    reveal_strlit("PTR_CAST");
    assert("EXT"@.len() == 3 && "TRUNC"@.len() == 5 && "INT_TO_FLOAT"@.len() == 12 && "FLOAT_TO_INT"@.len() == 12);
    assert("PTR_CAST"@.len() == 8 && "INT_TO_FLOAT"@[0] == 'I' && "FLOAT_TO_INT"@[0] == 'F');
}

/// Parsing inverts printing on conversions: the opcode the printer writes
/// for a conversion reads back, through the parser's conversion table, as
/// the same conversion to the same type of the same operand; the opcode of
/// a load names no conversion.
pub proof fn lemma_conversion_opcode_round_trip(k: InstructionKind)
    requires
        typed_unary_parts(k) is Some,
    ensures
        !(k is Load) ==> (typed_unary_parts(k) matches Some((name, t, v)) && (spec_conv_op(decode_utf8(name)) matches Some(op)
            && conv_kind(op, t, v) == k)),
        k is Load ==> (typed_unary_parts(k) matches Some((name, _, _)) && spec_conv_op(decode_utf8(name)) is None),
{
    lemma_conv_op_keywords();
    match k {
        InstructionKind::Load { .. } => {
            vstd::utf8::encode_utf8_decode_utf8("LOAD"@);
            reveal_strlit("LOAD");
            reveal_strlit("EXT");
            reveal_strlit("TRUNC");
            reveal_strlit("INT_TO_FLOAT");
            reveal_strlit("FLOAT_TO_INT");
            reveal_strlit("PTR_CAST");
            assert("LOAD"@.len() == 4 && "EXT"@.len() == 3 && "TRUNC"@.len() == 5 && "INT_TO_FLOAT"@.len() == 12);
            assert("FLOAT_TO_INT"@.len() == 12 && "PTR_CAST"@.len() == 8);
        },
        InstructionKind::Ext { .. } => {
            vstd::utf8::encode_utf8_decode_utf8("EXT"@);
        },
        InstructionKind::Trunc { .. } => {
            vstd::utf8::encode_utf8_decode_utf8("TRUNC"@);
        },
        InstructionKind::IntToFloat { .. } => {
            vstd::utf8::encode_utf8_decode_utf8("INT_TO_FLOAT"@);
        },
        InstructionKind::FloatToInt { .. } => {
            vstd::utf8::encode_utf8_decode_utf8("FLOAT_TO_INT"@);
        },
        InstructionKind::PtrCast { .. } => {
            vstd::utf8::encode_utf8_decode_utf8("PTR_CAST"@);
        },
        _ => {},
    }
}

/// The instruction kind that conversion `op` to `to` builds from `v`.
pub open spec fn conv_kind(op: ConvOp, to: TypeId, v: ValueId) -> InstructionKind {
    match op {
        ConvOp::Ext => InstructionKind::Ext { to, value: v },
        ConvOp::Trunc => InstructionKind::Trunc { to, value: v },
        ConvOp::IntToFloat => InstructionKind::IntToFloat { to, value: v },
        ConvOp::FloatToInt => InstructionKind::FloatToInt { to, value: v },
        ConvOp::PtrCast => InstructionKind::PtrCast { to, pointer: v },
    }
}

/// Every operand of the raw instruction resolves, and a callee is a
/// known function.
spec fn kind_resolvable(values: Seq<(String, ValueId)>, f: Function, by_name: Seq<(String, FunctionId)>, raw: RawInstKind) -> bool {
    match raw {
        RawInstKind::Const(_) => true,
        RawInstKind::Alloca { .. } => true,
        RawInstKind::Binary { lhs, rhs, .. } => resolvable(values, f, lhs) && resolvable(values, f, rhs),
        RawInstKind::Load { pointer, .. } => resolvable(values, f, pointer),
        RawInstKind::Store { pointer, value } => resolvable(values, f, pointer) && resolvable(values, f, value),
        RawInstKind::PtrOffset { pointer, offset } => resolvable(values, f, pointer) && resolvable(values, f, offset),
        RawInstKind::Conv { value, .. } => resolvable(values, f, value),
        RawInstKind::Call { callee, args, .. } => (exists|k: int| 0 <= k < by_name.len() && (#[trigger] by_name[k]).0@
            == callee@) && all_resolvable(values, f, args@),
        RawInstKind::Construct { fields, .. } => all_resolvable(values, f, fields@),
        RawInstKind::Extract { aggregate, .. } => resolvable(values, f, aggregate),
        RawInstKind::Insert { aggregate, value, .. } => resolvable(values, f, aggregate) && resolvable(values, f, value),
    }
}

/// `kind` is the raw instruction with its operands resolved and its
/// callee looked up.
spec fn kind_built(values: Seq<(String, ValueId)>, f: Function, by_name: Seq<(String, FunctionId)>, raw: RawInstKind, kind: InstructionKind) -> bool {
    let res = |op: RawOperand| resolved(values, f, op);
    match raw {
        RawInstKind::Const(c) => kind == InstructionKind::Const(c),
        RawInstKind::Alloca { pointee } => kind == InstructionKind::Alloca { pointee },
        RawInstKind::Binary { op, lhs, rhs } => kind == bin_kind(op, res(lhs), res(rhs)),
        RawInstKind::Load { ty, pointer } => kind == InstructionKind::Load { ty, pointer: res(pointer) },
        RawInstKind::Store { pointer, value } => kind == InstructionKind::Store { pointer: res(pointer), value: res(value) },
        RawInstKind::PtrOffset { pointer, offset } => kind == InstructionKind::PtrOffset {
            pointer: res(pointer),
            offset: res(offset),
        },
        RawInstKind::Conv { op, to, value } => kind == conv_kind(op, to, res(value)),
        RawInstKind::Call { callee, args, .. } => kind matches InstructionKind::Call { callee: c, args: a } && names_first(
            by_name,
            callee@,
            c,
        ) && all_resolved(values, f, args@, a@),
        RawInstKind::Construct { ty, fields } => kind matches InstructionKind::Construct { ty: t, fields: a } && t == ty
            && all_resolved(values, f, fields@, a@),
        RawInstKind::Extract { aggregate, index } => kind == InstructionKind::Extract { aggregate: res(aggregate), index },
        RawInstKind::Insert { aggregate, index, value } => kind == InstructionKind::Insert {
            aggregate: res(aggregate),
            index,
            value: res(value),
        },
    }
}

/// The instruction for a raw instruction, with operands resolved.
/// Resolves the two operands of a binary instruction, the left one first.
fn resolve_pair(
    values: &Vec<(String, ValueId)>,
    f: &Function,
    types: &TypeStore,
    lhs: &RawOperand,
    rhs: &RawOperand,
) -> (r: Result<(ValueId, ValueId), ParseError>)
    ensures
        r matches Ok((a, b)) ==> in_values(values@, a) && resolves_to(values@, *f, *lhs, a) && a == resolved(values@, *f, *lhs),
        r matches Ok((a, b)) ==> in_values(values@, b) && resolves_to(values@, *f, *rhs, b) && b == resolved(values@, *f, *rhs),
        r is Err ==> !resolvable(values@, *f, *lhs) || !resolvable(values@, *f, *rhs),
        r matches Err(e) ==> first_mismatch_reported(values@, *f, *types, seq![*lhs, *rhs], Err::<InstructionKind, ParseError>(e)),
        r is Ok ==> mismatch_free(values@, *f, seq![*lhs, *rhs]),
{
    let ghost ops = seq![*lhs, *rhs];
    let l = match resolve(values, f, types, lhs) {
        Ok(v) => v,
        Err(e) => {
            let ghost out: Result<InstructionKind, ParseError> = Err(e);
            proof {
                reveal(first_mismatch_reported);
                reveal(mismatch_reported);
                assert forall|q: int, j: int|
                    #![trigger ops[q], values@[j]]
                    0 <= q < ops.len() && (forall|p: int| 0 <= p < q ==> resolvable(values@, *f, #[trigger] ops[p]))
                        && first_entry(values@, ops[q].handle@, j) && value_type_of(*f, values@[j].1) != ops[q].ty
                        implies mismatch_error(out, ops[q], *types, value_type_of(*f, values@[j].1)) by {
                    if q == 1 {
                        assert(resolvable(values@, *f, ops[0]));
                    }
                }
            }
            return Err(e);
        },
    };
    let r = match resolve(values, f, types, rhs) {
        Ok(v) => v,
        Err(e) => {
            let ghost out: Result<InstructionKind, ParseError> = Err(e);
            proof {
                reveal(first_mismatch_reported);
                reveal(mismatch_reported);
                assert forall|q: int, j: int|
                    #![trigger ops[q], values@[j]]
                    0 <= q < ops.len() && (forall|p: int| 0 <= p < q ==> resolvable(values@, *f, #[trigger] ops[p]))
                        && first_entry(values@, ops[q].handle@, j) && value_type_of(*f, values@[j].1) != ops[q].ty
                        implies mismatch_error(out, ops[q], *types, value_type_of(*f, values@[j].1)) by {
                    if q == 0 {
                        assert(mismatch_error(Ok::<ValueId, ParseError>(l), ops[0], *types, value_type_of(*f, values@[j].1)));
                    }
                }
            }
            return Err(e);
        },
    };
    proof {
        reveal(mismatch_free);
        reveal(mismatch_reported);
        assert forall|q: int, j: int|
            #![trigger ops[q], values@[j]]
            0 <= q < ops.len() && first_entry(values@, ops[q].handle@, j) && value_type_of(*f, values@[j].1) != ops[q].ty
                implies false by {
            if q == 0 {
                assert(mismatch_error(Ok::<ValueId, ParseError>(l), ops[0], *types, value_type_of(*f, values@[j].1)));
            } else {
                assert(mismatch_error(Ok::<ValueId, ParseError>(r), ops[1], *types, value_type_of(*f, values@[j].1)));
            }
        }
    }
    Ok((l, r))
}

/// No operand of `ops` first names a value whose type differs from its
/// annotation.
#[verifier::opaque]
spec fn mismatch_free(values: Seq<(String, ValueId)>, f: Function, ops: Seq<RawOperand>) -> bool {
    forall|q: int, j: int|
        #![trigger ops[q], values[j]]
        0 <= q < ops.len() && first_entry(values, ops[q].handle@, j) ==> value_type_of(f, values[j].1) == ops[q].ty
}

/// Operands free of mismatches report none, whatever the result.
proof fn lemma_mismatch_free<T>(values: Seq<(String, ValueId)>, f: Function, types: TypeStore, ops: Seq<RawOperand>, r: Result<T, ParseError>)
    requires
        mismatch_free(values, f, ops),
    ensures
        first_mismatch_reported(values, f, types, ops, r),
{
    reveal(mismatch_free);
    reveal(first_mismatch_reported);
}

fn build_kind(
    values: &Vec<(String, ValueId)>,
    f: &Function,
    types: &TypeStore,
    by_name: &Vec<(String, FunctionId)>,
    raw: &RawInstKind,
) -> (r: Result<InstructionKind, ParseError>)
    ensures
        r is Ok <==> kind_resolvable(values@, *f, by_name@, *raw),
        r matches Ok(kind) ==> kind_built(values@, *f, by_name@, *raw, kind),
        r matches Ok(kind) ==> forall|k: int| 0 <= k < inst_operands(kind).len() ==> in_values(values@, #[trigger] inst_operands(kind)[k]),
        *raw matches RawInstKind::Binary { lhs, rhs, .. } ==> first_mismatch_reported(values@, *f, *types, seq![lhs, rhs], r),
{
    match raw {
        RawInstKind::Const(cid) => Ok(InstructionKind::Const(*cid)),
        RawInstKind::Binary { op, lhs, rhs } => {
            let (l, r) = match resolve_pair(values, f, types, lhs, rhs) {
                Ok(p) => p,
                Err(e) => {
                    return Err(e);
                },
            };
            let kind = match op {
                BinOp::Add => InstructionKind::Add { lhs: l, rhs: r },
                BinOp::Sub => InstructionKind::Sub { lhs: l, rhs: r },
                BinOp::Mul => InstructionKind::Mul { lhs: l, rhs: r },
                BinOp::Div => InstructionKind::Div { lhs: l, rhs: r },
                BinOp::Rem => InstructionKind::Rem { lhs: l, rhs: r },
                BinOp::And => InstructionKind::And { lhs: l, rhs: r },
                BinOp::Or => InstructionKind::Or { lhs: l, rhs: r },
                BinOp::Xor => InstructionKind::Xor { lhs: l, rhs: r },
                BinOp::Shl => InstructionKind::Shl { lhs: l, rhs: r },
                BinOp::Shr => InstructionKind::Shr { lhs: l, rhs: r },
                BinOp::Eq => InstructionKind::Eq { lhs: l, rhs: r },
                BinOp::Ne => InstructionKind::Ne { lhs: l, rhs: r },
                BinOp::Lt => InstructionKind::Lt { lhs: l, rhs: r },
                BinOp::Le => InstructionKind::Le { lhs: l, rhs: r },
                BinOp::Gt => InstructionKind::Gt { lhs: l, rhs: r },
                BinOp::Ge => InstructionKind::Ge { lhs: l, rhs: r },
            };
            proof {
                lemma_mismatch_free(values@, *f, *types, seq![*lhs, *rhs], Ok::<InstructionKind, ParseError>(kind));
            }
            Ok(kind)
        },
        RawInstKind::Alloca { pointee } => Ok(InstructionKind::Alloca { pointee: *pointee }),
        RawInstKind::Load { ty, pointer } => {
            let p = resolve(values, f, types, pointer)?;
            Ok(InstructionKind::Load { ty: *ty, pointer: p })
        },
        RawInstKind::Store { pointer, value } => {
            let p = resolve(values, f, types, pointer)?;
            let v = resolve(values, f, types, value)?;
            Ok(InstructionKind::Store { pointer: p, value: v })
        },
        RawInstKind::PtrOffset { pointer, offset } => {
            let p = resolve(values, f, types, pointer)?;
            let o = resolve(values, f, types, offset)?;
            Ok(InstructionKind::PtrOffset { pointer: p, offset: o })
        },
        RawInstKind::Conv { op, to, value } => {
            let v = resolve(values, f, types, value)?;
            Ok(match op {
                ConvOp::Ext => InstructionKind::Ext { to: *to, value: v },
                ConvOp::Trunc => InstructionKind::Trunc { to: *to, value: v },
                ConvOp::IntToFloat => InstructionKind::IntToFloat { to: *to, value: v },
                ConvOp::FloatToInt => InstructionKind::FloatToInt { to: *to, value: v },
                ConvOp::PtrCast => InstructionKind::PtrCast { to: *to, pointer: v },
            })
        },
        RawInstKind::Call { callee, args, line } => {
            let callee_id = match lookup_function(by_name, callee.as_str()) {
                Some(id) => id,
                None => {
                    return Err(ParseError::UndefinedFunction { line: *line, name: callee.clone() });
                },
            };
            let resolved = resolve_all(values, f, types, args)?;
            Ok(InstructionKind::Call { callee: callee_id, args: resolved })
        },
        RawInstKind::Construct { ty, fields } => {
            let resolved = resolve_all(values, f, types, fields)?;
            Ok(InstructionKind::Construct { ty: *ty, fields: resolved })
        },
        RawInstKind::Extract { aggregate, index } => {
            let a = resolve(values, f, types, aggregate)?;
            Ok(InstructionKind::Extract { aggregate: a, index: *index })
        },
        RawInstKind::Insert { aggregate, index, value } => {
            let a = resolve(values, f, types, aggregate)?;
            let v = resolve(values, f, types, value)?;
            Ok(InstructionKind::Insert { aggregate: a, index: *index, value: v })
        },
    }
}

/// Every target label of the raw terminator is a known block and every
/// operand resolves.
spec fn term_resolvable(values: Seq<(String, ValueId)>, labels: Seq<(String, BlockId)>, f: Function, raw: Option<RawTerm>) -> bool {
    match raw {
        None => false,
        Some(RawTerm::Jump { target, args }) => labelled(labels, target@) && all_resolvable(values, f, args@),
        Some(RawTerm::Branch { condition, then_target, then_args, else_target, else_args }) => labelled(labels, then_target@)
            && labelled(labels, else_target@) && all_resolvable(values, f, then_args@) && all_resolvable(values, f, else_args@)
            && resolvable(values, f, condition),
        Some(RawTerm::Return { value }) => match value {
            Some(op) => resolvable(values, f, op),
            None => true,
        },
        Some(RawTerm::Unreachable) => true,
    }
}

/// Some entry of `labels` is named `name`.
spec fn labelled(labels: Seq<(String, BlockId)>, name: Seq<char>) -> bool {
    exists|k: int| 0 <= k < labels.len() && (#[trigger] labels[k]).0@ == name
}

/// `t` is the raw terminator with its labels looked up and its operands
/// resolved.
spec fn term_built(values: Seq<(String, ValueId)>, labels: Seq<(String, BlockId)>, f: Function, raw: Option<RawTerm>, t: Terminator) -> bool {
    match raw {
        None => false,
        Some(RawTerm::Jump { target, args }) => t matches Terminator::Jump { target: b, args: a } && names_first(
            labels,
            target@,
            b,
        ) && all_resolved(values, f, args@, a@),
        Some(RawTerm::Branch { condition, then_target, then_args, else_target, else_args }) => t matches Terminator::Branch {
            condition: c,
            then_block,
            then_args: ta,
            else_block,
            else_args: ea,
        } && c == resolved(values, f, condition) && names_first(labels, then_target@, then_block) && names_first(
            labels,
            else_target@,
            else_block,
        ) && all_resolved(values, f, then_args@, ta@) && all_resolved(values, f, else_args@, ea@),
        Some(RawTerm::Return { value }) => match value {
            Some(op) => t == Terminator::Return { value: Some(resolved(values, f, op)) },
            None => t == Terminator::Return { value: None },
        },
        Some(RawTerm::Unreachable) => t == Terminator::Unreachable,
    }
}

/// The terminator for a raw terminator, with targets and operands
/// resolved.
fn build_terminator(
    values: &Vec<(String, ValueId)>,
    labels: &Vec<(String, BlockId)>,
    f: &Function,
    types: &TypeStore,
    rb: &RawBlock,
) -> (r: Result<Terminator, ParseError>)
    ensures
        r is Ok <==> term_resolvable(values@, labels@, *f, rb.terminator),
        r matches Ok(t) ==> term_built(values@, labels@, *f, rb.terminator, t),
        r matches Ok(t) ==> (forall|k: int| 0 <= k < term_operands(t).len() ==> in_values(values@, #[trigger] term_operands(t)[k]))
            && (forall|k: int| 0 <= k < term_targets(t).len() ==> in_labels(labels@, #[trigger] term_targets(t)[k])),
{
    match &rb.terminator {
        None => Err(ParseError::InvalidStructure {
            line: rb.line,
            reason: concat_strs(&["block `", rb.label.as_str(), "` has no terminator"]),
        }),
        Some(RawTerm::Jump { target, args }) => {
            let t = match lookup_block(labels, target.as_str()) {
                Some(b) => b,
                None => {
                    return Err(ParseError::UndefinedBlock { line: rb.line, label: target.clone() });
                },
            };
            let resolved = resolve_all(values, f, types, args)?;
            Ok(Terminator::Jump { target: t, args: resolved })
        },
        Some(RawTerm::Branch { condition, then_target, then_args, else_target, else_args }) => {
            let then_block = match lookup_block(labels, then_target.as_str()) {
                Some(b) => b,
                None => {
                    return Err(ParseError::UndefinedBlock { line: rb.line, label: then_target.clone() });
                },
            };
            let else_block = match lookup_block(labels, else_target.as_str()) {
                Some(b) => b,
                None => {
                    return Err(ParseError::UndefinedBlock { line: rb.line, label: else_target.clone() });
                },
            };
            let then_resolved = resolve_all(values, f, types, then_args)?;
            let else_resolved = resolve_all(values, f, types, else_args)?;
            let c = resolve(values, f, types, condition)?;
            Ok(Terminator::Branch {
                condition: c,
                then_block,
                then_args: then_resolved,
                else_block,
                else_args: else_resolved,
            })
        },
        Some(RawTerm::Return { value }) => match value {
            Some(op) => {
                let v = resolve(values, f, types, op)?;
                Ok(Terminator::Return { value: Some(v) })
            },
            None => Ok(Terminator::Return { value: None }),
        },
        Some(RawTerm::Unreachable) => Ok(Terminator::Unreachable),
    }
}

/// Every parameter of `f` is one of its values.
spec fn params_in_range(f: Function) -> bool {
    forall|i: int| 0 <= i < f.params@.len() ==> ((#[trigger] f.params@[i]).value.0 as int) < f.values@.len()
}

/// Every value of `table` is below `nv`.
spec fn value_ids_below(table: Seq<(String, ValueId)>, nv: int) -> bool {
    forall|p: int| 0 <= p < table.len() ==> ((#[trigger] table[p]).1.0 as int) < nv
}

/// Every block of `table` is below `nb`.
spec fn block_ids_below(table: Seq<(String, BlockId)>, nb: int) -> bool {
    forall|p: int| 0 <= p < table.len() ==> ((#[trigger] table[p]).1.0 as int) < nb
}

/// An index cut to 32 bits is no larger than the index.
proof fn lemma_index_cut(x: usize)
    ensures
        (x as u32) as int <= x as int,
{
    assert((x as u32) as usize <= x) by (bit_vector);
}

/// References below bounds stay below larger bounds.
proof fn lemma_block_refs_grow(nv: int, nb: int, nv2: int, nb2: int, blk: BasicBlock)
    requires
        block_refs_defined(nv, nb, blk),
        nv <= nv2,
        nb <= nb2,
    ensures
        block_refs_defined(nv2, nb2, blk),
{
    assert forall|i: int| 0 <= i < blk.instructions@.len() implies inst_refs_defined(nv2, #[trigger] blk.instructions@[i]) by {
        assert(inst_refs_defined(nv, blk.instructions@[i]));
    }
}

/// Adding a block and growing the bounds keeps the earlier blocks' references defined.
proof fn lemma_blocks_refs_grow(nv: int, nb: int, nv2: int, nb2: int, blocks: Seq<BasicBlock>, n: int)
    requires
        forall|q: int| 0 <= q < n ==> block_refs_defined(nv, nb, #[trigger] blocks[q]),
        nv <= nv2,
        nb <= nb2,
    ensures
        forall|q: int| 0 <= q < n ==> block_refs_defined(nv2, nb2, #[trigger] blocks[q]),
{
    assert forall|q: int| 0 <= q < n implies block_refs_defined(nv2, nb2, #[trigger] blocks[q]) by {
        lemma_block_refs_grow(nv, nb, nv2, nb2, blocks[q]);
    }
}

/// No two entries of a handle table have the same handle.
spec fn handles_distinct(table: Seq<(String, ValueId)>) -> bool {
    forall|p: int, q: int| 0 <= p < q < table.len() ==> (#[trigger] table[p]).0@ != (#[trigger] table[q]).0@
}

/// Every named value's name is a handle of `table`, and no two values
/// have the same name.
spec fn values_named_from(names: Seq<Seq<char>>, vals: Seq<ValueData>, table: Seq<(String, ValueId)>) -> bool {
    &&& forall|v: int|
        0 <= v < vals.len() && (#[trigger] vals[v]).name is Some ==> ((vals[v].name->0).0 as int) < names.len() && exists|p: int|
            0 <= p < table.len() && (#[trigger] table[p]).0@ == names[(vals[v].name->0).0 as int]
    &&& forall|v1: int, v2: int|
        0 <= v1 < v2 < vals.len() && (#[trigger] vals[v1]).name is Some && (#[trigger] vals[v2]).name is Some
            ==> names[(vals[v1].name->0).0 as int] != names[(vals[v2].name->0).0 as int]
}

/// Adding a handle that is not yet in the table, when one was added at
/// all, keeps the handles distinct.
proof fn lemma_handles_distinct_push(t0: Seq<(String, ValueId)>, t1: Seq<(String, ValueId)>, h: Seq<char>)
    requires
        handles_distinct(t0),
        t1 == t0 || (t1.len() == t0.len() + 1 && (forall|p: int| 0 <= p < t0.len() ==> #[trigger] t1[p] == t0[p])
            && t1.last().0@ == h),
        forall|p: int| 0 <= p < t0.len() ==> (#[trigger] t0[p]).0@ != h,
    ensures
        handles_distinct(t1),
{
    if t1 != t0 {
        assert forall|p: int, q: int| 0 <= p < q < t1.len() implies (#[trigger] t1[p]).0@ != (#[trigger] t1[q]).0@ by {
            assert(t1[p] == t0[p]);
            if q < t0.len() {
                assert(t1[q] == t0[q]);
            }
        }
    }
}

/// A symbol found for `h` in an exact table of entries has `h` as its text.
proof fn lemma_symbol_lookup_exact(names: Seq<Seq<char>>, len: int, table: Seq<(String, SymbolId)>, h: Seq<char>, found: Option<SymbolId>)
    requires
        symbol_entries_exact(names, len, table),
        len <= u32::MAX,
        found matches Some(x) ==> exists|k: int| 0 <= k < table.len() && (#[trigger] table[k]).0@ == h && table[k].1 == x,
    ensures
        found matches Some(x) ==> (x.0 as int) < names.len() && names[x.0 as int] == h,
{
    if let Some(x) = found {
        let k = choose|k: int| 0 <= k < table.len() && (#[trigger] table[k]).0@ == h && table[k].1 == x;
    }
}

/// Adding a value named `h` (or unnamed) and the handle `h` keeps every
/// named value's name in the table and the names distinct.
proof fn lemma_values_named_push(
    names: Seq<Seq<char>>,
    v0: Seq<ValueData>,
    v1: Seq<ValueData>,
    t0: Seq<(String, ValueId)>,
    t1: Seq<(String, ValueId)>,
    h: Seq<char>,
)
    requires
        values_named_from(names, v0, t0),
        v1.len() == v0.len() + 1,
        forall|v: int| 0 <= v < v0.len() ==> #[trigger] v1[v] == v0[v],
        v1.last().name is Some ==> ((v1.last().name->0).0 as int) < names.len() && names[(v1.last().name->0).0 as int] == h,
        t1.len() == t0.len() + 1,
        forall|p: int| 0 <= p < t0.len() ==> #[trigger] t1[p] == t0[p],
        t1.last().0@ == h,
        forall|p: int| 0 <= p < t0.len() ==> (#[trigger] t0[p]).0@ != h,
    ensures
        values_named_from(names, v1, t1),
{
    assert forall|v: int| 0 <= v < v1.len() && (#[trigger] v1[v]).name is Some implies ((v1[v].name->0).0 as int)
        < names.len() && exists|p: int| 0 <= p < t1.len() && (#[trigger] t1[p]).0@ == names[(v1[v].name->0).0 as int] by {
        if v < v0.len() {
            assert(v1[v] == v0[v]);
            let p = choose|p: int| 0 <= p < t0.len() && (#[trigger] t0[p]).0@ == names[(v0[v].name->0).0 as int];
            assert(t1[p] == t0[p]);
        } else {
            assert(t1[t0.len() as int].0@ == h);
        }
    }
    assert forall|a: int, b: int|
        0 <= a < b < v1.len() && (#[trigger] v1[a]).name is Some && (#[trigger] v1[b]).name is Some implies names[(
        v1[a].name->0).0 as int] != names[(v1[b].name->0).0 as int] by {
        assert(v1[a] == v0[a]);
        if b < v0.len() {
            assert(v1[b] == v0[b]);
        } else {
            let p = choose|p: int| 0 <= p < t0.len() && (#[trigger] t0[p]).0@ == names[(v0[a].name->0).0 as int];
        }
    }
}

/// Each entry of `table` names a symbol of `names` whose text is the
/// entry's text, whenever the table of names is small enough for its ids
/// to be exact.
spec fn symbol_entries_exact(names: Seq<Seq<char>>, len: int, table: Seq<(String, SymbolId)>) -> bool {
    len <= u32::MAX ==> forall|q: int|
        0 <= q < table.len() ==> ((#[trigger] table[q]).1.0 as int) < names.len() && names[table[q].1.0 as int]
            == table[q].0@
}

/// No two of the first `n` parameters of `raw` carry the same handle.
spec fn raw_handles_distinct(raw: RawFunction, n: int) -> bool {
    forall|q1: int, q2: int|
        0 <= q1 < q2 < n && (#[trigger] handle_of(raw.params@[q1])) is Some ==> handle_of(raw.params@[q1]) != #[trigger] handle_of(
            raw.params@[q2],
        )
}

/// Every entry of the table `t` is named by one of the first `i`
/// parameter handles of `raw`.
#[verifier::opaque]
spec fn entries_from_handles(raw: RawFunction, i: int, t: Seq<(String, ValueId)>) -> bool {
    forall|p: int| 0 <= p < t.len() ==> exists|q: int| 0 <= q < i && handle_of(#[trigger] raw.params@[q]) == Some((#[trigger] t[p]).0@)
}

/// Each of the first `i` parameter handles of `raw` names an entry of `t`.
#[verifier::opaque]
spec fn handles_entered(raw: RawFunction, i: int, t: Seq<(String, ValueId)>) -> bool {
    forall|q: int|
        0 <= q < i && (#[trigger] handle_of(raw.params@[q])) is Some ==> exists|p: int|
            0 <= p < t.len() && Some((#[trigger] t[p]).0@) == handle_of(raw.params@[q])
}

/// One more parameter handle taken into the table of values: every entry
/// still comes from a handle, every handle seen (when all are entered) is
/// in the table, and the handles seen stay distinct.
proof fn lemma_param_handle_step(raw: RawFunction, i: int, t0: Seq<(String, ValueId)>, t1: Seq<(String, ValueId)>, bounded: bool)
    requires
        0 <= i < raw.params@.len(),
        entries_from_handles(raw, i, t0),
        bounded ==> handles_entered(raw, i, t0),
        bounded ==> raw_handles_distinct(raw, i),
        handle_of(raw.params@[i]) is None ==> t1 == t0,
        handle_of(raw.params@[i]) matches Some(h) ==> forall|k: int| 0 <= k < t0.len() ==> (#[trigger] t0[k]).0@ != h,
        handle_of(raw.params@[i]) matches Some(h) ==> (t1 == t0 && !bounded) || (t1.len() == t0.len() + 1 && t1.drop_last() == t0
            && t1.last().0@ == h),
    ensures
        entries_from_handles(raw, i + 1, t1),
        bounded ==> handles_entered(raw, i + 1, t1),
        bounded ==> raw_handles_distinct(raw, i + 1),
{
    reveal(entries_from_handles);
    reveal(handles_entered);
    assert forall|p: int| 0 <= p < t1.len() implies exists|q: int| 0 <= q < i + 1 && handle_of(#[trigger] raw.params@[q]) == Some((#[trigger] t1[p]).0@) by {
        if p < t0.len() {
            assert(t1[p] == t0[p]);
        } else {
            assert(handle_of(raw.params@[i]) == Some(t1[p].0@));
        }
    }
    if bounded {
        assert forall|q: int| 0 <= q < i + 1 && (#[trigger] handle_of(raw.params@[q])) is Some implies exists|p: int|
            0 <= p < t1.len() && Some((#[trigger] t1[p]).0@) == handle_of(raw.params@[q]) by {
            if q < i {
                let p = choose|p: int| 0 <= p < t0.len() && Some((#[trigger] t0[p]).0@) == handle_of(raw.params@[q]);
                assert(t1[p] == t0[p]);
            } else {
                assert(Some(t1[t0.len() as int].0@) == handle_of(raw.params@[q]));
            }
        }
        assert forall|q1: int, q2: int|
            0 <= q1 < q2 < i + 1 && (#[trigger] handle_of(raw.params@[q1])) is Some implies handle_of(raw.params@[q1])
                != #[trigger] handle_of(raw.params@[q2]) by {
            if q2 == i && handle_of(raw.params@[q1]) == handle_of(raw.params@[q2]) {
                let p = choose|p: int| 0 <= p < t0.len() && Some((#[trigger] t0[p]).0@) == handle_of(raw.params@[q1]);
                assert(t0[p].0@ != handle_of(raw.params@[i])->0);
            }
        }
    }
}

/// Fills in the body of function `fi` from `raw`.
fn assemble_function(module: &mut Module, raw: &RawFunction, fi: usize, by_name: &Vec<(String, FunctionId)>) -> (r: Result<(), ParseError>)
    requires
        fi < old(module).functions@.len(),
    ensures
        raw.params@.len() <= old(module).functions@[fi as int].params@.len() && !raw_handles_distinct(*raw, raw.params@.len() as int)
            ==> (r matches Err(ParseError::DuplicateValue { line, .. }) && line == raw.line),
        raw.params@.len() <= old(module).functions@[fi as int].params@.len() && raw_handles_distinct(*raw, raw.params@.len() as int)
            && raw.blocks@.len() == 0 ==> r is Ok,
        final(module).version == old(module).version,
        Module::functions_named_same(*old(module), *final(module)),
        forall|k: int|
            0 <= k < old(module).functions@.len() && k != fi ==> #[trigger] final(module).functions@[k] == old(module).functions@[k],
        old(module).functions@[fi as int].blocks@.len() == 0 && r is Ok && final(module).symbols.names@.len()
            <= u32::MAX ==> function_block_names_distinct(final(module).symbols.view_names(), final(module).functions@[fi as int]),
        old(module).functions@[fi as int].blocks@.len() == 0 && r is Ok && final(module).symbols.names@.len() <= u32::MAX
            && param_names_match(old(module).symbols.view_names(), old(module).functions@[fi as int], *raw)
            ==> function_value_names_distinct(final(module).symbols.view_names(), final(module).functions@[fi as int]),
        old(module).functions@[fi as int].blocks@.len() == 0 && r is Ok && params_in_range(old(module).functions@[fi as int])
            ==> function_refs_defined(final(module).functions@[fi as int]),
{
    let ghost b0 = module.functions@[fi as int].blocks@.len();
    let ghost pm = param_names_match(old(module).symbols.view_names(), old(module).functions@[fi as int], *raw);
    let ghost pr = params_in_range(old(module).functions@[fi as int]) && b0 == 0;
    let mut values: Vec<(String, ValueId)> = Vec::new();
    let mut labels: Vec<(String, BlockId)> = Vec::new();
    let mut debug_names: Vec<(String, SymbolId)> = Vec::new();
    let nb = raw.blocks.len();
    let mut b: usize = 0;
    while b < nb
        invariant
            module.version == old(module).version,
            Module::functions_named_same(*old(module), *module),
            module.functions == old(module).functions,
            symbol_entries_exact(module.symbols.view_names(), module.symbols.names@.len() as int, debug_names@),
            nb == raw.blocks@.len(),
            b <= nb,
            fi < module.functions@.len(),
        decreases nb - b,
    {
        let rb = &raw.blocks[b];
        if !is_reserved_block_name(rb.label.as_str()) {
            let sym = module.symbols.intern(rb.label.as_str());
            debug_names.push((rb.label.clone(), sym));
        }
        let mut k: usize = 0;
        while k < rb.params.len()
            invariant
                module.version == old(module).version,
                Module::functions_named_same(*old(module), *module),
                module.functions == old(module).functions,
                symbol_entries_exact(module.symbols.view_names(), module.symbols.names@.len() as int, debug_names@),
                k <= rb.params@.len(),
                fi < module.functions@.len(),
            decreases rb.params@.len() - k,
        {
            let handle = &rb.params[k].0;
            if !is_anonymous_handle(handle.as_str()) {
                let sym = module.symbols.intern(handle.as_str());
                debug_names.push((handle.clone(), sym));
            }
            k = k + 1;
        }
        let mut k2: usize = 0;
        while k2 < rb.insts.len()
            invariant
                module.version == old(module).version,
                Module::functions_named_same(*old(module), *module),
                module.functions == old(module).functions,
                symbol_entries_exact(module.symbols.view_names(), module.symbols.names@.len() as int, debug_names@),
                k2 <= rb.insts@.len(),
                fi < module.functions@.len(),
            decreases rb.insts@.len() - k2,
        {
            match &rb.insts[k2].result {
                Some((handle, _, _)) => {
                    if !is_anonymous_handle(handle.as_str()) {
                        let sym = module.symbols.intern(handle.as_str());
                        debug_names.push((handle.clone(), sym));
                    }
                },
                None => {},
            }
            k2 = k2 + 1;
        }
        b = b + 1;
    }
    let ghost syms = module.symbols;
    let np = raw.params.len();
    let mut i: usize = 0;
    proof {
        reveal(entries_from_handles);
        reveal(handles_entered);
    }
    while i < np
        invariant
            module.version == old(module).version,
            Module::functions_named_same(*old(module), *module),
            module.functions == old(module).functions,
            module.symbols == syms,
            np == raw.params@.len(),
            i <= np,
            fi < module.functions@.len(),
            handles_distinct(values@),
            pm == param_names_match(old(module).symbols.view_names(), old(module).functions@[fi as int], *raw),
            pr == (params_in_range(old(module).functions@[fi as int]) && b0 == 0),
            b0 == old(module).functions@[fi as int].blocks@.len(),
            pr ==> value_ids_below(values@, module.functions@[fi as int].values@.len() as int),
            pm ==> forall|q: int|
                0 <= q < i && (#[trigger] raw.params@[q]).handle is Some ==> exists|p: int|
                    0 <= p < values@.len() && (#[trigger] values@[p]).0@ == (raw.params@[q].handle->0)@,
            pm ==> forall|q1: int, q2: int|
                0 <= q1 < q2 < i && (#[trigger] raw.params@[q1]).handle is Some && (#[trigger] raw.params@[q2]).handle is Some
                    ==> (raw.params@[q1].handle->0)@ != (raw.params@[q2].handle->0)@,
            entries_from_handles(*raw, i as int, values@),
            raw.params@.len() <= module.functions@[fi as int].params@.len() ==> handles_entered(*raw, i as int, values@),
            raw.params@.len() <= module.functions@[fi as int].params@.len() ==> raw_handles_distinct(*raw, i as int),
            raw.params@.len() <= old(module).functions@[fi as int].params@.len() ==> raw.params@.len() <= module.functions@[fi as int].params@.len(),
        decreases np - i,
    {
        let ghost t0 = values@;
        match &raw.params[i].handle {
            Some(handle) => {
                if lookup_value(&values, handle.as_str()).is_some() {
                    proof {
                        reveal(entries_from_handles);
                        let k = choose|k: int| 0 <= k < values@.len() && (#[trigger] values@[k]).0@ == handle@;
                        let q = choose|q: int| 0 <= q < i && handle_of(#[trigger] raw.params@[q]) == Some(values@[k].0@);
                        assert(handle_of(raw.params@[i as int]) == Some(handle@));
                        assert(!raw_handles_distinct(*raw, raw.params@.len() as int));
                    }
                    return Err(ParseError::DuplicateValue { line: raw.line, name: handle.clone() });
                }
                if i < module.functions[fi].params.len() {
                    values.push((handle.clone(), module.functions[fi].params[i].value));
                }
                proof {
                    assert(handle_of(raw.params@[i as int]) == Some(handle@));
                    if values@.len() != t0.len() {
                        assert(values@.drop_last() =~= t0);
                    }
                    lemma_param_handle_step(
                        *raw,
                        i as int,
                        t0,
                        values@,
                        raw.params@.len() <= module.functions@[fi as int].params@.len(),
                    );
                }
                proof {
                    lemma_handles_distinct_push(t0, values@, handle@);
                    if pm {
                        assert(module.functions@[fi as int] == old(module).functions@[fi as int]);
                        assert(values@.len() == t0.len() + 1);
                        assert forall|q: int|
                            0 <= q < i + 1 && (#[trigger] raw.params@[q]).handle is Some implies exists|p: int|
                                0 <= p < values@.len() && (#[trigger] values@[p]).0@ == (raw.params@[q].handle->0)@ by {
                            if q < i {
                                let p = choose|p: int| 0 <= p < t0.len() && (#[trigger] t0[p]).0@ == (raw.params@[q].handle->0)@;
                                assert(values@[p] == t0[p]);
                            } else {
                                assert(values@[t0.len() as int].0@ == handle@);
                            }
                        }
                        assert forall|q1: int, q2: int|
                            0 <= q1 < q2 < i + 1 && (#[trigger] raw.params@[q1]).handle is Some && (#[trigger] raw.params@[q2]).handle is Some
                                implies (raw.params@[q1].handle->0)@ != (raw.params@[q2].handle->0)@ by {
                            if q2 == i {
                                let p = choose|p: int| 0 <= p < t0.len() && (#[trigger] t0[p]).0@ == (raw.params@[q1].handle->0)@;
                            }
                        }
                    }
                }
            },
            None => {
                proof {
                    lemma_param_handle_step(
                        *raw,
                        i as int,
                        t0,
                        values@,
                        raw.params@.len() <= module.functions@[fi as int].params@.len(),
                    );
                }
            },
        }
        i = i + 1;
    }
    proof {
        if pm && b0 == 0 && syms.names@.len() <= u32::MAX {
            let vals = module.functions@[fi as int].values@;
            assert(module.functions@[fi as int] == old(module).functions@[fi as int]);
            assert forall|v: int| 0 <= v < vals.len() && (#[trigger] vals[v]).name is Some implies ((vals[v].name->0).0 as int)
                < syms.view_names().len() && exists|p: int|
                0 <= p < values@.len() && (#[trigger] values@[p]).0@ == syms.view_names()[(vals[v].name->0).0 as int] by {
                assert(syms.view_names()[(vals[v].name->0).0 as int] == old(module).symbols.view_names()[(vals[v].name->0).0 as int]);
                assert(raw.params@[v].handle is Some);
            }
            assert forall|v1: int, v2: int|
                0 <= v1 < v2 < vals.len() && (#[trigger] vals[v1]).name is Some && (#[trigger] vals[v2]).name is Some implies syms.view_names()[(
                vals[v1].name->0).0 as int] != syms.view_names()[(vals[v2].name->0).0 as int] by {
                assert(syms.view_names()[(vals[v1].name->0).0 as int] == old(module).symbols.view_names()[(vals[v1].name->0).0 as int]);
                assert(syms.view_names()[(vals[v2].name->0).0 as int] == old(module).symbols.view_names()[(vals[v2].name->0).0 as int]);
                assert(raw.params@[v1].handle is Some && raw.params@[v2].handle is Some);
            }
            assert(values_named_from(syms.view_names(), vals, values@));
        }
    }
    let mut b2: usize = 0;
    while b2 < nb
        invariant
            raw.params@.len() <= old(module).functions@[fi as int].params@.len() ==> raw_handles_distinct(*raw, raw.params@.len() as int),
            module.version == old(module).version,
            Module::functions_named_same(*old(module), *module),
            module.symbols == syms,
            symbol_entries_exact(syms.view_names(), syms.names@.len() as int, debug_names@),
            forall|k: int|
                0 <= k < old(module).functions@.len() && k != fi ==> #[trigger] module.functions@[k] == old(module).functions@[k],
            nb == raw.blocks@.len(),
            b2 <= nb,
            fi < module.functions@.len(),
            module.functions@[fi as int].blocks@.len() == b0 + b2,
            labels@.len() == b2,
            forall|q: int| 0 <= q < b2 ==> (#[trigger] labels@[q]).0@ == raw.blocks@[q].label@,
            forall|p: int, q: int| 0 <= p < q < b2 ==> raw.blocks@[p].label@ != raw.blocks@[q].label@,
            syms.names@.len() <= u32::MAX && b0 == 0 ==> forall|q: int|
                0 <= q < b2 && (#[trigger] module.functions@[fi as int].blocks@[q]).name is Some ==> ((
                module.functions@[fi as int].blocks@[q].name->0).0 as int) < syms.view_names().len()
                    && syms.view_names()[(module.functions@[fi as int].blocks@[q].name->0).0 as int] == raw.blocks@[q].label@,
            handles_distinct(values@),
            pm == param_names_match(old(module).symbols.view_names(), old(module).functions@[fi as int], *raw),
            pm && b0 == 0 && syms.names@.len() <= u32::MAX ==> values_named_from(
                syms.view_names(),
                module.functions@[fi as int].values@,
                values@,
            ),
            pr == (params_in_range(old(module).functions@[fi as int]) && b0 == 0),
            pr ==> value_ids_below(values@, module.functions@[fi as int].values@.len() as int),
            pr ==> block_ids_below(labels@, module.functions@[fi as int].blocks@.len() as int),
            pr ==> forall|q: int|
                0 <= q < module.functions@[fi as int].blocks@.len() ==> block_refs_defined(
                    module.functions@[fi as int].values@.len() as int,
                    module.functions@[fi as int].blocks@.len() as int,
                    #[trigger] module.functions@[fi as int].blocks@[q],
                ),
        decreases nb - b2,
    {
        let rb = &raw.blocks[b2];
        if lookup_block(&labels, rb.label.as_str()).is_some() {
            return Err(ParseError::DuplicateBlock { line: rb.line, label: rb.label.clone() });
        }
        let ghost before_blocks = module.functions@[fi as int].blocks@;
        let ghost old_labels = labels@;
        let bi = module.functions[fi].blocks.len();
        let block = BlockId::new(#[verifier::truncate] (bi as u32));
        module.functions[fi].blocks.push(BasicBlock::new());
        match lookup_symbol(&debug_names, rb.label.as_str()) {
            Some(sym) => {
                module.functions[fi].blocks[bi].name = Some(sym);
            },
            None => {},
        }
        labels.push((rb.label.clone(), block));
        proof {
            assert forall|p: int, q: int| 0 <= p < q < b2 + 1 implies raw.blocks@[p].label@ != raw.blocks@[q].label@ by {
                if q == b2 {
                    assert(labels@[p].0@ == raw.blocks@[p].label@);
                }
            }
            assert forall|q: int| 0 <= q < b0 + b2 implies #[trigger] module.functions@[fi as int].blocks@[q] == before_blocks[q] by {}
            if pr {
                let f = module.functions@[fi as int];
                lemma_index_cut(bi);
                lemma_blocks_refs_grow(
                    f.values@.len() as int,
                    before_blocks.len() as int,
                    f.values@.len() as int,
                    f.blocks@.len() as int,
                    before_blocks,
                    before_blocks.len() as int,
                );
                assert forall|q: int| 0 <= q < f.blocks@.len() implies block_refs_defined(
                    f.values@.len() as int,
                    f.blocks@.len() as int,
                    #[trigger] f.blocks@[q],
                ) by {
                    if q < before_blocks.len() {
                        assert(f.blocks@[q] == before_blocks[q]);
                    }
                }
                assert forall|p: int| 0 <= p < labels@.len() implies ((#[trigger] labels@[p]).1.0 as int) < f.blocks@.len() by {
                    if p < labels@.len() - 1 {
                        assert(labels@[p] == old_labels[p]);
                    }
                }
            }
        }
        let ghost named = module.functions@[fi as int].blocks@;
        let mut k: usize = 0;
        while k < rb.params.len()
            invariant
                raw.params@.len() <= old(module).functions@[fi as int].params@.len() ==> raw_handles_distinct(*raw, raw.params@.len() as int),
                0 < raw.blocks@.len(),
                module.version == old(module).version,
                Module::functions_named_same(*old(module), *module),
                module.symbols == syms,
                forall|k: int|
                    0 <= k < old(module).functions@.len() && k != fi ==> #[trigger] module.functions@[k] == old(module).functions@[k],
                k <= rb.params@.len(),
                fi < module.functions@.len(),
                bi < module.functions@[fi as int].blocks@.len(),
                module.functions@[fi as int].blocks@.len() == named.len(),
                forall|q: int| 0 <= q < named.len() ==> (#[trigger] module.functions@[fi as int].blocks@[q]).name == named[q].name,
                symbol_entries_exact(syms.view_names(), syms.names@.len() as int, debug_names@),
                handles_distinct(values@),
                pm == param_names_match(old(module).symbols.view_names(), old(module).functions@[fi as int], *raw),
                pm && b0 == 0 && syms.names@.len() <= u32::MAX ==> values_named_from(
                    syms.view_names(),
                    module.functions@[fi as int].values@,
                    values@,
                ),
                pr == (params_in_range(old(module).functions@[fi as int]) && b0 == 0),
                pr ==> value_ids_below(values@, module.functions@[fi as int].values@.len() as int),
                pr ==> block_ids_below(labels@, module.functions@[fi as int].blocks@.len() as int),
                pr ==> forall|q: int|
                    0 <= q < module.functions@[fi as int].blocks@.len() ==> block_refs_defined(
                        module.functions@[fi as int].values@.len() as int,
                        module.functions@[fi as int].blocks@.len() as int,
                        #[trigger] module.functions@[fi as int].blocks@[q],
                    ),
            decreases rb.params@.len() - k,
        {
            let ghost t0 = values@;
            let ghost v0 = module.functions@[fi as int].values@;
            let ghost blocks0 = module.functions@[fi as int].blocks@;
            let (handle, ty, line) = (&rb.params[k].0, rb.params[k].1, rb.params[k].2);
            if lookup_value(&values, handle.as_str()).is_some() {
                return Err(ParseError::DuplicateValue { line, name: handle.clone() });
            }
            let value = ValueId::new(#[verifier::truncate] (module.functions[fi].values.len() as u32));
            let name = lookup_symbol(&debug_names, handle.as_str());
            module.functions[fi].values.push(ValueData {
                ty,
                kind: ValueKind::BlockParam { block, index: #[verifier::truncate] (k as u32) },
                name,
                span: Some(Span::new(line, 1)),
            });
            module.functions[fi].blocks[bi].params.push(BlockParam { value, ty });
            values.push((handle.clone(), value));
            proof {
                lemma_handles_distinct_push(t0, values@, handle@);
                if pm && b0 == 0 && syms.names@.len() <= u32::MAX {
                    lemma_symbol_lookup_exact(syms.view_names(), syms.names@.len() as int, debug_names@, handle@, name);
                    lemma_values_named_push(syms.view_names(), v0, module.functions@[fi as int].values@, t0, values@, handle@);
                }
                if pr {
                    let f = module.functions@[fi as int];
                    lemma_index_cut(v0.len() as usize);
                    assert forall|p: int| 0 <= p < values@.len() implies ((#[trigger] values@[p]).1.0 as int) < f.values@.len() by {
                        if p < t0.len() {
                            assert(values@[p] == t0[p]);
                        }
                    }
                    assert forall|q: int| 0 <= q < f.blocks@.len() implies block_refs_defined(
                        f.values@.len() as int,
                        f.blocks@.len() as int,
                        #[trigger] f.blocks@[q],
                    ) by {
                        lemma_block_refs_grow(v0.len() as int, blocks0.len() as int, f.values@.len() as int, f.blocks@.len() as int, blocks0[q]);
                        if q != bi {
                            assert(f.blocks@[q] == blocks0[q]);
                        } else {
                            let blk = f.blocks@[q];
                            assert forall|p: int| 0 <= p < blk.params@.len() implies ((#[trigger] blk.params@[p]).value.0 as int) < f.values@.len() by {
                                if p < blocks0[q].params@.len() {
                                    assert(blk.params@[p] == blocks0[q].params@[p]);
                                }
                            }
                            assert forall|i: int| 0 <= i < blk.instructions@.len() implies inst_refs_defined(f.values@.len() as int, #[trigger] blk.instructions@[i]) by {
                                assert(blk.instructions@[i] == blocks0[q].instructions@[i]);
                            }
                        }
                    }
                }
            }
            k = k + 1;
        }
        let mut ii: usize = 0;
        while ii < rb.insts.len()
            invariant
                raw.params@.len() <= old(module).functions@[fi as int].params@.len() ==> raw_handles_distinct(*raw, raw.params@.len() as int),
                0 < raw.blocks@.len(),
                module.version == old(module).version,
                Module::functions_named_same(*old(module), *module),
                module.symbols == syms,
                forall|k: int|
                    0 <= k < old(module).functions@.len() && k != fi ==> #[trigger] module.functions@[k] == old(module).functions@[k],
                ii <= rb.insts@.len(),
                fi < module.functions@.len(),
                module.functions@[fi as int].blocks@.len() == named.len(),
                forall|q: int| 0 <= q < named.len() ==> (#[trigger] module.functions@[fi as int].blocks@[q]).name == named[q].name,
                symbol_entries_exact(syms.view_names(), syms.names@.len() as int, debug_names@),
                handles_distinct(values@),
                pm == param_names_match(old(module).symbols.view_names(), old(module).functions@[fi as int], *raw),
                pm && b0 == 0 && syms.names@.len() <= u32::MAX ==> values_named_from(
                    syms.view_names(),
                    module.functions@[fi as int].values@,
                    values@,
                ),
                pr == (params_in_range(old(module).functions@[fi as int]) && b0 == 0),
                pr ==> value_ids_below(values@, module.functions@[fi as int].values@.len() as int),
                pr ==> block_ids_below(labels@, module.functions@[fi as int].blocks@.len() as int),
                pr ==> forall|q: int|
                    0 <= q < module.functions@[fi as int].blocks@.len() ==> block_refs_defined(
                        module.functions@[fi as int].values@.len() as int,
                        module.functions@[fi as int].blocks@.len() as int,
                        #[trigger] module.functions@[fi as int].blocks@[q],
                    ),
            decreases rb.insts@.len() - ii,
        {
            let ghost t0 = values@;
            let ghost v0 = module.functions@[fi as int].values@;
            let ghost blocks0 = module.functions@[fi as int].blocks@;
            match &rb.insts[ii].result {
                Some((handle, ty, line)) => {
                    if lookup_value(&values, handle.as_str()).is_some() {
                        return Err(ParseError::DuplicateValue { line: *line, name: handle.clone() });
                    }
                    let value = ValueId::new(#[verifier::truncate] (module.functions[fi].values.len() as u32));
                    let name = lookup_symbol(&debug_names, handle.as_str());
                    module.functions[fi].values.push(ValueData {
                        ty: *ty,
                        kind: ValueKind::Inst { block, index: #[verifier::truncate] (ii as u32) },
                        name,
                        span: Some(Span::new(*line, 1)),
                    });
                    values.push((handle.clone(), value));
                    proof {
                        lemma_handles_distinct_push(t0, values@, handle@);
                        if pm && b0 == 0 && syms.names@.len() <= u32::MAX {
                            lemma_symbol_lookup_exact(syms.view_names(), syms.names@.len() as int, debug_names@, handle@, name);
                            lemma_values_named_push(syms.view_names(), v0, module.functions@[fi as int].values@, t0, values@, handle@);
                        }
                        if pr {
                            let f = module.functions@[fi as int];
                            lemma_index_cut(v0.len() as usize);
                            assert(f.blocks@ == blocks0);
                            assert forall|p: int| 0 <= p < values@.len() implies ((#[trigger] values@[p]).1.0 as int) < f.values@.len() by {
                                if p < t0.len() {
                                    assert(values@[p] == t0[p]);
                                }
                            }
                            lemma_blocks_refs_grow(v0.len() as int, blocks0.len() as int, f.values@.len() as int, f.blocks@.len() as int, blocks0, blocks0.len() as int);
                        }
                    }
                },
                None => {},
            }
            ii = ii + 1;
        }
        b2 = b2 + 1;
    }
    let ghost named = module.functions@[fi as int].blocks@;
    let ghost vals = module.functions@[fi as int].values@;
    proof {
        if syms.names@.len() <= u32::MAX && b0 == 0 {
            assert forall|i: int, j: int|
                0 <= i < j < named.len() && (#[trigger] named[i]).name is Some && (#[trigger] named[j]).name is Some
                    implies syms.view_names()[(named[i].name->0).0 as int] != syms.view_names()[(named[j].name->0).0 as int] by {
                assert(named[i] == module.functions@[fi as int].blocks@[i]);
                assert(named[j] == module.functions@[fi as int].blocks@[j]);
                assert(raw.blocks@[i].label@ != raw.blocks@[j].label@);
            }
        }
    }
    let mut b3: usize = 0;
    while b3 < nb
        invariant
            raw.params@.len() <= old(module).functions@[fi as int].params@.len() ==> raw_handles_distinct(*raw, raw.params@.len() as int),
            module.version == old(module).version,
            Module::functions_named_same(*old(module), *module),
            module.symbols == syms,
            forall|k: int|
                0 <= k < old(module).functions@.len() && k != fi ==> #[trigger] module.functions@[k] == old(module).functions@[k],
            nb == raw.blocks@.len(),
            b3 <= nb,
            fi < module.functions@.len(),
            module.functions@[fi as int].blocks@.len() == named.len(),
            forall|q: int| 0 <= q < named.len() ==> (#[trigger] module.functions@[fi as int].blocks@[q]).name == named[q].name,
            module.functions@[fi as int].values@ == vals,
            pr == (params_in_range(old(module).functions@[fi as int]) && b0 == 0),
            pr ==> value_ids_below(values@, vals.len() as int),
            pr ==> block_ids_below(labels@, named.len() as int),
            pr ==> forall|q: int|
                0 <= q < named.len() ==> block_refs_defined(
                    vals.len() as int,
                    named.len() as int,
                    #[trigger] module.functions@[fi as int].blocks@[q],
                ),
        decreases nb - b3,
    {
        let rb = &raw.blocks[b3];
        let block = match lookup_block(&labels, rb.label.as_str()) {
            Some(blk) => blk,
            None => BlockId(0),
        };
        let bi = block.index();
        let mut ii: usize = 0;
        while ii < rb.insts.len()
            invariant
                raw.params@.len() <= old(module).functions@[fi as int].params@.len() ==> raw_handles_distinct(*raw, raw.params@.len() as int),
                0 < raw.blocks@.len(),
                module.version == old(module).version,
                Module::functions_named_same(*old(module), *module),
                module.symbols == syms,
                forall|k: int|
                    0 <= k < old(module).functions@.len() && k != fi ==> #[trigger] module.functions@[k] == old(module).functions@[k],
                ii <= rb.insts@.len(),
                fi < module.functions@.len(),
                module.functions@[fi as int].blocks@.len() == named.len(),
                forall|q: int| 0 <= q < named.len() ==> (#[trigger] module.functions@[fi as int].blocks@[q]).name == named[q].name,
                module.functions@[fi as int].values@ == vals,
                pr == (params_in_range(old(module).functions@[fi as int]) && b0 == 0),
                pr ==> value_ids_below(values@, vals.len() as int),
                pr ==> block_ids_below(labels@, named.len() as int),
                pr ==> forall|q: int|
                    0 <= q < named.len() ==> block_refs_defined(
                        vals.len() as int,
                        named.len() as int,
                        #[trigger] module.functions@[fi as int].blocks@[q],
                    ),
            decreases rb.insts@.len() - ii,
        {
            let inst = &rb.insts[ii];
            let kind = build_kind(&values, &module.functions[fi], &module.types, by_name, &inst.kind)?;
            let result = match &inst.result {
                Some((handle, _, _)) => lookup_value(&values, handle.as_str()),
                None => None,
            };
            let ghost blocks0 = module.functions@[fi as int].blocks@;
            if bi < module.functions[fi].blocks.len() {
                module.functions[fi].blocks[bi].instructions.push(
                    Instruction { kind, result, span: Some(Span::new(inst.line, 1)) },
                );
            }
            proof {
                if pr && bi < blocks0.len() {
                    let f = module.functions@[fi as int];
                    assert(inst_refs_defined(vals.len() as int, f.blocks@[bi as int].instructions@.last()));
                    assert forall|q: int| 0 <= q < named.len() implies block_refs_defined(
                        vals.len() as int,
                        named.len() as int,
                        #[trigger] module.functions@[fi as int].blocks@[q],
                    ) by {
                        if q != bi {
                            assert(f.blocks@[q] == blocks0[q]);
                        } else {
                            let blk = f.blocks@[q];
                            assert(block_refs_defined(vals.len() as int, named.len() as int, blocks0[q]));
                            assert forall|i: int| 0 <= i < blk.instructions@.len() implies inst_refs_defined(vals.len() as int, #[trigger] blk.instructions@[i]) by {
                                if i < blocks0[q].instructions@.len() {
                                    assert(blk.instructions@[i] == blocks0[q].instructions@[i]);
                                }
                            }
                            assert forall|p: int| 0 <= p < blk.params@.len() implies ((#[trigger] blk.params@[p]).value.0 as int) < vals.len() by {
                                assert(blk.params@[p] == blocks0[q].params@[p]);
                            }
                        }
                    }
                }
            }
            ii = ii + 1;
        }
        let term = build_terminator(&values, &labels, &module.functions[fi], &module.types, rb)?;
        let ghost blocks0 = module.functions@[fi as int].blocks@;
        if bi < module.functions[fi].blocks.len() {
            module.functions[fi].blocks[bi].terminator = Some(term);
        }
        proof {
            if pr && bi < blocks0.len() {
                let f = module.functions@[fi as int];
                assert(term_refs_defined(vals.len() as int, named.len() as int, term));
                assert forall|q: int| 0 <= q < named.len() implies block_refs_defined(
                    vals.len() as int,
                    named.len() as int,
                    #[trigger] module.functions@[fi as int].blocks@[q],
                ) by {
                    if q != bi {
                        assert(f.blocks@[q] == blocks0[q]);
                    } else {
                        let blk = f.blocks@[q];
                        assert(block_refs_defined(vals.len() as int, named.len() as int, blocks0[q]));
                        assert(blk.instructions@ == blocks0[q].instructions@);
                        assert(blk.params@ == blocks0[q].params@);
                    }
                }
            }
        }
        b3 = b3 + 1;
    }
    proof {
        if syms.names@.len() <= u32::MAX && b0 == 0 {
            let f = module.functions@[fi as int];
            assert forall|i: int| 0 <= i < f.blocks@.len() && (#[trigger] f.blocks@[i]).name is Some implies ((f.blocks@[i].name->0).0 as int)
                < syms.view_names().len() by {
                assert(f.blocks@[i].name == named[i].name);
                assert(module.functions@[fi as int].blocks@[i] == f.blocks@[i]);
            }
            assert forall|i: int, j: int|
                0 <= i < j < f.blocks@.len() && (#[trigger] f.blocks@[i]).name is Some && (#[trigger] f.blocks@[j]).name is Some
                    implies syms.view_names()[(f.blocks@[i].name->0).0 as int] != syms.view_names()[(f.blocks@[j].name->0).0 as int] by {
                assert(f.blocks@[i].name == named[i].name);
                assert(f.blocks@[j].name == named[j].name);
            }
        }
        if pr {
            let f = module.functions@[fi as int];
            assert forall|q: int| 0 <= q < f.blocks@.len() implies block_refs_defined(
                f.values@.len() as int,
                f.blocks@.len() as int,
                #[trigger] f.blocks@[q],
            ) by {}
        }
        if pm && b0 == 0 && syms.names@.len() <= u32::MAX {
            let f = module.functions@[fi as int];
            assert(f.values@ == vals);
            assert(values_named_from(syms.view_names(), vals, values@));
            assert(function_value_names_distinct(syms.view_names(), f));
        }
    }
    Ok(())
}

/// Every `MODULE_VERSION` directive among the lexemes is immediately
/// followed by the supported major version.
/// A text that starts with the module start and a version directive
/// naming a major version other than the supported one is refused with
/// `UnsupportedVersion` at the version's line.
pub open spec fn version_answered(ls: Seq<(Lexeme, u32)>, r: Result<Module, ParseError>) -> bool {
    lexeme_marker(ls, 0, "MODULE_START"@) && lexeme_marker(ls, 1, "MODULE_VERSION"@) ==> forall|n: int|
        #![trigger lexeme_int(ls, 2, n)]
        lexeme_int(ls, 2, n) && 0 <= n <= u32::MAX && n != 1 ==> r == Err::<Module, ParseError>(
            ParseError::UnsupportedVersion { line: ls[2].1, found: n as u32, supported: 1 },
        )
}

/// The text of an empty module (start and end, with or without the
/// supported version) gives a fresh module.
pub open spec fn empty_module_answered(ls: Seq<(Lexeme, u32)>, r: Result<Module, ParseError>) -> bool {
    let empty = ls.len() == 2 && lexeme_marker(ls, 0, "MODULE_START"@) && lexeme_marker(ls, 1, "MODULE_END"@);
    let versioned = ls.len() == 4 && lexeme_marker(ls, 0, "MODULE_START"@) && lexeme_marker(ls, 1, "MODULE_VERSION"@)
        && lexeme_int(ls, 2, 1) && lexeme_marker(ls, 3, "MODULE_END"@);
    empty || versioned ==> (r matches Ok(m) && is_fresh_module(m))
}

/// Lexeme `p` is the directive `name`.
pub open spec fn lexeme_marker(ls: Seq<(Lexeme, u32)>, p: int, name: Seq<char>) -> bool {
    0 <= p < ls.len() && ls[p].0 == Lexeme::Marker(encode_utf8(name))
}

/// Lexeme `p` is the integer `n`.
pub open spec fn lexeme_int(ls: Seq<(Lexeme, u32)>, p: int, n: int) -> bool {
    0 <= p < ls.len() && ls[p].0 == Lexeme::Int(n)
}

/// A lexeme that names a directive names exactly one.
proof fn lemma_marker_of_lexeme(ls: Seq<(Lexeme, u32)>, toks: Seq<Token>, p: int, name: Seq<char>)
    requires
        ls == lexemes(toks),
        lexeme_marker(ls, p, name),
    ensures
        marker_at(toks, p, name),
{
    assert(ls[p] == (lexeme_of(toks[p].kind), toks[p].line));
    if let TokenKind::Marker(m) = toks[p].kind {
        vstd::utf8::encode_utf8_decode_utf8(m@);
        vstd::utf8::encode_utf8_decode_utf8(name);
    }
}

/// A lexeme that is an integer within `i128` comes from an `Int` token.
proof fn lemma_int_of_lexeme(ls: Seq<(Lexeme, u32)>, toks: Seq<Token>, p: int, n: int)
    requires
        ls == lexemes(toks),
        big_uints(toks),
        lexeme_int(ls, p, n),
        n <= i128::MAX,
    ensures
        int_at(toks, p, n),
        toks[p].line == ls[p].1,
{
    assert(ls[p] == (lexeme_of(toks[p].kind), toks[p].line));
}

pub open spec fn declares_supported_version(ls: Seq<(Lexeme, u32)>) -> bool {
    forall|k: int|
        0 <= k < ls.len() && (#[trigger] ls[k]).0 == Lexeme::Marker("MODULE_VERSION".spec_bytes()) ==> k + 1 < ls.len()
            && ls[k + 1].0 == Lexeme::Int(ArnVersion::SUPPORTED_MAJOR as int)
}

/// Parses `.arn` text into a [`Module`]. Float literals are converted by
/// `float_bits`, which receives the literal text and whether the target
/// type is `f32`, and returns the IEEE bit pattern (`None` rejects the
/// literal).
pub fn parse<F: Fn(&str, bool) -> Option<u64>>(source: &str, float_bits: &F) -> (r: Result<Module, ParseError>)
    requires
        forall|t: &str, single: bool| float_bits.requires((t, single)),
    ensures
        spec_lex(source.spec_bytes()) matches Ok(ls) ==> version_answered(ls, r),
        spec_lex(source.spec_bytes()) matches Ok(ls) ==> empty_module_answered(ls, r),
        spec_lex(source.spec_bytes()) is Err ==> r is Err,
        r is Ok ==> (spec_lex(source.spec_bytes()) matches Ok(ls) && declares_supported_version(ls)),
        r matches Ok(m) ==> m.version == ArnVersion::CURRENT(),
        r matches Ok(m) ==> (m.symbols.names@.len() <= u32::MAX ==> function_names_distinct(m)),
        r matches Ok(m) ==> (m.symbols.names@.len() <= u32::MAX && m.functions@.len() <= u32::MAX ==> block_names_distinct(m)),
        r matches Ok(m) ==> (m.symbols.names@.len() <= u32::MAX && m.functions@.len() <= u32::MAX ==> value_names_distinct(m)),
        r matches Ok(m) ==> (m.functions@.len() <= u32::MAX ==> refs_defined(m)),
{
    let tokens = lex(source)?;
    let ghost toks = tokens@;
    let mut parser = Parser {
        tokens,
        pos: 0,
        module: Module::new(),
        functions: Vec::new(),
        function_names: Vec::new(),
    };
    proof {
        let ls = lexemes(toks);
        assert(parser.tokens@ == toks);
        if lexeme_marker(ls, 0, "MODULE_START"@) {
            lemma_marker_of_lexeme(ls, toks, 0, "MODULE_START"@);
        }
        if lexeme_marker(ls, 1, "MODULE_VERSION"@) {
            lemma_marker_of_lexeme(ls, toks, 1, "MODULE_VERSION"@);
        }
        if lexeme_marker(ls, 1, "MODULE_END"@) {
            lemma_marker_of_lexeme(ls, toks, 1, "MODULE_END"@);
        }
        if lexeme_marker(ls, 3, "MODULE_END"@) {
            lemma_marker_of_lexeme(ls, toks, 3, "MODULE_END"@);
        }
        if lexeme_int(ls, 2, 1) {
            lemma_int_of_lexeme(ls, toks, 2, 1);
        }
        assert forall|n: int| lexeme_int(ls, 2, n) && 0 <= n <= u32::MAX implies int_at(toks, 2, n) && toks[2].line == ls[2].1 by {
            lemma_int_of_lexeme(ls, toks, 2, n);
        }
    }
    parser.parse_module(float_bits)?;
    proof {
        let ls = lexemes(toks);
        assert(parser.tokens@ == toks);
        assert forall|k: int|
            0 <= k < ls.len() && (#[trigger] ls[k]).0 == Lexeme::Marker("MODULE_VERSION".spec_bytes()) implies k + 1
                < ls.len() && ls[k + 1].0 == Lexeme::Int(ArnVersion::SUPPORTED_MAJOR as int) by {
            assert(ls[k] == (lexeme_of(toks[k].kind), toks[k].line));
            if let TokenKind::Marker(m) = toks[k].kind {
                vstd::utf8::encode_utf8_decode_utf8(m@);
                vstd::utf8::encode_utf8_decode_utf8("MODULE_VERSION"@);
                assert(is_version_marker(toks[k].kind));
            }
            assert(ls[k + 1] == (lexeme_of(toks[k + 1].kind), toks[k + 1].line));
        }
    }
    parser.assemble()?;
    Ok(parser.module)
}

} // verus!
