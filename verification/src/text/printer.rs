//! Canonical `.arn` printer.
//!
//! The printer is deterministic: the same module always produces the same
//! text. Blocks are emitted in reverse post-order, with unreachable blocks
//! appended in index order, so that definitions precede uses wherever
//! possible; anonymous values and blocks are numbered in emission order.
//!
//! Text is assembled as UTF-8 bytes. Every piece of the output is described
//! by a spec function below, and `print` is proved to produce exactly their
//! concatenation. Float constants are rendered by a caller-supplied
//! function (the library does no floating-point arithmetic).

use vstd::prelude::*;
use vstd::utf8::*;
use vstd::string::StringSliceAdditionalSpecFns;
use vstd::seq_lib::lemma_concat_associative;

use crate::block::{BasicBlock, BlockParam, Terminator};
use crate::constant::{spec_sign_extend, ConstantData, ConstantStore};
use crate::function::{Abi, Function, Linkage, Param};
use crate::id::{BlockId, ConstantId, FunctionId, SymbolId, TypeId, ValueId};
use crate::instruction::{Instruction, InstructionKind};
use crate::module::Module;
use crate::textbuf::{
    dec_digits, hex_upper, lemma_ascii_utf8, push_ascii, push_dec, push_signed, push_str,
    signed_dec, spec_all_digits, spec_is_reserved_block_name, into_string, is_digit,
};
use crate::types::{lit, type_text, push_type, TypeData};
use crate::value::ValueData;
use crate::verify::cfg::{block_reachable, rpo, CfgInfo};
use crate::text::lexer::{escape_step, hex_value, is_hex_byte, spec_lex_string};

verus! {

// ---------------------------------------------------------------------------
// Strings
// ---------------------------------------------------------------------------

/// A line break.
pub open spec fn nl() -> Seq<u8> {
    seq![10u8]
}

/// How one byte is written inside a double-quoted ARN string literal:
/// the usual escapes for newline, tab, carriage return, NUL, backslash and
/// the quote, printable ASCII as itself, and `\xHH` (upper-case hex) otherwise.
pub open spec fn escape_byte(b: u8) -> Seq<u8> {
    if b == 10 {
        seq![92u8, 110u8]
    } else if b == 9 {
        seq![92u8, 116u8]
    } else if b == 13 {
        seq![92u8, 114u8]
    } else if b == 0 {
        seq![92u8, 48u8]
    } else if b == 92 {
        seq![92u8, 92u8]
    } else if b == 34 {
        seq![92u8, 34u8]
    } else if 0x20 <= b <= 0x7E {
        seq![b]
    } else {
        seq![92u8, 120u8, hex_upper((b / 16) as nat), hex_upper((b % 16) as nat)]
    }
}

/// The escaped form of a byte string.
pub open spec fn escape_bytes(s: Seq<u8>) -> Seq<u8>
    decreases s.len(),
{
    if s.len() == 0 {
        Seq::empty()
    } else {
        escape_bytes(s.drop_last()) + escape_byte(s.last())
    }
}

fn hex_digit_upper(d: u8) -> (r: u8)
    requires
        d < 16,
    ensures
        r == hex_upper(d as nat),
        r < 128,
{
    if d < 10 {
        48 + d
    } else {
        55 + d
    }
}

/// Appends the escaped form of `bytes`.
fn push_escaped(out: &mut Vec<u8>, bytes: &[u8])
    requires
        valid_utf8(old(out)@),
    ensures
        final(out)@ == old(out)@ + escape_bytes(bytes@),
        valid_utf8(final(out)@),
{
    let ghost start = out@;
    let mut i: usize = 0;
    while i < bytes.len()
        invariant
            i <= bytes@.len(),
            valid_utf8(out@),
            out@ == start + escape_bytes(bytes@.subrange(0, i as int)),
        decreases bytes@.len() - i,
    {
        let b = bytes[i];
        let ghost before = out@;
        if b == 10 {
            push_ascii(out, 92);
            push_ascii(out, 110);
        } else if b == 9 {
            push_ascii(out, 92);
            push_ascii(out, 116);
        } else if b == 13 {
            push_ascii(out, 92);
            push_ascii(out, 114);
        } else if b == 0 {
            push_ascii(out, 92);
            push_ascii(out, 48);
        } else if b == 92 {
            push_ascii(out, 92);
            push_ascii(out, 92);
        } else if b == 34 {
            push_ascii(out, 92);
            push_ascii(out, 34);
        } else if 0x20 <= b && b <= 0x7E {
            push_ascii(out, b);
        } else {
            push_ascii(out, 92);
            push_ascii(out, 120);
            let hi = hex_digit_upper(b / 16);
            push_ascii(out, hi);
            let lo = hex_digit_upper(b % 16);
            push_ascii(out, lo);
        }
        proof {
            assert(out@ =~= before + escape_byte(b));
            assert(bytes@.subrange(0, i + 1).drop_last() =~= bytes@.subrange(0, i as int));
            assert(bytes@.subrange(0, i + 1).last() == b);
            assert(out@ =~= start + escape_bytes(bytes@.subrange(0, i + 1)));
        }
        i = i + 1;
    }
    proof {
        assert(bytes@.subrange(0, bytes@.len() as int) =~= bytes@);
    }
}

/// Escapes bytes for a double-quoted ARN string literal.
pub fn escape_string(bytes: &[u8]) -> (r: String)
    ensures
        encode_utf8(r@) == escape_bytes(bytes@),
{
    let mut out: Vec<u8> = Vec::new();
    proof {
        lemma_ascii_utf8(Seq::<u8>::empty());
    }
    push_escaped(&mut out, bytes);
    proof {
        assert(out@ =~= escape_bytes(bytes@));
    }
    into_string(out)
}

/// Escaping distributes over concatenation.
proof fn lemma_escape_bytes_concat(a: Seq<u8>, c: Seq<u8>)
    ensures
        escape_bytes(a + c) == escape_bytes(a) + escape_bytes(c),
    decreases c.len(),
{
    if c.len() == 0 {
        assert(a + c =~= a);
        assert(escape_bytes(a) + escape_bytes(c) =~= escape_bytes(a));
    } else {
        lemma_escape_bytes_concat(a, c.drop_last());
        assert((a + c).drop_last() =~= a + c.drop_last());
        assert((a + c).last() == c.last());
        assert(escape_bytes(a) + escape_bytes(c.drop_last()) + escape_byte(c.last())
            =~= escape_bytes(a) + (escape_bytes(c.drop_last()) + escape_byte(c.last())));
    }
}

/// A hexadecimal digit written by the printer is read back as its value.
proof fn lemma_hex_upper_reads_back(d: nat)
    requires
        d < 16,
    ensures
        is_hex_byte(hex_upper(d)),
        hex_value(hex_upper(d)) == d,
{
}

/// The lexer decodes an escaped byte string that ends at a quote into the
/// same bytes, stopping at that quote.
proof fn lemma_lex_reads_escaped(s: Seq<u8>, i: int, b: Seq<u8>)
    requires
        0 <= i,
        i + escape_bytes(b).len() < s.len(),
        s.subrange(i, i + escape_bytes(b).len()) == escape_bytes(b),
        s[i + escape_bytes(b).len()] == 34,
    ensures
        spec_lex_string(s, i) == Ok::<(Seq<u8>, int), ()>((b, i + escape_bytes(b).len())),
    decreases b.len(),
{
    let eb = escape_bytes(b);
    if b.len() == 0 {
        assert(b =~= Seq::<u8>::empty());
    } else {
        let x = b[0];
        let rest = b.subrange(1, b.len() as int);
        assert(b =~= seq![x] + rest);
        lemma_escape_bytes_concat(seq![x], rest);
        assert(seq![x].drop_last() =~= Seq::<u8>::empty());
        assert(escape_bytes(Seq::<u8>::empty()) == Seq::<u8>::empty());
        assert(seq![x].last() == x);
        assert(escape_bytes(seq![x]) =~= escape_byte(x));
        let p = escape_byte(x);
        let er = escape_bytes(rest);
        assert(eb =~= p + er);
        let n = p.len() as int;
        assert forall|k: int| 0 <= k < n implies s[i + k] == p[k] by {
            assert(s.subrange(i, i + eb.len())[k] == eb[k]);
        }
        assert(s.subrange(i + n, i + n + er.len()) =~= er) by {
            assert forall|k: int| 0 <= k < er.len() implies s[i + n + k] == er[k] by {
                assert(s.subrange(i, i + eb.len())[n + k] == eb[n + k]);
            }
        }
        assert(i + n + er.len() == i + eb.len());
        lemma_lex_reads_escaped(s, i + n, rest);
        if !(x == 10 || x == 9 || x == 13 || x == 0 || x == 92 || x == 34) && !(0x20 <= x <= 0x7E) {
            lemma_hex_upper_reads_back((x / 16) as nat);
            lemma_hex_upper_reads_back((x % 16) as nat);
            assert(s[i + 2] == hex_upper((x / 16) as nat));
            assert(s[i + 3] == hex_upper((x % 16) as nat));
            assert((x / 16) * 16 + x % 16 == x);
            assert(escape_step(s, i) == Some((seq![x], i + 4)));
        }
        assert(spec_lex_string(s, i) == Ok::<(Seq<u8>, int), ()>((seq![x] + rest, i + eb.len())));
    }
}

/// A string that the printer escapes reads back, through the lexer's
/// string decoding, as the same bytes, ending at the closing quote.
pub proof fn law_escaped_string_reads_back(b: Seq<u8>)
    ensures
        spec_lex_string(escape_bytes(b).push(34u8), 0)
            == Ok::<(Seq<u8>, int), ()>((b, escape_bytes(b).len() as int)),
{
    let s = escape_bytes(b).push(34u8);
    assert(s.subrange(0, escape_bytes(b).len() as int) =~= escape_bytes(b));
    lemma_lex_reads_escaped(s, 0, b);
}

// ---------------------------------------------------------------------------
// Module-level pieces
// ---------------------------------------------------------------------------

/// Canonical text of type `t` in `m`.
pub open spec fn tytext(m: Module, t: TypeId) -> Seq<u8> {
    type_text(m.types.types@, t, m.types.types@.len() as nat)
}

/// The bytes of symbol `s`, if it exists.
pub open spec fn sym_text(m: Module, s: SymbolId) -> Option<Seq<u8>> {
    if (s.0 as int) < m.symbols.names@.len() {
        Some(encode_utf8(m.symbols.view_names()[s.0 as int]))
    } else {
        None
    }
}

/// The bytes of symbol `s`, or `fallback` when it does not exist.
pub open spec fn sym_or(m: Module, s: SymbolId, fallback: Seq<u8>) -> Seq<u8> {
    match sym_text(m, s) {
        Some(t) => t,
        None => fallback,
    }
}

/// Type `ty` is a signed integer type of `m`.
pub open spec fn is_signed_int(m: Module, ty: TypeId) -> bool {
    (ty.0 as int) < m.types.types@.len() && (m.types.types@[ty.0 as int] matches TypeData::Int {
        signed,
        ..
    } && signed)
}

/// `c<id>` for each constant id, separated by single spaces.
pub open spec fn cid_list(ids: Seq<ConstantId>) -> Seq<u8>
    decreases ids.len(),
{
    if ids.len() == 0 {
        Seq::empty()
    } else if ids.len() == 1 {
        lit("c") + dec_digits(ids[0].0 as nat)
    } else {
        cid_list(ids.drop_last()) + lit(" ") + lit("c") + dec_digits(ids.last().0 as nat)
    }
}

/// The decimal text of an integer constant: signed types print the
/// sign-extended value, unsigned ones the raw bits.
pub open spec fn int_value_text(m: Module, ty: TypeId, width: u32, bits: u128) -> Seq<u8> {
    if is_signed_int(m, ty) {
        signed_dec(spec_sign_extend(bits, width) as int)
    } else {
        dec_digits(bits as nat)
    }
}

/// The definition line of constant `i`, with `ftext` as the rendered value
/// when it is a float constant.
pub open spec fn constant_line_with(m: Module, i: int, ftext: String) -> Seq<u8> {
    let idx = dec_digits(i as nat);
    match m.constants.constants@[i] {
        ConstantData::Int { ty, width, bits } => lit("::ASTRONOMY::CONSTANT_INT c") + idx + lit(" ")
            + tytext(m, ty) + lit(" ") + int_value_text(m, ty, width, bits) + nl(),
        ConstantData::Float { ty, .. } => lit("::ASTRONOMY::CONSTANT_FLOAT c") + idx + lit(" ")
            + tytext(m, ty) + lit(" ") + encode_utf8(ftext@) + nl(),
        ConstantData::Null { pointee } => lit("::ASTRONOMY::CONSTANT_NULL c") + idx + lit(" ptr<")
            + tytext(m, pointee) + lit(">") + nl(),
        ConstantData::String { bytes } => lit("::ASTRONOMY::CONSTANT_STRING c") + idx + lit(" \"")
            + escape_bytes(bytes@) + lit("\"") + nl(),
        ConstantData::Aggregate { ty, elements } => lit("::ASTRONOMY::CONSTANT_AGGREGATE c") + idx
            + lit(" ") + tytext(m, ty) + lit(" ") + cid_list(elements@) + nl(),
    }
}

/// The definition line of constant `i`; `floats[i]` is the text the float
/// renderer gave for it, when it is a float constant.
pub open spec fn constant_line(m: Module, i: int, floats: Seq<String>) -> Seq<u8> {
    constant_line_with(m, i, floats[i])
}

/// The definition lines of constants `0..k`.
pub open spec fn constant_lines(m: Module, k: int, floats: Seq<String>) -> Seq<u8>
    decreases k,
{
    if k <= 0 {
        Seq::empty()
    } else {
        constant_lines(m, k - 1, floats) + constant_line(m, k - 1, floats)
    }
}

/// The constants section (absent when the pool is empty).
pub open spec fn constants_text(m: Module, floats: Seq<String>) -> Seq<u8> {
    let n = m.constants.constants@.len() as int;
    if n == 0 {
        Seq::empty()
    } else {
        lit("::ASTRONOMY::CONSTANTS_START\n") + constant_lines(m, n, floats) + lit(
            "::ASTRONOMY::CONSTANTS_END\n",
        )
    }
}

/// The constant lines `0..k` only read the first `k` float texts.
proof fn lemma_constant_lines_prefix(m: Module, k: int, a: Seq<String>, b: Seq<String>)
    requires
        0 <= k <= a.len(),
        k <= b.len(),
        forall|j: int| 0 <= j < k ==> a[j] == b[j],
    ensures
        constant_lines(m, k, a) == constant_lines(m, k, b),
    decreases k,
{
    if k > 0 {
        lemma_constant_lines_prefix(m, k - 1, a, b);
    }
}

/// `floats` holds, for every float constant, a text that `float_text`
/// may return for its bits (`true` selects single precision).
pub open spec fn floats_ok<G: Fn(u64, bool) -> String>(
    float_text: &G,
    m: Module,
    floats: Seq<String>,
) -> bool {
    &&& floats.len() == m.constants.constants@.len()
    &&& forall|i: int|
        0 <= i < floats.len() ==> (#[trigger] m.constants.constants@[i] matches ConstantData::Float {
            ty,
            bits,
        } ==> float_text.ensures((bits, ty == TypeId::F32()), floats[i]))
}

fn push_cid(out: &mut Vec<u8>, c: ConstantId)
    requires
        valid_utf8(old(out)@),
    ensures
        final(out)@ == old(out)@ + lit("c") + dec_digits(c.0 as nat),
        valid_utf8(final(out)@),
{
    push_str(out, "c");
    push_dec(out, c.0 as u128);
}

fn push_cid_list(out: &mut Vec<u8>, ids: &Vec<ConstantId>)
    requires
        valid_utf8(old(out)@),
    ensures
        final(out)@ == old(out)@ + cid_list(ids@),
        valid_utf8(final(out)@),
{
    let ghost start = out@;
    let mut i: usize = 0;
    while i < ids.len()
        invariant
            i <= ids@.len(),
            valid_utf8(out@),
            out@ == start + cid_list(ids@.subrange(0, i as int)),
        decreases ids@.len() - i,
    {
        let ghost before = out@;
        let ghost sub = ids@.subrange(0, i + 1);
        if i > 0 {
            push_str(out, " ");
        }
        push_cid(out, ids[i]);
        proof {
            assert(sub.drop_last() =~= ids@.subrange(0, i as int));
            if i == 0 {
                assert(cid_list(sub) == lit("c") + dec_digits(sub[0].0 as nat));
                assert(out@ =~= start + cid_list(sub));
            } else {
                assert(out@ =~= start + cid_list(sub));
            }
        }
        i = i + 1;
    }
    proof {
        assert(ids@.subrange(0, ids@.len() as int) =~= ids@);
    }
}

#[verifier::rlimit(50)]
#[verifier::spinoff_prover]
fn push_constant_line<G: Fn(u64, bool) -> String>(
    out: &mut Vec<u8>,
    m: &Module,
    i: usize,
    float_text: &G,
) -> (s: Ghost<String>)
    requires
        valid_utf8(old(out)@),
        i < m.constants.constants@.len(),
        forall|b: u64, single: bool| float_text.requires((b, single)),
    ensures
        valid_utf8(final(out)@),
        (m.constants.constants@[i as int] matches ConstantData::Float { ty, bits } ==> float_text.ensures(
            (bits, ty == TypeId::F32()),
            s@,
        )),
        final(out)@ == old(out)@ + constant_line_with(*m, i as int, s@),
{
    let ghost start = out@;
    let fuel = m.types.types.len() as u64;
    match &m.constants.constants[i] {
        ConstantData::Int { ty, width, bits } => {
            push_str(out, "::ASTRONOMY::CONSTANT_INT c");
            push_dec(out, i as u128);
            push_str(out, " ");
            push_type(out, &m.types, *ty, fuel);
            push_str(out, " ");
            let signed = ty.index() < m.types.types.len() && match &m.types.types[ty.index()] {
                TypeData::Int { signed, .. } => *signed,
                _ => false,
            };
            if signed {
                let v = ConstantStore::sign_extend(*bits, *width);
                push_signed(out, v);
            } else {
                push_dec(out, *bits);
            }
            push_ascii(out, 10);
            proof {
                assert(out@ =~= start + constant_line_with(*m, i as int, arbitrary()));
            }
            Ghost(arbitrary())
        },
        ConstantData::Float { ty, bits } => {
            push_str(out, "::ASTRONOMY::CONSTANT_FLOAT c");
            push_dec(out, i as u128);
            push_str(out, " ");
            push_type(out, &m.types, *ty, fuel);
            push_str(out, " ");
            let text = float_text(*bits, ty.0 == 12);
            push_str(out, text.as_str());
            push_ascii(out, 10);
            proof {
                assert(out@ =~= start + constant_line_with(*m, i as int, text));
            }
            Ghost(text)
        },
        ConstantData::Null { pointee } => {
            push_str(out, "::ASTRONOMY::CONSTANT_NULL c");
            push_dec(out, i as u128);
            push_str(out, " ptr<");
            push_type(out, &m.types, *pointee, fuel);
            push_str(out, ">");
            push_ascii(out, 10);
            proof {
                assert(out@ =~= start + constant_line_with(*m, i as int, arbitrary()));
            }
            Ghost(arbitrary())
        },
        ConstantData::String { bytes } => {
            push_str(out, "::ASTRONOMY::CONSTANT_STRING c");
            push_dec(out, i as u128);
            push_str(out, " \"");
            push_escaped(out, bytes.as_slice());
            push_str(out, "\"");
            push_ascii(out, 10);
            proof {
                assert(out@ =~= start + constant_line_with(*m, i as int, arbitrary()));
            }
            Ghost(arbitrary())
        },
        ConstantData::Aggregate { ty, elements } => {
            push_str(out, "::ASTRONOMY::CONSTANT_AGGREGATE c");
            push_dec(out, i as u128);
            push_str(out, " ");
            push_type(out, &m.types, *ty, fuel);
            push_str(out, " ");
            push_cid_list(out, elements);
            push_ascii(out, 10);
            proof {
                assert(out@ =~= start + constant_line_with(*m, i as int, arbitrary()));
            }
            Ghost(arbitrary())
        },
    }
}

/// Appends the constants section.
fn push_constants<G: Fn(u64, bool) -> String>(out: &mut Vec<u8>, m: &Module, float_text: &G) -> (floats: Ghost<Seq<String>>)
    requires
        valid_utf8(old(out)@),
        forall|b: u64, single: bool| float_text.requires((b, single)),
    ensures
        valid_utf8(final(out)@),
        floats_ok(float_text, *m, floats@),
        final(out)@ == old(out)@ + constants_text(*m, floats@),
{
    let ghost start = out@;
    let n = m.constants.constants.len();
    let ghost mut floats: Seq<String> = Seq::empty();
    if n == 0 {
        proof {
            assert(out@ =~= start + constants_text(*m, floats));
        }
        return Ghost(floats);
    }
    push_str(out, "::ASTRONOMY::CONSTANTS_START\n");
    let ghost head = out@;
    let mut i: usize = 0;
    while i < n
        invariant
            n == m.constants.constants@.len(),
            i <= n,
            valid_utf8(out@),
            floats.len() == i,
            forall|b: u64, single: bool| float_text.requires((b, single)),
            forall|j: int|
                0 <= j < i ==> (#[trigger] m.constants.constants@[j] matches ConstantData::Float { ty, bits }
                    ==> float_text.ensures((bits, ty == TypeId::F32()), floats[j])),
            out@ == head + constant_lines(*m, i as int, floats),
        decreases n - i,
    {
        let s = push_constant_line(out, m, i, float_text);
        proof {
            let nf = floats.push(s@);
            lemma_constant_lines_prefix(*m, i as int, nf, floats);
            assert(nf[i as int] == s@);
            floats = nf;
        }
        i = i + 1;
    }
    push_str(out, "::ASTRONOMY::CONSTANTS_END\n");
    proof {
        assert(out@ =~= start + constants_text(*m, floats));
    }
    Ghost(floats)
}

// ---------------------------------------------------------------------------
// Names and labels
// ---------------------------------------------------------------------------

/// The printed name recorded for key `k`; the last entry for it wins.
pub open spec fn lookup_name(pairs: Seq<(u32, Seq<u8>)>, k: u32) -> Option<Seq<u8>>
    decreases pairs.len(),
{
    if pairs.len() == 0 {
        None
    } else if pairs.last().0 == k {
        Some(pairs.last().1)
    } else {
        lookup_name(pairs.drop_last(), k)
    }
}

/// The printed name of key `k`, `?` when none was recorded.
pub open spec fn shown(pairs: Seq<(u32, Seq<u8>)>, k: u32) -> Seq<u8> {
    match lookup_name(pairs, k) {
        Some(t) => t,
        None => lit("?"),
    }
}

/// Key `k` has a recorded name.
pub open spec fn has_name(pairs: Seq<(u32, Seq<u8>)>, k: u32) -> bool {
    lookup_name(pairs, k) is Some
}

/// Number of arena values whose debug name is `s`.
pub open spec fn count_value_name(vals: Seq<ValueData>, s: SymbolId) -> nat
    decreases vals.len(),
{
    if vals.len() == 0 {
        0
    } else {
        count_value_name(vals.drop_last(), s) + if vals.last().name == Some(s) {
            1nat
        } else {
            0nat
        }
    }
}

/// Number of blocks whose label symbol is `s`.
pub open spec fn count_block_name(blocks: Seq<BasicBlock>, s: SymbolId) -> nat
    decreases blocks.len(),
{
    if blocks.len() == 0 {
        0
    } else {
        count_block_name(blocks.drop_last(), s) + if blocks.last().name == Some(s) {
            1nat
        } else {
            0nat
        }
    }
}

/// The name value `v` prints under when its debug name is carried by no
/// other value of the function (`?` when that symbol does not exist);
/// `None` when the value is numbered instead.
pub open spec fn own_value_name(m: Module, f: Function, v: u32) -> Option<Seq<u8>> {
    if (v as int) < f.values@.len() && f.values@[v as int].name is Some && count_value_name(
        f.values@,
        f.values@[v as int].name->0,
    ) == 1 {
        Some(sym_or(m, f.values@[v as int].name->0, lit("?")))
    } else {
        None
    }
}

/// The label block `b` prints under when its debug name is carried by no
/// other block, exists, and is not of the reserved `bb<digits>` form;
/// `None` when the block is numbered instead.
pub open spec fn own_block_label(m: Module, f: Function, b: int) -> Option<Seq<u8>> {
    let name = f.blocks@[b].name;
    if name is Some && count_block_name(f.blocks@, name->0) == 1 && sym_text(m, name->0) is Some
        && !spec_is_reserved_block_name(sym_text(m, name->0)->0) {
        sym_text(m, name->0)
    } else {
        None
    }
}

/// Every recorded value name is the value's own name or a number.
pub open spec fn value_names_ok(m: Module, f: Function, vn: Seq<(u32, Seq<u8>)>) -> bool {
    forall|i: int|
        0 <= i < vn.len() ==> match own_value_name(m, f, #[trigger] vn[i].0) {
            Some(t) => vn[i].1 == t,
            None => spec_all_digits(vn[i].1),
        }
}

/// Label `l` is right for block `b`: its own label, or `bb` and a number.
pub open spec fn block_label_ok(m: Module, f: Function, b: int, l: Seq<u8>) -> bool {
    match own_block_label(m, f, b) {
        Some(t) => l == t,
        None => exists|d: Seq<u8>| #[trigger] spec_all_digits(d) && l == lit("bb") + d,
    }
}

/// The block labels follow the emission order, one per block.
pub open spec fn block_labels_ok(m: Module, f: Function, order: Seq<usize>, bn: Seq<(u32, Seq<u8>)>) -> bool {
    &&& bn.len() == order.len()
    &&& forall|j: int|
        0 <= j < bn.len() ==> #[trigger] bn[j].0 == order[j] as u32 && block_label_ok(
            m,
            f,
            order[j] as int,
            bn[j].1,
        )
}

/// The key of an instruction's result value.
pub open spec fn result_key(inst: Instruction) -> u32 {
    match inst.result {
        Some(r) => r.0,
        None => 0,
    }
}

/// Every parameter, block parameter and instruction result of the emitted
/// blocks has a recorded name.
pub open spec fn names_cover(f: Function, order: Seq<usize>, vn: Seq<(u32, Seq<u8>)>) -> bool {
    &&& forall|i: int| 0 <= i < f.params@.len() ==> has_name(vn, #[trigger] f.params@[i].value.0)
    &&& forall|j: int, k: int|
        0 <= j < order.len() && 0 <= k < f.blocks@[order[j] as int].params@.len() ==> has_name(
            vn,
            #[trigger] f.blocks@[order[j] as int].params@[k].value.0,
        )
    &&& forall|j: int, k: int|
        0 <= j < order.len() && 0 <= k < f.blocks@[order[j] as int].instructions@.len()
            && f.blocks@[order[j] as int].instructions@[k].result is Some ==> has_name(
            vn,
            result_key(#[trigger] f.blocks@[order[j] as int].instructions@[k]),
        )
}

/// The unreachable blocks among the first `k` blocks of `f`, by index.
pub open spec fn unreachable_upto(f: Function, k: int) -> Seq<usize>
    decreases k,
{
    if k <= 0 {
        Seq::empty()
    } else {
        let rest = unreachable_upto(f, k - 1);
        if block_reachable(f, k - 1) {
            rest
        } else {
            rest.push((k - 1) as usize)
        }
    }
}

/// The order in which the blocks of `f` are printed: the reachable ones in
/// reverse post-order ([`rpo`]), then the unreachable ones by index.
pub open spec fn emission_order(f: Function) -> Seq<usize> {
    if f.blocks@.len() == 0 {
        Seq::empty()
    } else {
        rpo(f) + unreachable_upto(f, f.blocks@.len() as int)
    }
}

/// The block emission order: [`emission_order`], which prints every block
/// exactly once, the entry block first, reachable blocks before the
/// unreachable ones, and those by increasing index.
pub open spec fn order_ok(f: Function, order: Seq<usize>) -> bool {
    let n = f.blocks@.len();
    &&& order == emission_order(f)
    &&& n > 0 ==> order.len() > 0 && order[0] == 0
    &&& forall|i: int| 0 <= i < order.len() ==> (#[trigger] order[i] as int) < n
    &&& forall|i: int, j: int| 0 <= i < j < order.len() ==> order[i] != order[j]
    &&& forall|b: int| 0 <= b < n ==> #[trigger] order.contains(b as usize)
    &&& forall|i: int, j: int|
        0 <= i < j < order.len() && !block_reachable(f, order[i] as int) ==> !block_reachable(
            f,
            order[j] as int,
        ) && order[i] < order[j]
}

/// One more, stopping at the largest `u64`.
pub open spec fn next_count(c: nat) -> nat {
    if c < u64::MAX {
        c + 1
    } else {
        c
    }
}

/// The values the instructions define, in order.
pub open spec fn inst_defs(insts: Seq<Instruction>) -> Seq<u32>
    decreases insts.len(),
{
    if insts.len() == 0 {
        Seq::empty()
    } else {
        inst_defs(insts.drop_last()) + match insts.last().result {
            Some(r) => seq![r.0],
            None => Seq::<u32>::empty(),
        }
    }
}

/// The values a block defines, in order: its parameters, then the results
/// of its instructions.
pub open spec fn block_defs(blk: BasicBlock) -> Seq<u32> {
    blk.params@.map_values(|p: BlockParam| p.value.0) + inst_defs(blk.instructions@)
}

/// The values the blocks of `order` define, block after block.
pub open spec fn order_defs(f: Function, order: Seq<usize>) -> Seq<u32>
    decreases order.len(),
{
    if order.len() == 0 {
        Seq::empty()
    } else {
        order_defs(f, order.drop_last()) + block_defs(f.blocks@[order.last() as int])
    }
}

/// The values of `f` in the order the printer names them: the parameters,
/// then block by block in `order` the values each block defines.
pub open spec fn defined_values(f: Function, order: Seq<usize>) -> Seq<u32> {
    f.params@.map_values(|p: Param| p.value.0) + order_defs(f, order)
}

/// Naming one more value: its own name, or the next number.
pub open spec fn name_step(m: Module, f: Function, state: (Seq<(u32, Seq<u8>)>, nat), v: u32) -> (Seq<(u32, Seq<u8>)>, nat) {
    match own_value_name(m, f, v) {
        Some(t) => (state.0.push((v, t)), state.1),
        None => (state.0.push((v, dec_digits(state.1))), next_count(state.1)),
    }
}

/// The names recorded for `defs`, in order, after `start`, with the next
/// number to give.
pub open spec fn names_after(m: Module, f: Function, start: (Seq<(u32, Seq<u8>)>, nat), defs: Seq<u32>) -> (Seq<(u32, Seq<u8>)>, nat)
    decreases defs.len(),
{
    if defs.len() == 0 {
        start
    } else {
        name_step(m, f, names_after(m, f, start, defs.drop_last()), defs.last())
    }
}

/// Labelling one more block: its own label, or `bb` and the next number.
pub open spec fn label_step(m: Module, f: Function, state: (Seq<(u32, Seq<u8>)>, nat), b: usize) -> (Seq<(u32, Seq<u8>)>, nat) {
    match own_block_label(m, f, b as int) {
        Some(t) => (state.0.push((b as u32, t)), state.1),
        None => (state.0.push((b as u32, lit("bb") + dec_digits(state.1))), next_count(state.1)),
    }
}

/// The labels recorded for the blocks of `order`, in order, with the next
/// number to give.
pub open spec fn labels_after(m: Module, f: Function, order: Seq<usize>) -> (Seq<(u32, Seq<u8>)>, nat)
    decreases order.len(),
{
    if order.len() == 0 {
        (Seq::empty(), 0)
    } else {
        label_step(m, f, labels_after(m, f, order.drop_last()), order.last())
    }
}

/// Naming two runs of values one after the other.
proof fn lemma_names_after_concat(m: Module, f: Function, start: (Seq<(u32, Seq<u8>)>, nat), a: Seq<u32>, b: Seq<u32>)
    ensures
        names_after(m, f, start, a + b) == names_after(m, f, names_after(m, f, start, a), b),
    decreases b.len(),
{
    if b.len() == 0 {
        assert(a + b =~= a);
    } else {
        lemma_names_after_concat(m, f, start, a, b.drop_last());
        assert((a + b).drop_last() =~= a + b.drop_last());
        assert((a + b).last() == b.last());
    }
}

/// How a function is laid out in text: the block emission order, the value
/// names and the block labels.
#[verifier::opaque]
pub open spec fn layout_ok(m: Module, f: Function, layout: (Seq<usize>, Seq<(u32, Seq<u8>)>, Seq<(u32, Seq<u8>)>)) -> bool {
    &&& order_ok(f, layout.0)
    &&& value_names_ok(m, f, layout.1)
    &&& block_labels_ok(m, f, layout.0, layout.2)
    &&& names_cover(f, layout.0, layout.1)
    &&& layout.1 == names_after(m, f, (Seq::empty(), 0), defined_values(f, layout.0)).0
    &&& layout.2 == labels_after(m, f, layout.0).0
}

// ---------------------------------------------------------------------------
// Instructions and terminators
// ---------------------------------------------------------------------------

/// The type of value `v` (`void` for an unknown value).
pub open spec fn value_type(f: Function, v: ValueId) -> TypeId {
    match f.spec_value(v) {
        Some(d) => d.ty,
        None => TypeId(0),
    }
}

/// An operand: its type and its name.
pub open spec fn operand_text(m: Module, f: Function, vn: Seq<(u32, Seq<u8>)>, v: ValueId) -> Seq<u8> {
    tytext(m, value_type(f, v)) + lit(" %") + shown(vn, v.0)
}

/// Operands separated by `, `.
pub open spec fn operand_list(m: Module, f: Function, vn: Seq<(u32, Seq<u8>)>, vals: Seq<ValueId>) -> Seq<u8>
    decreases vals.len(),
{
    if vals.len() == 0 {
        Seq::empty()
    } else if vals.len() == 1 {
        operand_text(m, f, vn, vals[0])
    } else {
        operand_list(m, f, vn, vals.drop_last()) + lit(", ") + operand_text(m, f, vn, vals.last())
    }
}

/// `%name = ` for an instruction with a result.
pub open spec fn result_prefix(vn: Seq<(u32, Seq<u8>)>, result: Option<ValueId>) -> Seq<u8> {
    match result {
        Some(r) => lit("%") + shown(vn, r.0) + lit(" = "),
        None => Seq::empty(),
    }
}

/// The type of an instruction's result (`void` without one).
pub open spec fn result_type_text(m: Module, f: Function, result: Option<ValueId>) -> Seq<u8> {
    match result {
        Some(r) => match f.spec_value(r) {
            Some(d) => tytext(m, d.ty),
            None => lit("void"),
        },
        None => lit("void"),
    }
}

/// The name of function `id` as a call prints it.
pub open spec fn callee_text(m: Module, id: FunctionId) -> Seq<u8> {
    if (id.0 as int) < m.functions@.len() && sym_text(m, m.functions@[id.0 as int].symbol) is Some {
        sym_text(m, m.functions@[id.0 as int].symbol)->0
    } else {
        lit("<invalid-function>")
    }
}

/// `p::ASTRONOMY::OP t a` (also used with a second operand appended).
pub open spec fn op_text(p: Seq<u8>, opcode: Seq<u8>, t: Seq<u8>, a: Seq<u8>) -> Seq<u8> {
    p + lit("::ASTRONOMY::") + opcode + lit(" ") + t + lit(" ") + a
}

/// Opcode and operands of the two-operand forms printed as
/// `OP result-type a, b` (binary operations, comparisons, pointer offset).
pub open spec fn binary_parts(k: InstructionKind) -> Option<(Seq<u8>, ValueId, ValueId)> {
    match k {
        InstructionKind::Add { lhs, rhs } => Some((lit("ADD"), lhs, rhs)),
        InstructionKind::Sub { lhs, rhs } => Some((lit("SUB"), lhs, rhs)),
        InstructionKind::Mul { lhs, rhs } => Some((lit("MUL"), lhs, rhs)),
        InstructionKind::Div { lhs, rhs } => Some((lit("DIV"), lhs, rhs)),
        InstructionKind::Rem { lhs, rhs } => Some((lit("REM"), lhs, rhs)),
        InstructionKind::And { lhs, rhs } => Some((lit("AND"), lhs, rhs)),
        InstructionKind::Or { lhs, rhs } => Some((lit("OR"), lhs, rhs)),
        InstructionKind::Xor { lhs, rhs } => Some((lit("XOR"), lhs, rhs)),
        InstructionKind::Shl { lhs, rhs } => Some((lit("SHL"), lhs, rhs)),
        InstructionKind::Shr { lhs, rhs } => Some((lit("SHR"), lhs, rhs)),
        InstructionKind::Eq { lhs, rhs } => Some((lit("EQ"), lhs, rhs)),
        InstructionKind::Ne { lhs, rhs } => Some((lit("NE"), lhs, rhs)),
        InstructionKind::Lt { lhs, rhs } => Some((lit("LT"), lhs, rhs)),
        InstructionKind::Le { lhs, rhs } => Some((lit("LE"), lhs, rhs)),
        InstructionKind::Gt { lhs, rhs } => Some((lit("GT"), lhs, rhs)),
        InstructionKind::Ge { lhs, rhs } => Some((lit("GE"), lhs, rhs)),
        InstructionKind::PtrOffset { pointer, offset } => Some((lit("PTR_OFFSET"), pointer, offset)),
        _ => None,
    }
}

/// Opcode, type and operand of the forms printed as `OP type a`
/// (load and the conversions).
pub open spec fn typed_unary_parts(k: InstructionKind) -> Option<(Seq<u8>, TypeId, ValueId)> {
    match k {
        InstructionKind::Load { ty, pointer } => Some((lit("LOAD"), ty, pointer)),
        InstructionKind::Ext { to, value } => Some((lit("EXT"), to, value)),
        InstructionKind::Trunc { to, value } => Some((lit("TRUNC"), to, value)),
        InstructionKind::IntToFloat { to, value } => Some((lit("INT_TO_FLOAT"), to, value)),
        InstructionKind::FloatToInt { to, value } => Some((lit("FLOAT_TO_INT"), to, value)),
        InstructionKind::PtrCast { to, pointer } => Some((lit("PTR_CAST"), to, pointer)),
        _ => None,
    }
}

/// The line of one instruction.
pub open spec fn inst_line(m: Module, f: Function, vn: Seq<(u32, Seq<u8>)>, inst: Instruction) -> Seq<u8> {
    let p = result_prefix(vn, inst.result);
    let rt = result_type_text(m, f, inst.result);
    if binary_parts(inst.kind) is Some {
        let (opcode, a, b) = binary_parts(inst.kind)->0;
        op_text(p, opcode, rt, operand_text(m, f, vn, a)) + lit(", ") + operand_text(m, f, vn, b) + nl()
    } else if typed_unary_parts(inst.kind) is Some {
        let (opcode, t, a) = typed_unary_parts(inst.kind)->0;
        op_text(p, opcode, tytext(m, t), operand_text(m, f, vn, a)) + nl()
    } else {
        match inst.kind {
            InstructionKind::Const(c) => p + lit("::ASTRONOMY::CONST ") + rt + lit(" c") + dec_digits(c.0 as nat) + nl(),
            InstructionKind::Alloca { pointee } => op_text(p, lit("ALLOCA"), rt, tytext(m, pointee)) + nl(),
            InstructionKind::Store { pointer, value } => lit("::ASTRONOMY::STORE ") + operand_text(m, f, vn, pointer) + lit(", ") + operand_text(m, f, vn, value) + nl(),
            InstructionKind::Call { callee, args } => p + lit("::ASTRONOMY::CALL ") + rt + lit(" @") + callee_text(m, callee) + lit("(") + operand_list(m, f, vn, args@) + lit(")") + nl(),
            InstructionKind::Construct { ty, fields } => p + lit("::ASTRONOMY::CONSTRUCT ") + tytext(m, ty) + lit(" (") + operand_list(m, f, vn, fields@) + lit(")") + nl(),
            InstructionKind::Extract { aggregate, index } => op_text(p, lit("EXTRACT"), rt, operand_text(m, f, vn, aggregate)) + lit(", ") + dec_digits(index as nat) + nl(),
            InstructionKind::Insert { aggregate, index, value } => op_text(p, lit("INSERT"), rt, operand_text(m, f, vn, aggregate)) + lit(", ") + dec_digits(index as nat) + lit(", ") + operand_text(m, f, vn, value) + nl(),
            _ => Seq::empty(),
        }
    }
}

/// A branch target: its label, with the arguments in parentheses when
/// there are any.
pub open spec fn target_text(
    m: Module,
    f: Function,
    vn: Seq<(u32, Seq<u8>)>,
    bn: Seq<(u32, Seq<u8>)>,
    b: BlockId,
    args: Seq<ValueId>,
) -> Seq<u8> {
    if args.len() == 0 {
        shown(bn, b.0)
    } else {
        shown(bn, b.0) + lit("(") + operand_list(m, f, vn, args) + lit(")")
    }
}

/// The line of a terminator.
pub open spec fn term_line(
    m: Module,
    f: Function,
    vn: Seq<(u32, Seq<u8>)>,
    bn: Seq<(u32, Seq<u8>)>,
    t: Terminator,
) -> Seq<u8> {
    match t {
        Terminator::Jump { target, args } => lit("::ASTRONOMY::JUMP ") + target_text(m, f, vn, bn, target, args@) + nl(),
        Terminator::Branch { condition, then_block, then_args, else_block, else_args } => lit(
            "::ASTRONOMY::BRANCH ",
        ) + operand_text(m, f, vn, condition) + lit(", ") + target_text(m, f, vn, bn, then_block, then_args@)
            + lit(", ") + target_text(m, f, vn, bn, else_block, else_args@) + nl(),
        Terminator::Return { value } => match value {
            Some(v) => lit("::ASTRONOMY::RETURN ") + operand_text(m, f, vn, v) + nl(),
            None => lit("::ASTRONOMY::RETURN void") + nl(),
        },
        Terminator::Unreachable => lit("::ASTRONOMY::UNREACHABLE") + nl(),
    }
}

// ---------------------------------------------------------------------------
// Blocks, functions and the module
// ---------------------------------------------------------------------------

/// One block parameter: its type and name.
pub open spec fn bparam_text(m: Module, vn: Seq<(u32, Seq<u8>)>, p: BlockParam) -> Seq<u8> {
    tytext(m, p.ty) + lit(" %") + shown(vn, p.value.0)
}

/// Block parameters separated by `, `.
pub open spec fn bparam_list(m: Module, vn: Seq<(u32, Seq<u8>)>, ps: Seq<BlockParam>) -> Seq<u8>
    decreases ps.len(),
{
    if ps.len() == 0 {
        Seq::empty()
    } else if ps.len() == 1 {
        bparam_text(m, vn, ps[0])
    } else {
        bparam_list(m, vn, ps.drop_last()) + lit(", ") + bparam_text(m, vn, ps.last())
    }
}

/// The lines of a sequence of instructions.
pub open spec fn inst_lines(m: Module, f: Function, vn: Seq<(u32, Seq<u8>)>, insts: Seq<Instruction>) -> Seq<u8>
    decreases insts.len(),
{
    if insts.len() == 0 {
        Seq::empty()
    } else {
        inst_lines(m, f, vn, insts.drop_last()) + inst_line(m, f, vn, insts.last())
    }
}

/// The terminator line, when there is a terminator.
pub open spec fn opt_term_text(
    m: Module,
    f: Function,
    vn: Seq<(u32, Seq<u8>)>,
    bn: Seq<(u32, Seq<u8>)>,
    t: Option<Terminator>,
) -> Seq<u8> {
    match t {
        Some(t) => term_line(m, f, vn, bn, t),
        None => Seq::empty(),
    }
}

/// The first line of block `b`: its label and parameters.
pub open spec fn block_header_text(
    m: Module,
    f: Function,
    vn: Seq<(u32, Seq<u8>)>,
    bn: Seq<(u32, Seq<u8>)>,
    b: usize,
) -> Seq<u8> {
    let blk = f.blocks@[b as int];
    let params = if blk.params@.len() == 0 {
        Seq::empty()
    } else {
        lit("(") + bparam_list(m, vn, blk.params@) + lit(")")
    };
    lit("::ASTRONOMY::BLOCK_START ") + shown(bn, b as u32) + params + nl()
}

/// The text of block `b`: its header, instructions, terminator and end
/// marker.
pub open spec fn block_text(
    m: Module,
    f: Function,
    vn: Seq<(u32, Seq<u8>)>,
    bn: Seq<(u32, Seq<u8>)>,
    b: usize,
) -> Seq<u8> {
    let blk = f.blocks@[b as int];
    let term = opt_term_text(m, f, vn, bn, blk.terminator);
    block_header_text(m, f, vn, bn, b) + inst_lines(
        m,
        f,
        vn,
        blk.instructions@,
    ) + term + lit("::ASTRONOMY::BLOCK_END\n")
}

/// The blocks in emission order.
pub open spec fn blocks_text(
    m: Module,
    f: Function,
    vn: Seq<(u32, Seq<u8>)>,
    bn: Seq<(u32, Seq<u8>)>,
    order: Seq<usize>,
) -> Seq<u8>
    decreases order.len(),
{
    if order.len() == 0 {
        Seq::empty()
    } else {
        blocks_text(m, f, vn, bn, order.drop_last()) + block_text(m, f, vn, bn, order.last())
    }
}

/// The debug name of parameter `p`, when it has one whose symbol exists.
pub open spec fn param_own_name(m: Module, f: Function, p: Param) -> Option<Seq<u8>> {
    match f.spec_value(p.value) {
        Some(d) => match d.name {
            Some(s) => sym_text(m, s),
            None => None,
        },
        None => None,
    }
}

/// One parameter of a function header: its type, then its own name, or
/// its printed name in a definition (declarations omit anonymous handles).
pub open spec fn fparam_text(m: Module, f: Function, vn: Seq<(u32, Seq<u8>)>, p: Param) -> Seq<u8> {
    tytext(m, p.ty) + match param_own_name(m, f, p) {
        Some(n) => lit(" %") + n,
        None => if f.blocks@.len() > 0 {
            lit(" %") + shown(vn, p.value.0)
        } else {
            Seq::empty()
        },
    }
}

/// Function parameters separated by `, `.
pub open spec fn fparam_list(m: Module, f: Function, vn: Seq<(u32, Seq<u8>)>, ps: Seq<Param>) -> Seq<u8>
    decreases ps.len(),
{
    if ps.len() == 0 {
        Seq::empty()
    } else if ps.len() == 1 {
        fparam_text(m, f, vn, ps[0])
    } else {
        fparam_list(m, f, vn, ps.drop_last()) + lit(", ") + fparam_text(m, f, vn, ps.last())
    }
}

/// `...` for a variadic function, after a separator when there are
/// parameters.
pub open spec fn variadic_text(f: Function) -> Seq<u8> {
    if f.variadic {
        if f.params@.len() > 0 {
            lit(", ") + lit("...")
        } else {
            lit("...")
        }
    } else {
        Seq::empty()
    }
}

/// The ARN keyword of a linkage.
pub open spec fn linkage_text(l: Linkage) -> Seq<u8> {
    match l {
        Linkage::Internal => lit("internal"),
        Linkage::External => lit("external"),
        Linkage::Exported => lit("exported"),
    }
}

/// The ARN spelling of an ABI.
pub open spec fn abi_text(m: Module, abi: Abi) -> Seq<u8> {
    match abi {
        Abi::Astronomy => lit("astronomy"),
        Abi::C => lit("c"),
        Abi::System => lit("system"),
        Abi::Custom(s) => lit("custom ") + sym_or(m, s, lit("<invalid>")),
    }
}

/// The header line of a function.
pub open spec fn function_header(m: Module, f: Function, vn: Seq<(u32, Seq<u8>)>) -> Seq<u8> {
    lit("::ASTRONOMY::FUNCTION_START ") + sym_or(m, f.symbol, lit("<invalid>")) + lit(" fn(")
        + fparam_list(m, f, vn, f.params@) + variadic_text(f) + lit(") -> ") + tytext(m, f.result)
        + lit(" linkage=") + linkage_text(f.linkage) + lit(" abi=") + abi_text(m, f.abi) + nl()
}

/// The text of a function under a given layout.
pub open spec fn function_text(
    m: Module,
    f: Function,
    layout: (Seq<usize>, Seq<(u32, Seq<u8>)>, Seq<(u32, Seq<u8>)>),
) -> Seq<u8> {
    function_header(m, f, layout.1) + blocks_text(m, f, layout.1, layout.2, layout.0) + lit(
        "::ASTRONOMY::FUNCTION_END\n",
    )
}

/// The texts of functions `0..k`.
pub open spec fn functions_text(
    m: Module,
    layouts: Seq<(Seq<usize>, Seq<(u32, Seq<u8>)>, Seq<(u32, Seq<u8>)>)>,
    k: int,
) -> Seq<u8>
    decreases k,
{
    if k <= 0 {
        Seq::empty()
    } else {
        functions_text(m, layouts, k - 1) + function_text(m, m.functions@[k - 1], layouts[k - 1])
    }
}

/// Every function has a layout that is right for it.
pub open spec fn layouts_ok(m: Module, layouts: Seq<(Seq<usize>, Seq<(u32, Seq<u8>)>, Seq<(u32, Seq<u8>)>)>) -> bool {
    &&& layouts.len() == m.functions@.len()
    &&& forall|i: int| 0 <= i < layouts.len() ==> layout_ok(m, m.functions@[i], #[trigger] layouts[i])
}

/// The module name line, when the module has a name.
pub open spec fn module_name_text(m: Module) -> Seq<u8> {
    match m.name {
        Some(s) => match sym_text(m, s) {
            Some(t) => lit("::ASTRONOMY::MODULE_NAME \"") + escape_bytes(t) + lit("\"") + nl(),
            None => Seq::empty(),
        },
        None => Seq::empty(),
    }
}

/// The canonical text of a module, given the float texts and the
/// function layouts.
pub open spec fn module_text(
    m: Module,
    floats: Seq<String>,
    layouts: Seq<(Seq<usize>, Seq<(u32, Seq<u8>)>, Seq<(u32, Seq<u8>)>)>,
) -> Seq<u8> {
    lit("::ASTRONOMY::MODULE_START\n") + module_name_text(m) + lit("::ASTRONOMY::MODULE_VERSION ")
        + dec_digits(m.version.major as nat) + nl() + constants_text(m, floats) + functions_text(
        m,
        layouts,
        m.functions@.len() as int,
    ) + lit("::ASTRONOMY::MODULE_END\n")
}

// ---------------------------------------------------------------------------
// Emission
// ---------------------------------------------------------------------------

/// Printed names: value names keyed by value index, block labels keyed by
/// block index. Later entries for a key override earlier ones.
struct Names {
    values: Vec<(u32, String)>,
    blocks: Vec<(u32, String)>,
}

spec fn pv(v: Seq<(u32, String)>) -> Seq<(u32, Seq<u8>)> {
    v.map_values(|p: (u32, String)| (p.0, encode_utf8(p.1@)))
}

fn find_name(pairs: &Vec<(u32, String)>, k: u32) -> (r: Option<&String>)
    ensures
        match lookup_name(pv(pairs@), k) {
            Some(t) => r matches Some(s) && encode_utf8(s@) == t,
            None => r is None,
        },
{
    let mut i: usize = pairs.len();
    proof {
        assert(pairs@.subrange(0, i as int) =~= pairs@);
    }
    while i > 0
        invariant
            i <= pairs@.len(),
            lookup_name(pv(pairs@), k) == lookup_name(pv(pairs@.subrange(0, i as int)), k),
        decreases i,
    {
        let ghost sub = pairs@.subrange(0, i as int);
        if pairs[i - 1].0 == k {
            proof {
                assert(pv(sub).last() == (k, encode_utf8(pairs@[i - 1].1@)));
            }
            return Some(&pairs[i - 1].1);
        }
        proof {
            assert(pv(sub).drop_last() =~= pv(pairs@.subrange(0, i - 1)));
        }
        i = i - 1;
    }
    proof {
        assert(pv(pairs@.subrange(0, 0)) =~= Seq::<(u32, Seq<u8>)>::empty());
    }
    None
}

fn push_shown(out: &mut Vec<u8>, pairs: &Vec<(u32, String)>, k: u32)
    requires
        valid_utf8(old(out)@),
    ensures
        final(out)@ == old(out)@ + shown(pv(pairs@), k),
        valid_utf8(final(out)@),
{
    match find_name(pairs, k) {
        Some(s) => push_str(out, s.as_str()),
        None => push_str(out, "?"),
    }
}

fn push_ty(out: &mut Vec<u8>, m: &Module, t: TypeId)
    requires
        valid_utf8(old(out)@),
    ensures
        final(out)@ == old(out)@ + tytext(*m, t),
        valid_utf8(final(out)@),
{
    push_type(out, &m.types, t, m.types.types.len() as u64);
}

fn push_operand(out: &mut Vec<u8>, m: &Module, f: &Function, vn: &Vec<(u32, String)>, v: ValueId)
    requires
        valid_utf8(old(out)@),
    ensures
        final(out)@ == old(out)@ + operand_text(*m, *f, pv(vn@), v),
        valid_utf8(final(out)@),
{
    let ghost start = out@;
    let ty = match f.value(v) {
        Some(d) => d.ty,
        None => TypeId::VOID(),
    };
    push_ty(out, m, ty);
    push_str(out, " %");
    push_shown(out, vn, v.0);
    proof {
        assert(out@ =~= start + operand_text(*m, *f, pv(vn@), v));
    }
}

fn push_operand_list(out: &mut Vec<u8>, m: &Module, f: &Function, vn: &Vec<(u32, String)>, vals: &Vec<ValueId>)
    requires
        valid_utf8(old(out)@),
    ensures
        final(out)@ == old(out)@ + operand_list(*m, *f, pv(vn@), vals@),
        valid_utf8(final(out)@),
{
    let ghost start = out@;
    let mut i: usize = 0;
    while i < vals.len()
        invariant
            i <= vals@.len(),
            valid_utf8(out@),
            out@ == start + operand_list(*m, *f, pv(vn@), vals@.subrange(0, i as int)),
        decreases vals@.len() - i,
    {
        let ghost sub = vals@.subrange(0, i + 1);
        if i > 0 {
            push_str(out, ", ");
        }
        push_operand(out, m, f, vn, vals[i]);
        proof {
            assert(sub.drop_last() =~= vals@.subrange(0, i as int));
            assert(out@ =~= start + operand_list(*m, *f, pv(vn@), sub));
        }
        i = i + 1;
    }
    proof {
        assert(vals@.subrange(0, vals@.len() as int) =~= vals@);
    }
}

/// Appends `%name = ` (when there is a result), `::ASTRONOMY::`, the
/// opcode and a space.
fn push_head(out: &mut Vec<u8>, vn: &Vec<(u32, String)>, result: Option<ValueId>, opcode: &str)
    requires
        valid_utf8(old(out)@),
    ensures
        final(out)@ == old(out)@ + result_prefix(pv(vn@), result) + lit("::ASTRONOMY::") + opcode.spec_bytes() + lit(" "),
        valid_utf8(final(out)@),
{
    let ghost start = out@;
    match result {
        Some(r) => {
            push_str(out, "%");
            push_shown(out, vn, r.0);
            push_str(out, " = ");
        },
        None => {},
    }
    push_str(out, "::ASTRONOMY::");
    push_str(out, opcode);
    push_str(out, " ");
    proof {
        assert(out@ =~= start + result_prefix(pv(vn@), result) + lit("::ASTRONOMY::") + opcode.spec_bytes() + lit(" "));
    }
}

fn push_result_type(out: &mut Vec<u8>, m: &Module, f: &Function, result: Option<ValueId>)
    requires
        valid_utf8(old(out)@),
    ensures
        final(out)@ == old(out)@ + result_type_text(*m, *f, result),
        valid_utf8(final(out)@),
{
    match result {
        Some(r) => match f.value(r) {
            Some(d) => push_ty(out, m, d.ty),
            None => push_str(out, "void"),
        },
        None => push_str(out, "void"),
    }
}

/// Appends `head t a` where `t` is the result type, for a binary form
/// (the caller adds `, rhs`).
fn push_binary(out: &mut Vec<u8>, m: &Module, f: &Function, vn: &Vec<(u32, String)>, result: Option<ValueId>, opcode: &str, lhs: ValueId, rhs: ValueId)
    requires
        valid_utf8(old(out)@),
    ensures
        final(out)@ == old(out)@ + (op_text(result_prefix(pv(vn@), result), opcode.spec_bytes(), result_type_text(*m, *f, result), operand_text(*m, *f, pv(vn@), lhs)) + lit(", ") + operand_text(*m, *f, pv(vn@), rhs) + nl()),
        valid_utf8(final(out)@),
{
    let ghost start = out@;
    push_head(out, vn, result, opcode);
    push_result_type(out, m, f, result);
    push_str(out, " ");
    push_operand(out, m, f, vn, lhs);
    push_str(out, ", ");
    push_operand(out, m, f, vn, rhs);
    push_ascii(out, 10);
    proof {
        assert(out@ =~= start + (op_text(result_prefix(pv(vn@), result), opcode.spec_bytes(), result_type_text(*m, *f, result), operand_text(*m, *f, pv(vn@), lhs)) + lit(", ") + operand_text(*m, *f, pv(vn@), rhs) + nl()));
    }
}

/// Appends `head T a` for a form whose type slot is the type `t`.
fn push_typed_unary(out: &mut Vec<u8>, m: &Module, f: &Function, vn: &Vec<(u32, String)>, result: Option<ValueId>, opcode: &str, t: TypeId, a: ValueId)
    requires
        valid_utf8(old(out)@),
    ensures
        final(out)@ == old(out)@ + (op_text(result_prefix(pv(vn@), result), opcode.spec_bytes(), tytext(*m, t), operand_text(*m, *f, pv(vn@), a)) + nl()),
        valid_utf8(final(out)@),
{
    let ghost start = out@;
    push_head(out, vn, result, opcode);
    push_ty(out, m, t);
    push_str(out, " ");
    push_operand(out, m, f, vn, a);
    push_ascii(out, 10);
    proof {
        assert(out@ =~= start + (op_text(result_prefix(pv(vn@), result), opcode.spec_bytes(), tytext(*m, t), operand_text(*m, *f, pv(vn@), a)) + nl()));
    }
}

fn binary_parts_of(k: &InstructionKind) -> (r: Option<(&'static str, ValueId, ValueId)>)
    ensures
        r is Some <==> binary_parts(*k) is Some,
        r matches Some(x) ==> (x.0.spec_bytes(), x.1, x.2) == binary_parts(*k)->0,
{
    match k {
        InstructionKind::Add { lhs, rhs } => Some(("ADD", *lhs, *rhs)),
        InstructionKind::Sub { lhs, rhs } => Some(("SUB", *lhs, *rhs)),
        InstructionKind::Mul { lhs, rhs } => Some(("MUL", *lhs, *rhs)),
        InstructionKind::Div { lhs, rhs } => Some(("DIV", *lhs, *rhs)),
        InstructionKind::Rem { lhs, rhs } => Some(("REM", *lhs, *rhs)),
        InstructionKind::And { lhs, rhs } => Some(("AND", *lhs, *rhs)),
        InstructionKind::Or { lhs, rhs } => Some(("OR", *lhs, *rhs)),
        InstructionKind::Xor { lhs, rhs } => Some(("XOR", *lhs, *rhs)),
        InstructionKind::Shl { lhs, rhs } => Some(("SHL", *lhs, *rhs)),
        InstructionKind::Shr { lhs, rhs } => Some(("SHR", *lhs, *rhs)),
        InstructionKind::Eq { lhs, rhs } => Some(("EQ", *lhs, *rhs)),
        InstructionKind::Ne { lhs, rhs } => Some(("NE", *lhs, *rhs)),
        InstructionKind::Lt { lhs, rhs } => Some(("LT", *lhs, *rhs)),
        InstructionKind::Le { lhs, rhs } => Some(("LE", *lhs, *rhs)),
        InstructionKind::Gt { lhs, rhs } => Some(("GT", *lhs, *rhs)),
        InstructionKind::Ge { lhs, rhs } => Some(("GE", *lhs, *rhs)),
        InstructionKind::PtrOffset { pointer, offset } => Some(("PTR_OFFSET", *pointer, *offset)),
        _ => None,
    }
}

fn typed_unary_parts_of(k: &InstructionKind) -> (r: Option<(&'static str, TypeId, ValueId)>)
    ensures
        r is Some <==> typed_unary_parts(*k) is Some,
        r matches Some(x) ==> (x.0.spec_bytes(), x.1, x.2) == typed_unary_parts(*k)->0,
{
    match k {
        InstructionKind::Load { ty, pointer } => Some(("LOAD", *ty, *pointer)),
        InstructionKind::Ext { to, value } => Some(("EXT", *to, *value)),
        InstructionKind::Trunc { to, value } => Some(("TRUNC", *to, *value)),
        InstructionKind::IntToFloat { to, value } => Some(("INT_TO_FLOAT", *to, *value)),
        InstructionKind::FloatToInt { to, value } => Some(("FLOAT_TO_INT", *to, *value)),
        InstructionKind::PtrCast { to, pointer } => Some(("PTR_CAST", *to, *pointer)),
        _ => None,
    }
}

fn push_named_prefix(out: &mut Vec<u8>, vn: &Vec<(u32, String)>, result: Option<ValueId>)
    requires
        valid_utf8(old(out)@),
    ensures
        final(out)@ == old(out)@ + result_prefix(pv(vn@), result),
        valid_utf8(final(out)@),
{
    let ghost start = out@;
    match result {
        Some(r) => {
            push_str(out, "%");
            push_shown(out, vn, r.0);
            push_str(out, " = ");
        },
        None => {},
    }
    proof {
        assert(out@ =~= start + result_prefix(pv(vn@), result));
    }
}

#[verifier::rlimit(30)]
#[verifier::spinoff_prover]
fn push_const_inst(out: &mut Vec<u8>, m: &Module, f: &Function, vn: &Vec<(u32, String)>, inst: &Instruction)
    requires
        valid_utf8(old(out)@),
        inst.kind is Const,
    ensures
        final(out)@ == old(out)@ + inst_line(*m, *f, pv(vn@), *inst),
        valid_utf8(final(out)@),
{
    let ghost start = out@;
    let ghost names = pv(vn@);
    let result = inst.result;
    match &inst.kind {
        InstructionKind::Const(c) => {
            push_named_prefix(out, vn, result);
            push_str(out, "::ASTRONOMY::CONST ");
            push_result_type(out, m, f, result);
            push_str(out, " c");
            push_dec(out, c.0 as u128);
            push_ascii(out, 10);
            proof {
                assert(out@ =~= start + inst_line(*m, *f, names, *inst));
            }
        },
        _ => {},
    }
}

#[verifier::rlimit(30)]
#[verifier::spinoff_prover]
fn push_alloca_inst(out: &mut Vec<u8>, m: &Module, f: &Function, vn: &Vec<(u32, String)>, inst: &Instruction)
    requires
        valid_utf8(old(out)@),
        inst.kind is Alloca,
    ensures
        final(out)@ == old(out)@ + inst_line(*m, *f, pv(vn@), *inst),
        valid_utf8(final(out)@),
{
    let ghost start = out@;
    let ghost names = pv(vn@);
    let result = inst.result;
    match &inst.kind {
        InstructionKind::Alloca { pointee } => {
            push_head(out, vn, result, "ALLOCA");
            push_result_type(out, m, f, result);
            push_str(out, " ");
            push_ty(out, m, *pointee);
            push_ascii(out, 10);
            proof {
                assert(out@ =~= start + inst_line(*m, *f, names, *inst));
            }
        },
        _ => {},
    }
}

#[verifier::rlimit(30)]
#[verifier::spinoff_prover]
fn push_store_inst(out: &mut Vec<u8>, m: &Module, f: &Function, vn: &Vec<(u32, String)>, inst: &Instruction)
    requires
        valid_utf8(old(out)@),
        inst.kind is Store,
    ensures
        final(out)@ == old(out)@ + inst_line(*m, *f, pv(vn@), *inst),
        valid_utf8(final(out)@),
{
    let ghost start = out@;
    let ghost names = pv(vn@);
    let result = inst.result;
    match &inst.kind {
        InstructionKind::Store { pointer, value } => {
            push_str(out, "::ASTRONOMY::STORE ");
            push_operand(out, m, f, vn, *pointer);
            push_str(out, ", ");
            push_operand(out, m, f, vn, *value);
            push_ascii(out, 10);
            proof {
                assert(out@ =~= start + inst_line(*m, *f, names, *inst));
            }
        },
        _ => {},
    }
}

#[verifier::rlimit(30)]
#[verifier::spinoff_prover]
fn push_call_inst(out: &mut Vec<u8>, m: &Module, f: &Function, vn: &Vec<(u32, String)>, inst: &Instruction)
    requires
        valid_utf8(old(out)@),
        inst.kind is Call,
    ensures
        final(out)@ == old(out)@ + inst_line(*m, *f, pv(vn@), *inst),
        valid_utf8(final(out)@),
{
    let ghost start = out@;
    let ghost names = pv(vn@);
    let result = inst.result;
    match &inst.kind {
        InstructionKind::Call { callee, args } => {
            push_named_prefix(out, vn, result);
            push_str(out, "::ASTRONOMY::CALL ");
            push_result_type(out, m, f, result);
            push_str(out, " @");
            push_str(out, m.function_name(*callee));
            push_str(out, "(");
            push_operand_list(out, m, f, vn, args);
            push_str(out, ")");
            push_ascii(out, 10);
            proof {
                assert(out@ =~= start + inst_line(*m, *f, names, *inst));
            }
        },
        _ => {},
    }
}

#[verifier::rlimit(30)]
#[verifier::spinoff_prover]
fn push_construct_inst(out: &mut Vec<u8>, m: &Module, f: &Function, vn: &Vec<(u32, String)>, inst: &Instruction)
    requires
        valid_utf8(old(out)@),
        inst.kind is Construct,
    ensures
        final(out)@ == old(out)@ + inst_line(*m, *f, pv(vn@), *inst),
        valid_utf8(final(out)@),
{
    let ghost start = out@;
    let ghost names = pv(vn@);
    let result = inst.result;
    match &inst.kind {
        InstructionKind::Construct { ty, fields } => {
            push_named_prefix(out, vn, result);
            push_str(out, "::ASTRONOMY::CONSTRUCT ");
            push_ty(out, m, *ty);
            push_str(out, " (");
            push_operand_list(out, m, f, vn, fields);
            push_str(out, ")");
            push_ascii(out, 10);
            proof {
                assert(out@ =~= start + inst_line(*m, *f, names, *inst));
            }
        },
        _ => {},
    }
}

#[verifier::rlimit(30)]
#[verifier::spinoff_prover]
fn push_extract_inst(out: &mut Vec<u8>, m: &Module, f: &Function, vn: &Vec<(u32, String)>, inst: &Instruction)
    requires
        valid_utf8(old(out)@),
        inst.kind is Extract,
    ensures
        final(out)@ == old(out)@ + inst_line(*m, *f, pv(vn@), *inst),
        valid_utf8(final(out)@),
{
    let ghost start = out@;
    let ghost names = pv(vn@);
    let result = inst.result;
    match &inst.kind {
        InstructionKind::Extract { aggregate, index } => {
            push_head(out, vn, result, "EXTRACT");
            push_result_type(out, m, f, result);
            push_str(out, " ");
            push_operand(out, m, f, vn, *aggregate);
            push_str(out, ", ");
            push_dec(out, *index as u128);
            push_ascii(out, 10);
            proof {
                assert(out@ =~= start + inst_line(*m, *f, names, *inst));
            }
        },
        _ => {},
    }
}

#[verifier::rlimit(30)]
#[verifier::spinoff_prover]
fn push_insert_inst(out: &mut Vec<u8>, m: &Module, f: &Function, vn: &Vec<(u32, String)>, inst: &Instruction)
    requires
        valid_utf8(old(out)@),
        inst.kind is Insert,
    ensures
        final(out)@ == old(out)@ + inst_line(*m, *f, pv(vn@), *inst),
        valid_utf8(final(out)@),
{
    let ghost start = out@;
    let ghost names = pv(vn@);
    let result = inst.result;
    match &inst.kind {
        InstructionKind::Insert { aggregate, index, value } => {
            push_head(out, vn, result, "INSERT");
            push_result_type(out, m, f, result);
            push_str(out, " ");
            push_operand(out, m, f, vn, *aggregate);
            push_str(out, ", ");
            push_dec(out, *index as u128);
            push_str(out, ", ");
            push_operand(out, m, f, vn, *value);
            push_ascii(out, 10);
            proof {
                assert(out@ =~= start + inst_line(*m, *f, names, *inst));
            }
        },
        _ => {},
    }
}

/// Lines of the forms that are neither binary nor typed unary.
#[verifier::rlimit(30)]
#[verifier::spinoff_prover]
fn push_other_inst(out: &mut Vec<u8>, m: &Module, f: &Function, vn: &Vec<(u32, String)>, inst: &Instruction)
    requires
        valid_utf8(old(out)@),
        binary_parts(inst.kind) is None,
        typed_unary_parts(inst.kind) is None,
    ensures
        final(out)@ == old(out)@ + inst_line(*m, *f, pv(vn@), *inst),
        valid_utf8(final(out)@),
{
    match &inst.kind {
        InstructionKind::Const(_) => push_const_inst(out, m, f, vn, inst),
        InstructionKind::Alloca { .. } => push_alloca_inst(out, m, f, vn, inst),
        InstructionKind::Store { .. } => push_store_inst(out, m, f, vn, inst),
        InstructionKind::Call { .. } => push_call_inst(out, m, f, vn, inst),
        InstructionKind::Construct { .. } => push_construct_inst(out, m, f, vn, inst),
        InstructionKind::Extract { .. } => push_extract_inst(out, m, f, vn, inst),
        InstructionKind::Insert { .. } => push_insert_inst(out, m, f, vn, inst),
        _ => {
            proof {
                assert(false);
            }
        },
    }
}

#[verifier::rlimit(30)]
#[verifier::spinoff_prover]
fn push_inst(out: &mut Vec<u8>, m: &Module, f: &Function, vn: &Vec<(u32, String)>, inst: &Instruction)
    requires
        valid_utf8(old(out)@),
    ensures
        final(out)@ == old(out)@ + inst_line(*m, *f, pv(vn@), *inst),
        valid_utf8(final(out)@),
{
    match binary_parts_of(&inst.kind) {
        Some((opcode, lhs, rhs)) => {
            push_binary(out, m, f, vn, inst.result, opcode, lhs, rhs);
        },
        None => match typed_unary_parts_of(&inst.kind) {
            Some((opcode, t, a)) => {
                push_typed_unary(out, m, f, vn, inst.result, opcode, t, a);
            },
            None => {
                push_other_inst(out, m, f, vn, inst);
            },
        },
    }
}

fn push_target(out: &mut Vec<u8>, m: &Module, f: &Function, names: &Names, b: BlockId, args: &Vec<ValueId>)
    requires
        valid_utf8(old(out)@),
    ensures
        final(out)@ == old(out)@ + target_text(*m, *f, pv(names.values@), pv(names.blocks@), b, args@),
        valid_utf8(final(out)@),
{
    let ghost start = out@;
    push_shown(out, &names.blocks, b.0);
    if args.len() > 0 {
        push_str(out, "(");
        push_operand_list(out, m, f, &names.values, args);
        push_str(out, ")");
    }
    proof {
        assert(out@ =~= start + target_text(*m, *f, pv(names.values@), pv(names.blocks@), b, args@));
    }
}

#[verifier::rlimit(30)]
#[verifier::spinoff_prover]
fn push_term(out: &mut Vec<u8>, m: &Module, f: &Function, names: &Names, t: &Terminator)
    requires
        valid_utf8(old(out)@),
    ensures
        final(out)@ == old(out)@ + term_line(*m, *f, pv(names.values@), pv(names.blocks@), *t),
        valid_utf8(final(out)@),
{
    let ghost start = out@;
    let ghost vn = pv(names.values@);
    let ghost bn = pv(names.blocks@);
    match t {
        Terminator::Jump { target, args } => {
            push_str(out, "::ASTRONOMY::JUMP ");
            push_target(out, m, f, names, *target, args);
        },
        Terminator::Branch { condition, then_block, then_args, else_block, else_args } => {
            push_str(out, "::ASTRONOMY::BRANCH ");
            push_operand(out, m, f, &names.values, *condition);
            push_str(out, ", ");
            push_target(out, m, f, names, *then_block, then_args);
            push_str(out, ", ");
            push_target(out, m, f, names, *else_block, else_args);
        },
        Terminator::Return { value } => match value {
            Some(v) => {
                push_str(out, "::ASTRONOMY::RETURN ");
                push_operand(out, m, f, &names.values, *v);
            },
            None => {
                push_str(out, "::ASTRONOMY::RETURN void");
            },
        },
        Terminator::Unreachable => {
            push_str(out, "::ASTRONOMY::UNREACHABLE");
        },
    }
    push_ascii(out, 10);
    proof {
        assert(out@ =~= start + term_line(*m, *f, vn, bn, *t));
    }
}

fn push_bparam_list(out: &mut Vec<u8>, m: &Module, vn: &Vec<(u32, String)>, ps: &Vec<BlockParam>)
    requires
        valid_utf8(old(out)@),
    ensures
        final(out)@ == old(out)@ + bparam_list(*m, pv(vn@), ps@),
        valid_utf8(final(out)@),
{
    let ghost start = out@;
    let mut i: usize = 0;
    while i < ps.len()
        invariant
            i <= ps@.len(),
            valid_utf8(out@),
            out@ == start + bparam_list(*m, pv(vn@), ps@.subrange(0, i as int)),
        decreases ps@.len() - i,
    {
        let ghost sub = ps@.subrange(0, i + 1);
        if i > 0 {
            push_str(out, ", ");
        }
        push_ty(out, m, ps[i].ty);
        push_str(out, " %");
        push_shown(out, vn, ps[i].value.0);
        proof {
            assert(sub.drop_last() =~= ps@.subrange(0, i as int));
            assert(out@ =~= start + bparam_list(*m, pv(vn@), sub));
        }
        i = i + 1;
    }
    proof {
        assert(ps@.subrange(0, ps@.len() as int) =~= ps@);
    }
}

fn push_block_header(out: &mut Vec<u8>, m: &Module, f: &Function, names: &Names, b: usize)
    requires
        valid_utf8(old(out)@),
        b < f.blocks@.len(),
    ensures
        final(out)@ == old(out)@ + block_header_text(*m, *f, pv(names.values@), pv(names.blocks@), b),
        valid_utf8(final(out)@),
{
    let ghost start = out@;
    let ghost vn = pv(names.values@);
    let ghost bn = pv(names.blocks@);
    let block = &f.blocks[b];
    push_str(out, "::ASTRONOMY::BLOCK_START ");
    let ghost acc = lit("::ASTRONOMY::BLOCK_START ");
    push_shown(out, &names.blocks, #[verifier::truncate] (b as u32));
    proof {
        lemma_concat_associative(start, acc, shown(bn, b as u32));
        acc = acc + shown(bn, b as u32);
    }
    let ghost params = if block.params@.len() == 0 {
        Seq::empty()
    } else {
        lit("(") + bparam_list(*m, vn, block.params@) + lit(")")
    };
    let ghost mid = out@;
    if block.params.len() > 0 {
        push_str(out, "(");
        push_bparam_list(out, m, &names.values, &block.params);
        push_str(out, ")");
    }
    proof {
        assert(out@ =~= mid + params);
        lemma_concat_associative(start, acc, params);
        acc = acc + params;
    }
    push_ascii(out, 10);
    proof {
        lemma_concat_associative(start, acc, nl());
        assert(out@ =~= start + (acc + nl()));
    }
}

fn push_block(out: &mut Vec<u8>, m: &Module, f: &Function, names: &Names, b: usize)
    requires
        valid_utf8(old(out)@),
        b < f.blocks@.len(),
    ensures
        final(out)@ == old(out)@ + block_text(*m, *f, pv(names.values@), pv(names.blocks@), b),
        valid_utf8(final(out)@),
{
    let ghost start = out@;
    let ghost vn = pv(names.values@);
    let ghost bn = pv(names.blocks@);
    let block = &f.blocks[b];
    push_block_header(out, m, f, names, b);
    let ghost acc = block_header_text(*m, *f, vn, bn, b);
    let ghost head = out@;
    let mut k: usize = 0;
    while k < block.instructions.len()
        invariant
            k <= block.instructions@.len(),
            valid_utf8(out@),
            vn == pv(names.values@),
            out@ == head + inst_lines(*m, *f, vn, block.instructions@.subrange(0, k as int)),
        decreases block.instructions@.len() - k,
    {
        push_inst(out, m, f, &names.values, &block.instructions[k]);
        proof {
            let sub = block.instructions@.subrange(0, k + 1);
            assert(sub.drop_last() =~= block.instructions@.subrange(0, k as int));
            lemma_concat_associative(head, inst_lines(*m, *f, vn, sub.drop_last()), inst_line(*m, *f, vn, sub.last()));
        }
        k = k + 1;
    }
    proof {
        assert(block.instructions@.subrange(0, block.instructions@.len() as int) =~= block.instructions@);
        let il = inst_lines(*m, *f, vn, block.instructions@);
        lemma_concat_associative(start, acc, il);
        acc = acc + il;
    }
    let ghost term = opt_term_text(*m, *f, vn, bn, f.blocks@[b as int].terminator);
    let ghost mid = out@;
    match &block.terminator {
        Some(t) => push_term(out, m, f, names, t),
        None => {},
    }
    proof {
        assert(out@ =~= mid + term);
        lemma_concat_associative(start, acc, term);
        acc = acc + term;
    }
    push_str(out, "::ASTRONOMY::BLOCK_END\n");
    proof {
        lemma_concat_associative(start, acc, lit("::ASTRONOMY::BLOCK_END\n"));
    }
}

fn push_fparam_list(out: &mut Vec<u8>, m: &Module, f: &Function, vn: &Vec<(u32, String)>)
    requires
        valid_utf8(old(out)@),
    ensures
        final(out)@ == old(out)@ + fparam_list(*m, *f, pv(vn@), f.params@),
        valid_utf8(final(out)@),
{
    let ghost start = out@;
    let ps = &f.params;
    let mut i: usize = 0;
    while i < ps.len()
        invariant
            ps == &f.params,
            i <= ps@.len(),
            valid_utf8(out@),
            out@ == start + fparam_list(*m, *f, pv(vn@), ps@.subrange(0, i as int)),
        decreases ps@.len() - i,
    {
        let ghost sub = ps@.subrange(0, i + 1);
        let ghost before = out@;
        if i > 0 {
            push_str(out, ", ");
        }
        let ghost piece_start = out@;
        let p = ps[i];
        push_ty(out, m, p.ty);
        let own: Option<&str> = match f.value(p.value) {
            Some(d) => match d.name {
                Some(s) => m.symbol_name(s),
                None => None,
            },
            None => None,
        };
        match own {
            Some(n) => {
                push_str(out, " %");
                push_str(out, n);
            },
            None => {
                if f.blocks.len() > 0 {
                    push_str(out, " %");
                    push_shown(out, vn, p.value.0);
                }
            },
        }
        proof {
            assert(out@ =~= piece_start + fparam_text(*m, *f, pv(vn@), p));
            assert(sub.drop_last() =~= ps@.subrange(0, i as int));
            assert(out@ =~= start + fparam_list(*m, *f, pv(vn@), sub));
        }
        i = i + 1;
    }
    proof {
        assert(ps@.subrange(0, ps@.len() as int) =~= ps@);
    }
}

fn push_sym_or_invalid(out: &mut Vec<u8>, m: &Module, sym: SymbolId)
    requires
        valid_utf8(old(out)@),
    ensures
        final(out)@ == old(out)@ + sym_or(*m, sym, lit("<invalid>")),
        valid_utf8(final(out)@),
{
    match m.symbol_name(sym) {
        Some(n) => push_str(out, n),
        None => push_str(out, "<invalid>"),
    }
}

fn push_variadic(out: &mut Vec<u8>, f: &Function)
    requires
        valid_utf8(old(out)@),
    ensures
        final(out)@ == old(out)@ + variadic_text(*f),
        valid_utf8(final(out)@),
{
    let ghost start = out@;
    if f.variadic {
        if f.params.len() > 0 {
            push_str(out, ", ");
        }
        push_str(out, "...");
    }
    proof {
        assert(out@ =~= start + variadic_text(*f));
    }
}

fn push_linkage(out: &mut Vec<u8>, l: Linkage)
    requires
        valid_utf8(old(out)@),
    ensures
        final(out)@ == old(out)@ + linkage_text(l),
        valid_utf8(final(out)@),
{
    push_str(out, l.keyword());
}

fn push_abi(out: &mut Vec<u8>, m: &Module, abi: Abi)
    requires
        valid_utf8(old(out)@),
    ensures
        final(out)@ == old(out)@ + abi_text(*m, abi),
        valid_utf8(final(out)@),
{
    let ghost start = out@;
    match abi {
        Abi::Custom(sym) => {
            push_str(out, "custom ");
            push_sym_or_invalid(out, m, sym);
            proof {
                assert(out@ =~= start + abi_text(*m, abi));
            }
        },
        _ => push_str(out, abi.keyword()),
    }
}

fn push_header(out: &mut Vec<u8>, m: &Module, f: &Function, vn: &Vec<(u32, String)>)
    requires
        valid_utf8(old(out)@),
    ensures
        final(out)@ == old(out)@ + function_header(*m, *f, pv(vn@)),
        valid_utf8(final(out)@),
{
    let ghost start = out@;
    let ghost names = pv(vn@);
    push_str(out, "::ASTRONOMY::FUNCTION_START ");
    let ghost acc = lit("::ASTRONOMY::FUNCTION_START ");
    push_sym_or_invalid(out, m, f.symbol);
    proof {
        lemma_concat_associative(start, acc, sym_or(*m, f.symbol, lit("<invalid>")));
        acc = acc + sym_or(*m, f.symbol, lit("<invalid>"));
    }
    push_str(out, " fn(");
    proof {
        lemma_concat_associative(start, acc, lit(" fn("));
        acc = acc + lit(" fn(");
    }
    push_fparam_list(out, m, f, vn);
    proof {
        lemma_concat_associative(start, acc, fparam_list(*m, *f, names, f.params@));
        acc = acc + fparam_list(*m, *f, names, f.params@);
    }
    push_variadic(out, f);
    proof {
        lemma_concat_associative(start, acc, variadic_text(*f));
        acc = acc + variadic_text(*f);
    }
    push_str(out, ") -> ");
    proof {
        lemma_concat_associative(start, acc, lit(") -> "));
        acc = acc + lit(") -> ");
    }
    push_ty(out, m, f.result);
    proof {
        lemma_concat_associative(start, acc, tytext(*m, f.result));
        acc = acc + tytext(*m, f.result);
    }
    push_str(out, " linkage=");
    proof {
        lemma_concat_associative(start, acc, lit(" linkage="));
        acc = acc + lit(" linkage=");
    }
    push_linkage(out, f.linkage);
    proof {
        lemma_concat_associative(start, acc, linkage_text(f.linkage));
        acc = acc + linkage_text(f.linkage);
    }
    push_str(out, " abi=");
    proof {
        lemma_concat_associative(start, acc, lit(" abi="));
        acc = acc + lit(" abi=");
    }
    push_abi(out, m, f.abi);
    proof {
        lemma_concat_associative(start, acc, abi_text(*m, f.abi));
        acc = acc + abi_text(*m, f.abi);
    }
    push_ascii(out, 10);
    proof {
        lemma_concat_associative(start, acc, nl());
        acc = acc + nl();
        assert(acc == function_header(*m, *f, names));
    }
}

// ---------------------------------------------------------------------------
// Naming and block order
// ---------------------------------------------------------------------------

/// Decimal digits are digits.
proof fn lemma_dec_digits_all_digits(n: nat)
    ensures
        spec_all_digits(dec_digits(n)),
    decreases n,
{
    if n >= 10 {
        lemma_dec_digits_all_digits(n / 10);
        let d = dec_digits(n / 10);
        let e = d.push(digit_byte_of(n % 10));
        assert forall|i: int| 0 <= i < e.len() implies #[trigger] is_digit(e[i]) by {
            if i < d.len() {
                assert(is_digit(d[i]));
            }
        }
    }
}

spec fn digit_byte_of(d: nat) -> u8 {
    (48 + d) as u8
}

proof fn lemma_has_name_push(pairs: Seq<(u32, Seq<u8>)>, p: (u32, Seq<u8>), k: u32)
    ensures
        has_name(pairs.push(p), k) == (p.0 == k || has_name(pairs, k)),
{
    assert(pairs.push(p).drop_last() =~= pairs);
}

fn count_values_named(f: &Function, s: SymbolId) -> (r: usize)
    ensures
        r == count_value_name(f.values@, s),
{
    let mut c: usize = 0;
    let mut i: usize = 0;
    while i < f.values.len()
        invariant
            i <= f.values@.len(),
            c <= i,
            c == count_value_name(f.values@.subrange(0, i as int), s),
        decreases f.values@.len() - i,
    {
        proof {
            assert(f.values@.subrange(0, i + 1).drop_last() =~= f.values@.subrange(0, i as int));
        }
        if f.values[i].name == Some(s) {
            c = c + 1;
        }
        i = i + 1;
    }
    proof {
        assert(f.values@.subrange(0, f.values@.len() as int) =~= f.values@);
    }
    c
}

fn count_blocks_named(f: &Function, s: SymbolId) -> (r: usize)
    ensures
        r == count_block_name(f.blocks@, s),
{
    let mut c: usize = 0;
    let mut i: usize = 0;
    while i < f.blocks.len()
        invariant
            i <= f.blocks@.len(),
            c <= i,
            c == count_block_name(f.blocks@.subrange(0, i as int), s),
        decreases f.blocks@.len() - i,
    {
        proof {
            assert(f.blocks@.subrange(0, i + 1).drop_last() =~= f.blocks@.subrange(0, i as int));
        }
        if f.blocks[i].name == Some(s) {
            c = c + 1;
        }
        i = i + 1;
    }
    proof {
        assert(f.blocks@.subrange(0, f.blocks@.len() as int) =~= f.blocks@);
    }
    c
}

/// The printed name of value `v`: its own debug name when no other value
/// carries it, the next number otherwise.
fn value_label(m: &Module, f: &Function, v: ValueId, counter: &mut u64) -> (r: String)
    ensures
        match own_value_name(*m, *f, v.0) {
            Some(t) => encode_utf8(r@) == t,
            None => spec_all_digits(encode_utf8(r@)),
        },
        ((encode_utf8(r@), *final(counter) as nat) == match own_value_name(*m, *f, v.0) {
            Some(t) => (t, *old(counter) as nat),
            None => (dec_digits(*old(counter) as nat), next_count(*old(counter) as nat)),
        }),
{
    let own: Option<SymbolId> = if v.index() < f.values.len() {
        match f.values[v.index()].name {
            Some(n) => if count_values_named(f, n) == 1 {
                Some(n)
            } else {
                None
            },
            None => None,
        }
    } else {
        None
    };
    match own {
        Some(n) => match m.symbol_name(n) {
            Some(s) => s.to_owned(),
            None => "?".to_owned(),
        },
        None => {
            let s = crate::textbuf::dec_string(*counter as u128);
            proof {
                lemma_dec_digits_all_digits(*counter as nat);
            }
            if *counter < u64::MAX {
                *counter = *counter + 1;
            }
            s
        },
    }
}

/// The printed label of block `b`: its own debug name when it is unique,
/// exists and is not reserved, `bb` and the next number otherwise.
fn block_label(m: &Module, f: &Function, b: usize, counter: &mut u64) -> (r: String)
    requires
        b < f.blocks@.len(),
    ensures
        block_label_ok(*m, *f, b as int, encode_utf8(r@)),
        ((encode_utf8(r@), *final(counter) as nat) == match own_block_label(*m, *f, b as int) {
            Some(t) => (t, *old(counter) as nat),
            None => (lit("bb") + dec_digits(*old(counter) as nat), next_count(*old(counter) as nat)),
        }),
{
    let own: Option<&str> = match f.blocks[b].name {
        Some(n) => if count_blocks_named(f, n) == 1 {
            m.symbol_name(n)
        } else {
            None
        },
        None => None,
    };
    match own {
        Some(s) => {
            if !crate::builder::is_reserved_block_name(s) {
                return s.to_owned();
            }
        },
        None => {},
    }
    let mut bytes: Vec<u8> = Vec::new();
    proof {
        lemma_ascii_utf8(Seq::<u8>::empty());
    }
    push_str(&mut bytes, "bb");
    push_dec(&mut bytes, *counter as u128);
    proof {
        lemma_dec_digits_all_digits(*counter as nat);
        assert(bytes@ =~= lit("bb") + dec_digits(*counter as nat));
    }
    if *counter < u64::MAX {
        *counter = *counter + 1;
    }
    into_string(bytes)
}

fn push_value_name(m: &Module, f: &Function, values: &mut Vec<(u32, String)>, v: ValueId, counter: &mut u64)
    requires
        value_names_ok(*m, *f, pv(old(values)@)),
    ensures
        value_names_ok(*m, *f, pv(final(values)@)),
        has_name(pv(final(values)@), v.0),
        forall|k: u32| has_name(pv(old(values)@), k) ==> #[trigger] has_name(pv(final(values)@), k),
        (pv(final(values)@), *final(counter) as nat) == name_step(*m, *f, (pv(old(values)@), *old(counter) as nat), v.0),
{
    let name = value_label(m, f, v, counter);
    let ghost old_pv = pv(values@);
    let ghost np = (v.0, encode_utf8(name@));
    values.push((v.0, name));
    proof {
        assert(pv(values@) =~= old_pv.push(np));
        assert forall|k: u32| has_name(old_pv, k) implies #[trigger] has_name(pv(values@), k) by {
            lemma_has_name_push(old_pv, np, k);
        }
        lemma_has_name_push(old_pv, np, v.0);
        let nv = pv(values@);
        assert forall|i: int| 0 <= i < nv.len() implies match own_value_name(*m, *f, #[trigger] nv[i].0) {
            Some(t) => nv[i].1 == t,
            None => spec_all_digits(nv[i].1),
        } by {
            if i < old_pv.len() {
                assert(nv[i] == old_pv[i]);
            }
        }
    }
}

/// Names the parameters and results of block `b`.
fn name_block_values(m: &Module, f: &Function, b: usize, values: &mut Vec<(u32, String)>, counter: &mut u64)
    requires
        b < f.blocks@.len(),
        value_names_ok(*m, *f, pv(old(values)@)),
    ensures
        value_names_ok(*m, *f, pv(final(values)@)),
        forall|k: u32| has_name(pv(old(values)@), k) ==> #[trigger] has_name(pv(final(values)@), k),
        forall|k: int| 0 <= k < f.blocks@[b as int].params@.len() ==> has_name(
            pv(final(values)@),
            #[trigger] f.blocks@[b as int].params@[k].value.0,
        ),
        forall|k: int|
            0 <= k < f.blocks@[b as int].instructions@.len() && f.blocks@[b as int].instructions@[k].result is Some
                ==> has_name(pv(final(values)@), result_key(#[trigger] f.blocks@[b as int].instructions@[k])),
        (pv(final(values)@), *final(counter) as nat) == names_after(
            *m,
            *f,
            (pv(old(values)@), *old(counter) as nat),
            block_defs(f.blocks@[b as int]),
        ),
{
    let ghost start = pv(values@);
    let ghost state0 = (pv(values@), *counter as nat);
    let block = &f.blocks[b];
    let ghost pids = block.params@.map_values(|p: BlockParam| p.value.0);
    let mut k: usize = 0;
    while k < block.params.len()
        invariant
            block == &f.blocks@[b as int],
            pids == block.params@.map_values(|p: BlockParam| p.value.0),
            (pv(values@), *counter as nat) == names_after(*m, *f, state0, pids.subrange(0, k as int)),
            k <= block.params@.len(),
            value_names_ok(*m, *f, pv(values@)),
            forall|x: u32| has_name(start, x) ==> #[trigger] has_name(pv(values@), x),
            forall|j: int| 0 <= j < k ==> has_name(pv(values@), #[trigger] block.params@[j].value.0),
        decreases block.params@.len() - k,
    {
        let ghost before = (pv(values@), *counter as nat);
        push_value_name(m, f, values, block.params[k].value, counter);
        proof {
            let sub = pids.subrange(0, k + 1);
            assert(sub.drop_last() =~= pids.subrange(0, k as int));
            assert(sub.last() == block.params@[k as int].value.0);
        }
        k = k + 1;
    }
    proof {
        assert(pids.subrange(0, pids.len() as int) =~= pids);
        assert(block.instructions@.subrange(0, 0) =~= Seq::<Instruction>::empty());
        assert(pids + inst_defs(block.instructions@.subrange(0, 0)) =~= pids);
    }
    let mut k: usize = 0;
    while k < block.instructions.len()
        invariant
            block == &f.blocks@[b as int],
            k <= block.instructions@.len(),
            value_names_ok(*m, *f, pv(values@)),
            forall|x: u32| has_name(start, x) ==> #[trigger] has_name(pv(values@), x),
            forall|j: int| 0 <= j < block.params@.len() ==> has_name(pv(values@), #[trigger] block.params@[j].value.0),
            forall|j: int|
                0 <= j < k && block.instructions@[j].result is Some ==> has_name(pv(values@), result_key(#[trigger] block.instructions@[j])),
            pids == block.params@.map_values(|p: BlockParam| p.value.0),
            (pv(values@), *counter as nat) == names_after(
                *m,
                *f,
                state0,
                pids + inst_defs(block.instructions@.subrange(0, k as int)),
            ),
        decreases block.instructions@.len() - k,
    {
        let ghost before = (pv(values@), *counter as nat);
        proof {
            let sub = block.instructions@.subrange(0, k + 1);
            assert(sub.drop_last() =~= block.instructions@.subrange(0, k as int));
            assert(sub.last() == block.instructions@[k as int]);
        }
        match block.instructions[k].result {
            Some(r) => push_value_name(m, f, values, r, counter),
            None => {},
        }
        proof {
            let a = inst_defs(block.instructions@.subrange(0, k as int));
            let sub = block.instructions@.subrange(0, k + 1);
            match block.instructions@[k as int].result {
                Some(r) => {
                    assert(inst_defs(sub) =~= a + seq![r.0]);
                    assert(pids + inst_defs(sub) =~= (pids + a).push(r.0));
                    assert((pids + a).push(r.0).drop_last() =~= pids + a);
                    assert(names_after(*m, *f, state0, (pids + a).push(r.0)) == name_step(
                        *m,
                        *f,
                        names_after(*m, *f, state0, pids + a),
                        r.0,
                    ));
                },
                None => {
                    assert(inst_defs(sub) =~= a);
                    assert(pids + inst_defs(sub) =~= pids + a);
                },
            }
        }
        k = k + 1;
    }
    proof {
        assert(block.instructions@.subrange(0, block.instructions@.len() as int) =~= block.instructions@);
    }
}

/// Assigns the printed names of `f`: parameters first, then, block by
/// block in emission order, the block label, block parameters and
/// instruction results.
fn compute_names(m: &Module, f: &Function, order: &Vec<usize>) -> (r: Names)
    requires
        order_ok(*f, order@),
    ensures
        value_names_ok(*m, *f, pv(r.values@)),
        block_labels_ok(*m, *f, order@, pv(r.blocks@)),
        names_cover(*f, order@, pv(r.values@)),
        pv(r.values@) == names_after(*m, *f, (Seq::empty(), 0), defined_values(*f, order@)).0,
        pv(r.blocks@) == labels_after(*m, *f, order@).0,
{
    let ghost pids = f.params@.map_values(|p: Param| p.value.0);
    let ghost init = (Seq::<(u32, Seq<u8>)>::empty(), 0nat);
    let mut values: Vec<(u32, String)> = Vec::new();
    let mut blocks: Vec<(u32, String)> = Vec::new();
    let mut counter: u64 = 0;
    let mut block_counter: u64 = 0;
    proof {
        assert(pv(values@) =~= Seq::<(u32, Seq<u8>)>::empty());
        assert(pv(blocks@) =~= Seq::<(u32, Seq<u8>)>::empty());
        assert(pids.subrange(0, 0) =~= Seq::<u32>::empty());
    }
    let mut i: usize = 0;
    while i < f.params.len()
        invariant
            i <= f.params@.len(),
            value_names_ok(*m, *f, pv(values@)),
            forall|j: int| 0 <= j < i ==> has_name(pv(values@), #[trigger] f.params@[j].value.0),
            pids == f.params@.map_values(|p: Param| p.value.0),
            (pv(values@), counter as nat) == names_after(*m, *f, init, pids.subrange(0, i as int)),
            init == (Seq::<(u32, Seq<u8>)>::empty(), 0nat),
            pv(blocks@) == Seq::<(u32, Seq<u8>)>::empty(),
            block_counter == 0,
        decreases f.params@.len() - i,
    {
        push_value_name(m, f, &mut values, f.params[i].value, &mut counter);
        proof {
            let sub = pids.subrange(0, i + 1);
            assert(sub.drop_last() =~= pids.subrange(0, i as int));
            assert(sub.last() == f.params@[i as int].value.0);
        }
        i = i + 1;
    }
    proof {
        assert(pids.subrange(0, pids.len() as int) =~= pids);
        assert(order@.subrange(0, 0) =~= Seq::<usize>::empty());
        assert(pids + order_defs(*f, order@.subrange(0, 0)) =~= pids);
    }
    let mut j: usize = 0;
    while j < order.len()
        invariant
            order_ok(*f, order@),
            j <= order@.len(),
            value_names_ok(*m, *f, pv(values@)),
            forall|x: int| 0 <= x < f.params@.len() ==> has_name(pv(values@), #[trigger] f.params@[x].value.0),
            pv(blocks@).len() == j,
            forall|x: int|
                0 <= x < j ==> #[trigger] pv(blocks@)[x].0 == order@[x] as u32 && block_label_ok(
                    *m,
                    *f,
                    order@[x] as int,
                    pv(blocks@)[x].1,
                ),
            forall|x: int, k: int|
                0 <= x < j && 0 <= k < f.blocks@[order@[x] as int].params@.len() ==> has_name(
                    pv(values@),
                    #[trigger] f.blocks@[order@[x] as int].params@[k].value.0,
                ),
            forall|x: int, k: int|
                0 <= x < j && 0 <= k < f.blocks@[order@[x] as int].instructions@.len()
                    && f.blocks@[order@[x] as int].instructions@[k].result is Some ==> has_name(
                    pv(values@),
                    result_key(#[trigger] f.blocks@[order@[x] as int].instructions@[k]),
                ),
            pids == f.params@.map_values(|p: Param| p.value.0),
            init == (Seq::<(u32, Seq<u8>)>::empty(), 0nat),
            (pv(values@), counter as nat) == names_after(*m, *f, init, pids + order_defs(*f, order@.subrange(0, j as int))),
            (pv(blocks@), block_counter as nat) == labels_after(*m, *f, order@.subrange(0, j as int)),
        decreases order@.len() - j,
    {
        let b = order[j];
        proof {
            assert((order@[j as int] as int) < f.blocks@.len());
        }
        let label = block_label(m, f, b, &mut block_counter);
        let ghost old_bn = pv(blocks@);
        let ghost lb = encode_utf8(label@);
        blocks.push((#[verifier::truncate] (b as u32), label));
        proof {
            assert(pv(blocks@) =~= old_bn.push((b as u32, lb)));
            let sub = order@.subrange(0, j + 1);
            assert(sub.drop_last() =~= order@.subrange(0, j as int));
            assert(sub.last() == b);
        }
        let ghost before = (pv(values@), counter as nat);
        name_block_values(m, f, b, &mut values, &mut counter);
        proof {
            let sub = order@.subrange(0, j + 1);
            let od = order_defs(*f, order@.subrange(0, j as int));
            let bd = block_defs(f.blocks@[b as int]);
            assert(order_defs(*f, sub) == od + bd);
            lemma_names_after_concat(*m, *f, init, pids + od, bd);
            assert(pids + order_defs(*f, sub) =~= (pids + od) + bd);
        }
        j = j + 1;
    }
    proof {
        assert(order@.subrange(0, order@.len() as int) =~= order@);
    }
    Names { values, blocks }
}

/// Blocks in emission order: the reachable ones in reverse post-order,
/// then the unreachable ones by index.
fn block_order(f: &Function) -> (r: Vec<usize>)
    ensures
        order_ok(*f, r@),
{
    let n = f.blocks.len();
    let mut out: Vec<usize> = Vec::new();
    if n == 0 {
        return out;
    }
    let info = CfgInfo::compute(f);
    let ghost l = info.order@.len();
    let mut i: usize = 0;
    while i < info.order.len()
        invariant
            i <= info.order@.len(),
            out@ == info.order@.subrange(0, i as int),
        decreases info.order@.len() - i,
    {
        out.push(info.order[i]);
        i = i + 1;
        proof {
            assert(out@ =~= info.order@.subrange(0, i as int));
        }
    }
    proof {
        assert(out@ =~= info.order@);
    }
    let mut b: usize = 0;
    while b < n
        invariant
            n == f.blocks@.len(),
            info.describes(*f),
            l == info.order@.len(),
            b <= n,
            out@.len() >= l,
            forall|x: int| 0 <= x < l ==> out@[x] == info.order@[x],
            forall|x: int| l <= x < out@.len() ==> (#[trigger] out@[x] as int) < b && !info.reachable@[out@[x] as int],
            forall|x: int, y: int| l <= x < y < out@.len() ==> out@[x] < out@[y],
            forall|c: int| 0 <= c < b && !info.reachable@[c] ==> #[trigger] out@.contains(c as usize),
            out@ == info.order@ + unreachable_upto(*f, b as int),
        decreases n - b,
    {
        let ghost before = out@;
        if !info.reachable[b] {
            let ghost old_out = out@;
            out.push(b);
            proof {
                assert(out@[out@.len() - 1] == b);
                assert(out@.contains(b));
                assert forall|c: int| 0 <= c < b && !info.reachable@[c] implies #[trigger] out@.contains(c as usize) by {
                    assert(old_out.contains(c as usize));
                    let k = choose|k: int| 0 <= k < old_out.len() && old_out[k] == c as usize;
                    assert(out@[k] == c as usize);
                }
            }
        }
        proof {
            let u = unreachable_upto(*f, b as int);
            assert(info.reachable@[b as int] <==> block_reachable(*f, b as int));
            if info.reachable@[b as int] {
                assert(unreachable_upto(*f, b + 1) == u);
            } else {
                assert(unreachable_upto(*f, b + 1) == u.push(b));
                assert(out@ =~= info.order@ + u.push(b));
            }
        }
        b = b + 1;
    }
    proof {
        let o = out@;
        assert(o[0] == info.order@[0]);
        assert forall|x: int| 0 <= x < o.len() implies (#[trigger] o[x] as int) < n by {
            if x < l {
                assert(o[x] == info.order@[x]);
            }
        }
        assert forall|x: int, y: int| 0 <= x < y < o.len() implies o[x] != o[y] by {
            if y < l {
                assert(o[x] == info.order@[x]);
                assert(o[y] == info.order@[y]);
            } else if x < l {
                assert(o[x] == info.order@[x]);
                assert(info.reachable@[o[x] as int]);
            }
        }
        assert forall|c: int| 0 <= c < n implies #[trigger] o.contains(c as usize) by {
            if info.reachable@[c] {
                assert(info.order@.contains(c as usize));
                let k = choose|k: int| 0 <= k < info.order@.len() && info.order@[k] == c as usize;
                assert(o[k] == c as usize);
            }
        }
        assert forall|x: int, y: int| 0 <= x < y < o.len() && !block_reachable(*f, o[x] as int) implies !block_reachable(
            *f,
            o[y] as int,
        ) && o[x] < o[y] by {
            if x < l {
                assert(o[x] == info.order@[x]);
                assert(info.reachable@[o[x] as int]);
            } else {
                assert(!info.reachable@[o[y] as int]);
            }
        }
    }
    out
}

/// Appends the text of `f` and returns the layout it used.
#[verifier::spinoff_prover]
fn push_function(out: &mut Vec<u8>, m: &Module, f: &Function) -> (layout: Ghost<(Seq<usize>, Seq<(u32, Seq<u8>)>, Seq<(u32, Seq<u8>)>)>)
    requires
        valid_utf8(old(out)@),
    ensures
        layout_ok(*m, *f, layout@),
        final(out)@ == old(out)@ + function_text(*m, *f, layout@),
        valid_utf8(final(out)@),
{
    let ghost start = out@;
    let order = block_order(f);
    let names = compute_names(m, f, &order);
    let ghost vn = pv(names.values@);
    let ghost bn = pv(names.blocks@);
    push_header(out, m, f, &names.values);
    let ghost head = out@;
    let mut j: usize = 0;
    while j < order.len()
        invariant
            order_ok(*f, order@),
            j <= order@.len(),
            valid_utf8(out@),
            vn == pv(names.values@),
            bn == pv(names.blocks@),
            out@ == head + blocks_text(*m, *f, vn, bn, order@.subrange(0, j as int)),
        decreases order@.len() - j,
    {
        proof {
            assert((order@[j as int] as int) < f.blocks@.len());
        }
        push_block(out, m, f, &names, order[j]);
        proof {
            let sub = order@.subrange(0, j + 1);
            assert(sub.drop_last() =~= order@.subrange(0, j as int));
            lemma_concat_associative(head, blocks_text(*m, *f, vn, bn, sub.drop_last()), block_text(*m, *f, vn, bn, sub.last()));
        }
        j = j + 1;
    }
    proof {
        assert(order@.subrange(0, order@.len() as int) =~= order@);
    }
    push_str(out, "::ASTRONOMY::FUNCTION_END\n");
    proof {
        reveal(layout_ok);
        let h = function_header(*m, *f, vn);
        let bt = blocks_text(*m, *f, vn, bn, order@);
        lemma_concat_associative(start, h, bt);
        lemma_concat_associative(start, h + bt, lit("::ASTRONOMY::FUNCTION_END\n"));
    }
    Ghost((order@, vn, bn))
}

// ---------------------------------------------------------------------------
// The module
// ---------------------------------------------------------------------------

fn push_module_name(out: &mut Vec<u8>, m: &Module)
    requires
        valid_utf8(old(out)@),
    ensures
        final(out)@ == old(out)@ + module_name_text(*m),
        valid_utf8(final(out)@),
{
    let ghost start = out@;
    match m.name() {
        Some(name) => {
            push_str(out, "::ASTRONOMY::MODULE_NAME \"");
            push_escaped(out, name.as_bytes());
            push_str(out, "\"");
            push_ascii(out, 10);
        },
        None => {},
    }
    proof {
        assert(out@ =~= start + module_name_text(*m));
    }
}

proof fn lemma_functions_text_prefix(
    m: Module,
    k: int,
    a: Seq<(Seq<usize>, Seq<(u32, Seq<u8>)>, Seq<(u32, Seq<u8>)>)>,
    b: Seq<(Seq<usize>, Seq<(u32, Seq<u8>)>, Seq<(u32, Seq<u8>)>)>,
)
    requires
        0 <= k <= a.len(),
        k <= b.len(),
        forall|j: int| 0 <= j < k ==> a[j] == b[j],
    ensures
        functions_text(m, a, k) == functions_text(m, b, k),
    decreases k,
{
    if k > 0 {
        lemma_functions_text_prefix(m, k - 1, a, b);
    }
}

/// The lines before the constants: start marker, name and version.
pub open spec fn module_head_text(m: Module) -> Seq<u8> {
    lit("::ASTRONOMY::MODULE_START\n") + module_name_text(m) + lit("::ASTRONOMY::MODULE_VERSION ")
        + dec_digits(m.version.major as nat) + nl()
}

fn push_module_head(out: &mut Vec<u8>, m: &Module)
    requires
        valid_utf8(old(out)@),
    ensures
        final(out)@ == old(out)@ + module_head_text(*m),
        valid_utf8(final(out)@),
{
    let ghost start = out@;
    push_str(out, "::ASTRONOMY::MODULE_START\n");
    let ghost acc = lit("::ASTRONOMY::MODULE_START\n");
    push_module_name(out, m);
    proof {
        lemma_concat_associative(start, acc, module_name_text(*m));
        acc = acc + module_name_text(*m);
    }
    push_str(out, "::ASTRONOMY::MODULE_VERSION ");
    proof {
        lemma_concat_associative(start, acc, lit("::ASTRONOMY::MODULE_VERSION "));
        acc = acc + lit("::ASTRONOMY::MODULE_VERSION ");
    }
    push_dec(out, m.version.major as u128);
    proof {
        lemma_concat_associative(start, acc, dec_digits(m.version.major as nat));
        acc = acc + dec_digits(m.version.major as nat);
    }
    push_ascii(out, 10);
    proof {
        lemma_concat_associative(start, acc, nl());
    }
}

fn push_functions(out: &mut Vec<u8>, m: &Module) -> (layouts: Ghost<Seq<(Seq<usize>, Seq<(u32, Seq<u8>)>, Seq<(u32, Seq<u8>)>)>>)
    requires
        valid_utf8(old(out)@),
    ensures
        layouts_ok(*m, layouts@),
        final(out)@ == old(out)@ + functions_text(*m, layouts@, m.functions@.len() as int),
        valid_utf8(final(out)@),
{
    let ghost fstart = out@;
    let ghost mut layouts: Seq<(Seq<usize>, Seq<(u32, Seq<u8>)>, Seq<(u32, Seq<u8>)>)> = Seq::empty();
    proof {
        assert(out@ =~= fstart + functions_text(*m, layouts, 0));
    }
    let mut i: usize = 0;
    while i < m.functions.len()
        invariant
            i <= m.functions@.len(),
            valid_utf8(out@),
            layouts.len() == i,
            forall|j: int| 0 <= j < i ==> layout_ok(*m, m.functions@[j], #[trigger] layouts[j]),
            out@ == fstart + functions_text(*m, layouts, i as int),
        decreases m.functions@.len() - i,
    {
        let l = push_function(out, m, &m.functions[i]);
        proof {
            let nls = layouts.push(l@);
            lemma_functions_text_prefix(*m, i as int, nls, layouts);
            lemma_concat_associative(
                fstart,
                functions_text(*m, layouts, i as int),
                function_text(*m, m.functions@[i as int], l@),
            );
            layouts = nls;
        }
        i = i + 1;
    }
    Ghost(layouts)
}

/// Float texts that agree on every float constant give the same constant
/// lines.
proof fn lemma_constant_lines_floats(m: Module, k: int, a: Seq<String>, b: Seq<String>)
    requires
        0 <= k <= m.constants.constants@.len(),
        k <= a.len(),
        k <= b.len(),
        forall|j: int| 0 <= j < k && (#[trigger] m.constants.constants@[j]) is Float ==> a[j] == b[j],
    ensures
        constant_lines(m, k, a) == constant_lines(m, k, b),
    decreases k,
{
    if k > 0 {
        lemma_constant_lines_floats(m, k - 1, a, b);
        if m.constants.constants@[k - 1] is Float {
            assert(a[k - 1] == b[k - 1]);
        }
        assert(constant_line(m, k - 1, a) == constant_line(m, k - 1, b));
    }
}

/// `text` is the canonical text of `m` when float constants are rendered
/// by `float_text`.
pub open spec fn is_module_text<G: Fn(u64, bool) -> String>(float_text: &G, m: Module, text: Seq<u8>) -> bool {
    exists|floats: Seq<String>, layouts: Seq<(Seq<usize>, Seq<(u32, Seq<u8>)>, Seq<(u32, Seq<u8>)>)>|
        floats_ok(float_text, m, floats) && layouts_ok(m, layouts) && text == module_text(m, floats, layouts)
}

/// Printing is a function of the module: any two texts that [`print`] may
/// return for one module are the same, whenever the float renderer gives
/// one text for each bit pattern (as it does for a module without float
/// constants, where it is never asked).
pub proof fn lemma_print_deterministic<G: Fn(u64, bool) -> String>(float_text: &G, m: Module, t1: Seq<u8>, t2: Seq<u8>)
    requires
        is_module_text(float_text, m, t1),
        is_module_text(float_text, m, t2),
        forall|b: u64, single: bool, r1: String, r2: String|
            #![trigger float_text.ensures((b, single), r1), float_text.ensures((b, single), r2)]
            float_text.ensures((b, single), r1) && float_text.ensures((b, single), r2) ==> r1 == r2,
    ensures
        t1 == t2,
{
    let (f1, l1) = choose|floats: Seq<String>, layouts: Seq<(Seq<usize>, Seq<(u32, Seq<u8>)>, Seq<(u32, Seq<u8>)>)>|
        floats_ok(float_text, m, floats) && layouts_ok(m, layouts) && t1 == module_text(m, floats, layouts);
    let (f2, l2) = choose|floats: Seq<String>, layouts: Seq<(Seq<usize>, Seq<(u32, Seq<u8>)>, Seq<(u32, Seq<u8>)>)>|
        floats_ok(float_text, m, floats) && layouts_ok(m, layouts) && t2 == module_text(m, floats, layouts);
    lemma_layouts_unique(m, l1, l2);
    lemma_floats_agree(float_text, m, f1, f2);
    let n = m.constants.constants@.len() as int;
    lemma_constant_lines_floats(m, n, f1, f2);
    assert(constants_text(m, f1) == constants_text(m, f2));
}

/// The layouts of a module are determined by the module.
proof fn lemma_layouts_unique(
    m: Module,
    l1: Seq<(Seq<usize>, Seq<(u32, Seq<u8>)>, Seq<(u32, Seq<u8>)>)>,
    l2: Seq<(Seq<usize>, Seq<(u32, Seq<u8>)>, Seq<(u32, Seq<u8>)>)>,
)
    requires
        layouts_ok(m, l1),
        layouts_ok(m, l2),
    ensures
        l1 == l2,
{
    assert forall|i: int| 0 <= i < l1.len() implies l1[i] == l2[i] by {
        let f = m.functions@[i];
        assert(layout_ok(m, f, l1[i]));
        assert(layout_ok(m, f, l2[i]));
        reveal(layout_ok);
        assert(l1[i].0 == l2[i].0);
    }
    assert(l1 =~= l2);
}

/// Two float texts for one module agree on every float constant when the
/// renderer gives one text for each bit pattern.
proof fn lemma_floats_agree<G: Fn(u64, bool) -> String>(float_text: &G, m: Module, f1: Seq<String>, f2: Seq<String>)
    requires
        floats_ok(float_text, m, f1),
        floats_ok(float_text, m, f2),
        forall|b: u64, single: bool, r1: String, r2: String|
            #![trigger float_text.ensures((b, single), r1), float_text.ensures((b, single), r2)]
            float_text.ensures((b, single), r1) && float_text.ensures((b, single), r2) ==> r1 == r2,
    ensures
        forall|j: int|
            0 <= j < m.constants.constants@.len() && (#[trigger] m.constants.constants@[j]) is Float ==> f1[j] == f2[j],
{
    assert forall|j: int| 0 <= j < m.constants.constants@.len() && (#[trigger] m.constants.constants@[j]) is Float implies f1[j]
        == f2[j] by {
        if let ConstantData::Float { ty, bits } = m.constants.constants@[j] {
            assert(float_text.ensures((bits, ty == TypeId::F32()), f1[j]));
            assert(float_text.ensures((bits, ty == TypeId::F32()), f2[j]));
        }
    }
}

/// Serializes a module to canonical `.arn` text.
///
/// `float_text` renders the bit pattern of a float constant (the flag is
/// true for `f32`, whose bits are in the low 32 bits); everything else is
/// produced here. The result is the concatenation described by
/// [`module_text`], for the texts `float_text` returned and for layouts
/// in which the blocks are printed in [`emission_order`] (the reachable
/// ones in reverse post-order, then the unreachable ones by index), and
/// every value and block keeps its own unique name or gets the next number
/// in the order the printer names them ([`names_after`], [`labels_after`]).
/// The layouts are thus fixed by the module, and so is the text when the
/// float renderer is ([`lemma_print_deterministic`]).
pub fn print<G: Fn(u64, bool) -> String>(module: &Module, float_text: &G) -> (r: String)
    requires
        forall|b: u64, single: bool| float_text.requires((b, single)),
    ensures
        is_module_text(float_text, *module, encode_utf8(r@)),
{
    let mut out: Vec<u8> = Vec::new();
    proof {
        lemma_ascii_utf8(Seq::<u8>::empty());
    }
    push_module_head(&mut out, module);
    let ghost h = out@;
    let floats = push_constants(&mut out, module, float_text);
    let ghost c = constants_text(*module, floats@);
    let layouts = push_functions(&mut out, module);
    let ghost ft = functions_text(*module, layouts@, module.functions@.len() as int);
    push_str(&mut out, "::ASTRONOMY::MODULE_END\n");
    proof {
        let e = lit("::ASTRONOMY::MODULE_END\n");
        assert(h == Seq::<u8>::empty() + module_head_text(*module));
        assert(h =~= module_head_text(*module));
        assert(out@ == h + c + ft + e);
        assert(module_text(*module, floats@, layouts@) == module_head_text(*module) + c + ft + e);
    }
    let r = into_string(out);
    proof {
        assert(floats_ok(float_text, *module, floats@) && layouts_ok(*module, layouts@) && encode_utf8(r@)
            == module_text(*module, floats@, layouts@));
    }
    r
}

} // verus!
