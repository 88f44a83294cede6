//! NASM (x86-64 System V) code generation for verified modules.
//!
//! This is a correctness-first backend: every SSA value (function
//! parameter, block parameter and instruction result) is assigned a stack
//! slot, and instructions load their operands from those slots into
//! registers, compute, and store the result back. There is no register
//! allocator, which keeps lowering local.
//!
//! * Blocks become labels (`fname.bbN`), terminators become
//!   `jmp`/`je`/`leave; ret`/`ud2`.
//! * A jump or branch first stages every block argument into a per-block
//!   scratch area, then copies the scratch slots into the target block's
//!   parameter slots: a parallel copy.
//! * All slots are `rbp`-relative; `rsp` stays at a 16-byte boundary with
//!   an outgoing stack-argument area reserved at the bottom.
//! * The System V AMD64 convention is used for every function, whatever
//!   its IR `Abi`. Integer/pointer arguments go in `rdi, rsi, rdx, rcx, r8,
//!   r9`, float arguments in `xmm0..xmm7`, the rest on the stack; `%al` is
//!   set for variadic calls.
//!
//! Unsupported constructs (128-bit integers, aggregates passed or returned
//! by value, frames beyond 32-bit displacements) produce structured
//! [`BackendError`]s instead of wrong code.

use vstd::prelude::*;
use vstd::utf8::*;

use crate::constant::ConstantData;
use crate::function::{Function, Linkage};
use crate::id::{FunctionId, TypeId, ValueId};
use crate::instruction::{Instruction, InstructionKind};
use crate::module::{Module, VerifiedModule};
use crate::nasm::error::BackendError;
use crate::nasm::layout::{
    align_of, align_up, check_supported, field_offset, field_type, is_aggregate, is_f32, is_float,
    is_layout_align, lemma_align_values, lemma_layout_align_pow2, size_of, spec_align, spec_align_up, spec_int_bytes,
    spec_field_offset, spec_field_type, spec_size,
    spec_supported, wide_int,
};
use crate::block::{BlockParam, Terminator};
use crate::textbuf::{
    cat2, cat3, cat4, concat_bytes, dec_chars, dec_string, hex_bytes, hex_digits, hex_lower, into_string, join,
    lemma_ascii_utf8, push_ascii, push_signed, push_str, signed_dec, str_eq,
};
use crate::types::{lit, spec_is_float, type_to_string, FloatKind, TypeData};
use crate::text::printer::{result_key, sym_or};

verus! {

// ---------------------------------------------------------------------------
// Small textual helpers
// ---------------------------------------------------------------------------

/// The NASM size keyword for an access of `bytes` bytes.
pub open spec fn spec_size_kw(bytes: u64) -> Seq<char> {
    if bytes == 1 {
        "byte"@
    } else if bytes == 2 {
        "word"@
    } else if bytes == 4 {
        "dword"@
    } else {
        "qword"@
    }
}

fn size_kw(bytes: u64) -> (r: &'static str)
    ensures
        r@ == spec_size_kw(bytes),
{
    if bytes == 1 {
        "byte"
    } else if bytes == 2 {
        "word"
    } else if bytes == 4 {
        "dword"
    } else {
        "qword"
    }
}

/// The first, second or third name, for 1, 2 or 4 bytes.
spec fn by_width(bytes: u64, one: Seq<char>, two: Seq<char>, four: Seq<char>) -> Seq<char> {
    if bytes == 1 {
        one
    } else if bytes == 2 {
        two
    } else {
        four
    }
}

fn pick(bytes: u64, one: &'static str, two: &'static str, four: &'static str) -> (r: &'static str)
    ensures
        r@ == by_width(bytes, one@, two@, four@),
{
    if bytes == 1 {
        one
    } else if bytes == 2 {
        two
    } else {
        four
    }
}

/// The numbered registers `r8` to `r15`.
spec fn is_numbered_register(name: Seq<char>) -> bool {
    name == "r8"@ || name == "r9"@ || name == "r10"@ || name == "r11"@ || name == "r12"@ || name == "r13"@
        || name == "r14"@ || name == "r15"@
}

/// The sub-register of 64-bit register `name` that covers its low
/// `bytes` bytes (the register itself for 8 bytes or an unknown name).
spec fn subreg_text(name: Seq<char>, bytes: u64) -> Seq<char> {
    if bytes == 1 || bytes == 2 || bytes == 4 {
        if name == "rax"@ {
            by_width(bytes, "al"@, "ax"@, "eax"@)
        } else if name == "rcx"@ {
            by_width(bytes, "cl"@, "cx"@, "ecx"@)
        } else if name == "rdx"@ {
            by_width(bytes, "dl"@, "dx"@, "edx"@)
        } else if name == "rbx"@ {
            by_width(bytes, "bl"@, "bx"@, "ebx"@)
        } else if name == "rsi"@ {
            by_width(bytes, "sil"@, "si"@, "esi"@)
        } else if name == "rdi"@ {
            by_width(bytes, "dil"@, "di"@, "edi"@)
        } else if name == "rsp"@ {
            by_width(bytes, "spl"@, "sp"@, "esp"@)
        } else if name == "rbp"@ {
            by_width(bytes, "bpl"@, "bp"@, "ebp"@)
        } else if is_numbered_register(name) {
            name + by_width(bytes, "b"@, "w"@, "d"@)
        } else {
            name
        }
    } else {
        name
    }
}

/// The sub-register of a 64-bit register that covers its low `bytes`
/// bytes (the register itself for 8 bytes or an unknown name).
fn subreg(name: &str, bytes: u64) -> (r: String)
    ensures
        r@ == subreg_text(name@, bytes),
{
    if bytes == 1 || bytes == 2 || bytes == 4 {
        if str_eq(name, "rax") {
            return pick(bytes, "al", "ax", "eax").to_owned();
        } else if str_eq(name, "rcx") {
            return pick(bytes, "cl", "cx", "ecx").to_owned();
        } else if str_eq(name, "rdx") {
            return pick(bytes, "dl", "dx", "edx").to_owned();
        } else if str_eq(name, "rbx") {
            return pick(bytes, "bl", "bx", "ebx").to_owned();
        } else if str_eq(name, "rsi") {
            return pick(bytes, "sil", "si", "esi").to_owned();
        } else if str_eq(name, "rdi") {
            return pick(bytes, "dil", "di", "edi").to_owned();
        } else if str_eq(name, "rsp") {
            return pick(bytes, "spl", "sp", "esp").to_owned();
        } else if str_eq(name, "rbp") {
            return pick(bytes, "bpl", "bp", "ebp").to_owned();
        } else if str_eq(name, "r8") || str_eq(name, "r9") || str_eq(name, "r10") || str_eq(name, "r11") || str_eq(
            name,
            "r12",
        ) || str_eq(name, "r13") || str_eq(name, "r14") || str_eq(name, "r15") {
            return cat2(name, pick(bytes, "b", "w", "d"));
        }
    }
    name.to_owned()
}

/// Decimal text of a signed number, as characters.
spec fn signed_chars(n: int) -> Seq<char> {
    decode_utf8(signed_dec(n))
}

/// Decimal text of a signed number.
fn signed_text(n: i64) -> (r: String)
    ensures
        r@ == signed_chars(n as int),
{
    let mut out: Vec<u8> = Vec::new();
    proof {
        lemma_ascii_utf8(Seq::<u8>::empty());
    }
    push_signed(&mut out, n as i128);
    let r = into_string(out);
    proof {
        encode_utf8_decode_utf8(r@);
    }
    r
}

/// Lower-case hexadecimal text with a `0x` prefix.
fn hex_text(n: u128) -> (r: String)
    ensures
        encode_utf8(r@) == lit("0x") + hex_digits(n as nat),
{
    let mut out: Vec<u8> = Vec::new();
    proof {
        lemma_ascii_utf8(Seq::<u8>::empty());
    }
    push_str(&mut out, "0x");
    crate::textbuf::push_hex(&mut out, n);
    into_string(out)
}

/// The IEEE binary64 bit pattern of `2^k` (`k <= 1023`), negated when
/// `negative`.
pub open spec fn spec_pow2_f64_bits(k: u64, negative: bool) -> u64 {
    (((1023 + k) * 0x10_0000_0000_0000) + if negative {
        0x8000_0000_0000_0000int
    } else {
        0int
    }) as u64
}

fn pow2_f64_bits(k: u64, negative: bool) -> (r: u64)
    requires
        k <= 1023,
    ensures
        r == spec_pow2_f64_bits(k, negative),
{
    let exp: u64 = (1023 + k) * 0x10_0000_0000_0000u64;
    if negative {
        exp + 0x8000_0000_0000_0000u64
    } else {
        exp
    }
}

// ---------------------------------------------------------------------------
// Read-only data (strings and float-conversion bounds)
// ---------------------------------------------------------------------------

/// Interned read-only data: label and bytes of each entry, in creation
/// order. Equal byte strings share one entry.
struct Rodata {
    entries: Vec<(String, Vec<u8>)>,
}

fn bytes_equal(a: &Vec<u8>, b: &[u8]) -> (r: bool)
    ensures
        r == (a@ == b@),
{
    crate::textbuf::bytes_eq(a.as_slice(), b)
}

/// The label of read-only data entry `n`.
spec fn data_label(n: nat) -> Seq<char> {
    "arn.data."@ + dec_chars(n)
}

/// Entry `k` is the first of `entries` that holds `bytes`.
spec fn first_data(entries: Seq<(String, Vec<u8>)>, bytes: Seq<u8>, k: int) -> bool {
    &&& 0 <= k < entries.len()
    &&& entries[k].1@ == bytes
    &&& forall|j: int| 0 <= j < k ==> (#[trigger] entries[j]).1@ != bytes
}

/// Interning `bytes` into `old` gave `new` and the label `label`: an
/// entry that already holds them is reused, else one is appended.
spec fn data_interned(old: Seq<(String, Vec<u8>)>, new: Seq<(String, Vec<u8>)>, bytes: Seq<u8>, label: String) -> bool {
    if exists|k: int| first_data(old, bytes, k) {
        &&& new == old
        &&& exists|k: int| first_data(old, bytes, k) && label == old[k].0
    } else {
        &&& new.len() == old.len() + 1
        &&& new.drop_last() == old
        &&& new.last().0 == label
        &&& new.last().1@ == bytes
        &&& label@ == data_label(old.len())
    }
}

/// The little-endian bytes of `bits`.
spec fn le_bytes(bits: u64) -> Seq<u8> {
    Seq::new(8, |k: int| (bits >> ((8 * k) as u64)) as u8)
}

/// `0x` and two lower-case hexadecimal digits of `b`.
spec fn byte_hex(b: u8) -> Seq<u8> {
    lit("0x") + seq![hex_lower((b / 16) as nat), hex_lower((b % 16) as nat)]
}

/// The bytes as `0x..` items separated by `, `.
spec fn hex_list(bs: Seq<u8>) -> Seq<u8>
    decreases bs.len(),
{
    if bs.len() == 0 {
        Seq::empty()
    } else if bs.len() == 1 {
        byte_hex(bs[0])
    } else {
        hex_list(bs.drop_last()) + lit(", ") + byte_hex(bs.last())
    }
}

/// `db` lines of at most sixteen bytes each.
spec fn db_lines(bs: Seq<u8>) -> Seq<u8>
    decreases bs.len(),
{
    if bs.len() == 0 {
        Seq::empty()
    } else {
        let n: int = if bs.len() < 16 {
            bs.len() as int
        } else {
            16
        };
        lit("    db ") + hex_list(bs.take(n)) + seq![10u8] + db_lines(bs.skip(n))
    }
}

/// The text of one read-only data entry.
spec fn data_entry_text(label: Seq<char>, bs: Seq<u8>) -> Seq<u8> {
    encode_utf8(label) + lit(":\n") + if bs.len() == 0 {
        lit("    db 0\n")
    } else {
        db_lines(bs)
    }
}

/// The text of the entries, in order.
spec fn data_entries_text(es: Seq<(String, Vec<u8>)>) -> Seq<u8>
    decreases es.len(),
{
    if es.len() == 0 {
        Seq::empty()
    } else {
        data_entries_text(es.drop_last()) + data_entry_text(es.last().0@, es.last().1@)
    }
}

impl Rodata {
    /// The label of `bytes`, adding an entry `arn.data.N` when they are new.
    fn intern(&mut self, bytes: &[u8]) -> (r: String)
        ensures
            data_interned(old(self).entries@, final(self).entries@, bytes@, r),
    {
        let mut i: usize = 0;
        while i < self.entries.len()
            invariant
                i <= self.entries@.len(),
                self.entries@ == old(self).entries@,
                forall|j: int| 0 <= j < i ==> (#[trigger] self.entries@[j]).1@ != bytes@,
            decreases self.entries@.len() - i,
        {
            if bytes_equal(&self.entries[i].1, bytes) {
                proof {
                    assert(first_data(old(self).entries@, bytes@, i as int));
                }
                return self.entries[i].0.clone();
            }
            i = i + 1;
        }
        let n = dec_string(self.entries.len() as u128);
        let label = cat2("arn.data.", n.as_str());
        let copy = vstd::slice::slice_to_vec(bytes);
        self.entries.push((label.clone(), copy));
        proof {
            assert(self.entries@.drop_last() =~= old(self).entries@);
        }
        label
    }

    /// The label of the little-endian bytes of `bits`.
    fn intern_u64(&mut self, bits: u64) -> (r: String)
        ensures
            data_interned(old(self).entries@, final(self).entries@, le_bytes(bits), r),
    {
        let mut le: Vec<u8> = Vec::new();
        let mut k: u64 = 0;
        while k < 8
            invariant
                k <= 8,
                le@ == Seq::new(k as nat, |q: int| (bits >> ((8 * q) as u64)) as u8),
            decreases 8 - k,
        {
            let byte: u8 = #[verifier::truncate] ((bits >> (8 * k)) as u8);
            le.push(byte);
            proof {
                assert(le@ =~= Seq::new((k + 1) as nat, |q: int| (bits >> ((8 * q) as u64)) as u8));
            }
            k = k + 1;
        }
        proof {
            assert(le@ =~= le_bytes(bits));
        }
        self.intern(le.as_slice())
    }

    fn emit(&self) -> (r: Vec<u8>)
        ensures
            valid_utf8(r@),
            r@ == lit("section .rodata\n") + data_entries_text(self.entries@),
    {
        let mut buffer: Vec<u8> = Vec::new();
        proof {
            lemma_ascii_utf8(Seq::<u8>::empty());
        }
        let out = &mut buffer;
        push_str(out, "section .rodata\n");
        let ghost head = lit("section .rodata\n");
        proof {
            assert(out@ =~= head + data_entries_text(self.entries@.take(0)));
        }
        let mut i: usize = 0;
        while i < self.entries.len()
            invariant
                i <= self.entries@.len(),
                valid_utf8(out@),
                out@ == head + data_entries_text(self.entries@.take(i as int)),
            decreases self.entries@.len() - i,
        {
            let ghost before = out@;
            let label = &self.entries[i].0;
            let bytes = &self.entries[i].1;
            push_str(out, label.as_str());
            push_str(out, ":\n");
            let ghost lhead = out@;
            if bytes.len() == 0 {
                push_str(out, "    db 0\n");
            } else {
                let mut j: usize = 0;
                proof {
                    assert(bytes@.skip(0) =~= bytes@);
                }
                while j < bytes.len()
                    invariant
                        j <= bytes@.len(),
                        valid_utf8(out@),
                        out@ + db_lines(bytes@.skip(j as int)) == lhead + db_lines(bytes@),
                    decreases bytes@.len() - j,
                {
                    let ghost lstart = out@;
                    push_str(out, "    db ");
                    let mut k: usize = 0;
                    while k < 16 && k < bytes.len() - j
                        invariant
                            k <= 16,
                            j < bytes@.len(),
                            j + k <= bytes@.len(),
                            valid_utf8(out@),
                            out@ == lstart + lit("    db ") + hex_list(bytes@.subrange(j as int, j + k)),
                        decreases 16 - k,
                    {
                        let ghost istart = out@;
                        if k > 0 {
                            push_str(out, ", ");
                        }
                        let b = bytes[j + k];
                        push_str(out, "0x");
                        push_ascii(out, lower_hex_digit(b / 16));
                        push_ascii(out, lower_hex_digit(b % 16));
                        proof {
                            let sub = bytes@.subrange(j as int, j + k + 1);
                            assert(sub.drop_last() =~= bytes@.subrange(j as int, j + k));
                            assert(sub.last() == b);
                            if k == 0 {
                                assert(sub.len() == 1);
                                assert(out@ =~= istart + byte_hex(b));
                                assert(bytes@.subrange(j as int, j as int) =~= Seq::<u8>::empty());
                                assert(hex_list(sub) == byte_hex(sub[0]));
                                assert(out@ =~= lstart + lit("    db ") + hex_list(sub));
                            } else {
                                assert(out@ =~= istart + lit(", ") + byte_hex(b));
                                assert(out@ =~= lstart + lit("    db ") + hex_list(sub));
                            }
                        }
                        k = k + 1;
                    }
                    push_ascii(out, 10);
                    proof {
                        let rest = bytes@.skip(j as int);
                        let n: int = if rest.len() < 16 {
                            rest.len() as int
                        } else {
                            16
                        };
                        assert(k == n);
                        assert(rest.take(n) =~= bytes@.subrange(j as int, j + k));
                        assert(rest.skip(n) =~= bytes@.skip(j + k));
                        assert(db_lines(rest) == lit("    db ") + hex_list(rest.take(n)) + seq![10u8] + db_lines(rest.skip(n)));
                        assert(out@ + db_lines(bytes@.skip(j + k)) =~= lstart + db_lines(rest));
                    }
                    if k == 0 {
                        j = bytes.len();
                    } else {
                        j = j + k;
                    }
                }
                proof {
                    assert(bytes@.skip(bytes@.len() as int) =~= Seq::<u8>::empty());
                    assert(out@ + Seq::<u8>::empty() =~= out@);
                }
            }
            proof {
                let es = self.entries@.take(i + 1);
                assert(es.drop_last() =~= self.entries@.take(i as int));
                assert(es.last() == self.entries@[i as int]);
                assert(out@ =~= before + data_entry_text(label@, bytes@));
                assert(out@ =~= head + data_entries_text(es));
            }
            i = i + 1;
        }
        proof {
            assert(self.entries@.take(self.entries@.len() as int) =~= self.entries@);
        }
        buffer
    }
}

fn lower_hex_digit(d: u8) -> (r: u8)
    requires
        d < 16,
    ensures
        r < 128,
        r == hex_lower(d as nat),
{
    if d < 10 {
        48 + d
    } else {
        87 + d
    }
}

// ---------------------------------------------------------------------------
// Per-function code generation
// ---------------------------------------------------------------------------

/// Where a System V argument is passed.
#[derive(Clone, Copy)]
enum Loc {
    /// Integer/pointer register (System V order).
    Int(&'static str),
    /// SSE register index (`xmmN`).
    Sse(u8),
    /// Stack slot at `[rsp + offset]`.
    Stack(u64),
}

/// Binary arithmetic operator for `add`/`sub`/`mul` over ints and floats.
#[derive(Clone, Copy)]
enum ArithOp {
    Add,
    Sub,
    Mul,
}

/// Comparison operator (result `i1`).
#[derive(Clone, Copy)]
pub enum CmpOp {
    Eq,
    Ne,
    Lt,
    Le,
    Gt,
    Ge,
}

/// The name of integer argument register `i` of the System V convention.
spec fn gp_register_text(i: usize) -> Seq<char> {
    if i == 0 {
        "rdi"@
    } else if i == 1 {
        "rsi"@
    } else if i == 2 {
        "rdx"@
    } else if i == 3 {
        "rcx"@
    } else if i == 4 {
        "r8"@
    } else {
        "r9"@
    }
}

/// The integer argument registers of the System V convention, in order.
fn gp_register(i: usize) -> (r: &'static str)
    requires
        i < 6,
    ensures
        r@ == gp_register_text(i),
{
    if i == 0 {
        "rdi"
    } else if i == 1 {
        "rsi"
    } else if i == 2 {
        "rdx"
    } else if i == 3 {
        "rcx"
    } else if i == 4 {
        "r8"
    } else {
        "r9"
    }
}

/// The frame slot reference `[rbp+d]` (or `[rbp-d]`).
spec fn mem_text(d: i32) -> Seq<char> {
    "[rbp"@ + (if d < 0 {
        ""@
    } else {
        "+"@
    }) + signed_chars(d as int) + "]"@
}

/// Where a slot for a value of type `ty` ends when `used` bytes of the
/// frame are taken: the aligned end, when size and alignment are known and
/// the end stays within the frame limit.
spec fn slot_end(types: Seq<TypeData>, used: u64, ty: TypeId) -> Option<int> {
    match (spec_size(types, ty, types.len() as nat), spec_align(types, ty, types.len() as nat)) {
        (Some(size), Some(align)) => {
            let s = size as u64;
            let a = align as u64;
            if used + s <= u64::MAX && used + s + a - 1 <= u64::MAX && spec_align_up(used + s, a as int) <= 0x7fff_fff0 {
                Some(spec_align_up(used + s, a as int))
            } else {
                None
            }
        },
        _ => None,
    }
}

/// Loading an integer of `bits` width from memory operand `m` into
/// register `reg`, sign- or zero-extended.
spec fn load_text(reg: Seq<char>, m: Seq<char>, bits: u32, signed: bool) -> Seq<char> {
    if bits == 64 {
        "    mov "@ + reg + ", qword "@ + m
    } else if bits == 32 {
        if signed {
            "    movsxd "@ + reg + ", dword "@ + m
        } else {
            "    mov "@ + subreg_text(reg, 4) + ", dword "@ + m
        }
    } else if bits == 16 {
        if signed {
            "    movsx "@ + reg + ", word "@ + m
        } else {
            "    movzx "@ + reg + ", word "@ + m
        }
    } else if signed && bits == 8 {
        "    movsx "@ + reg + ", byte "@ + m
    } else {
        "    movzx "@ + reg + ", byte "@ + m
    }
}

/// Storing the low `bits` of register `reg` to memory operand `m`.
spec fn store_text(m: Seq<char>, reg: Seq<char>, bits: u32) -> Seq<char> {
    let bytes = spec_int_bytes(bits) as u64;
    "    mov "@ + spec_size_kw(bytes) + " "@ + m + ", "@ + subreg_text(reg, bytes)
}

/// A float type: passed in SSE registers.
spec fn is_fp(m: Module, ty: TypeId) -> bool {
    m.types.spec_get(ty) matches Some(d) && spec_is_float(*d)
}

/// How many of `tys` are floats.
spec fn count_fp(m: Module, tys: Seq<TypeId>) -> nat
    decreases tys.len(),
{
    if tys.len() == 0 {
        0
    } else {
        count_fp(m, tys.drop_last()) + if is_fp(m, tys.last()) {
            1nat
        } else {
            0nat
        }
    }
}

/// How many of `tys` are not floats.
spec fn count_gp(m: Module, tys: Seq<TypeId>) -> nat
    decreases tys.len(),
{
    if tys.len() == 0 {
        0
    } else {
        count_gp(m, tys.drop_last()) + if is_fp(m, tys.last()) {
            0nat
        } else {
            1nat
        }
    }
}

/// How many of `tys` go to the stack: floats after eight SSE registers,
/// the others after six integer registers.
spec fn count_stacked(m: Module, tys: Seq<TypeId>) -> nat
    decreases tys.len(),
{
    if tys.len() == 0 {
        0
    } else {
        let pre = tys.drop_last();
        count_stacked(m, pre) + if (is_fp(m, tys.last()) && count_fp(m, pre) >= 8) || (!is_fp(m, tys.last())
            && count_gp(m, pre) >= 6) {
            1nat
        } else {
            0nat
        }
    }
}

/// `loc` is where System V passes the `k`-th of `tys`.
spec fn loc_of(m: Module, tys: Seq<TypeId>, k: int, loc: Loc) -> bool {
    let pre = tys.take(k);
    if is_fp(m, tys[k]) {
        if count_fp(m, pre) < 8 {
            loc == Loc::Sse(count_fp(m, pre) as u8)
        } else {
            loc == Loc::Stack((8 * count_stacked(m, pre)) as u64)
        }
    } else {
        if count_gp(m, pre) < 6 {
            loc matches Loc::Int(r) && r@ == gp_register_text(count_gp(m, pre) as usize)
        } else {
            loc == Loc::Stack((8 * count_stacked(m, pre)) as u64)
        }
    }
}

/// `ty` can be passed: a float, or a supported integer or pointer.
spec fn plan_admits(m: Module, ty: TypeId) -> bool {
    is_fp(m, ty) || (scalar_type(m, ty) && spec_supported(m.types.types@, ty, m.types.types@.len() as nat))
}

/// Every type can be passed, and the stack bytes fit in `u64`.
spec fn plan_possible(m: Module, tys: Seq<TypeId>) -> bool {
    &&& forall|k: int| 0 <= k < tys.len() ==> plan_admits(m, #[trigger] tys[k])
    &&& 8 * count_stacked(m, tys) <= u64::MAX
}

/// The counts of a prefix one longer.
proof fn lemma_counts_grow(m: Module, tys: Seq<TypeId>, i: int)
    requires
        0 <= i < tys.len(),
    ensures
        tys.take(i + 1).drop_last() == tys.take(i),
        count_fp(m, tys.take(i + 1)) == count_fp(m, tys.take(i)) + if is_fp(m, tys[i]) {
            1nat
        } else {
            0nat
        },
        count_gp(m, tys.take(i + 1)) == count_gp(m, tys.take(i)) + if is_fp(m, tys[i]) {
            0nat
        } else {
            1nat
        },
{
    assert(tys.take(i + 1).drop_last() =~= tys.take(i));
}

/// Stack use only grows along the list.
proof fn lemma_stacked_monotone(m: Module, tys: Seq<TypeId>, i: int)
    requires
        0 <= i <= tys.len(),
    ensures
        count_stacked(m, tys.take(i)) <= count_stacked(m, tys),
    decreases tys.len() - i,
{
    if i < tys.len() {
        lemma_stacked_monotone(m, tys, i + 1);
        assert(tys.take(i + 1).drop_last() =~= tys.take(i));
    } else {
        assert(tys.take(i) =~= tys);
    }
}

/// Lines of text, each followed by a line feed.
spec fn lines_text(ls: Seq<Seq<char>>) -> Seq<u8>
    decreases ls.len(),
{
    if ls.len() == 0 {
        Seq::empty()
    } else {
        lines_text(ls.drop_last()) + encode_utf8(ls.last()) + seq![10u8]
    }
}

/// The text of two runs of lines is the text of the first, then of the
/// second.
proof fn lemma_lines_text_concat(l1: Seq<Seq<char>>, l2: Seq<Seq<char>>)
    ensures
        lines_text(l1 + l2) == lines_text(l1) + lines_text(l2),
    decreases l2.len(),
{
    if l2.len() == 0 {
        assert(l1 + l2 =~= l1);
        assert(lines_text(l1) + Seq::<u8>::empty() =~= lines_text(l1));
    } else {
        lemma_lines_text_concat(l1, l2.drop_last());
        assert((l1 + l2).drop_last() =~= l1 + l2.drop_last());
        assert((l1 + l2).last() == l2.last());
        assert(lines_text(l1 + l2) =~= lines_text(l1) + lines_text(l2));
    }
}

/// Copying `size` bytes from `[rsi]` to `[rdi]`.
spec fn copy_bytes_lines(size: u64) -> Seq<Seq<char>> {
    seq!["    mov rcx, "@ + dec_chars(size as nat), "    cld"@, "    rep movsb"@]
}

/// Copying a value of type `ty` between two frame slots.
spec fn copy_slot_lines(m: Module, src: i32, ty: TypeId, dst: i32, size: u64) -> Seq<Seq<char>> {
    if aggregate_type(m, ty) {
        seq!["    lea rsi, "@ + mem_text(src), "    lea rdi, "@ + mem_text(dst)] + copy_bytes_lines(size)
    } else {
        let bits = (size * 8) as u32;
        seq![load_text("rax"@, mem_text(src), bits, false), store_text(mem_text(dst), "rax"@, bits)]
    }
}

/// Width and signedness an integer (or pointer) type is handled with.
spec fn int_info_of(m: Module, ty: TypeId) -> (u32, bool) {
    match m.types.spec_get(ty) {
        Some(TypeData::Int { bits, signed }) => (*bits, *signed && *bits > 1),
        _ => (64u32, false),
    }
}

/// Loading a float from a frame slot into an SSE register.
spec fn load_float_text(xmm: Seq<char>, d: i32, single: bool) -> Seq<char> {
    if single {
        "    movss "@ + xmm + ", dword "@ + mem_text(d)
    } else {
        "    movsd "@ + xmm + ", qword "@ + mem_text(d)
    }
}

/// Storing an SSE register to a frame slot.
spec fn store_float_text(xmm: Seq<char>, d: i32, single: bool) -> Seq<char> {
    if single {
        "    movss dword "@ + mem_text(d) + ", "@ + xmm
    } else {
        "    movsd qword "@ + mem_text(d) + ", "@ + xmm
    }
}

/// The mnemonic stem of an arithmetic operation on floats.
spec fn float_arith_stem(op: ArithOp) -> Seq<char> {
    match op {
        ArithOp::Add => "add"@,
        ArithOp::Sub => "sub"@,
        ArithOp::Mul => "mul"@,
    }
}

/// The mnemonic of an arithmetic operation on integers.
spec fn int_arith_mnemonic(op: ArithOp) -> Seq<char> {
    match op {
        ArithOp::Add => "add"@,
        ArithOp::Sub => "sub"@,
        ArithOp::Mul => "imul"@,
    }
}

/// A float type (of `f32` when `single`).
spec fn float_type(m: Module, ty: TypeId) -> bool {
    (ty.0 as int) < m.types.types@.len() && m.types.types@[ty.0 as int] is Float
}

spec fn f32_type(m: Module, ty: TypeId) -> bool {
    (ty.0 as int) < m.types.types@.len() && m.types.types@[ty.0 as int] == TypeData::Float(FloatKind::F32)
}

/// After the pointer is in `rax`: loading a value of type `ty` from it
/// into the frame slot at `dst`.
spec fn load_lines(m: Module, ty: TypeId, dst: i32) -> Seq<Seq<char>> {
    if aggregate_type(m, ty) {
        seq!["    mov rsi, rax"@, "    lea rdi, "@ + mem_text(dst)] + copy_bytes_lines(
            spec_size(m.types.types@, ty, m.types.types@.len() as nat)->0 as u64,
        )
    } else if float_type(m, ty) {
        let single = f32_type(m, ty);
        seq![
            if single {
                "    movss xmm0, dword [rax]"@
            } else {
                "    movsd xmm0, qword [rax]"@
            },
            store_float_text("xmm0"@, dst, single),
        ]
    } else {
        let info = int_info_of(m, ty);
        let l1 = load_text("rdx"@, "["@ + "rax"@ + "]"@, info.0, info.1);
        let mid = if info.0 == 1 {
            seq![l1, "    and edx, 1"@]
        } else {
            seq![l1]
        };
        mid.push(store_text(mem_text(dst), "rdx"@, info.0))
    }
}

/// After the pointer is in `rax`: storing the value of type `ty` in the
/// frame slot at `src` through it.
spec fn store_lines(m: Module, ty: TypeId, src: i32) -> Seq<Seq<char>> {
    if aggregate_type(m, ty) {
        seq!["    mov rdi, rax"@, "    lea rsi, "@ + mem_text(src)] + copy_bytes_lines(
            spec_size(m.types.types@, ty, m.types.types@.len() as nat)->0 as u64,
        )
    } else if float_type(m, ty) {
        let single = f32_type(m, ty);
        seq![
            load_float_text("xmm0"@, src, single),
            if single {
                "    movss dword [rax], xmm0"@
            } else {
                "    movsd qword [rax], xmm0"@
            },
        ]
    } else {
        let info = int_info_of(m, ty);
        seq![load_text("rdx"@, mem_text(src), info.0, info.1), store_text("["@ + "rax"@ + "]"@, "rdx"@, info.0)]
    }
}

/// Width of an integer type (64 for anything else).
spec fn int_bits_of(m: Module, ty: TypeId) -> u32 {
    match m.types.spec_get(ty) {
        Some(TypeData::Int { bits, .. }) => *bits,
        _ => 64u32,
    }
}

/// Pointer arithmetic: base plus the offset scaled by the element size.
spec fn ptr_offset_lines(base: Seq<char>, offset: Seq<char>, obits: u32, elem_size: u64, dst: Seq<char>) -> Seq<Seq<char>> {
    seq![load_text("rax"@, base, 64, false), load_text("rcx"@, offset, obits, true)] + (if elem_size <= 0x7fff_ffff {
        seq!["    imul rcx, "@ + dec_chars(elem_size as nat)]
    } else {
        seq!["    mov rdx, "@ + decode_utf8(lit("0x") + hex_digits(elem_size as nat)), "    imul rcx, rdx"@]
    }) + seq!["    add rax, rcx"@, store_text(dst, "rax"@, 64)]
}

/// The type of field `index` of aggregate `ty`.
spec fn field_ty(types: Seq<TypeData>, ty: TypeId, index: u64) -> Option<TypeId> {
    spec_field_type(types, ty, index)
}

/// The byte offset of field `index` of aggregate `ty`, as the backend
/// holds it.
spec fn field_off(types: Seq<TypeData>, ty: TypeId, index: u64) -> Option<u64> {
    match spec_field_offset(types, ty, index) {
        Some(o) => Some(o as u64),
        None => None,
    }
}

/// The size of type `ty`, when known.
spec fn size_or_zero(m: Module, ty: TypeId) -> u64 {
    match spec_size(m.types.types@, ty, m.types.types@.len() as nat) {
        Some(s) => s as u64,
        None => 0,
    }
}

/// Field `index` of aggregate `ty` at displacement `base` can be reached
/// and copied: it has a type of known size and an offset that keeps it in
/// the frame.
spec fn field_reachable(m: Module, ty: TypeId, index: u64, base: i32) -> bool {
    let types = m.types.types@;
    &&& field_ty(types, ty, index) matches Some(fty) && spec_size(types, fty, types.len() as nat) is Some
    &&& field_off(types, ty, index) matches Some(off) && off <= 0x7fff_ffff && base + off <= 0x7fff_ffff
}

/// The displacement of field `index` of aggregate `ty` at `base`.
spec fn field_disp(m: Module, ty: TypeId, index: u64, base: i32) -> i32 {
    (base + field_off(m.types.types@, ty, index)->0) as i32
}

/// Field `k` of the values `fields` can be placed in an aggregate of type
/// `ty` at `dst`.
spec fn construct_field_ok(m: Module, disp: Seq<i32>, ty: TypeId, fields: Seq<ValueId>, k: int, dst: i32) -> bool {
    (fields[k].0 as int) < disp.len() && field_reachable(m, ty, k as u64, dst)
}

/// Edge copies, first stage: argument `i` (of the first `n`) into scratch
/// slot `i` of the target.
spec fn edge_gather_lines(m: Module, disp: Seq<i32>, params: Seq<BlockParam>, scratch: Seq<i32>, args: Seq<ValueId>, n: int) -> Seq<Seq<char>>
    decreases n,
{
    if n <= 0 {
        Seq::empty()
    } else {
        edge_gather_lines(m, disp, params, scratch, args, n - 1) + copy_lines(
            m,
            disp[args[n - 1].0 as int],
            params[n - 1].ty,
            scratch[n - 1],
        )
    }
}

/// Edge copies, second stage: scratch slot `i` (of the first `n`) into the
/// slot of target parameter `i`.
spec fn edge_scatter_lines(m: Module, disp: Seq<i32>, params: Seq<BlockParam>, scratch: Seq<i32>, n: int) -> Seq<Seq<char>>
    decreases n,
{
    if n <= 0 {
        Seq::empty()
    } else {
        edge_scatter_lines(m, disp, params, scratch, n - 1) + copy_lines(
            m,
            scratch[n - 1],
            params[n - 1].ty,
            disp[params[n - 1].value.0 as int],
        )
    }
}

/// The arguments of an edge to block `target` can be passed.
spec fn edge_ok(m: Module, disp: Seq<i32>, scratch: Seq<Vec<i32>>, f: Function, target: int, args: Seq<ValueId>) -> bool {
    args.len() == 0 || (0 <= target < f.blocks@.len() && target < scratch.len() && args.len()
        <= f.blocks@[target].params@.len() && args.len() <= scratch[target]@.len() && forall|i: int|
        0 <= i < args.len() ==> #[trigger] edge_arg_ok(m, disp, f.blocks@[target].params@, args, i))
}

/// The copies of an edge to block `target`.
spec fn edge_lines(m: Module, disp: Seq<i32>, scratch: Seq<Vec<i32>>, f: Function, target: int, args: Seq<ValueId>) -> Seq<Seq<char>> {
    if args.len() == 0 {
        Seq::empty()
    } else {
        edge_gather_lines(m, disp, f.blocks@[target].params@, scratch[target]@, args, args.len() as int) + edge_scatter_lines(
            m,
            disp,
            f.blocks@[target].params@,
            scratch[target]@,
            args.len() as int,
        )
    }
}

/// Argument `i` of an edge can be passed to parameter `i` of the target.
spec fn edge_arg_ok(m: Module, disp: Seq<i32>, params: Seq<BlockParam>, args: Seq<ValueId>, i: int) -> bool {
    &&& (args[i].0 as int) < disp.len()
    &&& (params[i].value.0 as int) < disp.len()
    &&& spec_size(m.types.types@, params[i].ty, m.types.types@.len() as nat) is Some
}

/// Copying a value of type `fty` between two slots, with its size.
spec fn copy_lines(m: Module, src: i32, fty: TypeId, dst: i32) -> Seq<Seq<char>> {
    copy_slot_lines(m, src, fty, dst, size_or_zero(m, fty))
}

/// Building an aggregate of type `ty` at `dst` from the values in `fields`
/// (with slots `disp`), field after field.
spec fn construct_lines(m: Module, disp: Seq<i32>, ty: TypeId, fields: Seq<ValueId>, dst: i32) -> Seq<Seq<char>>
    decreases fields.len(),
{
    if fields.len() == 0 {
        Seq::empty()
    } else {
        let k = (fields.len() - 1) as u64;
        construct_lines(m, disp, ty, fields.drop_last(), dst) + copy_lines(
            m,
            disp[fields.last().0 as int],
            field_ty(m.types.types@, ty, k)->0,
            field_disp(m, ty, k, dst),
        )
    }
}

/// The label counter after one more label.
spec fn next_tmp(t: u64) -> u64 {
    if t < u64::MAX {
        (t + 1) as u64
    } else {
        t
    }
}

/// A local label of function `fname`: its name, a dot, `tag` and the
/// counter.
spec fn tmp_text(fname: Seq<char>, tag: Seq<char>, t: u64) -> Seq<char> {
    fname + "."@ + tag + dec_chars(t as nat)
}

/// A shift of `rax` by `rcx`, with counts of at least the width giving 0
/// (or all sign bits for an arithmetic right shift).
spec fn shift_lines(
    fname: Seq<char>,
    t: u64,
    lsrc: i32,
    rsrc: i32,
    dst: i32,
    bits: u32,
    signed: bool,
    count_bits: u32,
    is_left: bool,
) -> Seq<Seq<char>> {
    let special = tmp_text(fname, "shovf"@, next_tmp(t));
    let done = tmp_text(fname, "shdone"@, next_tmp(next_tmp(t)));
    seq![
        load_text("rax"@, mem_text(lsrc), bits, signed),
        load_text("rcx"@, mem_text(rsrc), count_bits, false),
        "    cmp rcx, "@ + dec_chars(bits as nat),
        "    jae "@ + special,
        if is_left {
            "    shl rax, cl"@
        } else if signed {
            "    sar rax, cl"@
        } else {
            "    shr rax, cl"@
        },
        "    jmp "@ + done,
        special + ":"@,
        if is_left || !signed {
            "    xor eax, eax"@
        } else {
            "    sar rax, 63"@
        },
        done + ":"@,
        store_text(mem_text(dst), "rax"@, bits),
    ]
}

/// Integer division of `rax` by `rcx` (quotient, or remainder when
/// `is_rem`); a signed 64-bit `MIN / -1` gives `MIN` and remainder 0.
spec fn int_div_lines(fname: Seq<char>, t: u64, lsrc: i32, rsrc: i32, dst: i32, bits: u32, signed: bool, is_rem: bool) -> Seq<Seq<char>> {
    let done = tmp_text(fname, "divdone"@, next_tmp(t));
    let normal = tmp_text(fname, "divnormal"@, next_tmp(next_tmp(t)));
    let body = if signed {
        (if bits == 64 {
            seq![
                "    cmp rcx, -1"@,
                "    jne "@ + normal,
                "    mov rdx, 0x8000000000000000"@,
                "    cmp rax, rdx"@,
                "    jne "@ + normal,
                "    xor edx, edx"@,
                "    jmp "@ + done,
                normal + ":"@,
            ]
        } else {
            Seq::empty()
        }) + seq!["    cqo"@, "    idiv rcx"@] + (if bits == 64 {
            seq![done + ":"@]
        } else {
            Seq::empty()
        })
    } else {
        seq!["    xor edx, edx"@, "    div rcx"@]
    };
    seq![load_text("rax"@, mem_text(lsrc), bits, signed), load_text("rcx"@, mem_text(rsrc), bits, signed)] + body + (if is_rem {
        seq!["    mov rax, rdx"@]
    } else {
        Seq::empty()
    }) + seq![store_text(mem_text(dst), "rax"@, bits)]
}

/// The label counter after an integer division.
spec fn div_tmp(t: u64, bits: u32, signed: bool) -> u64 {
    if signed {
        if bits == 64 {
            next_tmp(next_tmp(t))
        } else {
            next_tmp(t)
        }
    } else {
        t
    }
}

/// Setting `al` from the flags of a float comparison (`ucomis*`), false
/// on unordered operands except for `!=`.
pub open spec fn float_cmp_set(op: CmpOp) -> Seq<Seq<char>> {
    match op {
        CmpOp::Eq => seq!["    sete al"@, "    setnp cl"@, "    and al, cl"@],
        CmpOp::Ne => seq!["    setne al"@, "    setp cl"@, "    or al, cl"@],
        CmpOp::Lt => seq!["    setb al"@, "    setnp cl"@, "    and al, cl"@],
        CmpOp::Le => seq!["    setbe al"@, "    setnp cl"@, "    and al, cl"@],
        CmpOp::Gt => seq!["    seta al"@],
        CmpOp::Ge => seq!["    setae al"@],
    }
}

/// The `set*` instruction of an integer comparison.
pub open spec fn int_cmp_set(op: CmpOp, signed: bool) -> Seq<char> {
    match op {
        CmpOp::Eq => "sete"@,
        CmpOp::Ne => "setne"@,
        CmpOp::Lt => if signed {
            "setl"@
        } else {
            "setb"@
        },
        CmpOp::Le => if signed {
            "setle"@
        } else {
            "setbe"@
        },
        CmpOp::Gt => if signed {
            "setg"@
        } else {
            "seta"@
        },
        CmpOp::Ge => if signed {
            "setge"@
        } else {
            "setae"@
        },
    }
}

/// What comparison `op` of the IR means on two integers.
pub open spec fn cmp_meaning(op: CmpOp, x: int, y: int) -> bool {
    match op {
        CmpOp::Eq => x == y,
        CmpOp::Ne => x != y,
        CmpOp::Lt => x < y,
        CmpOp::Le => x <= y,
        CmpOp::Gt => x > y,
        CmpOp::Ge => x >= y,
    }
}

/// The 64-bit register contents of `x`, in two's complement when negative.
pub open spec fn reg_bits(x: int) -> int {
    if x < 0 {
        x + 0x1_0000_0000_0000_0000
    } else {
        x
    }
}

/// Register contents `r` read as a signed 64-bit value.
pub open spec fn reg_signed(r: int) -> int {
    if r < 0x8000_0000_0000_0000 {
        r
    } else {
        r - 0x1_0000_0000_0000_0000
    }
}

/// The flags `cmp a, b` sets on 64-bit registers holding `a` and `b`, as
/// the x86 manual defines them from the subtraction `a - b`: carry (an
/// unsigned borrow), zero, sign (the top bit of the 64-bit difference)
/// and overflow (the signed difference does not fit in 64 bits).
pub open spec fn cmp_flags(a: int, b: int) -> (bool, bool, bool, bool) {
    let diff = if a >= b {
        a - b
    } else {
        a - b + 0x1_0000_0000_0000_0000
    };
    let sd = reg_signed(a) - reg_signed(b);
    (a < b, a == b, diff >= 0x8000_0000_0000_0000, !(-0x8000_0000_0000_0000 <= sd < 0x8000_0000_0000_0000))
}

/// The byte `set<cc>` writes for flags `(cf, zf, sf, of)`, as the x86
/// manual defines each condition code (`None` for an unknown mnemonic).
pub open spec fn setcc_value(cc: Seq<char>, flags: (bool, bool, bool, bool)) -> Option<bool> {
    let (cf, zf, sf, of) = flags;
    if cc == "sete"@ {
        Some(zf)
    } else if cc == "setne"@ {
        Some(!zf)
    } else if cc == "setb"@ {
        Some(cf)
    } else if cc == "setbe"@ {
        Some(cf || zf)
    } else if cc == "seta"@ {
        Some(!cf && !zf)
    } else if cc == "setae"@ {
        Some(!cf)
    } else if cc == "setl"@ {
        Some(sf != of)
    } else if cc == "setle"@ {
        Some(zf || sf != of)
    } else if cc == "setg"@ {
        Some(!zf && sf == of)
    } else if cc == "setge"@ {
        Some(sf == of)
    } else {
        None
    }
}

/// The integer comparison lowering means the IR comparison: after the
/// operands are loaded into 64-bit registers (sign-extended for a signed
/// type, zero-extended for an unsigned one) and compared with `cmp`, the
/// `set*` instruction chosen for `op` writes 1 exactly when `op` holds
/// between the two values.
pub proof fn lemma_int_compare_lowering(op: CmpOp, signed: bool, x: int, y: int)
    requires
        signed ==> -0x8000_0000_0000_0000 <= x < 0x8000_0000_0000_0000 && -0x8000_0000_0000_0000 <= y < 0x8000_0000_0000_0000,
        !signed ==> 0 <= x < 0x1_0000_0000_0000_0000 && 0 <= y < 0x1_0000_0000_0000_0000,
    ensures
        setcc_value(int_cmp_set(op, signed), cmp_flags(reg_bits(x), reg_bits(y))) == Some(cmp_meaning(op, x, y)),
{
    lemma_setcc_names();
    let a = reg_bits(x);
    let b = reg_bits(y);
    let (cf, zf, sf, of) = cmp_flags(a, b);
    if signed {
        assert(reg_signed(a) == x);
        assert(reg_signed(b) == y);
        assert(sf != of <==> x < y);
    } else {
        assert(cf <==> x < y);
    }
    assert(zf <==> x == y);
}

/// How `ucomiss`/`ucomisd` finds its first operand against its second.
pub enum FloatOrder {
    Less,
    Equal,
    Greater,
    Unordered,
}

/// The flags `(zf, pf, cf)` that `ucomis*` sets for each outcome, as the
/// x86 manual defines them.
pub open spec fn ucomi_flags(o: FloatOrder) -> (bool, bool, bool) {
    match o {
        FloatOrder::Unordered => (true, true, true),
        FloatOrder::Greater => (false, false, false),
        FloatOrder::Less => (false, false, true),
        FloatOrder::Equal => (true, false, false),
    }
}

/// What float comparison `op` of the IR means for an outcome: every
/// comparison is false on unordered operands (a NaN) but `!=`, which is
/// true.
pub open spec fn float_cmp_meaning(op: CmpOp, o: FloatOrder) -> bool {
    match op {
        CmpOp::Eq => o == FloatOrder::Equal,
        CmpOp::Ne => o != FloatOrder::Equal,
        CmpOp::Lt => o == FloatOrder::Less,
        CmpOp::Le => o == FloatOrder::Less || o == FloatOrder::Equal,
        CmpOp::Gt => o == FloatOrder::Greater,
        CmpOp::Ge => o == FloatOrder::Greater || o == FloatOrder::Equal,
    }
}

/// One line that combines flags `(zf, pf, cf)` into `al` and `cl`, as the
/// x86 manual defines `set<cc>`, `and` and `or` (`None` for another line).
pub open spec fn flag_step(line: Seq<char>, fl: (bool, bool, bool), st: (bool, bool)) -> Option<(bool, bool)> {
    let (zf, pf, cf) = fl;
    let (al, cl) = st;
    if line == "    sete al"@ {
        Some((zf, cl))
    } else if line == "    setne al"@ {
        Some((!zf, cl))
    } else if line == "    setb al"@ {
        Some((cf, cl))
    } else if line == "    setbe al"@ {
        Some((cf || zf, cl))
    } else if line == "    seta al"@ {
        Some((!cf && !zf, cl))
    } else if line == "    setae al"@ {
        Some((!cf, cl))
    } else if line == "    setnp cl"@ {
        Some((al, !pf))
    } else if line == "    setp cl"@ {
        Some((al, pf))
    } else if line == "    and al, cl"@ {
        Some((al && cl, cl))
    } else if line == "    or al, cl"@ {
        Some((al || cl, cl))
    } else {
        None
    }
}

/// Running flag lines from registers `st`: the final `(al, cl)`.
pub open spec fn run_flag_lines(lines: Seq<Seq<char>>, fl: (bool, bool, bool), st: (bool, bool)) -> Option<(bool, bool)>
    decreases lines.len(),
{
    if lines.len() == 0 {
        Some(st)
    } else {
        match flag_step(lines[0], fl, st) {
            Some(next) => run_flag_lines(lines.drop_first(), fl, next),
            None => None,
        }
    }
}

/// The float comparison lowering means the IR comparison: whatever `al`
/// and `cl` held, running the lines chosen for `op` on the flags `ucomis*`
/// sets leaves `al` true exactly when `op` holds for that outcome.
pub proof fn lemma_float_compare_lowering(op: CmpOp, o: FloatOrder, al0: bool, cl0: bool)
    ensures
        run_flag_lines(float_cmp_set(op), ucomi_flags(o), (al0, cl0)) matches Some((al, _)) && al == float_cmp_meaning(op, o),
{
    lemma_flag_line_names();
    reveal_with_fuel(run_flag_lines, 4);
    let lines = float_cmp_set(op);
    let fl = ucomi_flags(o);
    if lines.len() == 3 {
        assert(lines.drop_first().drop_first().drop_first().len() == 0);
        assert(lines.drop_first()[0] == lines[1]);
        assert(lines.drop_first().drop_first()[0] == lines[2]);
    } else {
        assert(lines.drop_first().len() == 0);
    }
}

/// The lines that combine flags are pairwise distinct.
proof fn lemma_flag_line_names()
    ensures
        "    sete al"@ != "    setne al"@ && "    sete al"@ != "    setb al"@ && "    sete al"@ != "    setbe al"@ && "    sete al"@
            != "    seta al"@ && "    sete al"@ != "    setae al"@ && "    sete al"@ != "    setnp cl"@ && "    sete al"@ != "    setp cl"@
            && "    sete al"@ != "    and al, cl"@ && "    sete al"@ != "    or al, cl"@,
        "    setne al"@ != "    setb al"@ && "    setne al"@ != "    setbe al"@ && "    setne al"@ != "    seta al"@ && "    setne al"@
            != "    setae al"@ && "    setne al"@ != "    setnp cl"@ && "    setne al"@ != "    setp cl"@ && "    setne al"@
            != "    and al, cl"@ && "    setne al"@ != "    or al, cl"@,
        "    setb al"@ != "    setbe al"@ && "    setb al"@ != "    seta al"@ && "    setb al"@ != "    setae al"@ && "    setb al"@
            != "    setnp cl"@ && "    setb al"@ != "    setp cl"@ && "    setb al"@ != "    and al, cl"@ && "    setb al"@
            != "    or al, cl"@,
        "    setbe al"@ != "    seta al"@ && "    setbe al"@ != "    setae al"@ && "    setbe al"@ != "    setnp cl"@ && "    setbe al"@
            != "    setp cl"@ && "    setbe al"@ != "    and al, cl"@ && "    setbe al"@ != "    or al, cl"@,
        "    seta al"@ != "    setae al"@ && "    seta al"@ != "    setnp cl"@ && "    seta al"@ != "    setp cl"@ && "    seta al"@
            != "    and al, cl"@ && "    seta al"@ != "    or al, cl"@,
        "    setae al"@ != "    setnp cl"@ && "    setae al"@ != "    setp cl"@ && "    setae al"@ != "    and al, cl"@ && "    setae al"@
            != "    or al, cl"@,
        "    setnp cl"@ != "    setp cl"@ && "    setnp cl"@ != "    and al, cl"@ && "    setnp cl"@ != "    or al, cl"@,
        "    setp cl"@ != "    and al, cl"@ && "    setp cl"@ != "    or al, cl"@,
        "    and al, cl"@ != "    or al, cl"@,
{
    reveal_strlit("    sete al");
    reveal_strlit("    setne al");
    reveal_strlit("    setb al");
    reveal_strlit("    setbe al");
    reveal_strlit("    seta al");
    reveal_strlit("    setae al");
    reveal_strlit("    setnp cl");
    reveal_strlit("    setp cl");
    reveal_strlit("    and al, cl");
    reveal_strlit("    or al, cl");
    assert("    sete al"@.len() == 11 && "    setb al"@.len() == 11 && "    seta al"@.len() == 11 && "    setp cl"@.len() == 11);
    assert("    setne al"@.len() == 12 && "    setbe al"@.len() == 12 && "    setae al"@.len() == 12 && "    setnp cl"@.len() == 12);
    assert("    and al, cl"@.len() == 14 && "    or al, cl"@.len() == 13);
    assert("    sete al"@[7] == 'e' && "    setb al"@[7] == 'b' && "    seta al"@[7] == 'a' && "    setp cl"@[7] == 'p');
    assert("    setne al"@[7] == 'n' && "    setbe al"@[7] == 'b' && "    setae al"@[7] == 'a' && "    setnp cl"@[7] == 'n');
    assert("    setne al"@[8] == 'e' && "    setnp cl"@[8] == 'p');
}

/// Type `ty` of `m` is the integer type of `bits` width and signedness.
spec fn int_type_is(m: Module, ty: TypeId, bits: u32, signed: bool) -> bool {
    (ty.0 as int) < m.types.types@.len() && m.types.types@[ty.0 as int] == (TypeData::Int { bits, signed })
}

/// An integer comparison loads the left operand into `rax` and the right
/// one into `rcx`, each extended as the type's signedness asks (an `i1` is
/// a 0 or 1 and reads unsigned), compares them with `cmp rax, rcx`, and
/// sets `al` with the condition [`lemma_int_compare_lowering`] shows means
/// `op` for that same signedness.
proof fn lemma_int_compare_lines(m: Module, ty: TypeId, bits: u32, signed: bool, op: CmpOp, lsrc: i32, rsrc: i32, dst: i32)
    requires
        int_type_is(m, ty, bits, signed),
    ensures
        compare_lines(m, ty, op, lsrc, rsrc, dst)[0] == load_text("rax"@, mem_text(lsrc), bits, signed && bits > 1),
        compare_lines(m, ty, op, lsrc, rsrc, dst)[1] == load_text("rcx"@, mem_text(rsrc), bits, signed && bits > 1),
        compare_lines(m, ty, op, lsrc, rsrc, dst)[2] == "    cmp rax, rcx"@,
        compare_lines(m, ty, op, lsrc, rsrc, dst)[3] == "    "@ + int_cmp_set(op, signed && bits > 1) + " al"@,
{
    assert(!float_type(m, ty));
    assert(int_info_of(m, ty) == (bits, signed && bits > 1));
}

/// A float comparison loads the left operand into `xmm0` and the right one
/// into `xmm1`, compares them with `ucomis*` (`ss` for `f32`), so that the
/// outcome is the left operand's against the right one, and then runs the
/// flag lines [`lemma_float_compare_lowering`] shows mean `op`.
proof fn lemma_float_compare_lines(m: Module, ty: TypeId, op: CmpOp, lsrc: i32, rsrc: i32, dst: i32)
    requires
        float_type(m, ty),
    ensures
        compare_lines(m, ty, op, lsrc, rsrc, dst) == seq![
            load_float_text("xmm0"@, lsrc, f32_type(m, ty)),
            load_float_text("xmm1"@, rsrc, f32_type(m, ty)),
            "    ucomi"@ + (if f32_type(m, ty) {
                "ss"@
            } else {
                "sd"@
            }) + " xmm0, xmm1"@,
        ] + float_cmp_set(op) + seq![store_text(mem_text(dst), "rax"@, 8)],
{
}

/// The condition-code mnemonics are pairwise distinct.
proof fn lemma_setcc_names()
    ensures
        "sete"@ != "setne"@ && "sete"@ != "setb"@ && "sete"@ != "setbe"@ && "sete"@ != "seta"@ && "sete"@ != "setae"@
            && "sete"@ != "setl"@ && "sete"@ != "setle"@ && "sete"@ != "setg"@ && "sete"@ != "setge"@,
        "setne"@ != "setb"@ && "setne"@ != "setbe"@ && "setne"@ != "seta"@ && "setne"@ != "setae"@ && "setne"@ != "setl"@
            && "setne"@ != "setle"@ && "setne"@ != "setg"@ && "setne"@ != "setge"@,
        "setb"@ != "setbe"@ && "setb"@ != "seta"@ && "setb"@ != "setae"@ && "setb"@ != "setl"@ && "setb"@ != "setle"@
            && "setb"@ != "setg"@ && "setb"@ != "setge"@,
        "setbe"@ != "seta"@ && "setbe"@ != "setae"@ && "setbe"@ != "setl"@ && "setbe"@ != "setle"@ && "setbe"@ != "setg"@
            && "setbe"@ != "setge"@,
        "seta"@ != "setae"@ && "seta"@ != "setl"@ && "seta"@ != "setle"@ && "seta"@ != "setg"@ && "seta"@ != "setge"@,
        "setae"@ != "setl"@ && "setae"@ != "setle"@ && "setae"@ != "setg"@ && "setae"@ != "setge"@,
        "setl"@ != "setle"@ && "setl"@ != "setg"@ && "setl"@ != "setge"@,
        "setle"@ != "setg"@ && "setle"@ != "setge"@,
        "setg"@ != "setge"@,
{
    reveal_strlit("sete");
    reveal_strlit("setne");
    reveal_strlit("setb");
    reveal_strlit("setbe");
    reveal_strlit("seta");
    reveal_strlit("setae");
    reveal_strlit("setl");
    reveal_strlit("setle");
    reveal_strlit("setg");
    reveal_strlit("setge");
    assert("sete"@[3] == 'e' && "setne"@[3] == 'n' && "setb"@[3] == 'b' && "setbe"@[3] == 'b' && "seta"@[3] == 'a');
    assert("setae"@[3] == 'a' && "setl"@[3] == 'l' && "setle"@[3] == 'l' && "setg"@[3] == 'g' && "setge"@[3] == 'g');
    assert("sete"@.len() == 4 && "setb"@.len() == 4 && "seta"@.len() == 4 && "setl"@.len() == 4 && "setg"@.len() == 4);
    assert("setne"@.len() == 5 && "setbe"@.len() == 5 && "setae"@.len() == 5 && "setle"@.len() == 5 && "setge"@.len() == 5);
}

/// A comparison of the values in two slots, its `i1` result stored at
/// `dst`.
spec fn compare_lines(m: Module, ty: TypeId, op: CmpOp, lsrc: i32, rsrc: i32, dst: i32) -> Seq<Seq<char>> {
    (if float_type(m, ty) {
        let single = f32_type(m, ty);
        seq![
            load_float_text("xmm0"@, lsrc, single),
            load_float_text("xmm1"@, rsrc, single),
            "    ucomi"@ + (if single {
                "ss"@
            } else {
                "sd"@
            }) + " xmm0, xmm1"@,
        ] + float_cmp_set(op)
    } else {
        let info = int_info_of(m, ty);
        seq![
            load_text("rax"@, mem_text(lsrc), info.0, info.1),
            load_text("rcx"@, mem_text(rsrc), info.0, info.1),
            "    cmp rax, rcx"@,
            "    "@ + int_cmp_set(op, info.1) + " al"@,
        ]
    }) + seq![store_text(mem_text(dst), "rax"@, 8)]
}

/// Converting the integer in the slot at `src` to a float stored at `dst`
/// (`f32` when `single`); unsigned 64-bit values above the signed range
/// are halved (keeping the low bit) and doubled back.
spec fn int_to_float_lines(fname: Seq<char>, t: u64, src: i32, dst: i32, bits: u32, signed: bool, single: bool) -> Seq<Seq<char>> {
    let suffix = if single {
        "ss"@
    } else {
        "sd"@
    };
    let cvt = "    cvtsi2"@ + suffix + " xmm0, rax"@;
    let big = tmp_text(fname, "u2f"@, next_tmp(t));
    let done = tmp_text(fname, "u2fd"@, next_tmp(next_tmp(t)));
    (if signed {
        seq![load_text("rax"@, mem_text(src), bits, true), cvt]
    } else if bits < 64 {
        seq![load_text("rax"@, mem_text(src), bits, false), cvt]
    } else {
        u64_to_float_body(fname, t, src, single)
    }) + seq![store_float_text("xmm0"@, dst, single)]
}

/// The conversion of an unsigned 64-bit value at `src` to a float in
/// `xmm0`, through halving when it is above the signed range.
spec fn u64_to_float_body(fname: Seq<char>, t: u64, src: i32, single: bool) -> Seq<Seq<char>> {
    let suffix = if single {
        "ss"@
    } else {
        "sd"@
    };
    let big = tmp_text(fname, "u2f"@, next_tmp(t));
    let done = tmp_text(fname, "u2fd"@, next_tmp(next_tmp(t)));
    seq![
        load_text("rax"@, mem_text(src), 64, false),
        "    test rax, rax"@,
        "    js "@ + big,
        "    cvtsi2"@ + suffix + " xmm0, rax"@,
        "    jmp "@ + done,
        big + ":"@,
        "    mov rcx, rax"@,
        "    shr rcx, 1"@,
        "    and eax, 1"@,
        "    or rcx, rax"@,
        "    cvtsi2"@ + suffix + " xmm0, rcx"@,
        "    add"@ + suffix + " xmm0, xmm0"@,
        done + ":"@,
    ]
}

/// The label of block `b` of function `fname`.
spec fn block_label_text(fname: Seq<char>, b: int) -> Seq<char> {
    fname + ".bb"@ + dec_chars(b as nat)
}

/// A terminator can be lowered: its edges can be passed, its condition and
/// returned value have slots, and no aggregate is returned.
spec fn term_ok(m: Module, disp: Seq<i32>, scratch: Seq<Vec<i32>>, f: Function, term: Terminator) -> bool {
    match term {
        Terminator::Jump { target, args } => edge_ok(m, disp, scratch, f, target.0 as int, args@),
        Terminator::Branch { condition, then_block, then_args, else_block, else_args } => (condition.0 as int) < disp.len()
            && edge_ok(m, disp, scratch, f, then_block.0 as int, then_args@) && edge_ok(
            m,
            disp,
            scratch,
            f,
            else_block.0 as int,
            else_args@,
        ),
        Terminator::Return { value } => match value {
            Some(v) => (v.0 as int) < f.values@.len() && (v.0 as int) < disp.len() && !aggregate_type(
                m,
                f.values@[v.0 as int].ty,
            ),
            None => true,
        },
        Terminator::Unreachable => true,
    }
}

/// The lines of a lowered terminator.
spec fn term_lines(m: Module, disp: Seq<i32>, scratch: Seq<Vec<i32>>, fname: Seq<char>, t: u64, f: Function, term: Terminator) -> Seq<Seq<char>> {
    match term {
        Terminator::Jump { target, args } => edge_lines(m, disp, scratch, f, target.0 as int, args@) + seq![
            "    jmp "@ + block_label_text(fname, target.0 as int),
        ],
        Terminator::Branch { condition, then_block, then_args, else_block, else_args } => {
            let else_label = tmp_text(fname, "else"@, next_tmp(t));
            seq!["    cmp byte "@ + mem_text(disp[condition.0 as int]) + ", 0"@, "    je "@ + else_label] + edge_lines(
                m,
                disp,
                scratch,
                f,
                then_block.0 as int,
                then_args@,
            ) + seq!["    jmp "@ + block_label_text(fname, then_block.0 as int), else_label + ":"@] + edge_lines(
                m,
                disp,
                scratch,
                f,
                else_block.0 as int,
                else_args@,
            ) + seq!["    jmp "@ + block_label_text(fname, else_block.0 as int)]
        },
        Terminator::Return { value } => (match value {
            Some(v) => {
                let ty = f.values@[v.0 as int].ty;
                if float_type(m, ty) {
                    seq![load_float_text("xmm0"@, disp[v.0 as int], f32_type(m, ty))]
                } else {
                    let info = int_info_of(m, ty);
                    seq![load_text("rax"@, mem_text(disp[v.0 as int]), info.0, info.1)]
                }
            },
            None => Seq::empty(),
        }) + seq!["    leave"@, "    ret"@],
        Terminator::Unreachable => seq!["    ud2"@],
    }
}

struct FuncGen {
    out: Vec<u8>,
    rodata: Rodata,
    fname: String,
    /// `disp[i]` is the `rbp` displacement of value `i`'s slot.
    disp: Vec<i32>,
    /// Storage of each `alloca`, keyed by result value; the last entry for
    /// a key wins.
    alloca: Vec<(u32, i32)>,
    /// Per-block scratch slots used for parallel edge copies.
    scratch: Vec<Vec<i32>>,
    frame_size: u64,
    tmp: u64,
}

fn emit_line(out: &mut Vec<u8>, parts: &[&str])
    requires
        valid_utf8(old(out)@),
    ensures
        valid_utf8(final(out)@),
        final(out)@ == old(out)@ + concat_bytes(parts@) + seq![10u8],
{
    let ghost start = out@;
    let mut i: usize = 0;
    proof {
        assert(parts@.subrange(0, 0) =~= Seq::<&str>::empty());
    }
    while i < parts.len()
        invariant
            i <= parts@.len(),
            valid_utf8(out@),
            out@ == start + concat_bytes(parts@.subrange(0, i as int)),
        decreases parts@.len() - i,
    {
        push_str(out, parts[i]);
        proof {
            assert(parts@.subrange(0, i + 1).drop_last() =~= parts@.subrange(0, i as int));
            assert(out@ =~= start + concat_bytes(parts@.subrange(0, i + 1)));
        }
        i = i + 1;
    }
    proof {
        assert(parts@.subrange(0, parts@.len() as int) =~= parts@);
    }
    push_ascii(out, 10);
}

fn invalid(parts: &[&str]) -> (r: BackendError)
    ensures
        r is InvalidModule,
{
    BackendError::InvalidModule { reason: join(parts) }
}

impl FuncGen {
    spec fn ok(&self) -> bool {
        valid_utf8(self.out@)
    }

    /// `new` is `old` with the line `text` appended to the output.
    spec fn emitted(old: &FuncGen, new: &FuncGen, text: Seq<char>) -> bool {
        &&& new.out@ == old.out@ + encode_utf8(text) + seq![10u8]
        &&& new.rodata == old.rodata
        &&& new.fname == old.fname
        &&& new.disp == old.disp
        &&& new.alloca == old.alloca
        &&& new.scratch == old.scratch
        &&& new.frame_size == old.frame_size
        &&& new.tmp == old.tmp
    }

    /// `new` is `old` with the lines `ls` appended to the output.
    spec fn emitted_lines(old: &FuncGen, new: &FuncGen, ls: Seq<Seq<char>>) -> bool {
        &&& new.out@ == old.out@ + lines_text(ls)
        &&& new.rodata == old.rodata
        &&& new.fname == old.fname
        &&& new.disp == old.disp
        &&& new.alloca == old.alloca
        &&& new.scratch == old.scratch
        &&& new.frame_size == old.frame_size
        &&& new.tmp == old.tmp
    }

    proof fn lemma_no_lines(g: &FuncGen)
        ensures
            Self::emitted_lines(g, g, Seq::empty()),
    {
        assert(g.out@ + lines_text(Seq::empty()) =~= g.out@);
    }

    proof fn lemma_lines_concat(a: &FuncGen, b: &FuncGen, c: &FuncGen, l1: Seq<Seq<char>>, l2: Seq<Seq<char>>)
        requires
            Self::emitted_lines(a, b, l1),
            Self::emitted_lines(b, c, l2),
        ensures
            Self::emitted_lines(a, c, l1 + l2),
        decreases l2.len(),
    {
        lemma_lines_text_concat(l1, l2);
        assert(c.out@ =~= a.out@ + lines_text(l1 + l2));
    }

    /// `new` is `old` with the lines `ls` appended to the output; only the
    /// label counter may also have moved.
    spec fn wrote(old: &FuncGen, new: &FuncGen, ls: Seq<Seq<char>>) -> bool {
        &&& new.out@ == old.out@ + lines_text(ls)
        &&& new.rodata == old.rodata
        &&& new.fname == old.fname
        &&& new.disp == old.disp
        &&& new.alloca == old.alloca
        &&& new.scratch == old.scratch
        &&& new.frame_size == old.frame_size
    }

    proof fn lemma_wrote_start(g: &FuncGen)
        ensures
            Self::wrote(g, g, Seq::empty()),
    {
        assert(g.out@ + lines_text(Seq::empty()) =~= g.out@);
    }

    proof fn lemma_wrote_line(a: &FuncGen, b: &FuncGen, c: &FuncGen, ls: Seq<Seq<char>>, t: Seq<char>)
        requires
            Self::wrote(a, b, ls),
            Self::emitted(b, c, t),
        ensures
            Self::wrote(a, c, ls.push(t)),
    {
        assert(ls.push(t).drop_last() =~= ls);
        assert(c.out@ =~= a.out@ + lines_text(ls.push(t)));
    }

    proof fn lemma_wrote_concat(a: &FuncGen, b: &FuncGen, c: &FuncGen, l1: Seq<Seq<char>>, l2: Seq<Seq<char>>)
        requires
            Self::wrote(a, b, l1),
            Self::wrote(b, c, l2),
        ensures
            Self::wrote(a, c, l1 + l2),
    {
        lemma_lines_text_concat(l1, l2);
        assert(c.out@ =~= a.out@ + lines_text(l1 + l2));
    }

    proof fn lemma_wrote_label(a: &FuncGen, b: &FuncGen, c: &FuncGen, ls: Seq<Seq<char>>)
        requires
            Self::wrote(a, b, ls),
            c.out == b.out,
            c.rodata == b.rodata,
            c.fname == b.fname,
            c.disp == b.disp,
            c.alloca == b.alloca,
            c.scratch == b.scratch,
            c.frame_size == b.frame_size,
        ensures
            Self::wrote(a, c, ls),
    {
    }

    proof fn lemma_single(a: &FuncGen, b: &FuncGen, t: Seq<char>)
        requires
            Self::emitted(a, b, t),
        ensures
            Self::emitted_lines(a, b, seq![t]),
    {
        Self::lemma_no_lines(a);
        Self::lemma_one_more(a, a, b, Seq::empty(), t);
        assert(Seq::<Seq<char>>::empty().push(t) =~= seq![t]);
    }

    proof fn lemma_three(a: &FuncGen, b: &FuncGen, c: &FuncGen, d: &FuncGen, t1: Seq<char>, t2: Seq<char>, t3: Seq<char>)
        requires
            Self::emitted(a, b, t1),
            Self::emitted(b, c, t2),
            Self::emitted(c, d, t3),
        ensures
            Self::emitted_lines(a, d, seq![t1, t2, t3]),
    {
        Self::lemma_single(a, b, t1);
        Self::lemma_one_more(a, b, c, seq![t1], t2);
        assert(seq![t1].push(t2) =~= seq![t1, t2]);
        Self::lemma_one_more(a, c, d, seq![t1, t2], t3);
        assert(seq![t1, t2].push(t3) =~= seq![t1, t2, t3]);
    }

    proof fn lemma_two_more(a: &FuncGen, b: &FuncGen, c: &FuncGen, d: &FuncGen, t1: Seq<char>, t2: Seq<char>)
        requires
            exists|ls: Seq<Seq<char>>| Self::emitted_lines(a, b, ls),
            Self::emitted(b, c, t1),
            Self::emitted(c, d, t2),
        ensures
            forall|ls: Seq<Seq<char>>| Self::emitted_lines(a, b, ls) ==> Self::emitted_lines(a, d, ls + seq![t1, t2]),
    {
        assert forall|ls: Seq<Seq<char>>| Self::emitted_lines(a, b, ls) implies Self::emitted_lines(a, d, ls + seq![t1, t2]) by {
            Self::lemma_one_more(a, b, c, ls, t1);
            Self::lemma_one_more(a, c, d, ls.push(t1), t2);
            assert(ls.push(t1).push(t2) =~= ls + seq![t1, t2]);
        }
    }

    proof fn lemma_four(
        a: &FuncGen,
        b: &FuncGen,
        c: &FuncGen,
        d: &FuncGen,
        e: &FuncGen,
        t1: Seq<char>,
        t2: Seq<char>,
        t3: Seq<char>,
        t4: Seq<char>,
    )
        requires
            Self::emitted(a, b, t1),
            Self::emitted(b, c, t2),
            Self::emitted(c, d, t3),
            Self::emitted(d, e, t4),
        ensures
            Self::emitted_lines(a, e, seq![t1, t2, t3, t4]),
    {
        Self::lemma_no_lines(a);
        Self::lemma_one_more(a, a, b, Seq::empty(), t1);
        Self::lemma_one_more(a, b, c, seq![t1], t2);
        assert(seq![t1].push(t2) =~= seq![t1, t2]);
        Self::lemma_one_more(a, c, d, seq![t1, t2], t3);
        assert(seq![t1, t2].push(t3) =~= seq![t1, t2, t3]);
        Self::lemma_one_more(a, d, e, seq![t1, t2, t3], t4);
        assert(seq![t1, t2, t3].push(t4) =~= seq![t1, t2, t3, t4]);
    }

    /// Both operands and the result of `inst` have slots, and `lhs` is a
    /// value of `f`.
    spec fn binary_ok(&self, f: Function, lhs: ValueId, rhs: ValueId, inst: Instruction) -> bool {
        &&& (lhs.0 as int) < self.disp@.len()
        &&& (lhs.0 as int) < f.values@.len()
        &&& (rhs.0 as int) < self.disp@.len()
        &&& inst.result matches Some(v) && (v.0 as int) < self.disp@.len()
    }

    /// Slot text of value `v`.
    spec fn slot_text(&self, v: ValueId) -> Seq<char> {
        mem_text(self.disp@[v.0 as int])
    }

    /// Integer binary operation: both operands into `rax` and `rcx`, the
    /// operation line, the result from `rax`.
    spec fn int_binary_lines(&self, m: Module, f: Function, lhs: ValueId, rhs: ValueId, inst: Instruction, op: Seq<char>) -> Seq<Seq<char>> {
        let info = int_info_of(m, f.values@[lhs.0 as int].ty);
        seq![
            load_text("rax"@, self.slot_text(lhs), info.0, info.1),
            load_text("rcx"@, self.slot_text(rhs), info.0, info.1),
            op,
            store_text(self.slot_text(inst.result->0), "rax"@, info.0),
        ]
    }

    proof fn lemma_one_more(a: &FuncGen, b: &FuncGen, c: &FuncGen, ls: Seq<Seq<char>>, t: Seq<char>)
        requires
            Self::emitted_lines(a, b, ls),
            Self::emitted(b, c, t),
        ensures
            Self::emitted_lines(a, c, ls.push(t)),
    {
        assert(ls.push(t).drop_last() =~= ls);
        assert(c.out@ =~= a.out@ + lines_text(ls.push(t)));
    }

    /// Appends the line `text`.
    fn line_text(&mut self, text: &str)
        requires
            old(self).ok(),
        ensures
            final(self).ok(),
            Self::emitted(old(self), final(self), text@),
    {
        let ghost start = self.out@;
        push_str(&mut self.out, text);
        push_ascii(&mut self.out, 10);
        proof {
            assert(self.out@ =~= start + encode_utf8(text@) + seq![10u8]);
        }
    }

    fn line(&mut self, parts: &[&str])
        requires
            old(self).ok(),
        ensures
            final(self).ok(),
            final(self).out@ == old(self).out@ + concat_bytes(parts@) + seq![10u8],
            final(self).rodata == old(self).rodata,
            final(self).fname == old(self).fname,
            final(self).disp == old(self).disp,
            final(self).alloca == old(self).alloca,
            final(self).scratch == old(self).scratch,
            final(self).frame_size == old(self).frame_size,
            final(self).tmp == old(self).tmp,
    {
        emit_line(&mut self.out, parts);
    }

    fn mem(&self, d: i32) -> (r: String)
        ensures
            r@ == mem_text(d),
    {
        let n = signed_text(d as i64);
        let sign = if d < 0 {
            ""
        } else {
            "+"
        };
        cat4("[rbp", sign, n.as_str(), "]")
    }

    fn tmp_label(&mut self, tag: &str) -> (r: String)
        requires
            old(self).ok(),
        ensures
            final(self).ok(),
            final(self).tmp == (if old(self).tmp < u64::MAX {
                old(self).tmp + 1
            } else {
                old(self).tmp as int
            }),
            r@ == old(self).fname@ + "."@ + tag@ + dec_chars(final(self).tmp as nat),
            final(self).out == old(self).out,
            final(self).rodata == old(self).rodata,
            final(self).fname == old(self).fname,
            final(self).disp == old(self).disp,
            final(self).alloca == old(self).alloca,
            final(self).scratch == old(self).scratch,
            final(self).frame_size == old(self).frame_size,
    {
        if self.tmp < u64::MAX {
            self.tmp = self.tmp + 1;
        }
        let n = dec_string(self.tmp as u128);
        cat4(self.fname.as_str(), ".", tag, n.as_str())
    }

    fn block_label(&self, block: usize) -> (r: String)
        ensures
            r@ == self.fname@ + ".bb"@ + dec_chars(block as nat),
    {
        let n = dec_string(block as u128);
        cat3(self.fname.as_str(), ".bb", n.as_str())
    }

    fn slot(&self, v: ValueId) -> (r: Result<i32, BackendError>)
        ensures
            r is Ok <==> (v.0 as int) < self.disp@.len(),
            r matches Ok(d) ==> d == self.disp@[v.0 as int],
            r matches Err(e) ==> e is InvalidModule,
    {
        if v.index() < self.disp.len() {
            Ok(self.disp[v.index()])
        } else {
            let n = dec_string(v.0 as u128);
            Err(invalid(&["value v", n.as_str(), " has no stack slot"]))
        }
    }

    fn ty_of(&self, f: &Function, v: ValueId) -> (r: Result<TypeId, BackendError>)
        ensures
            r is Ok <==> (v.0 as int) < f.values@.len(),
            r matches Err(e) ==> e is InvalidModule,
            r matches Ok(t) ==> (v.0 as int) < f.values@.len() && t == f.values@[v.0 as int].ty,
    {
        match f.value(v) {
            Some(d) => Ok(d.ty),
            None => {
                let n = dec_string(v.0 as u128);
                Err(invalid(&["unknown value v", n.as_str()]))
            },
        }
    }

    fn int_info(&self, m: &Module, ty: TypeId) -> (r: (u32, bool))
        ensures
            r == (match m.types.spec_get(ty) {
                Some(TypeData::Int { bits, signed }) => (*bits, *signed && *bits > 1),
                _ => (64u32, false),
            }),
    {
        match m.types.get(ty) {
            Some(TypeData::Int { bits, signed }) => (*bits, *signed && *bits > 1),
            Some(TypeData::Pointer { .. }) => (64, false),
            _ => (64, false),
        }
    }

    fn int_bits(&self, m: &Module, ty: TypeId) -> (r: u32)
        ensures
            r == (match m.types.spec_get(ty) {
                Some(TypeData::Int { bits, .. }) => *bits,
                _ => 64u32,
            }),
    {
        match m.types.get(ty) {
            Some(TypeData::Int { bits, .. }) => *bits,
            Some(TypeData::Pointer { .. }) => 64,
            _ => 64,
        }
    }

    // -- emitting values ----------------------------------------------------

    fn load_int(&mut self, reg: &str, d: i32, bits: u32, signed: bool)
        requires
            old(self).ok(),
        ensures
            final(self).ok(),
            Self::emitted(old(self), final(self), load_text(reg@, mem_text(d), bits, signed)),
    {
        let m = self.mem(d);
        self.load_line(reg, m.as_str(), bits, signed);
    }

    /// Loads an integer of `bits` width from memory operand `m` into `reg`,
    /// extending it to 64 bits.
    fn load_line(&mut self, reg: &str, m: &str, bits: u32, signed: bool)
        requires
            old(self).ok(),
        ensures
            final(self).ok(),
            Self::emitted(old(self), final(self), load_text(reg@, m@, bits, signed)),
    {
        let t = if bits == 64 {
            cat4("    mov ", reg, ", qword ", m)
        } else if bits == 32 {
            if signed {
                cat4("    movsxd ", reg, ", dword ", m)
            } else {
                let r = subreg(reg, 4);
                cat4("    mov ", r.as_str(), ", dword ", m)
            }
        } else if bits == 16 {
            if signed {
                cat4("    movsx ", reg, ", word ", m)
            } else {
                cat4("    movzx ", reg, ", word ", m)
            }
        } else if signed && bits == 8 {
            cat4("    movsx ", reg, ", byte ", m)
        } else {
            cat4("    movzx ", reg, ", byte ", m)
        };
        self.line_text(t.as_str());
    }

    fn store_int(&mut self, reg: &str, d: i32, bits: u32)
        requires
            old(self).ok(),
        ensures
            final(self).ok(),
            Self::emitted(old(self), final(self), store_text(mem_text(d), reg@, bits)),
    {
        let m = self.mem(d);
        self.store_line(m.as_str(), reg, bits);
    }

    /// Stores the low `bits` of `reg` to memory operand `m`.
    fn store_line(&mut self, m: &str, reg: &str, bits: u32)
        requires
            old(self).ok(),
        ensures
            final(self).ok(),
            Self::emitted(old(self), final(self), store_text(m@, reg@, bits)),
    {
        let bytes = crate::nasm::layout::int_bytes(bits);
        let r = subreg(reg, bytes);
        let a = cat4("    mov ", size_kw(bytes), " ", m);
        let t = cat3(a.as_str(), ", ", r.as_str());
        self.line_text(t.as_str());
    }

    fn load_float(&mut self, xmm: &str, d: i32, single: bool)
        requires
            old(self).ok(),
        ensures
            final(self).ok(),
            Self::emitted(old(self), final(self), load_float_text(xmm@, d, single)),
    {
        let m = self.mem(d);
        let t = if single {
            cat4("    movss ", xmm, ", dword ", m.as_str())
        } else {
            cat4("    movsd ", xmm, ", qword ", m.as_str())
        };
        self.line_text(t.as_str());
    }

    fn store_float(&mut self, xmm: &str, d: i32, single: bool)
        requires
            old(self).ok(),
        ensures
            final(self).ok(),
            Self::emitted(old(self), final(self), store_float_text(xmm@, d, single)),
    {
        let m = self.mem(d);
        let t = if single {
            cat4("    movss dword ", m.as_str(), ", ", xmm)
        } else {
            cat4("    movsd qword ", m.as_str(), ", ", xmm)
        };
        self.line_text(t.as_str());
    }

    fn load_from_addr(&mut self, dst: &str, addr: &str, bits: u32, signed: bool)
        requires
            old(self).ok(),
        ensures
            final(self).ok(),
            Self::emitted(old(self), final(self), load_text(dst@, "["@ + addr@ + "]"@, bits, signed)),
    {
        let m = cat3("[", addr, "]");
        self.load_line(dst, m.as_str(), bits, signed);
    }

    fn store_to_addr(&mut self, addr: &str, value: &str, bits: u32)
        requires
            old(self).ok(),
        ensures
            final(self).ok(),
            Self::emitted(old(self), final(self), store_text("["@ + addr@ + "]"@, value@, bits)),
    {
        let m = cat3("[", addr, "]");
        self.store_line(m.as_str(), value, bits);
    }

    /// Copies a whole value between two frame slots (bit-for-bit).
    #[verifier::rlimit(40)]
    #[verifier::spinoff_prover]
    fn copy_slot(&mut self, m: &Module, src: i32, ty: TypeId, dst: i32) -> (r: Result<(), BackendError>)
        requires
            old(self).ok(),
        ensures
            final(self).ok(),
            r is Ok <==> spec_size(m.types.types@, ty, m.types.types@.len() as nat) is Some,
            r is Ok ==> Self::emitted_lines(
                old(self),
                final(self),
                copy_slot_lines(*m, src, ty, dst, spec_size(m.types.types@, ty, m.types.types@.len() as nat)->0 as u64),
            ),
            r is Err ==> *final(self) == *old(self),
    {
        let agg = is_aggregate(&m.types, ty);
        let size = match size_of(&m.types, ty) {
            Ok(s) => s,
            Err(e) => {
                return Err(e);
            },
        };
        let ghost s0 = *self;
        if agg {
            let sm = self.mem(src);
            let dm = self.mem(dst);
            let a = cat2("    lea rsi, ", sm.as_str());
            self.line_text(a.as_str());
            let ghost s1 = *self;
            let b = cat2("    lea rdi, ", dm.as_str());
            self.line_text(b.as_str());
            proof {
                Self::lemma_no_lines(&s0);
                Self::lemma_one_more(&s0, &s0, &s1, Seq::empty(), a@);
                Self::lemma_one_more(&s0, &s1, self, seq![a@], b@);
                assert(seq![a@].push(b@) =~= seq![a@, b@]);
            }
            let ghost s2 = *self;
            self.copy_bytes(size);
            proof {
                Self::lemma_lines_concat(&s0, &s2, self, seq![a@, b@], copy_bytes_lines(size));
            }
        } else {
            let bits: u32 = #[verifier::truncate] ((size as u128 * 8) as u32);
            proof {
                assert(bits == (size * 8) as u32) by (bit_vector)
                    requires
                        bits == ((size as u128 * 8) as u32),
                ;
            }
            self.load_int("rax", src, bits, false);
            let ghost s1 = *self;
            self.store_int("rax", dst, bits);
            proof {
                Self::lemma_no_lines(&s0);
                Self::lemma_one_more(&s0, &s0, &s1, Seq::empty(), load_text("rax"@, mem_text(src), bits, false));
                Self::lemma_one_more(&s0, &s1, self, seq![load_text("rax"@, mem_text(src), bits, false)], store_text(mem_text(dst), "rax"@, bits));
                assert(seq![load_text("rax"@, mem_text(src), bits, false)].push(store_text(mem_text(dst), "rax"@, bits)) =~= seq![load_text("rax"@, mem_text(src), bits, false), store_text(mem_text(dst), "rax"@, bits)]);
            }
        }
        Ok(())
    }

    /// `d + off` as a frame displacement.
    fn offset_disp(&self, d: i32, off: u64) -> (r: Result<i32, BackendError>)
        ensures
            r is Ok <==> off <= 0x7fff_ffff && d + off <= 0x7fff_ffff,
            r matches Ok(x) ==> x == d + off,
            r matches Err(e) ==> e is InvalidModule,
    {
        if off <= 0x7fff_ffff {
            let sum: i64 = d as i64 + off as i64;
            if sum <= 0x7fff_ffff {
                return Ok(sum as i32);
            }
        }
        Err(invalid(&["field offset leaves the stack frame"]))
    }
}

impl FuncGen {
    // -- frame layout -------------------------------------------------------

    /// Reserves a slot for a value of type `ty` below the `used` bytes of
    /// the frame and returns its displacement.
    fn reserve_slot(&self, m: &Module, used: &mut u64, ty: TypeId) -> (r: Result<i32, BackendError>)
        ensures
            r is Ok <==> slot_end(m.types.types@, *old(used), ty) is Some,
            r matches Ok(x) ==> slot_end(m.types.types@, *old(used), ty) == Some(*final(used) as int) && x == -(
            *final(used) as int),
            r is Ok ==> *final(used) <= 0x7fff_fff0,
            r is Err ==> *final(used) == *old(used),
    {
        let size = match size_of(&m.types, ty) {
            Ok(s) => s,
            Err(e) => {
                return Err(e);
            },
        };
        proof {
            lemma_align_values(m.types.types@, ty, m.types.types@.len() as nat);
        }
        let align = match align_of(&m.types, ty) {
            Ok(a) => a,
            Err(e) => {
                return Err(e);
            },
        };
        proof {
            lemma_layout_align_pow2(align);
        }
        let end = match used.checked_add(size) {
            Some(e) => align_up(e, align),
            None => None,
        };
        // Frame references and `sub rsp` immediates are signed 32-bit
        // values; leave room for rounding the frame to 16 bytes.
        match end {
            Some(e) => {
                if e <= 0x7fff_fff0 {
                    *used = e;
                    return Ok(-(e as i32));
                }
            },
            None => {},
        }
        let parts = ["stack frame of `", self.fname.as_str(), "`"];
        Err(BackendError::UnsupportedType {
            context: join(&parts),
            ty: type_to_string(&m.types, ty),
            reason: "stack frame exceeds the x86-64 signed 32-bit displacement limit".to_owned(),
        })
    }

    // -- ABI planning -------------------------------------------------------

    /// Assigns System V locations to a list of argument or parameter types:
    /// the locations, the stack bytes consumed and the SSE registers used.
    #[verifier::rlimit(40)]
    #[verifier::spinoff_prover]
    fn plan_types(&self, m: &Module, types: &Vec<TypeId>, op: &'static str) -> (r: Result<(Vec<Loc>, u64, usize), BackendError>)
        ensures
            r matches Ok(p) ==> p.0@.len() == types@.len(),
            r is Ok ==> forall|k: int| 0 <= k < types@.len() ==> scalar_type(*m, #[trigger] types@[k]),
            r is Ok <==> plan_possible(*m, types@),
            r matches Ok(p) ==> p.1 == 8 * count_stacked(*m, types@) && p.2 == (if count_fp(*m, types@) < 8 {
                count_fp(*m, types@)
            } else {
                8
            }) && forall|k: int| 0 <= k < types@.len() ==> loc_of(*m, types@, k, #[trigger] p.0@[k]),
    {
        let mut gp: usize = 0;
        let mut sse: usize = 0;
        let mut stack: u64 = 0;
        let mut locs: Vec<Loc> = Vec::new();
        let mut i: usize = 0;
        while i < types.len()
            invariant
                i <= types@.len(),
                locs@.len() == i,
                gp <= 6,
                sse <= 8,
                forall|k: int| 0 <= k < i ==> scalar_type(*m, #[trigger] types@[k]),
                forall|k: int| 0 <= k < i ==> plan_admits(*m, #[trigger] types@[k]),
                gp == (if count_gp(*m, types@.take(i as int)) < 6 {
                    count_gp(*m, types@.take(i as int))
                } else {
                    6
                }),
                sse == (if count_fp(*m, types@.take(i as int)) < 8 {
                    count_fp(*m, types@.take(i as int))
                } else {
                    8
                }),
                stack == 8 * count_stacked(*m, types@.take(i as int)),
                forall|k: int| 0 <= k < i ==> loc_of(*m, types@, k, #[trigger] locs@[k]),
            decreases types@.len() - i,
        {
            let ghost pre = types@.take(i as int);
            let ghost lprev = locs@;
            proof {
                assert(types@.take(i + 1).drop_last() =~= pre);
                assert(types@.take(i + 1).last() == types@[i as int]);
                lemma_counts_grow(*m, types@, i as int);
            }
            let ty = types[i];
            let (is_fp, is_scalar) = match m.types.get(ty) {
                Some(data) => (data.is_float(), data.is_pointer() || data.is_integer()),
                None => (false, false),
            };
            if is_fp {
                if sse < 8 {
                    locs.push(Loc::Sse(sse as u8));
                    sse = sse + 1;
                } else {
                    locs.push(Loc::Stack(stack));
                    stack = match stack.checked_add(8) {
                        Some(v) => v,
                        None => {
                            proof {
                                lemma_stacked_monotone(*m, types@, i + 1);
                            }
                            return Err(invalid(&["stack arguments overflow"]));
                        },
                    };
                }
            } else if is_scalar {
                let ctx_parts = ["`", op, "` in `", self.fname.as_str(), "`"];
                let ctx = join(&ctx_parts);
                match check_supported(&m.types, ty, ctx.as_str()) {
                    Ok(()) => {},
                    Err(e) => {
                        return Err(e);
                    },
                }
                if gp < 6 {
                    locs.push(Loc::Int(gp_register(gp)));
                    gp = gp + 1;
                } else {
                    locs.push(Loc::Stack(stack));
                    stack = match stack.checked_add(8) {
                        Some(v) => v,
                        None => {
                            proof {
                                lemma_stacked_monotone(*m, types@, i + 1);
                            }
                            return Err(invalid(&["stack arguments overflow"]));
                        },
                    };
                }
            } else {
                let what = if crate::textbuf::str_eq(op, "parameter") {
                    "parameter"
                } else {
                    "argument"
                };
                let tys = type_to_string(&m.types, ty);
                let reason_parts = ["aggregate by-value ", what, " is not supported (`", tys.as_str(), "`)"];
                return Err(BackendError::UnsupportedInstruction {
                    function: self.fname.clone(),
                    op,
                    reason: join(&reason_parts),
                });
            }
            proof {
                assert forall|k: int| 0 <= k < i + 1 implies loc_of(*m, types@, k, #[trigger] locs@[k]) by {
                    if k < i {
                        assert(locs@[k] == lprev[k]);
                    }
                }
            }
            i = i + 1;
        }
        proof {
            assert(types@.take(types@.len() as int) =~= types@);
        }
        Ok((locs, stack, sse))
    }

    /// The type of every value in `args`.
    fn types_of(&self, f: &Function, args: &Vec<ValueId>) -> (r: Result<Vec<TypeId>, BackendError>)
        ensures
            r is Ok <==> forall|k: int| 0 <= k < args@.len() ==> (#[trigger] args@[k].0 as int) < f.values@.len(),
            r matches Err(e) ==> e is InvalidModule,
            r matches Ok(out) ==> out@.len() == args@.len() && forall|k: int|
                0 <= k < args@.len() ==> (#[trigger] args@[k].0 as int) < f.values@.len() && out@[k]
                    == f.values@[args@[k].0 as int].ty,
    {
        let mut out: Vec<TypeId> = Vec::new();
        let mut i: usize = 0;
        while i < args.len()
            invariant
                i <= args@.len(),
                out@.len() == i,
                forall|k: int|
                    0 <= k < i ==> (#[trigger] args@[k].0 as int) < f.values@.len() && out@[k] == f.values@[args@[k].0 as int].ty,
            decreases args@.len() - i,
        {
            match self.ty_of(f, args[i]) {
                Ok(t) => out.push(t),
                Err(e) => {
                    return Err(e);
                },
            }
            i = i + 1;
        }
        Ok(out)
    }

    // -- building a function --------------------------------------------------

    /// Lays out the frame of `f` and emits its code.
    fn build(&mut self, m: &Module, f: &Function) -> (r: Result<(), BackendError>)
        requires
            old(self).ok(),
        ensures
            final(self).ok(),
            r is Ok ==> forall|v: int|
                0 <= v < f.values@.len() ==> spec_supported(
                    m.types.types@,
                    #[trigger] f.values@[v].ty,
                    m.types.types@.len() as nat,
                ),
            r is Ok ==> no_aggregate_by_value(*m, *f),
            (exists|v: int| 0 <= v < f.values@.len() && !spec_supported(
                m.types.types@,
                #[trigger] f.values@[v].ty,
                m.types.types@.len() as nat,
            )) ==> (r matches Err(e) && e is UnsupportedType),
            forall|v: int| #[trigger] first_unsupported_at(*m, *f, v) && wide_int(m.types.types@, f.values@[v].ty) ==> (r matches Err(
                BackendError::UnsupportedType { reason, .. },
            ) && reason@ == "128-bit integers are not supported by this backend"@),
    {
        let mut i: usize = 0;
        while i < f.values.len()
            invariant
                i <= f.values@.len(),
                self.ok(),
                forall|v: int|
                    0 <= v < i ==> spec_supported(
                        m.types.types@,
                        #[trigger] f.values@[v].ty,
                        m.types.types@.len() as nat,
                    ),
            decreases f.values@.len() - i,
        {
            let n = dec_string(i as u128);
            let ctx_parts = ["value v", n.as_str(), " of `", self.fname.as_str(), "`"];
            let ctx = join(&ctx_parts);
            match check_supported(&m.types, f.values[i].ty, ctx.as_str()) {
                Ok(()) => {},
                Err(e) => {
                    return Err(e);
                },
            }
            i = i + 1;
        }
        self.build_body(m, f)
    }

    /// Lays out the frame of `f` and emits its code, once its value types
    /// are known to be supported.
    fn build_body(&mut self, m: &Module, f: &Function) -> (r: Result<(), BackendError>)
        requires
            old(self).ok(),
        ensures
            final(self).ok(),
            r is Ok ==> no_aggregate_by_value(*m, *f),
    {
        let mut used: u64 = 0;
        let mut disp: Vec<i32> = Vec::new();
        let mut i: usize = 0;
        while i < f.values.len()
            invariant
                i <= f.values@.len(),
                self.ok(),
            decreases f.values@.len() - i,
        {
            match self.reserve_slot(m, &mut used, f.values[i].ty) {
                Ok(d) => disp.push(d),
                Err(e) => {
                    return Err(e);
                },
            }
            i = i + 1;
        }
        self.disp = disp;

        // `alloca` storage.
        let mut alloca: Vec<(u32, i32)> = Vec::new();
        let mut b: usize = 0;
        while b < f.blocks.len()
            invariant
                b <= f.blocks@.len(),
                self.ok(),
            decreases f.blocks@.len() - b,
        {
            let block = &f.blocks[b];
            let mut k: usize = 0;
            while k < block.instructions.len()
                invariant
                    k <= block.instructions@.len(),
                    self.ok(),
                decreases block.instructions@.len() - k,
            {
                match &block.instructions[k].kind {
                    InstructionKind::Alloca { pointee } => {
                        let ctx_parts = ["alloca in `", self.fname.as_str(), "`"];
                        let ctx = join(&ctx_parts);
                        match check_supported(&m.types, *pointee, ctx.as_str()) {
                            Ok(()) => {},
                            Err(e) => {
                                return Err(e);
                            },
                        }
                        let offset = match self.reserve_slot(m, &mut used, *pointee) {
                            Ok(o) => o,
                            Err(e) => {
                                return Err(e);
                            },
                        };
                        match block.instructions[k].result {
                            Some(result) => alloca.push((result.0, offset)),
                            None => {},
                        }
                    },
                    _ => {},
                }
                k = k + 1;
            }
            b = b + 1;
        }
        self.alloca = alloca;

        // Per-block scratch for block-argument staging.
        let mut scratch: Vec<Vec<i32>> = Vec::new();
        let mut b: usize = 0;
        while b < f.blocks.len()
            invariant
                b <= f.blocks@.len(),
                self.ok(),
            decreases f.blocks@.len() - b,
        {
            let block = &f.blocks[b];
            let mut slots: Vec<i32> = Vec::new();
            let mut k: usize = 0;
            while k < block.params.len()
                invariant
                    k <= block.params@.len(),
                    self.ok(),
                decreases block.params@.len() - k,
            {
                match self.reserve_slot(m, &mut used, block.params[k].ty) {
                    Ok(d) => slots.push(d),
                    Err(e) => {
                        return Err(e);
                    },
                }
                k = k + 1;
            }
            scratch.push(slots);
            b = b + 1;
        }
        self.scratch = scratch;

        // Outgoing stack-argument area: size of the largest call.
        let mut max_stack: u64 = 0;
        let mut b: usize = 0;
        while b < f.blocks.len()
            invariant
                b <= f.blocks@.len(),
                self.ok(),
            decreases f.blocks@.len() - b,
        {
            let block = &f.blocks[b];
            let mut k: usize = 0;
            while k < block.instructions.len()
                invariant
                    k <= block.instructions@.len(),
                    self.ok(),
                decreases block.instructions@.len() - k,
            {
                match &block.instructions[k].kind {
                    InstructionKind::Call { args, .. } => {
                        let types = match self.types_of(f, args) {
                            Ok(t) => t,
                            Err(e) => {
                                return Err(e);
                            },
                        };
                        match self.plan_types(m, &types, "call") {
                            Ok((_, bytes, _)) => {
                                if bytes > max_stack {
                                    max_stack = bytes;
                                }
                            },
                            Err(e) => {
                                return Err(e);
                            },
                        }
                    },
                    _ => {},
                }
                k = k + 1;
            }
            b = b + 1;
        }

        proof {
            lemma_layout_align_pow2(16);
        }
        let frame = match align_up(used, 16) {
            Some(locals) => match align_up(max_stack, 16) {
                Some(outgoing) => match locals.checked_add(outgoing) {
                    Some(total) => if total <= 0x7fff_ffff {
                        Some(total)
                    } else {
                        None
                    },
                    None => None,
                },
                None => None,
            },
            None => None,
        };
        match frame {
            Some(size) => {
                self.frame_size = size;
            },
            None => {
                return Err(BackendError::UnsupportedInstruction {
                    function: self.fname.clone(),
                    op: "call",
                    reason: "outgoing arguments exceed the x86-64 stack frame limit".to_owned(),
                });
            },
        }

        match self.emit_prologue(m, f) {
            Ok(()) => {},
            Err(e) => {
                return Err(e);
            },
        }
        let mut index: usize = 0;
        while index < f.blocks.len()
            invariant
                index <= f.blocks@.len(),
                self.ok(),
                forall|b: int, i: int|
                    0 <= b < index && 0 <= i < f.blocks@[b].instructions@.len() ==> call_by_value_ok(
                        *m,
                        *f,
                        #[trigger] f.blocks@[b].instructions@[i],
                    ),
                forall|b: int| 0 <= b < index ==> return_by_value_ok(*m, *f, (#[trigger] f.blocks@[b]).terminator),
            decreases f.blocks@.len() - index,
        {
            match self.emit_block(m, f, index) {
                Ok(()) => {},
                Err(e) => {
                    return Err(e);
                },
            }
            index = index + 1;
        }
        Ok(())
    }

    fn emit_prologue(&mut self, m: &Module, f: &Function) -> (r: Result<(), BackendError>)
        requires
            old(self).ok(),
        ensures
            final(self).ok(),
            r is Ok ==> forall|i: int| 0 <= i < f.params@.len() ==> scalar_type(*m, (#[trigger] f.params@[i]).ty),
    {
        let label = self.fname.clone();
        // `$` forces NASM to treat even register or directive names as
        // symbols.
        self.line(&["$", label.as_str(), ":"]);
        self.line(&["    push rbp"]);
        self.line(&["    mov rbp, rsp"]);
        if self.frame_size > 0 {
            let n = dec_string(self.frame_size as u128);
            self.line(&["    sub rsp, ", n.as_str()]);
        }
        let mut ptypes: Vec<TypeId> = Vec::new();
        let mut i: usize = 0;
        while i < f.params.len()
            invariant
                i <= f.params@.len(),
                ptypes@.len() == i,
                forall|k: int| 0 <= k < i ==> ptypes@[k] == f.params@[k].ty,
            decreases f.params@.len() - i,
        {
            ptypes.push(f.params[i].ty);
            i = i + 1;
        }
        let locs = match self.plan_types(m, &ptypes, "parameter") {
            Ok((locs, _, _)) => locs,
            Err(e) => {
                return Err(e);
            },
        };
        proof {
            assert forall|k: int| 0 <= k < f.params@.len() implies scalar_type(*m, (#[trigger] f.params@[k]).ty) by {
                assert(ptypes@[k] == f.params@[k].ty);
            }
        }
        let mut i: usize = 0;
        while i < locs.len()
            invariant
                i <= locs@.len(),
                locs@.len() == ptypes@.len(),
                ptypes@.len() == f.params@.len(),
                self.ok(),
                forall|k: int| 0 <= k < f.params@.len() ==> scalar_type(*m, (#[trigger] f.params@[k]).ty),
            decreases locs@.len() - i,
        {
            let d = match self.slot(f.params[i].value) {
                Ok(d) => d,
                Err(e) => {
                    return Err(e);
                },
            };
            let ty = ptypes[i];
            match locs[i] {
                Loc::Int(reg) => {
                    let (bits, _) = self.int_info(m, ty);
                    self.store_int(reg, d, bits);
                },
                Loc::Sse(n) => {
                    let single = is_f32(&m.types, ty);
                    let idx = dec_string(n as u128);
                    let parts = ["xmm", idx.as_str()];
                    let xmm = join(&parts);
                    self.store_float(xmm.as_str(), d, single);
                },
                Loc::Stack(off) => {
                    let bytes = match size_of(&m.types, ty) {
                        Ok(b) => b,
                        Err(e) => {
                            return Err(e);
                        },
                    };
                    let at = dec_string(16 + off as u128);
                    self.line(&["mov rax, qword [rbp+", at.as_str(), "]"]);
                    let bits: u32 = #[verifier::truncate] ((bytes as u128 * 8) as u32);
                    self.store_int("rax", d, bits);
                },
            }
            i = i + 1;
        }
        Ok(())
    }

    fn emit_block(&mut self, m: &Module, f: &Function, index: usize) -> (r: Result<(), BackendError>)
        requires
            old(self).ok(),
            index < f.blocks@.len(),
        ensures
            final(self).ok(),
            r is Ok ==> forall|i: int|
                0 <= i < f.blocks@[index as int].instructions@.len() ==> call_by_value_ok(
                    *m,
                    *f,
                    #[trigger] f.blocks@[index as int].instructions@[i],
                ),
            r is Ok ==> return_by_value_ok(*m, *f, f.blocks@[index as int].terminator),
    {
        let block = &f.blocks[index];
        let label = self.block_label(index);
        self.line(&[""]);
        self.line(&[label.as_str(), ":"]);
        let mut k: usize = 0;
        while k < block.instructions.len()
            invariant
                k <= block.instructions@.len(),
                self.ok(),
                block == &f.blocks@[index as int],
                forall|i: int| 0 <= i < k ==> call_by_value_ok(*m, *f, #[trigger] block.instructions@[i]),
            decreases block.instructions@.len() - k,
        {
            match self.gen_inst(m, f, &block.instructions[k]) {
                Ok(()) => {},
                Err(e) => {
                    return Err(e);
                },
            }
            k = k + 1;
        }
        match &block.terminator {
            Some(term) => self.gen_term(m, f, term),
            None => {
                let n = dec_string(index as u128);
                Err(invalid(&["block bb", n.as_str(), " of `", self.fname.as_str(), "` has no terminator"]))
            },
        }
    }

    /// Stages the arguments of an edge into `target`'s scratch slots, then
    /// commits them to its parameter slots.
    #[verifier::rlimit(40)]
    #[verifier::spinoff_prover]
    fn emit_edge(&mut self, m: &Module, f: &Function, target: usize, args: &Vec<ValueId>) -> (r: Result<(), BackendError>)
        requires
            old(self).ok(),
        ensures
            final(self).ok(),
            r is Ok <==> edge_ok(*m, old(self).disp@, old(self).scratch@, *f, target as int, args@),
            r is Ok ==> Self::emitted_lines(
                old(self),
                final(self),
                edge_lines(*m, old(self).disp@, old(self).scratch@, *f, target as int, args@),
            ),
    {
        if args.len() == 0 {
            proof {
                Self::lemma_no_lines(self);
            }
            return Ok(());
        }
        if target >= f.blocks.len() || target >= self.scratch.len() {
            return Err(invalid(&["edge to an unknown block"]));
        }
        let params = &f.blocks[target].params;
        let scratch = self.scratch[target].clone();
        if args.len() > params.len() || args.len() > scratch.len() {
            return Err(invalid(&["edge arguments do not match the target's parameters"]));
        }
        let ghost s0 = *self;
        proof {
            Self::lemma_no_lines(&s0);
        }
        let mut i: usize = 0;
        while i < args.len()
            invariant
                i <= args@.len(),
                args@.len() <= params@.len(),
                args@.len() <= scratch@.len(),
                self.ok(),
                s0 == *old(self),
                target < f.blocks@.len(),
                target < s0.scratch@.len(),
                *params == f.blocks@[target as int].params,
                scratch@ == s0.scratch@[target as int]@,
                Self::emitted_lines(&s0, self, edge_gather_lines(*m, s0.disp@, params@, scratch@, args@, i as int)),
                forall|k: int| 0 <= k < i ==> (args@[k].0 as int) < s0.disp@.len() && spec_size(m.types.types@, #[trigger] params@[k].ty, m.types.types@.len() as nat) is Some,
            decreases args@.len() - i,
        {
            let src = match self.slot(args[i]) {
                Ok(d) => d,
                Err(e) => {
                    proof {
                        assert(!edge_arg_ok(*m, s0.disp@, params@, args@, i as int));
                    }
                    return Err(e);
                },
            };
            let ghost before = *self;
            match self.copy_slot(m, src, params[i].ty, scratch[i]) {
                Ok(()) => {},
                Err(e) => {
                    proof {
                        assert(!edge_arg_ok(*m, s0.disp@, params@, args@, i as int));
                    }
                    return Err(e);
                },
            }
            proof {
                Self::lemma_lines_concat(&s0, &before, self, edge_gather_lines(*m, s0.disp@, params@, scratch@, args@, i as int), copy_lines(*m, src, params@[i as int].ty, scratch@[i as int]));
            }
            i = i + 1;
        }
        let ghost s1 = *self;
        let ghost gathered = edge_gather_lines(*m, s0.disp@, params@, scratch@, args@, args@.len() as int);
        let mut i: usize = 0;
        while i < args.len()
            invariant
                i <= args@.len(),
                args@.len() <= params@.len(),
                args@.len() <= scratch@.len(),
                self.ok(),
                s0 == *old(self),
                target < f.blocks@.len(),
                target < s0.scratch@.len(),
                *params == f.blocks@[target as int].params,
                scratch@ == s0.scratch@[target as int]@,
                Self::emitted_lines(&s0, &s1, gathered),
                Self::emitted_lines(&s1, self, edge_scatter_lines(*m, s0.disp@, params@, scratch@, i as int)),
                forall|k: int| 0 <= k < args@.len() ==> (args@[k].0 as int) < s0.disp@.len() && spec_size(m.types.types@, #[trigger] params@[k].ty, m.types.types@.len() as nat) is Some,
                forall|k: int| 0 <= k < i ==> (#[trigger] params@[k].value.0 as int) < s0.disp@.len(),
            decreases args@.len() - i,
        {
            let dst = match self.slot(params[i].value) {
                Ok(d) => d,
                Err(e) => {
                    proof {
                        assert(!edge_arg_ok(*m, s0.disp@, params@, args@, i as int));
                    }
                    return Err(e);
                },
            };
            let ghost before = *self;
            match self.copy_slot(m, scratch[i], params[i].ty, dst) {
                Ok(()) => {},
                Err(e) => {
                    return Err(e);
                },
            }
            proof {
                Self::lemma_lines_concat(&s1, &before, self, edge_scatter_lines(*m, s0.disp@, params@, scratch@, i as int), copy_lines(*m, scratch@[i as int], params@[i as int].ty, dst));
            }
            i = i + 1;
        }
        proof {
            Self::lemma_lines_concat(&s0, &s1, self, gathered, edge_scatter_lines(*m, s0.disp@, params@, scratch@, args@.len() as int));
            assert forall|k: int| 0 <= k < args@.len() implies #[trigger] edge_arg_ok(*m, s0.disp@, params@, args@, k) by {
                assert(spec_size(m.types.types@, params@[k].ty, m.types.types@.len() as nat) is Some);
                assert((params@[k].value.0 as int) < s0.disp@.len());
            }
        }
        Ok(())
    }

    #[verifier::rlimit(80)]
    #[verifier::spinoff_prover]
    fn gen_term(&mut self, m: &Module, f: &Function, term: &Terminator) -> (r: Result<(), BackendError>)
        requires
            old(self).ok(),
        ensures
            final(self).ok(),
            r is Ok ==> return_by_value_ok(*m, *f, Some(*term)),
            r is Ok <==> term_ok(*m, old(self).disp@, old(self).scratch@, *f, *term),
            r is Ok ==> final(self).tmp == (if term is Branch {
                next_tmp(old(self).tmp)
            } else {
                old(self).tmp
            }) && Self::wrote(
                old(self),
                final(self),
                term_lines(*m, old(self).disp@, old(self).scratch@, old(self).fname@, old(self).tmp, *f, *term),
            ),
    {
        let ghost s0 = *self;
        proof {
            Self::lemma_wrote_start(&s0);
        }
        let ghost mut ls: Seq<Seq<char>> = Seq::empty();
        let ghost mut g = *self;
        match term {
            Terminator::Jump { target, args } => {
                match self.emit_edge(m, f, target.index(), args) {
                    Ok(()) => {},
                    Err(e) => {
                        return Err(e);
                    },
                }
                proof {
                    let el = edge_lines(*m, s0.disp@, s0.scratch@, *f, target.0 as int, args@);
                    Self::lemma_wrote_concat(&s0, &g, self, ls, el);
                    ls = ls + el;
                    g = *self;
                }
                let label = self.block_label(target.index());
                let t = cat2("    jmp ", label.as_str());
                self.line_text(t.as_str());
                proof {
                    Self::lemma_wrote_line(&s0, &g, self, ls, t@);
                    ls = ls.push(t@);
                    g = *self;
                }
            },
            Terminator::Branch { condition, then_block, then_args, else_block, else_args } => {
                let cdisp = match self.slot(*condition) {
                    Ok(d) => d,
                    Err(e) => {
                        return Err(e);
                    },
                };
                let cm = self.mem(cdisp);
                let else_label = self.tmp_label("else");
                proof {
                    Self::lemma_wrote_label(&s0, &g, self, ls);
                    g = *self;
                }
                let t1 = cat3("    cmp byte ", cm.as_str(), ", 0");
                self.line_text(t1.as_str());
                proof {
                    Self::lemma_wrote_line(&s0, &g, self, ls, t1@);
                    ls = ls.push(t1@);
                    g = *self;
                }
                let t2 = cat2("    je ", else_label.as_str());
                self.line_text(t2.as_str());
                proof {
                    Self::lemma_wrote_line(&s0, &g, self, ls, t2@);
                    ls = ls.push(t2@);
                    g = *self;
                }
                match self.emit_edge(m, f, then_block.index(), then_args) {
                    Ok(()) => {},
                    Err(e) => {
                        return Err(e);
                    },
                }
                proof {
                    let el = edge_lines(*m, s0.disp@, s0.scratch@, *f, then_block.0 as int, then_args@);
                    Self::lemma_wrote_concat(&s0, &g, self, ls, el);
                    ls = ls + el;
                    g = *self;
                }
                let then_label = self.block_label(then_block.index());
                let t3 = cat2("    jmp ", then_label.as_str());
                self.line_text(t3.as_str());
                proof {
                    Self::lemma_wrote_line(&s0, &g, self, ls, t3@);
                    ls = ls.push(t3@);
                    g = *self;
                }
                let t4 = cat2(else_label.as_str(), ":");
                self.line_text(t4.as_str());
                proof {
                    Self::lemma_wrote_line(&s0, &g, self, ls, t4@);
                    ls = ls.push(t4@);
                    g = *self;
                }
                match self.emit_edge(m, f, else_block.index(), else_args) {
                    Ok(()) => {},
                    Err(e) => {
                        return Err(e);
                    },
                }
                proof {
                    let el = edge_lines(*m, s0.disp@, s0.scratch@, *f, else_block.0 as int, else_args@);
                    Self::lemma_wrote_concat(&s0, &g, self, ls, el);
                    ls = ls + el;
                    g = *self;
                }
                let else_target = self.block_label(else_block.index());
                let t5 = cat2("    jmp ", else_target.as_str());
                self.line_text(t5.as_str());
                proof {
                    Self::lemma_wrote_line(&s0, &g, self, ls, t5@);
                    ls = ls.push(t5@);
                    g = *self;
                }
            },
            Terminator::Return { value } => {
                match value {
                    Some(v) => {
                        let ty = match self.ty_of(f, *v) {
                            Ok(t) => t,
                            Err(e) => {
                                return Err(e);
                            },
                        };
                        let d = match self.slot(*v) {
                            Ok(d) => d,
                            Err(e) => {
                                return Err(e);
                            },
                        };
                        if is_aggregate(&m.types, ty) {
                            return Err(BackendError::UnsupportedInstruction {
                                function: self.fname.clone(),
                                op: "return",
                                reason: "aggregate return values are not supported".to_owned(),
                            });
                        }
                        if is_float(&m.types, ty) {
                            let single = is_f32(&m.types, ty);
                            self.load_float("xmm0", d, single);
                            proof {
                                Self::lemma_wrote_line(&s0, &g, self, ls, load_float_text("xmm0"@, d, single));
                                ls = ls.push(load_float_text("xmm0"@, d, single));
                                g = *self;
                            }
                        } else {
                            let (bits, signed) = self.int_info(m, ty);
                            self.load_int("rax", d, bits, signed);
                            proof {
                                Self::lemma_wrote_line(&s0, &g, self, ls, load_text("rax"@, mem_text(d), bits, signed));
                                ls = ls.push(load_text("rax"@, mem_text(d), bits, signed));
                                g = *self;
                            }
                        }
                    },
                    None => {},
                }
                self.line_text("    leave");
                proof {
                    Self::lemma_wrote_line(&s0, &g, self, ls, "    leave"@);
                    ls = ls.push("    leave"@);
                    g = *self;
                }
                self.line_text("    ret");
                proof {
                    Self::lemma_wrote_line(&s0, &g, self, ls, "    ret"@);
                    ls = ls.push("    ret"@);
                    g = *self;
                }
            },
            Terminator::Unreachable => {
                self.line_text("    ud2");
                proof {
                    Self::lemma_wrote_line(&s0, &g, self, ls, "    ud2"@);
                    ls = ls.push("    ud2"@);
                    g = *self;
                }
            },
        }
        proof {
            assert(ls =~= term_lines(*m, s0.disp@, s0.scratch@, s0.fname@, s0.tmp, *f, *term));
        }
        Ok(())
    }
}

impl FuncGen {
    // -- instructions -------------------------------------------------------

    fn result_disp(&self, inst: &Instruction) -> (r: Result<i32, BackendError>)
        ensures
            r is Ok <==> (inst.result matches Some(v) && (v.0 as int) < self.disp@.len()),
            r matches Ok(d) ==> d == self.disp@[result_key(*inst) as int],
            r matches Err(e) ==> e is InvalidModule,
    {
        match inst.result {
            Some(v) => self.slot(v),
            None => Err(invalid(&["instruction in `", self.fname.as_str(), "` is missing its result"])),
        }
    }

    /// The displacement and type of an instruction's result.
    fn result_slot(&self, f: &Function, inst: &Instruction) -> (r: Result<(i32, TypeId), BackendError>)
        ensures
            r is Ok <==> (inst.result matches Some(v) && (v.0 as int) < self.disp@.len() && (v.0 as int)
                < f.values@.len()),
            r matches Ok((d, t)) ==> d == self.disp@[result_key(*inst) as int] && t == f.values@[result_key(*inst) as int].ty,
            r matches Err(e) ==> e is InvalidModule,
    {
        match inst.result {
            Some(v) => {
                let d = match self.slot(v) {
                    Ok(d) => d,
                    Err(e) => {
                        return Err(e);
                    },
                };
                match self.ty_of(f, v) {
                    Ok(t) => Ok((d, t)),
                    Err(e) => Err(e),
                }
            },
            None => Err(invalid(&["instruction in `", self.fname.as_str(), "` is missing its result"])),
        }
    }

    /// Slot and type of an operand.
    fn operand(&self, f: &Function, v: ValueId) -> (r: Result<(i32, TypeId), BackendError>)
        ensures
            r is Ok <==> (v.0 as int) < self.disp@.len() && (v.0 as int) < f.values@.len(),
            r matches Ok((d, _)) ==> d == self.disp@[v.0 as int],
            r matches Err(e) ==> e is InvalidModule,
            r matches Ok((_, t)) ==> (v.0 as int) < f.values@.len() && t == f.values@[v.0 as int].ty,
    {
        let d = match self.slot(v) {
            Ok(d) => d,
            Err(e) => {
                return Err(e);
            },
        };
        match self.ty_of(f, v) {
            Ok(t) => Ok((d, t)),
            Err(e) => Err(e),
        }
    }

    fn gen_inst(&mut self, m: &Module, f: &Function, inst: &Instruction) -> (r: Result<(), BackendError>)
        requires
            old(self).ok(),
        ensures
            final(self).ok(),
            r is Ok ==> call_by_value_ok(*m, *f, *inst),
    {
        match &inst.kind {
            InstructionKind::Const(cid) => {
                let data = match m.constants.get(*cid) {
                    Some(d) => d,
                    None => {
                        let n = dec_string(cid.0 as u128);
                        return Err(invalid(&["unknown constant c", n.as_str()]));
                    },
                };
                let dst = match self.result_disp(inst) {
                    Ok(d) => d,
                    Err(e) => {
                        return Err(e);
                    },
                };
                let count = m.constants.constants.len() as u64;
                let fuel = if count < u64::MAX {
                    count + 1
                } else {
                    count
                };
                self.materialize_const(m, data, dst, fuel)
            },
            InstructionKind::Add { lhs, rhs } => self.gen_arith(m, f, ArithOp::Add, *lhs, *rhs, inst),
            InstructionKind::Sub { lhs, rhs } => self.gen_arith(m, f, ArithOp::Sub, *lhs, *rhs, inst),
            InstructionKind::Mul { lhs, rhs } => self.gen_arith(m, f, ArithOp::Mul, *lhs, *rhs, inst),
            InstructionKind::Div { lhs, rhs } => self.gen_div(m, f, *lhs, *rhs, inst, false),
            InstructionKind::Rem { lhs, rhs } => self.gen_div(m, f, *lhs, *rhs, inst, true),
            InstructionKind::And { lhs, rhs } => self.gen_bitwise(m, f, "and", *lhs, *rhs, inst),
            InstructionKind::Or { lhs, rhs } => self.gen_bitwise(m, f, "or", *lhs, *rhs, inst),
            InstructionKind::Xor { lhs, rhs } => self.gen_bitwise(m, f, "xor", *lhs, *rhs, inst),
            InstructionKind::Shl { lhs, rhs } => self.gen_shift(m, f, *lhs, *rhs, inst, true),
            InstructionKind::Shr { lhs, rhs } => self.gen_shift(m, f, *lhs, *rhs, inst, false),
            InstructionKind::Eq { lhs, rhs } => self.gen_compare(m, f, CmpOp::Eq, *lhs, *rhs, inst),
            InstructionKind::Ne { lhs, rhs } => self.gen_compare(m, f, CmpOp::Ne, *lhs, *rhs, inst),
            InstructionKind::Lt { lhs, rhs } => self.gen_compare(m, f, CmpOp::Lt, *lhs, *rhs, inst),
            InstructionKind::Le { lhs, rhs } => self.gen_compare(m, f, CmpOp::Le, *lhs, *rhs, inst),
            InstructionKind::Gt { lhs, rhs } => self.gen_compare(m, f, CmpOp::Gt, *lhs, *rhs, inst),
            InstructionKind::Ge { lhs, rhs } => self.gen_compare(m, f, CmpOp::Ge, *lhs, *rhs, inst),
            InstructionKind::Alloca { .. } => {
                let result = match inst.result {
                    Some(r) => r,
                    None => {
                        return Err(invalid(&["alloca in `", self.fname.as_str(), "` has no result"]));
                    },
                };
                let mut found: Option<i32> = None;
                let mut k: usize = self.alloca.len();
                while k > 0
                    invariant
                        k <= self.alloca@.len(),
                    decreases k,
                {
                    if self.alloca[k - 1].0 == result.0 {
                        found = Some(self.alloca[k - 1].1);
                        break;
                    }
                    k = k - 1;
                }
                let offset = match found {
                    Some(o) => o,
                    None => {
                        return Err(invalid(&["alloca in `", self.fname.as_str(), "` has no storage"]));
                    },
                };
                let om = self.mem(offset);
                self.line(&["    lea rax, ", om.as_str()]);
                let dst = match self.slot(result) {
                    Ok(d) => d,
                    Err(e) => {
                        return Err(e);
                    },
                };
                self.store_int("rax", dst, 64);
                Ok(())
            },
            InstructionKind::Load { ty, pointer } => self.gen_load(m, f, *ty, *pointer, inst),
            InstructionKind::Store { pointer, value } => self.gen_store(m, f, *pointer, *value),
            InstructionKind::PtrOffset { pointer, offset } => self.gen_ptr_offset(m, f, *pointer, *offset, inst),
            InstructionKind::Ext { to, value } => {
                let (src, vty) = match self.operand(f, *value) {
                    Ok(x) => x,
                    Err(e) => {
                        return Err(e);
                    },
                };
                let (from_bits, from_signed) = self.int_info(m, vty);
                let to_bits = self.int_bits(m, *to);
                let dst = match self.result_disp(inst) {
                    Ok(d) => d,
                    Err(e) => {
                        return Err(e);
                    },
                };
                self.load_int("rax", src, from_bits, from_signed);
                self.store_int("rax", dst, to_bits);
                Ok(())
            },
            InstructionKind::Trunc { to, value } => {
                let (src, vty) = match self.operand(f, *value) {
                    Ok(x) => x,
                    Err(e) => {
                        return Err(e);
                    },
                };
                let from_bits = self.int_bits(m, vty);
                let to_bits = self.int_bits(m, *to);
                let dst = match self.result_disp(inst) {
                    Ok(d) => d,
                    Err(e) => {
                        return Err(e);
                    },
                };
                self.load_int("rax", src, from_bits, false);
                if to_bits == 1 {
                    self.line(&["    and eax, 1"]);
                }
                self.store_int("rax", dst, to_bits);
                Ok(())
            },
            InstructionKind::IntToFloat { to, value } => self.gen_int_to_float(m, f, *to, *value, inst),
            InstructionKind::FloatToInt { to, value } => self.gen_float_to_int(m, f, *to, *value, inst),
            InstructionKind::PtrCast { pointer, .. } => {
                let src = match self.slot(*pointer) {
                    Ok(d) => d,
                    Err(e) => {
                        return Err(e);
                    },
                };
                let dst = match self.result_disp(inst) {
                    Ok(d) => d,
                    Err(e) => {
                        return Err(e);
                    },
                };
                self.load_int("rax", src, 64, false);
                self.store_int("rax", dst, 64);
                Ok(())
            },
            InstructionKind::Call { callee, args } => self.gen_call(m, f, *callee, args, inst),
            InstructionKind::Construct { ty, fields } => self.gen_construct(m, *ty, fields, inst),
            InstructionKind::Extract { aggregate, index } => self.gen_extract(m, f, *aggregate, *index, inst),
            InstructionKind::Insert { aggregate, index, value } => self.gen_insert(m, f, *aggregate, *index, *value, inst),
        }
    }

    /// Writes constant `data` into the frame at `dst`; aggregate constants
    /// are written field by field, nested at most `fuel` deep.
    fn materialize_const(&mut self, m: &Module, data: &ConstantData, dst: i32, fuel: u64) -> (r: Result<(), BackendError>)
        requires
            old(self).ok(),
        ensures
            final(self).ok(),
        decreases fuel,
    {
        if fuel == 0 {
            return Err(invalid(&["aggregate constants nest too deeply"]));
        }
        match data {
            ConstantData::Int { bits, width, .. } => {
                let h = hex_text(#[verifier::truncate] (*bits as u64) as u128);
                self.line(&["    mov rax, ", h.as_str()]);
                self.store_int("rax", dst, *width);
            },
            ConstantData::Float { ty, bits } => {
                if is_f32(&m.types, *ty) {
                    let h = hex_text(#[verifier::truncate] (*bits as u32) as u128);
                    self.line(&["    mov eax, ", h.as_str()]);
                    self.store_int("rax", dst, 32);
                } else {
                    let h = hex_text(*bits as u128);
                    self.line(&["    mov rax, ", h.as_str()]);
                    self.store_int("rax", dst, 64);
                }
            },
            ConstantData::Null { .. } => {
                self.line(&["    xor eax, eax"]);
                self.store_int("rax", dst, 64);
            },
            ConstantData::String { bytes } => {
                let mut owned: Vec<u8> = bytes.clone();
                owned.push(0);
                let label = self.rodata.intern(owned.as_slice());
                self.line(&["    lea rax, [rel ", label.as_str(), "]"]);
                self.store_int("rax", dst, 64);
            },
            ConstantData::Aggregate { ty, elements } => {
                let mut i: usize = 0;
                while i < elements.len()
                    invariant
                        i <= elements@.len(),
                        fuel > 0,
                        self.ok(),
                    decreases elements@.len() - i,
                {
                    let elem = match m.constants.get(elements[i]) {
                        Some(d) => d,
                        None => {
                            let n = dec_string(elements[i].0 as u128);
                            return Err(invalid(&["unknown aggregate element c", n.as_str()]));
                        },
                    };
                    match field_type(&m.types, *ty, i as u64) {
                        Ok(_) => {},
                        Err(e) => {
                            return Err(e);
                        },
                    }
                    let off = match field_offset(&m.types, *ty, i as u64) {
                        Ok(o) => o,
                        Err(e) => {
                            return Err(e);
                        },
                    };
                    let at = match self.offset_disp(dst, off) {
                        Ok(d) => d,
                        Err(e) => {
                            return Err(e);
                        },
                    };
                    match self.materialize_const(m, elem, at, fuel - 1) {
                        Ok(()) => {},
                        Err(e) => {
                            return Err(e);
                        },
                    }
                    i = i + 1;
                }
            },
        }
        Ok(())
    }

    #[verifier::rlimit(40)]
    #[verifier::spinoff_prover]
    fn gen_arith(&mut self, m: &Module, f: &Function, op: ArithOp, lhs: ValueId, rhs: ValueId, inst: &Instruction) -> (r: Result<(), BackendError>)
        requires
            old(self).ok(),
        ensures
            final(self).ok(),
            r is Ok <==> old(self).binary_ok(*f, lhs, rhs, *inst),
            r is Err ==> *final(self) == *old(self),
            r is Ok ==> Self::emitted_lines(
                old(self),
                final(self),
                if float_type(*m, f.values@[lhs.0 as int].ty) {
                    let single = f32_type(*m, f.values@[lhs.0 as int].ty);
                    seq![
                        load_float_text("xmm0"@, old(self).disp@[lhs.0 as int], single),
                        load_float_text("xmm1"@, old(self).disp@[rhs.0 as int], single),
                        "    "@ + float_arith_stem(op) + (if single {
                            "ss"@
                        } else {
                            "sd"@
                        }) + " xmm0, xmm1"@,
                        store_float_text("xmm0"@, old(self).disp@[result_key(*inst) as int], single),
                    ]
                } else {
                    old(self).int_binary_lines(*m, *f, lhs, rhs, *inst, "    "@ + int_arith_mnemonic(op) + " rax, rcx"@)
                },
            ),
    {
        let (lsrc, ty) = match self.operand(f, lhs) {
            Ok(x) => x,
            Err(e) => {
                return Err(e);
            },
        };
        let rsrc = match self.slot(rhs) {
            Ok(d) => d,
            Err(e) => {
                return Err(e);
            },
        };
        let dst = match self.result_disp(inst) {
            Ok(d) => d,
            Err(e) => {
                return Err(e);
            },
        };
        if is_float(&m.types, ty) {
            let single = is_f32(&m.types, ty);
            let mnemonic = match op {
                ArithOp::Add => "add",
                ArithOp::Sub => "sub",
                ArithOp::Mul => "mul",
            };
            let suffix = if single {
                "ss"
            } else {
                "sd"
            };
            let ghost s0 = *self;
            self.load_float("xmm0", lsrc, single);
            let ghost s1 = *self;
            self.load_float("xmm1", rsrc, single);
            let ghost s2 = *self;
            let t = cat4("    ", mnemonic, suffix, " xmm0, xmm1");
            self.line_text(t.as_str());
            let ghost s3 = *self;
            self.store_float("xmm0", dst, single);
            proof {
                Self::lemma_four(&s0, &s1, &s2, &s3, self, load_float_text("xmm0"@, lsrc, single), load_float_text("xmm1"@, rsrc, single), t@, store_float_text("xmm0"@, dst, single));
            }
        } else {
            let (bits, signed) = self.int_info(m, ty);
            let mnemonic = match op {
                ArithOp::Add => "add",
                ArithOp::Sub => "sub",
                ArithOp::Mul => "imul",
            };
            let ghost s0 = *self;
            self.load_int("rax", lsrc, bits, signed);
            let ghost s1 = *self;
            self.load_int("rcx", rsrc, bits, signed);
            let ghost s2 = *self;
            let t = cat3("    ", mnemonic, " rax, rcx");
            self.line_text(t.as_str());
            let ghost s3 = *self;
            self.store_int("rax", dst, bits);
            proof {
                Self::lemma_four(&s0, &s1, &s2, &s3, self, load_text("rax"@, mem_text(lsrc), bits, signed), load_text("rcx"@, mem_text(rsrc), bits, signed), t@, store_text(mem_text(dst), "rax"@, bits));
            }
        }
        Ok(())
    }

    #[verifier::rlimit(40)]
    #[verifier::spinoff_prover]
    fn gen_bitwise(&mut self, m: &Module, f: &Function, mnemonic: &str, lhs: ValueId, rhs: ValueId, inst: &Instruction) -> (r: Result<(), BackendError>)
        requires
            old(self).ok(),
        ensures
            final(self).ok(),
            r is Ok <==> old(self).binary_ok(*f, lhs, rhs, *inst),
            r is Err ==> *final(self) == *old(self),
            r is Ok ==> Self::emitted_lines(
                old(self),
                final(self),
                old(self).int_binary_lines(*m, *f, lhs, rhs, *inst, "    "@ + mnemonic@ + " rax, rcx"@),
            ),
    {
        let (lsrc, ty) = match self.operand(f, lhs) {
            Ok(x) => x,
            Err(e) => {
                return Err(e);
            },
        };
        let (bits, signed) = self.int_info(m, ty);
        let rsrc = match self.slot(rhs) {
            Ok(d) => d,
            Err(e) => {
                return Err(e);
            },
        };
        let dst = match self.result_disp(inst) {
            Ok(d) => d,
            Err(e) => {
                return Err(e);
            },
        };
        let ghost s0 = *self;
        self.load_int("rax", lsrc, bits, signed);
        let ghost s1 = *self;
        self.load_int("rcx", rsrc, bits, signed);
        let ghost s2 = *self;
        let t = cat3("    ", mnemonic, " rax, rcx");
        self.line_text(t.as_str());
        let ghost s3 = *self;
        self.store_int("rax", dst, bits);
        proof {
            Self::lemma_four(&s0, &s1, &s2, &s3, self, load_text("rax"@, mem_text(lsrc), bits, signed), load_text("rcx"@, mem_text(rsrc), bits, signed), t@, store_text(mem_text(dst), "rax"@, bits));
        }
        Ok(())
    }

    #[verifier::rlimit(80)]
    #[verifier::spinoff_prover]
    fn gen_div(&mut self, m: &Module, f: &Function, lhs: ValueId, rhs: ValueId, inst: &Instruction, is_rem: bool) -> (r: Result<(), BackendError>)
        requires
            old(self).ok(),
        ensures
            final(self).ok(),
            r is Ok <==> old(self).binary_ok(*f, lhs, rhs, *inst),
            r is Err ==> *final(self) == *old(self),
            r is Ok ==> if float_type(*m, f.values@[lhs.0 as int].ty) {
                let single = f32_type(*m, f.values@[lhs.0 as int].ty);
                Self::emitted_lines(
                    old(self),
                    final(self),
                    seq![
                        load_float_text("xmm0"@, old(self).disp@[lhs.0 as int], single),
                        load_float_text("xmm1"@, old(self).disp@[rhs.0 as int], single),
                        "    div"@ + (if single {
                            "ss"@
                        } else {
                            "sd"@
                        }) + " xmm0, xmm1"@,
                        store_float_text("xmm0"@, old(self).disp@[result_key(*inst) as int], single),
                    ],
                )
            } else {
                let info = int_info_of(*m, f.values@[lhs.0 as int].ty);
                &&& final(self).tmp == div_tmp(old(self).tmp, info.0, info.1)
                &&& Self::wrote(
                    old(self),
                    final(self),
                    int_div_lines(
                        old(self).fname@,
                        old(self).tmp,
                        old(self).disp@[lhs.0 as int],
                        old(self).disp@[rhs.0 as int],
                        old(self).disp@[result_key(*inst) as int],
                        info.0,
                        info.1,
                        is_rem,
                    ),
                )
            },
    {
        let (lsrc, ty) = match self.operand(f, lhs) {
            Ok(x) => x,
            Err(e) => {
                return Err(e);
            },
        };
        let dst = match self.result_disp(inst) {
            Ok(d) => d,
            Err(e) => {
                return Err(e);
            },
        };
        let rsrc = match self.slot(rhs) {
            Ok(d) => d,
            Err(e) => {
                return Err(e);
            },
        };
        if is_float(&m.types, ty) {
            let single = is_f32(&m.types, ty);
            let suffix = if single {
                "ss"
            } else {
                "sd"
            };
            let ghost s0 = *self;
            self.load_float("xmm0", lsrc, single);
            let ghost s1 = *self;
            self.load_float("xmm1", rsrc, single);
            let ghost s2 = *self;
            let t = cat3("    div", suffix, " xmm0, xmm1");
            self.line_text(t.as_str());
            let ghost s3 = *self;
            self.store_float("xmm0", dst, single);
            proof {
                Self::lemma_four(&s0, &s1, &s2, &s3, self, load_float_text("xmm0"@, lsrc, single), load_float_text("xmm1"@, rsrc, single), t@, store_float_text("xmm0"@, dst, single));
            }
            return Ok(());
        }
        let (bits, signed) = self.int_info(m, ty);
        let ghost s0 = *self;
        proof {
            Self::lemma_wrote_start(&s0);
        }
        let ghost mut ls: Seq<Seq<char>> = Seq::empty();
        let ghost mut g = *self;
        self.load_int("rax", lsrc, bits, signed);
        proof {
            Self::lemma_wrote_line(&s0, &g, self, ls, load_text("rax"@, mem_text(lsrc), bits, signed));
            ls = ls.push(load_text("rax"@, mem_text(lsrc), bits, signed));
            g = *self;
        }
        self.load_int("rcx", rsrc, bits, signed);
        proof {
            Self::lemma_wrote_line(&s0, &g, self, ls, load_text("rcx"@, mem_text(rsrc), bits, signed));
            ls = ls.push(load_text("rcx"@, mem_text(rsrc), bits, signed));
            g = *self;
        }
        let ghost head = ls;
        if signed {
            // IDIV traps on INT64_MIN / -1; the IR wraps the quotient and
            // defines the remainder as zero.
            let done = self.tmp_label("divdone");
            proof {
                Self::lemma_wrote_label(&s0, &g, self, ls);
                g = *self;
            }
            if bits == 64 {
                let normal = self.tmp_label("divnormal");
                proof {
                    Self::lemma_wrote_label(&s0, &g, self, ls);
                    g = *self;
                }
                self.line_text("    cmp rcx, -1");
                proof {
                    Self::lemma_wrote_line(&s0, &g, self, ls, "    cmp rcx, -1"@);
                    ls = ls.push("    cmp rcx, -1"@);
                    g = *self;
                }
                let j1 = cat2("    jne ", normal.as_str());
                self.line_text(j1.as_str());
                proof {
                    Self::lemma_wrote_line(&s0, &g, self, ls, j1@);
                    ls = ls.push(j1@);
                    g = *self;
                }
                self.line_text("    mov rdx, 0x8000000000000000");
                proof {
                    Self::lemma_wrote_line(&s0, &g, self, ls, "    mov rdx, 0x8000000000000000"@);
                    ls = ls.push("    mov rdx, 0x8000000000000000"@);
                    g = *self;
                }
                self.line_text("    cmp rax, rdx");
                proof {
                    Self::lemma_wrote_line(&s0, &g, self, ls, "    cmp rax, rdx"@);
                    ls = ls.push("    cmp rax, rdx"@);
                    g = *self;
                }
                self.line_text(j1.as_str());
                proof {
                    Self::lemma_wrote_line(&s0, &g, self, ls, j1@);
                    ls = ls.push(j1@);
                    g = *self;
                }
                self.line_text("    xor edx, edx");
                proof {
                    Self::lemma_wrote_line(&s0, &g, self, ls, "    xor edx, edx"@);
                    ls = ls.push("    xor edx, edx"@);
                    g = *self;
                }
                let j2 = cat2("    jmp ", done.as_str());
                self.line_text(j2.as_str());
                proof {
                    Self::lemma_wrote_line(&s0, &g, self, ls, j2@);
                    ls = ls.push(j2@);
                    g = *self;
                }
                let l = cat2(normal.as_str(), ":");
                self.line_text(l.as_str());
                proof {
                    Self::lemma_wrote_line(&s0, &g, self, ls, l@);
                    ls = ls.push(l@);
                    g = *self;
                }
            }
            self.line_text("    cqo");
            proof {
                Self::lemma_wrote_line(&s0, &g, self, ls, "    cqo"@);
                ls = ls.push("    cqo"@);
                g = *self;
            }
            self.line_text("    idiv rcx");
            proof {
                Self::lemma_wrote_line(&s0, &g, self, ls, "    idiv rcx"@);
                ls = ls.push("    idiv rcx"@);
                g = *self;
            }
            if bits == 64 {
                let l = cat2(done.as_str(), ":");
                self.line_text(l.as_str());
                proof {
                    Self::lemma_wrote_line(&s0, &g, self, ls, l@);
                    ls = ls.push(l@);
                    g = *self;
                }
            }
        } else {
            self.line_text("    xor edx, edx");
            proof {
                Self::lemma_wrote_line(&s0, &g, self, ls, "    xor edx, edx"@);
                ls = ls.push("    xor edx, edx"@);
                g = *self;
            }
            self.line_text("    div rcx");
            proof {
                Self::lemma_wrote_line(&s0, &g, self, ls, "    div rcx"@);
                ls = ls.push("    div rcx"@);
                g = *self;
            }
        }
        let ghost body_end = ls;
        if is_rem {
            self.line_text("    mov rax, rdx");
            proof {
                Self::lemma_wrote_line(&s0, &g, self, ls, "    mov rax, rdx"@);
                ls = ls.push("    mov rax, rdx"@);
                g = *self;
            }
        }
        self.store_int("rax", dst, bits);
        proof {
            Self::lemma_wrote_line(&s0, &g, self, ls, store_text(mem_text(dst), "rax"@, bits));
            ls = ls.push(store_text(mem_text(dst), "rax"@, bits));
            assert(ls =~= int_div_lines(s0.fname@, s0.tmp, lsrc, rsrc, dst, bits, signed, is_rem));
        }
        Ok(())
    }

    #[verifier::rlimit(40)]
    #[verifier::spinoff_prover]
    fn gen_shift(&mut self, m: &Module, f: &Function, lhs: ValueId, rhs: ValueId, inst: &Instruction, is_left: bool) -> (r: Result<(), BackendError>)
        requires
            old(self).ok(),
        ensures
            final(self).ok(),
            r is Ok <==> old(self).binary_ok(*f, lhs, rhs, *inst) && (rhs.0 as int) < f.values@.len(),
            r is Err ==> *final(self) == *old(self),
            r is Ok ==> final(self).tmp == next_tmp(next_tmp(old(self).tmp)) && Self::wrote(
                old(self),
                final(self),
                shift_lines(
                    old(self).fname@,
                    old(self).tmp,
                    old(self).disp@[lhs.0 as int],
                    old(self).disp@[rhs.0 as int],
                    old(self).disp@[result_key(*inst) as int],
                    int_info_of(*m, f.values@[lhs.0 as int].ty).0,
                    int_info_of(*m, f.values@[lhs.0 as int].ty).1,
                    int_bits_of(*m, f.values@[rhs.0 as int].ty),
                    is_left,
                ),
            ),
    {
        let (lsrc, ty) = match self.operand(f, lhs) {
            Ok(x) => x,
            Err(e) => {
                return Err(e);
            },
        };
        let (bits, signed) = self.int_info(m, ty);
        let (rsrc, cty) = match self.operand(f, rhs) {
            Ok(x) => x,
            Err(e) => {
                return Err(e);
            },
        };
        let dst = match self.result_disp(inst) {
            Ok(d) => d,
            Err(e) => {
                return Err(e);
            },
        };
        let ghost s0 = *self;
        proof {
            Self::lemma_wrote_start(&s0);
        }
        self.load_int("rax", lsrc, bits, signed);
        let ghost g1 = *self;
        proof {
            Self::lemma_wrote_line(&s0, &s0, &g1, Seq::empty(), load_text("rax"@, mem_text(lsrc), bits, signed));
        }
        let ghost ls1 = Seq::<Seq<char>>::empty().push(load_text("rax"@, mem_text(lsrc), bits, signed));
        let count_bits = self.int_bits(m, cty);
        self.load_int("rcx", rsrc, count_bits, false);
        let ghost g2 = *self;
        let ghost ls2 = ls1.push(load_text("rcx"@, mem_text(rsrc), count_bits, false));
        proof {
            Self::lemma_wrote_line(&s0, &g1, &g2, ls1, load_text("rcx"@, mem_text(rsrc), count_bits, false));
        }
        let special = self.tmp_label("shovf");
        let ghost g3 = *self;
        let done = self.tmp_label("shdone");
        let ghost g4 = *self;
        proof {
            Self::lemma_wrote_label(&s0, &g2, &g3, ls2);
            Self::lemma_wrote_label(&s0, &g3, &g4, ls2);
        }
        let w = dec_string(bits as u128);
        let a = cat2("    cmp rcx, ", w.as_str());
        self.line_text(a.as_str());
        let ghost g5 = *self;
        let b = cat2("    jae ", special.as_str());
        self.line_text(b.as_str());
        let ghost g6 = *self;
        let c = if is_left {
            "    shl rax, cl"
        } else if signed {
            "    sar rax, cl"
        } else {
            "    shr rax, cl"
        };
        self.line_text(c);
        let ghost g7 = *self;
        let d = cat2("    jmp ", done.as_str());
        self.line_text(d.as_str());
        let ghost g8 = *self;
        let e = cat2(special.as_str(), ":");
        self.line_text(e.as_str());
        let ghost g9 = *self;
        let x = if is_left || !signed {
            "    xor eax, eax"
        } else {
            "    sar rax, 63"
        };
        self.line_text(x);
        let ghost g10 = *self;
        let y = cat2(done.as_str(), ":");
        self.line_text(y.as_str());
        let ghost g11 = *self;
        self.store_int("rax", dst, bits);
        proof {
            Self::lemma_wrote_line(&s0, &g4, &g5, ls2, a@);
            Self::lemma_wrote_line(&s0, &g5, &g6, ls2.push(a@), b@);
            Self::lemma_wrote_line(&s0, &g6, &g7, ls2.push(a@).push(b@), c@);
            Self::lemma_wrote_line(&s0, &g7, &g8, ls2.push(a@).push(b@).push(c@), d@);
            Self::lemma_wrote_line(&s0, &g8, &g9, ls2.push(a@).push(b@).push(c@).push(d@), e@);
            Self::lemma_wrote_line(&s0, &g9, &g10, ls2.push(a@).push(b@).push(c@).push(d@).push(e@), x@);
            Self::lemma_wrote_line(&s0, &g10, &g11, ls2.push(a@).push(b@).push(c@).push(d@).push(e@).push(x@), y@);
            Self::lemma_wrote_line(
                &s0,
                &g11,
                self,
                ls2.push(a@).push(b@).push(c@).push(d@).push(e@).push(x@).push(y@),
                store_text(mem_text(dst), "rax"@, bits),
            );
            assert(ls2.push(a@).push(b@).push(c@).push(d@).push(e@).push(x@).push(y@).push(store_text(mem_text(dst), "rax"@, bits))
                =~= shift_lines(s0.fname@, s0.tmp, lsrc, rsrc, dst, bits, signed, count_bits, is_left));
        }
        Ok(())
    }

    #[verifier::rlimit(60)]
    #[verifier::spinoff_prover]
    fn gen_compare(&mut self, m: &Module, f: &Function, op: CmpOp, lhs: ValueId, rhs: ValueId, inst: &Instruction) -> (r: Result<(), BackendError>)
        requires
            old(self).ok(),
        ensures
            final(self).ok(),
            r is Ok <==> old(self).binary_ok(*f, lhs, rhs, *inst),
            r is Err ==> *final(self) == *old(self),
            r is Ok ==> Self::emitted_lines(
                old(self),
                final(self),
                compare_lines(
                    *m,
                    f.values@[lhs.0 as int].ty,
                    op,
                    old(self).disp@[lhs.0 as int],
                    old(self).disp@[rhs.0 as int],
                    old(self).disp@[result_key(*inst) as int],
                ),
            ),
    {
        let (lsrc, ty) = match self.operand(f, lhs) {
            Ok(x) => x,
            Err(e) => {
                return Err(e);
            },
        };
        let rsrc = match self.slot(rhs) {
            Ok(d) => d,
            Err(e) => {
                return Err(e);
            },
        };
        let dst = match self.result_disp(inst) {
            Ok(d) => d,
            Err(e) => {
                return Err(e);
            },
        };
        let ghost s0 = *self;
        proof {
            Self::lemma_no_lines(&s0);
        }
        let ghost mut ls: Seq<Seq<char>> = Seq::empty();
        let ghost mut g = *self;
        if is_float(&m.types, ty) {
            let single = is_f32(&m.types, ty);
            let suffix = if single {
                "ss"
            } else {
                "sd"
            };
            self.load_float("xmm0", lsrc, single);
            proof {
                Self::lemma_one_more(&s0, &g, self, ls, load_float_text("xmm0"@, lsrc, single));
                ls = ls.push(load_float_text("xmm0"@, lsrc, single));
                g = *self;
            }
            self.load_float("xmm1", rsrc, single);
            proof {
                Self::lemma_one_more(&s0, &g, self, ls, load_float_text("xmm1"@, rsrc, single));
                ls = ls.push(load_float_text("xmm1"@, rsrc, single));
                g = *self;
            }
            let t = cat3("    ucomi", suffix, " xmm0, xmm1");
            self.line_text(t.as_str());
            proof {
                Self::lemma_one_more(&s0, &g, self, ls, t@);
                ls = ls.push(t@);
                g = *self;
            }
            let (a, b, c): (&str, &str, &str) = match op {
                CmpOp::Eq => ("    sete al", "    setnp cl", "    and al, cl"),
                CmpOp::Ne => ("    setne al", "    setp cl", "    or al, cl"),
                CmpOp::Lt => ("    setb al", "    setnp cl", "    and al, cl"),
                CmpOp::Le => ("    setbe al", "    setnp cl", "    and al, cl"),
                CmpOp::Gt => ("    seta al", "", ""),
                CmpOp::Ge => ("    setae al", "", ""),
            };
            self.line_text(a);
            proof {
                Self::lemma_one_more(&s0, &g, self, ls, a@);
                ls = ls.push(a@);
                g = *self;
            }
            match op {
                CmpOp::Gt | CmpOp::Ge => {},
                _ => {
                    self.line_text(b);
                    proof {
                        Self::lemma_one_more(&s0, &g, self, ls, b@);
                        ls = ls.push(b@);
                        g = *self;
                    }
                    self.line_text(c);
                    proof {
                        Self::lemma_one_more(&s0, &g, self, ls, c@);
                        ls = ls.push(c@);
                        g = *self;
                    }
                },
            }
        } else {
            let (bits, signed) = self.int_info(m, ty);
            self.load_int("rax", lsrc, bits, signed);
            proof {
                Self::lemma_one_more(&s0, &g, self, ls, load_text("rax"@, mem_text(lsrc), bits, signed));
                ls = ls.push(load_text("rax"@, mem_text(lsrc), bits, signed));
                g = *self;
            }
            self.load_int("rcx", rsrc, bits, signed);
            proof {
                Self::lemma_one_more(&s0, &g, self, ls, load_text("rcx"@, mem_text(rsrc), bits, signed));
                ls = ls.push(load_text("rcx"@, mem_text(rsrc), bits, signed));
                g = *self;
            }
            self.line_text("    cmp rax, rcx");
            proof {
                Self::lemma_one_more(&s0, &g, self, ls, "    cmp rax, rcx"@);
                ls = ls.push("    cmp rax, rcx"@);
                g = *self;
            }
            let cc = match op {
                CmpOp::Eq => "sete",
                CmpOp::Ne => "setne",
                CmpOp::Lt => if signed {
                    "setl"
                } else {
                    "setb"
                },
                CmpOp::Le => if signed {
                    "setle"
                } else {
                    "setbe"
                },
                CmpOp::Gt => if signed {
                    "setg"
                } else {
                    "seta"
                },
                CmpOp::Ge => if signed {
                    "setge"
                } else {
                    "setae"
                },
            };
            let t = cat3("    ", cc, " al");
            self.line_text(t.as_str());
            proof {
                Self::lemma_one_more(&s0, &g, self, ls, t@);
                ls = ls.push(t@);
                g = *self;
            }
        }
        self.store_int("rax", dst, 8);
        proof {
            Self::lemma_one_more(&s0, &g, self, ls, store_text(mem_text(dst), "rax"@, 8));
            ls = ls.push(store_text(mem_text(dst), "rax"@, 8));
            assert(ls =~= compare_lines(*m, ty, op, lsrc, rsrc, dst));
        }
        Ok(())
    }

    /// Copies `size` bytes from `[rsi]` to `[rdi]`.
    fn copy_bytes(&mut self, size: u64)
        requires
            old(self).ok(),
        ensures
            final(self).ok(),
            Self::emitted_lines(old(self), final(self), copy_bytes_lines(size)),
    {
        let ghost s0 = *self;
        let n = dec_string(size as u128);
        let a = cat2("    mov rcx, ", n.as_str());
        self.line_text(a.as_str());
        let ghost s1 = *self;
        self.line_text("    cld");
        let ghost s2 = *self;
        self.line_text("    rep movsb");
        proof {
            Self::lemma_no_lines(&s0);
            Self::lemma_one_more(&s0, &s0, &s1, Seq::empty(), a@);
            Self::lemma_one_more(&s0, &s1, &s2, seq![a@], "    cld"@);
            Self::lemma_one_more(&s0, &s2, self, seq![a@].push("    cld"@), "    rep movsb"@);
            assert(seq![a@].push("    cld"@).push("    rep movsb"@) =~= copy_bytes_lines(size));
        }
    }

    #[verifier::rlimit(40)]
    #[verifier::spinoff_prover]
    fn gen_load(&mut self, m: &Module, f: &Function, ty: TypeId, pointer: ValueId, inst: &Instruction) -> (r: Result<(), BackendError>)
        requires
            old(self).ok(),
        ensures
            final(self).ok(),
            r is Ok <==> (pointer.0 as int) < old(self).disp@.len() && (inst.result matches Some(v) && (v.0 as int)
                < old(self).disp@.len()) && (aggregate_type(*m, ty) ==> spec_size(
                m.types.types@,
                ty,
                m.types.types@.len() as nat,
            ) is Some),
            r is Ok ==> Self::emitted_lines(
                old(self),
                final(self),
                seq![load_text("rax"@, old(self).slot_text(pointer), 64, false)] + load_lines(
                    *m,
                    ty,
                    old(self).disp@[result_key(*inst) as int],
                ),
            ),
    {
        let psrc = match self.slot(pointer) {
            Ok(d) => d,
            Err(e) => {
                return Err(e);
            },
        };
        let dst = match self.result_disp(inst) {
            Ok(d) => d,
            Err(e) => {
                return Err(e);
            },
        };
        let ghost s0 = *self;
        self.load_int("rax", psrc, 64, false);
        let ghost s1 = *self;
        let ghost first = seq![load_text("rax"@, mem_text(psrc), 64, false)];
        proof {
            Self::lemma_single(&s0, &s1, first[0]);
        }
        if is_aggregate(&m.types, ty) {
            let size = match size_of(&m.types, ty) {
                Ok(s) => s,
                Err(e) => {
                    return Err(e);
                },
            };
            self.line_text("    mov rsi, rax");
            let ghost s2 = *self;
            let dm = self.mem(dst);
            let a = cat2("    lea rdi, ", dm.as_str());
            self.line_text(a.as_str());
            let ghost s3 = *self;
            self.copy_bytes(size);
            proof {
                Self::lemma_single(&s1, &s2, "    mov rsi, rax"@);
                Self::lemma_one_more(&s1, &s2, &s3, seq!["    mov rsi, rax"@], a@);
                assert(seq!["    mov rsi, rax"@].push(a@) =~= seq!["    mov rsi, rax"@, a@]);
                Self::lemma_lines_concat(&s1, &s3, self, seq!["    mov rsi, rax"@, a@], copy_bytes_lines(size));
                Self::lemma_lines_concat(&s0, &s1, self, first, seq!["    mov rsi, rax"@, a@] + copy_bytes_lines(size));
            }
        } else if is_float(&m.types, ty) {
            let single = is_f32(&m.types, ty);
            let t = if single {
                "    movss xmm0, dword [rax]"
            } else {
                "    movsd xmm0, qword [rax]"
            };
            self.line_text(t);
            let ghost s2 = *self;
            self.store_float("xmm0", dst, single);
            proof {
                Self::lemma_single(&s1, &s2, t@);
                Self::lemma_one_more(&s1, &s2, self, seq![t@], store_float_text("xmm0"@, dst, single));
                assert(seq![t@].push(store_float_text("xmm0"@, dst, single)) =~= seq![t@, store_float_text("xmm0"@, dst, single)]);
                Self::lemma_lines_concat(&s0, &s1, self, first, seq![t@, store_float_text("xmm0"@, dst, single)]);
            }
        } else {
            let (bits, signed) = self.int_info(m, ty);
            self.load_from_addr("rdx", "rax", bits, signed);
            let ghost s2 = *self;
            let ghost l1 = load_text("rdx"@, "["@ + "rax"@ + "]"@, bits, signed);
            proof {
                Self::lemma_single(&s1, &s2, l1);
            }
            let ghost mid = if bits == 1 {
                seq![l1, "    and edx, 1"@]
            } else {
                seq![l1]
            };
            if bits == 1 {
                self.line_text("    and edx, 1");
                proof {
                    Self::lemma_one_more(&s1, &s2, self, seq![l1], "    and edx, 1"@);
                    assert(seq![l1].push("    and edx, 1"@) =~= mid);
                }
            }
            let ghost s3 = *self;
            self.store_int("rdx", dst, bits);
            proof {
                Self::lemma_one_more(&s1, &s3, self, mid, store_text(mem_text(dst), "rdx"@, bits));
                Self::lemma_lines_concat(&s0, &s1, self, first, mid.push(store_text(mem_text(dst), "rdx"@, bits)));
            }
        }
        Ok(())
    }

    #[verifier::rlimit(40)]
    #[verifier::spinoff_prover]
    fn gen_store(&mut self, m: &Module, f: &Function, pointer: ValueId, value: ValueId) -> (r: Result<(), BackendError>)
        requires
            old(self).ok(),
        ensures
            final(self).ok(),
            r is Ok <==> (pointer.0 as int) < old(self).disp@.len() && (value.0 as int) < old(self).disp@.len() && (value.0 as int)
                < f.values@.len() && (aggregate_type(*m, f.values@[value.0 as int].ty) ==> spec_size(
                m.types.types@,
                f.values@[value.0 as int].ty,
                m.types.types@.len() as nat,
            ) is Some),
            r is Ok ==> Self::emitted_lines(
                old(self),
                final(self),
                seq![load_text("rax"@, old(self).slot_text(pointer), 64, false)] + store_lines(
                    *m,
                    f.values@[value.0 as int].ty,
                    old(self).disp@[value.0 as int],
                ),
            ),
    {
        let psrc = match self.slot(pointer) {
            Ok(d) => d,
            Err(e) => {
                return Err(e);
            },
        };
        let (vsrc, ty) = match self.operand(f, value) {
            Ok(x) => x,
            Err(e) => {
                return Err(e);
            },
        };
        let ghost s0 = *self;
        self.load_int("rax", psrc, 64, false);
        let ghost s1 = *self;
        let ghost first = seq![load_text("rax"@, mem_text(psrc), 64, false)];
        proof {
            Self::lemma_single(&s0, &s1, first[0]);
        }
        if is_aggregate(&m.types, ty) {
            let size = match size_of(&m.types, ty) {
                Ok(s) => s,
                Err(e) => {
                    return Err(e);
                },
            };
            self.line_text("    mov rdi, rax");
            let ghost s2 = *self;
            let sm = self.mem(vsrc);
            let a = cat2("    lea rsi, ", sm.as_str());
            self.line_text(a.as_str());
            let ghost s3 = *self;
            self.copy_bytes(size);
            proof {
                Self::lemma_single(&s1, &s2, "    mov rdi, rax"@);
                Self::lemma_one_more(&s1, &s2, &s3, seq!["    mov rdi, rax"@], a@);
                assert(seq!["    mov rdi, rax"@].push(a@) =~= seq!["    mov rdi, rax"@, a@]);
                Self::lemma_lines_concat(&s1, &s3, self, seq!["    mov rdi, rax"@, a@], copy_bytes_lines(size));
                Self::lemma_lines_concat(&s0, &s1, self, first, seq!["    mov rdi, rax"@, a@] + copy_bytes_lines(size));
            }
        } else if is_float(&m.types, ty) {
            let single = is_f32(&m.types, ty);
            self.load_float("xmm0", vsrc, single);
            let ghost s2 = *self;
            let t = if single {
                "    movss dword [rax], xmm0"
            } else {
                "    movsd qword [rax], xmm0"
            };
            self.line_text(t);
            proof {
                Self::lemma_single(&s1, &s2, load_float_text("xmm0"@, vsrc, single));
                Self::lemma_one_more(&s1, &s2, self, seq![load_float_text("xmm0"@, vsrc, single)], t@);
                assert(seq![load_float_text("xmm0"@, vsrc, single)].push(t@) =~= seq![load_float_text("xmm0"@, vsrc, single), t@]);
                Self::lemma_lines_concat(&s0, &s1, self, first, seq![load_float_text("xmm0"@, vsrc, single), t@]);
            }
        } else {
            let (bits, signed) = self.int_info(m, ty);
            self.load_int("rdx", vsrc, bits, signed);
            let ghost s2 = *self;
            self.store_to_addr("rax", "rdx", bits);
            proof {
                let l1 = load_text("rdx"@, mem_text(vsrc), bits, signed);
                let l2 = store_text("["@ + "rax"@ + "]"@, "rdx"@, bits);
                Self::lemma_single(&s1, &s2, l1);
                Self::lemma_one_more(&s1, &s2, self, seq![l1], l2);
                assert(seq![l1].push(l2) =~= seq![l1, l2]);
                Self::lemma_lines_concat(&s0, &s1, self, first, seq![l1, l2]);
            }
        }
        Ok(())
    }

    #[verifier::rlimit(40)]
    #[verifier::spinoff_prover]
    fn gen_ptr_offset(&mut self, m: &Module, f: &Function, pointer: ValueId, offset: ValueId, inst: &Instruction) -> (r: Result<(), BackendError>)
        requires
            old(self).ok(),
        ensures
            final(self).ok(),
            r is Ok <==> old(self).binary_ok(*f, pointer, offset, *inst) && (offset.0 as int) < f.values@.len() && (m.types.spec_get(
                f.values@[pointer.0 as int].ty,
            ) matches Some(TypeData::Pointer { pointee, .. }) && spec_size(
                m.types.types@,
                *pointee,
                m.types.types@.len() as nat,
            ) is Some),
            r is Err ==> *final(self) == *old(self),
            r is Ok ==> Self::emitted_lines(
                old(self),
                final(self),
                ptr_offset_lines(
                    old(self).slot_text(pointer),
                    old(self).slot_text(offset),
                    int_bits_of(*m, f.values@[offset.0 as int].ty),
                    spec_size(
                        m.types.types@,
                        m.types.spec_get(f.values@[pointer.0 as int].ty)->Some_0->pointee,
                        m.types.types@.len() as nat,
                    )->0 as u64,
                    old(self).slot_text(inst.result->0),
                ),
            ),
    {
        let (psrc, pty) = match self.operand(f, pointer) {
            Ok(x) => x,
            Err(e) => {
                return Err(e);
            },
        };
        let pointee = match m.types.get(pty) {
            Some(TypeData::Pointer { pointee, .. }) => *pointee,
            _ => {
                return Err(invalid(&["ptr_offset base is not a pointer"]));
            },
        };
        let elem_size = match size_of(&m.types, pointee) {
            Ok(s) => s,
            Err(e) => {
                return Err(e);
            },
        };
        let (osrc, oty) = match self.operand(f, offset) {
            Ok(x) => x,
            Err(e) => {
                return Err(e);
            },
        };
        let obits = self.int_bits(m, oty);
        let dst = match self.result_disp(inst) {
            Ok(d) => d,
            Err(e) => {
                return Err(e);
            },
        };
        let ghost s0 = *self;
        self.load_int("rax", psrc, 64, false);
        let ghost s1 = *self;
        // Offsets are signed bit patterns whatever the signedness of their
        // IR type.
        self.load_int("rcx", osrc, obits, true);
        let ghost s2 = *self;
        let ghost l1 = load_text("rax"@, mem_text(psrc), 64, false);
        let ghost l2 = load_text("rcx"@, mem_text(osrc), obits, true);
        proof {
            Self::lemma_single(&s0, &s1, l1);
            Self::lemma_one_more(&s0, &s1, &s2, seq![l1], l2);
            assert(seq![l1].push(l2) =~= seq![l1, l2]);
        }
        let ghost mid: Seq<Seq<char>> = if elem_size <= 0x7fff_ffff {
            seq!["    imul rcx, "@ + dec_chars(elem_size as nat)]
        } else {
            seq!["    mov rdx, "@ + decode_utf8(lit("0x") + hex_digits(elem_size as nat)), "    imul rcx, rdx"@]
        };
        if elem_size <= 0x7fff_ffff {
            let n = dec_string(elem_size as u128);
            let a = cat2("    imul rcx, ", n.as_str());
            self.line_text(a.as_str());
            proof {
                Self::lemma_one_more(&s0, &s2, self, seq![l1, l2], a@);
                assert(seq![l1, l2].push(a@) =~= seq![l1, l2] + mid);
            }
        } else {
            // IMUL's immediate is only a sign-extended 32-bit value.
            let h = hex_text(elem_size as u128);
            let a = cat2("    mov rdx, ", h.as_str());
            self.line_text(a.as_str());
            let ghost s3 = *self;
            self.line_text("    imul rcx, rdx");
            proof {
                encode_utf8_decode_utf8(h@);
                Self::lemma_one_more(&s0, &s2, &s3, seq![l1, l2], a@);
                Self::lemma_one_more(&s0, &s3, self, seq![l1, l2].push(a@), "    imul rcx, rdx"@);
                assert(seq![l1, l2].push(a@).push("    imul rcx, rdx"@) =~= seq![l1, l2] + mid);
            }
        }
        let ghost s4 = *self;
        self.line_text("    add rax, rcx");
        let ghost s5 = *self;
        self.store_int("rax", dst, 64);
        proof {
            Self::lemma_two_more(&s0, &s4, &s5, self, "    add rax, rcx"@, store_text(mem_text(dst), "rax"@, 64));
            assert(Self::emitted_lines(&s0, self, seq![l1, l2] + mid + seq!["    add rax, rcx"@, store_text(mem_text(dst), "rax"@, 64)]));
            assert(ptr_offset_lines(mem_text(psrc), mem_text(osrc), obits, elem_size, mem_text(dst)) == seq![l1, l2] + mid
                + seq!["    add rax, rcx"@, store_text(mem_text(dst), "rax"@, 64)]);
        }
        Ok(())
    }

    /// Converts the unsigned 64-bit value in the slot at `src` to a float in
    /// `xmm0`.
    #[verifier::rlimit(60)]
    #[verifier::spinoff_prover]
    fn u64_to_float(&mut self, src: i32, single: bool)
        requires
            old(self).ok(),
        ensures
            final(self).ok(),
            final(self).tmp == next_tmp(next_tmp(old(self).tmp)),
            Self::wrote(old(self), final(self), u64_to_float_body(old(self).fname@, old(self).tmp, src, single)),
    {
        let suffix = if single {
            "ss"
        } else {
            "sd"
        };
        let cvt = cat3("    cvtsi2", suffix, " xmm0, rax");
        let ghost s0 = *self;
        proof {
            Self::lemma_wrote_start(&s0);
        }
        let ghost mut ls: Seq<Seq<char>> = Seq::empty();
        let ghost mut g = *self;
        let big = self.tmp_label("u2f");
        proof {
            Self::lemma_wrote_label(&s0, &g, self, ls);
            g = *self;
        }
        let done = self.tmp_label("u2fd");
        proof {
            Self::lemma_wrote_label(&s0, &g, self, ls);
            g = *self;
        }
        self.load_int("rax", src, 64, false);
        proof {
            Self::lemma_wrote_line(&s0, &g, self, ls, load_text("rax"@, mem_text(src), 64, false));
            ls = ls.push(load_text("rax"@, mem_text(src), 64, false));
            g = *self;
        }
        let js = cat2("    js ", big.as_str());
        let jmp = cat2("    jmp ", done.as_str());
        let big_at = cat2(big.as_str(), ":");
        let cvt_rcx = cat3("    cvtsi2", suffix, " xmm0, rcx");
        let add = cat3("    add", suffix, " xmm0, xmm0");
        let done_at = cat2(done.as_str(), ":");
        self.line_text("    test rax, rax");
        proof {
            Self::lemma_wrote_line(&s0, &g, self, ls, "    test rax, rax"@);
            ls = ls.push("    test rax, rax"@);
            g = *self;
        }
        self.line_text(js.as_str());
        proof {
            Self::lemma_wrote_line(&s0, &g, self, ls, js@);
            ls = ls.push(js@);
            g = *self;
        }
        self.line_text(cvt.as_str());
        proof {
            Self::lemma_wrote_line(&s0, &g, self, ls, cvt@);
            ls = ls.push(cvt@);
            g = *self;
        }
        self.line_text(jmp.as_str());
        proof {
            Self::lemma_wrote_line(&s0, &g, self, ls, jmp@);
            ls = ls.push(jmp@);
            g = *self;
        }
        self.line_text(big_at.as_str());
        proof {
            Self::lemma_wrote_line(&s0, &g, self, ls, big_at@);
            ls = ls.push(big_at@);
            g = *self;
        }
        self.line_text("    mov rcx, rax");
        proof {
            Self::lemma_wrote_line(&s0, &g, self, ls, "    mov rcx, rax"@);
            ls = ls.push("    mov rcx, rax"@);
            g = *self;
        }
        self.line_text("    shr rcx, 1");
        proof {
            Self::lemma_wrote_line(&s0, &g, self, ls, "    shr rcx, 1"@);
            ls = ls.push("    shr rcx, 1"@);
            g = *self;
        }
        self.line_text("    and eax, 1");
        proof {
            Self::lemma_wrote_line(&s0, &g, self, ls, "    and eax, 1"@);
            ls = ls.push("    and eax, 1"@);
            g = *self;
        }
        self.line_text("    or rcx, rax");
        proof {
            Self::lemma_wrote_line(&s0, &g, self, ls, "    or rcx, rax"@);
            ls = ls.push("    or rcx, rax"@);
            g = *self;
        }
        self.line_text(cvt_rcx.as_str());
        proof {
            Self::lemma_wrote_line(&s0, &g, self, ls, cvt_rcx@);
            ls = ls.push(cvt_rcx@);
            g = *self;
        }
        self.line_text(add.as_str());
        proof {
            Self::lemma_wrote_line(&s0, &g, self, ls, add@);
            ls = ls.push(add@);
            g = *self;
        }
        self.line_text(done_at.as_str());
        proof {
            Self::lemma_wrote_line(&s0, &g, self, ls, done_at@);
            ls = ls.push(done_at@);
            g = *self;
        }
                proof {
            assert(ls =~= u64_to_float_body(s0.fname@, s0.tmp, src, single));
        }
    }

    #[verifier::rlimit(60)]
    #[verifier::spinoff_prover]
    fn gen_int_to_float(&mut self, m: &Module, f: &Function, to: TypeId, value: ValueId, inst: &Instruction) -> (r: Result<(), BackendError>)
        requires
            old(self).ok(),
        ensures
            final(self).ok(),
            r is Ok <==> (value.0 as int) < old(self).disp@.len() && (value.0 as int) < f.values@.len() && (inst.result matches Some(
                v,
            ) && (v.0 as int) < old(self).disp@.len()),
            r is Err ==> *final(self) == *old(self),
            r is Ok ==> {
                let info = int_info_of(*m, f.values@[value.0 as int].ty);
                &&& final(self).tmp == (if !info.1 && info.0 >= 64 {
                    next_tmp(next_tmp(old(self).tmp))
                } else {
                    old(self).tmp
                })
                &&& Self::wrote(
                    old(self),
                    final(self),
                    int_to_float_lines(
                        old(self).fname@,
                        old(self).tmp,
                        old(self).disp@[value.0 as int],
                        old(self).disp@[result_key(*inst) as int],
                        info.0,
                        info.1,
                        f32_type(*m, to),
                    ),
                )
            },
    {
        let single = is_f32(&m.types, to);
        let suffix = if single {
            "ss"
        } else {
            "sd"
        };
        let (src, vty) = match self.operand(f, value) {
            Ok(x) => x,
            Err(e) => {
                return Err(e);
            },
        };
        let (from_bits, from_signed) = self.int_info(m, vty);
        let dst = match self.result_disp(inst) {
            Ok(d) => d,
            Err(e) => {
                return Err(e);
            },
        };
        let ghost s0 = *self;
        proof {
            Self::lemma_wrote_start(&s0);
        }
        let ghost mut ls: Seq<Seq<char>> = Seq::empty();
        let ghost mut g = *self;
        let cvt = cat3("    cvtsi2", suffix, " xmm0, rax");
        if from_signed || from_bits < 64 {
            self.load_int("rax", src, from_bits, from_signed);
            proof {
                Self::lemma_wrote_line(&s0, &g, self, ls, load_text("rax"@, mem_text(src), from_bits, from_signed));
                ls = ls.push(load_text("rax"@, mem_text(src), from_bits, from_signed));
                g = *self;
            }
            self.line_text(cvt.as_str());
            proof {
                Self::lemma_wrote_line(&s0, &g, self, ls, cvt@);
                ls = ls.push(cvt@);
                g = *self;
            }
        } else {
            self.u64_to_float(src, single);
            proof {
                let body = u64_to_float_body(s0.fname@, s0.tmp, src, single);
                Self::lemma_wrote_concat(&s0, &g, self, ls, body);
                ls = ls + body;
                g = *self;
            }
        }
        self.store_float("xmm0", dst, single);
        proof {
            Self::lemma_wrote_line(&s0, &g, self, ls, store_float_text("xmm0"@, dst, single));
            ls = ls.push(store_float_text("xmm0"@, dst, single));
            assert(ls =~= int_to_float_lines(s0.fname@, s0.tmp, src, dst, from_bits, from_signed, single));
        }
        Ok(())
    }

    fn gen_float_to_int(&mut self, m: &Module, f: &Function, to: TypeId, value: ValueId, inst: &Instruction) -> (r: Result<(), BackendError>)
        requires
            old(self).ok(),
        ensures
            final(self).ok(),
    {
        let (src, vty) = match self.operand(f, value) {
            Ok(x) => x,
            Err(e) => {
                return Err(e);
            },
        };
        let from_f32 = is_f32(&m.types, vty);
        let (to_bits, to_signed) = self.int_info(m, to);
        let dst = match self.result_disp(inst) {
            Ok(d) => d,
            Err(e) => {
                return Err(e);
            },
        };
        if to_bits == 0 || to_bits > 64 {
            return Err(invalid(&["float_to_int target is not a supported integer"]));
        }
        self.load_float("xmm0", src, from_f32);
        if from_f32 {
            self.line(&["    cvtss2sd xmm0, xmm0"]);
        }
        let zero = self.tmp_label("ftiz");
        let done = self.tmp_label("ftid");
        let sat_max = self.tmp_label("ftimax");
        self.line(&["    ucomisd xmm0, xmm0"]);
        self.line(&["    jp ", zero.as_str()]);
        if to_signed {
            let sat_min = self.tmp_label("ftimin");
            let k = (to_bits - 1) as u64;
            let min_label = self.rodata.intern_u64(pow2_f64_bits(k, true));
            let max_label = self.rodata.intern_u64(pow2_f64_bits(k, false));
            self.line(&["    movsd xmm1, qword [rel ", max_label.as_str(), "]"]);
            self.line(&["    ucomisd xmm0, xmm1"]);
            self.line(&["    jae ", sat_max.as_str()]);
            self.line(&["    movsd xmm1, qword [rel ", min_label.as_str(), "]"]);
            self.line(&["    ucomisd xmm0, xmm1"]);
            self.line(&["    jb ", sat_min.as_str()]);
            self.line(&["    cvttsd2si rax, xmm0"]);
            self.line(&["    jmp ", done.as_str()]);
            self.line(&[sat_max.as_str(), ":"]);
            let max_value: u64 = if to_bits == 64 {
                0x7fff_ffff_ffff_ffffu64
            } else {
                assert(1u64 << k >= 1) by (bit_vector)
                    requires
                        k < 64,
                ;
                (1u64 << k) - 1
            };
            let hmax = hex_text(max_value as u128);
            self.line(&["    mov rax, ", hmax.as_str()]);
            self.line(&["    jmp ", done.as_str()]);
            self.line(&[sat_min.as_str(), ":"]);
            let min_value: u64 = 1u64 << k;
            let hmin = hex_text(min_value as u128);
            self.line(&["    mov rax, ", hmin.as_str()]);
            self.line(&["    jmp ", done.as_str()]);
        } else {
            // Any negative value saturates (or truncates) to 0.
            self.line(&["    xorpd xmm1, xmm1"]);
            self.line(&["    ucomisd xmm0, xmm1"]);
            self.line(&["    jb ", zero.as_str()]);
            let bound_label = self.rodata.intern_u64(pow2_f64_bits(to_bits as u64, false));
            self.line(&["    movsd xmm1, qword [rel ", bound_label.as_str(), "]"]);
            self.line(&["    ucomisd xmm0, xmm1"]);
            self.line(&["    jae ", sat_max.as_str()]);
            if to_bits == 64 {
                let small = self.tmp_label("ftismall");
                let half = self.rodata.intern_u64(pow2_f64_bits(63, false));
                self.line(&["    movsd xmm1, qword [rel ", half.as_str(), "]"]);
                self.line(&["    ucomisd xmm0, xmm1"]);
                self.line(&["    jb ", small.as_str()]);
                self.line(&["    subsd xmm0, xmm1"]);
                self.line(&["    cvttsd2si rax, xmm0"]);
                self.line(&["    mov rcx, 0x8000000000000000"]);
                self.line(&["    add rax, rcx"]);
                self.line(&["    jmp ", done.as_str()]);
                self.line(&[small.as_str(), ":"]);
                self.line(&["    cvttsd2si rax, xmm0"]);
                self.line(&["    jmp ", done.as_str()]);
            } else {
                self.line(&["    cvttsd2si rax, xmm0"]);
                self.line(&["    jmp ", done.as_str()]);
            }
            self.line(&[sat_max.as_str(), ":"]);
            let max_value: u64 = if to_bits == 64 {
                0xffff_ffff_ffff_ffffu64
            } else {
                let w = to_bits as u64;
                assert(1u64 << w >= 1) by (bit_vector)
                    requires
                        w < 64,
                ;
                (1u64 << w) - 1
            };
            let hmax = hex_text(max_value as u128);
            self.line(&["    mov rax, ", hmax.as_str()]);
            self.line(&["    jmp ", done.as_str()]);
        }
        self.line(&[zero.as_str(), ":"]);
        self.line(&["    xor eax, eax"]);
        self.line(&[done.as_str(), ":"]);
        self.store_int("rax", dst, to_bits);
        Ok(())
    }

    fn gen_call(&mut self, m: &Module, f: &Function, callee: FunctionId, args: &Vec<ValueId>, inst: &Instruction) -> (r: Result<(), BackendError>)
        requires
            old(self).ok(),
        ensures
            final(self).ok(),
            r is Ok ==> forall|k: int| 0 <= k < args@.len() ==> value_scalar(*m, *f, #[trigger] args@[k]),
            r is Ok ==> (inst.result matches Some(res) ==> value_not_aggregate(*m, *f, res)),
    {
        let arg_types = match self.types_of(f, args) {
            Ok(t) => t,
            Err(e) => {
                return Err(e);
            },
        };
        let (locs, _bytes, sse_used) = match self.plan_types(m, &arg_types, "call") {
            Ok(p) => p,
            Err(e) => {
                return Err(e);
            },
        };
        let mut i: usize = 0;
        while i < args.len() && i < locs.len()
            invariant
                self.ok(),
            decreases args@.len() - i,
        {
            let (src, ty) = match self.operand(f, args[i]) {
                Ok(x) => x,
                Err(e) => {
                    return Err(e);
                },
            };
            match locs[i] {
                Loc::Int(reg) => {
                    let (bits, signed) = self.int_info(m, ty);
                    self.load_int(reg, src, bits, signed);
                },
                Loc::Sse(n) => {
                    let single = is_f32(&m.types, ty);
                    let idx = dec_string(n as u128);
                    let parts = ["xmm", idx.as_str()];
                    let xmm = join(&parts);
                    self.load_float(xmm.as_str(), src, single);
                },
                Loc::Stack(off) => {
                    let size = match size_of(&m.types, ty) {
                        Ok(s) => s,
                        Err(e) => {
                            return Err(e);
                        },
                    };
                    let bits: u32 = #[verifier::truncate] ((size as u128 * 8) as u32);
                    self.load_int("rax", src, bits, false);
                    let o = dec_string(off as u128);
                    self.line(&["    mov qword [rsp+", o.as_str(), "], rax"]);
                },
            }
            i = i + 1;
        }
        let callee_fn = match m.function(callee) {
            Some(c) => c,
            None => {
                let n = dec_string(callee.0 as u128);
                return Err(invalid(&["unknown callee f", n.as_str()]));
            },
        };
        let callee_name = match m.symbol_name(callee_fn.symbol) {
            Some(n) => n,
            None => "<invalid>",
        };
        if callee_fn.variadic {
            let n = dec_string(sse_used as u128);
            self.line(&["    mov al, ", n.as_str()]);
        }
        self.line(&["    call $", callee_name]);
        match inst.result {
            Some(result) => {
                let (dst, rty) = match self.operand(f, result) {
                    Ok(x) => x,
                    Err(e) => {
                        return Err(e);
                    },
                };
                if is_aggregate(&m.types, rty) {
                    return Err(BackendError::UnsupportedInstruction {
                        function: self.fname.clone(),
                        op: "call",
                        reason: "aggregate return values are not supported".to_owned(),
                    });
                }
                if is_float(&m.types, rty) {
                    let single = is_f32(&m.types, rty);
                    self.store_float("xmm0", dst, single);
                } else {
                    let (bits, _) = self.int_info(m, rty);
                    self.store_int("rax", dst, bits);
                }
            },
            None => {},
        }
        Ok(())
    }

    #[verifier::rlimit(40)]
    #[verifier::spinoff_prover]
    fn gen_construct(&mut self, m: &Module, ty: TypeId, fields: &Vec<ValueId>, inst: &Instruction) -> (r: Result<(), BackendError>)
        requires
            old(self).ok(),
        ensures
            final(self).ok(),
            r is Ok <==> (inst.result matches Some(v) && (v.0 as int) < old(self).disp@.len()) && forall|k: int|
                0 <= k < fields@.len() ==> #[trigger] construct_field_ok(
                    *m,
                    old(self).disp@,
                    ty,
                    fields@,
                    k,
                    old(self).disp@[result_key(*inst) as int],
                ),
            r is Ok ==> Self::emitted_lines(
                old(self),
                final(self),
                construct_lines(*m, old(self).disp@, ty, fields@, old(self).disp@[result_key(*inst) as int]),
            ),
    {
        let dst = match self.result_disp(inst) {
            Ok(d) => d,
            Err(e) => {
                return Err(e);
            },
        };
        let ghost s0 = *self;
        proof {
            Self::lemma_no_lines(&s0);
            assert(fields@.take(0) =~= Seq::<ValueId>::empty());
        }
        let mut i: usize = 0;
        while i < fields.len()
            invariant
                self.ok(),
                s0 == *old(self),
                i <= fields@.len(),
                dst == old(self).disp@[result_key(*inst) as int],
                Self::emitted_lines(&s0, self, construct_lines(*m, s0.disp@, ty, fields@.take(i as int), dst)),
                forall|k: int| 0 <= k < i ==> #[trigger] construct_field_ok(*m, s0.disp@, ty, fields@, k, dst),
            decreases fields@.len() - i,
        {
            let fty = match field_type(&m.types, ty, i as u64) {
                Ok(t) => t,
                Err(e) => {
                    proof {
                        assert(!field_reachable(*m, ty, i as u64, dst));
                        assert(!construct_field_ok(*m, old(self).disp@, ty, fields@, i as int, old(self).disp@[result_key(*inst) as int]));
                    }
                    return Err(e);
                },
            };
            let off = match field_offset(&m.types, ty, i as u64) {
                Ok(o) => o,
                Err(e) => {
                    proof {
                        assert(!field_reachable(*m, ty, i as u64, dst));
                        assert(!construct_field_ok(*m, old(self).disp@, ty, fields@, i as int, old(self).disp@[result_key(*inst) as int]));
                    }
                    return Err(e);
                },
            };
            let src = match self.slot(fields[i]) {
                Ok(d) => d,
                Err(e) => {
                    proof {
                        assert(!construct_field_ok(*m, old(self).disp@, ty, fields@, i as int, old(self).disp@[result_key(*inst) as int]));
                    }
                    return Err(e);
                },
            };
            let at = match self.offset_disp(dst, off) {
                Ok(d) => d,
                Err(e) => {
                    proof {
                        assert(!construct_field_ok(*m, old(self).disp@, ty, fields@, i as int, old(self).disp@[result_key(*inst) as int]));
                    }
                    return Err(e);
                },
            };
            let ghost before = *self;
            match self.copy_slot(m, src, fty, at) {
                Ok(()) => {},
                Err(e) => {
                    proof {
                        assert(!field_reachable(*m, ty, i as u64, dst));
                        assert(!construct_field_ok(*m, old(self).disp@, ty, fields@, i as int, old(self).disp@[result_key(*inst) as int]));
                    }
                    return Err(e);
                },
            }
            proof {
                let pre = fields@.take(i as int);
                let next = fields@.take(i + 1);
                assert(next.drop_last() =~= pre);
                assert(next.last() == fields@[i as int]);
                assert(construct_field_ok(*m, s0.disp@, ty, fields@, i as int, dst));
                Self::lemma_lines_concat(&s0, &before, self, construct_lines(*m, s0.disp@, ty, pre, dst), copy_lines(*m, src, fty, at));
            }
            i = i + 1;
        }
        proof {
            assert(fields@.take(fields@.len() as int) =~= fields@);
        }
        Ok(())
    }

    #[verifier::rlimit(40)]
    #[verifier::spinoff_prover]
    fn gen_extract(&mut self, m: &Module, f: &Function, aggregate: ValueId, index: u32, inst: &Instruction) -> (r: Result<(), BackendError>)
        requires
            old(self).ok(),
        ensures
            final(self).ok(),
            r is Ok <==> (aggregate.0 as int) < old(self).disp@.len() && (aggregate.0 as int) < f.values@.len() && field_reachable(
                *m,
                f.values@[aggregate.0 as int].ty,
                index as u64,
                old(self).disp@[aggregate.0 as int],
            ) && (inst.result matches Some(v) && (v.0 as int) < old(self).disp@.len()),
            r is Err ==> *final(self) == *old(self),
            r is Ok ==> Self::emitted_lines(
                old(self),
                final(self),
                copy_lines(
                    *m,
                    field_disp(*m, f.values@[aggregate.0 as int].ty, index as u64, old(self).disp@[aggregate.0 as int]),
                    field_ty(m.types.types@, f.values@[aggregate.0 as int].ty, index as u64)->0,
                    old(self).disp@[result_key(*inst) as int],
                ),
            ),
    {
        let (adisp, aty) = match self.operand(f, aggregate) {
            Ok(x) => x,
            Err(e) => {
                return Err(e);
            },
        };
        let fty = match field_type(&m.types, aty, index as u64) {
            Ok(t) => t,
            Err(e) => {
                return Err(e);
            },
        };
        let off = match field_offset(&m.types, aty, index as u64) {
            Ok(o) => o,
            Err(e) => {
                return Err(e);
            },
        };
        let src = match self.offset_disp(adisp, off) {
            Ok(d) => d,
            Err(e) => {
                return Err(e);
            },
        };
        let dst = match self.result_disp(inst) {
            Ok(d) => d,
            Err(e) => {
                return Err(e);
            },
        };
        self.copy_slot(m, src, fty, dst)
    }

    #[verifier::rlimit(40)]
    #[verifier::spinoff_prover]
    fn gen_insert(&mut self, m: &Module, f: &Function, aggregate: ValueId, index: u32, value: ValueId, inst: &Instruction) -> (r: Result<(), BackendError>)
        requires
            old(self).ok(),
        ensures
            final(self).ok(),
            r is Ok <==> (aggregate.0 as int) < old(self).disp@.len() && (aggregate.0 as int) < f.values@.len() && (value.0 as int)
                < old(self).disp@.len() && (inst.result matches Some(v) && (v.0 as int) < old(self).disp@.len()) && field_reachable(
                *m,
                f.values@[aggregate.0 as int].ty,
                index as u64,
                old(self).disp@[result_key(*inst) as int],
            ) && spec_size(m.types.types@, f.values@[aggregate.0 as int].ty, m.types.types@.len() as nat) is Some,
            r is Ok ==> Self::emitted_lines(
                old(self),
                final(self),
                copy_lines(
                    *m,
                    old(self).disp@[aggregate.0 as int],
                    f.values@[aggregate.0 as int].ty,
                    old(self).disp@[result_key(*inst) as int],
                ) + copy_lines(
                    *m,
                    old(self).disp@[value.0 as int],
                    field_ty(m.types.types@, f.values@[aggregate.0 as int].ty, index as u64)->0,
                    field_disp(*m, f.values@[aggregate.0 as int].ty, index as u64, old(self).disp@[result_key(*inst) as int]),
                ),
            ),
    {
        let (adisp, aty) = match self.operand(f, aggregate) {
            Ok(x) => x,
            Err(e) => {
                return Err(e);
            },
        };
        let fty = match field_type(&m.types, aty, index as u64) {
            Ok(t) => t,
            Err(e) => {
                return Err(e);
            },
        };
        let off = match field_offset(&m.types, aty, index as u64) {
            Ok(o) => o,
            Err(e) => {
                return Err(e);
            },
        };
        let vd = match self.slot(value) {
            Ok(d) => d,
            Err(e) => {
                return Err(e);
            },
        };
        let dst = match self.result_disp(inst) {
            Ok(d) => d,
            Err(e) => {
                return Err(e);
            },
        };
        let at = match self.offset_disp(dst, off) {
            Ok(d) => d,
            Err(e) => {
                return Err(e);
            },
        };
        // Copy the whole aggregate, then overwrite the one field.
        let ghost s0 = *self;
        match self.copy_slot(m, adisp, aty, dst) {
            Ok(()) => {},
            Err(e) => {
                return Err(e);
            },
        }
        let ghost s1 = *self;
        let r = self.copy_slot(m, vd, fty, at);
        proof {
            if r is Ok {
                Self::lemma_lines_concat(&s0, &s1, self, copy_lines(*m, adisp, aty, dst), copy_lines(*m, vd, fty, at));
            }
        }
        r
    }
}

// ---------------------------------------------------------------------------
// Module-level driver
// ---------------------------------------------------------------------------

/// The directive lines for functions `0..k`: `extern $name` for each
/// declaration and `global $name` for each definition that is not internal.
pub open spec fn directive_lines(m: Module, k: int) -> Seq<u8>
    decreases k,
{
    if k <= 0 {
        Seq::empty()
    } else {
        let f = m.functions@[k - 1];
        let name = sym_or(m, f.symbol, lit("<invalid>"));
        directive_lines(m, k - 1) + if f.blocks@.len() == 0 {
            lit("extern $") + name + seq![10u8]
        } else if f.linkage != Linkage::Internal {
            lit("global $") + name + seq![10u8]
        } else {
            Seq::empty()
        }
    }
}

/// The start of every assembly file: the mode directives, the symbol
/// directives and the opening of the text section.
pub open spec fn asm_preamble(m: Module) -> Seq<u8> {
    lit("bits 64\ndefault rel\n\n") + directive_lines(m, m.functions@.len() as int) + lit(
        "\nsection .text\n",
    )
}

/// Type `ty` is passed in a register or a stack word: an integer, a float
/// or a pointer.
pub open spec fn scalar_type(m: Module, ty: TypeId) -> bool {
    (ty.0 as int) < m.types.types@.len() && {
        let d = m.types.types@[ty.0 as int];
        d is Int || d is Float || d is Pointer
    }
}

/// Type `ty` is an array or a struct.
pub open spec fn aggregate_type(m: Module, ty: TypeId) -> bool {
    (ty.0 as int) < m.types.types@.len() && (m.types.types@[ty.0 as int] is Struct || m.types.types@[ty.0 as int] is Array)
}

/// Value `v` of `f` exists and has a scalar type.
pub open spec fn value_scalar(m: Module, f: Function, v: ValueId) -> bool {
    (v.0 as int) < f.values@.len() && scalar_type(m, f.values@[v.0 as int].ty)
}

/// Value `v` of `f` exists and its type is not an aggregate.
pub open spec fn value_not_aggregate(m: Module, f: Function, v: ValueId) -> bool {
    (v.0 as int) < f.values@.len() && !aggregate_type(m, f.values@[v.0 as int].ty)
}

/// A call passes only scalars and does not return an aggregate.
pub open spec fn call_by_value_ok(m: Module, f: Function, inst: Instruction) -> bool {
    match inst.kind {
        InstructionKind::Call { args, .. } => {
            &&& forall|k: int| 0 <= k < args@.len() ==> value_scalar(m, f, #[trigger] args@[k])
            &&& (inst.result matches Some(r) ==> value_not_aggregate(m, f, r))
        },
        _ => true,
    }
}

/// A return does not return an aggregate.
pub open spec fn return_by_value_ok(m: Module, f: Function, t: Option<Terminator>) -> bool {
    t matches Some(Terminator::Return { value: Some(v) }) ==> value_not_aggregate(m, f, v)
}

/// No aggregate crosses a call boundary of `f` by value: its parameters
/// and the arguments of its calls are scalars, and neither its calls nor
/// its returns yield an aggregate.
pub open spec fn no_aggregate_by_value(m: Module, f: Function) -> bool {
    &&& forall|i: int| 0 <= i < f.params@.len() ==> scalar_type(m, (#[trigger] f.params@[i]).ty)
    &&& forall|b: int, i: int|
        0 <= b < f.blocks@.len() && 0 <= i < f.blocks@[b].instructions@.len() ==> call_by_value_ok(
            m,
            f,
            #[trigger] f.blocks@[b].instructions@[i],
        )
    &&& forall|b: int| 0 <= b < f.blocks@.len() ==> return_by_value_ok(m, f, (#[trigger] f.blocks@[b]).terminator)
}

/// Every value of every function with a body has a type the backend
/// supports.
pub open spec fn all_values_supported(m: Module) -> bool {
    forall|i: int, v: int|
        0 <= i < m.functions@.len() && m.functions@[i].blocks@.len() > 0 && 0 <= v
            < m.functions@[i].values@.len() ==> spec_supported(
            m.types.types@,
            #[trigger] m.functions@[i].values@[v].ty,
            m.types.types@.len() as nat,
        )
}

fn push_utf8(out: &mut Vec<u8>, b: &Vec<u8>)
    requires
        valid_utf8(old(out)@),
        valid_utf8(b@),
    ensures
        final(out)@ == old(out)@ + b@,
        valid_utf8(final(out)@),
{
    let ghost start = out@;
    let mut i: usize = 0;
    while i < b.len()
        invariant
            i <= b@.len(),
            out@ == start + b@.subrange(0, i as int),
        decreases b@.len() - i,
    {
        out.push(b[i]);
        i = i + 1;
        proof {
            assert(out@ =~= start + b@.subrange(0, i as int));
        }
    }
    proof {
        assert(b@.subrange(0, b@.len() as int) =~= b@);
        vstd::utf8::valid_utf8_concat(start, b@);
    }
}

fn push_directives(out: &mut Vec<u8>, m: &Module)
    requires
        valid_utf8(old(out)@),
    ensures
        final(out)@ == old(out)@ + directive_lines(*m, m.functions@.len() as int),
        valid_utf8(final(out)@),
{
    let ghost start = out@;
    let mut i: usize = 0;
    while i < m.functions.len()
        invariant
            i <= m.functions@.len(),
            valid_utf8(out@),
            out@ == start + directive_lines(*m, i as int),
        decreases m.functions@.len() - i,
    {
        let f = &m.functions[i];
        let ghost before = out@;
        let name: &str = match m.symbol_name(f.symbol) {
            Some(n) => n,
            None => "<invalid>",
        };
        if f.blocks.len() == 0 {
            push_str(out, "extern $");
            push_str(out, name);
            push_ascii(out, 10);
        } else if f.linkage != Linkage::Internal {
            push_str(out, "global $");
            push_str(out, name);
            push_ascii(out, 10);
        }
        proof {
            assert(out@ =~= start + directive_lines(*m, i + 1));
        }
        i = i + 1;
    }
}

/// Value `v` of `f` is the first whose type the backend does not support.
pub open spec fn first_unsupported_at(m: Module, f: Function, v: int) -> bool {
    &&& 0 <= v < f.values@.len()
    &&& !spec_supported(m.types.types@, f.values@[v].ty, m.types.types@.len() as nat)
    &&& forall|u: int| 0 <= u < v ==> spec_supported(m.types.types@, #[trigger] f.values@[u].ty, m.types.types@.len() as nat)
}

/// Function `i` is the first of `m` with a body, and one of its values
/// has a type the backend does not support.
pub open spec fn first_with_unsupported_value(m: Module, i: int) -> bool {
    &&& 0 <= i < m.functions@.len()
    &&& m.functions@[i].blocks@.len() > 0
    &&& forall|j: int| 0 <= j < i ==> (#[trigger] m.functions@[j]).blocks@.len() == 0
    &&& exists|v: int| 0 <= v < m.functions@[i].values@.len() && !spec_supported(
        m.types.types@,
        #[trigger] m.functions@[i].values@[v].ty,
        m.types.types@.len() as nat,
    )
}

/// No function of `m` has a body.
pub open spec fn no_bodies(m: Module) -> bool {
    forall|i: int| 0 <= i < m.functions@.len() ==> (#[trigger] m.functions@[i]).blocks@.len() == 0
}

/// Lowers a verified module to NASM source text.
///
/// On success the text starts with [`asm_preamble`], every value of every
/// function with a body has a type the backend supports, and no aggregate
/// is passed to or returned from a call, or taken as a parameter or
/// returned, by value ([`no_aggregate_by_value`]): a module that needs
/// either is refused with an error, never compiled. When the first
/// function with a body has a value of an unsupported type, the error is
/// `UnsupportedType`. A module whose functions are all declarations
/// compiles to exactly its preamble.
pub fn compile(module: &VerifiedModule) -> (r: Result<String, BackendError>)
    ensures
        r matches Ok(text) ==> asm_preamble(module.inner()).len() <= encode_utf8(text@).len()
            && encode_utf8(text@).subrange(0, asm_preamble(module.inner()).len() as int) == asm_preamble(
            module.inner(),
        ),
        r is Ok ==> all_values_supported(module.inner()),
        r is Ok ==> forall|i: int|
            0 <= i < module.inner().functions@.len() && (#[trigger] module.inner().functions@[i]).blocks@.len() > 0
                ==> no_aggregate_by_value(module.inner(), module.inner().functions@[i]),
        forall|i: int| #[trigger] first_with_unsupported_value(module.inner(), i) ==> (r matches Err(e) && e is UnsupportedType),
        forall|i: int, v: int|
            #[trigger] first_with_unsupported_value(module.inner(), i) && #[trigger] first_unsupported_at(
                module.inner(),
                module.inner().functions@[i],
                v,
            ) && wide_int(module.inner().types.types@, module.inner().functions@[i].values@[v].ty) ==> (r matches Err(
                BackendError::UnsupportedType { reason, .. },
            ) && reason@ == "128-bit integers are not supported by this backend"@),
        no_bodies(module.inner()) ==> (r matches Ok(text) && encode_utf8(text@) == asm_preamble(module.inner())),
{
    let m = module.module();
    let mut out: Vec<u8> = Vec::new();
    proof {
        lemma_ascii_utf8(Seq::<u8>::empty());
    }
    push_str(&mut out, "bits 64\ndefault rel\n\n");
    push_directives(&mut out, m);
    push_str(&mut out, "\nsection .text\n");
    let ghost pre = out@;
    proof {
        assert(pre =~= asm_preamble(*m));
    }
    let mut rodata = Rodata { entries: Vec::new() };
    let mut i: usize = 0;
    while i < m.functions.len()
        invariant
            i <= m.functions@.len(),
            valid_utf8(out@),
            pre.len() <= out@.len(),
            out@.subrange(0, pre.len() as int) == pre,
            forall|j: int, v: int|
                0 <= j < i && m.functions@[j].blocks@.len() > 0 && 0 <= v < m.functions@[j].values@.len()
                    ==> spec_supported(
                    m.types.types@,
                    #[trigger] m.functions@[j].values@[v].ty,
                    m.types.types@.len() as nat,
                ),
            forall|j: int|
                0 <= j < i && (#[trigger] m.functions@[j]).blocks@.len() > 0 ==> no_aggregate_by_value(*m, m.functions@[j]),
            *m == module.inner(),
            (forall|j: int| 0 <= j < i ==> (#[trigger] m.functions@[j]).blocks@.len() == 0) ==> out@ == pre
                && rodata.entries@.len() == 0,
        decreases m.functions@.len() - i,
    {
        let f = &m.functions[i];
        if f.blocks.len() > 0 {
            let fname: String = match m.symbol_name(f.symbol) {
                Some(n) => n.to_owned(),
                None => "<invalid>".to_owned(),
            };
            let mut g = FuncGen {
                out: Vec::new(),
                rodata,
                fname,
                disp: Vec::new(),
                alloca: Vec::new(),
                scratch: Vec::new(),
                frame_size: 0,
                tmp: 0,
            };
            proof {
                lemma_ascii_utf8(Seq::<u8>::empty());
            }
            match g.build(m, f) {
                Ok(()) => {},
                Err(e) => {
                    proof {
                        assert forall|i0: int, v: int|
                            #[trigger] first_with_unsupported_value(*m, i0) && #[trigger] first_unsupported_at(*m, m.functions@[i0], v)
                                && wide_int(m.types.types@, m.functions@[i0].values@[v].ty) implies (e matches BackendError::UnsupportedType {
                            reason,
                            ..
                        } && reason@ == "128-bit integers are not supported by this backend"@) by {
                            if i0 < i {
                                assert(!spec_supported(m.types.types@, m.functions@[i0].values@[v].ty, m.types.types@.len() as nat));
                            } else if i0 > i {
                                assert(m.functions@[i as int].blocks@.len() == 0);
                            }
                        }
                        assert forall|i0: int| #[trigger] first_with_unsupported_value(*m, i0) implies e is UnsupportedType by {
                            if i0 < i {
                                let v = choose|v: int| 0 <= v < m.functions@[i0].values@.len() && !spec_supported(
                                    m.types.types@,
                                    #[trigger] m.functions@[i0].values@[v].ty,
                                    m.types.types@.len() as nat,
                                );
                            } else if i0 > i {
                                assert(m.functions@[i as int].blocks@.len() == 0);
                            }
                        }
                    }
                    return Err(e);
                },
            }
            let ghost before = out@;
            push_utf8(&mut out, &g.out);
            proof {
                assert(out@.subrange(0, pre.len() as int) =~= before.subrange(0, pre.len() as int));
            }
            rodata = g.rodata;
        }
        i = i + 1;
    }
    if rodata.entries.len() > 0 {
        let ghost before = out@;
        push_ascii(&mut out, 10);
        let data = rodata.emit();
        push_utf8(&mut out, &data);
        proof {
            assert(out@.subrange(0, pre.len() as int) =~= before.subrange(0, pre.len() as int));
        }
    }
    proof {
        if no_bodies(*m) {
            assert(forall|j: int| 0 <= j < i ==> (#[trigger] m.functions@[j]).blocks@.len() == 0);
            assert(out@ == pre);
        }
    }
    let text = into_string(out);
    proof {
        assert(all_values_supported(*m));
        assert forall|i0: int| #[trigger] first_with_unsupported_value(*m, i0) implies false by {
            let v = choose|v: int| 0 <= v < m.functions@[i0].values@.len() && !spec_supported(
                m.types.types@,
                #[trigger] m.functions@[i0].values@[v].ty,
                m.types.types@.len() as nat,
            );
        }
    }
    Ok(text)
}

} // verus!
