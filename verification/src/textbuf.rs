//! Byte-level text building shared by the printer, diagnostics and the
//! identifier helpers.
//!
//! Text is assembled as UTF-8 bytes and turned into a `String` once, at the
//! end. Every append keeps the buffer valid UTF-8, so the final conversion
//! never fails.

use vstd::prelude::*;
use vstd::utf8::*;
use vstd::string::*;

verus! {

broadcast use {vstd::utf8::valid_utf8_concat, vstd::utf8::encode_utf8_valid_utf8};

/// ASCII byte: the only bytes the library writes on its own.
pub open spec fn is_ascii_byte(b: u8) -> bool {
    b < 128
}

/// All bytes of `s` are ASCII.
pub open spec fn all_ascii(s: Seq<u8>) -> bool {
    forall|i: int| 0 <= i < s.len() ==> #[trigger] is_ascii_byte(s[i])
}

/// The ASCII decimal digit for `d` (`0 <= d < 10`).
pub open spec fn digit_byte(d: nat) -> u8 {
    (48 + d) as u8
}

/// Decimal digits of `n`, most significant first, without leading zeros
/// (`0` is written as a single digit).
pub open spec fn dec_digits(n: nat) -> Seq<u8>
    decreases n,
{
    if n < 10 {
        seq![digit_byte(n)]
    } else {
        dec_digits(n / 10).push(digit_byte(n % 10))
    }
}

/// Decimal text of a signed integer: a leading `-` for negatives.
pub open spec fn signed_dec(v: int) -> Seq<u8> {
    if v < 0 {
        seq![45u8] + dec_digits((-v) as nat)
    } else {
        dec_digits(v as nat)
    }
}

/// Upper-case hexadecimal digit for `d` (`0 <= d < 16`).
pub open spec fn hex_upper(d: nat) -> u8 {
    if d < 10 {
        (48 + d) as u8
    } else {
        (55 + d) as u8
    }
}

/// Lower-case hexadecimal digit for `d` (`0 <= d < 16`).
pub open spec fn hex_lower(d: nat) -> u8 {
    if d < 10 {
        (48 + d) as u8
    } else {
        (87 + d) as u8
    }
}

/// Hexadecimal digits of `n` (lower case), most significant first.
pub open spec fn hex_digits(n: nat) -> Seq<u8>
    decreases n,
{
    if n < 16 {
        seq![hex_lower(n)]
    } else {
        hex_digits(n / 16).push(hex_lower(n % 16))
    }
}

/// A single ASCII byte is valid UTF-8.
pub proof fn lemma_ascii_byte_utf8(b: u8)
    requires
        b < 128,
    ensures
        valid_utf8(seq![b]),
{
    reveal_with_fuel(valid_utf8, 2);
    let s = seq![b];
    assert(valid_first_scalar(s));
    assert(pop_first_scalar(s) =~= Seq::<u8>::empty());
}

/// A sequence of ASCII bytes is valid UTF-8.
pub proof fn lemma_ascii_utf8(s: Seq<u8>)
    requires
        all_ascii(s),
    ensures
        valid_utf8(s),
    decreases s.len(),
{
    if s.len() > 0 {
        assert(is_ascii_byte(s[0]));
        lemma_ascii_byte_utf8(s[0]);
        let rest = s.subrange(1, s.len() as int);
        assert forall|i: int| 0 <= i < rest.len() implies #[trigger] is_ascii_byte(rest[i]) by {
            assert(rest[i] == s[i + 1]);
        }
        lemma_ascii_utf8(rest);
        assert(seq![s[0]] + rest =~= s);
    }
}

/// Decimal digits are ASCII.
pub proof fn lemma_dec_digits_ascii(n: nat)
    ensures
        all_ascii(dec_digits(n)),
        dec_digits(n).len() >= 1,
    decreases n,
{
    if n >= 10 {
        lemma_dec_digits_ascii(n / 10);
    }
}

/// Hex digits are ASCII.
pub proof fn lemma_hex_digits_ascii(n: nat)
    ensures
        all_ascii(hex_digits(n)),
        hex_digits(n).len() >= 1,
    decreases n,
{
    if n >= 16 {
        lemma_hex_digits_ascii(n / 16);
    }
}

/// Appends one ASCII byte.
pub fn push_ascii(out: &mut Vec<u8>, b: u8)
    requires
        b < 128,
        valid_utf8(old(out)@),
    ensures
        final(out)@ == old(out)@.push(b),
        valid_utf8(final(out)@),
{
    proof {
        lemma_ascii_byte_utf8(b);
        assert(old(out)@.push(b) =~= old(out)@ + seq![b]);
    }
    out.push(b);
}

/// Appends the UTF-8 bytes of `s`.
pub fn push_str(out: &mut Vec<u8>, s: &str)
    requires
        valid_utf8(old(out)@),
    ensures
        final(out)@ == old(out)@ + s.spec_bytes(),
        valid_utf8(final(out)@),
{
    let b = s.as_bytes();
    let mut k: usize = 0;
    let ghost start = out@;
    while k < b.len()
        invariant
            k <= b@.len(),
            b@ == s.spec_bytes(),
            out@ == start + b@.subrange(0, k as int),
        decreases b@.len() - k,
    {
        out.push(b[k]);
        k = k + 1;
        proof {
            assert(start + b@.subrange(0, k as int) =~= (start + b@.subrange(0, (k - 1) as int)).push(b@[k - 1]));
        }
    }
    proof {
        assert(b@.subrange(0, b@.len() as int) =~= b@);
        assert(valid_utf8(s.spec_bytes()));
    }
}

/// Appends ASCII bytes.
pub fn push_ascii_bytes(out: &mut Vec<u8>, b: &[u8])
    requires
        valid_utf8(old(out)@),
        all_ascii(b@),
    ensures
        final(out)@ == old(out)@ + b@,
        valid_utf8(final(out)@),
{
    let mut k: usize = 0;
    let ghost start = out@;
    while k < b.len()
        invariant
            k <= b@.len(),
            out@ == start + b@.subrange(0, k as int),
        decreases b@.len() - k,
    {
        out.push(b[k]);
        k = k + 1;
        proof {
            assert(start + b@.subrange(0, k as int) =~= (start + b@.subrange(0, (k - 1) as int)).push(b@[k - 1]));
        }
    }
    proof {
        assert(b@.subrange(0, b@.len() as int) =~= b@);
        lemma_ascii_utf8(b@);
    }
}

/// Decimal digits of `n` as a fresh byte vector.
pub fn dec_bytes(n: u128) -> (r: Vec<u8>)
    ensures
        r@ == dec_digits(n as nat),
    decreases n,
{
    if n < 10 {
        let mut v: Vec<u8> = Vec::new();
        v.push((48 + n) as u8);
        proof {
            assert(v@ =~= seq![digit_byte(n as nat)]);
        }
        v
    } else {
        let mut v = dec_bytes(n / 10);
        v.push((48 + n % 10) as u8);
        v
    }
}

/// Appends the decimal digits of `n`.
pub fn push_dec(out: &mut Vec<u8>, n: u128)
    requires
        valid_utf8(old(out)@),
    ensures
        final(out)@ == old(out)@ + dec_digits(n as nat),
        valid_utf8(final(out)@),
{
    let d = dec_bytes(n);
    proof {
        lemma_dec_digits_ascii(n as nat);
    }
    push_ascii_bytes(out, d.as_slice());
}

/// Appends the signed decimal text of `v`.
pub fn push_signed(out: &mut Vec<u8>, v: i128)
    requires
        valid_utf8(old(out)@),
    ensures
        final(out)@ == old(out)@ + signed_dec(v as int),
        valid_utf8(final(out)@),
{
    if v < 0 {
        push_ascii(out, 45u8);
        let mag: u128 = if v == i128::MIN {
            0x8000_0000_0000_0000_0000_0000_0000_0000u128
        } else {
            (-v) as u128
        };
        push_dec(out, mag);
        proof {
            assert(out@ =~= old(out)@ + signed_dec(v as int));
        }
    } else {
        push_dec(out, v as u128);
    }
}

/// Hex digits of `n` as a fresh byte vector (lower case, no prefix).
pub fn hex_bytes(n: u128) -> (r: Vec<u8>)
    ensures
        r@ == hex_digits(n as nat),
    decreases n,
{
    if n < 16 {
        let mut v: Vec<u8> = Vec::new();
        let d: u8 = if n < 10 { (48 + n) as u8 } else { (87 + n) as u8 };
        v.push(d);
        proof {
            assert(v@ =~= seq![hex_lower(n as nat)]);
        }
        v
    } else {
        let mut v = hex_bytes(n / 16);
        let m = n % 16;
        let d: u8 = if m < 10 { (48 + m) as u8 } else { (87 + m) as u8 };
        v.push(d);
        v
    }
}

/// Appends the lower-case hexadecimal digits of `n`.
pub fn push_hex(out: &mut Vec<u8>, n: u128)
    requires
        valid_utf8(old(out)@),
    ensures
        final(out)@ == old(out)@ + hex_digits(n as nat),
        valid_utf8(final(out)@),
{
    let d = hex_bytes(n);
    proof {
        lemma_hex_digits_ascii(n as nat);
    }
    push_ascii_bytes(out, d.as_slice());
}

/// Converts UTF-8 bytes into a `String` (`String::from_utf8`). Returns
/// `None` exactly when the bytes are not valid UTF-8.
#[verifier::external_body]
pub fn string_from_utf8(bytes: Vec<u8>) -> (r: Option<String>)
    ensures
        r is Some <==> valid_utf8(bytes@),
        r matches Some(s) ==> s@ == decode_utf8(bytes@),
{
    match String::from_utf8(bytes) {
        Ok(s) => Some(s),
        Err(_) => None,
    }
}

/// Converts text that is known to be valid UTF-8 into a `String`.
pub fn into_string(bytes: Vec<u8>) -> (r: String)
    requires
        valid_utf8(bytes@),
    ensures
        encode_utf8(r@) == bytes@,
{
    let ghost b = bytes@;
    match string_from_utf8(bytes) {
        Some(s) => {
            proof {
                vstd::utf8::decode_utf8_encode_utf8(b);
            }
            s
        },
        None => {
            proof {
                assert(false);
            }
            String::new()
        },
    }
}

/// Copies the UTF-8 bytes of a string slice.
pub fn str_bytes(s: &str) -> (r: Vec<u8>)
    ensures
        r@ == s.spec_bytes(),
        valid_utf8(r@),
{
    let mut out: Vec<u8> = Vec::new();
    proof {
        assert(valid_utf8(Seq::<u8>::empty()));
    }
    push_str(&mut out, s);
    proof {
        assert(out@ =~= s.spec_bytes());
    }
    out
}


/// Encoding distributes over concatenation.
pub proof fn lemma_encode_utf8_concat(a: Seq<char>, b: Seq<char>)
    ensures
        encode_utf8(a + b) == encode_utf8(a) + encode_utf8(b),
    decreases a.len(),
{
    if a.len() == 0 {
        assert(a + b =~= b);
        assert(encode_utf8(a) =~= Seq::<u8>::empty());
        assert(Seq::<u8>::empty() + encode_utf8(b) =~= encode_utf8(b));
    } else {
        lemma_encode_utf8_concat(a.drop_first(), b);
        assert((a + b).drop_first() =~= a.drop_first() + b);
        assert((a + b)[0] == a[0]);
        vstd::seq_lib::lemma_concat_associative(
            encode_scalar(a[0] as u32),
            encode_utf8(a.drop_first()),
            encode_utf8(b),
        );
    }
}

/// The UTF-8 bytes of the given pieces, concatenated in order.
pub open spec fn concat_bytes(parts: Seq<&str>) -> Seq<u8>
    decreases parts.len(),
{
    if parts.len() == 0 {
        Seq::empty()
    } else {
        concat_bytes(parts.drop_last()) + parts.last().spec_bytes()
    }
}

/// Concatenates string pieces into one `String`.
pub fn concat_strs(parts: &[&str]) -> (r: String)
    ensures
        encode_utf8(r@) == concat_bytes(parts@),
{
    let mut out: Vec<u8> = Vec::new();
    proof {
        lemma_ascii_utf8(Seq::<u8>::empty());
    }
    let mut i: usize = 0;
    while i < parts.len()
        invariant
            i <= parts@.len(),
            valid_utf8(out@),
            out@ == concat_bytes(parts@.subrange(0, i as int)),
        decreases parts@.len() - i,
    {
        push_str(&mut out, parts[i]);
        proof {
            assert(parts@.subrange(0, i + 1).drop_last() =~= parts@.subrange(0, i as int));
        }
        i = i + 1;
    }
    proof {
        assert(parts@.subrange(0, parts@.len() as int) =~= parts@);
    }
    into_string(out)
}

/// The characters of the decimal digits of `n`.
pub open spec fn dec_chars(n: nat) -> Seq<char> {
    decode_utf8(dec_digits(n))
}

/// The characters of the given pieces, concatenated in order.
pub open spec fn concat_chars(parts: Seq<&str>) -> Seq<char>
    decreases parts.len(),
{
    if parts.len() == 0 {
        Seq::empty()
    } else {
        concat_chars(parts.drop_last()) + parts.last()@
    }
}

/// The UTF-8 bytes of the pieces are the encoding of their characters.
pub proof fn lemma_concat_chars(parts: Seq<&str>)
    ensures
        concat_bytes(parts) == encode_utf8(concat_chars(parts)),
    decreases parts.len(),
{
    if parts.len() > 0 {
        lemma_concat_chars(parts.drop_last());
        lemma_encode_utf8_concat(concat_chars(parts.drop_last()), parts.last()@);
    }
}

/// Concatenates string pieces.
pub fn join(parts: &[&str]) -> (r: String)
    ensures
        r@ == concat_chars(parts@),
{
    let r = concat_strs(parts);
    proof {
        lemma_concat_chars(parts@);
        vstd::utf8::encode_utf8_decode_utf8(r@);
        vstd::utf8::encode_utf8_decode_utf8(concat_chars(parts@));
    }
    r
}

/// Appends the characters of `s` to `acc`, the text `out` holds.
fn push_chars(out: &mut Vec<u8>, s: &str, Ghost(acc): Ghost<Seq<char>>)
    requires
        valid_utf8(old(out)@),
        old(out)@ == encode_utf8(acc),
    ensures
        valid_utf8(final(out)@),
        final(out)@ == encode_utf8(acc + s@),
{
    push_str(out, s);
    proof {
        lemma_encode_utf8_concat(acc, s@);
    }
}

/// The text of `out`, which encodes `acc`.
fn chars_string(out: Vec<u8>, Ghost(acc): Ghost<Seq<char>>) -> (r: String)
    requires
        valid_utf8(out@),
        out@ == encode_utf8(acc),
    ensures
        r@ == acc,
{
    let r = into_string(out);
    proof {
        vstd::utf8::encode_utf8_decode_utf8(r@);
        vstd::utf8::encode_utf8_decode_utf8(acc);
    }
    r
}

/// Two pieces, one after the other.
pub fn cat2(a: &str, b: &str) -> (r: String)
    ensures
        r@ == a@ + b@,
{
    let mut out: Vec<u8> = Vec::new();
    proof {
        lemma_ascii_utf8(Seq::<u8>::empty());
        assert(encode_utf8(Seq::<char>::empty()) =~= Seq::<u8>::empty());
    }
    push_chars(&mut out, a, Ghost(Seq::empty()));
    push_chars(&mut out, b, Ghost(Seq::empty() + a@));
    proof {
        assert(Seq::<char>::empty() + a@ =~= a@);
    }
    chars_string(out, Ghost(a@ + b@))
}

/// Three pieces, one after the other.
pub fn cat3(a: &str, b: &str, c: &str) -> (r: String)
    ensures
        r@ == a@ + b@ + c@,
{
    let mut out: Vec<u8> = Vec::new();
    proof {
        lemma_ascii_utf8(Seq::<u8>::empty());
        assert(encode_utf8(Seq::<char>::empty()) =~= Seq::<u8>::empty());
    }
    push_chars(&mut out, a, Ghost(Seq::empty()));
    proof {
        assert(Seq::<char>::empty() + a@ =~= a@);
    }
    push_chars(&mut out, b, Ghost(a@));
    push_chars(&mut out, c, Ghost(a@ + b@));
    chars_string(out, Ghost(a@ + b@ + c@))
}

/// Four pieces, one after the other.
pub fn cat4(a: &str, b: &str, c: &str, d: &str) -> (r: String)
    ensures
        r@ == a@ + b@ + c@ + d@,
{
    let mut out: Vec<u8> = Vec::new();
    proof {
        lemma_ascii_utf8(Seq::<u8>::empty());
        assert(encode_utf8(Seq::<char>::empty()) =~= Seq::<u8>::empty());
    }
    push_chars(&mut out, a, Ghost(Seq::empty()));
    proof {
        assert(Seq::<char>::empty() + a@ =~= a@);
    }
    push_chars(&mut out, b, Ghost(a@));
    push_chars(&mut out, c, Ghost(a@ + b@));
    push_chars(&mut out, d, Ghost(a@ + b@ + c@));
    chars_string(out, Ghost(a@ + b@ + c@ + d@))
}

/// Decimal text of `n` as a `String`.
pub fn dec_string(n: u128) -> (r: String)
    ensures
        encode_utf8(r@) == dec_digits(n as nat),
        r@ == dec_chars(n as nat),
{
    let mut out: Vec<u8> = Vec::new();
    proof {
        lemma_ascii_utf8(Seq::<u8>::empty());
    }
    push_dec(&mut out, n);
    proof {
        assert(out@ =~= dec_digits(n as nat));
    }
    let r = into_string(out);
    proof {
        vstd::utf8::encode_utf8_decode_utf8(r@);
    }
    r
}

/// True for `[A-Za-z]`.
pub open spec fn is_alpha(b: u8) -> bool {
    (65 <= b <= 90) || (97 <= b <= 122)
}

/// True for `[0-9]`.
pub open spec fn is_digit(b: u8) -> bool {
    48 <= b <= 57
}

/// True for identifier continuation bytes `[A-Za-z0-9_]`.
pub open spec fn is_ident_byte(b: u8) -> bool {
    is_alpha(b) || is_digit(b) || b == 95
}

/// A valid IR identifier: `[A-Za-z_][A-Za-z0-9_]*`.
pub open spec fn spec_is_ident(s: Seq<u8>) -> bool {
    &&& s.len() > 0
    &&& (is_alpha(s[0]) || s[0] == 95)
    &&& forall|i: int| 1 <= i < s.len() ==> #[trigger] is_ident_byte(s[i])
}

/// A label reserved for anonymous blocks: `bb` followed by one or more
/// digits.
pub open spec fn spec_is_reserved_block_name(s: Seq<u8>) -> bool {
    &&& s.len() > 2
    &&& s[0] == 98u8 && s[1] == 98u8
    &&& forall|i: int| 2 <= i < s.len() ==> #[trigger] is_digit(s[i])
}

/// All bytes are decimal digits and there is at least one.
pub open spec fn spec_all_digits(s: Seq<u8>) -> bool {
    s.len() > 0 && forall|i: int| 0 <= i < s.len() ==> #[trigger] is_digit(s[i])
}

/// Checks `[A-Za-z_][A-Za-z0-9_]*` on raw bytes.
pub fn bytes_are_ident(s: &[u8]) -> (r: bool)
    ensures
        r == spec_is_ident(s@),
{
    if s.len() == 0 {
        return false;
    }
    let c = s[0];
    if !(((65 <= c && c <= 90) || (97 <= c && c <= 122)) || c == 95) {
        return false;
    }
    let mut i: usize = 1;
    while i < s.len()
        invariant
            1 <= i <= s@.len(),
            forall|j: int| 1 <= j < i ==> #[trigger] is_ident_byte(s@[j]),
        decreases s@.len() - i,
    {
        let b = s[i];
        if !((65 <= b && b <= 90) || (97 <= b && b <= 122) || (48 <= b && b <= 57) || b == 95) {
            proof {
                assert(!is_ident_byte(s@[i as int]));
            }
            return false;
        }
        i = i + 1;
    }
    true
}

/// Checks that all bytes are decimal digits (and there is at least one).
pub fn bytes_all_digits(s: &[u8]) -> (r: bool)
    ensures
        r == spec_all_digits(s@),
{
    if s.len() == 0 {
        return false;
    }
    let mut i: usize = 0;
    while i < s.len()
        invariant
            i <= s@.len(),
            forall|j: int| 0 <= j < i ==> #[trigger] is_digit(s@[j]),
        decreases s@.len() - i,
    {
        let b = s[i];
        if !(48 <= b && b <= 57) {
            proof {
                assert(!is_digit(s@[i as int]));
            }
            return false;
        }
        i = i + 1;
    }
    true
}

/// Checks the `bb<digits>` form of anonymous block labels.
pub fn bytes_are_reserved_block_name(s: &[u8]) -> (r: bool)
    ensures
        r == spec_is_reserved_block_name(s@),
{
    if s.len() <= 2 || s[0] != 98u8 || s[1] != 98u8 {
        return false;
    }
    let mut i: usize = 2;
    while i < s.len()
        invariant
            2 <= i <= s@.len(),
            forall|j: int| 2 <= j < i ==> #[trigger] is_digit(s@[j]),
        decreases s@.len() - i,
    {
        let b = s[i];
        if !(48 <= b && b <= 57) {
            proof {
                assert(!is_digit(s@[i as int]));
            }
            return false;
        }
        i = i + 1;
    }
    true
}

/// Two byte sequences are equal.
pub fn bytes_eq(a: &[u8], b: &[u8]) -> (r: bool)
    ensures
        r == (a@ == b@),
{
    if a.len() != b.len() {
        return false;
    }
    let mut i: usize = 0;
    while i < a.len()
        invariant
            a@.len() == b@.len(),
            i <= a@.len(),
            forall|j: int| 0 <= j < i ==> a@[j] == b@[j],
        decreases a@.len() - i,
    {
        if a[i] != b[i] {
            return false;
        }
        i = i + 1;
    }
    proof {
        assert(a@ =~= b@);
    }
    true
}

/// Whether two strings are equal.
pub fn str_eq(a: &str, b: &str) -> (r: bool)
    ensures
        r == (a@ == b@),
{
    let r = bytes_eq(a.as_bytes(), b.as_bytes());
    proof {
        vstd::utf8::encode_utf8_decode_utf8(a@);
        vstd::utf8::encode_utf8_decode_utf8(b@);
    }
    r
}

} // verus!
