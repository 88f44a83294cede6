//! Concrete checks of the library's laws, exact texts and error cases.

use astronomy::constant::{ConstantData, ConstantStore};
use astronomy::nasm::layout::{align_of, align_up, field_offset, field_type, size_of};
use astronomy::nasm::{compile, BackendError};
use astronomy::symbol::SymbolStore;
use astronomy::text::lexer::{lex, lex_string, TokenKind};
use astronomy::text::printer::escape_string;
use astronomy::text::{parse, print};
use astronomy::types::{TypeData, TypeStore};
use astronomy::{
    Abi, ArnVersion, BlockId, BuildError, ConstantId, Linkage, Module, ModuleBuilder, ParseError, TypeId,
    ValueId, VerifyError, Verifier,
};

#[test]
fn interning_a_type_twice_changes_nothing() {
    let mut store = TypeStore::new();
    let first = store.intern(TypeData::Pointer { pointee: TypeId::I32(), address_space: 0 });
    let len = store.len();
    let second = store.intern(TypeData::Pointer { pointee: TypeId::I32(), address_space: 0 });
    assert_eq!(first, second);
    assert_eq!(store.len(), len);
    assert_eq!(first, TypeId::new(14));
}

#[test]
fn interning_a_symbol_twice_changes_nothing() {
    let mut syms = SymbolStore::new();
    let a = syms.intern("main");
    let b = syms.intern("helper");
    let c = syms.intern("main");
    assert_eq!(a, c);
    assert_ne!(a, b);
    assert_eq!(syms.len(), 2);
}

#[test]
fn interning_a_constant_twice_changes_nothing() {
    let mut pool = ConstantStore::new();
    let a = pool.intern(ConstantData::Null { pointee: TypeId::I8() });
    let b = pool.intern(ConstantData::String { bytes: vec![1, 2, 3] });
    let c = pool.intern(ConstantData::Null { pointee: TypeId::I8() });
    assert_eq!(a, c);
    assert_ne!(a, b);
    assert_eq!(pool.len(), 2);
}

#[test]
fn masking_then_sign_extending_gives_the_value_back() {
    for (value, width) in [(-5i128, 8u32), (127, 8), (-128, 8), (-1, 1), (0, 1), (i128::MIN, 128), (-300, 16)] {
        let bits = ConstantStore::mask_signed(value, width);
        assert_eq!(ConstantStore::sign_extend(bits, width), value);
    }
    assert_eq!(ConstantStore::mask_signed(-5, 8), 0xFB);
    assert_eq!(ConstantStore::mask(12), 0xFFF);
    assert_eq!(ConstantStore::mask_unsigned(0x1234, 8), 0x34);
}

#[test]
fn align_up_gives_the_least_multiple() {
    assert_eq!(align_up(13, 8), Some(16));
    assert_eq!(align_up(16, 16), Some(16));
    assert_eq!(align_up(17, 1), Some(17));
    assert_eq!(align_up(u64::MAX - 6, 8), None);
    assert_eq!(align_up(u64::MAX - 7, 8), Some(u64::MAX - 7));
}

#[test]
fn struct_fields_are_padded_to_their_alignment() {
    let mut store = TypeStore::new();
    let ty = store.struct_of(&[TypeId::I8(), TypeId::I32(), TypeId::I8()]);
    assert_eq!(field_offset(&store, ty, 0).unwrap(), 0);
    assert_eq!(field_offset(&store, ty, 1).unwrap(), 4);
    assert_eq!(field_offset(&store, ty, 2).unwrap(), 8);
    assert_eq!(size_of(&store, ty).unwrap(), 12);
    assert_eq!(align_of(&store, ty).unwrap(), 4);
    assert_eq!(field_type(&store, ty, 1).unwrap(), TypeId::I32());
    assert_eq!(field_type(&store, ty, 3).unwrap_err().code(), "A-NASM-004");
    assert_eq!(field_offset(&store, ty, 3).unwrap_err().code(), "A-NASM-004");
    assert_eq!(field_type(&store, TypeId::I32(), 0).unwrap_err().code(), "A-NASM-001");
    assert_eq!(size_of(&store, TypeId::new(999)).unwrap_err().code(), "A-NASM-001");
}

#[test]
fn empty_struct_has_size_zero_and_alignment_one() {
    let mut store = TypeStore::new();
    let ty = store.struct_of(&[]);
    assert_eq!(size_of(&store, ty).unwrap(), 0);
    assert_eq!(align_of(&store, ty).unwrap(), 1);
}

#[test]
fn escaping_covers_every_byte_class() {
    assert_eq!(escape_string(b"a\n\t\r\"\\ ~"), "a\\n\\t\\r\\\"\\\\ ~");
    assert_eq!(escape_string(&[0x00, 0x1f, 0x7f, 0xff]), "\\0\\x1F\\x7F\\xFF");
    assert_eq!(escape_string(b""), "");
}

#[test]
fn escaped_strings_read_back_as_the_same_bytes() {
    let bytes: Vec<u8> = (0u8..=255).collect();
    let mut b = ModuleBuilder::with_name("strings");
    let f = b
        .declare_function("s", Linkage::Internal, Abi::C, &[], TypeId::VOID())
        .unwrap();
    let mut fb = b.function_builder(f).unwrap();
    fb.append_block();
    fb.const_string(&bytes).unwrap();
    fb.ret_void().unwrap();
    let module = b.finish();
    let text = print(&module, &float_text);
    let back = parse(&text, &float_bits).unwrap();
    assert_eq!(
        back.constants().get(astronomy::ConstantId::new(0)),
        Some(&ConstantData::String { bytes })
    );
}

#[test]
fn printed_module_text_is_exact() {
    let mut b = ModuleBuilder::with_name("demo");
    let f = b
        .declare_function(
            "neg",
            Linkage::Exported,
            Abi::Astronomy,
            &[("x", TypeId::I8())],
            TypeId::I8(),
        )
        .unwrap();
    let mut fb = b.function_builder(f).unwrap();
    fb.append_block();
    let x = fb.param(0);
    let minus_one = fb.const_int(TypeId::I8(), -1).unwrap();
    let r = fb.mul(x, minus_one).unwrap();
    let _ = fb.const_f64_bits(1.5f64.to_bits()).unwrap();
    fb.ret(Some(r)).unwrap();
    let module = b.finish();
    let text = print(&module, &float_text);
    let expected = "::ASTRONOMY::MODULE_START\n\
::ASTRONOMY::MODULE_NAME \"demo\"\n\
::ASTRONOMY::MODULE_VERSION 1\n\
::ASTRONOMY::CONSTANTS_START\n\
::ASTRONOMY::CONSTANT_INT c0 i8 -1\n\
::ASTRONOMY::CONSTANT_FLOAT c1 f64 1.5e0\n\
::ASTRONOMY::CONSTANTS_END\n\
::ASTRONOMY::FUNCTION_START neg fn(i8 %x) -> i8 linkage=exported abi=astronomy\n\
::ASTRONOMY::BLOCK_START bb0\n\
%0 = ::ASTRONOMY::CONST i8 c0\n\
%1 = ::ASTRONOMY::MUL i8 i8 %x, i8 %0\n\
%2 = ::ASTRONOMY::CONST f64 c1\n\
::ASTRONOMY::RETURN i8 %1\n\
::ASTRONOMY::BLOCK_END\n\
::ASTRONOMY::FUNCTION_END\n\
::ASTRONOMY::MODULE_END\n";
    assert_eq!(text, expected);
    assert_eq!(module.to_arn(&float_text), expected);
}

#[test]
fn unreachable_blocks_are_printed_after_reachable_ones() {
    let mut b = ModuleBuilder::with_name("order");
    let f = b
        .declare_function("f", Linkage::Internal, Abi::C, &[], TypeId::VOID())
        .unwrap();
    let mut fb = b.function_builder(f).unwrap();
    let entry = fb.append_block();
    let dead = fb.append_named_block("dead").unwrap();
    let live = fb.append_named_block("live").unwrap();
    fb.switch_to(entry).unwrap();
    fb.jump(live, &[]).unwrap();
    fb.switch_to(dead).unwrap();
    fb.ret_void().unwrap();
    fb.switch_to(live).unwrap();
    fb.ret_void().unwrap();
    let text = print(&b.finish(), &float_text);
    let live_at = text.find("BLOCK_START live").unwrap();
    let dead_at = text.find("BLOCK_START dead").unwrap();
    assert!(live_at < dead_at, "{text}");
}

#[test]
fn version_text_is_major_dot_minor() {
    assert_eq!(ArnVersion::CURRENT().text(), "1.0");
    assert_eq!(ArnVersion::default(), ArnVersion::CURRENT());
}

#[test]
fn build_error_messages_name_code_and_fields() {
    let e = BuildError::UnknownValue { value: ValueId::new(7), context: "add" };
    assert_eq!(e.message(), "[A-BUILD-001] unknown value v7 in add");
    let e = BuildError::UnknownBlock { block: BlockId::new(3) };
    assert_eq!(e.message(), "[A-BUILD-002] unknown block bb3");
    let e = BuildError::UnknownType { ty: TypeId::new(42) };
    assert_eq!(e.message(), "[A-BUILD-004] unknown type TypeId(42)");
    let e = BuildError::TypeMismatch {
        context: "add".to_string(),
        expected: "i64".to_string(),
        found: "i32".to_string(),
    };
    assert_eq!(e.message(), "[A-BUILD-010] type mismatch in add: expected `i64`, found `i32`");
}

#[test]
fn verify_error_messages_name_code_and_fields() {
    let e = VerifyError::UseNotDominated { function: "f".to_string(), value: 4, use_block: 2, def_block: 1 };
    assert_eq!(
        e.message(),
        "[A-VERIFY-022] function `f`: use of v4 in bb2 is not dominated by its definition in bb1"
    );
    let e = VerifyError::UnknownConstant { constant: 9 };
    assert_eq!(e.message(), "[A-VERIFY-004] unknown constant c9");
}

#[test]
fn parse_error_messages_name_code_and_line() {
    let e = ParseError::UnsupportedVersion { line: 2, found: 7, supported: 1 };
    assert_eq!(e.message(), "[A-ARN-001] line 2: unsupported ARN version 7 (supported: 1)");
    let e = ParseError::UnexpectedEof { expected: "`MODULE_END`".to_string() };
    assert_eq!(e.message(), "[A-ARN-017] unexpected end of input, expected `MODULE_END`");
    let err = parse("::ASTRONOMY::MODULE_START\n::ASTRONOMY::MODULE_VERSION 2\n::ASTRONOMY::MODULE_END\n", &float_bits).unwrap_err();
    assert_eq!(err.line(), Some(2));
}

#[test]
fn verification_report_lists_every_error() {
    let mut module = Module::new();
    let sym = module.symbols_mut().intern("f");
    let mut f = astronomy::Function::new(sym, Linkage::Internal, Abi::C, vec![], TypeId::VOID(), false);
    f.blocks.push(astronomy::BasicBlock::new());
    module.functions_mut().push(f);
    let report = Verifier::verify(module).unwrap_err();
    assert!(report.len() >= 1);
    let text = report.message();
    assert!(text.starts_with("verification failed with "), "{text}");
    assert!(text.contains("error[A-VERIFY-030]"), "{text}");
}

#[test]
fn backend_error_messages_name_code_and_fields() {
    let e = BackendError::UnsupportedAbi { function: "f".to_string(), abi: "system".to_string() };
    assert_eq!(e.code(), "A-NASM-003");
    assert_eq!(e.message(), "[A-NASM-003] function `f`: unsupported ABI `system`");
    let e = BackendError::InvalidModule { reason: "x".to_string() };
    assert_eq!(e.message(), "[A-NASM-004] invalid module: x");
}

#[test]
fn compiled_text_starts_with_the_preamble_and_lists_rodata_bytes() {
    let mut b = ModuleBuilder::with_name("t");
    let i8p = b.ptr_type(TypeId::I8());
    let puts = b.declare_extern("puts", Abi::C, &[i8p], false, TypeId::I32()).unwrap();
    let hidden = b
        .declare_function("hidden", Linkage::Internal, Abi::C, &[], TypeId::VOID())
        .unwrap();
    let mut fb = b.function_builder(hidden).unwrap();
    fb.append_block();
    let s = fb.const_string(b"hi").unwrap();
    fb.call(puts, &[s]).unwrap();
    fb.ret_void().unwrap();
    let verified = Verifier::verify(b.finish()).unwrap();
    let text = compile(&verified).unwrap();
    assert!(text.starts_with("bits 64\ndefault rel\n\nextern $puts\n\nsection .text\n"), "{text}");
    assert!(text.contains("\n$hidden:\n    push rbp\n    mov rbp, rsp\n"), "{text}");
    assert!(text.contains("arn.data.0:\n    db 0x68, 0x69, 0x00\n"), "{text}");
}

#[test]
fn escaped_strings_read_back_through_the_lexer() {
    let original: Vec<u8> = vec![0x00, b'a', b'"', b'\\', b'\n', b'\t', b'\r', 0x7f, 0xff, b' '];
    let escaped = escape_string(&original);
    assert_eq!(escaped, "\\0a\\\"\\\\\\n\\t\\r\\x7F\\xFF ");
    let mut input = escaped.as_bytes().to_vec();
    input.push(b'"');
    let (decoded, end) = lex_string(&input, 0, 1).unwrap();
    assert_eq!(decoded, original);
    assert_eq!(end, input.len() - 1);
}

#[test]
fn lexer_reads_negative_infinity_and_integer_bounds() {
    let toks = lex("-inf -170141183460469231731687303715884105728 170141183460469231731687303715884105727").unwrap();
    assert_eq!(toks[0].kind, TokenKind::FloatText("-inf".into()));
    assert_eq!(toks[1].kind, TokenKind::Int(i128::MIN));
    assert_eq!(toks[2].kind, TokenKind::Int(i128::MAX));
    assert_eq!(
        lex("170141183460469231731687303715884105728").unwrap()[0].kind,
        TokenKind::UInt(1u128 << 127)
    );
    assert_eq!(lex("340282366920938463463374607431768211455").unwrap()[0].kind, TokenKind::UInt(u128::MAX));
    assert!(lex("340282366920938463463374607431768211456").is_err());
    assert!(lex("-170141183460469231731687303715884105729").is_err());
}

#[test]
fn largest_u128_constant_reads_back() {
    let src = "::ASTRONOMY::MODULE_START\n::ASTRONOMY::MODULE_VERSION 1\n::ASTRONOMY::CONSTANTS_START\n::ASTRONOMY::CONSTANT_INT c0 u128 340282366920938463463374607431768211455\n::ASTRONOMY::CONSTANTS_END\n::ASTRONOMY::MODULE_END\n";
    let module = parse(src, &float_bits).unwrap();
    assert_eq!(
        module.constants().get(ConstantId::new(0)),
        Some(&ConstantData::Int { ty: TypeId::U128(), width: 128, bits: u128::MAX })
    );
    assert_eq!(print(&module, &float_text), src);
}

#[test]
fn literal_above_i128_needs_u128() {
    let src = "::ASTRONOMY::MODULE_START\n::ASTRONOMY::CONSTANTS_START\n::ASTRONOMY::CONSTANT_INT c0 i128 170141183460469231731687303715884105728\n::ASTRONOMY::CONSTANTS_END\n::ASTRONOMY::MODULE_END\n";
    assert!(matches!(parse(src, &float_bits), Err(ParseError::InvalidNumber { line: 3, .. })));
}

#[test]
fn special_float_constants_read_back() {
    let src = "::ASTRONOMY::MODULE_START\n::ASTRONOMY::MODULE_VERSION 1\n::ASTRONOMY::CONSTANTS_START\n::ASTRONOMY::CONSTANT_FLOAT c0 f64 nan\n::ASTRONOMY::CONSTANT_FLOAT c1 f32 inf\n::ASTRONOMY::CONSTANT_FLOAT c2 f64 -inf\n::ASTRONOMY::CONSTANTS_END\n::ASTRONOMY::MODULE_END\n";
    let module = parse(src, &float_bits).unwrap();
    assert_eq!(
        module.constants().get(ConstantId::new(0)),
        Some(&ConstantData::Float { ty: TypeId::F64(), bits: f64::NAN.to_bits() })
    );
    assert_eq!(
        module.constants().get(ConstantId::new(1)),
        Some(&ConstantData::Float { ty: TypeId::F32(), bits: f32::INFINITY.to_bits() as u64 })
    );
    assert_eq!(
        module.constants().get(ConstantId::new(2)),
        Some(&ConstantData::Float { ty: TypeId::F64(), bits: f64::NEG_INFINITY.to_bits() })
    );
    assert_eq!(print(&module, &float_text), src);
}

#[test]
fn lexer_counts_lines_and_skips_comments() {
    let toks = lex("# header\n\n  foo # note\r\n\tbar").unwrap();
    assert_eq!(toks.len(), 2);
    assert_eq!(toks[0].kind, TokenKind::Ident("foo".into()));
    assert_eq!(toks[0].line, 3);
    assert_eq!(toks[1].line, 4);
}

#[test]
fn a_later_unsupported_version_directive_is_rejected() {
    let src = "::ASTRONOMY::MODULE_START\n::ASTRONOMY::MODULE_VERSION 1\n::ASTRONOMY::MODULE_VERSION 3\n::ASTRONOMY::MODULE_END\n";
    let err = parse(src, &float_bits).unwrap_err();
    assert_eq!(err.code(), "A-ARN-001");
    let inside = "::ASTRONOMY::MODULE_START\n::ASTRONOMY::FUNCTION_START f fn() -> void linkage=exported abi=astronomy\n::ASTRONOMY::BLOCK_START entry\n::ASTRONOMY::MODULE_VERSION 1\n::ASTRONOMY::BLOCK_END\n::ASTRONOMY::FUNCTION_END\n::ASTRONOMY::MODULE_END\n";
    assert!(parse(inside, &float_bits).is_err());
}

#[test]
fn parsed_functions_have_distinct_names() {
    let src = "::ASTRONOMY::MODULE_START\n::ASTRONOMY::MODULE_VERSION 1\n::ASTRONOMY::FUNCTION_START f fn() -> void linkage=external abi=astronomy\n::ASTRONOMY::FUNCTION_END\n::ASTRONOMY::FUNCTION_START g fn() -> void linkage=external abi=astronomy\n::ASTRONOMY::FUNCTION_END\n::ASTRONOMY::MODULE_END\n";
    let module = parse(src, &float_bits).unwrap();
    assert_eq!(module.functions().len(), 2);
    let a = module.symbol_name(module.functions()[0].symbol);
    let b = module.symbol_name(module.functions()[1].symbol);
    assert_eq!(a, Some("f"));
    assert_eq!(b, Some("g"));
    assert_eq!(module.version(), ArnVersion::CURRENT());
}

#[test]
fn nul_bytes_print_as_backslash_zero_and_read_back() {
    let mut b = ModuleBuilder::new();
    let mut fb = b
        .build_function("f", Linkage::Exported, Abi::Astronomy, &[], TypeId::VOID())
        .unwrap();
    fb.append_block();
    let _ = fb.const_string(b"a\x00b").unwrap();
    fb.ret(None).unwrap();
    drop(fb);
    let module = b.finish();
    let text = print(&module, &float_text);
    assert!(text.contains("\"a\\0b\""), "{text}");
    let reparsed = parse(&text, &float_bits).unwrap();
    assert_eq!(print(&reparsed, &float_text), text);
}

#[test]
fn parsed_blocks_and_values_keep_distinct_names() {
    let src = "::ASTRONOMY::MODULE_START\n::ASTRONOMY::MODULE_VERSION 1\n::ASTRONOMY::FUNCTION_START f fn(i32 %x) -> i32 linkage=exported abi=astronomy\n::ASTRONOMY::BLOCK_START entry\n%y = ::ASTRONOMY::ADD i32 i32 %x, i32 %x\n::ASTRONOMY::JUMP next(i32 %y)\n::ASTRONOMY::BLOCK_END\n::ASTRONOMY::BLOCK_START next(i32 %z)\n::ASTRONOMY::RETURN i32 %z\n::ASTRONOMY::BLOCK_END\n::ASTRONOMY::FUNCTION_END\n::ASTRONOMY::MODULE_END\n";
    let module = parse(src, &float_bits).unwrap();
    let f = &module.functions()[0];
    let block_names: Vec<Option<&str>> = f.blocks.iter().map(|b| b.name.and_then(|s| module.symbol_name(s))).collect();
    assert_eq!(block_names, vec![Some("entry"), Some("next")]);
    let value_names: Vec<Option<&str>> = f.values.iter().map(|v| v.name.and_then(|s| module.symbol_name(s))).collect();
    assert_eq!(value_names, vec![Some("x"), Some("y"), Some("z")]);

    let dup_block = src.replace("BLOCK_START next(i32 %z)", "BLOCK_START entry(i32 %z)").replace("JUMP next", "JUMP entry");
    assert_eq!(parse(&dup_block, &float_bits).unwrap_err().code(), "A-ARN-006");
    let dup_value = src.replace("next(i32 %z)", "next(i32 %x)").replace("i32 %z\n", "i32 %x\n");
    assert_eq!(parse(&dup_value, &float_bits).unwrap_err().code(), "A-ARN-005");
}

#[test]
fn parsed_references_stay_inside_their_function() {
    let src = "::ASTRONOMY::MODULE_START\n::ASTRONOMY::MODULE_VERSION 1\n::ASTRONOMY::FUNCTION_START f fn(i32 %x) -> i32 linkage=exported abi=astronomy\n::ASTRONOMY::BLOCK_START entry\n::ASTRONOMY::JUMP exit(i32 %x)\n::ASTRONOMY::BLOCK_END\n::ASTRONOMY::BLOCK_START exit(i32 %r)\n::ASTRONOMY::RETURN i32 %r\n::ASTRONOMY::BLOCK_END\n::ASTRONOMY::FUNCTION_END\n::ASTRONOMY::MODULE_END\n";
    let module = parse(src, &float_bits).unwrap();
    let f = &module.functions()[0];
    assert_eq!(f.values.len(), 2);
    assert_eq!(f.blocks.len(), 2);
    let undefined_value = src.replace("RETURN i32 %r", "RETURN i32 %nope");
    assert_eq!(parse(&undefined_value, &float_bits).unwrap_err().code(), "A-ARN-007");
    let undefined_block = src.replace("JUMP exit(", "JUMP nowhere(");
    assert_eq!(parse(&undefined_block, &float_bits).unwrap_err().code(), "A-ARN-008");
}

fn float_text(bits: u64, single: bool) -> String {
    fn show<T: std::fmt::LowerExp + PartialOrd + Default>(v: T, nan: bool, inf: bool) -> String {
        if nan {
            "nan".to_string()
        } else if inf {
            if v < T::default() { "-inf" } else { "inf" }.to_string()
        } else {
            format!("{v:e}")
        }
    }
    if single {
        let v = f32::from_bits(bits as u32);
        show(v, v.is_nan(), v.is_infinite())
    } else {
        let v = f64::from_bits(bits);
        show(v, v.is_nan(), v.is_infinite())
    }
}

fn float_bits(raw: &str, single: bool) -> Option<u64> {
    if single {
        let v = match raw {
            "nan" | "NaN" => f32::NAN,
            "inf" | "+inf" => f32::INFINITY,
            "-inf" => f32::NEG_INFINITY,
            _ => raw.parse::<f32>().ok()?,
        };
        Some(v.to_bits() as u64)
    } else {
        let v = match raw {
            "nan" | "NaN" => f64::NAN,
            "inf" | "+inf" => f64::INFINITY,
            "-inf" => f64::NEG_INFINITY,
            _ => raw.parse::<f64>().ok()?,
        };
        Some(v.to_bits())
    }
}
