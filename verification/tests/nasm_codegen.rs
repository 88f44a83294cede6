//! Structural/textual tests: the shape of the emitted NASM, directive
//! emission, determinism, and the structured errors for unsupported input.
//!
//! These tests do not require a toolchain.


use astronomy::nasm::{compile, BackendError};
use astronomy::{Abi, FunctionBuilder, Linkage, Module, ModuleBuilder, TypeId, Verifier};

/// Verifies and lowers a module, returning the NASM text.
fn compile_ok(module: Module) -> String {
    let verified = Verifier::verify(module).expect("module must verify");
    compile(&verified).expect("module must lower to NASM")
}

/// Verifies then lowers, expecting a backend error.
fn compile_err(module: Module) -> BackendError {
    let verified = Verifier::verify(module).expect("module must verify");
    compile(&verified).expect_err("expected a backend error")
}

/// Builds a module with a single exported `abi=c` function.
fn one_function<F>(name: &str, params: &[(&str, TypeId)], result: TypeId, body: F) -> Module
where
    F: FnOnce(&mut FunctionBuilder),
{
    let mut builder = ModuleBuilder::with_name("test");
    let id = builder
        .declare_function(name, Linkage::Exported, Abi::C, params, result)
        .unwrap();
    let mut fb = builder.function_builder(id).unwrap();
    fb.append_block();
    body(&mut fb);
    builder.finish()
}

fn roundtrip(module: Module) -> Module {
    let verified = Verifier::verify(module).unwrap();
    Module::parse_arn(&verified.to_arn(&float_text), &float_bits).unwrap()
}

#[test]
fn header_directives_are_emitted() {
    let module = one_function("id", &[("x", TypeId::I64())], TypeId::I64(), |fb| {
        let x = fb.param(0);
        fb.ret(Some(x)).unwrap();
    });
    let listing = compile_ok(module);
    assert!(listing.starts_with("bits 64\n"), "{listing}");
    assert!(listing.contains("\ndefault rel\n"), "{listing}");
    assert!(listing.contains("\nsection .text\n"), "{listing}");
    assert!(listing.contains("\nglobal $id\n"), "{listing}");
    assert!(listing.contains("\n$id:\n"), "{listing}");
}

#[test]
fn internal_linkage_is_not_global() {
    let mut b = ModuleBuilder::with_name("t");
    let id = b
        .declare_function("secret", Linkage::Internal, Abi::C, &[], TypeId::VOID())
        .unwrap();
    let mut fb = b.function_builder(id).unwrap();
    fb.append_block();
    fb.ret_void().unwrap();
    let listing = compile_ok(b.finish());
    assert!(!listing.contains("global $secret"), "{listing}");
    assert!(listing.contains("\n$secret:\n"), "{listing}");
}

#[test]
fn declarations_become_extern() {
    let mut b = ModuleBuilder::with_name("t");
    let i8p = b.ptr_type(TypeId::I8());
    let puts = b
        .declare_extern("puts", Abi::C, &[i8p], false, TypeId::I32())
        .unwrap();
    let id = b
        .declare_function("call_puts", Linkage::Exported, Abi::C, &[], TypeId::VOID())
        .unwrap();
    let mut fb = b.function_builder(id).unwrap();
    fb.append_block();
    let s = fb.const_string(b"hi").unwrap();
    fb.call(puts, &[s]).unwrap();
    fb.ret_void().unwrap();
    let listing = compile_ok(b.finish());
    assert!(listing.contains("\nextern $puts\n"), "{listing}");
    assert!(listing.contains("    call $puts\n"), "{listing}");
}

#[test]
fn deterministic_output() {
    let build = || {
        one_function("f", &[("a", TypeId::I64()), ("b", TypeId::I64())], TypeId::I64(), |fb| {
            let (a, b) = (fb.param(0), fb.param(1));
            let s = fb.add(a, b).unwrap();
            let p = fb.mul(s, b).unwrap();
            fb.ret(Some(p)).unwrap();
        })
    };
    assert_eq!(compile_ok(build()), compile_ok(build()));
}

#[test]
fn block_labels_and_terminators() {
    let module = one_function(
        "pick",
        &[("c", TypeId::I1()), ("a", TypeId::I64()), ("b", TypeId::I64())],
        TypeId::I64(),
        |fb| {
            let (c, a, b) = (fb.param(0), fb.param(1), fb.param(2));
            let entry = fb.current_block().unwrap();
            let left = fb.append_block_with_params(&[("x", TypeId::I64())]).unwrap();
            let right = fb.append_block_with_params(&[("x", TypeId::I64())]).unwrap();
            let merge = fb.append_block_with_params(&[("r", TypeId::I64())]).unwrap();
            fb.switch_to(entry).unwrap();
            fb.branch(c, left, &[a], right, &[b]).unwrap();
            let xl = fb.block_param(left, 0).unwrap();
            fb.switch_to(left).unwrap();
            fb.jump(merge, &[xl]).unwrap();
            let xr = fb.block_param(right, 0).unwrap();
            fb.switch_to(right).unwrap();
            fb.jump(merge, &[xr]).unwrap();
            let r = fb.block_param(merge, 0).unwrap();
            fb.switch_to(merge).unwrap();
            fb.ret(Some(r)).unwrap();
        },
    );
    let listing = compile_ok(module);
    for expected in [
        "pick.bb0:",
        "pick.bb1:",
        "pick.bb2:",
        "pick.bb3:",
        "    jmp pick.bb3",
        "    cmp byte [rbp-",
        "    je pick.else",
    ] {
        assert!(listing.contains(expected), "missing `{expected}` in:\n{listing}");
    }
}

#[test]
fn self_loop_uses_staging_copy() {
    // `bb1(a, b) -> jump bb1(b, a)` needs a parallel copy; the backend must
    // stage through scratch memory rather than clobbering a slot.
    let module = one_function(
        "spin",
        &[("x", TypeId::I64())],
        TypeId::I64(),
        |fb| {
            let x = fb.param(0);
            let entry = fb.current_block().unwrap();
            let loop_block = fb
                .append_block_with_params(&[("a", TypeId::I64()), ("b", TypeId::I64())])
                .unwrap();
            fb.switch_to(entry).unwrap();
            let zero = fb.const_int(TypeId::I64(), 0).unwrap();
            fb.jump(loop_block, &[x, zero]).unwrap();
            let a = fb.block_param(loop_block, 0).unwrap();
            let b = fb.block_param(loop_block, 1).unwrap();
            fb.switch_to(loop_block).unwrap();
            // swap (a, b) -> (b, a)
            fb.jump(loop_block, &[b, a]).unwrap();
            // Unreachable exit is fine; a separate return keeps the function
            // well-formed for the test's purposes.
            let _ = a;
            let _ = b;
        },
    );
    let listing = compile_ok(module);
    // Staging means the first writes go to scratch slots, not param slots.
    let has_rep = listing.matches("mov rax, qword [rbp-").count();
    assert!(has_rep >= 2, "{listing}");
}

#[test]
fn string_constant_goes_to_rodata() {
    let module = one_function("s", &[], TypeId::I32(), |fb| {
        let p = fb.const_string(b"hello").unwrap();
        let _ = p;
        let zero = fb.const_int(TypeId::I32(), 0).unwrap();
        fb.ret(Some(zero)).unwrap();
    });
    let listing = compile_ok(module);
    assert!(listing.contains("section .rodata"), "{listing}");
    assert!(listing.contains("arn.data.0:"), "{listing}");
    assert!(listing.contains("0x68, 0x65, 0x6c, 0x6c, 0x6f, 0x00"), "{listing}");
}

#[test]
fn null_constant_materializes_zero() {
    let module = one_function("n", &[], TypeId::I1(), |fb| {
        let null = fb.const_null(TypeId::I64()).unwrap();
        let is_null = fb.eq(null, null).unwrap();
        fb.ret(Some(is_null)).unwrap();
    });
    let listing = compile_ok(module);
    assert!(listing.contains("xor eax, eax"), "{listing}");
}

#[test]
fn i128_is_rejected_with_a_structured_error() {
    let module = one_function("widen", &[("x", TypeId::I32())], TypeId::I128(), |fb| {
        let x = fb.param(0);
        let wide = fb.ext(TypeId::I128(), x).unwrap();
        fb.ret(Some(wide)).unwrap();
    });
    let err = compile_err(module);
    assert_eq!(err.code(), "A-NASM-001");
    assert!(err.message().contains("128-bit"), "{}", err.message());
}

#[test]
fn aggregate_parameter_is_rejected() {
    let mut b = ModuleBuilder::with_name("t");
    let pair = b.struct_type(&[TypeId::I64(), TypeId::I64()]);
    let id = b
        .declare_function("f", Linkage::Exported, Abi::C, &[("p", pair)], TypeId::I64())
        .unwrap();
    let mut fb = b.function_builder(id).unwrap();
    fb.append_block();
    let p = fb.param(0);
    let x = fb.extract(p, 0).unwrap();
    fb.ret(Some(x)).unwrap();
    let err = compile_err(b.finish());
    assert_eq!(err.code(), "A-NASM-002");
}

#[test]
fn aggregate_return_is_rejected() {
    let mut b = ModuleBuilder::with_name("t");
    let pair = b.struct_type(&[TypeId::I64(), TypeId::I64()]);
    let id = b
        .declare_function("f", Linkage::Exported, Abi::C, &[("x", TypeId::I64())], pair)
        .unwrap();
    let mut fb = b.function_builder(id).unwrap();
    fb.append_block();
    let x = fb.param(0);
    let agg = fb.construct(pair, &[x, x]).unwrap();
    fb.ret(Some(agg)).unwrap();
    let err = compile_err(b.finish());
    assert_eq!(err.code(), "A-NASM-002");
}

#[test]
fn noncanonical_integer_widths_are_rejected() {
    // The low-level type interner can create widths that ARN cannot spell.
    // Do not silently use an 8-bit load or a 64-bit store for those values.
    for bits in [0, 2, 7, 24, 48, 65, 128] {
        let mut builder = ModuleBuilder::new();
        let ty = builder.types().intern(astronomy::TypeData::Int { bits, signed: false });
        let id = builder.declare_function(
            "identity", Linkage::Exported, Abi::C, &[("x", ty)], ty,
        ).unwrap();
        let mut fb = builder.function_builder(id).unwrap();
        fb.append_block();
        fb.ret(Some(fb.param(0))).unwrap();
        assert_eq!(compile_err(builder.finish()).code(), "A-NASM-001");
    }
}

#[test]
fn oversized_stack_frames_fail_with_a_structured_error() {
    for length in [1 << 31, u64::MAX] {
        let mut builder = ModuleBuilder::new();
        let array = builder.array_type(TypeId::U8(), length);
        let id = builder
            .declare_function("huge", Linkage::Exported, Abi::C, &[], TypeId::VOID())
            .unwrap();
        let mut fb = builder.function_builder(id).unwrap();
        fb.append_block();
        fb.alloca(array).unwrap();
        fb.ret_void().unwrap();
        let error = compile_err(roundtrip(builder.finish()));
        assert_eq!(error.code(), "A-NASM-001");
    }
}

#[test]
fn overflowing_struct_layout_fails_with_a_structured_error() {
    let mut builder = ModuleBuilder::new();
    let huge = builder.array_type(TypeId::U8(), u64::MAX);
    let aggregate = builder.struct_type(&[huge, TypeId::U64()]);
    let id = builder
        .declare_function("huge", Linkage::Exported, Abi::C, &[], TypeId::VOID())
        .unwrap();
    let mut fb = builder.function_builder(id).unwrap();
    fb.append_block();
    fb.alloca(aggregate).unwrap();
    fb.ret_void().unwrap();
    let error = compile_err(roundtrip(builder.finish()));
    assert_eq!(error.code(), "A-NASM-001");
}

fn float_text(bits: u64, single: bool) -> String {
    fn show<T: std::fmt::LowerExp + PartialOrd + Default>(v: T, nan: bool, inf: bool) -> String {
        if nan {
            "nan".to_string()
        } else if inf {
            if v < T::default() { "-inf" } else { "inf" }.to_string()
        } else {
            format!("{v:e}")
        }
    }
    if single {
        let v = f32::from_bits(bits as u32);
        show(v, v.is_nan(), v.is_infinite())
    } else {
        let v = f64::from_bits(bits);
        show(v, v.is_nan(), v.is_infinite())
    }
}

fn float_bits(raw: &str, single: bool) -> Option<u64> {
    if single {
        let v = match raw {
            "nan" | "NaN" => f32::NAN,
            "inf" | "+inf" => f32::INFINITY,
            "-inf" => f32::NEG_INFINITY,
            _ => raw.parse::<f32>().ok()?,
        };
        Some(v.to_bits() as u64)
    } else {
        let v = match raw {
            "nan" | "NaN" => f64::NAN,
            "inf" | "+inf" => f64::INFINITY,
            "-inf" => f64::NEG_INFINITY,
            _ => raw.parse::<f64>().ok()?,
        };
        Some(v.to_bits())
    }
}
