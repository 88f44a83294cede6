//! The errors each problem is reported with: the fields that identify
//! the problem, the line of a lexing or parsing failure, and the code
//! that opens every message.

use astronomy::nasm::{compile, BackendError};
use astronomy::text::lexer::lex;
use astronomy::{
    text, Abi, BasicBlock, BlockId, BuildError, Function, Instruction, InstructionKind, Linkage, Module,
    ModuleBuilder, ParseError, Terminator, TypeId, ValueData, ValueKind, VerifyError, Verifier,
};

fn function_in(module: &mut Module, name: &str, params: &[TypeId], result: TypeId) -> Function {
    let sym = module.symbols_mut().intern(name);
    Function::new(
        sym,
        Linkage::Exported,
        Abi::Astronomy,
        params.iter().map(|&t| (None, t)).collect(),
        result,
        false,
    )
}

fn result_value(f: &mut Function, block: BlockId, index: u32, ty: TypeId) -> astronomy::ValueId {
    let v = astronomy::ValueId::new(f.values.len() as u32);
    f.values.push(ValueData::new(ty, ValueKind::Inst { block, index }));
    v
}

fn errors_of(module: Module) -> Vec<VerifyError> {
    match Verifier::verify(module) {
        Ok(_) => panic!("verification unexpectedly succeeded"),
        Err(report) => report.errors().to_vec(),
    }
}

fn no_float(_: &str, _: bool) -> Option<u64> {
    None
}

#[test]
fn lexer_error_names_the_failing_line() {
    match lex("alpha\n123abc") {
        Err(ParseError::InvalidNumber { line, .. }) => assert_eq!(line, 2),
        other => panic!("unexpected {other:?}"),
    }
    match lex("alpha\n\nbeta \"open") {
        Err(ParseError::InvalidString { line, .. }) => assert_eq!(line, 3),
        other => panic!("unexpected {other:?}"),
    }
}

#[test]
fn unknown_type_reason_names_the_word() {
    let src = "::ASTRONOMY::MODULE_START\n::ASTRONOMY::MODULE_VERSION 1\n::ASTRONOMY::FUNCTION_START f fn(i65 %a) -> void linkage=external abi=astronomy\n::ASTRONOMY::FUNCTION_END\n::ASTRONOMY::MODULE_END\n";
    match text::parse(src, &no_float) {
        Err(ParseError::InvalidType { line, reason }) => {
            assert_eq!(line, 3);
            assert_eq!(reason, "unknown type `i65`");
        },
        other => panic!("unexpected {other:?}"),
    }
}

#[test]
fn redefinition_names_both_sites() {
    let mut module = Module::new();
    let mut f = function_in(&mut module, "twice", &[TypeId::I64()], TypeId::I64());
    f.blocks.push(BasicBlock::new());
    let p = f.params[0].value;
    let sum = result_value(&mut f, BlockId::new(0), 0, TypeId::I64());
    f.blocks[0].instructions.push(Instruction::new(InstructionKind::Add { lhs: p, rhs: p }, Some(sum)));
    f.blocks[0].instructions.push(Instruction::new(InstructionKind::Add { lhs: sum, rhs: p }, Some(sum)));
    f.blocks[0].terminator = Some(Terminator::Return { value: Some(sum) });
    module.functions_mut().push(f);
    let errors = errors_of(module);
    assert!(
        errors.contains(&VerifyError::ValueRedefined {
            function: "twice".to_string(),
            value: sum.0,
            first: "instruction 0 of bb0".to_string(),
            second: "instruction 1 of bb0".to_string(),
        }),
        "{errors:?}"
    );
}

#[test]
fn call_arity_error_names_callee_and_counts() {
    let mut module = Module::new();
    let g = function_in(&mut module, "g", &[TypeId::I64()], TypeId::I64());
    let mut g = g;
    g.linkage = Linkage::External;
    module.functions_mut().push(g);
    let mut f = function_in(&mut module, "caller", &[], TypeId::I64());
    f.blocks.push(BasicBlock::new());
    let r = result_value(&mut f, BlockId::new(0), 0, TypeId::I64());
    f.blocks[0].instructions.push(Instruction::new(
        InstructionKind::Call { callee: astronomy::FunctionId::new(0), args: vec![] },
        Some(r),
    ));
    f.blocks[0].terminator = Some(Terminator::Return { value: Some(r) });
    module.functions_mut().push(f);
    let errors = errors_of(module);
    assert!(
        errors.contains(&VerifyError::CallArityMismatch {
            function: "caller".to_string(),
            callee: "g".to_string(),
            expected: "1".to_string(),
            found: 0,
        }),
        "{errors:?}"
    );
}

#[test]
fn module_level_problems_are_each_reported() {
    let mut module = Module::new();
    let mut a = function_in(&mut module, "same", &[], TypeId::VOID());
    a.variadic = true;
    a.blocks.push(BasicBlock::new());
    a.blocks[0].terminator = Some(Terminator::Return { value: None });
    module.functions_mut().push(a);
    let mut b = function_in(&mut module, "same", &[], TypeId::VOID());
    b.blocks.push(BasicBlock::new());
    module.functions_mut().push(b);
    let errors = errors_of(module);
    assert!(errors.contains(&VerifyError::DuplicateFunctionName { name: "same".to_string() }), "{errors:?}");
    assert!(errors.contains(&VerifyError::VariadicDefinition { function: "same".to_string() }), "{errors:?}");
    assert!(
        errors.contains(&VerifyError::MissingTerminator { function: "same".to_string(), block: 0 }),
        "{errors:?}"
    );
}

#[test]
fn use_not_dominated_names_both_blocks() {
    let mut module = Module::new();
    let mut f = function_in(&mut module, "late", &[TypeId::I64()], TypeId::I64());
    f.blocks.push(BasicBlock::new());
    f.blocks.push(BasicBlock::new());
    let x = f.params[0].value;
    // bb0 uses the value that bb1 defines; bb1 is reachable from bb0.
    let early = result_value(&mut f, BlockId::new(0), 0, TypeId::I64());
    let late = result_value(&mut f, BlockId::new(1), 0, TypeId::I64());
    f.blocks[0].instructions.push(Instruction::new(InstructionKind::Add { lhs: late, rhs: x }, Some(early)));
    f.blocks[0].terminator = Some(Terminator::Jump { target: BlockId::new(1), args: vec![] });
    f.blocks[1].instructions.push(Instruction::new(InstructionKind::Add { lhs: x, rhs: x }, Some(late)));
    f.blocks[1].terminator = Some(Terminator::Return { value: Some(late) });
    module.functions_mut().push(f);
    let errors = errors_of(module);
    assert!(
        errors.contains(&VerifyError::UseNotDominated {
            function: "late".to_string(),
            value: late.0,
            use_block: 0,
            def_block: 1,
        }),
        "{errors:?}"
    );
}

#[test]
fn compile_refuses_a_128_bit_value() {
    let mut b = ModuleBuilder::new();
    let id = b
        .declare_function("wide", Linkage::Exported, Abi::Astronomy, &[("x", TypeId::I128())], TypeId::I128())
        .unwrap();
    {
        let mut fb = b.function_builder(id).unwrap();
        let entry = fb.append_block();
        fb.switch_to(entry).unwrap();
        let x = fb.param(0);
        fb.ret(Some(x)).unwrap();
    }
    let module = Verifier::verify(b.finish()).unwrap();
    match compile(&module) {
        Err(e @ BackendError::UnsupportedType { .. }) => {
            assert_eq!(e.code(), "A-NASM-001");
            if let BackendError::UnsupportedType { reason, .. } = &e {
                assert_eq!(reason, "128-bit integers are not supported by this backend");
            }
        },
        other => panic!("unexpected {other:?}"),
    }
}

#[test]
fn every_message_opens_with_its_code() {
    let verify_errors = [
        VerifyError::UnknownConstant { constant: 3 },
        VerifyError::DuplicateFunctionName { name: "f".to_string() },
        VerifyError::MissingTerminator { function: "f".to_string(), block: 1 },
    ];
    for e in verify_errors.iter() {
        assert!(e.message().starts_with(&format!("[{}]", e.code())), "{}", e.message());
    }
    let parse_errors = [
        ParseError::UnsupportedVersion { line: 2, found: 2, supported: 1 },
        ParseError::DuplicateFunction { line: 5, name: "f".to_string() },
        ParseError::UnexpectedEof { expected: "`x`".to_string() },
    ];
    for e in parse_errors.iter() {
        assert!(e.code().starts_with("A-ARN-"));
        assert!(e.message().starts_with(&format!("[{}]", e.code())), "{}", e.message());
    }
    let build_errors = [
        BuildError::DuplicateFunctionName { name: "f".to_string() },
        BuildError::NoCurrentBlock { action: "emit" },
    ];
    for e in build_errors.iter() {
        assert!(e.code().starts_with("A-BUILD-"));
        assert!(e.message().starts_with(&format!("[{}]", e.code())), "{}", e.message());
    }
}

#[test]
fn second_declaration_of_a_name_is_refused_at_its_line() {
    let src = "::ASTRONOMY::MODULE_START\n::ASTRONOMY::MODULE_VERSION 1\n::ASTRONOMY::FUNCTION_START f fn() -> void linkage=external abi=astronomy\n::ASTRONOMY::FUNCTION_END\n::ASTRONOMY::FUNCTION_START f fn() -> void linkage=external abi=astronomy\n::ASTRONOMY::FUNCTION_END\n::ASTRONOMY::MODULE_END\n";
    assert_eq!(
        text::parse(src, &no_float).unwrap_err(),
        ParseError::DuplicateFunction { line: 5, name: "f".to_string() }
    );
}

#[test]
fn declaration_header_sets_its_attributes() {
    let src = "::ASTRONOMY::MODULE_START\n::ASTRONOMY::MODULE_VERSION 1\n::ASTRONOMY::FUNCTION_START g fn(i64, ...) -> i32 linkage=internal abi=system linkage=external\n::ASTRONOMY::FUNCTION_END\n::ASTRONOMY::MODULE_END\n";
    let module = text::parse(src, &no_float).unwrap();
    let g = &module.functions()[0];
    assert!(g.variadic);
    assert_eq!(g.result, TypeId::I32());
    assert_eq!(g.linkage, Linkage::External);
    assert_eq!(g.abi, Abi::System);
    assert!(g.blocks.is_empty());
}

#[test]
fn pointer_with_address_space_is_read() {
    let src = "::ASTRONOMY::MODULE_START\n::ASTRONOMY::MODULE_VERSION 1\n::ASTRONOMY::FUNCTION_START f fn(ptr<i8, 3>) -> void linkage=external abi=astronomy\n::ASTRONOMY::FUNCTION_END\n::ASTRONOMY::MODULE_END\n";
    let module = text::parse(src, &no_float).unwrap();
    let ty = module.functions()[0].params[0].ty;
    assert_eq!(
        module.types().get(ty),
        Some(&astronomy::types::TypeData::Pointer { pointee: TypeId::I8(), address_space: 3 })
    );
    let bad = "::ASTRONOMY::MODULE_START\n::ASTRONOMY::MODULE_VERSION 1\n::ASTRONOMY::FUNCTION_START f fn(ptr<i8, 4294967296>) -> void linkage=external abi=astronomy\n::ASTRONOMY::FUNCTION_END\n::ASTRONOMY::MODULE_END\n";
    match text::parse(bad, &no_float) {
        Err(ParseError::InvalidNumber { line, .. }) => assert_eq!(line, 3),
        other => panic!("unexpected {other:?}"),
    }
}

#[test]
fn lexer_error_reasons() {
    match lex("123abc") {
        Err(ParseError::InvalidNumber { reason, .. }) => assert_eq!(reason, "unexpected character `a` in number"),
        other => panic!("unexpected {other:?}"),
    }
    match lex("99999999999999999999999999999999999999999") {
        Err(ParseError::InvalidNumber { reason, .. }) => assert_eq!(reason, "integer literal out of range"),
        other => panic!("unexpected {other:?}"),
    }
    match lex("\"open") {
        Err(ParseError::InvalidString { reason, .. }) => assert_eq!(reason, "unterminated string literal"),
        other => panic!("unexpected {other:?}"),
    }
    match lex("\"a\\qb\"") {
        Err(ParseError::InvalidString { reason, .. }) => assert_eq!(reason, "unknown escape `\\q`"),
        other => panic!("unexpected {other:?}"),
    }
    match lex("\"\\x4\"") {
        Err(ParseError::InvalidString { reason, .. }) => assert_eq!(reason, "`\\x` requires two hex digits"),
        other => panic!("unexpected {other:?}"),
    }
}

#[test]
fn declared_function_carries_its_name_and_parameters() {
    let mut b = ModuleBuilder::new();
    let id = b
        .declare_function("add", Linkage::Exported, Abi::Astronomy, &[("a", TypeId::I64()), ("", TypeId::I32())], TypeId::I64())
        .unwrap();
    let m = b.finish();
    let f = m.function(id).unwrap();
    assert_eq!(m.symbol_name(f.symbol), Some("add"));
    assert_eq!(f.values.len(), 2);
    assert_eq!(f.values[0].ty, TypeId::I64());
    assert_eq!(f.values[0].name.map(|s| m.symbol_name(s)), Some(Some("a")));
    assert_eq!(f.values[1].ty, TypeId::I32());
    assert!(f.values[1].name.is_none());
    assert_eq!(f.values[1].kind, ValueKind::Param { index: 1 });
}

#[test]
fn instruction_after_return_is_refused_at_its_line() {
    let src = "::ASTRONOMY::MODULE_START\n::ASTRONOMY::MODULE_VERSION 1\n::ASTRONOMY::FUNCTION_START f fn(i64 %a) -> i64 linkage=exported abi=astronomy\n::ASTRONOMY::BLOCK_START entry\n::ASTRONOMY::RETURN i64 %a\n%2 = ::ASTRONOMY::ADD i64 i64 %a, i64 %a\n::ASTRONOMY::BLOCK_END\n::ASTRONOMY::FUNCTION_END\n::ASTRONOMY::MODULE_END\n";
    assert_eq!(text::parse(src, &no_float).unwrap_err(), ParseError::InstructionAfterTerminator { line: 6 });
}

fn printed_plain(module: &Module) -> String {
    text::print(module, &|_bits: u64, _single: bool| String::new())
}

#[test]
fn printed_blocks_follow_reverse_post_order() {
    let src = "::ASTRONOMY::MODULE_START\n::ASTRONOMY::MODULE_VERSION 1\n::ASTRONOMY::FUNCTION_START f fn(i1 %c) -> void linkage=exported abi=astronomy\n::ASTRONOMY::BLOCK_START entry\n::ASTRONOMY::BRANCH i1 %c, left, right\n::ASTRONOMY::BLOCK_END\n::ASTRONOMY::BLOCK_START dead\n::ASTRONOMY::UNREACHABLE\n::ASTRONOMY::BLOCK_END\n::ASTRONOMY::BLOCK_START right\n::ASTRONOMY::JUMP join\n::ASTRONOMY::BLOCK_END\n::ASTRONOMY::BLOCK_START left\n::ASTRONOMY::JUMP join\n::ASTRONOMY::BLOCK_END\n::ASTRONOMY::BLOCK_START join\n::ASTRONOMY::RETURN void\n::ASTRONOMY::BLOCK_END\n::ASTRONOMY::FUNCTION_END\n::ASTRONOMY::MODULE_END\n";
    let module = text::parse(src, &no_float).unwrap();
    let printed = printed_plain(&module);
    let at = |label: &str| printed.find(&format!("::ASTRONOMY::BLOCK_START {label}\n")).unwrap();
    assert!(at("entry") < at("left"), "{printed}");
    assert!(at("left") < at("right"), "{printed}");
    assert!(at("right") < at("join"), "{printed}");
    assert!(at("join") < at("dead"), "{printed}");
}

#[test]
fn printing_twice_gives_the_same_text() {
    let src = "::ASTRONOMY::MODULE_START\n::ASTRONOMY::MODULE_VERSION 1\n::ASTRONOMY::CONSTANTS_START\n::ASTRONOMY::CONSTANT_INT c0 u128 340282366920938463463374607431768211455\n::ASTRONOMY::CONSTANTS_END\n::ASTRONOMY::FUNCTION_START f fn(i64 %a) -> i64 linkage=exported abi=astronomy\n::ASTRONOMY::BLOCK_START entry\n%s = ::ASTRONOMY::ADD i64 i64 %a, i64 %a\n::ASTRONOMY::RETURN i64 %s\n::ASTRONOMY::BLOCK_END\n::ASTRONOMY::FUNCTION_END\n::ASTRONOMY::MODULE_END\n";
    let module = text::parse(src, &no_float).unwrap();
    let copy = module.clone();
    assert_eq!(printed_plain(&module), printed_plain(&copy));
    assert_eq!(printed_plain(&module), src);
}

#[test]
fn pointer_parameter_without_a_name_is_read() {
    let src = "::ASTRONOMY::MODULE_START\n::ASTRONOMY::MODULE_VERSION 1\n::ASTRONOMY::FUNCTION_START printf fn(ptr<i8>, ...) -> i32 linkage=external abi=c\n::ASTRONOMY::FUNCTION_END\n::ASTRONOMY::MODULE_END\n";
    let module = text::parse(src, &no_float).unwrap();
    let f = &module.functions()[0];
    assert_eq!(f.params.len(), 1);
    assert!(f.variadic);
    assert_eq!(
        module.types().get(f.params[0].ty),
        Some(&astronomy::types::TypeData::Pointer { pointee: TypeId::I8(), address_space: 0 })
    );
}

#[test]
fn operand_annotation_mismatch_names_both_types() {
    let src = "::ASTRONOMY::MODULE_START\n::ASTRONOMY::MODULE_VERSION 1\n::ASTRONOMY::FUNCTION_START f fn(i64 %a, i32 %b) -> i64 linkage=exported abi=astronomy\n::ASTRONOMY::BLOCK_START entry\n%2 = ::ASTRONOMY::ADD i64 i64 %a, i64 %b\n::ASTRONOMY::RETURN i64 %2\n::ASTRONOMY::BLOCK_END\n::ASTRONOMY::FUNCTION_END\n::ASTRONOMY::MODULE_END\n";
    assert_eq!(
        text::parse(src, &no_float).unwrap_err(),
        ParseError::OperandTypeMismatch { line: 5, annotated: "i64".to_string(), actual: "i32".to_string() }
    );
}

#[test]
fn repeated_parameter_handle_is_refused_at_the_header() {
    let src = "::ASTRONOMY::MODULE_START\n::ASTRONOMY::MODULE_VERSION 1\n::ASTRONOMY::FUNCTION_START f fn(i64 %a, i32 %a) -> void linkage=external abi=astronomy\n::ASTRONOMY::FUNCTION_END\n::ASTRONOMY::MODULE_END\n";
    match text::parse(src, &no_float) {
        Err(ParseError::DuplicateValue { line, .. }) => assert_eq!(line, 3),
        other => panic!("unexpected {other:?}"),
    }
    let fine = src.replace("i32 %a", "i32 %b");
    let module = text::parse(&fine, &no_float).unwrap();
    assert_eq!(module.functions()[0].params.len(), 2);
}

#[test]
fn compile_of_declarations_alone_is_the_preamble() {
    let mut b = ModuleBuilder::new();
    b.declare_function("puts", Linkage::External, Abi::C, &[("s", TypeId::I64())], TypeId::I32()).unwrap();
    b.declare_extern("exit", Abi::C, &[TypeId::I32()], false, TypeId::VOID()).unwrap();
    let module = Verifier::verify(b.finish()).unwrap();
    let text = compile(&module).unwrap();
    assert_eq!(text, "bits 64\ndefault rel\n\nextern $puts\nextern $exit\n\nsection .text\n");
}
