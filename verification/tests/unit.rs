//! Unit-level checks of the tables, identifiers, lexer, parser and printer.

use astronomy::constant::{ConstantData, ConstantStore};
use astronomy::id::{BlockId, TypeId, ValueId};
use astronomy::symbol::SymbolStore;
use astronomy::text::lexer::{lex, TokenKind};
use astronomy::text::{parse, print};
use astronomy::types::{type_to_string, FloatKind, TypeData, TypeStore};
use astronomy::{Abi, ParseError};

#[test]
fn constant_intern_deduplicates() {
    let mut pool = ConstantStore::new();
    let a = pool.intern(ConstantData::Int {
        ty: TypeId::I64(),
        width: 64,
        bits: 42,
    });
    let b = pool.intern(ConstantData::Int {
        ty: TypeId::I64(),
        width: 64,
        bits: 42,
    });
    assert_eq!(a, b);

    let s1 = pool.intern(ConstantData::String {
        bytes: b"hello".to_vec(),
    });
    let s2 = pool.intern(ConstantData::String {
        bytes: b"hello".to_vec(),
    });
    assert_eq!(s1, s2);
}

#[test]
fn sign_extension() {
    assert_eq!(ConstantStore::sign_extend(0xFF, 8), -1);
    assert_eq!(ConstantStore::sign_extend(0x7F, 8), 127);
    assert_eq!(ConstantStore::sign_extend(u128::MAX, 128), -1);
}

#[test]
fn ids_do_not_mix() {
    let v = ValueId::new(0);
    let b = BlockId::new(0);
    assert_eq!(v.as_u32(), b.as_u32());
    assert_eq!(v.to_string(), "v0");
    assert_eq!(b.to_string(), "bb0");
}

#[test]
fn symbol_intern_deduplicates() {
    let mut syms = SymbolStore::new();
    let a = syms.intern("printf");
    let b = syms.intern("printf");
    assert_eq!(a, b);
    assert_eq!(syms.name(a), Some("printf"));
    assert_eq!(syms.resolve("printf"), Some(a));
    assert_eq!(syms.resolve("scanf"), None);
    assert_eq!(syms.len(), 1);
}

#[test]
fn scalar_consts_match_intern_order() {
    let store = TypeStore::new();
    assert_eq!(store.get(TypeId::VOID()), Some(&TypeData::Void));
    assert_eq!(
        store.get(TypeId::I64()),
        Some(&TypeData::Int {
            bits: 64,
            signed: true
        })
    );
    assert_eq!(
        store.get(TypeId::U32()),
        Some(&TypeData::Int {
            bits: 32,
            signed: false
        })
    );
    assert_eq!(store.get(TypeId::F64()), Some(&TypeData::Float(FloatKind::F64)));
}

#[test]
fn interning_is_deduplicating() {
    let mut store = TypeStore::new();
    let p1 = store.ptr(TypeId::I8());
    let p2 = store.ptr(TypeId::I8());
    assert_eq!(p1, p2);

    let f1 = store.function(&[TypeId::I32(), TypeId::I32()], false, TypeId::I32());
    let f2 = store.function(&[TypeId::I32(), TypeId::I32()], false, TypeId::I32());
    assert_eq!(f1, f2);

    let a = store.array(TypeId::I8(), 10);
    assert_ne!(a, p1);
    assert_eq!(type_to_string(&store, a), "array<i8, 10>".to_string());
    assert_eq!(type_to_string(&store, p1), "ptr<i8>".to_string());
    assert_eq!(type_to_string(&store, f1), "fn(i32, i32) -> i32".to_string());
}

fn kinds(src: &str) -> Vec<TokenKind> {
    lex(src).unwrap().into_iter().map(|t| t.kind).collect()
}

#[test]
fn markers() {
    assert_eq!(
        kinds("::ASTRONOMY::MODULE_START"),
        vec![TokenKind::Marker("MODULE_START".into())]
    );
}

#[test]
fn handles_and_idents() {
    assert_eq!(
        kinds("%x @printf c0"),
        vec![
            TokenKind::ValueRef("x".into()),
            TokenKind::FuncRef("printf".into()),
            TokenKind::Ident("c0".into()),
        ]
    );
}

#[test]
fn numbers() {
    assert_eq!(kinds("42"), vec![TokenKind::Int(42)]);
    assert_eq!(kinds("-7"), vec![TokenKind::Int(-7)]);
    assert_eq!(kinds("3.5"), vec![TokenKind::FloatText("3.5".into())]);
    assert_eq!(kinds("1e3"), vec![TokenKind::FloatText("1e3".into())]);
    assert_eq!(kinds("-2.5e-3"), vec![TokenKind::FloatText("-2.5e-3".into())]);
}

#[test]
fn strings() {
    assert_eq!(kinds(r#""a\nb""#), vec![TokenKind::Str(b"a\nb".to_vec())]);
    assert_eq!(kinds(r#""\x41B""#), vec![TokenKind::Str(b"AB".to_vec())]);
    assert_eq!(
        kinds(r#""\u{3042}""#),
        vec![TokenKind::Str("あ".as_bytes().to_vec())]
    );
}

#[test]
fn punctuation() {
    assert_eq!(
        kinds("-> ... < > ( ) , ="),
        vec![
            TokenKind::Arrow,
            TokenKind::Ellipsis,
            TokenKind::Punct('<'),
            TokenKind::Punct('>'),
            TokenKind::Punct('('),
            TokenKind::Punct(')'),
            TokenKind::Punct(','),
            TokenKind::Punct('='),
        ]
    );
}

#[test]
fn comments_and_lines() {
    let toks = lex("::ASTRONOMY::CONSTANT_INT c0 i64 1 # trailing\n%1 = ::ASTRONOMY::ADD i64 i64 %0, i64 %0").unwrap();
    assert_eq!(toks[4].line, 2);
    assert_eq!(toks[5].line, 2);
}

#[test]
fn rejects_garbage() {
    assert!(lex("::NOT_ASTRONOMY").is_err());
    assert!(lex("%").is_err());
    assert!(lex("\"unterminated").is_err());
    assert!(lex("123abc").is_err());
    assert!(lex("&").is_err());
}

#[test]
fn empty_module_roundtrip() {
    let src = "::ASTRONOMY::MODULE_START\n::ASTRONOMY::MODULE_VERSION 1\n::ASTRONOMY::MODULE_END\n";
    let module = parse(src, &float_bits).unwrap();
    let printed = print(&module, &float_text);
    assert_eq!(printed, src);
}

#[test]
fn print_is_canonical_and_idempotent() {
    let src = "::ASTRONOMY::MODULE_START\n# a comment\n::ASTRONOMY::MODULE_VERSION 1\n::ASTRONOMY::FUNCTION_START f fn(i32 %x) -> i32 linkage=exported abi=astronomy\n::ASTRONOMY::BLOCK_START entry\n::ASTRONOMY::RETURN i32 %x\n::ASTRONOMY::BLOCK_END\n::ASTRONOMY::FUNCTION_END\n::ASTRONOMY::MODULE_END\n";
    let module = parse(src, &float_bits).unwrap();
    let once = print(&module, &float_text);
    let again = print(&parse(&once, &float_bits).unwrap(), &float_text);
    assert_eq!(once, again);
    assert!(!once.contains('#'));
}

#[test]
fn parses_minimal_module() {
    let src = "::ASTRONOMY::MODULE_START\n::ASTRONOMY::MODULE_VERSION 1\n::ASTRONOMY::MODULE_END\n";
    let module = parse(src, &float_bits).unwrap();
    assert!(module.functions().is_empty());
}

#[test]
fn rejects_unknown_version() {
    let src = "::ASTRONOMY::MODULE_START\n::ASTRONOMY::MODULE_VERSION 2\n::ASTRONOMY::MODULE_END\n";
    let err = parse(src, &float_bits).unwrap_err();
    assert_eq!(err.code(), "A-ARN-001");
}

#[test]
fn rejects_missing_module_end() {
    let err = parse("::ASTRONOMY::MODULE_START\n", &float_bits).unwrap_err();
    assert!(matches!(err, ParseError::UnexpectedEof { .. }));
}

#[test]
fn rejects_duplicate_function() {
    let src = "::ASTRONOMY::MODULE_START\n::ASTRONOMY::MODULE_VERSION 1\n::ASTRONOMY::FUNCTION_START f fn() -> void linkage=external abi=astronomy\n::ASTRONOMY::FUNCTION_END\n::ASTRONOMY::FUNCTION_START f fn() -> void linkage=external abi=astronomy\n::ASTRONOMY::FUNCTION_END\n::ASTRONOMY::MODULE_END\n";
    let err = parse(src, &float_bits).unwrap_err();
    assert_eq!(err.code(), "A-ARN-004");
}

#[test]
fn parses_extern_declaration() {
    let src = "::ASTRONOMY::MODULE_START\n::ASTRONOMY::MODULE_VERSION 1\n::ASTRONOMY::FUNCTION_START printf fn(ptr<i8>, ...) -> i32 linkage=external abi=c\n::ASTRONOMY::FUNCTION_END\n::ASTRONOMY::MODULE_END\n";
    let module = parse(src, &float_bits).unwrap();
    let f = &module.functions()[0];
    assert_eq!(module.symbol_name(f.symbol), Some("printf"));
    assert!(f.is_declaration());
    assert!(f.variadic);
    assert_eq!(f.abi, Abi::C);
}

fn float_text(bits: u64, single: bool) -> String {
    fn show<T: std::fmt::LowerExp + PartialOrd + Default>(v: T, nan: bool, inf: bool) -> String {
        if nan {
            "nan".to_string()
        } else if inf {
            if v < T::default() { "-inf" } else { "inf" }.to_string()
        } else {
            format!("{v:e}")
        }
    }
    if single {
        let v = f32::from_bits(bits as u32);
        show(v, v.is_nan(), v.is_infinite())
    } else {
        let v = f64::from_bits(bits);
        show(v, v.is_nan(), v.is_infinite())
    }
}

fn float_bits(raw: &str, single: bool) -> Option<u64> {
    if single {
        let v = match raw {
            "nan" | "NaN" => f32::NAN,
            "inf" | "+inf" => f32::INFINITY,
            "-inf" => f32::NEG_INFINITY,
            _ => raw.parse::<f32>().ok()?,
        };
        Some(v.to_bits() as u64)
    } else {
        let v = match raw {
            "nan" | "NaN" => f64::NAN,
            "inf" | "+inf" => f64::INFINITY,
            "-inf" => f64::NEG_INFINITY,
            _ => raw.parse::<f64>().ok()?,
        };
        Some(v.to_bits())
    }
}
