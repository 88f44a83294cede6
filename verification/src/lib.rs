//! Astronomy IR: a language-agnostic intermediate representation library.

pub mod block;
pub mod builder;
pub mod constant;
pub mod error;
pub mod function;
pub mod id;
pub mod instruction;
pub mod module;
pub mod nasm;
pub mod span;
pub mod symbol;
pub mod text;
pub mod textbuf;
pub mod types;
pub mod value;
pub mod verify;

pub use block::{BasicBlock, BlockParam, Terminator};
pub use builder::{FunctionBuilder, ModuleBuilder};
pub use constant::{ConstantData, ConstantStore};
pub use error::{BuildError, ParseError, VerifyError, VerifyErrorReport};
pub use function::{Abi, Function, Linkage, Param};
pub use id::{BlockId, ConstantId, FunctionId, GlobalId, MetadataId, SymbolId, TypeId, ValueId};
pub use instruction::{Instruction, InstructionKind};
pub use module::{ArnVersion, Module, VerifiedModule};
pub use span::Span;
pub use symbol::SymbolStore;
pub use types::{FloatKind, TypeData, TypeStore};
pub use value::{ValueData, ValueKind};
pub use verify::{verify, Verifier};
