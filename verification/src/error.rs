//! Structured diagnostics with stable error codes.
//!
//! Every failure mode is a data-carrying enum, never a bare string, so
//! frontends can render their own diagnostics.

use vstd::prelude::*;
use vstd::std_specs::iter::IteratorSpec;

use crate::textbuf::{concat_chars, dec_chars, dec_string, join};

use crate::constant::ConstantData;
use crate::id::{BlockId, FunctionId, TypeId, ValueId};
use crate::types::{TypeData, TypeStore, spec_is_aggregate, spec_is_float};

verus! {

/// Errors produced by the builder API while constructing IR.
#[derive(Debug, Clone, PartialEq, Eq)]
pub enum BuildError {
    /// A referenced value does not exist in the function (`A-BUILD-001`).
    UnknownValue {
        /// The offending value ID.
        value: ValueId,
        /// What the builder was doing.
        context: &'static str,
    },
    /// A referenced block does not exist (`A-BUILD-002`).
    UnknownBlock {
        /// The offending block ID.
        block: BlockId,
    },
    /// A referenced function does not exist (`A-BUILD-003`).
    UnknownFunction {
        /// The offending function ID.
        function: FunctionId,
    },
    /// A referenced type does not exist (`A-BUILD-004`).
    UnknownType {
        /// The offending type ID.
        ty: TypeId,
    },
    /// Operand or result types disagree (`A-BUILD-010`).
    TypeMismatch {
        /// What was being built.
        context: String,
        /// The type that was required.
        expected: String,
        /// The type that was found.
        found: String,
    },
    /// An operand is not valid for the instruction (`A-BUILD-011`).
    InvalidOperand {
        /// What was being built.
        context: &'static str,
        /// Human-readable reason.
        reason: String,
    },
    /// The current block already has a terminator (`A-BUILD-012`).
    BlockTerminated {
        /// The block that was already complete.
        block: BlockId,
    },
    /// A block was not in the required state (`A-BUILD-013`).
    BlockNotEmpty {
        /// The block.
        block: BlockId,
        /// Human-readable reason.
        reason: &'static str,
    },
    /// A name is reserved or malformed (`A-BUILD-014`).
    InvalidName {
        /// The rejected name.
        name: String,
        /// Human-readable reason.
        reason: &'static str,
    },
    /// A constant is not well-formed (`A-BUILD-015`).
    InvalidConstant {
        /// Human-readable reason.
        reason: String,
    },
    /// A variadic function cannot have a body in the MVP (`A-BUILD-016`).
    VariadicDefinition {
        /// The function name.
        name: String,
    },
    /// A function with this name already exists (`A-BUILD-017`).
    DuplicateFunctionName {
        /// The duplicated name.
        name: String,
    },
    /// No block is selected for emitting instructions (`A-BUILD-018`).
    NoCurrentBlock {
        /// What the builder was doing.
        action: &'static str,
    },
    /// A function signature is not valid (`A-BUILD-019`).
    InvalidSignature {
        /// Human-readable reason.
        reason: String,
    },
}

/// Stable code of a `BuildError`.
pub open spec fn build_error_code(e: BuildError) -> Seq<char> {
    match e {
            BuildError::UnknownValue { .. } => "A-BUILD-001"@,
            BuildError::UnknownBlock { .. } => "A-BUILD-002"@,
            BuildError::UnknownFunction { .. } => "A-BUILD-003"@,
            BuildError::UnknownType { .. } => "A-BUILD-004"@,
            BuildError::TypeMismatch { .. } => "A-BUILD-010"@,
            BuildError::InvalidOperand { .. } => "A-BUILD-011"@,
            BuildError::BlockTerminated { .. } => "A-BUILD-012"@,
            BuildError::BlockNotEmpty { .. } => "A-BUILD-013"@,
            BuildError::InvalidName { .. } => "A-BUILD-014"@,
            BuildError::InvalidConstant { .. } => "A-BUILD-015"@,
            BuildError::VariadicDefinition { .. } => "A-BUILD-016"@,
            BuildError::DuplicateFunctionName { .. } => "A-BUILD-017"@,
            BuildError::NoCurrentBlock { .. } => "A-BUILD-018"@,
            BuildError::InvalidSignature { .. } => "A-BUILD-019"@,
    }
}

impl BuildError {
    /// Stable error code.
    pub fn code(&self) -> (r: &'static str)
        ensures
            r@ == build_error_code(*self),
    {
        match self {
            BuildError::UnknownValue { .. } => "A-BUILD-001",
            BuildError::UnknownBlock { .. } => "A-BUILD-002",
            BuildError::UnknownFunction { .. } => "A-BUILD-003",
            BuildError::UnknownType { .. } => "A-BUILD-004",
            BuildError::TypeMismatch { .. } => "A-BUILD-010",
            BuildError::InvalidOperand { .. } => "A-BUILD-011",
            BuildError::BlockTerminated { .. } => "A-BUILD-012",
            BuildError::BlockNotEmpty { .. } => "A-BUILD-013",
            BuildError::InvalidName { .. } => "A-BUILD-014",
            BuildError::InvalidConstant { .. } => "A-BUILD-015",
            BuildError::VariadicDefinition { .. } => "A-BUILD-016",
            BuildError::DuplicateFunctionName { .. } => "A-BUILD-017",
            BuildError::NoCurrentBlock { .. } => "A-BUILD-018",
            BuildError::InvalidSignature { .. } => "A-BUILD-019",
        }
    }
}

/// Errors produced by the verifier.
#[derive(Debug, Clone, PartialEq, Eq)]
pub enum VerifyError {
    /// An operand references a value outside the function arena
    /// (`A-VERIFY-001`).
    UnknownValue {
        /// Function name.
        function: String,
        /// The offending value index.
        value: u32,
    },
    /// A terminator references a block that does not exist (`A-VERIFY-002`).
    UnknownBlock {
        /// Function name.
        function: String,
        /// The offending block index.
        block: u32,
    },
    /// A call references a function that does not exist (`A-VERIFY-003`).
    UnknownFunction {
        /// Name of the calling function.
        function: String,
        /// The offending callee index.
        callee: u32,
    },
    /// A `const` references a constant outside the pool (`A-VERIFY-004`).
    UnknownConstant {
        /// The offending constant index.
        constant: u32,
    },
    /// A structure references a type outside the store (`A-VERIFY-005`).
    UnknownType {
        /// The offending type index.
        ty: u32,
    },
    /// Types disagree where they must match (`A-VERIFY-010`).
    TypeMismatch {
        /// Function name.
        function: String,
        /// What was being checked.
        context: String,
        /// The required type.
        expected: String,
        /// The found type.
        found: String,
    },
    /// An operand type is not valid for the instruction (`A-VERIFY-011`).
    InvalidOperandType {
        /// Function name.
        function: String,
        /// Human-readable reason.
        reason: String,
    },
    /// The result value of an instruction has the wrong type
    /// (`A-VERIFY-012`).
    InvalidResultType {
        /// Function name.
        function: String,
        /// The required type.
        expected: String,
        /// The found type.
        found: String,
    },
    /// A branch condition is not `i1` (`A-VERIFY-013`).
    ConditionNotI1 {
        /// Function name.
        function: String,
        /// The found type.
        found: String,
    },
    /// A value is defined more than once (`A-VERIFY-020`).
    ValueRedefined {
        /// Function name.
        function: String,
        /// The redefined value index.
        value: u32,
        /// Description of the earlier definition.
        first: String,
        /// Description of the later definition.
        second: String,
    },
    /// A value was reserved but never defined (`A-VERIFY-021`).
    UndefinedValue {
        /// Function name.
        function: String,
        /// The value index.
        value: u32,
    },
    /// A value definition does not match its claimed site (`A-VERIFY-023`).
    InconsistentDefinition {
        /// Function name.
        function: String,
        /// The value index.
        value: u32,
        /// Human-readable reason.
        reason: String,
    },
    /// A use is not dominated by its definition (`A-VERIFY-022`).
    UseNotDominated {
        /// Function name.
        function: String,
        /// The used value index.
        value: u32,
        /// The using block.
        use_block: u32,
        /// The defining block.
        def_block: u32,
    },
    /// A block has no terminator (`A-VERIFY-030`).
    MissingTerminator {
        /// Function name.
        function: String,
        /// The block index.
        block: u32,
    },
    /// The entry block declares parameters (`A-VERIFY-031`).
    EntryBlockWithParams {
        /// Function name.
        function: String,
        /// Number of parameters found.
        count: usize,
    },
    /// Branch argument count does not match block parameters
    /// (`A-VERIFY-040`).
    BlockArgCountMismatch {
        /// Function name.
        function: String,
        /// The branching block.
        from_block: u32,
        /// The target block.
        to_block: u32,
        /// Expected argument count.
        expected: usize,
        /// Found argument count.
        found: usize,
    },
    /// A branch argument type does not match the block parameter type
    /// (`A-VERIFY-041`).
    BlockArgTypeMismatch {
        /// Function name.
        function: String,
        /// The branching block.
        from_block: u32,
        /// The target block.
        to_block: u32,
        /// Parameter index.
        index: usize,
        /// The required type.
        expected: String,
        /// The found type.
        found: String,
    },
    /// A `return` does not match the function result type (`A-VERIFY-050`).
    ReturnMismatch {
        /// Function name.
        function: String,
        /// The required type.
        expected: String,
        /// Description of what was returned.
        found: String,
    },
    /// Call argument count does not match the callee (`A-VERIFY-051`).
    CallArityMismatch {
        /// Calling function name.
        function: String,
        /// Callee name.
        callee: String,
        /// Expected argument description.
        expected: String,
        /// Found argument count.
        found: usize,
    },
    /// A call argument type does not match (`A-VERIFY-052`).
    CallArgTypeMismatch {
        /// Calling function name.
        function: String,
        /// Callee name.
        callee: String,
        /// Argument index.
        index: usize,
        /// The required type.
        expected: String,
        /// The found type.
        found: String,
    },
    /// A pool constant is not well-formed (`A-VERIFY-060`).
    InvalidConstant {
        /// The constant index.
        constant: u32,
        /// Human-readable reason.
        reason: String,
    },
    /// Two functions share a symbol name (`A-VERIFY-070`).
    DuplicateFunctionName {
        /// The duplicated name.
        name: String,
    },
    /// A declaration/definition violates linkage rules (`A-VERIFY-071`).
    InvalidDeclaration {
        /// Function name.
        function: String,
        /// Human-readable reason.
        reason: String,
    },
    /// A variadic function has a body (`A-VERIFY-072`).
    VariadicDefinition {
        /// Function name.
        function: String,
    },
    /// A function signature is not valid (`A-VERIFY-073`).
    InvalidSignature {
        /// Function name.
        function: String,
        /// Human-readable reason.
        reason: String,
    },
}

/// Stable code of a `VerifyError`.
pub open spec fn verify_error_code(e: VerifyError) -> Seq<char> {
    match e {
            VerifyError::UnknownValue { .. } => "A-VERIFY-001"@,
            VerifyError::UnknownBlock { .. } => "A-VERIFY-002"@,
            VerifyError::UnknownFunction { .. } => "A-VERIFY-003"@,
            VerifyError::UnknownConstant { .. } => "A-VERIFY-004"@,
            VerifyError::UnknownType { .. } => "A-VERIFY-005"@,
            VerifyError::TypeMismatch { .. } => "A-VERIFY-010"@,
            VerifyError::InvalidOperandType { .. } => "A-VERIFY-011"@,
            VerifyError::InvalidResultType { .. } => "A-VERIFY-012"@,
            VerifyError::ConditionNotI1 { .. } => "A-VERIFY-013"@,
            VerifyError::ValueRedefined { .. } => "A-VERIFY-020"@,
            VerifyError::UndefinedValue { .. } => "A-VERIFY-021"@,
            VerifyError::UseNotDominated { .. } => "A-VERIFY-022"@,
            VerifyError::InconsistentDefinition { .. } => "A-VERIFY-023"@,
            VerifyError::MissingTerminator { .. } => "A-VERIFY-030"@,
            VerifyError::EntryBlockWithParams { .. } => "A-VERIFY-031"@,
            VerifyError::BlockArgCountMismatch { .. } => "A-VERIFY-040"@,
            VerifyError::BlockArgTypeMismatch { .. } => "A-VERIFY-041"@,
            VerifyError::ReturnMismatch { .. } => "A-VERIFY-050"@,
            VerifyError::CallArityMismatch { .. } => "A-VERIFY-051"@,
            VerifyError::CallArgTypeMismatch { .. } => "A-VERIFY-052"@,
            VerifyError::InvalidConstant { .. } => "A-VERIFY-060"@,
            VerifyError::DuplicateFunctionName { .. } => "A-VERIFY-070"@,
            VerifyError::InvalidDeclaration { .. } => "A-VERIFY-071"@,
            VerifyError::VariadicDefinition { .. } => "A-VERIFY-072"@,
            VerifyError::InvalidSignature { .. } => "A-VERIFY-073"@,
    }
}

impl VerifyError {
    /// Stable error code.
    pub fn code(&self) -> (r: &'static str)
        ensures
            r@ == verify_error_code(*self),
    {
        match self {
            VerifyError::UnknownValue { .. } => "A-VERIFY-001",
            VerifyError::UnknownBlock { .. } => "A-VERIFY-002",
            VerifyError::UnknownFunction { .. } => "A-VERIFY-003",
            VerifyError::UnknownConstant { .. } => "A-VERIFY-004",
            VerifyError::UnknownType { .. } => "A-VERIFY-005",
            VerifyError::TypeMismatch { .. } => "A-VERIFY-010",
            VerifyError::InvalidOperandType { .. } => "A-VERIFY-011",
            VerifyError::InvalidResultType { .. } => "A-VERIFY-012",
            VerifyError::ConditionNotI1 { .. } => "A-VERIFY-013",
            VerifyError::ValueRedefined { .. } => "A-VERIFY-020",
            VerifyError::UndefinedValue { .. } => "A-VERIFY-021",
            VerifyError::UseNotDominated { .. } => "A-VERIFY-022",
            VerifyError::InconsistentDefinition { .. } => "A-VERIFY-023",
            VerifyError::MissingTerminator { .. } => "A-VERIFY-030",
            VerifyError::EntryBlockWithParams { .. } => "A-VERIFY-031",
            VerifyError::BlockArgCountMismatch { .. } => "A-VERIFY-040",
            VerifyError::BlockArgTypeMismatch { .. } => "A-VERIFY-041",
            VerifyError::ReturnMismatch { .. } => "A-VERIFY-050",
            VerifyError::CallArityMismatch { .. } => "A-VERIFY-051",
            VerifyError::CallArgTypeMismatch { .. } => "A-VERIFY-052",
            VerifyError::InvalidConstant { .. } => "A-VERIFY-060",
            VerifyError::DuplicateFunctionName { .. } => "A-VERIFY-070",
            VerifyError::InvalidDeclaration { .. } => "A-VERIFY-071",
            VerifyError::VariadicDefinition { .. } => "A-VERIFY-072",
            VerifyError::InvalidSignature { .. } => "A-VERIFY-073",
        }
    }
}

/// Errors produced when parsing `.arn` text.
#[derive(Debug, Clone, PartialEq, Eq)]
pub enum ParseError {
    /// Unsupported module version (`A-ARN-001`).
    UnsupportedVersion {
        /// Line of the version directive.
        line: u32,
        /// The major version that was found.
        found: u32,
        /// The major version this library supports.
        supported: u32,
    },
    /// An unexpected token was encountered (`A-ARN-002`).
    UnexpectedToken {
        /// Line of the token.
        line: u32,
        /// What the parser expected.
        expected: String,
        /// What was found.
        found: String,
    },
    /// An unknown `::ASTRONOMY::` directive (`A-ARN-003`).
    UnknownDirective {
        /// Line of the directive.
        line: u32,
        /// The directive name.
        name: String,
    },
    /// A function is declared twice (`A-ARN-004`).
    DuplicateFunction {
        /// Line of the duplicate.
        line: u32,
        /// The duplicated name.
        name: String,
    },
    /// A value handle is defined twice in a function (`A-ARN-005`).
    DuplicateValue {
        /// Line of the duplicate.
        line: u32,
        /// The duplicated handle.
        name: String,
    },
    /// A block label is defined twice (`A-ARN-006`).
    DuplicateBlock {
        /// Line of the duplicate.
        line: u32,
        /// The duplicated label.
        label: String,
    },
    /// A value handle is used before/without being defined (`A-ARN-007`).
    UndefinedValue {
        /// Line of the use.
        line: u32,
        /// The handle.
        name: String,
    },
    /// A block label is referenced but never defined (`A-ARN-008`).
    UndefinedBlock {
        /// Line of the reference.
        line: u32,
        /// The label.
        label: String,
    },
    /// A constant reference is out of range (`A-ARN-009`).
    UndefinedConstant {
        /// Line of the reference.
        line: u32,
        /// The referenced id.
        name: String,
    },
    /// A type is malformed (`A-ARN-010`).
    InvalidType {
        /// Line of the type token.
        line: u32,
        /// Human-readable reason.
        reason: String,
    },
    /// A number literal is malformed or out of range (`A-ARN-011`).
    InvalidNumber {
        /// Line of the literal.
        line: u32,
        /// Human-readable reason.
        reason: String,
    },
    /// An operand annotation does not match the value (`A-ARN-012`).
    OperandTypeMismatch {
        /// Line of the operand.
        line: u32,
        /// The annotated type.
        annotated: String,
        /// The actual value type.
        actual: String,
    },
    /// A string literal is malformed (`A-ARN-013`).
    InvalidString {
        /// Line of the literal.
        line: u32,
        /// Human-readable reason.
        reason: String,
    },
    /// A directive appeared in an invalid position (`A-ARN-014`).
    MisplacedDirective {
        /// Line of the directive.
        line: u32,
        /// The directive name.
        name: String,
        /// Human-readable reason.
        reason: String,
    },
    /// A required directive is missing (`A-ARN-015`).
    MissingDirective {
        /// The expected directive.
        expected: String,
    },
    /// The module structure is broken (`A-ARN-016`).
    InvalidStructure {
        /// Line where the problem was detected.
        line: u32,
        /// Human-readable reason.
        reason: String,
    },
    /// Input ended before the module was complete (`A-ARN-017`).
    UnexpectedEof {
        /// What the parser expected.
        expected: String,
    },
    /// An instruction follows a terminator (`A-ARN-018`).
    InstructionAfterTerminator {
        /// Line of the instruction.
        line: u32,
    },
    /// A name is reserved (`A-ARN-019`).
    ReservedName {
        /// Line of the name.
        line: u32,
        /// The name.
        name: String,
        /// Human-readable reason.
        reason: String,
    },
    /// A call references an undeclared function (`A-ARN-020`).
    UndefinedFunction {
        /// Line of the call.
        line: u32,
        /// The callee name.
        name: String,
    },
    /// An instruction operand is not valid (`A-ARN-021`).
    InvalidInstruction {
        /// Line of the instruction.
        line: u32,
        /// Human-readable reason.
        reason: String,
    },
}

/// Stable code of a `ParseError`.
pub open spec fn parse_error_code(e: ParseError) -> Seq<char> {
    match e {
            ParseError::UnsupportedVersion { .. } => "A-ARN-001"@,
            ParseError::UnexpectedToken { .. } => "A-ARN-002"@,
            ParseError::UnknownDirective { .. } => "A-ARN-003"@,
            ParseError::DuplicateFunction { .. } => "A-ARN-004"@,
            ParseError::DuplicateValue { .. } => "A-ARN-005"@,
            ParseError::DuplicateBlock { .. } => "A-ARN-006"@,
            ParseError::UndefinedValue { .. } => "A-ARN-007"@,
            ParseError::UndefinedBlock { .. } => "A-ARN-008"@,
            ParseError::UndefinedConstant { .. } => "A-ARN-009"@,
            ParseError::InvalidType { .. } => "A-ARN-010"@,
            ParseError::InvalidNumber { .. } => "A-ARN-011"@,
            ParseError::OperandTypeMismatch { .. } => "A-ARN-012"@,
            ParseError::InvalidString { .. } => "A-ARN-013"@,
            ParseError::MisplacedDirective { .. } => "A-ARN-014"@,
            ParseError::MissingDirective { .. } => "A-ARN-015"@,
            ParseError::InvalidStructure { .. } => "A-ARN-016"@,
            ParseError::UnexpectedEof { .. } => "A-ARN-017"@,
            ParseError::InstructionAfterTerminator { .. } => "A-ARN-018"@,
            ParseError::ReservedName { .. } => "A-ARN-019"@,
            ParseError::UndefinedFunction { .. } => "A-ARN-020"@,
            ParseError::InvalidInstruction { .. } => "A-ARN-021"@,
    }
}

impl ParseError {
    /// Stable error code.
    pub fn code(&self) -> (r: &'static str)
        ensures
            r@ == parse_error_code(*self),
    {
        match self {
            ParseError::UnsupportedVersion { .. } => "A-ARN-001",
            ParseError::UnexpectedToken { .. } => "A-ARN-002",
            ParseError::UnknownDirective { .. } => "A-ARN-003",
            ParseError::DuplicateFunction { .. } => "A-ARN-004",
            ParseError::DuplicateValue { .. } => "A-ARN-005",
            ParseError::DuplicateBlock { .. } => "A-ARN-006",
            ParseError::UndefinedValue { .. } => "A-ARN-007",
            ParseError::UndefinedBlock { .. } => "A-ARN-008",
            ParseError::UndefinedConstant { .. } => "A-ARN-009",
            ParseError::InvalidType { .. } => "A-ARN-010",
            ParseError::InvalidNumber { .. } => "A-ARN-011",
            ParseError::OperandTypeMismatch { .. } => "A-ARN-012",
            ParseError::InvalidString { .. } => "A-ARN-013",
            ParseError::MisplacedDirective { .. } => "A-ARN-014",
            ParseError::MissingDirective { .. } => "A-ARN-015",
            ParseError::InvalidStructure { .. } => "A-ARN-016",
            ParseError::UnexpectedEof { .. } => "A-ARN-017",
            ParseError::InstructionAfterTerminator { .. } => "A-ARN-018",
            ParseError::ReservedName { .. } => "A-ARN-019",
            ParseError::UndefinedFunction { .. } => "A-ARN-020",
            ParseError::InvalidInstruction { .. } => "A-ARN-021",
        }
    }
}

/// Source line of a parse error, when known.
pub open spec fn parse_error_line(e: ParseError) -> Option<u32> {
    match e {
        ParseError::MissingDirective { .. } => None,
        ParseError::UnexpectedEof { .. } => None,
        ParseError::UnsupportedVersion { line, .. } => Some(line),
        ParseError::UnexpectedToken { line, .. } => Some(line),
        ParseError::UnknownDirective { line, .. } => Some(line),
        ParseError::DuplicateFunction { line, .. } => Some(line),
        ParseError::DuplicateValue { line, .. } => Some(line),
        ParseError::DuplicateBlock { line, .. } => Some(line),
        ParseError::UndefinedValue { line, .. } => Some(line),
        ParseError::UndefinedBlock { line, .. } => Some(line),
        ParseError::UndefinedConstant { line, .. } => Some(line),
        ParseError::InvalidType { line, .. } => Some(line),
        ParseError::InvalidNumber { line, .. } => Some(line),
        ParseError::OperandTypeMismatch { line, .. } => Some(line),
        ParseError::InvalidString { line, .. } => Some(line),
        ParseError::MisplacedDirective { line, .. } => Some(line),
        ParseError::InvalidStructure { line, .. } => Some(line),
        ParseError::InstructionAfterTerminator { line, .. } => Some(line),
        ParseError::ReservedName { line, .. } => Some(line),
        ParseError::UndefinedFunction { line, .. } => Some(line),
        ParseError::InvalidInstruction { line, .. } => Some(line),
    }
}

impl ParseError {
    /// Source line of the error, when known.
    pub fn line(&self) -> (r: Option<u32>)
        ensures
            r == parse_error_line(*self),
    {
        match self {
            ParseError::MissingDirective { .. } => None,
            ParseError::UnexpectedEof { .. } => None,
            ParseError::UnsupportedVersion { line, .. } => Some(*line),
            ParseError::UnexpectedToken { line, .. } => Some(*line),
            ParseError::UnknownDirective { line, .. } => Some(*line),
            ParseError::DuplicateFunction { line, .. } => Some(*line),
            ParseError::DuplicateValue { line, .. } => Some(*line),
            ParseError::DuplicateBlock { line, .. } => Some(*line),
            ParseError::UndefinedValue { line, .. } => Some(*line),
            ParseError::UndefinedBlock { line, .. } => Some(*line),
            ParseError::UndefinedConstant { line, .. } => Some(*line),
            ParseError::InvalidType { line, .. } => Some(*line),
            ParseError::InvalidNumber { line, .. } => Some(*line),
            ParseError::OperandTypeMismatch { line, .. } => Some(*line),
            ParseError::InvalidString { line, .. } => Some(*line),
            ParseError::MisplacedDirective { line, .. } => Some(*line),
            ParseError::InvalidStructure { line, .. } => Some(*line),
            ParseError::InstructionAfterTerminator { line, .. } => Some(*line),
            ParseError::ReservedName { line, .. } => Some(*line),
            ParseError::UndefinedFunction { line, .. } => Some(*line),
            ParseError::InvalidInstruction { line, .. } => Some(*line),
        }
    }
}

/// All errors found by one verification run, in detection order.
#[derive(Debug, Clone, PartialEq, Eq)]
pub struct VerifyErrorReport {
    errors: Vec<VerifyError>,
}

impl VerifyErrorReport {
    /// The collected errors.
    pub closed spec fn spec_errors(&self) -> Seq<VerifyError> {
        self.errors@
    }

    /// Creates a report from collected errors.
    pub(crate) fn new(errors: Vec<VerifyError>) -> (r: Self)
        ensures
            r.spec_errors() == errors@,
    {
        VerifyErrorReport { errors }
    }

    /// The individual errors, in detection order.
    pub fn errors(&self) -> (r: &[VerifyError])
        ensures
            r@ == self.spec_errors(),
    {
        self.errors.as_slice()
    }

    /// Consumes the report, returning the individual errors.
    pub fn into_errors(self) -> (r: Vec<VerifyError>)
        ensures
            r@ == self.spec_errors(),
    {
        self.errors
    }

    /// Number of errors.
    pub fn len(&self) -> (r: usize)
        ensures
            r == self.spec_errors().len(),
    {
        self.errors.len()
    }

    /// Returns true when there are no errors (never true for a report
    /// produced by the verifier).
    pub fn is_empty(&self) -> (r: bool)
        ensures
            r == (self.spec_errors().len() == 0),
    {
        self.errors.len() == 0
    }

    /// Iterates over the errors.
    pub fn iter(&self) -> (r: std::slice::Iter<'_, VerifyError>)
        ensures
            r.remaining() == self.spec_errors().map_values(|e: VerifyError| &e),
    {
        broadcast use vstd::std_specs::slice::axiom_spec_slice_iter;
        let it = self.errors.as_slice().iter();
        proof {
            assert(it.remaining() =~= self.spec_errors().map_values(|e: VerifyError| &e));
        }
        it
    }
}

/// Constant `c` can be typed as `ty` in `types`.
pub open spec fn spec_constant_fits(types: Seq<TypeData>, c: ConstantData, ty: TypeId) -> bool {
    (ty.0 as int) < types.len() && {
        let data = types[ty.0 as int];
        match c {
            ConstantData::Int { ty: cty, width, .. } => data matches TypeData::Int { bits, .. } && cty
                == ty && bits == width,
            ConstantData::Float { ty: cty, .. } => cty == ty && spec_is_float(data),
            ConstantData::Null { pointee } => data matches TypeData::Pointer {
                pointee: p,
                address_space,
            } && address_space == 0 && p == pointee,
            ConstantData::String { .. } => data matches TypeData::Pointer {
                pointee,
                address_space,
            } && address_space == 0 && pointee == TypeId::I8(),
            ConstantData::Aggregate { ty: cty, .. } => cty == ty && spec_is_aggregate(data),
        }
    }
}

/// Returns true when constant `c` can be typed as `ty` in `store`. Shared
/// by the verifier, the builder and the text parser.
pub fn constant_fits_type(store: &TypeStore, c: &ConstantData, ty: TypeId) -> (r: bool)
    ensures
        r == spec_constant_fits(store.types@, *c, ty),
{
    let data = match store.get(ty) {
        Some(d) => d,
        None => return false,
    };
    match c {
        ConstantData::Int { ty: cty, width, .. } => match data {
            TypeData::Int { bits, .. } => cty.0 == ty.0 && *bits == *width,
            _ => false,
        },
        ConstantData::Float { ty: cty, .. } => cty.0 == ty.0 && data.is_float(),
        ConstantData::Null { pointee } => match data {
            TypeData::Pointer { pointee: p, address_space } => *address_space == 0 && p.0
                == pointee.0,
            _ => false,
        },
        ConstantData::String { .. } => match data {
            TypeData::Pointer { pointee, address_space } => *address_space == 0 && pointee.0 == 2,
            _ => false,
        },
        ConstantData::Aggregate { ty: cty, .. } => cty.0 == ty.0 && data.is_aggregate(),
    }
}

/// The human-readable message of a `BuildError`: `[code] ` and a description
/// built from its fields.
pub open spec fn build_error_message(e: BuildError) -> Seq<char> {
    match e {
        BuildError::UnknownValue { value, context } => "["@ + build_error_code(e) + "] unknown value "@ + "v"@ + dec_chars(value.0 as nat) + " in "@ + context@,
        BuildError::UnknownBlock { block } => "["@ + build_error_code(e) + "] unknown block "@ + "bb"@ + dec_chars(block.0 as nat),
        BuildError::UnknownFunction { function } => "["@ + build_error_code(e) + "] unknown function "@ + "f"@ + dec_chars(function.0 as nat),
        BuildError::UnknownType { ty } => "["@ + build_error_code(e) + "] unknown type TypeId("@ + dec_chars(ty.0 as nat) + ")"@,
        BuildError::TypeMismatch { context, expected, found } => "["@ + build_error_code(e) + "] type mismatch in "@ + context@ + ": expected `"@ + expected@ + "`, found `"@ + found@ + "`"@,
        BuildError::InvalidOperand { context, reason } => "["@ + build_error_code(e) + "] invalid operand in "@ + context@ + ": "@ + reason@,
        BuildError::BlockTerminated { block } => "["@ + build_error_code(e) + "] block "@ + "bb"@ + dec_chars(block.0 as nat) + " already has a terminator"@,
        BuildError::BlockNotEmpty { block, reason } => "["@ + build_error_code(e) + "] block "@ + "bb"@ + dec_chars(block.0 as nat) + " is not in the required state: "@ + reason@,
        BuildError::InvalidName { name, reason } => "["@ + build_error_code(e) + "] invalid name `"@ + name@ + "`: "@ + reason@,
        BuildError::InvalidConstant { reason } => "["@ + build_error_code(e) + "] invalid constant: "@ + reason@,
        BuildError::VariadicDefinition { name } => "["@ + build_error_code(e) + "] function `"@ + name@ + "` is variadic and cannot have a body"@,
        BuildError::DuplicateFunctionName { name } => "["@ + build_error_code(e) + "] function `"@ + name@ + "` is already declared"@,
        BuildError::NoCurrentBlock { action } => "["@ + build_error_code(e) + "] cannot "@ + action@ + ": no current block (call append_block first)"@,
        BuildError::InvalidSignature { reason } => "["@ + build_error_code(e) + "] invalid signature: "@ + reason@,
    }
}

impl BuildError {
    /// The human-readable message: `[code] ` and a description built from
    /// the fields.
    #[verifier::rlimit(50)]
    pub fn message(&self) -> (r: String)
        ensures
            r@ == build_error_message(*self),
    {
        let code = self.code();
        match self {
            BuildError::UnknownValue { value, context } => {
                let d0 = dec_string(value.0 as u128);
                let parts = ["[", code, "] unknown value ", "v", d0.as_str(), " in ", *context];
                let r = join(&parts);
                proof {
                    reveal_with_fuel(concat_chars, 8);
                }
                r
            },
            BuildError::UnknownBlock { block } => {
                let d0 = dec_string(block.0 as u128);
                let parts = ["[", code, "] unknown block ", "bb", d0.as_str()];
                let r = join(&parts);
                proof {
                    reveal_with_fuel(concat_chars, 6);
                }
                r
            },
            BuildError::UnknownFunction { function } => {
                let d0 = dec_string(function.0 as u128);
                let parts = ["[", code, "] unknown function ", "f", d0.as_str()];
                let r = join(&parts);
                proof {
                    reveal_with_fuel(concat_chars, 6);
                }
                r
            },
            BuildError::UnknownType { ty } => {
                let d0 = dec_string(ty.0 as u128);
                let parts = ["[", code, "] unknown type TypeId(", d0.as_str(), ")"];
                let r = join(&parts);
                proof {
                    reveal_with_fuel(concat_chars, 6);
                }
                r
            },
            BuildError::TypeMismatch { context, expected, found } => {
                let parts = ["[", code, "] type mismatch in ", context.as_str(), ": expected `", expected.as_str(), "`, found `", found.as_str(), "`"];
                let r = join(&parts);
                proof {
                    reveal_with_fuel(concat_chars, 10);
                }
                r
            },
            BuildError::InvalidOperand { context, reason } => {
                let parts = ["[", code, "] invalid operand in ", *context, ": ", reason.as_str()];
                let r = join(&parts);
                proof {
                    reveal_with_fuel(concat_chars, 7);
                }
                r
            },
            BuildError::BlockTerminated { block } => {
                let d0 = dec_string(block.0 as u128);
                let parts = ["[", code, "] block ", "bb", d0.as_str(), " already has a terminator"];
                let r = join(&parts);
                proof {
                    reveal_with_fuel(concat_chars, 7);
                }
                r
            },
            BuildError::BlockNotEmpty { block, reason } => {
                let d0 = dec_string(block.0 as u128);
                let parts = ["[", code, "] block ", "bb", d0.as_str(), " is not in the required state: ", *reason];
                let r = join(&parts);
                proof {
                    reveal_with_fuel(concat_chars, 8);
                }
                r
            },
            BuildError::InvalidName { name, reason } => {
                let parts = ["[", code, "] invalid name `", name.as_str(), "`: ", *reason];
                let r = join(&parts);
                proof {
                    reveal_with_fuel(concat_chars, 7);
                }
                r
            },
            BuildError::InvalidConstant { reason } => {
                let parts = ["[", code, "] invalid constant: ", reason.as_str()];
                let r = join(&parts);
                proof {
                    reveal_with_fuel(concat_chars, 5);
                }
                r
            },
            BuildError::VariadicDefinition { name } => {
                let parts = ["[", code, "] function `", name.as_str(), "` is variadic and cannot have a body"];
                let r = join(&parts);
                proof {
                    reveal_with_fuel(concat_chars, 6);
                }
                r
            },
            BuildError::DuplicateFunctionName { name } => {
                let parts = ["[", code, "] function `", name.as_str(), "` is already declared"];
                let r = join(&parts);
                proof {
                    reveal_with_fuel(concat_chars, 6);
                }
                r
            },
            BuildError::NoCurrentBlock { action } => {
                let parts = ["[", code, "] cannot ", *action, ": no current block (call append_block first)"];
                let r = join(&parts);
                proof {
                    reveal_with_fuel(concat_chars, 6);
                }
                r
            },
            BuildError::InvalidSignature { reason } => {
                let parts = ["[", code, "] invalid signature: ", reason.as_str()];
                let r = join(&parts);
                proof {
                    reveal_with_fuel(concat_chars, 5);
                }
                r
            },
        }
    }
}

/// The human-readable message of a `VerifyError`: `[code] ` and a description
/// built from its fields.
pub open spec fn verify_error_message(e: VerifyError) -> Seq<char> {
    match e {
        VerifyError::UnknownValue { function, value } => "["@ + verify_error_code(e) + "] function `"@ + function@ + "`: unknown value v"@ + dec_chars(value as nat),
        VerifyError::UnknownBlock { function, block } => "["@ + verify_error_code(e) + "] function `"@ + function@ + "`: unknown block bb"@ + dec_chars(block as nat),
        VerifyError::UnknownFunction { function, callee } => "["@ + verify_error_code(e) + "] function `"@ + function@ + "`: unknown callee f"@ + dec_chars(callee as nat),
        VerifyError::UnknownConstant { constant } => "["@ + verify_error_code(e) + "] unknown constant c"@ + dec_chars(constant as nat),
        VerifyError::UnknownType { ty } => "["@ + verify_error_code(e) + "] unknown type t"@ + dec_chars(ty as nat),
        VerifyError::TypeMismatch { function, context, expected, found } => "["@ + verify_error_code(e) + "] function `"@ + function@ + "`: type mismatch in "@ + context@ + ": expected `"@ + expected@ + "`, found `"@ + found@ + "`"@,
        VerifyError::InvalidOperandType { function, reason } => "["@ + verify_error_code(e) + "] function `"@ + function@ + "`: invalid operand type: "@ + reason@,
        VerifyError::InvalidResultType { function, expected, found } => "["@ + verify_error_code(e) + "] function `"@ + function@ + "`: instruction result type must be `"@ + expected@ + "`, found `"@ + found@ + "`"@,
        VerifyError::ConditionNotI1 { function, found } => "["@ + verify_error_code(e) + "] function `"@ + function@ + "`: branch condition must be `i1`, found `"@ + found@ + "`"@,
        VerifyError::ValueRedefined { function, value, first, second } => "["@ + verify_error_code(e) + "] function `"@ + function@ + "`: value v"@ + dec_chars(value as nat) + " defined more than once ("@ + first@ + ", then "@ + second@ + ")"@,
        VerifyError::UndefinedValue { function, value } => "["@ + verify_error_code(e) + "] function `"@ + function@ + "`: value v"@ + dec_chars(value as nat) + " was never defined"@,
        VerifyError::InconsistentDefinition { function, value, reason } => "["@ + verify_error_code(e) + "] function `"@ + function@ + "`: value v"@ + dec_chars(value as nat) + ": "@ + reason@,
        VerifyError::UseNotDominated { function, value, use_block, def_block } => "["@ + verify_error_code(e) + "] function `"@ + function@ + "`: use of v"@ + dec_chars(value as nat) + " in bb"@ + dec_chars(use_block as nat) + " is not dominated by its definition in bb"@ + dec_chars(def_block as nat),
        VerifyError::MissingTerminator { function, block } => "["@ + verify_error_code(e) + "] function `"@ + function@ + "`: block bb"@ + dec_chars(block as nat) + " has no terminator"@,
        VerifyError::EntryBlockWithParams { function, count } => "["@ + verify_error_code(e) + "] function `"@ + function@ + "`: entry block must not have parameters (found "@ + dec_chars(count as nat) + ")"@,
        VerifyError::BlockArgCountMismatch { function, from_block, to_block, expected, found } => "["@ + verify_error_code(e) + "] function `"@ + function@ + "`: bb"@ + dec_chars(from_block as nat) + " passes "@ + dec_chars(found as nat) + " argument(s) to bb"@ + dec_chars(to_block as nat) + " which has "@ + dec_chars(expected as nat) + " parameter(s)"@,
        VerifyError::BlockArgTypeMismatch { function, from_block, to_block, index, expected, found } => "["@ + verify_error_code(e) + "] function `"@ + function@ + "`: bb"@ + dec_chars(from_block as nat) + " argument "@ + dec_chars(index as nat) + " for bb"@ + dec_chars(to_block as nat) + " must be `"@ + expected@ + "`, found `"@ + found@ + "`"@,
        VerifyError::ReturnMismatch { function, expected, found } => "["@ + verify_error_code(e) + "] function `"@ + function@ + "`: return must be `"@ + expected@ + "`, found "@ + found@,
        VerifyError::CallArityMismatch { function, callee, expected, found } => "["@ + verify_error_code(e) + "] function `"@ + function@ + "`: call to `"@ + callee@ + "` expects "@ + expected@ + ", found "@ + dec_chars(found as nat) + " argument(s)"@,
        VerifyError::CallArgTypeMismatch { function, callee, index, expected, found } => "["@ + verify_error_code(e) + "] function `"@ + function@ + "`: call to `"@ + callee@ + "` argument "@ + dec_chars(index as nat) + " must be `"@ + expected@ + "`, found `"@ + found@ + "`"@,
        VerifyError::InvalidConstant { constant, reason } => "["@ + verify_error_code(e) + "] constant c"@ + dec_chars(constant as nat) + ": "@ + reason@,
        VerifyError::DuplicateFunctionName { name } => "["@ + verify_error_code(e) + "] duplicate function name `"@ + name@ + "`"@,
        VerifyError::InvalidDeclaration { function, reason } => "["@ + verify_error_code(e) + "] function `"@ + function@ + "`: "@ + reason@,
        VerifyError::VariadicDefinition { function } => "["@ + verify_error_code(e) + "] function `"@ + function@ + "` is variadic but has a body"@,
        VerifyError::InvalidSignature { function, reason } => "["@ + verify_error_code(e) + "] function `"@ + function@ + "`: invalid signature: "@ + reason@,
    }
}

impl VerifyError {
    /// The human-readable message: `[code] ` and a description built from
    /// the fields.
    #[verifier::rlimit(50)]
    pub fn message(&self) -> (r: String)
        ensures
            r@ == verify_error_message(*self),
    {
        let code = self.code();
        match self {
            VerifyError::UnknownValue { function, value } => {
                let d0 = dec_string(*value as u128);
                let parts = ["[", code, "] function `", function.as_str(), "`: unknown value v", d0.as_str()];
                let r = join(&parts);
                proof {
                    reveal_with_fuel(concat_chars, 7);
                }
                r
            },
            VerifyError::UnknownBlock { function, block } => {
                let d0 = dec_string(*block as u128);
                let parts = ["[", code, "] function `", function.as_str(), "`: unknown block bb", d0.as_str()];
                let r = join(&parts);
                proof {
                    reveal_with_fuel(concat_chars, 7);
                }
                r
            },
            VerifyError::UnknownFunction { function, callee } => {
                let d0 = dec_string(*callee as u128);
                let parts = ["[", code, "] function `", function.as_str(), "`: unknown callee f", d0.as_str()];
                let r = join(&parts);
                proof {
                    reveal_with_fuel(concat_chars, 7);
                }
                r
            },
            VerifyError::UnknownConstant { constant } => {
                let d0 = dec_string(*constant as u128);
                let parts = ["[", code, "] unknown constant c", d0.as_str()];
                let r = join(&parts);
                proof {
                    reveal_with_fuel(concat_chars, 5);
                }
                r
            },
            VerifyError::UnknownType { ty } => {
                let d0 = dec_string(*ty as u128);
                let parts = ["[", code, "] unknown type t", d0.as_str()];
                let r = join(&parts);
                proof {
                    reveal_with_fuel(concat_chars, 5);
                }
                r
            },
            VerifyError::TypeMismatch { function, context, expected, found } => {
                let parts = ["[", code, "] function `", function.as_str(), "`: type mismatch in ", context.as_str(), ": expected `", expected.as_str(), "`, found `", found.as_str(), "`"];
                let r = join(&parts);
                proof {
                    reveal_with_fuel(concat_chars, 12);
                }
                r
            },
            VerifyError::InvalidOperandType { function, reason } => {
                let parts = ["[", code, "] function `", function.as_str(), "`: invalid operand type: ", reason.as_str()];
                let r = join(&parts);
                proof {
                    reveal_with_fuel(concat_chars, 7);
                }
                r
            },
            VerifyError::InvalidResultType { function, expected, found } => {
                let parts = ["[", code, "] function `", function.as_str(), "`: instruction result type must be `", expected.as_str(), "`, found `", found.as_str(), "`"];
                let r = join(&parts);
                proof {
                    reveal_with_fuel(concat_chars, 10);
                }
                r
            },
            VerifyError::ConditionNotI1 { function, found } => {
                let parts = ["[", code, "] function `", function.as_str(), "`: branch condition must be `i1`, found `", found.as_str(), "`"];
                let r = join(&parts);
                proof {
                    reveal_with_fuel(concat_chars, 8);
                }
                r
            },
            VerifyError::ValueRedefined { function, value, first, second } => {
                let d0 = dec_string(*value as u128);
                let parts = ["[", code, "] function `", function.as_str(), "`: value v", d0.as_str(), " defined more than once (", first.as_str(), ", then ", second.as_str(), ")"];
                let r = join(&parts);
                proof {
                    reveal_with_fuel(concat_chars, 12);
                }
                r
            },
            VerifyError::UndefinedValue { function, value } => {
                let d0 = dec_string(*value as u128);
                let parts = ["[", code, "] function `", function.as_str(), "`: value v", d0.as_str(), " was never defined"];
                let r = join(&parts);
                proof {
                    reveal_with_fuel(concat_chars, 8);
                }
                r
            },
            VerifyError::InconsistentDefinition { function, value, reason } => {
                let d0 = dec_string(*value as u128);
                let parts = ["[", code, "] function `", function.as_str(), "`: value v", d0.as_str(), ": ", reason.as_str()];
                let r = join(&parts);
                proof {
                    reveal_with_fuel(concat_chars, 9);
                }
                r
            },
            VerifyError::UseNotDominated { function, value, use_block, def_block } => {
                let d0 = dec_string(*value as u128);
                let d1 = dec_string(*use_block as u128);
                let d2 = dec_string(*def_block as u128);
                let parts = ["[", code, "] function `", function.as_str(), "`: use of v", d0.as_str(), " in bb", d1.as_str(), " is not dominated by its definition in bb", d2.as_str()];
                let r = join(&parts);
                proof {
                    reveal_with_fuel(concat_chars, 11);
                }
                r
            },
            VerifyError::MissingTerminator { function, block } => {
                let d0 = dec_string(*block as u128);
                let parts = ["[", code, "] function `", function.as_str(), "`: block bb", d0.as_str(), " has no terminator"];
                let r = join(&parts);
                proof {
                    reveal_with_fuel(concat_chars, 8);
                }
                r
            },
            VerifyError::EntryBlockWithParams { function, count } => {
                let d0 = dec_string(*count as u128);
                let parts = ["[", code, "] function `", function.as_str(), "`: entry block must not have parameters (found ", d0.as_str(), ")"];
                let r = join(&parts);
                proof {
                    reveal_with_fuel(concat_chars, 8);
                }
                r
            },
            VerifyError::BlockArgCountMismatch { function, from_block, to_block, expected, found } => {
                let d0 = dec_string(*from_block as u128);
                let d1 = dec_string(*found as u128);
                let d2 = dec_string(*to_block as u128);
                let d3 = dec_string(*expected as u128);
                let parts = ["[", code, "] function `", function.as_str(), "`: bb", d0.as_str(), " passes ", d1.as_str(), " argument(s) to bb", d2.as_str(), " which has ", d3.as_str(), " parameter(s)"];
                let r = join(&parts);
                proof {
                    reveal_with_fuel(concat_chars, 14);
                }
                r
            },
            VerifyError::BlockArgTypeMismatch { function, from_block, to_block, index, expected, found } => {
                let d0 = dec_string(*from_block as u128);
                let d1 = dec_string(*index as u128);
                let d2 = dec_string(*to_block as u128);
                let parts = ["[", code, "] function `", function.as_str(), "`: bb", d0.as_str(), " argument ", d1.as_str(), " for bb", d2.as_str(), " must be `", expected.as_str(), "`, found `", found.as_str(), "`"];
                let r = join(&parts);
                proof {
                    reveal_with_fuel(concat_chars, 16);
                }
                r
            },
            VerifyError::ReturnMismatch { function, expected, found } => {
                let parts = ["[", code, "] function `", function.as_str(), "`: return must be `", expected.as_str(), "`, found ", found.as_str()];
                let r = join(&parts);
                proof {
                    reveal_with_fuel(concat_chars, 9);
                }
                r
            },
            VerifyError::CallArityMismatch { function, callee, expected, found } => {
                let d0 = dec_string(*found as u128);
                let parts = ["[", code, "] function `", function.as_str(), "`: call to `", callee.as_str(), "` expects ", expected.as_str(), ", found ", d0.as_str(), " argument(s)"];
                let r = join(&parts);
                proof {
                    reveal_with_fuel(concat_chars, 12);
                }
                r
            },
            VerifyError::CallArgTypeMismatch { function, callee, index, expected, found } => {
                let d0 = dec_string(*index as u128);
                let parts = ["[", code, "] function `", function.as_str(), "`: call to `", callee.as_str(), "` argument ", d0.as_str(), " must be `", expected.as_str(), "`, found `", found.as_str(), "`"];
                let r = join(&parts);
                proof {
                    reveal_with_fuel(concat_chars, 14);
                }
                r
            },
            VerifyError::InvalidConstant { constant, reason } => {
                let d0 = dec_string(*constant as u128);
                let parts = ["[", code, "] constant c", d0.as_str(), ": ", reason.as_str()];
                let r = join(&parts);
                proof {
                    reveal_with_fuel(concat_chars, 7);
                }
                r
            },
            VerifyError::DuplicateFunctionName { name } => {
                let parts = ["[", code, "] duplicate function name `", name.as_str(), "`"];
                let r = join(&parts);
                proof {
                    reveal_with_fuel(concat_chars, 6);
                }
                r
            },
            VerifyError::InvalidDeclaration { function, reason } => {
                let parts = ["[", code, "] function `", function.as_str(), "`: ", reason.as_str()];
                let r = join(&parts);
                proof {
                    reveal_with_fuel(concat_chars, 7);
                }
                r
            },
            VerifyError::VariadicDefinition { function } => {
                let parts = ["[", code, "] function `", function.as_str(), "` is variadic but has a body"];
                let r = join(&parts);
                proof {
                    reveal_with_fuel(concat_chars, 6);
                }
                r
            },
            VerifyError::InvalidSignature { function, reason } => {
                let parts = ["[", code, "] function `", function.as_str(), "`: invalid signature: ", reason.as_str()];
                let r = join(&parts);
                proof {
                    reveal_with_fuel(concat_chars, 7);
                }
                r
            },
        }
    }
}

/// The human-readable message of a `ParseError`: `[code] ` and a description
/// built from its fields.
pub open spec fn parse_error_message(e: ParseError) -> Seq<char> {
    match e {
        ParseError::UnsupportedVersion { line, found, supported } => "["@ + parse_error_code(e) + "] line "@ + dec_chars(line as nat) + ": unsupported ARN version "@ + dec_chars(found as nat) + " (supported: "@ + dec_chars(supported as nat) + ")"@,
        ParseError::UnexpectedToken { line, expected, found } => "["@ + parse_error_code(e) + "] line "@ + dec_chars(line as nat) + ": expected "@ + expected@ + ", found "@ + found@,
        ParseError::UnknownDirective { line, name } => "["@ + parse_error_code(e) + "] line "@ + dec_chars(line as nat) + ": unknown directive `::ASTRONOMY::"@ + name@ + "`"@,
        ParseError::DuplicateFunction { line, name } => "["@ + parse_error_code(e) + "] line "@ + dec_chars(line as nat) + ": function `"@ + name@ + "` declared twice"@,
        ParseError::DuplicateValue { line, name } => "["@ + parse_error_code(e) + "] line "@ + dec_chars(line as nat) + ": value `%"@ + name@ + "` defined twice"@,
        ParseError::DuplicateBlock { line, label } => "["@ + parse_error_code(e) + "] line "@ + dec_chars(line as nat) + ": block `"@ + label@ + "` defined twice"@,
        ParseError::UndefinedValue { line, name } => "["@ + parse_error_code(e) + "] line "@ + dec_chars(line as nat) + ": use of undefined value `%"@ + name@ + "`"@,
        ParseError::UndefinedBlock { line, label } => "["@ + parse_error_code(e) + "] line "@ + dec_chars(line as nat) + ": use of undefined block `"@ + label@ + "`"@,
        ParseError::UndefinedConstant { line, name } => "["@ + parse_error_code(e) + "] line "@ + dec_chars(line as nat) + ": use of undefined constant `"@ + name@ + "`"@,
        ParseError::InvalidType { line, reason } => "["@ + parse_error_code(e) + "] line "@ + dec_chars(line as nat) + ": invalid type: "@ + reason@,
        ParseError::InvalidNumber { line, reason } => "["@ + parse_error_code(e) + "] line "@ + dec_chars(line as nat) + ": invalid number: "@ + reason@,
        ParseError::OperandTypeMismatch { line, annotated, actual } => "["@ + parse_error_code(e) + "] line "@ + dec_chars(line as nat) + ": operand annotated as `"@ + annotated@ + "` but value has type `"@ + actual@ + "`"@,
        ParseError::InvalidString { line, reason } => "["@ + parse_error_code(e) + "] line "@ + dec_chars(line as nat) + ": invalid string literal: "@ + reason@,
        ParseError::MisplacedDirective { line, name, reason } => "["@ + parse_error_code(e) + "] line "@ + dec_chars(line as nat) + ": directive `::ASTRONOMY::"@ + name@ + "` misplaced: "@ + reason@,
        ParseError::MissingDirective { expected } => "["@ + parse_error_code(e) + "] missing `"@ + expected@ + "`"@,
        ParseError::InvalidStructure { line, reason } => "["@ + parse_error_code(e) + "] line "@ + dec_chars(line as nat) + ": "@ + reason@,
        ParseError::UnexpectedEof { expected } => "["@ + parse_error_code(e) + "] unexpected end of input, expected "@ + expected@,
        ParseError::InstructionAfterTerminator { line } => "["@ + parse_error_code(e) + "] line "@ + dec_chars(line as nat) + ": instruction after terminator"@,
        ParseError::ReservedName { line, name, reason } => "["@ + parse_error_code(e) + "] line "@ + dec_chars(line as nat) + ": reserved name `"@ + name@ + "`: "@ + reason@,
        ParseError::UndefinedFunction { line, name } => "["@ + parse_error_code(e) + "] line "@ + dec_chars(line as nat) + ": call to undefined function `"@ + name@ + "`"@,
        ParseError::InvalidInstruction { line, reason } => "["@ + parse_error_code(e) + "] line "@ + dec_chars(line as nat) + ": "@ + reason@,
    }
}

impl ParseError {
    /// The human-readable message: `[code] ` and a description built from
    /// the fields.
    #[verifier::rlimit(50)]
    pub fn message(&self) -> (r: String)
        ensures
            r@ == parse_error_message(*self),
    {
        let code = self.code();
        match self {
            ParseError::UnsupportedVersion { line, found, supported } => {
                let d0 = dec_string(*line as u128);
                let d1 = dec_string(*found as u128);
                let d2 = dec_string(*supported as u128);
                let parts = ["[", code, "] line ", d0.as_str(), ": unsupported ARN version ", d1.as_str(), " (supported: ", d2.as_str(), ")"];
                let r = join(&parts);
                proof {
                    reveal_with_fuel(concat_chars, 10);
                }
                r
            },
            ParseError::UnexpectedToken { line, expected, found } => {
                let d0 = dec_string(*line as u128);
                let parts = ["[", code, "] line ", d0.as_str(), ": expected ", expected.as_str(), ", found ", found.as_str()];
                let r = join(&parts);
                proof {
                    reveal_with_fuel(concat_chars, 9);
                }
                r
            },
            ParseError::UnknownDirective { line, name } => {
                let d0 = dec_string(*line as u128);
                let parts = ["[", code, "] line ", d0.as_str(), ": unknown directive `::ASTRONOMY::", name.as_str(), "`"];
                let r = join(&parts);
                proof {
                    reveal_with_fuel(concat_chars, 8);
                }
                r
            },
            ParseError::DuplicateFunction { line, name } => {
                let d0 = dec_string(*line as u128);
                let parts = ["[", code, "] line ", d0.as_str(), ": function `", name.as_str(), "` declared twice"];
                let r = join(&parts);
                proof {
                    reveal_with_fuel(concat_chars, 8);
                }
                r
            },
            ParseError::DuplicateValue { line, name } => {
                let d0 = dec_string(*line as u128);
                let parts = ["[", code, "] line ", d0.as_str(), ": value `%", name.as_str(), "` defined twice"];
                let r = join(&parts);
                proof {
                    reveal_with_fuel(concat_chars, 8);
                }
                r
            },
            ParseError::DuplicateBlock { line, label } => {
                let d0 = dec_string(*line as u128);
                let parts = ["[", code, "] line ", d0.as_str(), ": block `", label.as_str(), "` defined twice"];
                let r = join(&parts);
                proof {
                    reveal_with_fuel(concat_chars, 8);
                }
                r
            },
            ParseError::UndefinedValue { line, name } => {
                let d0 = dec_string(*line as u128);
                let parts = ["[", code, "] line ", d0.as_str(), ": use of undefined value `%", name.as_str(), "`"];
                let r = join(&parts);
                proof {
                    reveal_with_fuel(concat_chars, 8);
                }
                r
            },
            ParseError::UndefinedBlock { line, label } => {
                let d0 = dec_string(*line as u128);
                let parts = ["[", code, "] line ", d0.as_str(), ": use of undefined block `", label.as_str(), "`"];
                let r = join(&parts);
                proof {
                    reveal_with_fuel(concat_chars, 8);
                }
                r
            },
            ParseError::UndefinedConstant { line, name } => {
                let d0 = dec_string(*line as u128);
                let parts = ["[", code, "] line ", d0.as_str(), ": use of undefined constant `", name.as_str(), "`"];
                let r = join(&parts);
                proof {
                    reveal_with_fuel(concat_chars, 8);
                }
                r
            },
            ParseError::InvalidType { line, reason } => {
                let d0 = dec_string(*line as u128);
                let parts = ["[", code, "] line ", d0.as_str(), ": invalid type: ", reason.as_str()];
                let r = join(&parts);
                proof {
                    reveal_with_fuel(concat_chars, 7);
                }
                r
            },
            ParseError::InvalidNumber { line, reason } => {
                let d0 = dec_string(*line as u128);
                let parts = ["[", code, "] line ", d0.as_str(), ": invalid number: ", reason.as_str()];
                let r = join(&parts);
                proof {
                    reveal_with_fuel(concat_chars, 7);
                }
                r
            },
            ParseError::OperandTypeMismatch { line, annotated, actual } => {
                let d0 = dec_string(*line as u128);
                let parts = ["[", code, "] line ", d0.as_str(), ": operand annotated as `", annotated.as_str(), "` but value has type `", actual.as_str(), "`"];
                let r = join(&parts);
                proof {
                    reveal_with_fuel(concat_chars, 10);
                }
                r
            },
            ParseError::InvalidString { line, reason } => {
                let d0 = dec_string(*line as u128);
                let parts = ["[", code, "] line ", d0.as_str(), ": invalid string literal: ", reason.as_str()];
                let r = join(&parts);
                proof {
                    reveal_with_fuel(concat_chars, 7);
                }
                r
            },
            ParseError::MisplacedDirective { line, name, reason } => {
                let d0 = dec_string(*line as u128);
                let parts = ["[", code, "] line ", d0.as_str(), ": directive `::ASTRONOMY::", name.as_str(), "` misplaced: ", reason.as_str()];
                let r = join(&parts);
                proof {
                    reveal_with_fuel(concat_chars, 9);
                }
                r
            },
            ParseError::MissingDirective { expected } => {
                let parts = ["[", code, "] missing `", expected.as_str(), "`"];
                let r = join(&parts);
                proof {
                    reveal_with_fuel(concat_chars, 6);
                }
                r
            },
            ParseError::InvalidStructure { line, reason } => {
                let d0 = dec_string(*line as u128);
                let parts = ["[", code, "] line ", d0.as_str(), ": ", reason.as_str()];
                let r = join(&parts);
                proof {
                    reveal_with_fuel(concat_chars, 7);
                }
                r
            },
            ParseError::UnexpectedEof { expected } => {
                let parts = ["[", code, "] unexpected end of input, expected ", expected.as_str()];
                let r = join(&parts);
                proof {
                    reveal_with_fuel(concat_chars, 5);
                }
                r
            },
            ParseError::InstructionAfterTerminator { line } => {
                let d0 = dec_string(*line as u128);
                let parts = ["[", code, "] line ", d0.as_str(), ": instruction after terminator"];
                let r = join(&parts);
                proof {
                    reveal_with_fuel(concat_chars, 6);
                }
                r
            },
            ParseError::ReservedName { line, name, reason } => {
                let d0 = dec_string(*line as u128);
                let parts = ["[", code, "] line ", d0.as_str(), ": reserved name `", name.as_str(), "`: ", reason.as_str()];
                let r = join(&parts);
                proof {
                    reveal_with_fuel(concat_chars, 9);
                }
                r
            },
            ParseError::UndefinedFunction { line, name } => {
                let d0 = dec_string(*line as u128);
                let parts = ["[", code, "] line ", d0.as_str(), ": call to undefined function `", name.as_str(), "`"];
                let r = join(&parts);
                proof {
                    reveal_with_fuel(concat_chars, 8);
                }
                r
            },
            ParseError::InvalidInstruction { line, reason } => {
                let d0 = dec_string(*line as u128);
                let parts = ["[", code, "] line ", d0.as_str(), ": ", reason.as_str()];
                let r = join(&parts);
                proof {
                    reveal_with_fuel(concat_chars, 7);
                }
                r
            },
        }
    }
}

/// One line per error: `error[code]: message`, each on a new indented
/// line.
pub open spec fn report_lines(errors: Seq<VerifyError>) -> Seq<char>
    decreases errors.len(),
{
    if errors.len() == 0 {
        Seq::empty()
    } else {
        report_lines(errors.drop_last()) + "\n  error["@ + verify_error_code(errors.last()) + "]: "@
            + verify_error_message(errors.last())
    }
}

impl VerifyErrorReport {
    /// The summary: the number of errors, then one line per error.
    pub fn message(&self) -> (r: String)
        ensures
            r@ == "verification failed with "@ + dec_chars(self.spec_errors().len()) + " error(s):"@
                + report_lines(self.spec_errors()),
    {
        let count = dec_string(self.errors.len() as u128);
        let head = ["verification failed with ", count.as_str(), " error(s):"];
        let mut acc = join(&head);
        proof {
            reveal_with_fuel(concat_chars, 4);
        }
        let ghost start = acc@;
        let mut i: usize = 0;
        while i < self.errors.len()
            invariant
                i <= self.errors@.len(),
                acc@ == start + report_lines(self.errors@.subrange(0, i as int)),
            decreases self.errors@.len() - i,
        {
            let e = &self.errors[i];
            let m = e.message();
            let parts = [acc.as_str(), "\n  error[", e.code(), "]: ", m.as_str()];
            let next = join(&parts);
            proof {
                reveal_with_fuel(concat_chars, 6);
                let sub = self.errors@.subrange(0, i + 1);
                assert(sub.drop_last() =~= self.errors@.subrange(0, i as int));
                assert(next@ =~= start + report_lines(sub));
            }
            acc = next;
            i = i + 1;
        }
        proof {
            assert(self.errors@.subrange(0, self.errors@.len() as int) =~= self.errors@);
        }
        acc
    }
}

/// A code in brackets is a prefix of the code in brackets followed by
/// any text that starts with the closing bracket.
proof fn lemma_bracket_prefix(code: Seq<char>, lit: Seq<char>)
    requires
        lit.len() >= 1,
        lit[0] == ']',
    ensures
        ("["@ + code + "]"@).is_prefix_of("["@ + code + lit),
{
    reveal_strlit("[");
    reveal_strlit("]");
    let p = "["@ + code + "]"@;
    assert(p =~= ("["@ + code + lit).subrange(0, p.len() as int));
}

/// A prefix of `a` is a prefix of `a` followed by anything.
proof fn lemma_prefix_grows(p: Seq<char>, a: Seq<char>, x: Seq<char>)
    requires
        p.is_prefix_of(a),
    ensures
        p.is_prefix_of(a + x),
{
    assert(p =~= (a + x).subrange(0, p.len() as int)) by {
        assert forall|i: int| 0 <= i < p.len() implies p[i] == (a + x).subrange(0, p.len() as int)[i] by {
            assert(p[i] == a.subrange(0, p.len() as int)[i]);
        }
    }
}


/// Every message of a `VerifyError` starts with its code in square brackets.
pub proof fn law_verify_message_starts_with_code(e: VerifyError)
    ensures
        ("["@ + verify_error_code(e) + "]"@).is_prefix_of(verify_error_message(e)),
{
    let p = "["@ + verify_error_code(e) + "]"@;
    match e {
        VerifyError::UnknownValue { function, value } => {
            reveal_strlit("] function `");
            lemma_bracket_prefix(verify_error_code(e), "] function `"@);
            lemma_prefix_grows(p, "["@ + verify_error_code(e) + "] function `"@, function@);
            lemma_prefix_grows(p, "["@ + verify_error_code(e) + "] function `"@ + function@, "`: unknown value v"@);
            lemma_prefix_grows(p, "["@ + verify_error_code(e) + "] function `"@ + function@ + "`: unknown value v"@, dec_chars(value as nat));
        },
        VerifyError::UnknownBlock { function, block } => {
            reveal_strlit("] function `");
            lemma_bracket_prefix(verify_error_code(e), "] function `"@);
            lemma_prefix_grows(p, "["@ + verify_error_code(e) + "] function `"@, function@);
            lemma_prefix_grows(p, "["@ + verify_error_code(e) + "] function `"@ + function@, "`: unknown block bb"@);
            lemma_prefix_grows(p, "["@ + verify_error_code(e) + "] function `"@ + function@ + "`: unknown block bb"@, dec_chars(block as nat));
        },
        VerifyError::UnknownFunction { function, callee } => {
            reveal_strlit("] function `");
            lemma_bracket_prefix(verify_error_code(e), "] function `"@);
            lemma_prefix_grows(p, "["@ + verify_error_code(e) + "] function `"@, function@);
            lemma_prefix_grows(p, "["@ + verify_error_code(e) + "] function `"@ + function@, "`: unknown callee f"@);
            lemma_prefix_grows(p, "["@ + verify_error_code(e) + "] function `"@ + function@ + "`: unknown callee f"@, dec_chars(callee as nat));
        },
        VerifyError::UnknownConstant { constant } => {
            reveal_strlit("] unknown constant c");
            lemma_bracket_prefix(verify_error_code(e), "] unknown constant c"@);
            lemma_prefix_grows(p, "["@ + verify_error_code(e) + "] unknown constant c"@, dec_chars(constant as nat));
        },
        VerifyError::UnknownType { ty } => {
            reveal_strlit("] unknown type t");
            lemma_bracket_prefix(verify_error_code(e), "] unknown type t"@);
            lemma_prefix_grows(p, "["@ + verify_error_code(e) + "] unknown type t"@, dec_chars(ty as nat));
        },
        VerifyError::TypeMismatch { function, context, expected, found } => {
            reveal_strlit("] function `");
            lemma_bracket_prefix(verify_error_code(e), "] function `"@);
            lemma_prefix_grows(p, "["@ + verify_error_code(e) + "] function `"@, function@);
            lemma_prefix_grows(p, "["@ + verify_error_code(e) + "] function `"@ + function@, "`: type mismatch in "@);
            lemma_prefix_grows(p, "["@ + verify_error_code(e) + "] function `"@ + function@ + "`: type mismatch in "@, context@);
            lemma_prefix_grows(p, "["@ + verify_error_code(e) + "] function `"@ + function@ + "`: type mismatch in "@ + context@, ": expected `"@);
            lemma_prefix_grows(p, "["@ + verify_error_code(e) + "] function `"@ + function@ + "`: type mismatch in "@ + context@ + ": expected `"@, expected@);
            lemma_prefix_grows(p, "["@ + verify_error_code(e) + "] function `"@ + function@ + "`: type mismatch in "@ + context@ + ": expected `"@ + expected@, "`, found `"@);
            lemma_prefix_grows(p, "["@ + verify_error_code(e) + "] function `"@ + function@ + "`: type mismatch in "@ + context@ + ": expected `"@ + expected@ + "`, found `"@, found@);
            lemma_prefix_grows(p, "["@ + verify_error_code(e) + "] function `"@ + function@ + "`: type mismatch in "@ + context@ + ": expected `"@ + expected@ + "`, found `"@ + found@, "`"@);
        },
        VerifyError::InvalidOperandType { function, reason } => {
            reveal_strlit("] function `");
            lemma_bracket_prefix(verify_error_code(e), "] function `"@);
            lemma_prefix_grows(p, "["@ + verify_error_code(e) + "] function `"@, function@);
            lemma_prefix_grows(p, "["@ + verify_error_code(e) + "] function `"@ + function@, "`: invalid operand type: "@);
            lemma_prefix_grows(p, "["@ + verify_error_code(e) + "] function `"@ + function@ + "`: invalid operand type: "@, reason@);
        },
        VerifyError::InvalidResultType { function, expected, found } => {
            reveal_strlit("] function `");
            lemma_bracket_prefix(verify_error_code(e), "] function `"@);
            lemma_prefix_grows(p, "["@ + verify_error_code(e) + "] function `"@, function@);
            lemma_prefix_grows(p, "["@ + verify_error_code(e) + "] function `"@ + function@, "`: instruction result type must be `"@);
            lemma_prefix_grows(p, "["@ + verify_error_code(e) + "] function `"@ + function@ + "`: instruction result type must be `"@, expected@);
            lemma_prefix_grows(p, "["@ + verify_error_code(e) + "] function `"@ + function@ + "`: instruction result type must be `"@ + expected@, "`, found `"@);
            lemma_prefix_grows(p, "["@ + verify_error_code(e) + "] function `"@ + function@ + "`: instruction result type must be `"@ + expected@ + "`, found `"@, found@);
            lemma_prefix_grows(p, "["@ + verify_error_code(e) + "] function `"@ + function@ + "`: instruction result type must be `"@ + expected@ + "`, found `"@ + found@, "`"@);
        },
        VerifyError::ConditionNotI1 { function, found } => {
            reveal_strlit("] function `");
            lemma_bracket_prefix(verify_error_code(e), "] function `"@);
            lemma_prefix_grows(p, "["@ + verify_error_code(e) + "] function `"@, function@);
            lemma_prefix_grows(p, "["@ + verify_error_code(e) + "] function `"@ + function@, "`: branch condition must be `i1`, found `"@);
            lemma_prefix_grows(p, "["@ + verify_error_code(e) + "] function `"@ + function@ + "`: branch condition must be `i1`, found `"@, found@);
            lemma_prefix_grows(p, "["@ + verify_error_code(e) + "] function `"@ + function@ + "`: branch condition must be `i1`, found `"@ + found@, "`"@);
        },
        VerifyError::ValueRedefined { function, value, first, second } => {
            reveal_strlit("] function `");
            lemma_bracket_prefix(verify_error_code(e), "] function `"@);
            lemma_prefix_grows(p, "["@ + verify_error_code(e) + "] function `"@, function@);
            lemma_prefix_grows(p, "["@ + verify_error_code(e) + "] function `"@ + function@, "`: value v"@);
            lemma_prefix_grows(p, "["@ + verify_error_code(e) + "] function `"@ + function@ + "`: value v"@, dec_chars(value as nat));
            lemma_prefix_grows(p, "["@ + verify_error_code(e) + "] function `"@ + function@ + "`: value v"@ + dec_chars(value as nat), " defined more than once ("@);
            lemma_prefix_grows(p, "["@ + verify_error_code(e) + "] function `"@ + function@ + "`: value v"@ + dec_chars(value as nat) + " defined more than once ("@, first@);
            lemma_prefix_grows(p, "["@ + verify_error_code(e) + "] function `"@ + function@ + "`: value v"@ + dec_chars(value as nat) + " defined more than once ("@ + first@, ", then "@);
            lemma_prefix_grows(p, "["@ + verify_error_code(e) + "] function `"@ + function@ + "`: value v"@ + dec_chars(value as nat) + " defined more than once ("@ + first@ + ", then "@, second@);
            lemma_prefix_grows(p, "["@ + verify_error_code(e) + "] function `"@ + function@ + "`: value v"@ + dec_chars(value as nat) + " defined more than once ("@ + first@ + ", then "@ + second@, ")"@);
        },
        VerifyError::UndefinedValue { function, value } => {
            reveal_strlit("] function `");
            lemma_bracket_prefix(verify_error_code(e), "] function `"@);
            lemma_prefix_grows(p, "["@ + verify_error_code(e) + "] function `"@, function@);
            lemma_prefix_grows(p, "["@ + verify_error_code(e) + "] function `"@ + function@, "`: value v"@);
            lemma_prefix_grows(p, "["@ + verify_error_code(e) + "] function `"@ + function@ + "`: value v"@, dec_chars(value as nat));
            lemma_prefix_grows(p, "["@ + verify_error_code(e) + "] function `"@ + function@ + "`: value v"@ + dec_chars(value as nat), " was never defined"@);
        },
        VerifyError::InconsistentDefinition { function, value, reason } => {
            reveal_strlit("] function `");
            lemma_bracket_prefix(verify_error_code(e), "] function `"@);
            lemma_prefix_grows(p, "["@ + verify_error_code(e) + "] function `"@, function@);
            lemma_prefix_grows(p, "["@ + verify_error_code(e) + "] function `"@ + function@, "`: value v"@);
            lemma_prefix_grows(p, "["@ + verify_error_code(e) + "] function `"@ + function@ + "`: value v"@, dec_chars(value as nat));
            lemma_prefix_grows(p, "["@ + verify_error_code(e) + "] function `"@ + function@ + "`: value v"@ + dec_chars(value as nat), ": "@);
            lemma_prefix_grows(p, "["@ + verify_error_code(e) + "] function `"@ + function@ + "`: value v"@ + dec_chars(value as nat) + ": "@, reason@);
        },
        VerifyError::UseNotDominated { function, value, use_block, def_block } => {
            reveal_strlit("] function `");
            lemma_bracket_prefix(verify_error_code(e), "] function `"@);
            lemma_prefix_grows(p, "["@ + verify_error_code(e) + "] function `"@, function@);
            lemma_prefix_grows(p, "["@ + verify_error_code(e) + "] function `"@ + function@, "`: use of v"@);
            lemma_prefix_grows(p, "["@ + verify_error_code(e) + "] function `"@ + function@ + "`: use of v"@, dec_chars(value as nat));
            lemma_prefix_grows(p, "["@ + verify_error_code(e) + "] function `"@ + function@ + "`: use of v"@ + dec_chars(value as nat), " in bb"@);
            lemma_prefix_grows(p, "["@ + verify_error_code(e) + "] function `"@ + function@ + "`: use of v"@ + dec_chars(value as nat) + " in bb"@, dec_chars(use_block as nat));
            lemma_prefix_grows(p, "["@ + verify_error_code(e) + "] function `"@ + function@ + "`: use of v"@ + dec_chars(value as nat) + " in bb"@ + dec_chars(use_block as nat), " is not dominated by its definition in bb"@);
            lemma_prefix_grows(p, "["@ + verify_error_code(e) + "] function `"@ + function@ + "`: use of v"@ + dec_chars(value as nat) + " in bb"@ + dec_chars(use_block as nat) + " is not dominated by its definition in bb"@, dec_chars(def_block as nat));
        },
        VerifyError::MissingTerminator { function, block } => {
            reveal_strlit("] function `");
            lemma_bracket_prefix(verify_error_code(e), "] function `"@);
            lemma_prefix_grows(p, "["@ + verify_error_code(e) + "] function `"@, function@);
            lemma_prefix_grows(p, "["@ + verify_error_code(e) + "] function `"@ + function@, "`: block bb"@);
            lemma_prefix_grows(p, "["@ + verify_error_code(e) + "] function `"@ + function@ + "`: block bb"@, dec_chars(block as nat));
            lemma_prefix_grows(p, "["@ + verify_error_code(e) + "] function `"@ + function@ + "`: block bb"@ + dec_chars(block as nat), " has no terminator"@);
        },
        VerifyError::EntryBlockWithParams { function, count } => {
            reveal_strlit("] function `");
            lemma_bracket_prefix(verify_error_code(e), "] function `"@);
            lemma_prefix_grows(p, "["@ + verify_error_code(e) + "] function `"@, function@);
            lemma_prefix_grows(p, "["@ + verify_error_code(e) + "] function `"@ + function@, "`: entry block must not have parameters (found "@);
            lemma_prefix_grows(p, "["@ + verify_error_code(e) + "] function `"@ + function@ + "`: entry block must not have parameters (found "@, dec_chars(count as nat));
            lemma_prefix_grows(p, "["@ + verify_error_code(e) + "] function `"@ + function@ + "`: entry block must not have parameters (found "@ + dec_chars(count as nat), ")"@);
        },
        VerifyError::BlockArgCountMismatch { function, from_block, to_block, expected, found } => {
            reveal_strlit("] function `");
            lemma_bracket_prefix(verify_error_code(e), "] function `"@);
            lemma_prefix_grows(p, "["@ + verify_error_code(e) + "] function `"@, function@);
            lemma_prefix_grows(p, "["@ + verify_error_code(e) + "] function `"@ + function@, "`: bb"@);
            lemma_prefix_grows(p, "["@ + verify_error_code(e) + "] function `"@ + function@ + "`: bb"@, dec_chars(from_block as nat));
            lemma_prefix_grows(p, "["@ + verify_error_code(e) + "] function `"@ + function@ + "`: bb"@ + dec_chars(from_block as nat), " passes "@);
            lemma_prefix_grows(p, "["@ + verify_error_code(e) + "] function `"@ + function@ + "`: bb"@ + dec_chars(from_block as nat) + " passes "@, dec_chars(found as nat));
            lemma_prefix_grows(p, "["@ + verify_error_code(e) + "] function `"@ + function@ + "`: bb"@ + dec_chars(from_block as nat) + " passes "@ + dec_chars(found as nat), " argument(s) to bb"@);
            lemma_prefix_grows(p, "["@ + verify_error_code(e) + "] function `"@ + function@ + "`: bb"@ + dec_chars(from_block as nat) + " passes "@ + dec_chars(found as nat) + " argument(s) to bb"@, dec_chars(to_block as nat));
            lemma_prefix_grows(p, "["@ + verify_error_code(e) + "] function `"@ + function@ + "`: bb"@ + dec_chars(from_block as nat) + " passes "@ + dec_chars(found as nat) + " argument(s) to bb"@ + dec_chars(to_block as nat), " which has "@);
            lemma_prefix_grows(p, "["@ + verify_error_code(e) + "] function `"@ + function@ + "`: bb"@ + dec_chars(from_block as nat) + " passes "@ + dec_chars(found as nat) + " argument(s) to bb"@ + dec_chars(to_block as nat) + " which has "@, dec_chars(expected as nat));
            lemma_prefix_grows(p, "["@ + verify_error_code(e) + "] function `"@ + function@ + "`: bb"@ + dec_chars(from_block as nat) + " passes "@ + dec_chars(found as nat) + " argument(s) to bb"@ + dec_chars(to_block as nat) + " which has "@ + dec_chars(expected as nat), " parameter(s)"@);
        },
        VerifyError::BlockArgTypeMismatch { function, from_block, to_block, index, expected, found } => {
            reveal_strlit("] function `");
            lemma_bracket_prefix(verify_error_code(e), "] function `"@);
            lemma_prefix_grows(p, "["@ + verify_error_code(e) + "] function `"@, function@);
            lemma_prefix_grows(p, "["@ + verify_error_code(e) + "] function `"@ + function@, "`: bb"@);
            lemma_prefix_grows(p, "["@ + verify_error_code(e) + "] function `"@ + function@ + "`: bb"@, dec_chars(from_block as nat));
            lemma_prefix_grows(p, "["@ + verify_error_code(e) + "] function `"@ + function@ + "`: bb"@ + dec_chars(from_block as nat), " argument "@);
            lemma_prefix_grows(p, "["@ + verify_error_code(e) + "] function `"@ + function@ + "`: bb"@ + dec_chars(from_block as nat) + " argument "@, dec_chars(index as nat));
            lemma_prefix_grows(p, "["@ + verify_error_code(e) + "] function `"@ + function@ + "`: bb"@ + dec_chars(from_block as nat) + " argument "@ + dec_chars(index as nat), " for bb"@);
            lemma_prefix_grows(p, "["@ + verify_error_code(e) + "] function `"@ + function@ + "`: bb"@ + dec_chars(from_block as nat) + " argument "@ + dec_chars(index as nat) + " for bb"@, dec_chars(to_block as nat));
            lemma_prefix_grows(p, "["@ + verify_error_code(e) + "] function `"@ + function@ + "`: bb"@ + dec_chars(from_block as nat) + " argument "@ + dec_chars(index as nat) + " for bb"@ + dec_chars(to_block as nat), " must be `"@);
            lemma_prefix_grows(p, "["@ + verify_error_code(e) + "] function `"@ + function@ + "`: bb"@ + dec_chars(from_block as nat) + " argument "@ + dec_chars(index as nat) + " for bb"@ + dec_chars(to_block as nat) + " must be `"@, expected@);
            lemma_prefix_grows(p, "["@ + verify_error_code(e) + "] function `"@ + function@ + "`: bb"@ + dec_chars(from_block as nat) + " argument "@ + dec_chars(index as nat) + " for bb"@ + dec_chars(to_block as nat) + " must be `"@ + expected@, "`, found `"@);
            lemma_prefix_grows(p, "["@ + verify_error_code(e) + "] function `"@ + function@ + "`: bb"@ + dec_chars(from_block as nat) + " argument "@ + dec_chars(index as nat) + " for bb"@ + dec_chars(to_block as nat) + " must be `"@ + expected@ + "`, found `"@, found@);
            lemma_prefix_grows(p, "["@ + verify_error_code(e) + "] function `"@ + function@ + "`: bb"@ + dec_chars(from_block as nat) + " argument "@ + dec_chars(index as nat) + " for bb"@ + dec_chars(to_block as nat) + " must be `"@ + expected@ + "`, found `"@ + found@, "`"@);
        },
        VerifyError::ReturnMismatch { function, expected, found } => {
            reveal_strlit("] function `");
            lemma_bracket_prefix(verify_error_code(e), "] function `"@);
            lemma_prefix_grows(p, "["@ + verify_error_code(e) + "] function `"@, function@);
            lemma_prefix_grows(p, "["@ + verify_error_code(e) + "] function `"@ + function@, "`: return must be `"@);
            lemma_prefix_grows(p, "["@ + verify_error_code(e) + "] function `"@ + function@ + "`: return must be `"@, expected@);
            lemma_prefix_grows(p, "["@ + verify_error_code(e) + "] function `"@ + function@ + "`: return must be `"@ + expected@, "`, found "@);
            lemma_prefix_grows(p, "["@ + verify_error_code(e) + "] function `"@ + function@ + "`: return must be `"@ + expected@ + "`, found "@, found@);
        },
        VerifyError::CallArityMismatch { function, callee, expected, found } => {
            reveal_strlit("] function `");
            lemma_bracket_prefix(verify_error_code(e), "] function `"@);
            lemma_prefix_grows(p, "["@ + verify_error_code(e) + "] function `"@, function@);
            lemma_prefix_grows(p, "["@ + verify_error_code(e) + "] function `"@ + function@, "`: call to `"@);
            lemma_prefix_grows(p, "["@ + verify_error_code(e) + "] function `"@ + function@ + "`: call to `"@, callee@);
            lemma_prefix_grows(p, "["@ + verify_error_code(e) + "] function `"@ + function@ + "`: call to `"@ + callee@, "` expects "@);
            lemma_prefix_grows(p, "["@ + verify_error_code(e) + "] function `"@ + function@ + "`: call to `"@ + callee@ + "` expects "@, expected@);
            lemma_prefix_grows(p, "["@ + verify_error_code(e) + "] function `"@ + function@ + "`: call to `"@ + callee@ + "` expects "@ + expected@, ", found "@);
            lemma_prefix_grows(p, "["@ + verify_error_code(e) + "] function `"@ + function@ + "`: call to `"@ + callee@ + "` expects "@ + expected@ + ", found "@, dec_chars(found as nat));
            lemma_prefix_grows(p, "["@ + verify_error_code(e) + "] function `"@ + function@ + "`: call to `"@ + callee@ + "` expects "@ + expected@ + ", found "@ + dec_chars(found as nat), " argument(s)"@);
        },
        VerifyError::CallArgTypeMismatch { function, callee, index, expected, found } => {
            reveal_strlit("] function `");
            lemma_bracket_prefix(verify_error_code(e), "] function `"@);
            lemma_prefix_grows(p, "["@ + verify_error_code(e) + "] function `"@, function@);
            lemma_prefix_grows(p, "["@ + verify_error_code(e) + "] function `"@ + function@, "`: call to `"@);
            lemma_prefix_grows(p, "["@ + verify_error_code(e) + "] function `"@ + function@ + "`: call to `"@, callee@);
            lemma_prefix_grows(p, "["@ + verify_error_code(e) + "] function `"@ + function@ + "`: call to `"@ + callee@, "` argument "@);
            lemma_prefix_grows(p, "["@ + verify_error_code(e) + "] function `"@ + function@ + "`: call to `"@ + callee@ + "` argument "@, dec_chars(index as nat));
            lemma_prefix_grows(p, "["@ + verify_error_code(e) + "] function `"@ + function@ + "`: call to `"@ + callee@ + "` argument "@ + dec_chars(index as nat), " must be `"@);
            lemma_prefix_grows(p, "["@ + verify_error_code(e) + "] function `"@ + function@ + "`: call to `"@ + callee@ + "` argument "@ + dec_chars(index as nat) + " must be `"@, expected@);
            lemma_prefix_grows(p, "["@ + verify_error_code(e) + "] function `"@ + function@ + "`: call to `"@ + callee@ + "` argument "@ + dec_chars(index as nat) + " must be `"@ + expected@, "`, found `"@);
            lemma_prefix_grows(p, "["@ + verify_error_code(e) + "] function `"@ + function@ + "`: call to `"@ + callee@ + "` argument "@ + dec_chars(index as nat) + " must be `"@ + expected@ + "`, found `"@, found@);
            lemma_prefix_grows(p, "["@ + verify_error_code(e) + "] function `"@ + function@ + "`: call to `"@ + callee@ + "` argument "@ + dec_chars(index as nat) + " must be `"@ + expected@ + "`, found `"@ + found@, "`"@);
        },
        VerifyError::InvalidConstant { constant, reason } => {
            reveal_strlit("] constant c");
            lemma_bracket_prefix(verify_error_code(e), "] constant c"@);
            lemma_prefix_grows(p, "["@ + verify_error_code(e) + "] constant c"@, dec_chars(constant as nat));
            lemma_prefix_grows(p, "["@ + verify_error_code(e) + "] constant c"@ + dec_chars(constant as nat), ": "@);
            lemma_prefix_grows(p, "["@ + verify_error_code(e) + "] constant c"@ + dec_chars(constant as nat) + ": "@, reason@);
        },
        VerifyError::DuplicateFunctionName { name } => {
            reveal_strlit("] duplicate function name `");
            lemma_bracket_prefix(verify_error_code(e), "] duplicate function name `"@);
            lemma_prefix_grows(p, "["@ + verify_error_code(e) + "] duplicate function name `"@, name@);
            lemma_prefix_grows(p, "["@ + verify_error_code(e) + "] duplicate function name `"@ + name@, "`"@);
        },
        VerifyError::InvalidDeclaration { function, reason } => {
            reveal_strlit("] function `");
            lemma_bracket_prefix(verify_error_code(e), "] function `"@);
            lemma_prefix_grows(p, "["@ + verify_error_code(e) + "] function `"@, function@);
            lemma_prefix_grows(p, "["@ + verify_error_code(e) + "] function `"@ + function@, "`: "@);
            lemma_prefix_grows(p, "["@ + verify_error_code(e) + "] function `"@ + function@ + "`: "@, reason@);
        },
        VerifyError::VariadicDefinition { function } => {
            reveal_strlit("] function `");
            lemma_bracket_prefix(verify_error_code(e), "] function `"@);
            lemma_prefix_grows(p, "["@ + verify_error_code(e) + "] function `"@, function@);
            lemma_prefix_grows(p, "["@ + verify_error_code(e) + "] function `"@ + function@, "` is variadic but has a body"@);
        },
        VerifyError::InvalidSignature { function, reason } => {
            reveal_strlit("] function `");
            lemma_bracket_prefix(verify_error_code(e), "] function `"@);
            lemma_prefix_grows(p, "["@ + verify_error_code(e) + "] function `"@, function@);
            lemma_prefix_grows(p, "["@ + verify_error_code(e) + "] function `"@ + function@, "`: invalid signature: "@);
            lemma_prefix_grows(p, "["@ + verify_error_code(e) + "] function `"@ + function@ + "`: invalid signature: "@, reason@);
        },
    }
}

/// Every message of a `ParseError` starts with its code in square brackets.
pub proof fn law_parse_message_starts_with_code(e: ParseError)
    ensures
        ("["@ + parse_error_code(e) + "]"@).is_prefix_of(parse_error_message(e)),
{
    let p = "["@ + parse_error_code(e) + "]"@;
    match e {
        ParseError::UnsupportedVersion { line, found, supported } => {
            reveal_strlit("] line ");
            lemma_bracket_prefix(parse_error_code(e), "] line "@);
            lemma_prefix_grows(p, "["@ + parse_error_code(e) + "] line "@, dec_chars(line as nat));
            lemma_prefix_grows(p, "["@ + parse_error_code(e) + "] line "@ + dec_chars(line as nat), ": unsupported ARN version "@);
            lemma_prefix_grows(p, "["@ + parse_error_code(e) + "] line "@ + dec_chars(line as nat) + ": unsupported ARN version "@, dec_chars(found as nat));
            lemma_prefix_grows(p, "["@ + parse_error_code(e) + "] line "@ + dec_chars(line as nat) + ": unsupported ARN version "@ + dec_chars(found as nat), " (supported: "@);
            lemma_prefix_grows(p, "["@ + parse_error_code(e) + "] line "@ + dec_chars(line as nat) + ": unsupported ARN version "@ + dec_chars(found as nat) + " (supported: "@, dec_chars(supported as nat));
            lemma_prefix_grows(p, "["@ + parse_error_code(e) + "] line "@ + dec_chars(line as nat) + ": unsupported ARN version "@ + dec_chars(found as nat) + " (supported: "@ + dec_chars(supported as nat), ")"@);
        },
        ParseError::UnexpectedToken { line, expected, found } => {
            reveal_strlit("] line ");
            lemma_bracket_prefix(parse_error_code(e), "] line "@);
            lemma_prefix_grows(p, "["@ + parse_error_code(e) + "] line "@, dec_chars(line as nat));
            lemma_prefix_grows(p, "["@ + parse_error_code(e) + "] line "@ + dec_chars(line as nat), ": expected "@);
            lemma_prefix_grows(p, "["@ + parse_error_code(e) + "] line "@ + dec_chars(line as nat) + ": expected "@, expected@);
            lemma_prefix_grows(p, "["@ + parse_error_code(e) + "] line "@ + dec_chars(line as nat) + ": expected "@ + expected@, ", found "@);
            lemma_prefix_grows(p, "["@ + parse_error_code(e) + "] line "@ + dec_chars(line as nat) + ": expected "@ + expected@ + ", found "@, found@);
        },
        ParseError::UnknownDirective { line, name } => {
            reveal_strlit("] line ");
            lemma_bracket_prefix(parse_error_code(e), "] line "@);
            lemma_prefix_grows(p, "["@ + parse_error_code(e) + "] line "@, dec_chars(line as nat));
            lemma_prefix_grows(p, "["@ + parse_error_code(e) + "] line "@ + dec_chars(line as nat), ": unknown directive `::ASTRONOMY::"@);
            lemma_prefix_grows(p, "["@ + parse_error_code(e) + "] line "@ + dec_chars(line as nat) + ": unknown directive `::ASTRONOMY::"@, name@);
            lemma_prefix_grows(p, "["@ + parse_error_code(e) + "] line "@ + dec_chars(line as nat) + ": unknown directive `::ASTRONOMY::"@ + name@, "`"@);
        },
        ParseError::DuplicateFunction { line, name } => {
            reveal_strlit("] line ");
            lemma_bracket_prefix(parse_error_code(e), "] line "@);
            lemma_prefix_grows(p, "["@ + parse_error_code(e) + "] line "@, dec_chars(line as nat));
            lemma_prefix_grows(p, "["@ + parse_error_code(e) + "] line "@ + dec_chars(line as nat), ": function `"@);
            lemma_prefix_grows(p, "["@ + parse_error_code(e) + "] line "@ + dec_chars(line as nat) + ": function `"@, name@);
            lemma_prefix_grows(p, "["@ + parse_error_code(e) + "] line "@ + dec_chars(line as nat) + ": function `"@ + name@, "` declared twice"@);
        },
        ParseError::DuplicateValue { line, name } => {
            reveal_strlit("] line ");
            lemma_bracket_prefix(parse_error_code(e), "] line "@);
            lemma_prefix_grows(p, "["@ + parse_error_code(e) + "] line "@, dec_chars(line as nat));
            lemma_prefix_grows(p, "["@ + parse_error_code(e) + "] line "@ + dec_chars(line as nat), ": value `%"@);
            lemma_prefix_grows(p, "["@ + parse_error_code(e) + "] line "@ + dec_chars(line as nat) + ": value `%"@, name@);
            lemma_prefix_grows(p, "["@ + parse_error_code(e) + "] line "@ + dec_chars(line as nat) + ": value `%"@ + name@, "` defined twice"@);
        },
        ParseError::DuplicateBlock { line, label } => {
            reveal_strlit("] line ");
            lemma_bracket_prefix(parse_error_code(e), "] line "@);
            lemma_prefix_grows(p, "["@ + parse_error_code(e) + "] line "@, dec_chars(line as nat));
            lemma_prefix_grows(p, "["@ + parse_error_code(e) + "] line "@ + dec_chars(line as nat), ": block `"@);
            lemma_prefix_grows(p, "["@ + parse_error_code(e) + "] line "@ + dec_chars(line as nat) + ": block `"@, label@);
            lemma_prefix_grows(p, "["@ + parse_error_code(e) + "] line "@ + dec_chars(line as nat) + ": block `"@ + label@, "` defined twice"@);
        },
        ParseError::UndefinedValue { line, name } => {
            reveal_strlit("] line ");
            lemma_bracket_prefix(parse_error_code(e), "] line "@);
            lemma_prefix_grows(p, "["@ + parse_error_code(e) + "] line "@, dec_chars(line as nat));
            lemma_prefix_grows(p, "["@ + parse_error_code(e) + "] line "@ + dec_chars(line as nat), ": use of undefined value `%"@);
            lemma_prefix_grows(p, "["@ + parse_error_code(e) + "] line "@ + dec_chars(line as nat) + ": use of undefined value `%"@, name@);
            lemma_prefix_grows(p, "["@ + parse_error_code(e) + "] line "@ + dec_chars(line as nat) + ": use of undefined value `%"@ + name@, "`"@);
        },
        ParseError::UndefinedBlock { line, label } => {
            reveal_strlit("] line ");
            lemma_bracket_prefix(parse_error_code(e), "] line "@);
            lemma_prefix_grows(p, "["@ + parse_error_code(e) + "] line "@, dec_chars(line as nat));
            lemma_prefix_grows(p, "["@ + parse_error_code(e) + "] line "@ + dec_chars(line as nat), ": use of undefined block `"@);
            lemma_prefix_grows(p, "["@ + parse_error_code(e) + "] line "@ + dec_chars(line as nat) + ": use of undefined block `"@, label@);
            lemma_prefix_grows(p, "["@ + parse_error_code(e) + "] line "@ + dec_chars(line as nat) + ": use of undefined block `"@ + label@, "`"@);
        },
        ParseError::UndefinedConstant { line, name } => {
            reveal_strlit("] line ");
            lemma_bracket_prefix(parse_error_code(e), "] line "@);
            lemma_prefix_grows(p, "["@ + parse_error_code(e) + "] line "@, dec_chars(line as nat));
            lemma_prefix_grows(p, "["@ + parse_error_code(e) + "] line "@ + dec_chars(line as nat), ": use of undefined constant `"@);
            lemma_prefix_grows(p, "["@ + parse_error_code(e) + "] line "@ + dec_chars(line as nat) + ": use of undefined constant `"@, name@);
            lemma_prefix_grows(p, "["@ + parse_error_code(e) + "] line "@ + dec_chars(line as nat) + ": use of undefined constant `"@ + name@, "`"@);
        },
        ParseError::InvalidType { line, reason } => {
            reveal_strlit("] line ");
            lemma_bracket_prefix(parse_error_code(e), "] line "@);
            lemma_prefix_grows(p, "["@ + parse_error_code(e) + "] line "@, dec_chars(line as nat));
            lemma_prefix_grows(p, "["@ + parse_error_code(e) + "] line "@ + dec_chars(line as nat), ": invalid type: "@);
            lemma_prefix_grows(p, "["@ + parse_error_code(e) + "] line "@ + dec_chars(line as nat) + ": invalid type: "@, reason@);
        },
        ParseError::InvalidNumber { line, reason } => {
            reveal_strlit("] line ");
            lemma_bracket_prefix(parse_error_code(e), "] line "@);
            lemma_prefix_grows(p, "["@ + parse_error_code(e) + "] line "@, dec_chars(line as nat));
            lemma_prefix_grows(p, "["@ + parse_error_code(e) + "] line "@ + dec_chars(line as nat), ": invalid number: "@);
            lemma_prefix_grows(p, "["@ + parse_error_code(e) + "] line "@ + dec_chars(line as nat) + ": invalid number: "@, reason@);
        },
        ParseError::OperandTypeMismatch { line, annotated, actual } => {
            reveal_strlit("] line ");
            lemma_bracket_prefix(parse_error_code(e), "] line "@);
            lemma_prefix_grows(p, "["@ + parse_error_code(e) + "] line "@, dec_chars(line as nat));
            lemma_prefix_grows(p, "["@ + parse_error_code(e) + "] line "@ + dec_chars(line as nat), ": operand annotated as `"@);
            lemma_prefix_grows(p, "["@ + parse_error_code(e) + "] line "@ + dec_chars(line as nat) + ": operand annotated as `"@, annotated@);
            lemma_prefix_grows(p, "["@ + parse_error_code(e) + "] line "@ + dec_chars(line as nat) + ": operand annotated as `"@ + annotated@, "` but value has type `"@);
            lemma_prefix_grows(p, "["@ + parse_error_code(e) + "] line "@ + dec_chars(line as nat) + ": operand annotated as `"@ + annotated@ + "` but value has type `"@, actual@);
            lemma_prefix_grows(p, "["@ + parse_error_code(e) + "] line "@ + dec_chars(line as nat) + ": operand annotated as `"@ + annotated@ + "` but value has type `"@ + actual@, "`"@);
        },
        ParseError::InvalidString { line, reason } => {
            reveal_strlit("] line ");
            lemma_bracket_prefix(parse_error_code(e), "] line "@);
            lemma_prefix_grows(p, "["@ + parse_error_code(e) + "] line "@, dec_chars(line as nat));
            lemma_prefix_grows(p, "["@ + parse_error_code(e) + "] line "@ + dec_chars(line as nat), ": invalid string literal: "@);
            lemma_prefix_grows(p, "["@ + parse_error_code(e) + "] line "@ + dec_chars(line as nat) + ": invalid string literal: "@, reason@);
        },
        ParseError::MisplacedDirective { line, name, reason } => {
            reveal_strlit("] line ");
            lemma_bracket_prefix(parse_error_code(e), "] line "@);
            lemma_prefix_grows(p, "["@ + parse_error_code(e) + "] line "@, dec_chars(line as nat));
            lemma_prefix_grows(p, "["@ + parse_error_code(e) + "] line "@ + dec_chars(line as nat), ": directive `::ASTRONOMY::"@);
            lemma_prefix_grows(p, "["@ + parse_error_code(e) + "] line "@ + dec_chars(line as nat) + ": directive `::ASTRONOMY::"@, name@);
            lemma_prefix_grows(p, "["@ + parse_error_code(e) + "] line "@ + dec_chars(line as nat) + ": directive `::ASTRONOMY::"@ + name@, "` misplaced: "@);
            lemma_prefix_grows(p, "["@ + parse_error_code(e) + "] line "@ + dec_chars(line as nat) + ": directive `::ASTRONOMY::"@ + name@ + "` misplaced: "@, reason@);
        },
        ParseError::MissingDirective { expected } => {
            reveal_strlit("] missing `");
            lemma_bracket_prefix(parse_error_code(e), "] missing `"@);
            lemma_prefix_grows(p, "["@ + parse_error_code(e) + "] missing `"@, expected@);
            lemma_prefix_grows(p, "["@ + parse_error_code(e) + "] missing `"@ + expected@, "`"@);
        },
        ParseError::InvalidStructure { line, reason } => {
            reveal_strlit("] line ");
            lemma_bracket_prefix(parse_error_code(e), "] line "@);
            lemma_prefix_grows(p, "["@ + parse_error_code(e) + "] line "@, dec_chars(line as nat));
            lemma_prefix_grows(p, "["@ + parse_error_code(e) + "] line "@ + dec_chars(line as nat), ": "@);
            lemma_prefix_grows(p, "["@ + parse_error_code(e) + "] line "@ + dec_chars(line as nat) + ": "@, reason@);
        },
        ParseError::UnexpectedEof { expected } => {
            reveal_strlit("] unexpected end of input, expected ");
            lemma_bracket_prefix(parse_error_code(e), "] unexpected end of input, expected "@);
            lemma_prefix_grows(p, "["@ + parse_error_code(e) + "] unexpected end of input, expected "@, expected@);
        },
        ParseError::InstructionAfterTerminator { line } => {
            reveal_strlit("] line ");
            lemma_bracket_prefix(parse_error_code(e), "] line "@);
            lemma_prefix_grows(p, "["@ + parse_error_code(e) + "] line "@, dec_chars(line as nat));
            lemma_prefix_grows(p, "["@ + parse_error_code(e) + "] line "@ + dec_chars(line as nat), ": instruction after terminator"@);
        },
        ParseError::ReservedName { line, name, reason } => {
            reveal_strlit("] line ");
            lemma_bracket_prefix(parse_error_code(e), "] line "@);
            lemma_prefix_grows(p, "["@ + parse_error_code(e) + "] line "@, dec_chars(line as nat));
            lemma_prefix_grows(p, "["@ + parse_error_code(e) + "] line "@ + dec_chars(line as nat), ": reserved name `"@);
            lemma_prefix_grows(p, "["@ + parse_error_code(e) + "] line "@ + dec_chars(line as nat) + ": reserved name `"@, name@);
            lemma_prefix_grows(p, "["@ + parse_error_code(e) + "] line "@ + dec_chars(line as nat) + ": reserved name `"@ + name@, "`: "@);
            lemma_prefix_grows(p, "["@ + parse_error_code(e) + "] line "@ + dec_chars(line as nat) + ": reserved name `"@ + name@ + "`: "@, reason@);
        },
        ParseError::UndefinedFunction { line, name } => {
            reveal_strlit("] line ");
            lemma_bracket_prefix(parse_error_code(e), "] line "@);
            lemma_prefix_grows(p, "["@ + parse_error_code(e) + "] line "@, dec_chars(line as nat));
            lemma_prefix_grows(p, "["@ + parse_error_code(e) + "] line "@ + dec_chars(line as nat), ": call to undefined function `"@);
            lemma_prefix_grows(p, "["@ + parse_error_code(e) + "] line "@ + dec_chars(line as nat) + ": call to undefined function `"@, name@);
            lemma_prefix_grows(p, "["@ + parse_error_code(e) + "] line "@ + dec_chars(line as nat) + ": call to undefined function `"@ + name@, "`"@);
        },
        ParseError::InvalidInstruction { line, reason } => {
            reveal_strlit("] line ");
            lemma_bracket_prefix(parse_error_code(e), "] line "@);
            lemma_prefix_grows(p, "["@ + parse_error_code(e) + "] line "@, dec_chars(line as nat));
            lemma_prefix_grows(p, "["@ + parse_error_code(e) + "] line "@ + dec_chars(line as nat), ": "@);
            lemma_prefix_grows(p, "["@ + parse_error_code(e) + "] line "@ + dec_chars(line as nat) + ": "@, reason@);
        },
    }
}

/// Every message of a `BuildError` starts with its code in square brackets.
pub proof fn law_build_message_starts_with_code(e: BuildError)
    ensures
        ("["@ + build_error_code(e) + "]"@).is_prefix_of(build_error_message(e)),
{
    let p = "["@ + build_error_code(e) + "]"@;
    match e {
        BuildError::UnknownValue { value, context } => {
            reveal_strlit("] unknown value ");
            lemma_bracket_prefix(build_error_code(e), "] unknown value "@);
            lemma_prefix_grows(p, "["@ + build_error_code(e) + "] unknown value "@, "v"@);
            lemma_prefix_grows(p, "["@ + build_error_code(e) + "] unknown value "@ + "v"@, dec_chars(value.0 as nat));
            lemma_prefix_grows(p, "["@ + build_error_code(e) + "] unknown value "@ + "v"@ + dec_chars(value.0 as nat), " in "@);
            lemma_prefix_grows(p, "["@ + build_error_code(e) + "] unknown value "@ + "v"@ + dec_chars(value.0 as nat) + " in "@, context@);
        },
        BuildError::UnknownBlock { block } => {
            reveal_strlit("] unknown block ");
            lemma_bracket_prefix(build_error_code(e), "] unknown block "@);
            lemma_prefix_grows(p, "["@ + build_error_code(e) + "] unknown block "@, "bb"@);
            lemma_prefix_grows(p, "["@ + build_error_code(e) + "] unknown block "@ + "bb"@, dec_chars(block.0 as nat));
        },
        BuildError::UnknownFunction { function } => {
            reveal_strlit("] unknown function ");
            lemma_bracket_prefix(build_error_code(e), "] unknown function "@);
            lemma_prefix_grows(p, "["@ + build_error_code(e) + "] unknown function "@, "f"@);
            lemma_prefix_grows(p, "["@ + build_error_code(e) + "] unknown function "@ + "f"@, dec_chars(function.0 as nat));
        },
        BuildError::UnknownType { ty } => {
            reveal_strlit("] unknown type TypeId(");
            lemma_bracket_prefix(build_error_code(e), "] unknown type TypeId("@);
            lemma_prefix_grows(p, "["@ + build_error_code(e) + "] unknown type TypeId("@, dec_chars(ty.0 as nat));
            lemma_prefix_grows(p, "["@ + build_error_code(e) + "] unknown type TypeId("@ + dec_chars(ty.0 as nat), ")"@);
        },
        BuildError::TypeMismatch { context, expected, found } => {
            reveal_strlit("] type mismatch in ");
            lemma_bracket_prefix(build_error_code(e), "] type mismatch in "@);
            lemma_prefix_grows(p, "["@ + build_error_code(e) + "] type mismatch in "@, context@);
            lemma_prefix_grows(p, "["@ + build_error_code(e) + "] type mismatch in "@ + context@, ": expected `"@);
            lemma_prefix_grows(p, "["@ + build_error_code(e) + "] type mismatch in "@ + context@ + ": expected `"@, expected@);
            lemma_prefix_grows(p, "["@ + build_error_code(e) + "] type mismatch in "@ + context@ + ": expected `"@ + expected@, "`, found `"@);
            lemma_prefix_grows(p, "["@ + build_error_code(e) + "] type mismatch in "@ + context@ + ": expected `"@ + expected@ + "`, found `"@, found@);
            lemma_prefix_grows(p, "["@ + build_error_code(e) + "] type mismatch in "@ + context@ + ": expected `"@ + expected@ + "`, found `"@ + found@, "`"@);
        },
        BuildError::InvalidOperand { context, reason } => {
            reveal_strlit("] invalid operand in ");
            lemma_bracket_prefix(build_error_code(e), "] invalid operand in "@);
            lemma_prefix_grows(p, "["@ + build_error_code(e) + "] invalid operand in "@, context@);
            lemma_prefix_grows(p, "["@ + build_error_code(e) + "] invalid operand in "@ + context@, ": "@);
            lemma_prefix_grows(p, "["@ + build_error_code(e) + "] invalid operand in "@ + context@ + ": "@, reason@);
        },
        BuildError::BlockTerminated { block } => {
            reveal_strlit("] block ");
            lemma_bracket_prefix(build_error_code(e), "] block "@);
            lemma_prefix_grows(p, "["@ + build_error_code(e) + "] block "@, "bb"@);
            lemma_prefix_grows(p, "["@ + build_error_code(e) + "] block "@ + "bb"@, dec_chars(block.0 as nat));
            lemma_prefix_grows(p, "["@ + build_error_code(e) + "] block "@ + "bb"@ + dec_chars(block.0 as nat), " already has a terminator"@);
        },
        BuildError::BlockNotEmpty { block, reason } => {
            reveal_strlit("] block ");
            lemma_bracket_prefix(build_error_code(e), "] block "@);
            lemma_prefix_grows(p, "["@ + build_error_code(e) + "] block "@, "bb"@);
            lemma_prefix_grows(p, "["@ + build_error_code(e) + "] block "@ + "bb"@, dec_chars(block.0 as nat));
            lemma_prefix_grows(p, "["@ + build_error_code(e) + "] block "@ + "bb"@ + dec_chars(block.0 as nat), " is not in the required state: "@);
            lemma_prefix_grows(p, "["@ + build_error_code(e) + "] block "@ + "bb"@ + dec_chars(block.0 as nat) + " is not in the required state: "@, reason@);
        },
        BuildError::InvalidName { name, reason } => {
            reveal_strlit("] invalid name `");
            lemma_bracket_prefix(build_error_code(e), "] invalid name `"@);
            lemma_prefix_grows(p, "["@ + build_error_code(e) + "] invalid name `"@, name@);
            lemma_prefix_grows(p, "["@ + build_error_code(e) + "] invalid name `"@ + name@, "`: "@);
            lemma_prefix_grows(p, "["@ + build_error_code(e) + "] invalid name `"@ + name@ + "`: "@, reason@);
        },
        BuildError::InvalidConstant { reason } => {
            reveal_strlit("] invalid constant: ");
            lemma_bracket_prefix(build_error_code(e), "] invalid constant: "@);
            lemma_prefix_grows(p, "["@ + build_error_code(e) + "] invalid constant: "@, reason@);
        },
        BuildError::VariadicDefinition { name } => {
            reveal_strlit("] function `");
            lemma_bracket_prefix(build_error_code(e), "] function `"@);
            lemma_prefix_grows(p, "["@ + build_error_code(e) + "] function `"@, name@);
            lemma_prefix_grows(p, "["@ + build_error_code(e) + "] function `"@ + name@, "` is variadic and cannot have a body"@);
        },
        BuildError::DuplicateFunctionName { name } => {
            reveal_strlit("] function `");
            lemma_bracket_prefix(build_error_code(e), "] function `"@);
            lemma_prefix_grows(p, "["@ + build_error_code(e) + "] function `"@, name@);
            lemma_prefix_grows(p, "["@ + build_error_code(e) + "] function `"@ + name@, "` is already declared"@);
        },
        BuildError::NoCurrentBlock { action } => {
            reveal_strlit("] cannot ");
            lemma_bracket_prefix(build_error_code(e), "] cannot "@);
            lemma_prefix_grows(p, "["@ + build_error_code(e) + "] cannot "@, action@);
            lemma_prefix_grows(p, "["@ + build_error_code(e) + "] cannot "@ + action@, ": no current block (call append_block first)"@);
        },
        BuildError::InvalidSignature { reason } => {
            reveal_strlit("] invalid signature: ");
            lemma_bracket_prefix(build_error_code(e), "] invalid signature: "@);
            lemma_prefix_grows(p, "["@ + build_error_code(e) + "] invalid signature: "@, reason@);
        },
    }
}

/// The code of every `VerifyError` starts with `A-VERIFY-`.
pub proof fn law_verify_code_prefix(e: VerifyError)
    ensures
        "A-VERIFY-"@.is_prefix_of(verify_error_code(e)),
{
    reveal_strlit("A-VERIFY-");
    reveal_strlit("A-VERIFY-001");
    reveal_strlit("A-VERIFY-002");
    reveal_strlit("A-VERIFY-003");
    reveal_strlit("A-VERIFY-004");
    reveal_strlit("A-VERIFY-005");
    reveal_strlit("A-VERIFY-010");
    reveal_strlit("A-VERIFY-011");
    reveal_strlit("A-VERIFY-012");
    reveal_strlit("A-VERIFY-013");
    reveal_strlit("A-VERIFY-020");
    reveal_strlit("A-VERIFY-021");
    reveal_strlit("A-VERIFY-022");
    reveal_strlit("A-VERIFY-023");
    reveal_strlit("A-VERIFY-030");
    reveal_strlit("A-VERIFY-031");
    reveal_strlit("A-VERIFY-040");
    reveal_strlit("A-VERIFY-041");
    reveal_strlit("A-VERIFY-050");
    reveal_strlit("A-VERIFY-051");
    reveal_strlit("A-VERIFY-052");
    reveal_strlit("A-VERIFY-060");
    reveal_strlit("A-VERIFY-070");
    reveal_strlit("A-VERIFY-071");
    reveal_strlit("A-VERIFY-072");
    reveal_strlit("A-VERIFY-073");
    assert("A-VERIFY-"@ =~= verify_error_code(e).subrange(0, "A-VERIFY-"@.len() as int));
}

/// The code of every `ParseError` starts with `A-ARN-`.
pub proof fn law_parse_code_prefix(e: ParseError)
    ensures
        "A-ARN-"@.is_prefix_of(parse_error_code(e)),
{
    reveal_strlit("A-ARN-");
    reveal_strlit("A-ARN-001");
    reveal_strlit("A-ARN-002");
    reveal_strlit("A-ARN-003");
    reveal_strlit("A-ARN-004");
    reveal_strlit("A-ARN-005");
    reveal_strlit("A-ARN-006");
    reveal_strlit("A-ARN-007");
    reveal_strlit("A-ARN-008");
    reveal_strlit("A-ARN-009");
    reveal_strlit("A-ARN-010");
    reveal_strlit("A-ARN-011");
    reveal_strlit("A-ARN-012");
    reveal_strlit("A-ARN-013");
    reveal_strlit("A-ARN-014");
    reveal_strlit("A-ARN-015");
    reveal_strlit("A-ARN-016");
    reveal_strlit("A-ARN-017");
    reveal_strlit("A-ARN-018");
    reveal_strlit("A-ARN-019");
    reveal_strlit("A-ARN-020");
    reveal_strlit("A-ARN-021");
    assert("A-ARN-"@ =~= parse_error_code(e).subrange(0, "A-ARN-"@.len() as int));
}

/// The code of every `BuildError` starts with `A-BUILD-`.
pub proof fn law_build_code_prefix(e: BuildError)
    ensures
        "A-BUILD-"@.is_prefix_of(build_error_code(e)),
{
    reveal_strlit("A-BUILD-");
    reveal_strlit("A-BUILD-001");
    reveal_strlit("A-BUILD-002");
    reveal_strlit("A-BUILD-003");
    reveal_strlit("A-BUILD-004");
    reveal_strlit("A-BUILD-010");
    reveal_strlit("A-BUILD-011");
    reveal_strlit("A-BUILD-012");
    reveal_strlit("A-BUILD-013");
    reveal_strlit("A-BUILD-014");
    reveal_strlit("A-BUILD-015");
    reveal_strlit("A-BUILD-016");
    reveal_strlit("A-BUILD-017");
    reveal_strlit("A-BUILD-018");
    reveal_strlit("A-BUILD-019");
    assert("A-BUILD-"@ =~= build_error_code(e).subrange(0, "A-BUILD-"@.len() as int));
}

} // verus!
