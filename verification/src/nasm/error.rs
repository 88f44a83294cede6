//! Structured diagnostics for the NASM backend.
//!
//! Every failure carries a stable code so callers can match on the variant.

use vstd::prelude::*;
use vstd::utf8::*;

use crate::textbuf::{concat_chars, concat_strs, lemma_concat_chars};

verus! {

/// A failure while lowering a verified module to NASM assembly.
#[allow(missing_docs)]
#[derive(Debug, Clone, PartialEq, Eq)]
pub enum BackendError {
    /// A type used by a value, parameter, result or pointee is not
    /// representable by this backend (`A-NASM-001`).
    UnsupportedType {
        /// Where the type was encountered.
        context: String,
        /// Canonical `.arn` spelling of the type.
        ty: String,
        /// Human-readable reason.
        reason: String,
    },
    /// An instruction or terminator cannot be lowered (`A-NASM-002`).
    UnsupportedInstruction {
        /// Function being lowered.
        function: String,
        /// The operation name.
        op: &'static str,
        /// Human-readable reason.
        reason: String,
    },
    /// A function's ABI cannot be implemented (`A-NASM-003`).
    UnsupportedAbi {
        /// Function being lowered.
        function: String,
        /// Canonical ABI keyword.
        abi: String,
    },
    /// The verified module is internally inconsistent in a way the backend
    /// requires (`A-NASM-004`).
    InvalidModule {
        /// Human-readable reason.
        reason: String,
    },
}

/// The stable code of each kind of backend error.
pub open spec fn backend_code(e: BackendError) -> Seq<char> {
    match e {
        BackendError::UnsupportedType { .. } => "A-NASM-001"@,
        BackendError::UnsupportedInstruction { .. } => "A-NASM-002"@,
        BackendError::UnsupportedAbi { .. } => "A-NASM-003"@,
        BackendError::InvalidModule { .. } => "A-NASM-004"@,
    }
}

impl BackendError {
    /// Stable error code (e.g. `A-NASM-001`).
    pub fn code(&self) -> (r: &'static str)
        ensures
            r@ == backend_code(*self),
    {
        match self {
            BackendError::UnsupportedType { .. } => "A-NASM-001",
            BackendError::UnsupportedInstruction { .. } => "A-NASM-002",
            BackendError::UnsupportedAbi { .. } => "A-NASM-003",
            BackendError::InvalidModule { .. } => "A-NASM-004",
        }
    }

    /// The human-readable message: `[code] ...` with the variant's fields.
    pub fn message(&self) -> (r: String)
        ensures
            encode_utf8(r@) == match *self {
                BackendError::UnsupportedType { context, ty, reason } => encode_utf8(
                    "["@ + backend_code(*self) + "] unsupported type `"@ + ty@ + "` in "@ + context@ + ": "@
                        + reason@,
                ),
                BackendError::UnsupportedInstruction { function, op, reason } => encode_utf8(
                    "["@ + backend_code(*self) + "] function `"@ + function@ + "`: cannot lower `"@ + op@
                        + "`: "@ + reason@,
                ),
                BackendError::UnsupportedAbi { function, abi } => encode_utf8(
                    "["@ + backend_code(*self) + "] function `"@ + function@ + "`: unsupported ABI `"@
                        + abi@ + "`"@,
                ),
                BackendError::InvalidModule { reason } => encode_utf8(
                    "["@ + backend_code(*self) + "] invalid module: "@ + reason@,
                ),
            },
    {
        let code = self.code();
        match self {
            BackendError::UnsupportedType { context, ty, reason } => {
                let parts = [
                    "[",
                    code,
                    "] unsupported type `",
                    ty.as_str(),
                    "` in ",
                    context.as_str(),
                    ": ",
                    reason.as_str(),
                ];
                let r = concat_strs(&parts);
                proof {
                    lemma_concat_chars(parts@);
                    reveal_with_fuel(concat_chars, 9);
                }
                r
            },
            BackendError::UnsupportedInstruction { function, op, reason } => {
                let parts = [
                    "[",
                    code,
                    "] function `",
                    function.as_str(),
                    "`: cannot lower `",
                    *op,
                    "`: ",
                    reason.as_str(),
                ];
                let r = concat_strs(&parts);
                proof {
                    lemma_concat_chars(parts@);
                    reveal_with_fuel(concat_chars, 9);
                }
                r
            },
            BackendError::UnsupportedAbi { function, abi } => {
                let parts = [
                    "[",
                    code,
                    "] function `",
                    function.as_str(),
                    "`: unsupported ABI `",
                    abi.as_str(),
                    "`",
                ];
                let r = concat_strs(&parts);
                proof {
                    lemma_concat_chars(parts@);
                    reveal_with_fuel(concat_chars, 9);
                }
                r
            },
            BackendError::InvalidModule { reason } => {
                let parts = ["[", code, "] invalid module: ", reason.as_str()];
                let r = concat_strs(&parts);
                proof {
                    lemma_concat_chars(parts@);
                    reveal_with_fuel(concat_chars, 9);
                }
                r
            },
        }
    }
}

} // verus!
