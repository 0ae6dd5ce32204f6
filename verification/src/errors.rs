//! The failure taxonomy. Every failure is scoped to the single request that
//! produced it; no kind ever aborts sibling requests.

use vstd::prelude::*;

verus! {

/// Why a single navigation request failed.
#[derive(Clone, Copy, Debug, PartialEq, Eq, Structural)]
pub enum XrefError {
    /// No code-registration module carries the name of the image that owns a
    /// requested method.
    ModuleNotFound,
    /// A row id (or invoker index) fell outside its table: the metadata and
    /// the binary do not belong together.
    TokenOutOfRange,
    /// A named-invoker anchor was given for a method without an invoker.
    MissingInvoker,
    /// An exported-symbol anchor named no exported definition.
    UnresolvedExport,
    /// A named-method or named-invoker anchor's triple never matched during
    /// metadata enumeration.
    UnresolvedAnchor,
    /// An address outside the mapped bytes, or an undefined encoding.
    DecodeError,
    /// A matched opcode carried an unexpected operand layout.
    OperandShapeError,
    /// Malformed navigation-program text.
    ProgramSyntaxError,
}

} // verus!
