//! The instruction-class model of the trace engine.
//!
//! The engine never looks at a whole decoded instruction: each mapped
//! position of the instruction stream is reduced to one of a fixed set of
//! instruction classes, with the few operand fields the address
//! transitions need, as plain values. The reduction — four little-endian
//! bytes through an AArch64 decoder, then classification — is the decoder
//! adapter's job and happens outside this library; what arrives here is
//! the [`DecodedImage`] table, one entry per mapped byte address.

use vstd::prelude::*;

verus! {

/// The instruction classes a navigation step can name.
#[derive(Clone, Copy, Debug, PartialEq, Eq, Structural)]
pub enum InsClass {
    /// An unconditional PC-relative branch.
    Branch,
    /// An unconditional PC-relative branch-with-link.
    Call,
    /// The page-base-forming instruction that opens the two-instruction
    /// address-formation idiom.
    AddressLoad,
}

/// What the step-matching loop sees at one position of the stream.
///
/// A `None` payload records a matched opcode whose operand layout was not
/// the expected one: such an instruction still counts as an occurrence of
/// its class, but taking a transition on it is an operand-shape failure.
#[derive(Clone, Copy, Debug)]
pub enum StepIns {
    /// Branch-with-link; payload is the absolute destination.
    Call(Option<u64>),
    /// Unconditional branch; payload is the absolute destination.
    Branch(Option<u64>),
    /// Page-base formation; payload is the destination register number and
    /// the absolute page base.
    Page(Option<(u32, u64)>),
    /// An undefined encoding.
    Undefined,
    /// Anything else; never counted, always skipped.
    Other,
}

/// What the address-formation scan sees at one position of the stream.
#[derive(Clone, Copy, Debug)]
pub enum ScanIns {
    /// A memory load through a base register with a signed immediate
    /// offset: register number and byte offset.
    Load(u32, i64),
    /// An add of an unsigned immediate to a register: source register
    /// number and immediate.
    Add(u32, u64),
    /// An undefined encoding.
    Undefined,
    /// Anything else; skipped by the scan.
    Other,
}

/// One mapped position of the stream, classified under both of the
/// engine's views: as the step-matching loop sees it and as the
/// address-formation scan sees it.
#[derive(Clone, Copy, Debug)]
pub struct DecodedIns {
    pub step: StepIns,
    pub scan: ScanIns,
}

/// The binary image as the trace engine sees it: for every byte address
/// whose whole four-byte instruction word lies inside the mapped range,
/// the classification of that word. Entry `a` describes the word at byte
/// address `a`, so the table has three fewer entries than the image has
/// mapped bytes.
pub struct DecodedImage {
    pub ins: Vec<DecodedIns>,
}

impl DecodedImage {
    /// The table fits the address space: advancing the cursor by one
    /// instruction width never wraps around.
    pub open spec fn wf(self) -> bool {
        self.ins@.len() + 4 <= u64::MAX
    }
}

} // verus!
