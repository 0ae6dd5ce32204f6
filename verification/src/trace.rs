//! The trace engine: given a start address and a navigation program, walk
//! the instruction stream forward, count occurrences of the named
//! instruction classes, and perform class-specific address transitions
//! until the program is exhausted.
//!
//! The whole engine is pinned to the specification interpreter
//! [`spec_trace`], so a run is a pure function of the decoded image, the
//! start address and the program.

use vstd::prelude::*;

use crate::errors::XrefError;
use crate::ins::{DecodedImage, InsClass, ScanIns, StepIns};

verus! {

/// One step of a navigation program: skip `occurrence` matches of `class`
/// (0-indexed, counted from the start of this step's scan), then take the
/// class's address transition on the next match.
#[derive(Clone, Copy, Debug, PartialEq, Eq, Structural)]
pub struct Step {
    pub class: InsClass,
    pub occurrence: usize,
}

/// The fixed width of an AArch64 instruction, in bytes.
pub const INS_WIDTH: u64 = 4;

/// Whether an instruction counts as an occurrence of a step's class.
/// Operand shape plays no part here: a matched opcode with an unexpected
/// layout is still an occurrence.
pub open spec fn class_matches(ins: StepIns, class: InsClass) -> bool {
    match (ins, class) {
        (StepIns::Call(_), InsClass::Call) => true,
        (StepIns::Branch(_), InsClass::Branch) => true,
        (StepIns::Page(_), InsClass::AddressLoad) => true,
        _ => false,
    }
}

/// The address-formation scan that completes an AddressLoad step: from
/// `addr` forward in instruction-width increments, the first instruction
/// that loads through `reg` with a signed immediate offset, or adds an
/// unsigned immediate to `reg`, resolves to the page base combined with
/// that immediate (modulo 2^64); every other instruction is skipped,
/// uncounted. Running off the mapped bytes, or an undefined encoding, is
/// a decode failure.
pub open spec fn spec_scan(img: DecodedImage, addr: int, reg: u32, page: u64) -> Result<
    u64,
    XrefError,
>
    decreases img.ins@.len() + 4 - addr,
{
    if !(0 <= addr < img.ins@.len()) {
        Err(XrefError::DecodeError)
    } else {
        match img.ins@[addr].scan {
            ScanIns::Undefined => Err(XrefError::DecodeError),
            ScanIns::Load(base, off) => if base == reg {
                Ok(vstd::wrapping::u64_specs::wrapping_add_signed(page, off))
            } else {
                spec_scan(img, addr + 4, reg, page)
            },
            ScanIns::Add(base, imm) => if base == reg {
                Ok(vstd::wrapping::u64_specs::wrapping_add(page, imm))
            } else {
                spec_scan(img, addr + 4, reg, page)
            },
            ScanIns::Other => spec_scan(img, addr + 4, reg, page),
        }
    }
}

/// The address transition taken on the matched target occurrence. Branch
/// and Call jump to the instruction's absolute label destination; an
/// AddressLoad captures the page base and destination register and hands
/// them to the scan that begins at the following instruction. A matched
/// opcode with an unexpected operand layout is a hard failure.
pub open spec fn spec_transition(img: DecodedImage, addr: int, ins: StepIns) -> Result<
    u64,
    XrefError,
> {
    match ins {
        StepIns::Call(Some(t)) => Ok(t),
        StepIns::Branch(Some(t)) => Ok(t),
        StepIns::Page(Some((reg, page))) => spec_scan(img, addr + 4, reg, page),
        _ => Err(XrefError::OperandShapeError),
    }
}

/// One step's search: starting at `addr`, walk forward in
/// instruction-width increments; the `occ`-indexed occurrence of `class`
/// takes its transition; earlier occurrences and unrelated instructions
/// are passed over. Running off the mapped bytes before the target
/// occurrence, or an undefined encoding, is a decode failure.
pub open spec fn spec_find(img: DecodedImage, addr: int, class: InsClass, occ: nat) -> Result<
    u64,
    XrefError,
>
    decreases img.ins@.len() + 4 - addr,
{
    if !(0 <= addr < img.ins@.len()) {
        Err(XrefError::DecodeError)
    } else {
        let ins = img.ins@[addr].step;
        if ins is Undefined {
            Err(XrefError::DecodeError)
        } else if class_matches(ins, class) {
            if occ == 0 {
                spec_transition(img, addr, ins)
            } else {
                spec_find(img, addr + 4, class, (occ - 1) as nat)
            }
        } else {
            spec_find(img, addr + 4, class, occ)
        }
    }
}

/// The whole engine: each step in order moves the cursor by its
/// transition; an empty program resolves to the start address unchanged.
pub open spec fn spec_trace(img: DecodedImage, start: u64, program: Seq<Step>) -> Result<
    u64,
    XrefError,
>
    decreases program.len(),
{
    if program.len() == 0 {
        Ok(start)
    } else {
        match spec_find(img, start as int, program[0].class, program[0].occurrence as nat) {
            Ok(a) => spec_trace(img, a, program.drop_first()),
            Err(e) => Err(e),
        }
    }
}

/// Identical (start, program) against an identical image always yield the
/// same address or the same error.
pub proof fn lemma_trace_deterministic(
    img1: DecodedImage,
    img2: DecodedImage,
    start1: u64,
    start2: u64,
    program1: Seq<Step>,
    program2: Seq<Step>,
)
    requires
        img1 == img2,
        start1 == start2,
        program1 == program2,
    ensures
        spec_trace(img1, start1, program1) == spec_trace(img2, start2, program2),
{
}

/// A zero-step program resolves to the anchor's address unchanged.
pub proof fn lemma_empty_program_identity(img: DecodedImage, start: u64)
    ensures
        spec_trace(img, start, Seq::<Step>::empty()) == Ok::<u64, XrefError>(start),
{
}

/// Exec part of [`spec_scan`]: resolve an AddressLoad's destination.
fn scan_dest(img: &DecodedImage, start: u64, reg: u32, page: u64) -> (r: Result<u64, XrefError>)
    requires
        img.wf(),
    ensures
        r == spec_scan(*img, start as int, reg, page),
{
    let mut addr = start;
    loop
        invariant
            img.wf(),
            spec_scan(*img, start as int, reg, page) == spec_scan(*img, addr as int, reg, page),
        decreases img.ins@.len() + 4 - addr,
    {
        if addr >= img.ins.len() as u64 {
            return Err(XrefError::DecodeError);
        }
        match img.ins[addr as usize].scan {
            ScanIns::Undefined => return Err(XrefError::DecodeError),
            ScanIns::Load(base, off) => if base == reg {
                return Ok(page.wrapping_add_signed(off));
            },
            ScanIns::Add(base, imm) => if base == reg {
                return Ok(page.wrapping_add(imm));
            },
            ScanIns::Other => {},
        }
        addr = addr + INS_WIDTH;
    }
}

/// Exec part of [`class_matches`].
fn ins_matches(ins: StepIns, class: InsClass) -> (r: bool)
    ensures
        r == class_matches(ins, class),
{
    match (ins, class) {
        (StepIns::Call(_), InsClass::Call) => true,
        (StepIns::Branch(_), InsClass::Branch) => true,
        (StepIns::Page(_), InsClass::AddressLoad) => true,
        _ => false,
    }
}

/// Exec part of [`spec_find`]: run one step's search from `start`.
fn find_step(img: &DecodedImage, start: u64, class: InsClass, occurrence: usize) -> (r: Result<
    u64,
    XrefError,
>)
    requires
        img.wf(),
    ensures
        r == spec_find(*img, start as int, class, occurrence as nat),
{
    let mut addr = start;
    let mut remaining = occurrence;
    loop
        invariant
            img.wf(),
            spec_find(*img, start as int, class, occurrence as nat) == spec_find(
                *img,
                addr as int,
                class,
                remaining as nat,
            ),
        decreases img.ins@.len() + 4 - addr,
    {
        if addr >= img.ins.len() as u64 {
            return Err(XrefError::DecodeError);
        }
        let ins = img.ins[addr as usize].step;
        if matches!(ins, StepIns::Undefined) {
            return Err(XrefError::DecodeError);
        }
        if ins_matches(ins, class) {
            if remaining == 0 {
                match ins {
                    StepIns::Call(Some(t)) => return Ok(t),
                    StepIns::Branch(Some(t)) => return Ok(t),
                    StepIns::Page(Some((r, page))) => return scan_dest(
                        img,
                        addr + INS_WIDTH,
                        r,
                        page,
                    ),
                    _ => return Err(XrefError::OperandShapeError),
                }
            } else {
                remaining = remaining - 1;
            }
        }
        addr = addr + INS_WIDTH;
    }
}

/// Run a navigation program from a start address over the decoded image.
///
/// The result is exactly [`spec_trace`] of the inputs: the same inputs
/// always resolve to the same address or fail with the same error.
pub fn trace(img: &DecodedImage, start: u64, program: &Vec<Step>) -> (r: Result<u64, XrefError>)
    requires
        img.wf(),
    ensures
        r == spec_trace(*img, start, program@),
{
    let mut addr = start;
    let mut i: usize = 0;
    proof {
        assert(program@.skip(0) =~= program@);
    }
    while i < program.len()
        invariant
            img.wf(),
            i <= program@.len(),
            spec_trace(*img, start, program@) == spec_trace(*img, addr, program@.skip(i as int)),
        decreases program@.len() - i,
    {
        proof {
            assert(program@.skip(i as int)[0] == program@[i as int]);
            assert(program@.skip(i as int).drop_first() =~= program@.skip(i as int + 1));
        }
        let step = program[i];
        match find_step(img, addr, step.class, step.occurrence) {
            Ok(a) => {
                addr = a;
            },
            Err(e) => {
                return Err(e);
            },
        }
        i = i + 1;
    }
    proof {
        assert(program@.skip(i as int) =~= Seq::<Step>::empty());
    }
    Ok(addr)
}

} // verus!
