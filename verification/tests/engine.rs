use xref_trace::errors::XrefError;
use xref_trace::ins::{DecodedImage, DecodedIns, InsClass, ScanIns, StepIns};
use xref_trace::trace::{trace, Step};

/// Build a decoded image from word classifications: word k sits at byte
/// address 4*k; byte addresses between words are unclassifiable filler.
fn image_from_words(words: &[(StepIns, ScanIns)]) -> DecodedImage {
    let filler = DecodedIns {
        step: StepIns::Other,
        scan: ScanIns::Other,
    };
    let mut ins = Vec::new();
    if words.is_empty() {
        return DecodedImage { ins };
    }
    let len = 4 * words.len() - 3;
    for a in 0..len {
        if a % 4 == 0 {
            let (step, scan) = words[a / 4];
            ins.push(DecodedIns { step, scan });
        } else {
            ins.push(filler);
        }
    }
    DecodedImage { ins }
}

fn other() -> (StepIns, ScanIns) {
    (StepIns::Other, ScanIns::Other)
}

fn call(target: u64) -> (StepIns, ScanIns) {
    (StepIns::Call(Some(target)), ScanIns::Other)
}

fn branch(target: u64) -> (StepIns, ScanIns) {
    (StepIns::Branch(Some(target)), ScanIns::Other)
}

fn adrp(reg: u32, page: u64) -> (StepIns, ScanIns) {
    (StepIns::Page(Some((reg, page))), ScanIns::Other)
}

fn ldr(base: u32, offset: i64) -> (StepIns, ScanIns) {
    (StepIns::Other, ScanIns::Load(base, offset))
}

fn add(base: u32, imm: u64) -> (StepIns, ScanIns) {
    (StepIns::Other, ScanIns::Add(base, imm))
}

fn step(class: InsClass, occurrence: usize) -> Step {
    Step { class, occurrence }
}

#[test]
fn empty_program_resolves_to_start() {
    let img = image_from_words(&[other(), other()]);
    assert_eq!(trace(&img, 4, &vec![]), Ok(4));
    assert_eq!(trace(&img, 0xdead_beef, &vec![]), Ok(0xdead_beef));
}

#[test]
fn trace_is_deterministic() {
    let img = image_from_words(&[call(0x100), other(), call(0x200)]);
    let program = vec![step(InsClass::Call, 1)];
    let first = trace(&img, 0, &program);
    let second = trace(&img, 0, &program);
    assert_eq!(first, second);
    assert_eq!(first, Ok(0x200));
}

#[test]
fn occurrences_are_zero_indexed() {
    // Three calls at increasing addresses 0 < 4 < 8.
    let img = image_from_words(&[call(0x100), call(0x200), call(0x300)]);
    assert_eq!(trace(&img, 0, &vec![step(InsClass::Call, 0)]), Ok(0x100));
    assert_eq!(trace(&img, 0, &vec![step(InsClass::Call, 2)]), Ok(0x300));
    // A fourth occurrence does not exist: the walk runs off mapped bytes.
    assert_eq!(
        trace(&img, 0, &vec![step(InsClass::Call, 3)]),
        Err(XrefError::DecodeError)
    );
}

#[test]
fn address_load_load_form() {
    // ADRP X0, page at address 0, immediately followed by LDR X0, [X0, #0x20].
    let page = 0x4_2000;
    let img = image_from_words(&[adrp(0, page), ldr(0, 0x20)]);
    assert_eq!(
        trace(&img, 0, &vec![step(InsClass::AddressLoad, 0)]),
        Ok(page + 0x20)
    );
}

#[test]
fn address_load_add_form_skips_intervening() {
    // ADRP X1, page; one unrelated instruction not touching X1; ADD X1, X1, #0x10.
    let page = 0x9_0000;
    let img = image_from_words(&[adrp(1, page), other(), add(1, 0x10)]);
    assert_eq!(
        trace(&img, 0, &vec![step(InsClass::AddressLoad, 0)]),
        Ok(page + 0x10)
    );
}

#[test]
fn address_load_ignores_other_registers() {
    // The scan passes over loads and adds through a different register.
    let page = 0x7_0000;
    let img = image_from_words(&[adrp(2, page), ldr(3, 0x8), add(4, 0x18), add(2, 0x28)]);
    assert_eq!(
        trace(&img, 0, &vec![step(InsClass::AddressLoad, 0)]),
        Ok(page + 0x28)
    );
}

#[test]
fn address_load_negative_offset() {
    let page = 0x1_0000;
    let img = image_from_words(&[adrp(0, page), ldr(0, -0x10)]);
    assert_eq!(
        trace(&img, 0, &vec![step(InsClass::AddressLoad, 0)]),
        Ok(page - 0x10)
    );
}

#[test]
fn branch_and_call_follow_targets() {
    // A branch at 0 jumps to 8; the call there leads to 0x500.
    let img = image_from_words(&[branch(8), call(0x999), call(0x500)]);
    let program = vec![step(InsClass::Branch, 0), step(InsClass::Call, 0)];
    assert_eq!(trace(&img, 0, &program), Ok(0x500));
}

#[test]
fn counts_restart_each_step() {
    // Occurrences are counted from each step's own scan start, not
    // cumulatively: after following the branch at 0 to address 8, the
    // call there is that step's occurrence 0.
    let img = image_from_words(&[branch(8), call(0x111), call(0x222)]);
    let program = vec![step(InsClass::Branch, 0), step(InsClass::Call, 0)];
    assert_eq!(trace(&img, 0, &program), Ok(0x222));
}

#[test]
fn undefined_encoding_is_decode_error() {
    let img = image_from_words(&[
        (StepIns::Undefined, ScanIns::Undefined),
        call(0x100),
    ]);
    assert_eq!(
        trace(&img, 0, &vec![step(InsClass::Call, 0)]),
        Err(XrefError::DecodeError)
    );
}

#[test]
fn bad_operand_shape_is_hard_error() {
    // The matched target occurrence carries an unexpected operand layout.
    let img = image_from_words(&[(StepIns::Call(None), ScanIns::Other), call(0x100)]);
    assert_eq!(
        trace(&img, 0, &vec![step(InsClass::Call, 0)]),
        Err(XrefError::OperandShapeError)
    );
}

#[test]
fn bad_shape_still_counts_as_occurrence() {
    // A malformed call still consumes occurrence 0; occurrence 1 is the
    // well-formed one behind it.
    let img = image_from_words(&[(StepIns::Call(None), ScanIns::Other), call(0x100)]);
    assert_eq!(trace(&img, 0, &vec![step(InsClass::Call, 1)]), Ok(0x100));
}

#[test]
fn start_outside_mapped_bytes_fails() {
    let img = image_from_words(&[call(0x100)]);
    assert_eq!(
        trace(&img, 0x4000, &vec![step(InsClass::Call, 0)]),
        Err(XrefError::DecodeError)
    );
}

#[test]
fn classes_do_not_cross_count() {
    // Branches are not calls: a Call step passes over them.
    let img = image_from_words(&[branch(0x40), call(0x80)]);
    assert_eq!(trace(&img, 0, &vec![step(InsClass::Call, 0)]), Ok(0x80));
    assert_eq!(trace(&img, 0, &vec![step(InsClass::Branch, 0)]), Ok(0x40));
}
