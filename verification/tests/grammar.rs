use xref_trace::errors::XrefError;
use xref_trace::ins::InsClass;
use xref_trace::program::{parse_anchor, parse_program, Anchor};
use xref_trace::trace::Step;

#[test]
fn empty_text_is_empty_program() {
    assert_eq!(parse_program(""), Ok(vec![]));
}

#[test]
fn single_pairs_parse() {
    assert_eq!(
        parse_program("L0"),
        Ok(vec![Step { class: InsClass::Call, occurrence: 0 }])
    );
    assert_eq!(
        parse_program("B7"),
        Ok(vec![Step { class: InsClass::Branch, occurrence: 7 }])
    );
    assert_eq!(
        parse_program("P12"),
        Ok(vec![Step { class: InsClass::AddressLoad, occurrence: 12 }])
    );
}

#[test]
fn pairs_chain_in_order() {
    assert_eq!(
        parse_program("L2P0B10"),
        Ok(vec![
            Step { class: InsClass::Call, occurrence: 2 },
            Step { class: InsClass::AddressLoad, occurrence: 0 },
            Step { class: InsClass::Branch, occurrence: 10 },
        ])
    );
}

#[test]
fn unrecognized_letter_is_syntax_error() {
    assert_eq!(parse_program("X1"), Err(XrefError::ProgramSyntaxError));
    assert_eq!(parse_program("L1X2"), Err(XrefError::ProgramSyntaxError));
}

#[test]
fn letter_without_digits_is_syntax_error() {
    assert_eq!(parse_program("L"), Err(XrefError::ProgramSyntaxError));
    assert_eq!(parse_program("L1B"), Err(XrefError::ProgramSyntaxError));
}

#[test]
fn stray_text_is_syntax_error() {
    assert_eq!(parse_program("12"), Err(XrefError::ProgramSyntaxError));
    assert_eq!(parse_program("l1"), Err(XrefError::ProgramSyntaxError));
    assert_eq!(parse_program("L1 B2"), Err(XrefError::ProgramSyntaxError));
}

#[test]
fn oversized_occurrence_is_syntax_error() {
    // Far beyond any machine's occurrence counter.
    assert_eq!(
        parse_program("L123456789012345678901234567890"),
        Err(XrefError::ProgramSyntaxError)
    );
}

#[test]
fn method_anchor_parses() {
    match parse_anchor("il2cpp:Foo:Bar:Baz") {
        Anchor::NamedMethod(t) => {
            assert_eq!(t.namespace, "Foo");
            assert_eq!(t.class, "Bar");
            assert_eq!(t.method, "Baz");
        }
        other => panic!("expected a named-method anchor, got {:?}", other),
    }
}

#[test]
fn invoker_anchor_parses() {
    match parse_anchor("invoker:System:String:Concat") {
        Anchor::NamedInvoker(t) => {
            assert_eq!(t.namespace, "System");
            assert_eq!(t.class, "String");
            assert_eq!(t.method, "Concat");
        }
        other => panic!("expected a named-invoker anchor, got {:?}", other),
    }
}

#[test]
fn empty_namespace_is_kept() {
    match parse_anchor("il2cpp::GlobalClass:Run") {
        Anchor::NamedMethod(t) => {
            assert_eq!(t.namespace, "");
            assert_eq!(t.class, "GlobalClass");
            assert_eq!(t.method, "Run");
        }
        other => panic!("expected a named-method anchor, got {:?}", other),
    }
}

#[test]
fn anything_else_is_an_exported_symbol() {
    for raw in [
        "il2cpp_init",
        "il2cpp:Too:Few",
        "il2cpp:One:Two:Three:Four",
        "invoker:x",
        "plain_name",
        "",
    ] {
        match parse_anchor(raw) {
            Anchor::ExportedSymbol(s) => assert_eq!(s, raw),
            other => panic!("expected an exported-symbol anchor for {:?}, got {:?}", raw, other),
        }
    }
}
