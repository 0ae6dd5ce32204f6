use xref_trace::errors::XrefError;
use xref_trace::ins::{DecodedImage, DecodedIns, ScanIns, StepIns};
use xref_trace::roots::{CodeModule, CodeRegistration, Image, Metadata, MethodDef, Root, TypeDef};
use xref_trace::run::{find_roots, ExportEntry, SymbolTrace, XRefData, XRefTracer};

fn sample_metadata() -> Metadata {
    Metadata {
        images: vec![Image {
            name: "Game.dll".to_string(),
            type_defs: vec![TypeDef {
                namespace: "Foo".to_string(),
                name: "Bar".to_string(),
                methods: vec![
                    MethodDef { name: "Baz".to_string(), rid: 1 },
                    MethodDef { name: "Qux".to_string(), rid: 2 },
                ],
            }],
        }],
    }
}

fn sample_code() -> CodeRegistration {
    CodeRegistration {
        modules: vec![CodeModule {
            name: "Game.dll".to_string(),
            method_pointers: vec![0x1000, 0x2000],
            invoker_indices: vec![u32::MAX, 1],
        }],
        invoker_pointers: vec![0x9000, 0x9100],
    }
}

fn request(symbol: &str, start: &str, program: &str) -> SymbolTrace {
    SymbolTrace {
        symbol: symbol.to_string(),
        start: start.to_string(),
        trace: program.to_string(),
    }
}

fn call_image(targets: &[u64]) -> DecodedImage {
    let filler = DecodedIns { step: StepIns::Other, scan: ScanIns::Other };
    let mut ins = Vec::new();
    let len = 4 * targets.len() - 3;
    for a in 0..len {
        if a % 4 == 0 {
            ins.push(DecodedIns {
                step: StepIns::Call(Some(targets[a / 4])),
                scan: ScanIns::Other,
            });
        } else {
            ins.push(filler);
        }
    }
    DecodedImage { ins }
}

#[test]
fn root_get_resolves_method_and_invoker() {
    let code = sample_code();
    let no_invoker = Root::get(1, "Game.dll", &code).unwrap();
    assert_eq!(no_invoker.method_addr, 0x1000);
    assert_eq!(no_invoker.invoker_addr, None);

    let with_invoker = Root::get(2, "Game.dll", &code).unwrap();
    assert_eq!(with_invoker.method_addr, 0x2000);
    assert_eq!(with_invoker.invoker_addr, Some(0x9100));
}

#[test]
fn root_get_unknown_module_fails() {
    let code = sample_code();
    assert_eq!(
        Root::get(1, "Other.dll", &code),
        Err(XrefError::ModuleNotFound)
    );
}

#[test]
fn root_get_row_id_out_of_range_fails() {
    let code = sample_code();
    assert_eq!(Root::get(0, "Game.dll", &code), Err(XrefError::TokenOutOfRange));
    assert_eq!(Root::get(3, "Game.dll", &code), Err(XrefError::TokenOutOfRange));
}

#[test]
fn root_get_invoker_index_out_of_range_fails() {
    let code = CodeRegistration {
        modules: vec![CodeModule {
            name: "Game.dll".to_string(),
            method_pointers: vec![0x1000],
            invoker_indices: vec![7],
        }],
        invoker_pointers: vec![0x9000],
    };
    assert_eq!(Root::get(1, "Game.dll", &code), Err(XrefError::TokenOutOfRange));
}

#[test]
fn find_roots_matches_requested_triples_once() {
    let metadata = sample_metadata();
    let code = sample_code();
    let data = XRefData {
        traces: vec![
            request("a", "il2cpp:Foo:Bar:Baz", ""),
            // The same triple again, through an invoker anchor: one root.
            request("b", "invoker:Foo:Bar:Baz", ""),
            request("c", "some_export", ""),
        ],
    };
    let resolution = find_roots(&metadata, &code, &data);
    assert_eq!(resolution.roots.len(), 1);
    assert_eq!(resolution.roots[0].triple.namespace, "Foo");
    assert_eq!(resolution.roots[0].triple.class, "Bar");
    assert_eq!(resolution.roots[0].triple.method, "Baz");
    assert_eq!(resolution.roots[0].root.method_addr, 0x1000);
    assert!(resolution.unmatched.is_empty());
    assert!(resolution.failures.is_empty());
}

#[test]
fn unmatched_triples_stay_out_of_the_root_map() {
    // Oversupply: more triples requested than the metadata holds. The
    // unmatched one never enters the root map and resolution still
    // completes for the matched one.
    let metadata = sample_metadata();
    let code = sample_code();
    let data = XRefData {
        traces: vec![
            request("hit", "il2cpp:Foo:Bar:Baz", ""),
            request("miss", "il2cpp:No:Such:Method", ""),
        ],
    };
    let resolution = find_roots(&metadata, &code, &data);
    assert_eq!(resolution.roots.len(), 1);
    assert_eq!(resolution.roots[0].triple.method, "Baz");
    assert_eq!(resolution.unmatched.len(), 1);
    assert_eq!(resolution.unmatched[0].method, "Method");
    assert!(resolution.failures.is_empty());
}

#[test]
fn unregistered_image_records_a_failure_not_an_abort() {
    let metadata = sample_metadata();
    let code = CodeRegistration {
        modules: vec![],
        invoker_pointers: vec![],
    };
    let data = XRefData {
        traces: vec![request("a", "il2cpp:Foo:Bar:Baz", "")],
    };
    let resolution = find_roots(&metadata, &code, &data);
    assert!(resolution.roots.is_empty());
    assert!(resolution.unmatched.is_empty());
    assert_eq!(resolution.failures.len(), 1);
    assert_eq!(resolution.failures[0].error, XrefError::ModuleNotFound);
}

fn tracer_for(metadata: &Metadata, code: &CodeRegistration, data: &XRefData, img: DecodedImage) -> XRefTracer {
    let resolution = find_roots(metadata, code, data);
    XRefTracer {
        img,
        roots: resolution.roots,
        symbols: vec![ExportEntry { name: "il2cpp_init".to_string(), addr: 0x40 }],
    }
}

#[test]
fn method_and_invoker_anchors_differ() {
    // "Foo.Bar::Baz" has a method address and no invoker: the method
    // anchor resolves to 0x1000, the invoker anchor fails.
    let metadata = sample_metadata();
    let code = sample_code();
    let data = XRefData {
        traces: vec![
            request("m", "il2cpp:Foo:Bar:Baz", ""),
            request("i", "invoker:Foo:Bar:Baz", ""),
        ],
    };
    let tracer = tracer_for(&metadata, &code, &data, call_image(&[0x77]));
    let (output, diags) = tracer.trace_all(&data);
    assert_eq!(output.symbols.len(), 1);
    assert_eq!(output.symbols[0].symbol, "m");
    assert_eq!(output.symbols[0].offset, 0x1000);
    assert_eq!(diags.len(), 1);
    assert_eq!(diags[0].symbol, "i");
    assert_eq!(diags[0].error, XrefError::MissingInvoker);
}

#[test]
fn invoker_anchor_resolves_when_present() {
    let metadata = sample_metadata();
    let code = sample_code();
    let data = XRefData {
        traces: vec![request("i", "invoker:Foo:Bar:Qux", "")],
    };
    let tracer = tracer_for(&metadata, &code, &data, call_image(&[0x77]));
    let (output, diags) = tracer.trace_all(&data);
    assert!(diags.is_empty());
    assert_eq!(output.symbols[0].offset, 0x9100);
}

#[test]
fn exported_symbol_anchor_resolves() {
    let metadata = sample_metadata();
    let code = sample_code();
    let data = XRefData {
        traces: vec![
            request("ok", "il2cpp_init", ""),
            request("gone", "no_such_export", ""),
        ],
    };
    let tracer = tracer_for(&metadata, &code, &data, call_image(&[0x77]));
    let (output, diags) = tracer.trace_all(&data);
    assert_eq!(output.symbols.len(), 1);
    assert_eq!(output.symbols[0].offset, 0x40);
    assert_eq!(diags[0].error, XrefError::UnresolvedExport);
}

#[test]
fn unresolved_anchor_surfaces_at_trace_time() {
    let metadata = sample_metadata();
    let code = sample_code();
    let data = XRefData {
        traces: vec![request("miss", "il2cpp:No:Such:Method", "")],
    };
    let tracer = tracer_for(&metadata, &code, &data, call_image(&[0x77]));
    let (output, diags) = tracer.trace_all(&data);
    assert!(output.symbols.is_empty());
    assert_eq!(diags[0].error, XrefError::UnresolvedAnchor);
}

#[test]
fn one_failing_request_never_blocks_the_others() {
    // Requests resolve independently; the failing one (its program walks
    // off mapped memory) is dropped and the rest keep their order.
    let metadata = sample_metadata();
    let code = sample_code();
    // Exported anchor at 0x40... use export address 0 so the walk starts
    // at the lone call word.
    let img = call_image(&[0x500]);
    let data = XRefData {
        traces: vec![
            request("first", "il2cpp_init", ""),
            request("boom", "il2cpp_init", "L9"),
            request("last", "il2cpp:Foo:Bar:Baz", ""),
        ],
    };
    let resolution = find_roots(&metadata, &code, &data);
    let tracer = XRefTracer {
        img,
        roots: resolution.roots,
        symbols: vec![ExportEntry { name: "il2cpp_init".to_string(), addr: 0 }],
    };
    let (output, diags) = tracer.trace_all(&data);
    assert_eq!(output.symbols.len(), 2);
    assert_eq!(output.symbols[0].symbol, "first");
    assert_eq!(output.symbols[0].offset, 0);
    assert_eq!(output.symbols[1].symbol, "last");
    assert_eq!(output.symbols[1].offset, 0x1000);
    assert_eq!(diags.len(), 1);
    assert_eq!(diags[0].symbol, "boom");
    assert_eq!(diags[0].error, XrefError::DecodeError);
}

#[test]
fn program_runs_from_anchor_through_engine() {
    // A full request: exported anchor, then one call step.
    let metadata = sample_metadata();
    let code = sample_code();
    let data = XRefData {
        traces: vec![request("walk", "il2cpp_init", "L0")],
    };
    let tracer = XRefTracer {
        img: call_image(&[0x1234]),
        roots: find_roots(&metadata, &code, &data).roots,
        symbols: vec![ExportEntry { name: "il2cpp_init".to_string(), addr: 0 }],
    };
    let (output, diags) = tracer.trace_all(&data);
    assert!(diags.is_empty());
    assert_eq!(output.symbols[0].offset, 0x1234);
}

#[test]
fn malformed_program_fails_only_its_request() {
    let metadata = sample_metadata();
    let code = sample_code();
    let data = XRefData {
        traces: vec![
            request("bad", "il2cpp_init", "Z1"),
            request("good", "il2cpp_init", ""),
        ],
    };
    let tracer = tracer_for(&metadata, &code, &data, call_image(&[0x77]));
    let (output, diags) = tracer.trace_all(&data);
    assert_eq!(diags[0].error, XrefError::ProgramSyntaxError);
    assert_eq!(output.symbols.len(), 1);
    assert_eq!(output.symbols[0].symbol, "good");
}
