//! The batch orchestrator: resolve each navigation request's anchor to a
//! start address, run the trace engine, and collect the outputs. Every
//! request is handled independently: a failed request yields a diagnostic
//! and is dropped from the output, and never disturbs its siblings.

use vstd::prelude::*;

use crate::errors::XrefError;
use crate::ins::DecodedImage;
use crate::program::{anchor_of, parse_anchor, parse_program, spec_parse_program, str_eq, Anchor,
    AnchorSpec, Triple};
use crate::roots::{failures_view, first_match, pending_view, resolve_roots, roots_view,
    spec_resolve, CodeRegistration, Metadata, Resolution, Root, RootEntry, TripleV};
use crate::trace::{spec_trace, trace};

verus! {

/// One navigation request: an output symbol name, a start-anchor string
/// and a navigation-program string.
#[derive(Debug, Clone)]
pub struct SymbolTrace {
    pub symbol: String,
    pub start: String,
    pub trace: String,
}

/// A batch of navigation requests.
pub struct XRefData {
    pub traces: Vec<SymbolTrace>,
}

/// One exported definition of the image: its name and address.
pub struct ExportEntry {
    pub name: String,
    pub addr: u64,
}

/// One resolved output: the request's symbol name and its address.
pub struct OutputSymbol {
    pub symbol: String,
    pub offset: u64,
}

/// The resolved outputs, in request order, failed requests dropped.
pub struct Output {
    pub symbols: Vec<OutputSymbol>,
}

/// The per-request diagnostic of a failed request.
pub struct Diagnostic {
    pub symbol: String,
    pub error: XrefError,
}

/// The first root entry carrying triple `t`, if any.
pub open spec fn root_lookup(roots: Seq<RootEntry>, t: TripleV) -> Option<Root>
    decreases roots.len(),
{
    if roots.len() == 0 {
        None
    } else if roots[0].triple@ == t {
        Some(roots[0].root)
    } else {
        root_lookup(roots.drop_first(), t)
    }
}

/// The address of the first export carrying `name`, if any.
pub open spec fn export_lookup(syms: Seq<ExportEntry>, name: Seq<char>) -> Option<u64>
    decreases syms.len(),
{
    if syms.len() == 0 {
        None
    } else if syms[0].name@ == name {
        Some(syms[0].addr)
    } else {
        export_lookup(syms.drop_first(), name)
    }
}

/// What a start string resolves to: a named method's address, a named
/// invoker's trampoline address (absent invoker is a failure of its own),
/// or an exported definition's address; a triple that never entered the
/// root map is an unresolved anchor, an unknown export name an
/// unresolved export.
pub open spec fn spec_start_addr(
    roots: Seq<RootEntry>,
    syms: Seq<ExportEntry>,
    start: Seq<char>,
) -> Result<u64, XrefError> {
    match anchor_of(start) {
        AnchorSpec::Method(t) => match root_lookup(roots, t) {
            None => Err(XrefError::UnresolvedAnchor),
            Some(root) => Ok(root.method_addr),
        },
        AnchorSpec::Invoker(t) => match root_lookup(roots, t) {
            None => Err(XrefError::UnresolvedAnchor),
            Some(root) => match root.invoker_addr {
                None => Err(XrefError::MissingInvoker),
                Some(a) => Ok(a),
            },
        },
        AnchorSpec::Exported(name) => match export_lookup(syms, name) {
            None => Err(XrefError::UnresolvedExport),
            Some(a) => Ok(a),
        },
    }
}

/// One whole request: anchor resolution, then program parsing, then the
/// trace engine.
pub open spec fn spec_trace_single(
    img: DecodedImage,
    roots: Seq<RootEntry>,
    syms: Seq<ExportEntry>,
    tr: SymbolTrace,
) -> Result<u64, XrefError> {
    match spec_start_addr(roots, syms, tr.start@) {
        Err(e) => Err(e),
        Ok(start) => match spec_parse_program(tr.trace@, 0) {
            Err(e) => Err(e),
            Ok(program) => spec_trace(img, start, program),
        },
    }
}

/// The outputs of a batch: each request that resolves contributes its
/// (symbol, address) pair, in request order; failed requests contribute
/// nothing here.
pub open spec fn spec_run_all(
    img: DecodedImage,
    roots: Seq<RootEntry>,
    syms: Seq<ExportEntry>,
    traces: Seq<SymbolTrace>,
) -> Seq<(Seq<char>, u64)>
    decreases traces.len(),
{
    if traces.len() == 0 {
        Seq::empty()
    } else {
        let rest = spec_run_all(img, roots, syms, traces.drop_first());
        match spec_trace_single(img, roots, syms, traces[0]) {
            Ok(a) => seq![(traces[0].symbol@, a)] + rest,
            Err(_) => rest,
        }
    }
}

/// The diagnostics of a batch: each failed request contributes its
/// symbol name and error, in request order.
pub open spec fn spec_run_failures(
    img: DecodedImage,
    roots: Seq<RootEntry>,
    syms: Seq<ExportEntry>,
    traces: Seq<SymbolTrace>,
) -> Seq<(Seq<char>, XrefError)>
    decreases traces.len(),
{
    if traces.len() == 0 {
        Seq::empty()
    } else {
        let rest = spec_run_failures(img, roots, syms, traces.drop_first());
        match spec_trace_single(img, roots, syms, traces[0]) {
            Ok(_) => rest,
            Err(e) => seq![(traces[0].symbol@, e)] + rest,
        }
    }
}

/// One failing request never disturbs its siblings: removing it from the
/// batch leaves the output untouched, still in the survivors' original
/// order.
pub proof fn lemma_batch_isolation(
    img: DecodedImage,
    roots: Seq<RootEntry>,
    syms: Seq<ExportEntry>,
    traces: Seq<SymbolTrace>,
    k: int,
)
    requires
        0 <= k < traces.len(),
        spec_trace_single(img, roots, syms, traces[k]) is Err,
    ensures
        spec_run_all(img, roots, syms, traces) == spec_run_all(img, roots, syms, traces.remove(k)),
    decreases k,
{
    if k == 0 {
        assert(traces.remove(0) =~= traces.drop_first());
    } else {
        assert(traces.drop_first()[k - 1] == traces[k]);
        lemma_batch_isolation(img, roots, syms, traces.drop_first(), k - 1);
        assert(traces.remove(k).drop_first() =~= traces.drop_first().remove(k - 1));
        assert(traces.remove(k)[0] == traces[0]);
    }
}

/// The triples that the batch's named-method and named-invoker anchors
/// ask for, in request order.
pub open spec fn anchor_triples(traces: Seq<SymbolTrace>) -> Seq<TripleV>
    decreases traces.len(),
{
    if traces.len() == 0 {
        Seq::empty()
    } else {
        anchor_triples(traces.drop_last()) + (match anchor_of(traces.last().start@) {
            AnchorSpec::Method(t) => seq![t],
            AnchorSpec::Invoker(t) => seq![t],
            AnchorSpec::Exported(_) => Seq::empty(),
        })
    }
}

/// The same triples with later repetitions dropped: each distinct triple
/// once, at its first position.
pub open spec fn dedup_triples(s: Seq<TripleV>) -> Seq<TripleV>
    decreases s.len(),
{
    if s.len() == 0 {
        Seq::empty()
    } else {
        let d = dedup_triples(s.drop_last());
        if d.contains(s.last()) {
            d
        } else {
            d.push(s.last())
        }
    }
}

pub proof fn lemma_first_match_contains(s: Seq<TripleV>, t: TripleV)
    ensures
        (first_match(s, t) == -1) <==> !s.contains(t),
    decreases s.len(),
{
    if s.len() > 0 && s[0] != t {
        lemma_first_match_contains(s.drop_first(), t);
        if s.contains(t) {
            let w = choose|w: int| 0 <= w < s.len() && s[w] == t;
            assert(s.drop_first()[w - 1] == s[w]);
        }
        if s.drop_first().contains(t) {
            let w = choose|w: int| 0 <= w < s.drop_first().len() && s.drop_first()[w] == t;
            assert(s[w + 1] == s.drop_first()[w]);
        }
    }
}

/// Collect the requested triples of a batch, first occurrences only.
fn requested_triples(xref_data: &XRefData) -> (r: Vec<Triple>)
    ensures
        pending_view(r@) == dedup_triples(anchor_triples(xref_data.traces@)),
{
    let ghost traces = xref_data.traces@;
    let mut requested: Vec<Triple> = Vec::new();
    let mut i: usize = 0;
    let n = xref_data.traces.len();
    proof {
        assert(traces.take(0) =~= Seq::<SymbolTrace>::empty());
        assert(pending_view(requested@) =~= Seq::<TripleV>::empty());
    }
    while i < n
        invariant
            i <= n,
            n == traces.len(),
            traces == xref_data.traces@,
            pending_view(requested@) == dedup_triples(anchor_triples(traces.take(i as int))),
        decreases n - i,
    {
        proof {
            assert(traces.take(i as int + 1).drop_last() =~= traces.take(i as int));
            assert(traces.take(i as int + 1).last() == traces[i as int]);
        }
        let ghost before = anchor_triples(traces.take(i as int));
        let tr = &xref_data.traces[i];
        let anchor = parse_anchor(tr.start.as_str());
        let triple = match anchor {
            Anchor::NamedMethod(t) => Some(t),
            Anchor::NamedInvoker(t) => Some(t),
            Anchor::ExportedSymbol(_) => None,
        };
        match triple {
            Some(t) => {
                let ghost tv = t@;
                proof {
                    assert(anchor_triples(traces.take(i as int + 1)) =~= before + seq![tv]);
                    assert((before + seq![tv]).drop_last() =~= before);
                    assert((before + seq![tv]).last() == tv);
                }
                let dup = crate::roots::find_pending(
                    &requested,
                    t.namespace.as_str(),
                    t.class.as_str(),
                    t.method.as_str(),
                );
                proof {
                    lemma_first_match_contains(pending_view(requested@), tv);
                }
                match dup {
                    Some(_) => {},
                    None => {
                        let ghost req0 = requested@;
                        requested.push(t);
                        proof {
                            assert(pending_view(requested@) =~= pending_view(req0).push(tv));
                        }
                    },
                }
            },
            None => {
                proof {
                    assert(anchor_triples(traces.take(i as int + 1)) =~= before);
                }
            },
        }
        i = i + 1;
    }
    proof {
        assert(traces.take(n as int) =~= traces);
    }
    requested
}

/// Resolve every triple the batch's anchors ask for.
///
/// The result is exactly [`spec_resolve`] of the metadata enumeration,
/// the code registration and the batch's requested triples (first
/// occurrences only): the matched roots in enumeration order, the
/// triples that matched nothing, and the per-triple failures.
pub fn find_roots(
    metadata: &Metadata,
    code_registration: &CodeRegistration,
    xref_data: &XRefData,
) -> (r: Resolution)
    ensures
        ({
            let fin = spec_resolve(
                metadata.images@,
                *code_registration,
                dedup_triples(anchor_triples(xref_data.traces@)),
            );
            &&& roots_view(r.roots@) == fin.roots
            &&& pending_view(r.unmatched@) == fin.pending
            &&& failures_view(r.failures@) == fin.failures
        }),
{
    let requested = requested_triples(xref_data);
    resolve_roots(metadata, code_registration, requested)
}

/// The shared, immutable state a batch runs against: the decoded image,
/// the root map and the export table.
pub struct XRefTracer {
    pub img: DecodedImage,
    pub roots: Vec<RootEntry>,
    pub symbols: Vec<ExportEntry>,
}

/// Exec part of [`root_lookup`].
fn lookup_root(roots: &Vec<RootEntry>, t: &Triple) -> (r: Option<Root>)
    ensures
        r == root_lookup(roots@, t@),
{
    let n = roots.len();
    let mut i: usize = 0;
    proof {
        assert(roots@.skip(0) =~= roots@);
    }
    loop
        invariant
            i <= n,
            n == roots@.len(),
            root_lookup(roots@, t@) == root_lookup(roots@.skip(i as int), t@),
        decreases n - i,
    {
        if i >= n {
            proof {
                assert(roots@.skip(i as int) =~= Seq::<RootEntry>::empty());
            }
            return None;
        }
        proof {
            assert(roots@.skip(i as int)[0] == roots@[i as int]);
            assert(roots@.skip(i as int).drop_first() =~= roots@.skip(i as int + 1));
        }
        let entry = &roots[i];
        if str_eq(entry.triple.namespace.as_str(), t.namespace.as_str()) && str_eq(
            entry.triple.class.as_str(),
            t.class.as_str(),
        ) && str_eq(entry.triple.method.as_str(), t.method.as_str()) {
            return Some(entry.root);
        }
        i = i + 1;
    }
}

/// Exec part of [`export_lookup`].
fn lookup_export(syms: &Vec<ExportEntry>, name: &str) -> (r: Option<u64>)
    ensures
        r == export_lookup(syms@, name@),
{
    let n = syms.len();
    let mut i: usize = 0;
    proof {
        assert(syms@.skip(0) =~= syms@);
    }
    loop
        invariant
            i <= n,
            n == syms@.len(),
            export_lookup(syms@, name@) == export_lookup(syms@.skip(i as int), name@),
        decreases n - i,
    {
        if i >= n {
            proof {
                assert(syms@.skip(i as int) =~= Seq::<ExportEntry>::empty());
            }
            return None;
        }
        proof {
            assert(syms@.skip(i as int)[0] == syms@[i as int]);
            assert(syms@.skip(i as int).drop_first() =~= syms@.skip(i as int + 1));
        }
        let entry = &syms[i];
        if str_eq(entry.name.as_str(), name) {
            return Some(entry.addr);
        }
        i = i + 1;
    }
}

impl XRefTracer {
    /// The image table fits the address space.
    pub open spec fn wf(self) -> bool {
        self.img.wf()
    }

    /// Run one request: resolve its anchor, parse its program, trace.
    pub fn trace_single(&self, tr: &SymbolTrace) -> (r: Result<OutputSymbol, XrefError>)
        requires
            self.wf(),
        ensures
            (match r {
                Ok(o) => spec_trace_single(self.img, self.roots@, self.symbols@, *tr) == Ok::<
                    u64,
                    XrefError,
                >(o.offset) && o.symbol@ == tr.symbol@,
                Err(e) => spec_trace_single(self.img, self.roots@, self.symbols@, *tr) == Err::<
                    u64,
                    XrefError,
                >(e),
            }),
    {
        let anchor = parse_anchor(tr.start.as_str());
        let start = match &anchor {
            Anchor::NamedMethod(t) => match lookup_root(&self.roots, t) {
                None => {
                    return Err(XrefError::UnresolvedAnchor);
                },
                Some(root) => root.method_addr,
            },
            Anchor::NamedInvoker(t) => match lookup_root(&self.roots, t) {
                None => {
                    return Err(XrefError::UnresolvedAnchor);
                },
                Some(root) => match root.invoker_addr {
                    None => {
                        return Err(XrefError::MissingInvoker);
                    },
                    Some(a) => a,
                },
            },
            Anchor::ExportedSymbol(name) => match lookup_export(&self.symbols, name.as_str()) {
                None => {
                    return Err(XrefError::UnresolvedExport);
                },
                Some(a) => a,
            },
        };
        let program = match parse_program(tr.trace.as_str()) {
            Ok(p) => p,
            Err(e) => {
                return Err(e);
            },
        };
        match trace(&self.img, start, &program) {
            Ok(addr) => Ok(OutputSymbol { symbol: tr.symbol.clone(), offset: addr }),
            Err(e) => Err(e),
        }
    }

    /// Run a whole batch, each request independently: the outputs of the
    /// requests that resolved, in request order, and a diagnostic for
    /// each request that failed.
    pub fn trace_all(&self, xref_data: &XRefData) -> (r: (Output, Vec<Diagnostic>))
        requires
            self.wf(),
        ensures
            outputs_view(r.0.symbols@) == spec_run_all(
                self.img,
                self.roots@,
                self.symbols@,
                xref_data.traces@,
            ),
            diags_view(r.1@) == spec_run_failures(
                self.img,
                self.roots@,
                self.symbols@,
                xref_data.traces@,
            ),
    {
        let ghost traces = xref_data.traces@;
        let mut symbols: Vec<OutputSymbol> = Vec::new();
        let mut diags: Vec<Diagnostic> = Vec::new();
        let mut i: usize = 0;
        let n = xref_data.traces.len();
        proof {
            assert(traces.skip(0) =~= traces);
        }
        while i < n
            invariant
                i <= n,
                n == traces.len(),
                traces == xref_data.traces@,
                self.wf(),
                spec_run_all(self.img, self.roots@, self.symbols@, traces) == outputs_view(
                    symbols@,
                ) + spec_run_all(self.img, self.roots@, self.symbols@, traces.skip(i as int)),
                spec_run_failures(self.img, self.roots@, self.symbols@, traces) == diags_view(
                    diags@,
                ) + spec_run_failures(self.img, self.roots@, self.symbols@, traces.skip(i as int)),
            decreases n - i,
        {
            proof {
                assert(traces.skip(i as int)[0] == traces[i as int]);
                assert(traces.skip(i as int).drop_first() =~= traces.skip(i as int + 1));
            }
            let ghost syms0 = symbols@;
            let ghost diags0 = diags@;
            let tr = &xref_data.traces[i];
            match self.trace_single(tr) {
                Ok(o) => {
                    symbols.push(o);
                    proof {
                        assert(outputs_view(symbols@) =~= outputs_view(syms0) + seq![
                            (traces[i as int].symbol@, symbols@.last().offset),
                        ]);
                        lemma_concat_assoc_outputs(
                            outputs_view(syms0),
                            seq![(traces[i as int].symbol@, symbols@.last().offset)],
                            spec_run_all(
                                self.img,
                                self.roots@,
                                self.symbols@,
                                traces.skip(i as int + 1),
                            ),
                        );
                    }
                },
                Err(e) => {
                    diags.push(Diagnostic { symbol: tr.symbol.clone(), error: e });
                    proof {
                        assert(diags_view(diags@) =~= diags_view(diags0) + seq![
                            (traces[i as int].symbol@, e),
                        ]);
                        lemma_concat_assoc_diags(
                            diags_view(diags0),
                            seq![(traces[i as int].symbol@, e)],
                            spec_run_failures(
                                self.img,
                                self.roots@,
                                self.symbols@,
                                traces.skip(i as int + 1),
                            ),
                        );
                    }
                },
            }
            i = i + 1;
        }
        proof {
            assert(traces.skip(i as int) =~= Seq::<SymbolTrace>::empty());
            assert(outputs_view(symbols@) + Seq::<(Seq<char>, u64)>::empty() =~= outputs_view(
                symbols@,
            ));
            assert(diags_view(diags@) + Seq::<(Seq<char>, XrefError)>::empty() =~= diags_view(
                diags@,
            ));
        }
        (Output { symbols }, diags)
    }
}

pub open spec fn outputs_view(s: Seq<OutputSymbol>) -> Seq<(Seq<char>, u64)> {
    s.map_values(|o: OutputSymbol| (o.symbol@, o.offset))
}

pub open spec fn diags_view(s: Seq<Diagnostic>) -> Seq<(Seq<char>, XrefError)> {
    s.map_values(|d: Diagnostic| (d.symbol@, d.error))
}

proof fn lemma_concat_assoc_outputs(
    a: Seq<(Seq<char>, u64)>,
    b: Seq<(Seq<char>, u64)>,
    c: Seq<(Seq<char>, u64)>,
)
    ensures
        (a + b) + c =~= a + (b + c),
{
}

proof fn lemma_concat_assoc_diags(
    a: Seq<(Seq<char>, XrefError)>,
    b: Seq<(Seq<char>, XrefError)>,
    c: Seq<(Seq<char>, XrefError)>,
)
    ensures
        (a + b) + c =~= a + (b + c),
{
}

/// No entry of the root map carries `t` exactly when looking `t` up
/// yields nothing.
pub proof fn lemma_root_lookup_none(roots: Seq<RootEntry>, t: TripleV)
    requires
        forall|n: int| 0 <= n < roots.len() ==> (#[trigger] roots[n]).triple@ != t,
    ensures
        root_lookup(roots, t) is None,
    decreases roots.len(),
{
    if roots.len() > 0 {
        assert forall|n: int| 0 <= n < roots.drop_first().len() implies (#[trigger] roots.drop_first()[n]).triple@ != t by {
            assert(roots.drop_first()[n] == roots[n + 1]);
        }
        lemma_root_lookup_none(roots.drop_first(), t);
    }
}

/// A named anchor whose triple stands nowhere in the root map fails as
/// an unresolved anchor, whatever the export table holds.
pub proof fn lemma_absent_triple_unresolved(
    roots: Seq<RootEntry>,
    syms: Seq<ExportEntry>,
    start: Seq<char>,
    t: TripleV,
)
    requires
        anchor_of(start) == AnchorSpec::Method(t) || anchor_of(start) == AnchorSpec::Invoker(t),
        forall|n: int| 0 <= n < roots.len() ==> (#[trigger] roots[n]).triple@ != t,
    ensures
        spec_start_addr(roots, syms, start) == Err::<u64, XrefError>(XrefError::UnresolvedAnchor),
{
    lemma_root_lookup_none(roots, t);
}

} // verus!
