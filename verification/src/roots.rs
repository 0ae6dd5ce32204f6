//! The root resolver: cross-references requested (namespace, class,
//! method) triples against the metadata's image/type/method enumeration,
//! producing each matched triple's native method address and optional
//! invoker-trampoline address from the code-registration tables.
//!
//! Resolution is a pure fold over the enumeration: each method whose
//! triple is still pending consumes that triple (first structural match
//! wins) and either contributes a root or records a per-triple failure;
//! a triple matching zero methods is left pending, to surface later as an
//! unresolved anchor. No failure aborts the rest of the fold.

use vstd::prelude::*;

use crate::errors::XrefError;
use crate::program::{str_eq, Triple};

verus! {

/// The view of a [`Triple`]: its three character sequences.
pub type TripleV = (Seq<char>, Seq<char>, Seq<char>);

/// Per-image type definitions and methods, as plain values: what the
/// metadata reader exposes of one method is its name and its 1-based
/// row id.
pub struct MethodDef {
    pub name: String,
    pub rid: u32,
}

pub struct TypeDef {
    pub namespace: String,
    pub name: String,
    pub methods: Vec<MethodDef>,
}

pub struct Image {
    pub name: String,
    pub type_defs: Vec<TypeDef>,
}

/// The metadata reader's view of the whole blob: its images.
pub struct Metadata {
    pub images: Vec<Image>,
}

/// One code-registration module: a method-address table and an
/// invoker-index table, both indexed by (row id - 1).
pub struct CodeModule {
    pub name: String,
    pub method_pointers: Vec<u64>,
    pub invoker_indices: Vec<u32>,
}

/// The code-registration structure: per-image modules and the one global
/// invoker-pointer table.
pub struct CodeRegistration {
    pub modules: Vec<CodeModule>,
    pub invoker_pointers: Vec<u64>,
}

/// A resolved root: a method's native address, and its invoker
/// trampoline's address when the method has one.
#[derive(Clone, Copy, Debug, PartialEq, Eq)]
pub struct Root {
    pub method_addr: u64,
    pub invoker_addr: Option<u64>,
}

/// The reserved invoker index that marks a method without an invoker.
pub const NO_INVOKER: u32 = u32::MAX;

/// The first code-registration module carrying `name`, if any.
pub open spec fn find_module(mods: Seq<CodeModule>, name: Seq<char>) -> Option<CodeModule>
    decreases mods.len(),
{
    if mods.len() == 0 {
        None
    } else if mods[0].name@ == name {
        Some(mods[0])
    } else {
        find_module(mods.drop_first(), name)
    }
}

/// What [`Root::get`] returns: the module named like the owning image is
/// looked up (its absence is a module-not-found failure); row id `rid`
/// indexes its two tables at `rid - 1` (a row id of zero or beyond either
/// table is out of range); the reserved index means no invoker, any other
/// invoker index must lie inside the global invoker-pointer table.
pub open spec fn spec_root_get(rid: u32, image_name: Seq<char>, code: CodeRegistration) -> Result<
    Root,
    XrefError,
> {
    match find_module(code.modules@, image_name) {
        None => Err(XrefError::ModuleNotFound),
        Some(m) => {
            if rid == 0 || rid > m.method_pointers@.len() || rid > m.invoker_indices@.len() {
                Err(XrefError::TokenOutOfRange)
            } else {
                let method_addr = m.method_pointers@[rid - 1];
                let invoker_idx = m.invoker_indices@[rid - 1];
                if invoker_idx == NO_INVOKER {
                    Ok(Root { method_addr, invoker_addr: None })
                } else if invoker_idx >= code.invoker_pointers@.len() {
                    Err(XrefError::TokenOutOfRange)
                } else {
                    Ok(
                        Root {
                            method_addr,
                            invoker_addr: Some(code.invoker_pointers@[invoker_idx as int]),
                        },
                    )
                }
            }
        },
    }
}

/// Exec part of [`find_module`]: the index of the first matching module.
fn find_module_idx(code: &CodeRegistration, image_name: &str) -> (r: Option<usize>)
    ensures
        (match r {
            Some(i) => 0 <= i < code.modules@.len() && find_module(code.modules@, image_name@)
                == Some(code.modules@[i as int]),
            None => find_module(code.modules@, image_name@) is None,
        }),
{
    let n = code.modules.len();
    let mut i: usize = 0;
    proof {
        assert(code.modules@.skip(0) =~= code.modules@);
    }
    loop
        invariant
            i <= n,
            n == code.modules@.len(),
            find_module(code.modules@, image_name@) == find_module(
                code.modules@.skip(i as int),
                image_name@,
            ),
        decreases n - i,
    {
        if i >= n {
            proof {
                assert(code.modules@.skip(i as int) =~= Seq::<CodeModule>::empty());
            }
            return None;
        }
        proof {
            assert(code.modules@.skip(i as int)[0] == code.modules@[i as int]);
            assert(code.modules@.skip(i as int).drop_first() =~= code.modules@.skip(i as int + 1));
        }
        if str_eq(code.modules[i].name.as_str(), image_name) {
            return Some(i);
        }
        i = i + 1;
    }
}

impl Root {
    /// Resolve one method's root from the code-registration tables.
    pub fn get(rid: u32, image_name: &str, code: &CodeRegistration) -> (r: Result<
        Root,
        XrefError,
    >)
        ensures
            r == spec_root_get(rid, image_name@, *code),
    {
        let idx = match find_module_idx(code, image_name) {
            None => {
                return Err(XrefError::ModuleNotFound);
            },
            Some(i) => i,
        };
        let module = &code.modules[idx];
        if rid == 0 || rid as usize > module.method_pointers.len() || rid
            as usize > module.invoker_indices.len() {
            return Err(XrefError::TokenOutOfRange);
        }
        let ridx = (rid - 1) as usize;
        let method_addr = module.method_pointers[ridx];
        let invoker_idx = module.invoker_indices[ridx];
        if invoker_idx == NO_INVOKER {
            Ok(Root { method_addr, invoker_addr: None })
        } else if invoker_idx as usize >= code.invoker_pointers.len() {
            Err(XrefError::TokenOutOfRange)
        } else {
            Ok(
                Root {
                    method_addr,
                    invoker_addr: Some(code.invoker_pointers[invoker_idx as usize]),
                },
            )
        }
    }
}

/// A matched triple and its root.
pub struct RootEntry {
    pub triple: Triple,
    pub root: Root,
}

/// A triple that matched a method but whose root could not be resolved.
pub struct Failure {
    pub triple: Triple,
    pub error: XrefError,
}

/// What resolution returns: the matched roots, the requested triples
/// that matched no method, and the per-triple failures.
pub struct Resolution {
    pub roots: Vec<RootEntry>,
    pub unmatched: Vec<Triple>,
    pub failures: Vec<Failure>,
}

/// The mathematical state the resolution fold carries.
pub struct ResState {
    pub roots: Seq<(TripleV, Root)>,
    pub pending: Seq<TripleV>,
    pub failures: Seq<(TripleV, XrefError)>,
}

pub open spec fn pending_view(s: Seq<Triple>) -> Seq<TripleV> {
    s.map_values(|t: Triple| t@)
}

pub open spec fn roots_view(s: Seq<RootEntry>) -> Seq<(TripleV, Root)> {
    s.map_values(|e: RootEntry| (e.triple@, e.root))
}

pub open spec fn failures_view(s: Seq<Failure>) -> Seq<(TripleV, XrefError)> {
    s.map_values(|f: Failure| (f.triple@, f.error))
}

pub open spec fn state_of(roots: Seq<RootEntry>, pending: Seq<Triple>, failures: Seq<Failure>) -> ResState {
    ResState {
        roots: roots_view(roots),
        pending: pending_view(pending),
        failures: failures_view(failures),
    }
}

/// The position of the first occurrence of `t`, or -1 when there is none.
pub open spec fn first_match(s: Seq<TripleV>, t: TripleV) -> int
    decreases s.len(),
{
    if s.len() == 0 {
        -1
    } else if s[0] == t {
        0
    } else {
        let r = first_match(s.drop_first(), t);
        if r < 0 {
            -1
        } else {
            r + 1
        }
    }
}

pub proof fn lemma_first_match_at(s: Seq<TripleV>, t: TripleV, i: int)
    requires
        0 <= i < s.len(),
        s[i] == t,
        forall|k: int| 0 <= k < i ==> s[k] != t,
    ensures
        first_match(s, t) == i,
    decreases i,
{
    if i > 0 {
        lemma_first_match_at(s.drop_first(), t, i - 1);
    }
}

pub proof fn lemma_first_match_none(s: Seq<TripleV>, t: TripleV)
    requires
        forall|k: int| 0 <= k < s.len() ==> s[k] != t,
    ensures
        first_match(s, t) == -1,
    decreases s.len(),
{
    if s.len() > 0 {
        lemma_first_match_none(s.drop_first(), t);
    }
}

pub proof fn lemma_first_match_in_range(s: Seq<TripleV>, t: TripleV)
    ensures
        first_match(s, t) == -1 || (0 <= first_match(s, t) < s.len() && s[first_match(s, t)] == t),
    decreases s.len(),
{
    if s.len() > 0 && s[0] != t {
        lemma_first_match_in_range(s.drop_first(), t);
    }
}

/// One method of the enumeration against the fold's state: if its triple
/// is still pending, the first pending occurrence is consumed and the
/// method's root (or its failure) is recorded; otherwise nothing changes.
pub open spec fn step_method(
    st: ResState,
    image_name: Seq<char>,
    ns: Seq<char>,
    cl: Seq<char>,
    m: MethodDef,
    code: CodeRegistration,
) -> ResState {
    let t = (ns, cl, m.name@);
    let p = first_match(st.pending, t);
    if p >= 0 {
        let consumed = ResState { pending: st.pending.remove(p), ..st };
        match spec_root_get(m.rid, image_name, code) {
            Ok(root) => ResState { roots: consumed.roots.push((t, root)), ..consumed },
            Err(e) => ResState { failures: consumed.failures.push((t, e)), ..consumed },
        }
    } else {
        st
    }
}

pub open spec fn fold_methods(
    st: ResState,
    image_name: Seq<char>,
    ns: Seq<char>,
    cl: Seq<char>,
    ms: Seq<MethodDef>,
    code: CodeRegistration,
) -> ResState
    decreases ms.len(),
{
    if ms.len() == 0 {
        st
    } else {
        fold_methods(
            step_method(st, image_name, ns, cl, ms[0], code),
            image_name,
            ns,
            cl,
            ms.drop_first(),
            code,
        )
    }
}

pub open spec fn fold_typedefs(
    st: ResState,
    image_name: Seq<char>,
    tds: Seq<TypeDef>,
    code: CodeRegistration,
) -> ResState
    decreases tds.len(),
{
    if tds.len() == 0 {
        st
    } else {
        fold_typedefs(
            fold_methods(st, image_name, tds[0].namespace@, tds[0].name@, tds[0].methods@, code),
            image_name,
            tds.drop_first(),
            code,
        )
    }
}

pub open spec fn fold_images(st: ResState, images: Seq<Image>, code: CodeRegistration) -> ResState
    decreases images.len(),
{
    if images.len() == 0 {
        st
    } else {
        fold_images(
            fold_typedefs(st, images[0].name@, images[0].type_defs@, code),
            images.drop_first(),
            code,
        )
    }
}

/// The whole resolution pass as a pure function: the enumeration folded
/// over a state whose pending sequence starts as the requested triples.
pub open spec fn spec_resolve(
    images: Seq<Image>,
    code: CodeRegistration,
    requested: Seq<TripleV>,
) -> ResState {
    fold_images(
        ResState { roots: Seq::empty(), pending: requested, failures: Seq::empty() },
        images,
        code,
    )
}

proof fn lemma_pending_view_remove(s: Seq<Triple>, i: int)
    requires
        0 <= i < s.len(),
    ensures
        pending_view(s.remove(i)) =~= pending_view(s).remove(i),
{
    assert forall|k: int| 0 <= k < s.len() - 1 implies pending_view(s.remove(i))[k] == pending_view(
        s,
    ).remove(i)[k] by {
        if k < i {
            assert(s.remove(i)[k] == s[k]);
        } else {
            assert(s.remove(i)[k] == s[k + 1]);
        }
    }
}

/// Exec part of [`first_match`] over a pending list.
pub(crate) fn find_pending(pending: &Vec<Triple>, ns: &str, cl: &str, mname: &str) -> (r: Option<usize>)
    ensures
        (match r {
            Some(i) => 0 <= i < pending@.len() && first_match(
                pending_view(pending@),
                (ns@, cl@, mname@),
            ) == i as int,
            None => first_match(pending_view(pending@), (ns@, cl@, mname@)) == -1,
        }),
{
    let n = pending.len();
    let mut i: usize = 0;
    while i < n
        invariant
            i <= n,
            n == pending@.len(),
            forall|k: int| 0 <= k < i ==> pending_view(pending@)[k] != (ns@, cl@, mname@),
        decreases n - i,
    {
        let cand = &pending[i];
        if str_eq(cand.namespace.as_str(), ns) && str_eq(cand.class.as_str(), cl) && str_eq(
            cand.method.as_str(),
            mname,
        ) {
            proof {
                lemma_first_match_at(pending_view(pending@), (ns@, cl@, mname@), i as int);
            }
            return Some(i);
        }
        i = i + 1;
    }
    proof {
        lemma_first_match_none(pending_view(pending@), (ns@, cl@, mname@));
    }
    None
}

/// Resolve the requested triples against the metadata enumeration and the
/// code-registration tables.
///
/// The result is exactly [`spec_resolve`] of the inputs: `roots` are the
/// matched triples' roots in enumeration order, `unmatched` the requested
/// triples that matched no method (in their original order), and
/// `failures` the triples whose root lookup failed, each with its error.
pub fn resolve_roots(metadata: &Metadata, code: &CodeRegistration, requested: Vec<Triple>) -> (r:
    Resolution)
    ensures
        ({
            let fin = spec_resolve(metadata.images@, *code, pending_view(requested@));
            &&& roots_view(r.roots@) == fin.roots
            &&& pending_view(r.unmatched@) == fin.pending
            &&& failures_view(r.failures@) == fin.failures
        }),
{
    let ghost goal = spec_resolve(metadata.images@, *code, pending_view(requested@));
    let ghost imgs = metadata.images@;
    let mut pending = requested;
    let mut roots: Vec<RootEntry> = Vec::new();
    let mut failures: Vec<Failure> = Vec::new();
    let mut a: usize = 0;
    let n_images = metadata.images.len();
    proof {
        assert(imgs.skip(0) =~= imgs);
        assert(roots_view(roots@) =~= Seq::<(TripleV, Root)>::empty());
        assert(failures_view(failures@) =~= Seq::<(TripleV, XrefError)>::empty());
        assert(state_of(roots@, pending@, failures@) == ResState {
            roots: Seq::<(TripleV, Root)>::empty(),
            pending: pending_view(requested@),
            failures: Seq::<(TripleV, XrefError)>::empty(),
        });
    }
    while a < n_images
        invariant
            a <= n_images,
            n_images == imgs.len(),
            imgs == metadata.images@,
            fold_images(state_of(roots@, pending@, failures@), imgs.skip(a as int), *code) == goal,
        decreases n_images - a,
    {
        proof {
            assert(imgs.skip(a as int)[0] == imgs[a as int]);
            assert(imgs.skip(a as int).drop_first() =~= imgs.skip(a as int + 1));
        }
        let image = &metadata.images[a];
        let ghost tds = image.type_defs@;
        let mut b: usize = 0;
        let n_tds = image.type_defs.len();
        proof {
            assert(tds.skip(0) =~= tds);
        }
        while b < n_tds
            invariant
                b <= n_tds,
                n_tds == tds.len(),
                imgs == metadata.images@,
                a < imgs.len(),
                *image == imgs[a as int],
                tds == image.type_defs@,
                fold_images(
                    fold_typedefs(
                        state_of(roots@, pending@, failures@),
                        imgs[a as int].name@,
                        tds.skip(b as int),
                        *code,
                    ),
                    imgs.skip(a as int + 1),
                    *code,
                ) == goal,
            decreases n_tds - b,
        {
            proof {
                assert(tds.skip(b as int)[0] == tds[b as int]);
                assert(tds.skip(b as int).drop_first() =~= tds.skip(b as int + 1));
            }
            let td = &image.type_defs[b];
            let ghost ms = td.methods@;
            let mut c: usize = 0;
            let n_ms = td.methods.len();
            proof {
                assert(ms.skip(0) =~= ms);
            }
            while c < n_ms
                invariant
                    c <= n_ms,
                    n_ms == ms.len(),
                    imgs == metadata.images@,
                    a < imgs.len(),
                    *image == imgs[a as int],
                    b < tds.len(),
                    tds == image.type_defs@,
                    *td == tds[b as int],
                    ms == td.methods@,
                    fold_images(
                        fold_typedefs(
                            fold_methods(
                                state_of(roots@, pending@, failures@),
                                imgs[a as int].name@,
                                tds[b as int].namespace@,
                                tds[b as int].name@,
                                ms.skip(c as int),
                                *code,
                            ),
                            imgs[a as int].name@,
                            tds.skip(b as int + 1),
                            *code,
                        ),
                        imgs.skip(a as int + 1),
                        *code,
                    ) == goal,
                decreases n_ms - c,
            {
                proof {
                    assert(ms.skip(c as int)[0] == ms[c as int]);
                    assert(ms.skip(c as int).drop_first() =~= ms.skip(c as int + 1));
                }
                let m = &td.methods[c];
                let ghost st0 = state_of(roots@, pending@, failures@);
                let ghost tv = (
                    tds[b as int].namespace@,
                    tds[b as int].name@,
                    ms[c as int].name@,
                );
                match find_pending(&pending, td.namespace.as_str(), td.name.as_str(), m.name.as_str()) {
                    Some(p) => {
                        proof {
                            lemma_first_match_in_range(st0.pending, tv);
                        }
                        let ghost pend0 = pending@;
                        let consumed = pending.remove(p);
                        let ghost cv = consumed@;
                        proof {
                            lemma_pending_view_remove(pend0, p as int);
                            assert(cv == tv);
                        }
                        match Root::get(m.rid, image.name.as_str(), code) {
                            Ok(root) => {
                                let ghost roots0 = roots@;
                                roots.push(RootEntry { triple: consumed, root });
                                proof {
                                    assert(roots_view(roots@) =~= roots_view(roots0).push(
                                        (tv, root),
                                    ));
                                }
                            },
                            Err(e) => {
                                let ghost fails0 = failures@;
                                failures.push(Failure { triple: consumed, error: e });
                                proof {
                                    assert(failures_view(failures@) =~= failures_view(fails0).push(
                                        (tv, e),
                                    ));
                                }
                            },
                        }
                    },
                    None => {},
                }
                proof {
                    assert(state_of(roots@, pending@, failures@) == step_method(
                        st0,
                        imgs[a as int].name@,
                        tds[b as int].namespace@,
                        tds[b as int].name@,
                        ms[c as int],
                        *code,
                    ));
                }
                c = c + 1;
            }
            proof {
                assert(ms.skip(c as int) =~= Seq::<MethodDef>::empty());
            }
            b = b + 1;
        }
        proof {
            assert(tds.skip(b as int) =~= Seq::<TypeDef>::empty());
        }
        a = a + 1;
    }
    proof {
        assert(imgs.skip(a as int) =~= Seq::<Image>::empty());
    }
    Resolution { roots, unmatched: pending, failures }
}

/// Whether any method of the enumeration carries triple `t`.
pub open spec fn images_have_triple(images: Seq<Image>, t: TripleV) -> bool {
    exists|i: int, j: int, k: int|
        #![trigger images[i].type_defs@[j].methods@[k]]
        0 <= i < images.len() && 0 <= j < images[i].type_defs@.len() && 0 <= k
            < images[i].type_defs@[j].methods@.len() && (
        images[i].type_defs@[j].namespace@,
        images[i].type_defs@[j].name@,
        images[i].type_defs@[j].methods@[k].name@,
    ) == t
}

/// The fold never touches a triple that no method carries: it stays
/// pending, and neither the roots nor the failures mention it.
pub open spec fn untouched(st: ResState, t: TripleV) -> bool {
    &&& st.pending.contains(t)
    &&& forall|n: int| 0 <= n < st.roots.len() ==> (#[trigger] st.roots[n]).0 != t
    &&& forall|n: int| 0 <= n < st.failures.len() ==> (#[trigger] st.failures[n]).0 != t
}

proof fn lemma_step_method_misses(
    st: ResState,
    image_name: Seq<char>,
    ns: Seq<char>,
    cl: Seq<char>,
    m: MethodDef,
    code: CodeRegistration,
    t: TripleV,
)
    requires
        untouched(st, t),
        (ns, cl, m.name@) != t,
    ensures
        untouched(step_method(st, image_name, ns, cl, m, code), t),
{
    let tm = (ns, cl, m.name@);
    let p = first_match(st.pending, tm);
    if p >= 0 {
        lemma_first_match_in_range(st.pending, tm);
        let w = choose|w: int| 0 <= w < st.pending.len() && st.pending[w] == t;
        if w < p {
            assert(st.pending.remove(p)[w] == st.pending[w]);
        } else {
            assert(w != p);
            assert(st.pending.remove(p)[w - 1] == st.pending[w]);
        }
        let nxt = step_method(st, image_name, ns, cl, m, code);
        assert forall|n: int| 0 <= n < nxt.roots.len() implies (#[trigger] nxt.roots[n]).0
            != t by {
            if n < st.roots.len() {
                assert(nxt.roots[n] == st.roots[n]);
            }
        }
        assert forall|n: int| 0 <= n < nxt.failures.len() implies (#[trigger] nxt.failures[n]).0
            != t by {
            if n < st.failures.len() {
                assert(nxt.failures[n] == st.failures[n]);
            }
        }
    }
}

proof fn lemma_fold_methods_misses(
    st: ResState,
    image_name: Seq<char>,
    ns: Seq<char>,
    cl: Seq<char>,
    ms: Seq<MethodDef>,
    code: CodeRegistration,
    t: TripleV,
)
    requires
        untouched(st, t),
        forall|k: int| 0 <= k < ms.len() ==> (ns, cl, (#[trigger] ms[k]).name@) != t,
    ensures
        untouched(fold_methods(st, image_name, ns, cl, ms, code), t),
    decreases ms.len(),
{
    if ms.len() > 0 {
        lemma_step_method_misses(st, image_name, ns, cl, ms[0], code, t);
        assert forall|k: int| 0 <= k < ms.drop_first().len() implies (
        ns,
        cl,
        (#[trigger] ms.drop_first()[k]).name@,
        ) != t by {
            assert(ms.drop_first()[k] == ms[k + 1]);
        }
        lemma_fold_methods_misses(
            step_method(st, image_name, ns, cl, ms[0], code),
            image_name,
            ns,
            cl,
            ms.drop_first(),
            code,
            t,
        );
    }
}

proof fn lemma_fold_typedefs_misses(
    st: ResState,
    image_name: Seq<char>,
    tds: Seq<TypeDef>,
    code: CodeRegistration,
    t: TripleV,
)
    requires
        untouched(st, t),
        forall|j: int, k: int|
            #![trigger tds[j].methods@[k]]
            0 <= j < tds.len() && 0 <= k < tds[j].methods@.len() ==> (
                tds[j].namespace@,
                tds[j].name@,
                tds[j].methods@[k].name@,
            ) != t,
    ensures
        untouched(fold_typedefs(st, image_name, tds, code), t),
    decreases tds.len(),
{
    if tds.len() > 0 {
        assert forall|k: int| 0 <= k < tds[0].methods@.len() implies (
        tds[0].namespace@,
        tds[0].name@,
        (#[trigger] tds[0].methods@[k]).name@,
        ) != t by {}
        lemma_fold_methods_misses(
            st,
            image_name,
            tds[0].namespace@,
            tds[0].name@,
            tds[0].methods@,
            code,
            t,
        );
        assert forall|j: int, k: int|
            #![trigger tds.drop_first()[j].methods@[k]]
            0 <= j < tds.drop_first().len() && 0 <= k
                < tds.drop_first()[j].methods@.len() implies (
            tds.drop_first()[j].namespace@,
            tds.drop_first()[j].name@,
            tds.drop_first()[j].methods@[k].name@,
        ) != t by {
            assert(tds.drop_first()[j] == tds[j + 1]);
        }
        lemma_fold_typedefs_misses(
            fold_methods(st, image_name, tds[0].namespace@, tds[0].name@, tds[0].methods@, code),
            image_name,
            tds.drop_first(),
            code,
            t,
        );
    }
}

proof fn lemma_fold_images_misses(
    st: ResState,
    images: Seq<Image>,
    code: CodeRegistration,
    t: TripleV,
)
    requires
        untouched(st, t),
        !images_have_triple(images, t),
    ensures
        untouched(fold_images(st, images, code), t),
    decreases images.len(),
{
    if images.len() > 0 {
        assert forall|j: int, k: int|
            #![trigger images[0].type_defs@[j].methods@[k]]
            0 <= j < images[0].type_defs@.len() && 0 <= k
                < images[0].type_defs@[j].methods@.len() implies (
            images[0].type_defs@[j].namespace@,
            images[0].type_defs@[j].name@,
            images[0].type_defs@[j].methods@[k].name@,
        ) != t by {
            if (
                images[0].type_defs@[j].namespace@,
                images[0].type_defs@[j].name@,
                images[0].type_defs@[j].methods@[k].name@,
            ) == t {
                assert(images_have_triple(images, t));
            }
        }
        lemma_fold_typedefs_misses(st, images[0].name@, images[0].type_defs@, code, t);
        assert(!images_have_triple(images.drop_first(), t)) by {
            if images_have_triple(images.drop_first(), t) {
                let (i, j, k) = choose|i: int, j: int, k: int|
                    #![trigger images.drop_first()[i].type_defs@[j].methods@[k]]
                    0 <= i < images.drop_first().len() && 0 <= j
                        < images.drop_first()[i].type_defs@.len() && 0 <= k
                        < images.drop_first()[i].type_defs@[j].methods@.len() && (
                    images.drop_first()[i].type_defs@[j].namespace@,
                    images.drop_first()[i].type_defs@[j].name@,
                    images.drop_first()[i].type_defs@[j].methods@[k].name@,
                ) == t;
                assert(images.drop_first()[i] == images[i + 1]);
                assert(images_have_triple(images, t));
            }
        }
        lemma_fold_images_misses(
            fold_typedefs(st, images[0].name@, images[0].type_defs@, code),
            images.drop_first(),
            code,
            t,
        );
    }
}

/// Root uniqueness under oversupply: a requested triple that no method of
/// the metadata carries never appears in the root map (nor among the
/// recorded failures); resolution runs to completion and leaves that
/// triple pending, so that a named anchor on it later fails as an
/// unresolved anchor rather than aborting resolution.
pub proof fn lemma_root_uniqueness_oversupply(
    images: Seq<Image>,
    code: CodeRegistration,
    requested: Seq<TripleV>,
    t: TripleV,
)
    requires
        requested.contains(t),
        !images_have_triple(images, t),
    ensures
        untouched(spec_resolve(images, code, requested), t),
{
    let st0 = ResState { roots: Seq::empty(), pending: requested, failures: Seq::empty() };
    lemma_fold_images_misses(st0, images, code, t);
}

} // verus!
