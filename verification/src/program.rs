//! The textual surface of a navigation request: the anchor grammar and the
//! navigation-program grammar.
//!
//! An anchor names the address a trace starts from: a metadata method
//! (`il2cpp:` namespace `:` class `:` method), a metadata invoker
//! (`invoker:` with the same triple), or an exported symbol, verbatim.
//! A program is one or more letter-digits pairs; the letter names an
//! instruction class through a fixed table (`L` Call, `B` Branch, `P`
//! AddressLoad) and the digits a 0-indexed occurrence. An unrecognized
//! letter, a letter without digits, or an occurrence too large for this
//! machine is malformed, rejected at parse time.

use vstd::prelude::*;
use vstd::string::StrSliceExecFns;

use crate::errors::XrefError;
use crate::ins::InsClass;
use crate::trace::Step;

verus! {

/// A (namespace, class, method) name triple. Comparison is structural,
/// over the character sequences.
#[derive(Debug, Clone)]
pub struct Triple {
    pub namespace: String,
    pub class: String,
    pub method: String,
}

impl View for Triple {
    type V = (Seq<char>, Seq<char>, Seq<char>);

    open spec fn view(&self) -> (Seq<char>, Seq<char>, Seq<char>) {
        (self.namespace@, self.class@, self.method@)
    }
}

/// Where a trace starts.
#[derive(Debug, Clone)]
pub enum Anchor {
    /// The native address of a metadata method.
    NamedMethod(Triple),
    /// The invoker-trampoline address of a metadata method.
    NamedInvoker(Triple),
    /// The address of an exported definition, by exact name.
    ExportedSymbol(String),
}

/// The mathematical form of an [`Anchor`].
pub enum AnchorSpec {
    Method((Seq<char>, Seq<char>, Seq<char>)),
    Invoker((Seq<char>, Seq<char>, Seq<char>)),
    Exported(Seq<char>),
}

impl View for Anchor {
    type V = AnchorSpec;

    open spec fn view(&self) -> AnchorSpec {
        match self {
            Anchor::NamedMethod(t) => AnchorSpec::Method(t@),
            Anchor::NamedInvoker(t) => AnchorSpec::Invoker(t@),
            Anchor::ExportedSymbol(s) => AnchorSpec::Exported(s@),
        }
    }
}

/// The first position at or after `from` holding a colon; the text's
/// length when there is none.
pub open spec fn find_colon(s: Seq<char>, from: int) -> int
    decreases s.len() - from,
{
    if !(0 <= from < s.len()) {
        s.len() as int
    } else if s[from] == ':' {
        from
    } else {
        find_colon(s, from + 1)
    }
}

pub proof fn lemma_find_colon_bounds(s: Seq<char>, from: int)
    ensures
        find_colon(s, from) <= s.len(),
        from <= s.len() ==> from <= find_colon(s, from),
    decreases s.len() - from,
{
    if 0 <= from < s.len() && s[from] != ':' {
        lemma_find_colon_bounds(s, from + 1);
    }
}

/// Which anchor a start string denotes. The string is a named-method or
/// named-invoker anchor exactly when it has three colons and the text
/// before the first one is the fixed scheme word; anything else names an
/// exported symbol, verbatim.
pub open spec fn anchor_of(s: Seq<char>) -> AnchorSpec {
    let i = find_colon(s, 0);
    let j = find_colon(s, i + 1);
    let k = find_colon(s, j + 1);
    let l = find_colon(s, k + 1);
    if i < s.len() && j < s.len() && k < s.len() && l == s.len() && s.take(i) == "il2cpp"@ {
        AnchorSpec::Method((s.subrange(i + 1, j), s.subrange(j + 1, k), s.subrange(k + 1, s.len() as int)))
    } else if i < s.len() && j < s.len() && k < s.len() && l == s.len() && s.take(i) == "invoker"@ {
        AnchorSpec::Invoker((s.subrange(i + 1, j), s.subrange(j + 1, k), s.subrange(k + 1, s.len() as int)))
    } else {
        AnchorSpec::Exported(s)
    }
}

/// Exec part of [`find_colon`].
fn find_colon_exec(s: &str, from: usize) -> (r: usize)
    ensures
        r as int == find_colon(s@, from as int),
{
    let n = s.unicode_len();
    let mut i = from;
    loop
        invariant
            s@.len() == n,
            find_colon(s@, from as int) == find_colon(s@, i as int),
            from <= i,
        decreases s@.len() - i,
    {
        if i >= n {
            return n;
        }
        if s.get_char(i) == ':' {
            return i;
        }
        i = i + 1;
    }
}

/// Whether two strings hold the same characters.
pub fn str_eq(a: &str, b: &str) -> (r: bool)
    ensures
        r == (a@ == b@),
{
    let na = a.unicode_len();
    let nb = b.unicode_len();
    if na != nb {
        return false;
    }
    let mut i: usize = 0;
    while i < na
        invariant
            a@.len() == na,
            b@.len() == nb,
            na == nb,
            i <= na,
            forall|t: int| 0 <= t < i ==> a@[t] == b@[t],
        decreases na - i,
    {
        if chars_differ(a.get_char(i), b.get_char(i)) {
            return false;
        }
        i = i + 1;
    }
    proof {
        assert(a@ =~= b@);
    }
    true
}

/// Whether two characters differ.
fn chars_differ(x: char, y: char) -> (r: bool)
    ensures
        r == (x != y),
{
    let xu = x as u32;
    let yu = y as u32;
    xu != yu
}

/// Parse a start string into its anchor. Every string parses; one that
/// does not fit the named-method or named-invoker shape names an exported
/// symbol.
pub fn parse_anchor(s: &str) -> (r: Anchor)
    ensures
        r@ == anchor_of(s@),
{
    let n = s.unicode_len();
    proof {
        lemma_find_colon_bounds(s@, 0);
    }
    let i = find_colon_exec(s, 0);
    if i >= n {
        return Anchor::ExportedSymbol(s.to_owned());
    }
    proof {
        lemma_find_colon_bounds(s@, i + 1);
    }
    let j = find_colon_exec(s, i + 1);
    if j >= n {
        return Anchor::ExportedSymbol(s.to_owned());
    }
    proof {
        lemma_find_colon_bounds(s@, j + 1);
    }
    let k = find_colon_exec(s, j + 1);
    if k >= n {
        return Anchor::ExportedSymbol(s.to_owned());
    }
    proof {
        lemma_find_colon_bounds(s@, k + 1);
    }
    let l = find_colon_exec(s, k + 1);
    if l < n {
        return Anchor::ExportedSymbol(s.to_owned());
    }
    let prefix = s.substring_char(0, i);
    proof {
        assert(prefix@ == s@.take(i as int));
    }
    let triple = Triple {
        namespace: s.substring_char(i + 1, j).to_owned(),
        class: s.substring_char(j + 1, k).to_owned(),
        method: s.substring_char(k + 1, n).to_owned(),
    };
    if str_eq(prefix, "il2cpp") {
        Anchor::NamedMethod(triple)
    } else if str_eq(prefix, "invoker") {
        Anchor::NamedInvoker(triple)
    } else {
        Anchor::ExportedSymbol(s.to_owned())
    }
}

/// Whether a character is a decimal digit.
pub open spec fn is_digit(c: char) -> bool {
    ('0' as u32) <= (c as u32) && (c as u32) <= ('9' as u32)
}

/// The fixed letter-to-class table of the program grammar.
pub open spec fn class_of_letter(c: char) -> Option<InsClass> {
    if c == 'L' {
        Some(InsClass::Call)
    } else if c == 'B' {
        Some(InsClass::Branch)
    } else if c == 'P' {
        Some(InsClass::AddressLoad)
    } else {
        None
    }
}

/// How many consecutive decimal digits stand at `from`.
pub open spec fn digit_run_len(s: Seq<char>, from: int) -> nat
    decreases s.len() - from,
{
    if 0 <= from < s.len() && is_digit(s[from]) {
        (1 + digit_run_len(s, from + 1)) as nat
    } else {
        0
    }
}

pub proof fn lemma_digit_run(s: Seq<char>, from: int)
    ensures
        digit_run_len(s, from) == 0 || from + digit_run_len(s, from) <= s.len(),
        forall|t: int| from <= t < from + digit_run_len(s, from) ==> is_digit(s[t]),
    decreases s.len() - from,
{
    if 0 <= from < s.len() && is_digit(s[from]) {
        lemma_digit_run(s, from + 1);
    }
}

/// The decimal value of a run of digit characters.
pub open spec fn digits_val(d: Seq<char>) -> int
    decreases d.len(),
{
    if d.len() == 0 {
        0
    } else {
        digits_val(d.drop_last()) * 10 + (d.last() as u32 - '0' as u32)
    }
}

pub proof fn lemma_digits_val_nonneg(s: Seq<char>, from: int, to: int)
    requires
        0 <= from <= to <= s.len(),
        forall|t: int| from <= t < to ==> is_digit(s[t]),
    ensures
        0 <= digits_val(s.subrange(from, to)),
    decreases to - from,
{
    if to > from {
        lemma_digits_val_nonneg(s, from, to - 1);
        assert(s.subrange(from, to).drop_last() =~= s.subrange(from, to - 1));
        assert(s.subrange(from, to).last() == s[to - 1]);
    }
}

pub proof fn lemma_digits_val_grows(s: Seq<char>, from: int, mid: int, to: int)
    requires
        0 <= from <= mid <= to <= s.len(),
        forall|t: int| from <= t < to ==> is_digit(s[t]),
    ensures
        digits_val(s.subrange(from, mid)) <= digits_val(s.subrange(from, to)),
    decreases to - mid,
{
    if to > mid {
        lemma_digits_val_grows(s, from, mid, to - 1);
        lemma_digits_val_nonneg(s, from, to - 1);
        assert(s.subrange(from, to).drop_last() =~= s.subrange(from, to - 1));
        assert(s.subrange(from, to).last() == s[to - 1]);
    }
}

/// The navigation-program grammar, from position `from` on: one or more
/// letter-digits pairs, where the letter must be in the class table and
/// the digits must fit this machine's occurrence counter; the empty text
/// is the empty program.
pub open spec fn spec_parse_program(s: Seq<char>, from: int) -> Result<Seq<Step>, XrefError>
    decreases s.len() - from,
    via spec_parse_program_decreases
{
    if !(0 <= from < s.len()) {
        Ok(Seq::empty())
    } else {
        match class_of_letter(s[from]) {
            None => Err(XrefError::ProgramSyntaxError),
            Some(class) => {
                let run = digit_run_len(s, from + 1);
                if run == 0 {
                    Err(XrefError::ProgramSyntaxError)
                } else {
                    let value = digits_val(s.subrange(from + 1, from + 1 + run));
                    if value > usize::MAX {
                        Err(XrefError::ProgramSyntaxError)
                    } else {
                        match spec_parse_program(s, from + 1 + run) {
                            Ok(rest) => Ok(
                                seq![Step { class, occurrence: value as usize }] + rest,
                            ),
                            Err(e) => Err(e),
                        }
                    }
                }
            },
        }
    }
}

#[via_fn]
proof fn spec_parse_program_decreases(s: Seq<char>, from: int) {
    if 0 <= from < s.len() {
        lemma_digit_run(s, from + 1);
    }
}

/// Exec part of [`digit_run_len`]: the position right after the run.
fn digit_run_end(s: &str, from: usize) -> (r: usize)
    requires
        from <= s@.len(),
    ensures
        r as int == from + digit_run_len(s@, from as int),
{
    let n = s.unicode_len();
    let mut i = from;
    loop
        invariant
            s@.len() == n,
            from <= i <= n,
            digit_run_len(s@, from as int) == i - from + digit_run_len(s@, i as int),
        decreases s@.len() - i,
    {
        if i >= n {
            return i;
        }
        let c = s.get_char(i);
        if (c as u32) < ('0' as u32) || (c as u32) > ('9' as u32) {
            return i;
        }
        i = i + 1;
    }
}

/// The decimal value of the digit run `[from, to)`, or nothing when it
/// exceeds this machine's occurrence counter.
fn digits_value(s: &str, from: usize, to: usize) -> (r: Option<usize>)
    requires
        from <= to <= s@.len(),
        forall|t: int| from <= t < to ==> is_digit(s@[t]),
    ensures
        (match r {
            Some(v) => digits_val(s@.subrange(from as int, to as int)) == v,
            None => digits_val(s@.subrange(from as int, to as int)) > usize::MAX,
        }),
{
    let mut i = from;
    let mut acc: usize = 0;
    while i < to
        invariant
            from <= i <= to <= s@.len(),
            forall|t: int| from <= t < to ==> is_digit(s@[t]),
            acc == digits_val(s@.subrange(from as int, i as int)),
        decreases to - i,
    {
        let c = s.get_char(i);
        let d = (c as u32) - ('0' as u32);
        proof {
            assert(s@.subrange(from as int, i + 1).drop_last() =~= s@.subrange(
                from as int,
                i as int,
            ));
        }
        if acc > usize::MAX / 10 || (acc == usize::MAX / 10 && d as usize > usize::MAX % 10) {
            proof {
                assert(digits_val(s@.subrange(from as int, i + 1)) > usize::MAX);
                lemma_digits_val_grows(s@, from as int, i + 1, to as int);
            }
            return None;
        }
        acc = acc * 10 + d as usize;
        i = i + 1;
    }
    Some(acc)
}

/// Exec part of [`class_of_letter`].
fn letter_class(c: char) -> (r: Option<InsClass>)
    ensures
        r == class_of_letter(c),
{
    match c {
        'L' => Some(InsClass::Call),
        'B' => Some(InsClass::Branch),
        'P' => Some(InsClass::AddressLoad),
        _ => None,
    }
}

/// Parse navigation-program text into its steps.
///
/// The result is exactly the grammar's reading of the text: the step
/// sequence on a well-formed program, and a syntax failure on an
/// unrecognized letter, a letter without digits, or an occurrence too
/// large for this machine. The empty text is the empty program.
pub fn parse_program(s: &str) -> (r: Result<Vec<Step>, XrefError>)
    ensures
        (match r {
            Ok(v) => spec_parse_program(s@, 0) == Ok::<Seq<Step>, XrefError>(v@),
            Err(e) => spec_parse_program(s@, 0) == Err::<Seq<Step>, XrefError>(e),
        }),
{
    let n = s.unicode_len();
    let mut steps: Vec<Step> = Vec::new();
    let mut pos: usize = 0;
    proof {
        if spec_parse_program(s@, 0) is Ok {
            assert(steps@ + spec_parse_program(s@, 0)->Ok_0 =~= spec_parse_program(s@, 0)->Ok_0);
        }
    }
    while pos < n
        invariant
            s@.len() == n,
            pos <= n,
            spec_parse_program(s@, 0) == (match spec_parse_program(s@, pos as int) {
                Ok(rest) => Ok::<Seq<Step>, XrefError>(steps@ + rest),
                Err(e) => Err::<Seq<Step>, XrefError>(e),
            }),
        decreases n - pos,
    {
        let c = s.get_char(pos);
        let class = match letter_class(c) {
            Some(cl) => cl,
            None => {
                return Err(XrefError::ProgramSyntaxError);
            },
        };
        proof {
            lemma_digit_run(s@, pos + 1);
        }
        let end = digit_run_end(s, pos + 1);
        if end == pos + 1 {
            return Err(XrefError::ProgramSyntaxError);
        }
        let value = match digits_value(s, pos + 1, end) {
            Some(v) => v,
            None => {
                return Err(XrefError::ProgramSyntaxError);
            },
        };
        let ghost steps0 = steps@;
        let ghost pos0 = pos as int;
        steps.push(Step { class, occurrence: value });
        pos = end;
        proof {
            let st = Step { class, occurrence: value };
            assert(steps@ =~= steps0 + seq![st]);
            assert(spec_parse_program(s@, pos0) == (match spec_parse_program(s@, pos as int) {
                Ok(rest) => Ok::<Seq<Step>, XrefError>(seq![st] + rest),
                Err(e) => Err::<Seq<Step>, XrefError>(e),
            }));
            if spec_parse_program(s@, pos as int) is Ok {
                let rest = spec_parse_program(s@, pos as int)->Ok_0;
                assert((steps0 + seq![st]) + rest =~= steps0 + (seq![st] + rest));
            }
        }
    }
    proof {
        assert(steps@ + Seq::<Step>::empty() =~= steps@);
    }
    Ok(steps)
}

} // verus!
