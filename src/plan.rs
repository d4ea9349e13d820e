use vstd::prelude::*;
use crate::source::Span;

verus! {

/// One planned edit: copy verbatim up to `keep_to`, emit `new_text`, resume
/// copying at `continue_from`.
#[derive(Clone, Debug, PartialEq, Eq)]
pub struct SplicePosition {
    pub keep_to: usize,
    pub new_text: Vec<u8>,
    pub continue_from: usize,
}

/// Why no splices were planned.
#[derive(Clone, Copy, Debug, PartialEq, Eq, Structural)]
pub enum PlanError {
    /// No binding matched: there is nothing to rewrite.
    NoMatch,
    /// Two replacement spans intersect or start at the same offset.
    Overlap,
}

/// Two replacement spans conflict: they share a byte, or they start at the
/// same offset (two edits at one place).
pub open spec fn clash(a: Span, b: Span) -> bool {
    (a.lo < b.hi && b.lo < a.hi) || a.lo == b.lo
}

/// Some two distinct entries of `s` conflict.
pub open spec fn any_clash(s: Seq<Span>) -> bool {
    exists|i: int, j: int| 0 <= i < s.len() && 0 <= j < s.len() && i != j && #[trigger] clash(s[i], s[j])
}

/// Strictly ascending by start offset.
pub open spec fn ascending(s: Seq<Span>) -> bool {
    forall|i: int, j: int| 0 <= i < j < s.len() ==> s[i].lo < s[j].lo
}

/// The region each splice replaces.
pub open spec fn splice_spans(sp: Seq<SplicePosition>) -> Seq<Span> {
    sp.map_values(|s: SplicePosition| Span { lo: s.keep_to, hi: s.continue_from })
}

/// Each splice is a well-formed interval, and consecutive splices are in
/// strictly increasing source order and do not overlap.
pub open spec fn ordered_splices(sp: Seq<SplicePosition>) -> bool {
    &&& forall|i: int| 0 <= i < sp.len() ==> #[trigger] sp[i].keep_to <= sp[i].continue_from
    &&& forall|i: int|
        0 <= i < sp.len() - 1 ==> #[trigger] sp[i].continue_from <= sp[i + 1].keep_to
            && sp[i].keep_to < sp[i + 1].keep_to
}

/// `sp` is the plan for `spans`: one splice per span, all writing `new_text`,
/// in strictly ascending source order and without overlap.
pub open spec fn is_plan(spans: Seq<Span>, new_text: Seq<u8>, sp: Seq<SplicePosition>) -> bool {
    &&& ordered_splices(sp)
    &&& ascending(splice_spans(sp))
    &&& sp.len() == spans.len()
    &&& forall|k: int| 0 <= k < spans.len() ==> splice_spans(sp).contains(#[trigger] spans[k])
    &&& forall|m: int| 0 <= m < sp.len() ==> spans.contains(#[trigger] splice_spans(sp)[m])
    &&& forall|m: int| 0 <= m < sp.len() ==> (#[trigger] sp[m]).new_text@ == new_text
}

/// Whether any two distinct entries of `spans` conflict.
pub fn has_clash(spans: &Vec<Span>) -> (r: bool)
    ensures
        r == any_clash(spans@),
{
    let n = spans.len();
    let mut i: usize = 0;
    while i < n
        invariant
            n == spans@.len(),
            i <= n,
            forall|a: int, b: int| 0 <= a < i && 0 <= b < n && a != b ==> !#[trigger] clash(spans@[a], spans@[b]),
        decreases n - i,
    {
        let mut j: usize = 0;
        while j < n
            invariant
                n == spans@.len(),
                i < n,
                j <= n,
                forall|a: int, b: int| 0 <= a < i && 0 <= b < n && a != b ==> !#[trigger] clash(spans@[a], spans@[b]),
                forall|b: int| 0 <= b < j && i != b ==> !#[trigger] clash(spans@[i as int], spans@[b]),
            decreases n - j,
        {
            let a = spans[i];
            let b = spans[j];
            if i != j && ((a.lo < b.hi && b.lo < a.hi) || a.lo == b.lo) {
                assert(clash(spans@[i as int], spans@[j as int]));
                return true;
            }
            j = j + 1;
        }
        i = i + 1;
    }
    false
}

/// The spans in strictly ascending order of start offset, each entry once.
fn sort_spans(spans: &Vec<Span>) -> (r: Vec<Span>)
    requires
        !any_clash(spans@),
    ensures
        ascending(r@),
        r@.len() == spans@.len(),
        forall|k: int| 0 <= k < spans@.len() ==> r@.contains(#[trigger] spans@[k]),
        forall|m: int| 0 <= m < r@.len() ==> spans@.contains(#[trigger] r@[m]),
{
    let n = spans.len();
    let mut out: Vec<Span> = Vec::new();
    let mut k: usize = 0;
    while k < n
        invariant
            n == spans@.len(),
            k <= n,
            !any_clash(spans@),
            ascending(out@),
            out@.len() == k,
            forall|j: int| 0 <= j < k ==> out@.contains(#[trigger] spans@[j]),
            forall|m: int| 0 <= m < out@.len() ==> #[trigger] spans@.take(k as int).contains(out@[m]),
        decreases n - k,
    {
        let s = spans[k];
        let mut pos: usize = 0;
        while pos < out.len() && out[pos].lo < s.lo
            invariant
                pos <= out@.len(),
                forall|m: int| 0 <= m < pos ==> #[trigger] out@[m].lo < s.lo,
            decreases out@.len() - pos,
        {
            pos = pos + 1;
        }
        proof {
            if pos < out@.len() {
                assert(spans@.take(k as int).contains(out@[pos as int]));
                let j = choose|j: int| 0 <= j < k && spans@.take(k as int)[j] == out@[pos as int];
                assert(!clash(spans@[j], spans@[k as int]));
            }
        }
        let ghost prev = out@;
        out.insert(pos, s);
        proof {
            assert(out@ == prev.insert(pos as int, s));
            assert forall|a: int, b: int| 0 <= a < b < out@.len() implies out@[a].lo < out@[b].lo by {
                if b < pos {
                } else if a > pos {
                } else if a == pos {
                    assert(out@[b] == prev[b - 1]);
                    assert(prev[pos as int].lo > s.lo);
                } else {
                    assert(out@[a] == prev[a]);
                }
            }
            assert forall|j: int| 0 <= j < k + 1 implies out@.contains(#[trigger] spans@[j]) by {
                if j == k {
                    assert(out@[pos as int] == s);
                } else {
                    let m = choose|m: int| 0 <= m < prev.len() && prev[m] == spans@[j];
                    if m < pos {
                        assert(out@[m] == prev[m]);
                    } else {
                        assert(out@[m + 1] == prev[m]);
                    }
                }
            }
            assert forall|m: int| 0 <= m < out@.len() implies #[trigger] spans@.take(k + 1).contains(out@[m]) by {
                if m == pos {
                    assert(spans@.take(k + 1)[k as int] == out@[m]);
                } else {
                    let pm = if m < pos { m } else { m - 1 };
                    assert(out@[m] == prev[pm]);
                    assert(spans@.take(k as int).contains(prev[pm]));
                    let j = choose|j: int| 0 <= j < k && spans@.take(k as int)[j] == prev[pm];
                    assert(spans@.take(k + 1)[j] == out@[m]);
                }
            }
        }
        k = k + 1;
    }
    proof {
        assert forall|m: int| 0 <= m < out@.len() implies spans@.contains(#[trigger] out@[m]) by {
            assert(spans@.take(n as int).contains(out@[m]));
            let j = choose|j: int| 0 <= j < n && spans@.take(n as int)[j] == out@[m];
            assert(spans@[j] == out@[m]);
        }
    }
    out
}

/// Plans one splice per replacement span, each writing `new_text`, in ascending
/// source order. An empty input is reported as `NoMatch`, and conflicting spans
/// as `Overlap`, before anything is planned.
pub fn plan_splices(spans: &Vec<Span>, new_text: &Vec<u8>) -> (r: Result<Vec<SplicePosition>, PlanError>)
    requires
        forall|i: int| 0 <= i < spans@.len() ==> (#[trigger] spans@[i]).wf(),
    ensures
        r matches Err(PlanError::NoMatch) <==> spans@.len() == 0,
        r matches Err(PlanError::Overlap) <==> spans@.len() > 0 && any_clash(spans@),
        r matches Ok(sp) ==> is_plan(spans@, new_text@, sp@),
{
    if spans.len() == 0 {
        return Err(PlanError::NoMatch);
    }
    if has_clash(spans) {
        return Err(PlanError::Overlap);
    }
    let sorted = sort_spans(spans);
    let mut out: Vec<SplicePosition> = Vec::new();
    let mut m: usize = 0;
    while m < sorted.len()
        invariant
            m <= sorted@.len(),
            out@.len() == m,
            forall|a: int| 0 <= a < m ==> (#[trigger] splice_spans(out@)[a]) == sorted@[a],
            forall|a: int| 0 <= a < m ==> (#[trigger] out@[a]).new_text@ == new_text@,
        decreases sorted@.len() - m,
    {
        let s = sorted[m];
        let ghost prev = out@;
        let t = new_text.clone();
        assert(t@ =~= new_text@);
        out.push(SplicePosition { keep_to: s.lo, new_text: t, continue_from: s.hi });
        proof {
            assert forall|a: int| 0 <= a < m + 1 implies (#[trigger] splice_spans(out@)[a]) == sorted@[a] by {
                assert(splice_spans(out@)[a] == Span { lo: out@[a].keep_to, hi: out@[a].continue_from });
                if a < m {
                    assert(out@[a] == prev[a]);
                    assert(splice_spans(prev)[a] == Span { lo: prev[a].keep_to, hi: prev[a].continue_from });
                }
            }
        }
        m = m + 1;
    }
    proof {
        assert(splice_spans(out@) =~= sorted@);
        assert forall|a: int| 0 <= a < sorted@.len() implies (#[trigger] sorted@[a]).wf() by {
            assert(spans@.contains(sorted@[a]));
        }
        assert forall|a: int| 0 <= a < out@.len() - 1 implies #[trigger] out@[a].continue_from <= out@[a + 1].keep_to
            && out@[a].keep_to < out@[a + 1].keep_to by {
            let x = sorted@[a];
            let y = sorted@[a + 1];
            assert(splice_spans(out@)[a] == x);
            assert(splice_spans(out@)[a + 1] == y);
            assert(spans@.contains(x));
            assert(spans@.contains(y));
            let i = choose|i: int| 0 <= i < spans@.len() && spans@[i] == x;
            let j = choose|j: int| 0 <= j < spans@.len() && spans@[j] == y;
            assert(!clash(spans@[i], spans@[j]));
            assert(y.wf());
        }
        assert forall|a: int| 0 <= a < out@.len() implies #[trigger] out@[a].keep_to <= out@[a].continue_from by {
            assert(splice_spans(out@)[a] == sorted@[a]);
        }
    }
    Ok(out)
}

impl crate::ast::Local {
    /// The splice that renames this local's own binding from `old_name` to
    /// `new_name`: one when its pattern is the identifier `old_name`, none
    /// otherwise. The initializer is not searched.
    pub fn rename_local(&self, old_name: &Vec<u8>, new_name: &Vec<u8>) -> (r: Vec<SplicePosition>)
        ensures
            r@.len() == crate::ast::pat_bindings(self.pat, old_name@).len(),
            splice_spans(r@) == crate::ast::pat_bindings(self.pat, old_name@),
            forall|m: int| 0 <= m < r@.len() ==> (#[trigger] r@[m]).new_text@ == new_name@,
    {
        let mut out: Vec<SplicePosition> = Vec::new();
        match &self.pat {
            crate::ast::Pat::Ident { name, span } => {
                if crate::locate::same_name(name, old_name) {
                    let t = new_name.clone();
                    assert(t@ =~= new_name@);
                    out.push(SplicePosition { keep_to: span.lo, new_text: t, continue_from: span.hi });
                }
            },
            crate::ast::Pat::Other { .. } => {},
        }
        assert(splice_spans(out@) =~= crate::ast::pat_bindings(self.pat, old_name@));
        out
    }
}

} // verus!
