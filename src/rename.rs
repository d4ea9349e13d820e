use vstd::prelude::*;
use crate::source::{LookupError, SourceText, Span, text_of};
use crate::ast::{Block, Item, ItemKind, block_bindings, item_bindings};
use crate::locate::locate_in_block;
use crate::plan::{PlanError, any_clash, ascending, SplicePosition, is_plan, plan_splices, splice_spans};
use crate::render::{
    lemma_identity_render, lemma_splices_monotone, rendered, rendered_upto, resume_at, splices_fit, str_after_splice,
};

verus! {

/// What a rename did.
#[derive(Clone, Debug, PartialEq, Eq)]
pub enum RewriteOutcome {
    /// No binding matched; the input stands as it is.
    Unchanged,
    /// The enclosing region, rebuilt with the bindings renamed.
    Rewritten(Vec<u8>),
}

/// Why a rename was abandoned. No output is produced in either case.
#[derive(Clone, Copy, Debug, PartialEq, Eq, Structural)]
pub enum CoreError {
    /// A span could not be resolved to text of the source.
    Lookup(LookupError),
    /// Two bindings' identifier spans conflict.
    Overlap,
}

/// Every span is a well-formed interval.
pub open spec fn all_wf(spans: Seq<Span>) -> bool {
    forall|k: int| 0 <= k < spans.len() ==> (#[trigger] spans[k]).wf()
}

/// Every span lies inside the enclosing region, which lies inside a text of
/// `len` bytes.
pub open spec fn spans_fit(len: nat, enclosing: Span, spans: Seq<Span>) -> bool {
    &&& forall|k: int| 0 <= k < spans.len() ==> (#[trigger] spans[k]).inside(enclosing)
    &&& enclosing.hi <= len
}

/// Every span covers exactly the bytes of `name`.
pub open spec fn spelled(src: Seq<u8>, spans: Seq<Span>, name: Seq<u8>) -> bool {
    forall|k: int| 0 <= k < spans.len() ==> text_of(src, (#[trigger] spans[k]).lo as int, spans[k].hi as int) == name
}

/// The outcome of renaming the bindings at `spans` from `old_name` to
/// `new_name` within `enclosing`: unchanged when there are none; a lookup error
/// when a span is malformed or does not fit the region and the source; an
/// overlap error when two conflict; otherwise the region rendered with the plan
/// for the spans.
pub open spec fn renames_as_stated(
    src: Seq<u8>,
    enclosing: Span,
    spans: Seq<Span>,
    old_name: Seq<u8>,
    new_name: Seq<u8>,
    r: Result<RewriteOutcome, CoreError>,
) -> bool {
    &&& spans.len() == 0 <==> (r matches Ok(RewriteOutcome::Unchanged))
    &&& spans.len() > 0 && !all_wf(spans) ==> (r matches Err(CoreError::Lookup(_)))
    &&& spans.len() > 0 && all_wf(spans) && any_clash(spans) ==> (r matches Err(CoreError::Overlap))
    &&& spans.len() > 0 && all_wf(spans) && !any_clash(spans) && !spans_fit(src.len(), enclosing, spans)
        ==> (r matches Err(CoreError::Lookup(_)))
    &&& spans.len() > 0 && all_wf(spans) && !any_clash(spans) && spans_fit(src.len(), enclosing, spans)
        ==> (r matches Ok(RewriteOutcome::Rewritten(_)))
    &&& r matches Ok(RewriteOutcome::Rewritten(t)) ==> exists|sp: Seq<SplicePosition>|
        is_plan(spans, new_name, sp) && t@ == rendered(src, enclosing, sp)
    &&& r matches Ok(RewriteOutcome::Rewritten(t)) ==> (old_name == new_name && spelled(src, spans, old_name)
        ==> t@ == text_of(src, enclosing.lo as int, enclosing.hi as int))
}

/// A plan fits the enclosing region exactly when the spans it was made from do.
pub proof fn lemma_plan_fits(len: nat, enclosing: Span, spans: Seq<Span>, new_text: Seq<u8>, sp: Seq<SplicePosition>)
    requires
        spans.len() > 0,
        is_plan(spans, new_text, sp),
    ensures
        splices_fit(len, enclosing, sp) <==> spans_fit(len, enclosing, spans),
{
    let n = sp.len();
    assert(splice_spans(sp)[0] == Span { lo: sp[0].keep_to, hi: sp[0].continue_from });
    assert(splice_spans(sp)[n - 1] == Span { lo: sp[n - 1].keep_to, hi: sp[n - 1].continue_from });
    if splices_fit(len, enclosing, sp) {
        assert forall|k: int| 0 <= k < spans.len() implies (#[trigger] spans[k]).inside(enclosing) by {
            assert(splice_spans(sp).contains(spans[k]));
            let m = choose|m: int| 0 <= m < sp.len() && splice_spans(sp)[m] == spans[k];
            assert(splice_spans(sp)[m] == Span { lo: sp[m].keep_to, hi: sp[m].continue_from });
            lemma_splices_monotone(sp, 0, m);
            lemma_splices_monotone(sp, m, n - 1);
        }
    }
    if spans_fit(len, enclosing, spans) {
        assert(spans.contains(splice_spans(sp)[0]));
        assert(spans.contains(splice_spans(sp)[n - 1]));
    }
}

/// Renames the `let` bindings named `old_name` in `body` to `new_name`, and
/// returns the enclosing region of `source` rebuilt around them.
///
/// Only each binding's declaring identifier is rewritten; later uses of it are
/// left as they are, and shadowing is not resolved. When nothing matches, the
/// input is left unchanged. Spans that do not resolve to text, and conflicting
/// spans, abort the rename before any output is made.
pub fn rename(source: &SourceText, body: &Block, enclosing: Span, old_name: &Vec<u8>, new_name: &Vec<u8>) -> (r: Result<
    RewriteOutcome,
    CoreError,
>)
    ensures
        renames_as_stated(source@, enclosing, block_bindings(*body, old_name@), old_name@, new_name@, r),
{
    let spans = locate_in_block(body, old_name);
    let mut k: usize = 0;
    while k < spans.len()
        invariant
            spans@ == block_bindings(*body, old_name@),
            k <= spans@.len(),
            forall|j: int| 0 <= j < k ==> (#[trigger] spans@[j]).wf(),
        decreases spans@.len() - k,
    {
        if spans[k].lo > spans[k].hi {
            assert(!spans@[k as int].wf());
            return Err(CoreError::Lookup(LookupError { span: spans[k] }));
        }
        k = k + 1;
    }
    let splices = match plan_splices(&spans, new_name) {
        Ok(sp) => sp,
        Err(PlanError::NoMatch) => {
            return Ok(RewriteOutcome::Unchanged);
        },
        Err(PlanError::Overlap) => {
            return Err(CoreError::Overlap);
        },
    };
    proof {
        lemma_plan_fits(source@.len(), enclosing, spans@, new_name@, splices@);
    }
    match str_after_splice(source, enclosing, &splices) {
        Ok(t) => {
            proof {
                if old_name@ == new_name@ && spelled(source@, spans@, old_name@) {
                    lemma_identity(source@, enclosing, spans@, new_name@, splices@);
                }
            }
            Ok(RewriteOutcome::Rewritten(t))
        },
        Err(e) => Err(CoreError::Lookup(e)),
    }
}

/// Renaming a name to itself reproduces the enclosing region byte for byte,
/// when each located identifier spells that name in the source.
pub proof fn lemma_identity(src: Seq<u8>, enclosing: Span, spans: Seq<Span>, name: Seq<u8>, sp: Seq<SplicePosition>)
    requires
        spans.len() > 0,
        is_plan(spans, name, sp),
        spans_fit(src.len(), enclosing, spans),
        spelled(src, spans, name),
    ensures
        rendered(src, enclosing, sp) == text_of(src, enclosing.lo as int, enclosing.hi as int),
{
    lemma_plan_fits(src.len(), enclosing, spans, name, sp);
    assert forall|m: int| 0 <= m < sp.len() implies (#[trigger] sp[m]).new_text@ == text_of(
        src,
        sp[m].keep_to as int,
        sp[m].continue_from as int,
    ) by {
        assert(spans.contains(splice_spans(sp)[m]));
        assert(splice_spans(sp)[m] == Span { lo: sp[m].keep_to, hi: sp[m].continue_from });
    }
    lemma_identity_render(src, enclosing, sp);
}

/// Renames the `let` bindings named `old_name` in a function item to
/// `new_name`, rebuilding the whole item's text. Any other item is left
/// unchanged.
pub fn rename_in_item(source: &SourceText, item: &Item, old_name: &Vec<u8>, new_name: &Vec<u8>) -> (r: Result<
    RewriteOutcome,
    CoreError,
>)
    ensures
        renames_as_stated(source@, item.span, item_bindings(*item, old_name@), old_name@, new_name@, r),
{
    match &item.kind {
        ItemKind::Fn { body } => rename(source, body, item.span, old_name, new_name),
        ItemKind::Other => Ok(RewriteOutcome::Unchanged),
    }
}

/// Two plans for the same spans agree splice by splice: the plan, and with it
/// the rewritten text, is determined by the spans and the new name.
pub proof fn lemma_plan_unique(
    spans: Seq<Span>,
    new_text: Seq<u8>,
    a: Seq<SplicePosition>,
    b: Seq<SplicePosition>,
    src: Seq<u8>,
    enclosing: Span,
)
    requires
        is_plan(spans, new_text, a),
        is_plan(spans, new_text, b),
    ensures
        splice_spans(a) == splice_spans(b),
        rendered(src, enclosing, a) == rendered(src, enclosing, b),
{
    let sa = splice_spans(a);
    let sb = splice_spans(b);
    assert forall|m: int| 0 <= m < sa.len() implies sa[m] == sb[m] by {
        lemma_same_at(spans, sa, sb, m);
    }
    assert(sa =~= sb);
    assert forall|m: int| 0 <= m < a.len() implies a[m].keep_to == b[m].keep_to && a[m].continue_from
        == b[m].continue_from && a[m].new_text@ == b[m].new_text@ by {
        assert(sa[m] == sb[m]);
    }
    lemma_same_rendering(src, enclosing.lo as int, a, b, a.len());
}

proof fn lemma_same_at(spans: Seq<Span>, sa: Seq<Span>, sb: Seq<Span>, m: int)
    requires
        sa.len() == spans.len(),
        sb.len() == spans.len(),
        ascending(sa),
        ascending(sb),
        forall|k: int| 0 <= k < spans.len() ==> sa.contains(#[trigger] spans[k]),
        forall|k: int| 0 <= k < spans.len() ==> sb.contains(#[trigger] spans[k]),
        forall|k: int| 0 <= k < sa.len() ==> spans.contains(#[trigger] sa[k]),
        forall|k: int| 0 <= k < sb.len() ==> spans.contains(#[trigger] sb[k]),
        0 <= m < sa.len(),
    ensures
        sa[m] == sb[m],
    decreases m,
{
    if m > 0 {
        lemma_same_at(spans, sa, sb, m - 1);
    }
    assert forall|k: int| 0 <= k < m implies sa[k] == sb[k] by {
        lemma_same_at(spans, sa, sb, k);
    }
    assert(spans.contains(sa[m]));
    let ka = choose|k: int| 0 <= k < spans.len() && spans[k] == sa[m];
    assert(sb.contains(spans[ka]));
    let j = choose|j: int| 0 <= j < sb.len() && sb[j] == sa[m];
    assert(spans.contains(sb[m]));
    let kb = choose|k: int| 0 <= k < spans.len() && spans[k] == sb[m];
    assert(sa.contains(spans[kb]));
    let i = choose|i: int| 0 <= i < sa.len() && sa[i] == sb[m];
    if i < m {
        assert(sa[i] == sb[i]);
    }
    if j < m {
        assert(sa[j] == sb[j]);
    }
}

proof fn lemma_same_rendering(src: Seq<u8>, lo: int, a: Seq<SplicePosition>, b: Seq<SplicePosition>, i: nat)
    requires
        a.len() == b.len(),
        i <= a.len(),
        forall|m: int| 0 <= m < a.len() ==> (#[trigger] a[m]).keep_to == b[m].keep_to && a[m].continue_from
            == b[m].continue_from && a[m].new_text@ == b[m].new_text@,
    ensures
        rendered_upto(src, lo, a, i) == rendered_upto(src, lo, b, i),
        resume_at(lo, a, i as int) == resume_at(lo, b, i as int),
    decreases i,
{
    if i > 0 {
        lemma_same_rendering(src, lo, a, b, (i - 1) as nat);
        assert(a[i - 1].keep_to == b[i - 1].keep_to);
    }
}

} // verus!
