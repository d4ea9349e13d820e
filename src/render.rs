use vstd::prelude::*;
use crate::source::{LookupError, SourceText, Span, text_of};
use crate::plan::{SplicePosition, ordered_splices};

verus! {

/// Where verbatim copying resumes after the first `i` splices.
pub open spec fn resume_at(lo: int, sp: Seq<SplicePosition>, i: int) -> int {
    if i <= 0 {
        lo
    } else {
        sp[i - 1].continue_from as int
    }
}

/// The output after the first `i` splices: each verbatim stretch up to a
/// splice's `keep_to`, followed by that splice's new text.
pub open spec fn rendered_upto(src: Seq<u8>, lo: int, sp: Seq<SplicePosition>, i: nat) -> Seq<u8>
    decreases i,
{
    if i == 0 {
        Seq::empty()
    } else {
        rendered_upto(src, lo, sp, (i - 1) as nat) + text_of(src, resume_at(lo, sp, i - 1), sp[i - 1].keep_to as int)
            + sp[i - 1].new_text@
    }
}

/// The enclosing region with every splice applied: the output after all
/// splices, then the verbatim tail up to the region's end.
pub open spec fn rendered(src: Seq<u8>, enclosing: Span, sp: Seq<SplicePosition>) -> Seq<u8> {
    rendered_upto(src, enclosing.lo as int, sp, sp.len()) + text_of(
        src,
        resume_at(enclosing.lo as int, sp, sp.len() as int),
        enclosing.hi as int,
    )
}

/// Every verbatim stretch of the rendering resolves to text: the splices start
/// inside the enclosing region and end before its end, which lies inside the
/// source.
pub open spec fn splices_fit(len: nat, enclosing: Span, sp: Seq<SplicePosition>) -> bool {
    &&& enclosing.lo <= sp[0].keep_to
    &&& sp.last().continue_from <= enclosing.hi
    &&& enclosing.hi <= len
}

/// Appends all of `t` to `out`.
fn append_bytes(out: &mut Vec<u8>, t: &Vec<u8>)
    ensures
        final(out)@ == old(out)@ + t@,
{
    let ghost start = out@;
    let mut i: usize = 0;
    while i < t.len()
        invariant
            i <= t@.len(),
            out@ == start + t@.take(i as int),
        decreases t@.len() - i,
    {
        out.push(t[i]);
        i = i + 1;
        assert(t@.take(i as int) =~= t@.take(i - 1).push(t@[i - 1]));
    }
    assert(t@.take(i as int) =~= t@);
}

/// Rebuilds the enclosing region with the splices applied, in one forward pass:
/// copy verbatim to each splice's `keep_to`, write its new text, resume at its
/// `continue_from`, and after the last splice copy verbatim to the region's end.
/// Fails with a lookup error, before any output, when a verbatim stretch does
/// not resolve to text of the source.
pub fn str_after_splice(source: &SourceText, enclosing: Span, splices: &Vec<SplicePosition>) -> (r: Result<
    Vec<u8>,
    LookupError,
>)
    requires
        splices@.len() > 0,
        ordered_splices(splices@),
    ensures
        r is Ok <==> splices_fit(source@.len(), enclosing, splices@),
        r matches Ok(t) ==> t@ == rendered(source@, enclosing, splices@),
{
    let n = splices.len();
    if enclosing.lo > splices[0].keep_to {
        return Err(LookupError { span: Span { lo: enclosing.lo, hi: splices[0].keep_to } });
    }
    if splices[n - 1].continue_from > enclosing.hi {
        return Err(LookupError { span: Span { lo: splices[n - 1].continue_from, hi: enclosing.hi } });
    }
    if enclosing.hi > source.len() {
        return Err(LookupError { span: enclosing });
    }
    proof {
        assert forall|a: int, b: int| 0 <= a <= b < n implies splices@[a].keep_to <= splices@[b].keep_to
            && splices@[a].continue_from <= splices@[b].continue_from by {
            lemma_splices_monotone(splices@, a, b);
        }
    }
    let mut out: Vec<u8> = Vec::new();
    let mut lo: usize = enclosing.lo;
    let mut i: usize = 0;
    while i < n
        invariant
            n == splices@.len(),
            n > 0,
            i <= n,
            ordered_splices(splices@),
            splices_fit(source@.len(), enclosing, splices@),
            forall|a: int, b: int| 0 <= a <= b < n ==> splices@[a].keep_to <= splices@[b].keep_to
                && splices@[a].continue_from <= splices@[b].continue_from,
            lo == resume_at(enclosing.lo as int, splices@, i as int),
            i < n ==> lo <= splices@[i as int].keep_to,
            out@ == rendered_upto(source@, enclosing.lo as int, splices@, i as nat),
        decreases n - i,
    {
        let splice = &splices[i];
        let gap = Span { lo, hi: splice.keep_to };
        match source.append_span(gap, &mut out) {
            Ok(()) => {},
            Err(e) => {
                return Err(e);
            },
        }
        append_bytes(&mut out, &splice.new_text);
        lo = splice.continue_from;
        i = i + 1;
    }
    let tail = Span { lo, hi: enclosing.hi };
    match source.append_span(tail, &mut out) {
        Ok(()) => {},
        Err(e) => {
            return Err(e);
        },
    }
    Ok(out)
}

/// Splices in ascending order have ascending boundaries.
pub proof fn lemma_splices_monotone(sp: Seq<SplicePosition>, a: int, b: int)
    requires
        ordered_splices(sp),
        0 <= a <= b < sp.len(),
    ensures
        sp[a].keep_to <= sp[b].keep_to,
        sp[a].continue_from <= sp[b].continue_from,
        a < b ==> sp[a].continue_from <= sp[b].keep_to,
    decreases b - a,
{
    if a < b {
        lemma_splices_monotone(sp, a + 1, b);
        assert(sp[a + 1].keep_to <= sp[a + 1].continue_from);
    }
}

/// Where the verbatim stretch after the first `i` splices stops: at the next
/// splice, or at the end of the enclosing region after the last one.
pub open spec fn stop_at(enclosing: Span, sp: Seq<SplicePosition>, i: int) -> int {
    if i < sp.len() {
        sp[i].keep_to as int
    } else {
        enclosing.hi as int
    }
}

/// The output after fewer splices is a prefix of the output after more.
pub proof fn lemma_rendered_prefix(src: Seq<u8>, lo: int, sp: Seq<SplicePosition>, i: nat, j: nat)
    requires
        i <= j,
    ensures
        rendered_upto(src, lo, sp, i).len() <= rendered_upto(src, lo, sp, j).len(),
        rendered_upto(src, lo, sp, j).subrange(0, rendered_upto(src, lo, sp, i).len() as int)
            == rendered_upto(src, lo, sp, i),
    decreases j - i,
{
    if i < j {
        lemma_rendered_prefix(src, lo, sp, i, (j - 1) as nat);
        let a = rendered_upto(src, lo, sp, i);
        let b = rendered_upto(src, lo, sp, (j - 1) as nat);
        let c = rendered_upto(src, lo, sp, j);
        assert(c.subrange(0, a.len() as int) =~= b.subrange(0, a.len() as int));
    } else {
        assert(rendered_upto(src, lo, sp, j).subrange(0, rendered_upto(src, lo, sp, i).len() as int)
            =~= rendered_upto(src, lo, sp, i));
    }
}

/// Locality: every byte outside the replaced regions is copied unchanged. The
/// byte at `p` of the verbatim stretch that follows the first `i` splices
/// appears in the output at the same distance from where that stretch begins,
/// right after the output of those `i` splices.
pub proof fn lemma_locality(src: Seq<u8>, enclosing: Span, sp: Seq<SplicePosition>, i: int, p: int)
    requires
        sp.len() > 0,
        ordered_splices(sp),
        splices_fit(src.len(), enclosing, sp),
        0 <= i <= sp.len(),
        resume_at(enclosing.lo as int, sp, i) <= p < stop_at(enclosing, sp, i),
    ensures
        rendered_upto(src, enclosing.lo as int, sp, i as nat).len() + (p - resume_at(enclosing.lo as int, sp, i))
            < rendered(src, enclosing, sp).len(),
        rendered(src, enclosing, sp)[rendered_upto(src, enclosing.lo as int, sp, i as nat).len() + (p - resume_at(
            enclosing.lo as int,
            sp,
            i,
        ))] == src[p],
{
    let n = sp.len();
    let lo = enclosing.lo as int;
    let r = resume_at(lo, sp, i);
    let a = rendered_upto(src, lo, sp, i as nat);
    let full = rendered(src, enclosing, sp);
    let last = rendered_upto(src, lo, sp, n);
    lemma_splices_monotone(sp, 0, n - 1);
    if i < n {
        lemma_splices_monotone(sp, i, n - 1);
        if i > 0 {
            lemma_splices_monotone(sp, i - 1, i);
        }
        let b = rendered_upto(src, lo, sp, (i + 1) as nat);
        assert(b == a + text_of(src, r, sp[i].keep_to as int) + sp[i].new_text@);
        assert(b[a.len() + (p - r)] == src[p]);
        lemma_rendered_prefix(src, lo, sp, (i + 1) as nat, n);
        assert(full.subrange(0, last.len() as int) =~= last);
        assert(last.subrange(0, b.len() as int) == b);
        assert(full[a.len() + (p - r)] == last[a.len() + (p - r)]);
        assert(last[a.len() + (p - r)] == b[a.len() + (p - r)]);
    } else {
        if n > 0 {
            assert(r == sp[n - 1].continue_from);
        }
        assert(full == last + text_of(src, r, enclosing.hi as int));
    }
}

/// Splices that each write back the very bytes they replace leave the enclosing
/// region as it was.
pub proof fn lemma_identity_render(src: Seq<u8>, enclosing: Span, sp: Seq<SplicePosition>)
    requires
        sp.len() > 0,
        ordered_splices(sp),
        splices_fit(src.len(), enclosing, sp),
        forall|m: int|
            0 <= m < sp.len() ==> (#[trigger] sp[m]).new_text@ == text_of(
                src,
                sp[m].keep_to as int,
                sp[m].continue_from as int,
            ),
    ensures
        rendered(src, enclosing, sp) == text_of(src, enclosing.lo as int, enclosing.hi as int),
{
    let n = sp.len();
    let lo = enclosing.lo as int;
    lemma_splices_monotone(sp, 0, n - 1);
    lemma_identity_upto(src, enclosing, sp, n);
    assert(resume_at(lo, sp, n as int) == sp[n - 1].continue_from);
    assert(rendered(src, enclosing, sp) =~= text_of(src, lo, enclosing.hi as int));
}

proof fn lemma_identity_upto(src: Seq<u8>, enclosing: Span, sp: Seq<SplicePosition>, i: nat)
    requires
        sp.len() > 0,
        i <= sp.len(),
        ordered_splices(sp),
        splices_fit(src.len(), enclosing, sp),
        forall|m: int|
            0 <= m < sp.len() ==> (#[trigger] sp[m]).new_text@ == text_of(
                src,
                sp[m].keep_to as int,
                sp[m].continue_from as int,
            ),
    ensures
        enclosing.lo <= resume_at(enclosing.lo as int, sp, i as int) <= src.len(),
        rendered_upto(src, enclosing.lo as int, sp, i) == text_of(
            src,
            enclosing.lo as int,
            resume_at(enclosing.lo as int, sp, i as int),
        ),
    decreases i,
{
    let n = sp.len();
    let lo = enclosing.lo as int;
    lemma_splices_monotone(sp, 0, n - 1);
    if i == 0 {
        assert(text_of(src, lo, lo) =~= Seq::<u8>::empty());
    } else {
        lemma_identity_upto(src, enclosing, sp, (i - 1) as nat);
        let m = i - 1;
        lemma_splices_monotone(sp, m, n - 1);
        lemma_splices_monotone(sp, 0, m);
        if m > 0 {
            lemma_splices_monotone(sp, m - 1, m);
        }
        let r = resume_at(lo, sp, m);
        assert(text_of(src, lo, r) + text_of(src, r, sp[m].keep_to as int) + text_of(
            src,
            sp[m].keep_to as int,
            sp[m].continue_from as int,
        ) =~= text_of(src, lo, sp[m].continue_from as int));
    }
}

} // verus!
