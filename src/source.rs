use vstd::prelude::*;

verus! {

/// A half-open interval `[lo, hi)` of byte offsets into a source text.
#[derive(Clone, Copy, Debug, PartialEq, Eq, Structural)]
pub struct Span {
    pub lo: usize,
    pub hi: usize,
}

impl Span {
    /// The span is a well-formed interval.
    pub open spec fn wf(self) -> bool {
        self.lo <= self.hi
    }

    /// The span lies inside a text of `len` bytes.
    pub open spec fn within(self, len: nat) -> bool {
        self.lo <= self.hi && self.hi <= len
    }

    /// `self` lies inside `outer`.
    pub open spec fn inside(self, outer: Span) -> bool {
        outer.lo <= self.lo && self.lo <= self.hi && self.hi <= outer.hi
    }

    pub fn new(lo: usize, hi: usize) -> (r: Span)
        ensures
            r.lo == lo,
            r.hi == hi,
    {
        Span { lo, hi }
    }
}

/// A span could not be resolved to literal text.
#[derive(Clone, Copy, Debug, PartialEq, Eq, Structural)]
pub struct LookupError {
    pub span: Span,
}

/// The bytes that `[lo, hi)` covers.
pub open spec fn text_of(src: Seq<u8>, lo: int, hi: int) -> Seq<u8> {
    src.subrange(lo, hi)
}

/// An immutable source buffer that spans index into.
#[derive(Clone, Debug)]
pub struct SourceText {
    pub bytes: Vec<u8>,
}

impl SourceText {
    pub open spec fn view(&self) -> Seq<u8> {
        self.bytes@
    }

    pub fn new(bytes: Vec<u8>) -> (r: SourceText)
        ensures
            r@ == bytes@,
    {
        SourceText { bytes }
    }

    pub fn len(&self) -> (r: usize)
        ensures
            r == self@.len(),
    {
        self.bytes.len()
    }

    /// Appends the bytes of `span` to `out`, or reports the span as unresolvable
    /// when it is not a well-formed interval inside the text.
    pub fn append_span(&self, span: Span, out: &mut Vec<u8>) -> (r: Result<(), LookupError>)
        ensures
            r is Ok <==> span.within(self@.len()),
            r is Ok ==> final(out)@ == old(out)@ + text_of(self@, span.lo as int, span.hi as int),
            r is Err ==> final(out)@ == old(out)@ && r == Err::<(), LookupError>(LookupError { span }),
    {
        if span.lo > span.hi || span.hi > self.bytes.len() {
            return Err(LookupError { span });
        }
        let ghost start = out@;
        let mut i: usize = span.lo;
        while i < span.hi
            invariant
                span.lo <= i <= span.hi <= self@.len(),
                out@ == start + text_of(self@, span.lo as int, i as int),
            decreases span.hi - i,
        {
            out.push(self.bytes[i]);
            i = i + 1;
            assert(text_of(self@, span.lo as int, i as int) =~= text_of(self@, span.lo as int, (i - 1) as int).push(self@[i - 1]));
        }
        Ok(())
    }

    /// The text that `span` covers, or a lookup error when it lies outside the text.
    pub fn span_to_text(&self, span: Span) -> (r: Result<Vec<u8>, LookupError>)
        ensures
            r is Ok <==> span.within(self@.len()),
            r matches Ok(t) ==> t@ == text_of(self@, span.lo as int, span.hi as int),
            r matches Err(e) ==> e.span == span,
    {
        let mut out: Vec<u8> = Vec::new();
        match self.append_span(span, &mut out) {
            Ok(()) => {
                assert(out@ =~= text_of(self@, span.lo as int, span.hi as int));
                Ok(out)
            },
            Err(e) => Err(e),
        }
    }
}

} // verus!
