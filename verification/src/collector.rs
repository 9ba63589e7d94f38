//! Comment spans and the collector that assembles them from begin and end
//! events.

use crate::error::ScanError;
use crate::grammar::CommentKind;
use crate::lexical::{span_of, spans_ordered, SpanModel};
use vstd::prelude::*;
use vstd::slice::{slice_subrange, slice_to_vec};

verus! {

/// One comment of the source text: its kind, its byte range with the end
/// exclusive, and its bytes with the delimiters.
#[derive(Clone, Debug, PartialEq, Eq)]
pub struct CommentSpan {
    kind: CommentKind,
    start_offset: usize,
    end_offset: usize,
    text: Vec<u8>,
}

impl View for CommentSpan {
    type V = SpanModel;

    closed spec fn view(&self) -> SpanModel {
        SpanModel {
            kind: self.kind,
            start: self.start_offset as int,
            end: self.end_offset as int,
            text: self.text@,
        }
    }
}

impl CommentSpan {
    pub fn kind(&self) -> (k: CommentKind)
        ensures
            k == self@.kind,
    {
        self.kind
    }

    pub fn start_offset(&self) -> (o: usize)
        ensures
            o == self@.start,
    {
        self.start_offset
    }

    pub fn end_offset(&self) -> (o: usize)
        ensures
            o == self@.end,
    {
        self.end_offset
    }

    pub fn text(&self) -> (t: &[u8])
        ensures
            t@ == self@.text,
    {
        self.text.as_slice()
    }
}

/// The spans of a list as mathematical values.
pub open spec fn span_models(spans: Seq<CommentSpan>) -> Seq<SpanModel> {
    Seq::new(spans.len(), |i: int| spans[i]@)
}

/// The end of the last span of the list, or 0 for the empty list.
pub open spec fn end_of_last(spans: Seq<SpanModel>) -> int {
    if spans.len() == 0 {
        0
    } else {
        spans.last().end
    }
}

/// Assembles comment spans over one source text. A begin event opens a
/// pending span, the next end event finishes it. The finished spans never
/// overlap and stand in the order of their starts.
pub struct SpanCollector<'a> {
    source: &'a [u8],
    finished: Vec<CommentSpan>,
    pending: Option<(CommentKind, usize)>,
}

impl<'a> SpanCollector<'a> {
    #[verifier::type_invariant]
    spec fn consistent(self) -> bool {
        &&& spans_ordered(span_models(self.finished@), self.source@)
        &&& match self.pending {
            Some((_, start)) => end_of_last(span_models(self.finished@)) <= start
                <= self.source@.len(),
            None => true,
        }
    }

    /// The text the spans are taken from.
    pub closed spec fn source(&self) -> Seq<u8> {
        self.source@
    }

    /// The spans finished so far.
    pub closed spec fn finished(&self) -> Seq<SpanModel> {
        span_models(self.finished@)
    }

    /// The kind and start of the span that is open, if one is.
    pub closed spec fn pending(&self) -> Option<(CommentKind, int)> {
        match self.pending {
            Some((kind, start)) => Some((kind, start as int)),
            None => None,
        }
    }

    /// Whether a span may begin at `offset`: none is open, and `offset` lies
    /// in the text at or after the end of the last finished span.
    pub open spec fn may_begin(&self, offset: int) -> bool {
        &&& self.pending() is None
        &&& end_of_last(self.finished()) <= offset <= self.source().len()
    }

    /// Whether the open span may end at `offset`: one is open, and `offset`
    /// lies in the text after its start.
    pub open spec fn may_end(&self, offset: int) -> bool {
        &&& self.pending() matches Some((_, start))
        &&& start < offset <= self.source().len()
    }

    /// The open span, ended at `offset`.
    pub open spec fn pending_until(&self, offset: int) -> SpanModel
        recommends
            self.pending() is Some,
    {
        let (kind, start) = self.pending().unwrap();
        span_of(self.source(), kind, start, offset)
    }

    /// A collector over `source` with no span finished and none open.
    pub fn new(source: &'a [u8]) -> (c: Self)
        ensures
            c.source() == source@,
            c.finished() == Seq::<SpanModel>::empty(),
            c.pending() is None,
    {
        let c = SpanCollector { source, finished: Vec::new(), pending: None };
        assert(span_models(c.finished@) =~= Seq::<SpanModel>::empty());
        c
    }

    /// Opens a span of kind `kind` at `offset`. Fails with `UnbalancedSpan`,
    /// and changes nothing, where a span is already open or `offset` is no
    /// place for a span to begin.
    pub fn on_span_begin(&mut self, kind: CommentKind, offset: usize) -> (r: Result<
        (),
        ScanError,
    >)
        ensures
            final(self).source() == old(self).source(),
            final(self).finished() == old(self).finished(),
            old(self).may_begin(offset as int) ==> r is Ok && final(self).pending() == Some(
                (kind, offset as int),
            ),
            !old(self).may_begin(offset as int) ==> r == Err::<(), ScanError>(
                ScanError::UnbalancedSpan,
            ) && final(self).pending() == old(self).pending(),
    {
        proof {
            use_type_invariant(&*self);
        }
        let n = self.finished.len();
        let floor = if n == 0 {
            0
        } else {
            self.finished[n - 1].end_offset
        };
        if self.pending.is_some() || offset < floor || offset > self.source.len() {
            return Err(ScanError::UnbalancedSpan);
        }
        self.pending = Some((kind, offset));
        Ok(())
    }

    /// Finishes the open span at `offset` and appends it, with its bytes, to
    /// the finished spans. Fails with `UnbalancedSpan`, and changes nothing,
    /// where no span is open or `offset` is no place for the open span to
    /// end.
    pub fn on_span_end(&mut self, offset: usize) -> (r: Result<(), ScanError>)
        ensures
            final(self).source() == old(self).source(),
            old(self).may_end(offset as int) ==> r is Ok && final(self).pending() is None
                && final(self).finished() == old(self).finished().push(
                old(self).pending_until(offset as int),
            ),
            !old(self).may_end(offset as int) ==> r == Err::<(), ScanError>(
                ScanError::UnbalancedSpan,
            ) && final(self).pending() == old(self).pending() && final(self).finished() == old(
                self,
            ).finished(),
    {
        proof {
            use_type_invariant(&*self);
        }
        match self.pending {
            Some((kind, start)) => {
                if offset <= start || offset > self.source.len() {
                    return Err(ScanError::UnbalancedSpan);
                }
                let text = slice_to_vec(slice_subrange(self.source, start, offset));
                let span = CommentSpan { kind, start_offset: start, end_offset: offset, text };
                let ghost before = span_models(self.finished@);
                let mut taken = SpanCollector::new(self.source);
                core::mem::swap(self, &mut taken);
                let SpanCollector { source, finished, pending: _ } = taken;
                let mut finished = finished;
                finished.push(span);
                proof {
                    let after = span_models(finished@);
                    assert(after =~= before.push(span@));
                    assert(span@ == span_of(source@, kind, start as int, offset as int));
                    assert forall|i: int, j: int| 0 <= i < j < after.len() implies (
                    #[trigger] after[i]).end <= (#[trigger] after[j]).start by {
                        if j == after.len() - 1 {
                            if i < before.len() - 1 {
                                assert(before[i].end <= before[before.len() - 1].start);
                            }
                        } else {
                            assert(before[i].end <= before[j].start);
                        }
                    }
                }
                *self = SpanCollector { source, finished, pending: None };
                Ok(())
            },
            None => Err(ScanError::UnbalancedSpan),
        }
    }

    /// The finished spans, in the order of their starts. A span that is
    /// still open is left out.
    pub fn into_spans(self) -> (spans: Vec<CommentSpan>)
        ensures
            span_models(spans@) == self.finished(),
            spans_ordered(span_models(spans@), self.source()),
    {
        proof {
            use_type_invariant(&self);
        }
        self.finished
    }
}

} // verus!
