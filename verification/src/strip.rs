//! Deleting comment spans from a text: what is left is the code outside the
//! comments.

use crate::collector::{span_models, CommentSpan};
use crate::lexical::{spans_ordered, SpanModel};
use vstd::prelude::*;

verus! {

/// The bytes of `src` from `from` on that lie outside the spans: the code
/// before the first span, then the code outside the other spans from the end
/// of the first on.
pub open spec fn code_outside(src: Seq<u8>, spans: Seq<SpanModel>, from: int) -> Seq<u8>
    decreases spans.len(),
{
    if spans.len() == 0 {
        src.subrange(from, src.len() as int)
    } else {
        src.subrange(from, spans[0].start) + code_outside(src, spans.drop_first(), spans[0].end)
    }
}

/// `src` with the byte range of every span deleted.
pub open spec fn stripped(src: Seq<u8>, spans: Seq<SpanModel>) -> Seq<u8> {
    code_outside(src, spans, 0)
}

/// Appends the bytes `from..to` of `source` to `out`.
fn copy_range(out: &mut Vec<u8>, source: &[u8], from: usize, to: usize)
    requires
        from <= to <= source@.len(),
    ensures
        final(out)@ == old(out)@ + source@.subrange(from as int, to as int),
{
    let mut i = from;
    while i < to
        invariant
            from <= i <= to <= source@.len(),
            out@ == old(out)@ + source@.subrange(from as int, i as int),
        decreases to - i,
    {
        out.push(source[i]);
        i = i + 1;
        assert(out@ =~= old(out)@ + source@.subrange(from as int, i as int));
    }
    assert(out@ =~= old(out)@ + source@.subrange(from as int, to as int));
}

/// Returns `source` without its comments: the byte range of every span is
/// deleted. The spans are those of `source`, in order and free of overlap,
/// as an extraction returns them.
pub fn strip_comments(source: &[u8], spans: &[CommentSpan]) -> (out: Vec<u8>)
    requires
        spans_ordered(span_models(spans@), source@),
    ensures
        out@ == stripped(source@, span_models(spans@)),
{
    let ghost all = span_models(spans@);
    let mut out: Vec<u8> = Vec::new();
    let mut cursor: usize = 0;
    let mut i: usize = 0;
    assert(all.skip(0) =~= all);
    while i < spans.len()
        invariant
            all == span_models(spans@),
            spans_ordered(all, source@),
            i <= spans@.len(),
            cursor <= source@.len(),
            i == 0 ==> cursor == 0,
            i > 0 ==> cursor == all[i - 1].end,
            out@ + code_outside(source@, all.skip(i as int), cursor as int) == stripped(
                source@,
                all,
            ),
        decreases spans@.len() - i,
    {
        let start = spans[i].start_offset();
        let end = spans[i].end_offset();
        proof {
            let rest = all.skip(i as int);
            assert(all[i as int] == spans@[i as int]@);
            assert(rest[0] == all[i as int]);
            assert(rest.drop_first() =~= all.skip(i + 1));
            if i > 0 {
                assert(all[i - 1].end <= all[i as int].start);
            }
        }
        let ghost before = out@;
        copy_range(&mut out, source, cursor, start);
        proof {
            let gap = source@.subrange(cursor as int, start as int);
            let tail = code_outside(source@, all.skip(i + 1), end as int);
            assert((before + gap) + tail =~= before + (gap + tail));
        }
        cursor = end;
        i = i + 1;
    }
    let ghost before = out@;
    copy_range(&mut out, source, cursor, source.len());
    proof {
        assert(all.skip(i as int).len() == 0);
    }
    out
}

} // verus!
