//! What holds of every scan: the spans are ordered, literals shield what
//! they hold, and the code that is left when the comments are deleted holds
//! no comment.

use crate::grammar::{registered, rust_grammar, GrammarModel};
use crate::lexical::{code_position, comment_at, comment_spans, comment_spans_from,
    comment_unterminated, ends_in_block_comment, lemma_best_open, lemma_literal_end_bounds,
    lemma_token_end_bounds, literal_end, opens_at, reaches, span_of, spans_ordered, token_at,
    token_end, unterminated_from, SpanModel, ESCAPE};
use crate::strip::{code_outside, stripped};
use vstd::prelude::*;

verus! {

/// The spans from `pos` on are ordered and none starts before `pos`.
pub proof fn lemma_spans_from_ordered(src: Seq<u8>, g: GrammarModel, pos: int)
    requires
        0 <= pos <= src.len(),
    ensures
        spans_ordered(comment_spans_from(src, g, pos), src),
        forall|i: int|
            0 <= i < comment_spans_from(src, g, pos).len() ==> pos <= (
            #[trigger] comment_spans_from(src, g, pos)[i]).start,
    decreases src.len() - pos,
{
    if pos < src.len() {
        let end = token_end(src, g, pos);
        lemma_token_end_bounds(src, g, pos);
        lemma_spans_from_ordered(src, g, end);
        let rest = comment_spans_from(src, g, end);
        let all = comment_spans_from(src, g, pos);
        match comment_at(src, g, pos) {
            Some(d) => {
                let first = span_of(src, g.delimiters[d].kind, pos, end);
                assert(all == seq![first] + rest);
                assert forall|i: int| 0 <= i < all.len() implies {
                    &&& pos <= (#[trigger] all[i]).start < all[i].end <= src.len()
                    &&& all[i].text == src.subrange(all[i].start, all[i].end)
                } by {
                    if i > 0 {
                        assert(all[i] == rest[i - 1]);
                    }
                }
                assert forall|i: int, j: int| 0 <= i < j < all.len() implies (
                #[trigger] all[i]).end <= (#[trigger] all[j]).start by {
                    assert(all[j] == rest[j - 1]);
                    if i > 0 {
                        assert(all[i] == rest[i - 1]);
                    }
                }
            },
            None => {},
        }
    }
}

/// The spans of a text never overlap, and each ends at or before the start
/// of the next: they are sorted by their starts. Each is a non-empty range of
/// the text and carries exactly its bytes.
pub proof fn lemma_spans_are_ordered(src: Seq<u8>, g: GrammarModel)
    ensures
        spans_ordered(comment_spans(src, g), src),
{
    lemma_spans_from_ordered(src, g, 0);
}

/// Some open token of the table stands at the start of the first `k` bytes
/// of the open token of delimiter `i` followed by the open token of
/// delimiter `j`.
pub open spec fn joins_into_open(g: GrammarModel, i: int, j: int, k: int) -> bool {
    exists|m: int|
        0 <= m < g.delimiters.len() && token_at(
            g.delimiters[i].open.subrange(0, k) + g.delimiters[j].open,
            0,
            #[trigger] g.delimiters[m].open,
        )
}

/// Wherever a part of an open token, its first bytes but not all of them, is
/// followed by an open token, some open token stands at the start of the two
/// together. Under such a grammar code never ends with the start of an open
/// token where a comment follows, so deleting a comment cannot assemble an
/// open token from the bytes around it. A grammar whose open tokens are all
/// one byte long is junction-safe.
pub open spec fn junction_safe(g: GrammarModel) -> bool {
    forall|i: int, j: int, k: int|
        0 <= i < g.delimiters.len() && 0 <= j < g.delimiters.len() && 1 <= k
            < g.delimiters[i].open.len() ==> #[trigger] joins_into_open(g, i, j, k)
}

/// The code of `src` from `pos` on, where `pos` is read as code: what is
/// left of it when the comments are deleted.
pub open spec fn code_from(src: Seq<u8>, g: GrammarModel, pos: int) -> Seq<u8> {
    code_outside(src, comment_spans_from(src, g, pos), pos)
}

/// Code before the first span can be split off.
proof fn lemma_code_outside_split(src: Seq<u8>, spans: Seq<SpanModel>, from: int, mid: int)
    requires
        0 <= from <= mid <= src.len(),
        spans.len() > 0 ==> mid <= spans[0].start <= src.len(),
    ensures
        code_outside(src, spans, from) == src.subrange(from, mid) + code_outside(src, spans, mid),
{
    if spans.len() == 0 {
        assert(src.subrange(from, src.len() as int) =~= src.subrange(from, mid) + src.subrange(
            mid,
            src.len() as int,
        ));
    } else {
        let rest = code_outside(src, spans.drop_first(), spans[0].end);
        assert(src.subrange(from, spans[0].start) + rest =~= src.subrange(from, mid) + (
        src.subrange(mid, spans[0].start) + rest));
    }
}

/// The code from a token on: the token itself unless it is a comment, then
/// the code from its end on.
proof fn lemma_code_from_unfold(src: Seq<u8>, g: GrammarModel, pos: int)
    requires
        0 <= pos < src.len(),
    ensures
        pos < token_end(src, g, pos) <= src.len(),
        code_from(src, g, pos) == if comment_at(src, g, pos) is Some {
            code_from(src, g, token_end(src, g, pos))
        } else {
            src.subrange(pos, token_end(src, g, pos)) + code_from(src, g, token_end(src, g, pos))
        },
{
    let end = token_end(src, g, pos);
    lemma_token_end_bounds(src, g, pos);
    lemma_spans_from_ordered(src, g, end);
    let rest = comment_spans_from(src, g, end);
    let all = comment_spans_from(src, g, pos);
    match comment_at(src, g, pos) {
        Some(d) => {
            assert(all.drop_first() =~= rest);
            assert(src.subrange(pos, pos) + code_from(src, g, end) =~= code_from(src, g, end));
        },
        None => {
            lemma_code_outside_split(src, rest, pos, end);
        },
    }
}

/// No code is left at the end of the input.
proof fn lemma_code_from_end(src: Seq<u8>, g: GrammarModel)
    ensures
        code_from(src, g, src.len() as int) == Seq::<u8>::empty(),
{
    assert(src.subrange(src.len() as int, src.len() as int) =~= Seq::<u8>::empty());
}

/// A literal ends in the same place in every text that holds the same bytes
/// up to its end.
proof fn lemma_literal_end_same(
    src: Seq<u8>,
    t: Seq<u8>,
    quote: u8,
    pos: int,
    p: int,
    escaped: bool,
)
    requires
        0 <= pos <= src.len(),
        0 <= p,
        p + (literal_end(src, quote, pos, escaped) - pos) <= t.len(),
        t.subrange(p, p + (literal_end(src, quote, pos, escaped) - pos)) == src.subrange(
            pos,
            literal_end(src, quote, pos, escaped),
        ),
        literal_end(src, quote, pos, escaped) == src.len() ==> p + (src.len() - pos) == t.len(),
    ensures
        literal_end(t, quote, p, escaped) == p + (literal_end(src, quote, pos, escaped) - pos),
    decreases src.len() - pos,
{
    if pos < src.len() {
        let end = literal_end(src, quote, pos, escaped);
        let w = end - pos;
        lemma_literal_end_bounds(src, quote, pos, escaped);
        lemma_literal_end_bounds(src, quote, pos + 1, false);
        lemma_literal_end_bounds(src, quote, pos + 1, src[pos] == ESCAPE);
        assert(pos < end);
        let here = t.subrange(p, p + w);
        let there = src.subrange(pos, end);
        assert(t[p] == src[pos]) by {
            assert(here[0] == there[0]);
        }
        if escaped || src[pos] != quote {
            assert(t.subrange(p + 1, p + w) =~= here.subrange(1, w));
            assert(src.subrange(pos + 1, end) =~= there.subrange(1, w));
            let e = !escaped && src[pos] == ESCAPE;
            lemma_literal_end_same(src, t, quote, pos + 1, p + 1, e);
        }
    }
}

/// Where the first `k` bytes of the open token of delimiter `i` stand at
/// `start` and the rest of it starts the code that follows them, an open
/// token stands in `src` at `start`.
proof fn lemma_open_across(src: Seq<u8>, g: GrammarModel, start: int, i: int, k: int)
    requires
        junction_safe(g),
        0 <= i < g.delimiters.len(),
        1 <= k <= g.delimiters[i].open.len(),
        0 <= start,
        start + k <= src.len(),
        src.subrange(start, start + k) == g.delimiters[i].open.subrange(0, k),
        code_from(src, g, start + k).len() >= g.delimiters[i].open.len() - k,
        code_from(src, g, start + k).subrange(0, g.delimiters[i].open.len() - k)
            == g.delimiters[i].open.subrange(k, g.delimiters[i].open.len() as int),
    ensures
        exists|m: int| opens_at(src, g, start, m),
    decreases g.delimiters[i].open.len() - k,
{
    let pos = start + k;
    let open = g.delimiters[i].open;
    let n = open.len() as int;
    let code = code_from(src, g, pos);
    let head = src.subrange(pos - k, pos);
    if k == n {
        assert forall|x: int| 0 <= x < n implies src[pos - k + x] == #[trigger] open[x] by {
            assert(head[x] == open.subrange(0, k)[x]);
        }
        assert(opens_at(src, g, start, i));
    } else {
        lemma_code_from_end(src, g);
        assert(pos < src.len());
        lemma_code_from_unfold(src, g, pos);
        let end = token_end(src, g, pos);
        match comment_at(src, g, pos) {
            Some(j) => {
                lemma_best_open(src, g, pos);
                assert(opens_at(src, g, pos, j));
                let next = g.delimiters[j].open;
                assert(joins_into_open(g, i, j, k));
                let m = choose|m: int|
                    0 <= m < g.delimiters.len() && token_at(
                        open.subrange(0, k) + next,
                        0,
                        #[trigger] g.delimiters[m].open,
                    );
                let joined = open.subrange(0, k) + next;
                let found = g.delimiters[m].open;
                assert forall|x: int| 0 <= x < found.len() implies src[pos - k + x]
                    == #[trigger] found[x] by {
                    assert(joined[0 + x] == found[x]);
                    if x < k {
                        assert(head[x] == open.subrange(0, k)[x]);
                    } else {
                        assert(src[pos + (x - k)] == next[x - k]);
                    }
                }
                assert(opens_at(src, g, start, m));
            },
            None => {
                let w = end - pos;
                let rest = code_from(src, g, end);
                let token = src.subrange(pos, end);
                assert(code == token + rest);
                if n - k <= w {
                    assert forall|x: int| 0 <= x < n implies src[pos - k + x]
                        == #[trigger] open[x] by {
                        if x < k {
                            assert(head[x] == open.subrange(0, k)[x]);
                        } else {
                            assert(code.subrange(0, n - k)[x - k] == open.subrange(k, n)[x - k]);
                            assert(code[x - k] == token[x - k]);
                        }
                    }
                    assert(opens_at(src, g, start, i));
                } else {
                    assert(open.subrange(k, k + w) =~= open.subrange(k, n).subrange(0, w));
                    assert(code.subrange(0, w) =~= code.subrange(0, n - k).subrange(0, w));
                    assert(code.subrange(0, w) =~= token);
                    assert(src.subrange(pos - k, end) =~= head + token);
                    assert(open.subrange(0, k + w) =~= open.subrange(0, k) + open.subrange(
                        k,
                        k + w,
                    ));
                    assert(rest.subrange(0, n - k - w) =~= code.subrange(0, n - k).subrange(
                        w,
                        n - k,
                    ));
                    assert(open.subrange(k + w, n) =~= open.subrange(k, n).subrange(w, n - k));
                    assert(end == start + (k + w));
                    lemma_open_across(src, g, start, i, k + w);
                }
            },
        }
    }
}

/// A text that ends with the code of `src` from `pos` on holds no comment
/// from there on.
proof fn lemma_code_holds_no_comment(src: Seq<u8>, g: GrammarModel, pos: int, t: Seq<u8>, p: int)
    requires
        junction_safe(g),
        0 <= pos <= src.len(),
        0 <= p <= t.len(),
        t.subrange(p, t.len() as int) == code_from(src, g, pos),
    ensures
        comment_spans_from(t, g, p) == Seq::<SpanModel>::empty(),
        !unterminated_from(t, g, p),
    decreases src.len() - pos,
{
    lemma_code_from_end(src, g);
    if pos < src.len() {
        lemma_code_from_unfold(src, g, pos);
        lemma_best_open(src, g, pos);
        let end = token_end(src, g, pos);
        let rest = code_from(src, g, end);
        let tail = t.subrange(p, t.len() as int);
        if comment_at(src, g, pos) is Some {
            lemma_code_holds_no_comment(src, g, end, t, p);
        } else {
            let w = end - pos;
            let token = src.subrange(pos, end);
            assert(tail == token + rest);
            assert(t.len() - p == w + rest.len());
            assert(t.subrange(p, p + w) =~= tail.subrange(0, w));
            assert(tail.subrange(0, w) =~= token);
            assert(t.subrange(p + w, t.len() as int) =~= tail.subrange(w, tail.len() as int));
            assert(tail.subrange(w, tail.len() as int) =~= rest);
            assert(t[p] == src[pos]) by {
                assert(tail[0] == token[0]);
            }
            if g.is_quote(src[pos]) {
                assert(t.subrange(p + 1, p + w) =~= t.subrange(p, p + w).subrange(1, w));
                assert(src.subrange(pos + 1, end) =~= token.subrange(1, w));
                lemma_literal_end_same(src, t, src[pos], pos + 1, p + 1, false);
                assert(token_end(t, g, p) == p + w);
            } else {
                assert forall|m: int| !opens_at(t, g, p, m) by {
                    if opens_at(t, g, p, m) {
                        let open = g.delimiters[m].open;
                        let n = open.len() as int;
                        assert(t[p + 0] == open[0]);
                        assert(src.subrange(pos, pos + 1) =~= open.subrange(0, 1));
                        assert forall|x: int| 0 <= x < n - 1 implies rest.subrange(0, n - 1)[x]
                            == #[trigger] open.subrange(1, n)[x] by {
                            assert(t[p + (1 + x)] == open[1 + x]);
                            assert(tail[w + x] == rest[x]);
                        }
                        assert(rest.subrange(0, n - 1) =~= open.subrange(1, n));
                        lemma_open_across(src, g, pos, m, 1);
                    }
                }
                lemma_best_open(t, g, p);
                assert(token_end(t, g, p) == p + 1);
            }
            lemma_code_holds_no_comment(src, g, end, t, p + w);
        }
    } else {
        assert(t.subrange(p, t.len() as int).len() == 0);
    }
}

/// Idempotence of stripping: under a grammar that is junction-safe, the text
/// that is left when all comment spans of `src` are deleted holds no comment.
/// Scanning it again yields no span and no unterminated block comment.
pub proof fn lemma_stripped_holds_no_comment(src: Seq<u8>, g: GrammarModel)
    requires
        junction_safe(g),
    ensures
        comment_spans(stripped(src, comment_spans(src, g)), g) == Seq::<SpanModel>::empty(),
        !ends_in_block_comment(stripped(src, comment_spans(src, g)), g),
{
    let t = stripped(src, comment_spans(src, g));
    assert(t.subrange(0, t.len() as int) =~= t);
    lemma_code_holds_no_comment(src, g, 0, t, 0);
}

/// The grammars of the registered languages are junction-safe: each of their
/// open tokens starts with a slash, and two slashes are an open token.
pub proof fn lemma_registered_junction_safe(language: Seq<char>)
    requires
        registered(language) is Some,
    ensures
        junction_safe(registered(language).unwrap()),
{
    let g = registered(language).unwrap();
    let slashes = if g == rust_grammar() {
        1int
    } else {
        0int
    };
    assert forall|i: int, j: int, k: int|
        0 <= i < g.delimiters.len() && 0 <= j < g.delimiters.len() && 1 <= k
            < g.delimiters[i].open.len() implies #[trigger] joins_into_open(g, i, j, k) by {
        let joined = g.delimiters[i].open.subrange(0, k) + g.delimiters[j].open;
        let found = g.delimiters[slashes].open;
        assert(found.len() == 2);
        assert(joined[0] == found[0]);
        assert(joined[1] == found[1]);
        assert forall|x: int| 0 <= x < found.len() implies joined[0 + x]
            == #[trigger] found[x] by {}
        assert(token_at(joined, 0, found));
    }
}

/// Idempotence of stripping for the registered languages: for every text,
/// what is left of it when its comment spans are deleted yields no span
/// when it is scanned again under the same language.
pub proof fn lemma_registered_stripped_holds_no_comment(src: Seq<u8>, language: Seq<char>)
    requires
        registered(language) is Some,
    ensures
        ({
            let g = registered(language).unwrap();
            &&& comment_spans(stripped(src, comment_spans(src, g)), g) == Seq::<
                SpanModel,
            >::empty()
            &&& !ends_in_block_comment(stripped(src, comment_spans(src, g)), g)
        }),
{
    lemma_registered_junction_safe(language);
    lemma_stripped_holds_no_comment(src, registered(language).unwrap());
}

/// A text without comments from `from` on has no comment at any place read
/// as code from there on.
proof fn lemma_no_span_no_comment(src: Seq<u8>, g: GrammarModel, from: int, pos: int)
    requires
        0 <= from <= pos < src.len(),
        reaches(src, g, from, pos),
        comment_spans_from(src, g, from) == Seq::<SpanModel>::empty(),
    ensures
        comment_at(src, g, pos) is None,
    decreases src.len() - from,
{
    lemma_token_end_bounds(src, g, from);
    let end = token_end(src, g, from);
    let rest = comment_spans_from(src, g, end);
    match comment_at(src, g, from) {
        Some(d) => {
            let first = span_of(src, g.delimiters[d].kind, from, end);
            assert((seq![first] + rest).len() > 0);
        },
        None => {
            if from < pos {
                assert(reaches(src, g, end, pos));
                assert(end <= pos);
                lemma_no_span_no_comment(src, g, end, pos);
            }
        },
    }
}

/// The code outside the comments holds no comment opener where it is read
/// as code. Under a grammar that is junction-safe, at every place of the
/// stripped text where a token starts no comment starts, and unless a literal
/// starts there no open token of the grammar stands there.
pub proof fn lemma_stripped_code_has_no_open_token(src: Seq<u8>, g: GrammarModel, pos: int)
    requires
        junction_safe(g),
        code_position(stripped(src, comment_spans(src, g)), g, pos),
    ensures
        ({
            let code = stripped(src, comment_spans(src, g));
            &&& comment_at(code, g, pos) is None
            &&& !g.is_quote(code[pos]) ==> forall|i: int| !opens_at(code, g, pos, i)
        }),
{
    let code = stripped(src, comment_spans(src, g));
    lemma_stripped_holds_no_comment(src, g);
    lemma_no_span_no_comment(code, g, 0, pos);
    lemma_best_open(code, g, pos);
}

/// The spans from `from` on are those that end at or before `pos`, a place
/// read as code from there on, and after them those from `pos` on.
proof fn lemma_spans_split(src: Seq<u8>, g: GrammarModel, from: int, pos: int) -> (n: int)
    requires
        0 <= from <= pos <= src.len(),
        reaches(src, g, from, pos),
    ensures
        0 <= n <= comment_spans_from(src, g, from).len(),
        comment_spans_from(src, g, from).subrange(
            n,
            comment_spans_from(src, g, from).len() as int,
        ) == comment_spans_from(src, g, pos),
        forall|i: int| 0 <= i < n ==> (#[trigger] comment_spans_from(src, g, from)[i]).end <= pos,
    decreases src.len() - from,
{
    let all = comment_spans_from(src, g, from);
    if from == pos {
        assert(all.subrange(0, all.len() as int) =~= all);
        0
    } else {
        lemma_token_end_bounds(src, g, from);
        let end = token_end(src, g, from);
        let rest = comment_spans_from(src, g, end);
        assert(reaches(src, g, end, pos));
        assert(end <= pos);
        let m = lemma_spans_split(src, g, end, pos);
        match comment_at(src, g, from) {
            Some(d) => {
                let first = span_of(src, g.delimiters[d].kind, from, end);
                assert(all == seq![first] + rest);
                assert(all.subrange(m + 1, all.len() as int) =~= rest.subrange(
                    m,
                    rest.len() as int,
                ));
                assert forall|i: int| 0 <= i < m + 1 implies (#[trigger] all[i]).end <= pos by {
                    if i > 0 {
                        assert(all[i] == rest[i - 1]);
                    }
                }
                m + 1
            },
            None => m,
        }
    }
}

/// Literals shield what they hold: no comment span overlaps a literal.
/// Where a literal starts at `pos`, a place read as code, every span of the
/// text ends at or before `pos` or starts at or after the end of the
/// literal.
pub proof fn lemma_literal_shields(src: Seq<u8>, g: GrammarModel, pos: int, i: int)
    requires
        code_position(src, g, pos),
        g.is_quote(src[pos]),
        0 <= i < comment_spans(src, g).len(),
    ensures
        comment_spans(src, g)[i].end <= pos || literal_end(src, src[pos], pos + 1, false)
            <= comment_spans(src, g)[i].start,
{
    let all = comment_spans(src, g);
    let n = lemma_spans_split(src, g, 0, pos);
    if i >= n {
        let end = literal_end(src, src[pos], pos + 1, false);
        lemma_token_end_bounds(src, g, pos);
        lemma_spans_from_ordered(src, g, end);
        let rest = comment_spans_from(src, g, end);
        assert(comment_spans_from(src, g, pos) == rest);
        assert(all.subrange(n, all.len() as int)[i - n] == all[i]);
        assert(end <= rest[i - n].start);
    }
}

/// Where the input ends inside a block comment, looking from `pos` on, the
/// last span from there on is of a block kind and runs to the end.
proof fn lemma_unterminated_from_is_last(src: Seq<u8>, g: GrammarModel, pos: int)
    requires
        0 <= pos <= src.len(),
        unterminated_from(src, g, pos),
    ensures
        comment_spans_from(src, g, pos).len() > 0,
        comment_spans_from(src, g, pos).last().end == src.len(),
        !comment_spans_from(src, g, pos).last().kind.is_line(),
    decreases src.len() - pos,
{
    lemma_token_end_bounds(src, g, pos);
    let end = token_end(src, g, pos);
    let rest = comment_spans_from(src, g, end);
    match comment_at(src, g, pos) {
        Some(d) => {
            let first = span_of(src, g.delimiters[d].kind, pos, end);
            let all = seq![first] + rest;
            if comment_unterminated(src, g.delimiters[d], pos) {
                assert(rest.len() == 0);
                assert(all.last() == first);
            } else {
                lemma_unterminated_from_is_last(src, g, end);
                assert(all.last() == rest.last());
            }
        },
        None => {
            lemma_unterminated_from_is_last(src, g, end);
        },
    }
}

/// An unterminated block comment is not dropped: where the input ends inside
/// a block comment, the last span is of a block kind and runs to the end of
/// the input.
pub proof fn lemma_unterminated_runs_to_end(src: Seq<u8>, g: GrammarModel)
    requires
        ends_in_block_comment(src, g),
    ensures
        comment_spans(src, g).len() > 0,
        comment_spans(src, g).last().end == src.len(),
        !comment_spans(src, g).last().kind.is_line(),
{
    lemma_unterminated_from_is_last(src, g, 0);
}

} // verus!
