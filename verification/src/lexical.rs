//! The lexical structure of source text under a comment grammar, as
//! mathematics: where a literal or a comment that starts at a position ends,
//! and from that the sequence of comment spans of a whole text.
//!
//! The text is read as a sequence of tokens. In code, a quote byte starts a
//! literal; otherwise the longest open token that matches starts a comment;
//! otherwise the byte is a token by itself.

use crate::grammar::{CommentKind, DelimiterModel, GrammarModel};
use vstd::prelude::*;

verus! {

/// The byte that escapes the next byte inside a literal.
pub const ESCAPE: u8 = 0x5c;

pub const LINE_FEED: u8 = 0x0a;

pub const CARRIAGE_RETURN: u8 = 0x0d;

/// A line comment ends before the first of these bytes.
pub open spec fn is_line_terminator(b: u8) -> bool {
    b == LINE_FEED || b == CARRIAGE_RETURN
}

/// The non-empty `token` stands in `src` at `pos`.
pub open spec fn token_at(src: Seq<u8>, pos: int, token: Seq<u8>) -> bool {
    &&& 0 <= pos
    &&& 0 < token.len()
    &&& pos + token.len() <= src.len()
    &&& forall|k: int| 0 <= k < token.len() ==> src[pos + k] == #[trigger] token[k]
}

/// Delimiter `i` of the grammar opens at `pos`.
pub open spec fn opens_at(src: Seq<u8>, g: GrammarModel, pos: int, i: int) -> bool {
    0 <= i < g.delimiters.len() && token_at(src, pos, g.delimiters[i].open)
}

/// Delimiter `i` takes precedence over delimiter `j` where both open: the
/// longer open token does, and of equally long ones the earlier in the table.
pub open spec fn precedes(g: GrammarModel, i: int, j: int) -> bool {
    let a = g.delimiters[i].open.len();
    let b = g.delimiters[j].open.len();
    b < a || (b == a && i <= j)
}

/// Delimiter `i` opens at `pos` and takes precedence over every other that
/// does.
pub open spec fn is_best_open(src: Seq<u8>, g: GrammarModel, pos: int, i: int) -> bool {
    &&& opens_at(src, g, pos, i)
    &&& forall|j: int| #[trigger] opens_at(src, g, pos, j) ==> precedes(g, i, j)
}

/// The delimiter selected at `pos`, if any open token matches there.
pub open spec fn best_open(src: Seq<u8>, g: GrammarModel, pos: int) -> Option<int> {
    if exists|i: int| opens_at(src, g, pos, i) {
        Some(choose|i: int| is_best_open(src, g, pos, i))
    } else {
        None
    }
}

/// The end of a literal quoted by `quote`, read from `pos` inside it:
/// just past the first unescaped `quote`, or the end of the input if there is
/// none. `escaped` says that the byte at `pos` follows an escape byte.
pub open spec fn literal_end(src: Seq<u8>, quote: u8, pos: int, escaped: bool) -> int
    decreases src.len() - pos,
{
    if pos < 0 || pos >= src.len() {
        src.len() as int
    } else if escaped {
        literal_end(src, quote, pos + 1, false)
    } else if src[pos] == quote {
        pos + 1
    } else {
        literal_end(src, quote, pos + 1, src[pos] == ESCAPE)
    }
}

/// Whether the literal read from `pos` finds its closing quote.
pub open spec fn literal_closed(src: Seq<u8>, quote: u8, pos: int, escaped: bool) -> bool
    decreases src.len() - pos,
{
    if pos < 0 || pos >= src.len() {
        false
    } else if escaped {
        literal_closed(src, quote, pos + 1, false)
    } else if src[pos] == quote {
        true
    } else {
        literal_closed(src, quote, pos + 1, src[pos] == ESCAPE)
    }
}

/// The end of a line comment read from `pos` inside it: the position of the
/// first line terminator, or the end of the input.
pub open spec fn line_end(src: Seq<u8>, pos: int) -> int
    decreases src.len() - pos,
{
    if pos < 0 || pos >= src.len() {
        src.len() as int
    } else if is_line_terminator(src[pos]) {
        pos
    } else {
        line_end(src, pos + 1)
    }
}

/// Where a block comment of delimiter `d`, read from `pos` inside it at
/// nesting depth `depth`, closes: just past the close token that ends the
/// outermost level. `None` if the input ends first.
pub open spec fn block_close(src: Seq<u8>, d: DelimiterModel, pos: int, depth: nat) -> Option<int>
    decreases src.len() - pos,
{
    if pos < 0 || pos >= src.len() {
        None
    } else if d.nestable && token_at(src, pos, d.open) {
        block_close(src, d, pos + d.open.len(), depth + 1)
    } else if token_at(src, pos, d.close) {
        if depth <= 1 {
            Some(pos + d.close.len())
        } else {
            block_close(src, d, pos + d.close.len(), (depth - 1) as nat)
        }
    } else {
        block_close(src, d, pos + 1, depth)
    }
}

/// The end of a block comment read from `pos` at depth `depth`: where it
/// closes, or the end of the input.
pub open spec fn block_end(src: Seq<u8>, d: DelimiterModel, pos: int, depth: nat) -> int {
    match block_close(src, d, pos, depth) {
        Some(e) => e,
        None => src.len() as int,
    }
}

/// The end of the comment of delimiter `d` whose open token stands at `pos`.
pub open spec fn comment_end(src: Seq<u8>, d: DelimiterModel, pos: int) -> int {
    let body = pos + d.open.len();
    if d.kind.is_line() {
        line_end(src, body)
    } else {
        block_end(src, d, body, 1)
    }
}

/// Whether the comment of delimiter `d` whose open token stands at `pos`
/// is a block comment that the input ends inside of.
pub open spec fn comment_unterminated(src: Seq<u8>, d: DelimiterModel, pos: int) -> bool {
    !d.kind.is_line() && block_close(src, d, pos + d.open.len(), 1) is None
}

/// The delimiter of the comment that starts at `pos`, read as code: none
/// where a literal starts there or no open token matches.
pub open spec fn comment_at(src: Seq<u8>, g: GrammarModel, pos: int) -> Option<int> {
    if g.is_quote(src[pos]) {
        None
    } else {
        best_open(src, g, pos)
    }
}

/// The end of the token that starts at `pos`, read as code: of the literal,
/// of the comment, or of the single byte.
pub open spec fn token_end(src: Seq<u8>, g: GrammarModel, pos: int) -> int {
    if g.is_quote(src[pos]) {
        literal_end(src, src[pos], pos + 1, false)
    } else {
        match best_open(src, g, pos) {
            Some(i) => comment_end(src, g.delimiters[i], pos),
            None => pos + 1,
        }
    }
}

/// A comment span as a mathematical value: the bytes `start..end` of the
/// text, `end` exclusive, with the kind of the delimiter that opened it.
pub struct SpanModel {
    pub kind: CommentKind,
    pub start: int,
    pub end: int,
    pub text: Seq<u8>,
}

/// The span of kind `kind` over `start..end` of `src`.
pub open spec fn span_of(src: Seq<u8>, kind: CommentKind, start: int, end: int) -> SpanModel {
    SpanModel { kind, start, end, text: src.subrange(start, end) }
}

/// Every span is a non-empty range of `src` that carries its bytes, and the
/// spans follow one another without overlap: each ends at or before the
/// start of the next.
pub open spec fn spans_ordered(spans: Seq<SpanModel>, src: Seq<u8>) -> bool {
    &&& forall|i: int|
        0 <= i < spans.len() ==> {
            &&& 0 <= (#[trigger] spans[i]).start < spans[i].end <= src.len()
            &&& spans[i].text == src.subrange(spans[i].start, spans[i].end)
        }
    &&& forall|i: int, j: int|
        0 <= i < j < spans.len() ==> (#[trigger] spans[i]).end <= (#[trigger] spans[j]).start
}

/// The comment spans of `src` from `pos` on, where `pos` is read as code.
pub open spec fn comment_spans_from(src: Seq<u8>, g: GrammarModel, pos: int) -> Seq<SpanModel>
    decreases src.len() - pos,
    via comment_spans_from_decreases
{
    if pos < 0 || pos >= src.len() {
        Seq::empty()
    } else {
        let end = token_end(src, g, pos);
        match comment_at(src, g, pos) {
            Some(i) => seq![span_of(src, g.delimiters[i].kind, pos, end)] + comment_spans_from(
                src,
                g,
                end,
            ),
            None => comment_spans_from(src, g, end),
        }
    }
}

#[via_fn]
proof fn comment_spans_from_decreases(src: Seq<u8>, g: GrammarModel, pos: int) {
    if 0 <= pos < src.len() {
        lemma_token_end_bounds(src, g, pos);
    }
}

/// The comment spans of the whole of `src`.
pub open spec fn comment_spans(src: Seq<u8>, g: GrammarModel) -> Seq<SpanModel> {
    comment_spans_from(src, g, 0)
}

/// Reading tokens from `from` on, where `from` is read as code, a token
/// starts at `pos` or the input ends there.
pub open spec fn reaches(src: Seq<u8>, g: GrammarModel, from: int, pos: int) -> bool
    decreases src.len() - from,
    via reaches_decreases
{
    if from == pos {
        true
    } else if from < 0 || from >= src.len() || from > pos {
        false
    } else {
        reaches(src, g, token_end(src, g, from), pos)
    }
}

#[via_fn]
proof fn reaches_decreases(src: Seq<u8>, g: GrammarModel, from: int, pos: int) {
    if 0 <= from < src.len() {
        lemma_token_end_bounds(src, g, from);
    }
}

/// `pos` is read as code: a token of `src` starts there. The places inside
/// a literal or a comment are none.
pub open spec fn code_position(src: Seq<u8>, g: GrammarModel, pos: int) -> bool {
    0 <= pos < src.len() && reaches(src, g, 0, pos)
}

/// Whether the input ends inside a block comment, looking from `pos` on,
/// where `pos` is read as code.
pub open spec fn unterminated_from(src: Seq<u8>, g: GrammarModel, pos: int) -> bool
    decreases src.len() - pos,
    via unterminated_from_decreases
{
    if pos < 0 || pos >= src.len() {
        false
    } else {
        let rest = unterminated_from(src, g, token_end(src, g, pos));
        match comment_at(src, g, pos) {
            Some(i) => comment_unterminated(src, g.delimiters[i], pos) || rest,
            None => rest,
        }
    }
}

#[via_fn]
proof fn unterminated_from_decreases(src: Seq<u8>, g: GrammarModel, pos: int) {
    if 0 <= pos < src.len() {
        lemma_token_end_bounds(src, g, pos);
    }
}

/// Whether `src` ends inside a block comment.
pub open spec fn ends_in_block_comment(src: Seq<u8>, g: GrammarModel) -> bool {
    unterminated_from(src, g, 0)
}

/// Among the first `n` delimiters, one that opens at `pos` and takes
/// precedence over the others that do.
proof fn lemma_best_among(src: Seq<u8>, g: GrammarModel, pos: int, n: int) -> (i: int)
    requires
        0 <= n <= g.delimiters.len(),
        exists|j: int| 0 <= j < n && opens_at(src, g, pos, j),
    ensures
        0 <= i < n,
        opens_at(src, g, pos, i),
        forall|j: int| 0 <= j < n && #[trigger] opens_at(src, g, pos, j) ==> precedes(g, i, j),
    decreases n,
{
    let last = n - 1;
    if exists|j: int| 0 <= j < last && opens_at(src, g, pos, j) {
        let before = lemma_best_among(src, g, pos, last);
        if opens_at(src, g, pos, last) && g.delimiters[last].open.len()
            > g.delimiters[before].open.len() {
            last
        } else {
            before
        }
    } else {
        last
    }
}

/// What `best_open` selects: the delimiter that takes precedence, or none
/// exactly where no open token matches.
pub proof fn lemma_best_open(src: Seq<u8>, g: GrammarModel, pos: int)
    ensures
        match best_open(src, g, pos) {
            Some(i) => is_best_open(src, g, pos, i),
            None => forall|j: int| !opens_at(src, g, pos, j),
        },
{
    if exists|i: int| opens_at(src, g, pos, i) {
        let w = choose|i: int| opens_at(src, g, pos, i);
        let b = lemma_best_among(src, g, pos, g.delimiters.len() as int);
        assert(is_best_open(src, g, pos, b));
    }
}

/// The delimiter that takes precedence is the one selected.
pub proof fn lemma_best_open_unique(src: Seq<u8>, g: GrammarModel, pos: int, i: int)
    requires
        is_best_open(src, g, pos, i),
    ensures
        best_open(src, g, pos) == Some(i),
{
    lemma_best_open(src, g, pos);
    let c = best_open(src, g, pos)->0;
    assert(opens_at(src, g, pos, c));
    assert(precedes(g, i, c));
    assert(precedes(g, c, i));
}

pub proof fn lemma_literal_end_bounds(src: Seq<u8>, quote: u8, pos: int, escaped: bool)
    requires
        0 <= pos <= src.len(),
    ensures
        pos <= literal_end(src, quote, pos, escaped) <= src.len(),
        literal_closed(src, quote, pos, escaped) ==> pos < literal_end(src, quote, pos, escaped),
        !literal_closed(src, quote, pos, escaped) ==> literal_end(src, quote, pos, escaped)
            == src.len(),
    decreases src.len() - pos,
{
    if pos < src.len() {
        if escaped {
            lemma_literal_end_bounds(src, quote, pos + 1, false);
        } else if src[pos] != quote {
            lemma_literal_end_bounds(src, quote, pos + 1, src[pos] == ESCAPE);
        }
    }
}

pub proof fn lemma_line_end_bounds(src: Seq<u8>, pos: int)
    requires
        0 <= pos <= src.len(),
    ensures
        pos <= line_end(src, pos) <= src.len(),
        line_end(src, pos) < src.len() ==> is_line_terminator(src[line_end(src, pos)]),
        forall|k: int| pos <= k < line_end(src, pos) ==> !is_line_terminator(#[trigger] src[k]),
    decreases src.len() - pos,
{
    if pos < src.len() && !is_line_terminator(src[pos]) {
        lemma_line_end_bounds(src, pos + 1);
    }
}

pub proof fn lemma_block_end_bounds(src: Seq<u8>, d: DelimiterModel, pos: int, depth: nat)
    requires
        0 <= pos <= src.len(),
    ensures
        pos <= block_end(src, d, pos, depth) <= src.len(),
        block_close(src, d, pos, depth) is Some ==> pos < block_end(src, d, pos, depth),
    decreases src.len() - pos,
{
    if pos < src.len() {
        if d.nestable && token_at(src, pos, d.open) {
            lemma_block_end_bounds(src, d, pos + d.open.len(), depth + 1);
        } else if token_at(src, pos, d.close) {
            if depth > 1 {
                lemma_block_end_bounds(src, d, pos + d.close.len(), (depth - 1) as nat);
            }
        } else {
            lemma_block_end_bounds(src, d, pos + 1, depth);
        }
    }
}

/// A comment ends after its open token and within the input.
pub proof fn lemma_comment_end_bounds(src: Seq<u8>, d: DelimiterModel, pos: int)
    requires
        token_at(src, pos, d.open),
    ensures
        pos + d.open.len() <= comment_end(src, d, pos) <= src.len(),
{
    lemma_line_end_bounds(src, pos + d.open.len());
    lemma_block_end_bounds(src, d, pos + d.open.len(), 1);
}

/// Every token is non-empty and ends within the input.
pub proof fn lemma_token_end_bounds(src: Seq<u8>, g: GrammarModel, pos: int)
    requires
        0 <= pos < src.len(),
    ensures
        pos < token_end(src, g, pos) <= src.len(),
{
    if g.is_quote(src[pos]) {
        lemma_literal_end_bounds(src, src[pos], pos + 1, false);
    } else {
        lemma_best_open(src, g, pos);
        match best_open(src, g, pos) {
            Some(i) => {
                lemma_comment_end_bounds(src, g.delimiters[i], pos);
            },
            None => {},
        }
    }
}

} // verus!
