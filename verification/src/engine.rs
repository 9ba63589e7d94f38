//! The entry points: one pass over the source text that drives the cursor
//! through the state machine and hands the span boundaries to the collector.

use crate::collector::{end_of_last, span_models, CommentSpan, SpanCollector};
use crate::error::{Diagnostic, ScanError};
use crate::grammar::{registered, CommentKind, GrammarModel, GrammarTable};
use crate::lexer::{Event, LexState, Mode};
use crate::lexical::{block_close, block_end, comment_spans, comment_spans_from,
    ends_in_block_comment, lemma_best_open, line_end, literal_end, span_of, spans_ordered,
    unterminated_from, SpanModel};
use crate::scanner::Scanner;
use vstd::prelude::*;

verus! {

/// The result of a scan: the comment spans in the order of the source, and
/// the conditions noted on the way.
#[derive(Clone, Debug, PartialEq, Eq)]
pub struct Extraction {
    pub spans: Vec<CommentSpan>,
    pub diagnostics: Vec<Diagnostic>,
}

impl Extraction {
    /// The spans as mathematical values.
    pub open spec fn models(&self) -> Seq<SpanModel> {
        span_models(self.spans@)
    }
}

/// The diagnostics of a scan of `src`: `UnterminatedBlockComment` where the
/// input ends inside a block comment, and nothing else.
pub open spec fn diagnostics_of(src: Seq<u8>, g: GrammarModel) -> Seq<Diagnostic> {
    if ends_in_block_comment(src, g) {
        seq![Diagnostic::UnterminatedBlockComment]
    } else {
        Seq::empty()
    }
}

/// The spans still to come from a state with the cursor at `pos`: first the
/// open span, if the state is in a comment, then those of the text after the
/// token that the cursor is in.
spec fn owed(
    src: Seq<u8>,
    g: GrammarModel,
    state: LexState,
    pos: int,
    pending: Option<(CommentKind, int)>,
) -> Seq<SpanModel> {
    match state.current_mode {
        Mode::Code => comment_spans_from(src, g, pos),
        Mode::InString(quote) => comment_spans_from(
            src,
            g,
            literal_end(src, quote, pos, state.escape_pending),
        ),
        Mode::InChar => comment_spans_from(
            src,
            g,
            literal_end(src, g.char_quote.unwrap(), pos, state.escape_pending),
        ),
        Mode::InLineComment { .. } => {
            let (kind, start) = pending.unwrap();
            let end = line_end(src, pos);
            seq![span_of(src, kind, start, end)] + comment_spans_from(src, g, end)
        },
        Mode::InBlockComment { delimiter, depth, .. } => {
            let (kind, start) = pending.unwrap();
            let end = block_end(src, g.delimiters[delimiter as int], pos, depth as nat);
            seq![span_of(src, kind, start, end)] + comment_spans_from(src, g, end)
        },
    }
}

/// Whether the input will end inside a block comment, seen from a state with
/// the cursor at `pos`.
spec fn owed_unterminated(src: Seq<u8>, g: GrammarModel, state: LexState, pos: int) -> bool {
    match state.current_mode {
        Mode::Code => unterminated_from(src, g, pos),
        Mode::InString(quote) => unterminated_from(
            src,
            g,
            literal_end(src, quote, pos, state.escape_pending),
        ),
        Mode::InChar => unterminated_from(
            src,
            g,
            literal_end(src, g.char_quote.unwrap(), pos, state.escape_pending),
        ),
        Mode::InLineComment { .. } => unterminated_from(src, g, line_end(src, pos)),
        Mode::InBlockComment { delimiter, depth, .. } => {
            let d = g.delimiters[delimiter as int];
            block_close(src, d, pos, depth as nat) is None || unterminated_from(
                src,
                g,
                block_end(src, d, pos, depth as nat),
            )
        },
    }
}

/// The state and the collector agree: a span is open exactly in the comment
/// modes, it started before the cursor, and in the other modes the last
/// finished span ends at or before the cursor.
spec fn in_step(
    state: LexState,
    pos: int,
    pending: Option<(CommentKind, int)>,
    finished: Seq<SpanModel>,
) -> bool {
    match state.current_mode {
        Mode::InLineComment { .. } | Mode::InBlockComment { .. } => {
            &&& pending matches Some((_, start))
            &&& 0 <= start < pos
        },
        _ => pending is None && end_of_last(finished) <= pos,
    }
}

/// One step hands over what it reports and leaves the rest owed.
proof fn lemma_step_keeps_owed(
    src: Seq<u8>,
    g: GrammarModel,
    state: LexState,
    pos: int,
    pending: Option<(CommentKind, int)>,
)
    requires
        0 <= pos < src.len() <= usize::MAX,
        g.delimiters.len() <= usize::MAX,
        state.wf(g, pos),
        state.in_comment() ==> pending is Some,
    ensures
        ({
            let t = state.transition(src, g, pos);
            &&& owed_unterminated(src, g, state, pos) == owed_unterminated(
                src,
                g,
                t.next,
                t.offset,
            )
            &&& match t.event {
                None => owed(src, g, state, pos, pending) == owed(
                    src,
                    g,
                    t.next,
                    t.offset,
                    pending,
                ),
                Some(Event::SpanBegin { kind, offset }) => owed(src, g, state, pos, pending)
                    == owed(src, g, t.next, t.offset, Some((kind, pos))),
                Some(Event::SpanEnd { offset }) => {
                    let (kind, start) = pending.unwrap();
                    owed(src, g, state, pos, pending) == seq![
                        span_of(src, kind, start, offset as int),
                    ] + owed(src, g, t.next, t.offset, None)
                },
            }
        }),
{
    state.lemma_transition(src, g, pos);
    lemma_best_open(src, g, pos);
}

/// Scans `source` under `grammar` and returns its comment spans, in the
/// order of the source, with the diagnostics of the scan. The call does not
/// fail.
pub fn extract_with(source: &[u8], grammar: &GrammarTable) -> (r: Result<Extraction, ScanError>)
    ensures
        r matches Ok(out) && {
            &&& out.models() == comment_spans(source@, grammar@)
            &&& out.diagnostics@ == diagnostics_of(source@, grammar@)
            &&& spans_ordered(out.models(), source@)
        },
{
    let ghost src = source@;
    let ghost g = grammar@;
    let mut scanner = Scanner::new(source);
    let mut state = LexState::new();
    let mut collector = SpanCollector::new(source);
    assert(g.delimiters.len() <= usize::MAX) by {
        assert(g.delimiters.len() == grammar.delimiters.len());
    }
    while !scanner.at_end()
        invariant
            g.delimiters.len() <= usize::MAX,
            scanner.source() == src,
            collector.source() == src,
            g == grammar@,
            0 <= scanner.offset() <= src.len() <= usize::MAX,
            state.wf(g, scanner.offset()),
            in_step(state, scanner.offset(), collector.pending(), collector.finished()),
            collector.finished() + owed(src, g, state, scanner.offset(), collector.pending())
                == comment_spans(src, g),
            owed_unterminated(src, g, state, scanner.offset()) == ends_in_block_comment(src, g),
        decreases
                2 * (src.len() - scanner.offset()) + (if state.current_mode is InLineComment {
                    1int
                } else {
                    0int
                }),
    {
        proof {
            state.lemma_transition(src, g, scanner.offset());
            lemma_step_keeps_owed(src, g, state, scanner.offset(), collector.pending());
        }
        let ghost before = collector.finished();
        let event = match state.step(&mut scanner, grammar) {
            Ok(event) => event,
            Err(e) => {
                return Err(e);
            },
        };
        let fed = match event {
            Some(Event::SpanBegin { kind, offset }) => collector.on_span_begin(kind, offset),
            Some(Event::SpanEnd { offset }) => collector.on_span_end(offset),
            None => Ok(()),
        };
        match fed {
            Ok(()) => {},
            Err(e) => {
                return Err(e);
            },
        }
        proof {
            let after = collector.finished();
            let rest = owed(src, g, state, scanner.offset(), collector.pending());
            match event {
                Some(Event::SpanEnd { offset }) => {
                    assert(after.last().end == offset);
                    assert(after + rest =~= before + (seq![after.last()] + rest));
                },
                _ => {},
            }
        }
    }
    let end = scanner.position();
    let completion = state.finish(end);
    let ghost before = collector.finished();
    let closed = match completion.event {
        Some(Event::SpanEnd { offset }) => collector.on_span_end(offset),
        _ => Ok(()),
    };
    match closed {
        Ok(()) => {},
        Err(e) => {
            return Err(e);
        },
    }
    let mut diagnostics: Vec<Diagnostic> = Vec::new();
    match completion.diagnostic {
        Some(Diagnostic::UnterminatedBlockComment) => {
            diagnostics.push(Diagnostic::UnterminatedBlockComment);
        },
        _ => {},
    }
    proof {
        let after = collector.finished();
        assert(comment_spans_from(src, g, end as int) =~= Seq::<SpanModel>::empty());
        assert(after =~= comment_spans(src, g));
        assert(diagnostics@ =~= diagnostics_of(src, g));
    }
    let spans = collector.into_spans();
    Ok(Extraction { spans, diagnostics })
}

/// Scans `source_text` under the grammar registered for `language` and
/// returns its comment spans, in the order of the source, with the
/// diagnostics of the scan. Fails with `UnknownLanguage`, before any
/// scanning, where no grammar is registered for `language`, and in no other
/// case.
pub fn extract_comments(source_text: &[u8], language: &str) -> (r: Result<Extraction, ScanError>)
    ensures
        match registered(language@) {
            Some(g) => r matches Ok(out) && {
                &&& out.models() == comment_spans(source_text@, g)
                &&& out.diagnostics@ == diagnostics_of(source_text@, g)
                &&& spans_ordered(out.models(), source_text@)
            },
            None => r matches Err(e) && e == ScanError::UnknownLanguage,
        },
{
    match GrammarTable::for_language(language) {
        Ok(grammar) => extract_with(source_text, &grammar),
        Err(e) => Err(e),
    }
}

} // verus!
