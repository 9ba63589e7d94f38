//! The lexical state machine: what one step over the input does to the
//! mode of the cursor, and which span boundary it reports.

use crate::error::{Diagnostic, ScanError};
use crate::grammar::{CommentKind, GrammarModel, GrammarTable};
use crate::lexical::{best_open, is_line_terminator, lemma_best_open, token_at,
    CARRIAGE_RETURN, ESCAPE, LINE_FEED};
use crate::scanner::Scanner;
use vstd::prelude::*;

verus! {

/// What the cursor stands in.
#[derive(Clone, Copy, Debug, PartialEq, Eq, Structural)]
pub enum Mode {
    Code,
    /// Inside a string literal quoted by the given byte.
    InString(u8),
    /// Inside a character literal, quoted by the grammar's character quote.
    InChar,
    /// Inside a line comment of this kind.
    InLineComment { kind: CommentKind },
    /// Inside a block comment of this kind, `depth` levels deep. It was
    /// opened by the delimiter of this index in the table, which says what
    /// closes it and whether it nests.
    InBlockComment { kind: CommentKind, delimiter: usize, depth: usize },
}

/// A span boundary reported by a step.
#[derive(Clone, Copy, Debug, PartialEq, Eq, Structural)]
pub enum Event {
    /// A comment of this kind begins at `offset`, the place of its open
    /// token.
    SpanBegin { kind: CommentKind, offset: usize },
    /// The open comment ends at `offset`, exclusive.
    SpanEnd { offset: usize },
}

/// The state of one scan.
#[derive(Clone, Copy, Debug, PartialEq, Eq, Structural)]
pub struct LexState {
    pub current_mode: Mode,
    /// Inside a literal: the next byte follows an escape byte and cannot end
    /// the literal.
    pub escape_pending: bool,
}

/// The outcome of one step as a mathematical value: the state and the
/// offset of the cursor after it, and the boundary it reports.
pub struct Transition {
    pub next: LexState,
    pub offset: int,
    pub event: Option<Event>,
}

/// What the end of the input does to a state: the boundary it reports and
/// the condition it notes.
#[derive(Clone, Copy, Debug, PartialEq, Eq, Structural)]
pub struct Completion {
    pub event: Option<Event>,
    pub diagnostic: Option<Diagnostic>,
}

impl LexState {
    /// The state at the start of a scan.
    pub open spec fn initial() -> LexState {
        LexState { current_mode: Mode::Code, escape_pending: false }
    }

    /// The state in mode `mode` with no escape pending.
    pub open spec fn plain(mode: Mode) -> LexState {
        LexState { current_mode: mode, escape_pending: false }
    }

    /// The state fits the grammar and a cursor at `pos`: a character literal
    /// has its quote, a block comment names a delimiter of the table and has
    /// its kind, it is at least one level and at most `pos` levels deep, and
    /// an escape is pending inside literals only.
    pub open spec fn wf(&self, g: GrammarModel, pos: int) -> bool {
        match self.current_mode {
            Mode::Code => !self.escape_pending,
            Mode::InString(_) => true,
            Mode::InChar => g.char_quote is Some,
            Mode::InLineComment { .. } => !self.escape_pending,
            Mode::InBlockComment { kind, delimiter, depth } => {
                &&& delimiter < g.delimiters.len()
                &&& kind == g.delimiters[delimiter as int].kind
                &&& 1 <= depth <= pos
                &&& !self.escape_pending
            },
        }
    }

    /// One step in code. A quote byte enters its literal. Otherwise the
    /// selected open token, if one matches, is consumed whole, begins a span
    /// at its place and enters its comment. Otherwise the byte is consumed.
    pub open spec fn code_step(src: Seq<u8>, g: GrammarModel, pos: int) -> Transition {
        let b = src[pos];
        if g.is_string_quote(b) {
            Transition { next: Self::plain(Mode::InString(b)), offset: pos + 1, event: None }
        } else if g.is_char_quote(b) {
            Transition { next: Self::plain(Mode::InChar), offset: pos + 1, event: None }
        } else {
            match best_open(src, g, pos) {
                Some(i) => {
                    let d = g.delimiters[i];
                    let mode = if d.kind.is_line() {
                        Mode::InLineComment { kind: d.kind }
                    } else {
                        Mode::InBlockComment { kind: d.kind, delimiter: i as usize, depth: 1 }
                    };
                    Transition {
                        next: Self::plain(mode),
                        offset: pos + d.open.len(),
                        event: Some(Event::SpanBegin { kind: d.kind, offset: pos as usize }),
                    }
                },
                None => Transition { next: Self::initial(), offset: pos + 1, event: None },
            }
        }
    }

    /// One step inside a literal quoted by `quote`, in mode `mode`. The byte
    /// is consumed. It ends the literal if it is the quote and no escape is
    /// pending. An escape is pending after it if it is the escape byte and
    /// none was pending before.
    pub open spec fn literal_step(self, src: Seq<u8>, quote: u8, pos: int) -> Transition {
        let b = src[pos];
        let next = if self.escape_pending {
            Self::plain(self.current_mode)
        } else if b == quote {
            Self::initial()
        } else {
            LexState { current_mode: self.current_mode, escape_pending: b == ESCAPE }
        };
        Transition { next, offset: pos + 1, event: None }
    }

    /// One step inside a line comment. At a line terminator the span ends
    /// before it and the terminator is left to be read as code. Any other
    /// byte is consumed.
    pub open spec fn line_step(self, src: Seq<u8>, pos: int) -> Transition {
        if is_line_terminator(src[pos]) {
            Transition {
                next: Self::initial(),
                offset: pos,
                event: Some(Event::SpanEnd { offset: pos as usize }),
            }
        } else {
            Transition { next: self, offset: pos + 1, event: None }
        }
    }

    /// One step inside a block comment of delimiter `delimiter`, `depth`
    /// levels deep. Where the delimiter nests and its open token stands at
    /// the cursor, the token is consumed and the comment is one level deeper.
    /// Otherwise, where its close token stands there, the token is consumed
    /// and one level ends; with the outermost the span ends after the token.
    /// Otherwise the byte is consumed.
    pub open spec fn block_step(
        src: Seq<u8>,
        g: GrammarModel,
        kind: CommentKind,
        delimiter: usize,
        depth: usize,
        pos: int,
    ) -> Transition {
        let d = g.delimiters[delimiter as int];
        if d.nestable && token_at(src, pos, d.open) {
            Transition {
                next: Self::plain(
                    Mode::InBlockComment { kind, delimiter, depth: (depth + 1) as usize },
                ),
                offset: pos + d.open.len(),
                event: None,
            }
        } else if token_at(src, pos, d.close) {
            let after = pos + d.close.len();
            if depth <= 1 {
                Transition {
                    next: Self::initial(),
                    offset: after,
                    event: Some(Event::SpanEnd { offset: after as usize }),
                }
            } else {
                Transition {
                    next: Self::plain(
                        Mode::InBlockComment { kind, delimiter, depth: (depth - 1) as usize },
                    ),
                    offset: after,
                    event: None,
                }
            }
        } else {
            Transition {
                next: Self::plain(Mode::InBlockComment { kind, delimiter, depth }),
                offset: pos + 1,
                event: None,
            }
        }
    }

    /// One step from this state with the cursor at `pos`, before the end of
    /// `src`.
    pub open spec fn transition(self, src: Seq<u8>, g: GrammarModel, pos: int) -> Transition {
        match self.current_mode {
            Mode::Code => Self::code_step(src, g, pos),
            Mode::InString(quote) => self.literal_step(src, quote, pos),
            Mode::InChar => self.literal_step(src, g.char_quote.unwrap(), pos),
            Mode::InLineComment { .. } => self.line_step(src, pos),
            Mode::InBlockComment { kind, delimiter, depth } => Self::block_step(
                src,
                g,
                kind,
                delimiter,
                depth,
                pos,
            ),
        }
    }

    /// What the end of the input, at `end`, does to this state. An open
    /// comment ends there, and a block comment is noted as unterminated. A
    /// literal is noted as unterminated. The state after it is the initial
    /// one in every case.
    pub open spec fn completion(self, end: int) -> Completion {
        match self.current_mode {
            Mode::Code => Completion { event: None, diagnostic: None },
            Mode::InString(_) | Mode::InChar => Completion {
                event: None,
                diagnostic: Some(Diagnostic::UnterminatedStringLiteral),
            },
            Mode::InLineComment { .. } => Completion {
                event: Some(Event::SpanEnd { offset: end as usize }),
                diagnostic: None,
            },
            Mode::InBlockComment { .. } => Completion {
                event: Some(Event::SpanEnd { offset: end as usize }),
                diagnostic: Some(Diagnostic::UnterminatedBlockComment),
            },
        }
    }

    /// Whether the mode is one of the comment modes.
    pub open spec fn in_comment(self) -> bool {
        self.current_mode is InLineComment || self.current_mode is InBlockComment
    }

    /// Every step moves the cursor forward within the input, but for the one
    /// that ends a line comment at its terminator. A span begins only in
    /// code, at the cursor, and enters a comment; a span ends only in a
    /// comment, at the cursor after the step, and enters code; any other step
    /// stays in or out of comments.
    pub proof fn lemma_transition(self, src: Seq<u8>, g: GrammarModel, pos: int)
        requires
            0 <= pos < src.len() <= usize::MAX,
            g.delimiters.len() <= usize::MAX,
            self.wf(g, pos),
        ensures
            ({
                let t = self.transition(src, g, pos);
                &&& pos <= t.offset <= src.len()
                &&& t.next.wf(g, t.offset)
                &&& t.offset == pos ==> self.current_mode is InLineComment
                    && t.next.current_mode is Code
                &&& match t.event {
                    None => t.next.in_comment() == self.in_comment(),
                    Some(Event::SpanBegin { kind, offset }) => {
                        &&& self.current_mode is Code
                        &&& t.next.in_comment()
                        &&& offset == pos
                    },
                    Some(Event::SpanEnd { offset }) => {
                        &&& self.in_comment()
                        &&& t.next.current_mode is Code
                        &&& offset == t.offset
                    },
                }
            }),
    {
        lemma_best_open(src, g, pos);
    }

    /// The state at the start of a scan: in code, no escape pending.
    pub fn new() -> (s: LexState)
        ensures
            s == Self::initial(),
    {
        LexState { current_mode: Mode::Code, escape_pending: false }
    }

    /// Takes one step: consumes one byte or one matched token at the cursor,
    /// moves to the next state and returns the span boundary met, if any.
    /// At the end of the input nothing changes and the call fails with
    /// `EndOfInput`.
    pub fn step(&mut self, scanner: &mut Scanner, grammar: &GrammarTable) -> (r: Result<
        Option<Event>,
        ScanError,
    >)
        requires
            old(self).wf(grammar@, old(scanner).offset()),
        ensures
            final(scanner).source() == old(scanner).source(),
            old(scanner).offset() >= old(scanner).source().len() ==> {
                &&& r == Err::<Option<Event>, ScanError>(ScanError::EndOfInput)
                &&& *final(self) == *old(self)
                &&& final(scanner).offset() == old(scanner).offset()
            },
            old(scanner).offset() < old(scanner).source().len() ==> {
                let t = old(self).transition(
                    old(scanner).source(),
                    grammar@,
                    old(scanner).offset(),
                );
                &&& r == Ok::<Option<Event>, ScanError>(t.event)
                &&& *final(self) == t.next
                &&& final(scanner).offset() == t.offset
                &&& final(self).wf(grammar@, t.offset)
            },
    {
        let pos = scanner.position();
        if scanner.at_end() {
            return Err(ScanError::EndOfInput);
        }
        let ghost src = scanner.source();
        match self.current_mode {
            Mode::Code => {
                let b = match scanner.peek(0) {
                    Some(b) => b,
                    None => {
                        return Err(ScanError::EndOfInput);
                    },
                };
                if grammar.is_string_quote(b) {
                    scanner.consume(1);
                    self.current_mode = Mode::InString(b);
                    Ok(None)
                } else if grammar.is_char_quote(b) {
                    scanner.consume(1);
                    self.current_mode = Mode::InChar;
                    Ok(None)
                } else {
                    proof {
                        lemma_best_open(src, grammar@, pos as int);
                    }
                    match grammar.select_open(scanner) {
                        Some(i) => {
                            let d = &grammar.delimiters[i];
                            assert(grammar@.delimiters[i as int] == d@);
                            scanner.consume(d.open.len());
                            self.current_mode = if d.kind.is_line_kind() {
                                Mode::InLineComment { kind: d.kind }
                            } else {
                                Mode::InBlockComment { kind: d.kind, delimiter: i, depth: 1 }
                            };
                            Ok(Some(Event::SpanBegin { kind: d.kind, offset: pos }))
                        },
                        None => {
                            scanner.consume(1);
                            Ok(None)
                        },
                    }
                }
            },
            Mode::InString(quote) => {
                self.literal_byte(scanner, quote);
                Ok(None)
            },
            Mode::InChar => {
                match grammar.char_quote {
                    Some(quote) => {
                        self.literal_byte(scanner, quote);
                    },
                    None => {},
                }
                Ok(None)
            },
            Mode::InLineComment { .. } => {
                let b = match scanner.peek(0) {
                    Some(b) => b,
                    None => {
                        return Err(ScanError::EndOfInput);
                    },
                };
                if b == LINE_FEED || b == CARRIAGE_RETURN {
                    self.current_mode = Mode::Code;
                    Ok(Some(Event::SpanEnd { offset: pos }))
                } else {
                    scanner.consume(1);
                    Ok(None)
                }
            },
            Mode::InBlockComment { kind, delimiter, depth } => {
                let d = &grammar.delimiters[delimiter];
                assert(grammar@.delimiters[delimiter as int] == d@);
                if d.nestable && scanner.looking_at(d.open.as_slice()) {
                    scanner.consume(d.open.len());
                    self.current_mode = Mode::InBlockComment { kind, delimiter, depth: depth + 1 };
                    Ok(None)
                } else if scanner.looking_at(d.close.as_slice()) {
                    scanner.consume(d.close.len());
                    if depth <= 1 {
                        self.current_mode = Mode::Code;
                        Ok(Some(Event::SpanEnd { offset: scanner.position() }))
                    } else {
                        self.current_mode = Mode::InBlockComment {
                            kind,
                            delimiter,
                            depth: depth - 1,
                        };
                        Ok(None)
                    }
                } else {
                    scanner.consume(1);
                    Ok(None)
                }
            },
        }
    }

    /// Consumes one byte inside a literal quoted by `quote`.
    fn literal_byte(&mut self, scanner: &mut Scanner, quote: u8)
        requires
            old(scanner).offset() < old(scanner).source().len(),
        ensures
            final(scanner).source() == old(scanner).source(),
            final(scanner).offset() == old(scanner).offset() + 1,
            *final(self) == old(self).literal_step(
                old(scanner).source(),
                quote,
                old(scanner).offset(),
            ).next,
    {
        let b = scanner.peek(0);
        scanner.consume(1);
        if self.escape_pending {
            self.escape_pending = false;
        } else if b == Some(quote) {
            self.current_mode = Mode::Code;
        } else {
            self.escape_pending = b == Some(ESCAPE);
        }
    }

    /// Ends the scan at `end`, the end of the input: returns the boundary
    /// that closes an open comment and the condition to note, and puts the
    /// state back to the initial one.
    pub fn finish(&mut self, end: usize) -> (c: Completion)
        ensures
            c == old(self).completion(end as int),
            *final(self) == Self::initial(),
    {
        let c = match self.current_mode {
            Mode::Code => Completion { event: None, diagnostic: None },
            Mode::InString(_) | Mode::InChar => Completion {
                event: None,
                diagnostic: Some(Diagnostic::UnterminatedStringLiteral),
            },
            Mode::InLineComment { .. } => Completion {
                event: Some(Event::SpanEnd { offset: end }),
                diagnostic: None,
            },
            Mode::InBlockComment { .. } => Completion {
                event: Some(Event::SpanEnd { offset: end }),
                diagnostic: Some(Diagnostic::UnterminatedBlockComment),
            },
        };
        self.current_mode = Mode::Code;
        self.escape_pending = false;
        c
    }
}

} // verus!
