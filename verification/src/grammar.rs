//! Comment grammars as data: which tokens open and close a comment, which
//! bytes quote a literal, and the tables of the registered languages.

use crate::error::ScanError;
use crate::lexical::{best_open, is_best_open, lemma_best_open_unique, opens_at, precedes};
use crate::scanner::Scanner;
use vstd::prelude::*;
use vstd::string::StringExecFns;

verus! {

/// The classification carried by a comment span.
#[derive(Clone, Copy, Debug, PartialEq, Eq, Structural)]
pub enum CommentKind {
    LineComment,
    BlockComment,
    DocLineComment,
    DocBlockComment,
}

impl CommentKind {
    /// Line kinds end at the end of the line; all others at a close token.
    pub open spec fn is_line(self) -> bool {
        self == CommentKind::LineComment || self == CommentKind::DocLineComment
    }

    /// Doc kinds differ from the plain ones by this tag alone.
    pub open spec fn is_doc(self) -> bool {
        self == CommentKind::DocLineComment || self == CommentKind::DocBlockComment
    }

    #[verifier::when_used_as_spec(is_line)]
    pub fn is_line_kind(self) -> (b: bool)
        ensures
            b == self.is_line(),
    {
        match self {
            CommentKind::LineComment | CommentKind::DocLineComment => true,
            CommentKind::BlockComment | CommentKind::DocBlockComment => false,
        }
    }

    #[verifier::when_used_as_spec(is_doc)]
    pub fn is_doc_kind(self) -> (b: bool)
        ensures
            b == self.is_doc(),
    {
        match self {
            CommentKind::DocLineComment | CommentKind::DocBlockComment => true,
            CommentKind::LineComment | CommentKind::BlockComment => false,
        }
    }
}

/// The longest open token a table may hold.
pub const MAX_OPEN_LEN: usize = 3;

/// One delimiter definition as a mathematical value.
pub struct DelimiterModel {
    pub kind: CommentKind,
    pub open: Seq<u8>,
    pub close: Seq<u8>,
    pub nestable: bool,
}

impl DelimiterModel {
    /// An open token of one to three bytes; a close token exactly for the
    /// block kinds.
    pub open spec fn wf(self) -> bool {
        &&& 1 <= self.open.len() <= MAX_OPEN_LEN
        &&& self.kind.is_line() <==> self.close.len() == 0
    }
}

/// One delimiter definition.
#[derive(Clone, Debug, PartialEq, Eq)]
pub struct Delimiter {
    pub kind: CommentKind,
    /// The token that starts the comment.
    pub open: Vec<u8>,
    /// The token that ends it; empty for the line kinds.
    pub close: Vec<u8>,
    /// Whether the open token inside the comment opens a nested level.
    pub nestable: bool,
}

impl View for Delimiter {
    type V = DelimiterModel;

    open spec fn view(&self) -> DelimiterModel {
        DelimiterModel {
            kind: self.kind,
            open: self.open@,
            close: self.close@,
            nestable: self.nestable,
        }
    }
}

/// A comment grammar as a mathematical value.
pub struct GrammarModel {
    pub delimiters: Seq<DelimiterModel>,
    pub string_quotes: Seq<u8>,
    pub char_quote: Option<u8>,
}

impl GrammarModel {
    pub open spec fn wf(self) -> bool {
        forall|i: int| 0 <= i < self.delimiters.len() ==> (#[trigger] self.delimiters[i]).wf()
    }

    pub open spec fn is_string_quote(self, b: u8) -> bool {
        self.string_quotes.contains(b)
    }

    pub open spec fn is_char_quote(self, b: u8) -> bool {
        self.char_quote == Some(b)
    }

    /// Whether `b`, met in code, starts a string or character literal.
    pub open spec fn is_quote(self, b: u8) -> bool {
        self.is_string_quote(b) || self.is_char_quote(b)
    }
}

/// A comment grammar: the ordered delimiter definitions of one language and
/// the bytes that quote its literals.
#[derive(Clone, Debug, PartialEq, Eq)]
pub struct GrammarTable {
    /// The delimiter definitions. Where several open tokens match at one
    /// position the longest wins, and of equally long ones the earliest.
    pub delimiters: Vec<Delimiter>,
    /// The bytes that start and end a string literal.
    pub string_quotes: Vec<u8>,
    /// The byte that starts and ends a character literal, if there is one.
    pub char_quote: Option<u8>,
}

pub open spec fn delimiter_models(ds: Seq<Delimiter>) -> Seq<DelimiterModel> {
    Seq::new(ds.len(), |i: int| ds[i]@)
}

impl View for GrammarTable {
    type V = GrammarModel;

    open spec fn view(&self) -> GrammarModel {
        GrammarModel {
            delimiters: delimiter_models(self.delimiters@),
            string_quotes: self.string_quotes@,
            char_quote: self.char_quote,
        }
    }
}

impl Delimiter {
    /// Whether this definition keeps the rules of a table: an open token of
    /// one to three bytes, and a close token exactly for the block kinds.
    pub fn is_well_formed(&self) -> (b: bool)
        ensures
            b == self@.wf(),
    {
        let n = self.open.len();
        1 <= n && n <= MAX_OPEN_LEN && (self.kind.is_line_kind() == (self.close.len() == 0))
    }
}

impl GrammarTable {
    /// Whether every delimiter definition of the table is well formed.
    pub fn is_well_formed(&self) -> (b: bool)
        ensures
            b == self@.wf(),
    {
        let mut i: usize = 0;
        while i < self.delimiters.len()
            invariant
                i <= self.delimiters@.len(),
                forall|j: int| 0 <= j < i ==> (#[trigger] self@.delimiters[j]).wf(),
            decreases self.delimiters@.len() - i,
        {
            if !self.delimiters[i].is_well_formed() {
                assert(!self@.delimiters[i as int].wf());
                return false;
            }
            i = i + 1;
        }
        true
    }

    /// Whether `b` starts and ends a string literal.
    pub fn is_string_quote(&self, b: u8) -> (r: bool)
        ensures
            r == self@.is_string_quote(b),
    {
        let mut i: usize = 0;
        while i < self.string_quotes.len()
            invariant
                i <= self.string_quotes@.len(),
                forall|j: int| 0 <= j < i ==> self.string_quotes@[j] != b,
            decreases self.string_quotes@.len() - i,
        {
            if self.string_quotes[i] == b {
                return true;
            }
            i = i + 1;
        }
        false
    }

    /// Whether `b` starts and ends a character literal.
    pub fn is_char_quote(&self, b: u8) -> (r: bool)
        ensures
            r == self@.is_char_quote(b),
    {
        match self.char_quote {
            Some(q) => q == b,
            None => false,
        }
    }

    /// The index of the delimiter whose open token stands at the cursor.
    /// Of several that do, the one with the longest open token is selected,
    /// and of equally long ones the earliest in the table.
    pub fn select_open(&self, scanner: &Scanner) -> (r: Option<usize>)
        ensures
            match r {
                Some(i) => best_open(scanner.source(), self@, scanner.offset()) == Some(i as int),
                None => best_open(scanner.source(), self@, scanner.offset()) is None,
            },
    {
        let ghost src = scanner.source();
        let ghost pos = scanner.offset();
        let mut best: Option<usize> = None;
        let mut best_len: usize = 0;
        let mut i: usize = 0;
        while i < self.delimiters.len()
            invariant
                i <= self.delimiters@.len(),
                src == scanner.source(),
                pos == scanner.offset(),
                match best {
                    Some(b) => {
                        &&& b < i
                        &&& opens_at(src, self@, pos, b as int)
                        &&& best_len == self@.delimiters[b as int].open.len()
                        &&& forall|j: int|
                            0 <= j < i && #[trigger] opens_at(src, self@, pos, j) ==> precedes(
                                self@,
                                b as int,
                                j,
                            )
                    },
                    None => best_len == 0 && forall|j: int|
                        0 <= j < i ==> !#[trigger] opens_at(src, self@, pos, j),
                },
            decreases self.delimiters@.len() - i,
        {
            let d = &self.delimiters[i];
            assert(self@.delimiters[i as int] == d@);
            if d.open.len() > best_len && scanner.looking_at(d.open.as_slice()) {
                best = Some(i);
                best_len = d.open.len();
            }
            i = i + 1;
        }
        proof {
            match best {
                Some(b) => {
                    assert(is_best_open(src, self@, pos, b as int));
                    lemma_best_open_unique(src, self@, pos, b as int);
                },
                None => {},
            }
        }
        best
    }
}

pub const SLASH: u8 = 0x2f;

pub const STAR: u8 = 0x2a;

pub const DOUBLE_QUOTE: u8 = 0x22;

pub const SINGLE_QUOTE: u8 = 0x27;

/// The grammar registered as `"rust"`: `///` doc-line comments, `//` line
/// comments and nesting `/* */` block comments; `"` quotes strings and `'`
/// characters. The doc kind stands first.
pub open spec fn rust_grammar() -> GrammarModel {
    GrammarModel {
        delimiters: seq![
            DelimiterModel {
                kind: CommentKind::DocLineComment,
                open: seq![SLASH, SLASH, SLASH],
                close: seq![],
                nestable: false,
            },
            DelimiterModel {
                kind: CommentKind::LineComment,
                open: seq![SLASH, SLASH],
                close: seq![],
                nestable: false,
            },
            DelimiterModel {
                kind: CommentKind::BlockComment,
                open: seq![SLASH, STAR],
                close: seq![STAR, SLASH],
                nestable: true,
            },
        ],
        string_quotes: seq![DOUBLE_QUOTE],
        char_quote: Some(SINGLE_QUOTE),
    }
}

/// The grammar registered as `"c"`: `//` line comments and `/* */` block
/// comments that do not nest; `"` quotes strings and `'` characters.
pub open spec fn c_grammar() -> GrammarModel {
    GrammarModel {
        delimiters: seq![
            DelimiterModel {
                kind: CommentKind::LineComment,
                open: seq![SLASH, SLASH],
                close: seq![],
                nestable: false,
            },
            DelimiterModel {
                kind: CommentKind::BlockComment,
                open: seq![SLASH, STAR],
                close: seq![STAR, SLASH],
                nestable: false,
            },
        ],
        string_quotes: seq![DOUBLE_QUOTE],
        char_quote: Some(SINGLE_QUOTE),
    }
}

/// The grammar registered under the name `language`, if there is one.
pub open spec fn registered(language: Seq<char>) -> Option<GrammarModel> {
    if language == "rust"@ {
        Some(rust_grammar())
    } else if language == "c"@ {
        Some(c_grammar())
    } else {
        None
    }
}

fn same_name(a: &str, b: &str) -> (r: bool)
    ensures
        r == (a@ == b@),
{
    String::from_str(a) == String::from_str(b)
}

fn line_delimiter(kind: CommentKind, open: Vec<u8>) -> (d: Delimiter)
    ensures
        d@ == (DelimiterModel { kind, open: open@, close: seq![], nestable: false }),
{
    Delimiter { kind, open, close: Vec::new(), nestable: false }
}

fn c_family(doc_line: bool, nestable: bool) -> (t: GrammarTable)
    ensures
        doc_line && nestable ==> t@ == rust_grammar(),
        !doc_line && !nestable ==> t@ == c_grammar(),
{
    let mut delimiters: Vec<Delimiter> = Vec::new();
    if doc_line {
        delimiters.push(line_delimiter(CommentKind::DocLineComment, vec![SLASH, SLASH, SLASH]));
    }
    delimiters.push(line_delimiter(CommentKind::LineComment, vec![SLASH, SLASH]));
    delimiters.push(
        Delimiter {
            kind: CommentKind::BlockComment,
            open: vec![SLASH, STAR],
            close: vec![STAR, SLASH],
            nestable,
        },
    );
    let t = GrammarTable {
        delimiters,
        string_quotes: vec![DOUBLE_QUOTE],
        char_quote: Some(SINGLE_QUOTE),
    };
    proof {
        if doc_line && nestable {
            assert(t@.delimiters =~~= rust_grammar().delimiters);
            assert(t@.string_quotes =~= rust_grammar().string_quotes);
        }
        if !doc_line && !nestable {
            assert(t@.delimiters =~~= c_grammar().delimiters);
            assert(t@.string_quotes =~= c_grammar().string_quotes);
        }
    }
    t
}

impl GrammarTable {
    /// The table registered for `language`. Fails with `UnknownLanguage`
    /// where none is.
    pub fn for_language(language: &str) -> (r: Result<GrammarTable, ScanError>)
        ensures
            match registered(language@) {
                Some(g) => r is Ok && r->Ok_0@ == g,
                None => r == Err::<GrammarTable, ScanError>(ScanError::UnknownLanguage),
            },
    {
        if same_name(language, "rust") {
            Ok(c_family(true, true))
        } else if same_name(language, "c") {
            Ok(c_family(false, false))
        } else {
            Err(ScanError::UnknownLanguage)
        }
    }
}

/// The ordered delimiter definitions registered for `language`. Fails with
/// `UnknownLanguage` where no table is registered.
pub fn delimiters_for(language: &str) -> (r: Result<Vec<Delimiter>, ScanError>)
    ensures
        match registered(language@) {
            Some(g) => r is Ok && delimiter_models(r->Ok_0@) == g.delimiters,
            None => r == Err::<Vec<Delimiter>, ScanError>(ScanError::UnknownLanguage),
        },
{
    match GrammarTable::for_language(language) {
        Ok(table) => Ok(table.delimiters),
        Err(e) => Err(e),
    }
}

/// Every registered grammar is well formed.
pub proof fn lemma_registered_wf(language: Seq<char>)
    requires
        registered(language) is Some,
    ensures
        registered(language)->0.wf(),
{
}

} // verus!
