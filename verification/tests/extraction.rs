use comment_lexer::collector::CommentSpan;
use comment_lexer::engine::{extract_comments, extract_with, Extraction};
use comment_lexer::error::{Diagnostic, ScanError};
use comment_lexer::grammar::{CommentKind, Delimiter, GrammarTable};
use comment_lexer::strip::strip_comments;

const SAMPLE: &str = "// This is a single-line comment\n\n/*\n * This is a multi-line\n * block comment in Rust.\n */\n\n/// Doc comment for the function.\nfn greet(name: &str) -> String {\n    // Another single-line comment\n    format!(\"Hello, {}!\", name)\n}\n\nfn main() {\n    let x = 42;  // Inline comment\n    let result = greet(\"world\");  /* Inline block comment */\n    println!(\"{}\", result);\n}\n";

fn scan(source: &str, language: &str) -> Extraction {
    match extract_comments(source.as_bytes(), language) {
        Ok(out) => out,
        Err(e) => panic!("scan failed: {:?}", e),
    }
}

fn check_span(span: &CommentSpan, kind: CommentKind, start: usize, end: usize, text: &str) {
    assert_eq!(span.kind(), kind);
    assert_eq!(span.start_offset(), start);
    assert_eq!(span.end_offset(), end);
    assert_eq!(span.text(), text.as_bytes());
}

fn check_ordered(source: &[u8], spans: &[CommentSpan]) {
    let mut floor = 0;
    for span in spans {
        assert!(floor <= span.start_offset());
        assert!(span.start_offset() < span.end_offset());
        assert!(span.end_offset() <= source.len());
        assert_eq!(span.text(), &source[span.start_offset()..span.end_offset()]);
        floor = span.end_offset();
    }
}

fn check_idempotent(source: &str, language: &str) {
    let first = scan(source, language);
    check_ordered(source.as_bytes(), &first.spans);
    let code = strip_comments(source.as_bytes(), &first.spans);
    let second = match extract_comments(&code, language) {
        Ok(out) => out,
        Err(e) => panic!("scan failed: {:?}", e),
    };
    assert!(second.spans.is_empty());
    assert!(second.diagnostics.is_empty());
}

#[test]
fn empty_input_has_no_spans() {
    let out = scan("", "rust");
    assert!(out.spans.is_empty());
    assert!(out.diagnostics.is_empty());
}

#[test]
fn code_without_comments_has_no_spans() {
    let out = scan("fn main() { let x = 4 / 2 * 3; }\n", "rust");
    assert!(out.spans.is_empty());
    assert!(out.diagnostics.is_empty());
}

#[test]
fn line_comment_runs_to_end_of_input() {
    let out = scan("x // tail", "rust");
    assert_eq!(out.spans.len(), 1);
    check_span(&out.spans[0], CommentKind::LineComment, 2, 9, "// tail");
    assert!(out.diagnostics.is_empty());
}

#[test]
fn line_comment_excludes_line_feed() {
    let out = scan("// a\nb", "rust");
    assert_eq!(out.spans.len(), 1);
    check_span(&out.spans[0], CommentKind::LineComment, 0, 4, "// a");
}

#[test]
fn line_comment_excludes_carriage_return() {
    let out = scan("// a\r\nb // c\r\n", "rust");
    assert_eq!(out.spans.len(), 2);
    check_span(&out.spans[0], CommentKind::LineComment, 0, 4, "// a");
    check_span(&out.spans[1], CommentKind::LineComment, 8, 12, "// c");
}

#[test]
fn empty_line_comment_is_two_bytes() {
    let out = scan("//\n//", "rust");
    assert_eq!(out.spans.len(), 2);
    check_span(&out.spans[0], CommentKind::LineComment, 0, 2, "//");
    check_span(&out.spans[1], CommentKind::LineComment, 3, 5, "//");
}

#[test]
fn block_comment_ends_after_close_token() {
    let out = scan("a /* b */ c", "rust");
    assert_eq!(out.spans.len(), 1);
    check_span(&out.spans[0], CommentKind::BlockComment, 2, 9, "/* b */");
    assert!(out.diagnostics.is_empty());
}

#[test]
fn block_comment_spans_lines() {
    let out = scan("/*\n * a\n */\nx", "c");
    assert_eq!(out.spans.len(), 1);
    check_span(&out.spans[0], CommentKind::BlockComment, 0, 11, "/*\n * a\n */");
}

#[test]
fn open_token_is_consumed_whole() {
    // The slash of the open token cannot serve as the slash of a close token.
    let out = scan("/*/ x */ y", "rust");
    assert_eq!(out.spans.len(), 1);
    check_span(&out.spans[0], CommentKind::BlockComment, 0, 8, "/*/ x */");
}

#[test]
fn adjacent_comments_are_separate_spans() {
    let out = scan("/* a *//* b */// c", "rust");
    assert_eq!(out.spans.len(), 3);
    check_span(&out.spans[0], CommentKind::BlockComment, 0, 7, "/* a */");
    check_span(&out.spans[1], CommentKind::BlockComment, 7, 14, "/* b */");
    check_span(&out.spans[2], CommentKind::LineComment, 14, 18, "// c");
}

#[test]
fn nestable_block_comment_closes_at_outermost_level() {
    let out = scan("/* a /* b */ c */ d", "rust");
    assert_eq!(out.spans.len(), 1);
    check_span(&out.spans[0], CommentKind::BlockComment, 0, 17, "/* a /* b */ c */");
    assert!(out.diagnostics.is_empty());
}

#[test]
fn block_comment_that_does_not_nest_closes_at_first_close_token() {
    let out = scan("/* a /* b */ c */ d", "c");
    assert_eq!(out.spans.len(), 1);
    check_span(&out.spans[0], CommentKind::BlockComment, 0, 12, "/* a /* b */");
    assert!(out.diagnostics.is_empty());
}

#[test]
fn nested_block_comment_left_open_is_unterminated() {
    let out = scan("/* a /* b */ c", "rust");
    assert_eq!(out.spans.len(), 1);
    check_span(&out.spans[0], CommentKind::BlockComment, 0, 14, "/* a /* b */ c");
    assert_eq!(out.diagnostics, vec![Diagnostic::UnterminatedBlockComment]);
}

#[test]
fn string_literal_shields_line_comment_opener() {
    let out = scan("let s = \"// not a comment\";", "rust");
    assert!(out.spans.is_empty());
    assert!(out.diagnostics.is_empty());
}

#[test]
fn string_literal_shields_block_comment_opener() {
    let out = scan("let s = \"/* not a comment */\"; // real", "rust");
    assert_eq!(out.spans.len(), 1);
    check_span(&out.spans[0], CommentKind::LineComment, 31, 38, "// real");
}

#[test]
fn char_literal_shields_comment_opener() {
    let out = scan("let c = '/'; let d = '/'; // real", "rust");
    assert_eq!(out.spans.len(), 1);
    check_span(&out.spans[0], CommentKind::LineComment, 26, 33, "// real");
}

#[test]
fn char_literal_may_hold_a_string_quote() {
    let out = scan("let c = '\"'; // real", "rust");
    assert_eq!(out.spans.len(), 1);
    check_span(&out.spans[0], CommentKind::LineComment, 13, 20, "// real");
}

#[test]
fn escaped_quote_does_not_end_the_literal() {
    let out = scan("\"a\\\"// b\" // real", "rust");
    assert_eq!(out.spans.len(), 1);
    check_span(&out.spans[0], CommentKind::LineComment, 10, 17, "// real");
}

#[test]
fn escaped_escape_does_not_escape_the_quote() {
    let out = scan("\"a\\\\\" // real", "rust");
    assert_eq!(out.spans.len(), 1);
    check_span(&out.spans[0], CommentKind::LineComment, 6, 13, "// real");
}

#[test]
fn escaped_char_quote_does_not_end_the_literal() {
    let out = scan("'\\'' // real", "rust");
    assert_eq!(out.spans.len(), 1);
    check_span(&out.spans[0], CommentKind::LineComment, 5, 12, "// real");
}

#[test]
fn quotes_inside_a_comment_start_no_literal() {
    let out = scan("// it's \"quoted\nx // y", "rust");
    assert_eq!(out.spans.len(), 2);
    check_span(&out.spans[0], CommentKind::LineComment, 0, 15, "// it's \"quoted");
    check_span(&out.spans[1], CommentKind::LineComment, 18, 22, "// y");
}

#[test]
fn unterminated_string_literal_yields_no_span_and_no_diagnostic() {
    let out = scan("let s = \"abc // not a comment\n/* nor this */", "rust");
    assert!(out.spans.is_empty());
    assert!(out.diagnostics.is_empty());
}

#[test]
fn literal_ending_in_escape_is_unterminated() {
    let out = scan("\"abc\\", "rust");
    assert!(out.spans.is_empty());
    assert!(out.diagnostics.is_empty());
}

#[test]
fn doc_line_comment_takes_precedence() {
    let out = scan("/// doc", "rust");
    assert_eq!(out.spans.len(), 1);
    check_span(&out.spans[0], CommentKind::DocLineComment, 0, 7, "/// doc");
    assert!(out.diagnostics.is_empty());
}

#[test]
fn three_slashes_are_a_plain_line_comment_without_a_doc_delimiter() {
    let out = scan("/// doc", "c");
    assert_eq!(out.spans.len(), 1);
    check_span(&out.spans[0], CommentKind::LineComment, 0, 7, "/// doc");
}

#[test]
fn unterminated_block_comment_runs_to_end_of_input() {
    let out = scan("/* never closes", "rust");
    assert_eq!(out.spans.len(), 1);
    check_span(&out.spans[0], CommentKind::BlockComment, 0, 15, "/* never closes");
    assert_eq!(out.diagnostics, vec![Diagnostic::UnterminatedBlockComment]);
}

#[test]
fn block_comment_closed_at_end_of_input_is_terminated() {
    let out = scan("x /* y */", "rust");
    assert_eq!(out.spans.len(), 1);
    check_span(&out.spans[0], CommentKind::BlockComment, 2, 9, "/* y */");
    assert!(out.diagnostics.is_empty());
}

#[test]
fn block_comment_open_token_alone_is_unterminated() {
    let out = scan("/*", "c");
    assert_eq!(out.spans.len(), 1);
    check_span(&out.spans[0], CommentKind::BlockComment, 0, 2, "/*");
    assert_eq!(out.diagnostics, vec![Diagnostic::UnterminatedBlockComment]);
}

#[test]
fn sample_program_yields_its_six_comments() {
    let out = scan(SAMPLE, "rust");
    assert_eq!(out.spans.len(), 6);
    check_span(&out.spans[0], CommentKind::LineComment, 0, 32, "// This is a single-line comment");
    check_span(
        &out.spans[1],
        CommentKind::BlockComment,
        34,
        90,
        "/*\n * This is a multi-line\n * block comment in Rust.\n */",
    );
    check_span(
        &out.spans[2],
        CommentKind::DocLineComment,
        92,
        125,
        "/// Doc comment for the function.",
    );
    check_span(&out.spans[3], CommentKind::LineComment, 163, 193, "// Another single-line comment");
    check_span(&out.spans[4], CommentKind::LineComment, 258, 275, "// Inline comment");
    check_span(&out.spans[5], CommentKind::BlockComment, 310, 336, "/* Inline block comment */");
    assert!(out.diagnostics.is_empty());
}

#[test]
fn sample_program_spans_are_ordered() {
    let out = scan(SAMPLE, "rust");
    check_ordered(SAMPLE.as_bytes(), &out.spans);
}

#[test]
fn sample_program_stripped_is_its_code() {
    let out = scan(SAMPLE, "rust");
    let code = strip_comments(SAMPLE.as_bytes(), &out.spans);
    let expected = "\n\n\n\n\nfn greet(name: &str) -> String {\n    \n    format!(\"Hello, {}!\", name)\n}\n\nfn main() {\n    let x = 42;  \n    let result = greet(\"world\");  \n    println!(\"{}\", result);\n}\n";
    assert_eq!(code, expected.as_bytes());
}

#[test]
fn stripped_text_has_no_comments() {
    check_idempotent(SAMPLE, "rust");
    check_idempotent(SAMPLE, "c");
    check_idempotent("a /* b */ c // d\ne", "rust");
    check_idempotent("/* a /* b */ c */ d /* e", "rust");
    check_idempotent("/* a /* b */ c */ d /* e", "c");
    check_idempotent("\"// s\" /* c */ '/' // t", "rust");
    check_idempotent("/**//**/ x /***/ y //", "c");
    check_idempotent("x = \"unterminated // /* ", "rust");
}

#[test]
fn strip_without_spans_returns_the_text() {
    let code = strip_comments(b"let x = 1;", &[]);
    assert_eq!(code, b"let x = 1;");
}

#[test]
fn strip_deletes_each_span() {
    let source = "a/* b */c// d\ne/* f";
    let out = scan(source, "rust");
    assert_eq!(out.spans.len(), 3);
    let code = strip_comments(source.as_bytes(), &out.spans);
    assert_eq!(code, b"ac\ne");
}

#[test]
fn scan_is_deterministic() {
    let a = scan(SAMPLE, "rust");
    let b = scan(SAMPLE, "rust");
    assert_eq!(a.spans.len(), b.spans.len());
    for i in 0..a.spans.len() {
        assert_eq!(a.spans[i].kind(), b.spans[i].kind());
        assert_eq!(a.spans[i].start_offset(), b.spans[i].start_offset());
        assert_eq!(a.spans[i].end_offset(), b.spans[i].end_offset());
        assert_eq!(a.spans[i].text(), b.spans[i].text());
    }
}

#[test]
fn unknown_language_fails_before_scanning() {
    match extract_comments(b"// x", "klingon") {
        Ok(_) => panic!("a grammar was found"),
        Err(e) => assert_eq!(e, ScanError::UnknownLanguage),
    }
}

#[test]
fn language_names_are_exact() {
    assert!(matches!(extract_comments(b"", "Rust"), Err(ScanError::UnknownLanguage)));
    assert!(matches!(extract_comments(b"", ""), Err(ScanError::UnknownLanguage)));
    assert!(matches!(extract_comments(b"", "rust"), Ok(_)));
    assert!(matches!(extract_comments(b"", "c"), Ok(_)));
}

#[test]
fn bytes_that_are_not_ascii_are_code_or_comment_like_any_other() {
    let source = "let s = \"é\"; // señal\n";
    let out = scan(source, "rust");
    assert_eq!(out.spans.len(), 1);
    check_span(&out.spans[0], CommentKind::LineComment, 14, 23, "// señal");
}

fn hash_and_brace_grammar() -> GrammarTable {
    GrammarTable {
        delimiters: vec![
            Delimiter {
                kind: CommentKind::LineComment,
                open: b"#".to_vec(),
                close: Vec::new(),
                nestable: false,
            },
            Delimiter {
                kind: CommentKind::DocBlockComment,
                open: b"{-|".to_vec(),
                close: b"-}".to_vec(),
                nestable: true,
            },
            Delimiter {
                kind: CommentKind::BlockComment,
                open: b"{-".to_vec(),
                close: b"-}".to_vec(),
                nestable: true,
            },
        ],
        string_quotes: b"\"`".to_vec(),
        char_quote: None,
    }
}

fn scan_with(source: &str, grammar: &GrammarTable) -> Extraction {
    match extract_with(source.as_bytes(), grammar) {
        Ok(out) => out,
        Err(e) => panic!("scan failed: {:?}", e),
    }
}

#[test]
fn custom_grammar_is_data() {
    let grammar = hash_and_brace_grammar();
    assert!(grammar.is_well_formed());
    let source = "x # one\n{-| doc {-| in -} -} y {- plain -} `#` \"{-\" 'z' # two";
    let out = scan_with(source, &grammar);
    assert_eq!(out.spans.len(), 4);
    check_span(&out.spans[0], CommentKind::LineComment, 2, 7, "# one");
    check_span(&out.spans[1], CommentKind::DocBlockComment, 8, 28, "{-| doc {-| in -} -}");
    check_span(&out.spans[2], CommentKind::BlockComment, 31, 42, "{- plain -}");
    check_span(&out.spans[3], CommentKind::LineComment, 56, 61, "# two");
    assert!(out.diagnostics.is_empty());
}

#[test]
fn nested_level_opens_with_the_open_token_of_the_same_delimiter() {
    let grammar = hash_and_brace_grammar();
    // Inside the plain block comment `{-|` holds the open token `{-`.
    let out = scan_with("{- a {-| b -} c -} d", &grammar);
    assert_eq!(out.spans.len(), 1);
    check_span(&out.spans[0], CommentKind::BlockComment, 0, 18, "{- a {-| b -} c -}");
    // Inside the doc block comment `{-` alone opens no level.
    let out = scan_with("{-| a {- b -} c -} d", &grammar);
    assert_eq!(out.spans.len(), 1);
    check_span(&out.spans[0], CommentKind::DocBlockComment, 0, 13, "{-| a {- b -}");
}

#[test]
fn grammar_without_char_quote_reads_single_quote_as_code() {
    let grammar = hash_and_brace_grammar();
    let out = scan_with("it's # here", &grammar);
    assert_eq!(out.spans.len(), 1);
    check_span(&out.spans[0], CommentKind::LineComment, 5, 11, "# here");
}

#[test]
fn equally_long_open_tokens_resolve_by_table_order() {
    let grammar = GrammarTable {
        delimiters: vec![
            Delimiter {
                kind: CommentKind::DocLineComment,
                open: b"--".to_vec(),
                close: Vec::new(),
                nestable: false,
            },
            Delimiter {
                kind: CommentKind::LineComment,
                open: b"--".to_vec(),
                close: Vec::new(),
                nestable: false,
            },
        ],
        string_quotes: Vec::new(),
        char_quote: None,
    };
    let out = scan_with("a -- b", &grammar);
    assert_eq!(out.spans.len(), 1);
    check_span(&out.spans[0], CommentKind::DocLineComment, 2, 6, "-- b");
}

#[test]
fn stripping_can_join_an_open_token_where_the_grammar_allows_it() {
    // With `ab` opening a block comment that `c` closes, deleting the
    // comment of `aabcb` joins the bytes around it into a new open token.
    let grammar = GrammarTable {
        delimiters: vec![
            Delimiter {
                kind: CommentKind::BlockComment,
                open: b"ab".to_vec(),
                close: b"c".to_vec(),
                nestable: false,
            },
        ],
        string_quotes: Vec::new(),
        char_quote: None,
    };
    let out = scan_with("aabcb", &grammar);
    assert_eq!(out.spans.len(), 1);
    check_span(&out.spans[0], CommentKind::BlockComment, 1, 4, "abc");
    let code = strip_comments(b"aabcb", &out.spans);
    assert_eq!(code, b"ab");
    let again = match extract_with(&code, &grammar) {
        Ok(out) => out,
        Err(e) => panic!("scan failed: {:?}", e),
    };
    assert_eq!(again.spans.len(), 1);
}
