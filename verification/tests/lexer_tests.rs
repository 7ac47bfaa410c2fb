use toktree::lexer::{BracketKind, Lexer, Span, Token, TokenKind};
use toktree::rules::{identifier_body, identifier_start};

fn collect<'a>(mut lexer: Lexer<'a>) -> Vec<Token<'a>> {
    let mut out = Vec::new();
    while let Some(t) = lexer.next() {
        out.push(t);
    }
    out
}

#[test]
fn lex_basic() {
    let source = "foo bar baz";
    let mut lexer = Lexer::from_source(source);

    assert_eq!(
        lexer.next(),
        Some(Token {
            span: Span::new(0, 3),
            kind: TokenKind::Identifier,
            view: "foo"
        })
    );
}

#[test]
fn lex_three_identifiers() {
    let source = "foo bar baz";
    let tokens = collect(Lexer::from_source(source));
    let expected = [
        (TokenKind::Identifier, 0, 3, "foo"),
        (TokenKind::Whitespace, 3, 4, " "),
        (TokenKind::Identifier, 4, 7, "bar"),
        (TokenKind::Whitespace, 7, 8, " "),
        (TokenKind::Identifier, 8, 11, "baz"),
    ];
    assert_eq!(tokens.len(), expected.len());
    for (t, (kind, start, end, view)) in tokens.iter().zip(expected.iter()) {
        assert_eq!(t.kind, *kind);
        assert_eq!(t.span, Span::new(*start, *end));
        assert_eq!(t.view, *view);
    }
}

#[test]
fn escaped_quote_does_not_terminate_string() {
    let source = "\"a\\\"b\"";
    assert_eq!(source.len(), 6);
    let tokens = collect(Lexer::from_source(source));
    assert_eq!(tokens.len(), 1);
    assert_eq!(tokens[0].kind, TokenKind::String);
    assert_eq!(tokens[0].span, Span::new(0, 6));
    assert_eq!(tokens[0].view, source);
}

#[test]
fn unterminated_string_runs_to_end_of_input() {
    let source = "\"abc";
    let tokens = collect(Lexer::from_source(source));
    assert_eq!(tokens.len(), 1);
    assert_eq!(tokens[0].kind, TokenKind::String);
    assert_eq!(tokens[0].span, Span::new(0, 4));
    assert_eq!(tokens[0].view, source);
}

#[test]
fn string_with_trailing_escape_at_end_of_input() {
    let source = "\"ab\\";
    let tokens = collect(Lexer::from_source(source));
    assert_eq!(tokens.len(), 1);
    assert_eq!(tokens[0].kind, TokenKind::String);
    assert_eq!(tokens[0].view, source);
}

#[test]
fn punctuation_kinds() {
    let source = "()[]{}:;|";
    let tokens = collect(Lexer::from_source(source));
    let expected = [
        TokenKind::Open(BracketKind::Paren),
        TokenKind::Close(BracketKind::Paren),
        TokenKind::Open(BracketKind::Square),
        TokenKind::Close(BracketKind::Square),
        TokenKind::Open(BracketKind::Brace),
        TokenKind::Close(BracketKind::Brace),
        TokenKind::Colon,
        TokenKind::Semicolon,
        TokenKind::Pipe,
    ];
    assert_eq!(tokens.len(), expected.len());
    for (i, (t, kind)) in tokens.iter().zip(expected.iter()).enumerate() {
        assert_eq!(t.kind, *kind);
        assert_eq!(t.span, Span::new(i, i + 1));
    }
}

#[test]
fn unclassified_characters_become_other() {
    let source = "5+";
    let tokens = collect(Lexer::from_source(source));
    assert_eq!(tokens.len(), 2);
    assert_eq!(tokens[0].kind, TokenKind::Other('5'));
    assert_eq!(tokens[1].kind, TokenKind::Other('+'));
}

#[test]
fn comment_runs_to_newline_exclusive() {
    let source = "# hi\nx";
    let tokens = collect(Lexer::from_source(source));
    assert_eq!(tokens.len(), 3);
    assert_eq!(tokens[0].kind, TokenKind::Comment);
    assert_eq!(tokens[0].view, "# hi");
    assert_eq!(tokens[1].kind, TokenKind::Whitespace);
    assert_eq!(tokens[1].view, "\n");
    assert_eq!(tokens[2].kind, TokenKind::Identifier);
    assert_eq!(tokens[2].view, "x");
}

#[test]
fn identifier_includes_digits_after_start() {
    let source = "a5_b 5a";
    let tokens = collect(Lexer::from_source(source));
    assert_eq!(tokens[0].kind, TokenKind::Identifier);
    assert_eq!(tokens[0].view, "a5_b");
    assert_eq!(tokens[2].kind, TokenKind::Other('5'));
    assert_eq!(tokens[3].kind, TokenKind::Identifier);
    assert_eq!(tokens[3].view, "a");
}

#[test]
fn views_reconstruct_source_with_multibyte_characters() {
    let source = "h\u{e9}llo (w\u{f6}rld \u{4e16}\u{754c}) \"caf\u{e9}\"";
    let tokens = collect(Lexer::from_source(source));
    let mut rebuilt = String::new();
    let mut last_end = 0;
    for t in &tokens {
        // total coverage: no gaps, no overlaps
        assert_eq!(t.span.as_range().start, last_end);
        last_end = t.span.as_range().end;
        // the view is exactly the slice of source the span denotes
        assert_eq!(t.view, &source[t.span.as_range()]);
        rebuilt.push_str(t.view);
    }
    assert_eq!(last_end, source.len());
    assert_eq!(rebuilt, source);
}

#[test]
fn runs_are_maximal() {
    let source = "foo  bar\t\tbaz # one# two\nqux";
    let tokens = collect(Lexer::from_source(source));
    for pair in tokens.windows(2) {
        let same_run_kind = matches!(
            (&pair[0].kind, &pair[1].kind),
            (TokenKind::Whitespace, TokenKind::Whitespace)
                | (TokenKind::Identifier, TokenKind::Identifier)
                | (TokenKind::Comment, TokenKind::Comment)
        );
        assert!(!same_run_kind);
    }
}

#[test]
fn identifier_character_rules() {
    assert!(identifier_start('a'));
    assert!(identifier_start('_'));
    assert!(identifier_start('\u{e9}'));
    assert!(!identifier_start('5'));
    assert!(!identifier_start(' '));
    assert!(identifier_body('5'));
    assert!(identifier_body('_'));
    assert!(!identifier_body('-'));
}

#[test]
fn empty_source_produces_no_tokens() {
    let tokens = collect(Lexer::from_source(""));
    assert!(tokens.is_empty());
}
