use toktree::lexer::{BracketKind, Span, TokenKind};
use toktree::tree::{ParserError, ParserErrorKind, TokenTree, TokenTreeData};

#[test]
fn nested_groups() {
    let source = "(a [b] c)";
    let tree = TokenTree::from_source(source).expect("no UnexpectedDelimiter expected");

    // root: an untagged group holding the one parenthesised group
    let root_children = match tree.data() {
        TokenTreeData::Group(None, children) => children,
        _ => panic!("root must be an untagged group"),
    };
    assert_eq!(tree.span(), Span::new(0, 9));
    assert_eq!(tree.view(), source);
    assert_eq!(root_children.len(), 1);

    // the paren group: a, whitespace, [b], whitespace, c
    let paren = &root_children[0];
    assert_eq!(paren.span(), Span::new(0, 9));
    assert_eq!(paren.view(), "(a [b] c)");
    let paren_children = match paren.data() {
        TokenTreeData::Group(Some(BracketKind::Paren), children) => children,
        _ => panic!("expected a Paren group"),
    };
    assert_eq!(paren_children.len(), 5);

    match paren_children[0].data() {
        TokenTreeData::Token(t) => {
            assert_eq!(t.kind, TokenKind::Identifier);
            assert_eq!(t.view, "a");
        }
        _ => panic!("expected a leaf"),
    }

    let square = &paren_children[2];
    assert_eq!(square.span(), Span::new(3, 6));
    assert_eq!(square.view(), "[b]");
    let square_children = match square.data() {
        TokenTreeData::Group(Some(BracketKind::Square), children) => children,
        _ => panic!("expected a Square group"),
    };
    assert_eq!(square_children.len(), 1);
    match square_children[0].data() {
        TokenTreeData::Token(t) => assert_eq!(t.view, "b"),
        _ => panic!("expected a leaf"),
    }

    match paren_children[4].data() {
        TokenTreeData::Token(t) => assert_eq!(t.view, "c"),
        _ => panic!("expected a leaf"),
    }
}

#[test]
fn mismatched_close_kind_is_unexpected_delimiter() {
    let err = TokenTree::from_source("(a]").unwrap_err();
    assert_eq!(
        err,
        ParserError {
            span: Span::new(2, 3),
            kind: ParserErrorKind::UnexpectedDelimiter(BracketKind::Square),
        }
    );
}

#[test]
fn unclosed_frame_is_expected_delimiter() {
    let err = TokenTree::from_source("(a").unwrap_err();
    assert_eq!(
        err,
        ParserError {
            span: Span::new(0, 2),
            kind: ParserErrorKind::ExpectedDelimiter(BracketKind::Paren),
        }
    );
}

#[test]
fn close_without_open_is_unexpected_delimiter() {
    let err = TokenTree::from_source("]").unwrap_err();
    assert_eq!(
        err,
        ParserError {
            span: Span::new(0, 1),
            kind: ParserErrorKind::UnexpectedDelimiter(BracketKind::Square),
        }
    );
}

#[test]
fn brace_closes_brace_and_not_paren() {
    let tree = TokenTree::from_source("{x}").expect("a brace pair must match");
    match tree.data() {
        TokenTreeData::Group(None, children) => {
            assert_eq!(children.len(), 1);
            assert!(matches!(
                children[0].data(),
                TokenTreeData::Group(Some(BracketKind::Brace), _)
            ));
        }
        _ => panic!("root must be an untagged group"),
    }

    let err = TokenTree::from_source("(}").unwrap_err();
    assert_eq!(
        err,
        ParserError {
            span: Span::new(1, 2),
            kind: ParserErrorKind::UnexpectedDelimiter(BracketKind::Brace),
        }
    );
}

#[test]
fn empty_source_builds_empty_root() {
    let tree = TokenTree::from_source("").expect("empty input is well formed");
    assert_eq!(tree.span(), Span::new(0, 0));
    assert_eq!(tree.view(), "");
    match tree.data() {
        TokenTreeData::Group(None, children) => assert!(children.is_empty()),
        _ => panic!("root must be an untagged group"),
    }
}

#[test]
fn whitespace_and_comments_stay_as_leaves() {
    let source = "a # note\n(b c)";
    let tree = TokenTree::from_source(source).expect("well formed");
    let children = match tree.data() {
        TokenTreeData::Group(None, children) => children,
        _ => panic!("root must be an untagged group"),
    };
    // a, ws, comment, ws (the newline), and the paren group
    assert_eq!(children.len(), 5);
    assert!(matches!(
        children[2].data(),
        TokenTreeData::Token(t) if t.kind == TokenKind::Comment && t.view == "# note"
    ));
    assert!(matches!(
        children[4].data(),
        TokenTreeData::Group(Some(BracketKind::Paren), _)
    ));
}

#[test]
fn group_spans_cover_brackets_with_multibyte_text() {
    let source = "(\u{e9} [\u{4e16}])";
    let tree = TokenTree::from_source(source).expect("well formed");
    assert_eq!(tree.span().as_range(), 0..source.len());
    assert_eq!(tree.view(), source);
    let children = match tree.data() {
        TokenTreeData::Group(None, children) => children,
        _ => panic!("root must be an untagged group"),
    };
    let inner = match children[0].data() {
        TokenTreeData::Group(Some(BracketKind::Paren), inner) => inner,
        _ => panic!("expected a Paren group"),
    };
    // the square group covers its brackets and its multi-byte payload
    let square = &inner[2];
    assert_eq!(square.view(), "[\u{4e16}]");
    assert_eq!(square.view(), &source[square.span().as_range()]);
}

#[test]
fn rebuilding_twice_is_identical() {
    let source = "foo (bar [baz] \"s\\\"t\") # done";
    let first = TokenTree::from_source(source);
    let second = TokenTree::from_source(source);
    assert_eq!(first, second);

    let bad = "(a]";
    let e1 = TokenTree::from_source(bad).unwrap_err();
    let e2 = TokenTree::from_source(bad).unwrap_err();
    assert_eq!(e1, e2);
}

fn reconstruct(t: &TokenTree) -> String {
    match t.data() {
        TokenTreeData::Token(tok) => tok.view.to_string(),
        TokenTreeData::Group(kind, children) => {
            let (open, close) = match kind {
                None => ("", ""),
                Some(BracketKind::Paren) => ("(", ")"),
                Some(BracketKind::Square) => ("[", "]"),
                Some(BracketKind::Brace) => ("{", "}"),
            };
            let mut s = String::from(open);
            for child in children {
                s.push_str(&reconstruct(child));
            }
            s.push_str(close);
            s
        }
    }
}

#[test]
fn leaves_and_bracket_glyphs_reconstruct_source() {
    let source = "foo {bar [baz]; (qux | #c\n)} \"s\"";
    let tree = TokenTree::from_source(source).expect("well formed");
    assert_eq!(tree.view(), source);
    assert_eq!(reconstruct(&tree), source);
}

#[test]
fn parser_error_new_keeps_its_parts() {
    let e = ParserError::new(
        Span::new(3, 4),
        ParserErrorKind::ExpectedDelimiter(BracketKind::Brace),
    );
    assert_eq!(e.span, Span::new(3, 4));
    assert_eq!(e.kind, ParserErrorKind::ExpectedDelimiter(BracketKind::Brace));
}
