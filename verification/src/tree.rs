//! A `TokenTree` is a semi-structured view of the source code, grouping
//! tokens between matching brackets.

use crate::lexer::BracketKind;
use crate::lexer::Lexer;
use crate::lexer::Span;
use crate::lexer::Token;
use crate::lexer::TokenKind;
use crate::lexer::lemma_token_end;
use crate::lexer::token_end_at;
use crate::lexer::token_kind_at;
use crate::rules::byte_len;
use crate::rules::byte_start;
use crate::rules::lemma_byte_start_mono;
use vstd::prelude::*;

verus! {

broadcast use
    vstd::seq::axiom_seq_index_decreases,
    vstd::seq::axiom_seq_subrange_decreases,
    vstd::std_specs::vec::axiom_vec_decreases_to_view;


/// The contents of a `TokenTree`
#[derive(Debug, PartialEq)]
pub enum TokenTreeData<'a> {
    /// A group of `TokenTree`s between 2 brackets
    Group(Option<BracketKind>, Vec<TokenTree<'a>>),
    /// An individual `Token`
    Token(Token<'a>),
}

/// A semi-structured view of the source file, grouping `Token`s between
/// brackets.
#[derive(Debug, PartialEq)]
pub struct TokenTree<'a> {
    pub data: TokenTreeData<'a>,
    pub span: Span,
    pub view: &'a str,
}

/// The mathematical shape of a `TokenTree`: kinds, byte offsets and texts,
/// with no borrowing left.
pub enum TreeModel {
    Leaf { kind: TokenKind, start: int, end: int, text: Seq<char> },
    Group { bracket: Option<BracketKind>, children: Seq<TreeModel>, start: int, end: int, text: Seq<char> },
}

/// The `TreeModel` a `TokenTree` denotes: the same shape, with each view
/// read off as its character sequence.
pub open spec fn tree_model(t: TokenTree) -> TreeModel
    decreases t,
{
    match t.data {
        TokenTreeData::Token(tok) => TreeModel::Leaf {
            kind: tok.kind,
            start: t.span.start as int,
            end: t.span.end as int,
            text: t.view@,
        },
        TokenTreeData::Group(bracket, trees) => TreeModel::Group {
            bracket,
            children: trees_model(trees@),
            start: t.span.start as int,
            end: t.span.end as int,
            text: t.view@,
        },
    }
}

/// The `TreeModel`s a sequence of `TokenTree`s denote, in order.
pub open spec fn trees_model(trees: Seq<TokenTree>) -> Seq<TreeModel>
    decreases trees,
{
    if trees.len() == 0 {
        Seq::empty()
    } else {
        trees_model(trees.drop_last()).push(tree_model(trees.last()))
    }
}

/// One level of the bracket-matching stack, mathematically: the expected
/// close-bracket kind (absent only for the root), the character extent
/// accumulated so far, and the children already built.
pub struct FrameModel {
    pub bracket: Option<BracketKind>,
    pub start: int,
    pub end: int,
    pub children: Seq<TreeModel>,
}

/// The single frame the stack starts from: untagged, empty, standing at
/// the start of the source.
pub open spec fn root_frame() -> FrameModel {
    FrameModel { bracket: None, start: 0, end: 0, children: Seq::empty() }
}

/// A frame after a finished subtree is appended to it: the new child joins
/// its children and the frame's extent grows to the child's end.
pub open spec fn frame_push(f: FrameModel, m: TreeModel, end: int) -> FrameModel {
    FrameModel { bracket: f.bracket, start: f.start, end, children: f.children.push(m) }
}

/// The group a finished frame becomes, tagged `bracket` and extending over
/// characters `[f.start, end)` of `s`.
pub open spec fn frame_group(s: Seq<char>, f: FrameModel, bracket: Option<BracketKind>, end: int) -> TreeModel {
    TreeModel::Group {
        bracket,
        children: f.children,
        start: byte_start(s, f.start),
        end: byte_start(s, end),
        text: s.subrange(f.start, end),
    }
}

/// The error reported at the span covering characters `[ci, cj)` of `s`.
pub open spec fn model_err(s: Seq<char>, ci: int, cj: int, kind: ParserErrorKind) -> ParserError {
    ParserError {
        span: Span {
            start: byte_start(s, ci) as usize,
            end: byte_start(s, cj) as usize,
        },
        kind,
    }
}

/// What building a tree from character index `i` of `s`, with the open
/// frames of `stack` pending, produces: the transition rules of the tree
/// builder, folded over the tokens of the rest of the source.
///
/// A non-bracket token joins the top frame as a leaf; an open bracket
/// pushes a frame; a close bracket pops the top frame into a tagged group
/// if the kinds match, and is an `UnexpectedDelimiter` error at that
/// token's span otherwise. At the end of the source, a frame besides the
/// root is an `ExpectedDelimiter` error at that frame's span; otherwise
/// the root frame becomes the untagged root group.
pub open spec fn build_from(s: Seq<char>, i: int, stack: Seq<FrameModel>) -> Result<
    TreeModel,
    ParserError,
>
    decreases s.len() - i,
    when 0 <= i <= s.len() && stack.len() >= 1
{
    if i >= s.len() {
        if stack.len() > 1 {
            let f = stack.last();
            let kind = match f.bracket {
                Some(b) => ParserErrorKind::ExpectedDelimiter(b),
                None => arbitrary(),
            };
            Err(model_err(s, f.start, f.end, kind))
        } else {
            Ok(frame_group(s, stack[0], None, stack[0].end))
        }
    } else {
        let j = token_end_at(s, i);
        proof {
            lemma_token_end(s, i);
        }
        match token_kind_at(s, i) {
            TokenKind::Open(b) => build_from(
                s,
                j,
                stack.push(FrameModel { bracket: Some(b), start: i, end: j, children: Seq::empty() }),
            ),
            TokenKind::Close(b) => {
                if stack.len() > 1 && stack.last().bracket == Some(b) {
                    let g = frame_group(s, stack.last(), Some(b), j);
                    let rest = stack.drop_last();
                    build_from(s, j, rest.update(rest.len() - 1, frame_push(rest.last(), g, j)))
                } else {
                    Err(model_err(s, i, j, ParserErrorKind::UnexpectedDelimiter(b)))
                }
            },
            k => {
                let leaf = TreeModel::Leaf {
                    kind: k,
                    start: byte_start(s, i),
                    end: byte_start(s, j),
                    text: s.subrange(i, j),
                };
                build_from(s, j, stack.update(stack.len() - 1, frame_push(stack.last(), leaf, j)))
            },
        }
    }
}

/// What parsing a whole source produces.
pub open spec fn spec_parse(s: Seq<char>) -> Result<TreeModel, ParserError> {
    build_from(s, 0, seq![root_frame()])
}

/// Whether a parse result is the one `spec_parse` assigns to source `s`:
/// on success a tree denoting exactly the model built, on failure exactly
/// the error built.
pub open spec fn parse_result_matches(s: Seq<char>, r: Result<TokenTree, ParserError>) -> bool {
    match r {
        Ok(t) => spec_parse(s) == Ok::<TreeModel, ParserError>(tree_model(t)),
        Err(e) => spec_parse(s) == Err::<TreeModel, ParserError>(e),
    }
}

/// A parse is deterministic: two results for the same source are
/// structurally identical trees (equal models: same shape, kinds, spans
/// and texts) or identical errors, never one of each.
pub proof fn lemma_parse_deterministic(
    s: Seq<char>,
    r1: Result<TokenTree, ParserError>,
    r2: Result<TokenTree, ParserError>,
)
    requires
        parse_result_matches(s, r1),
        parse_result_matches(s, r2),
    ensures
        match (r1, r2) {
            (Ok(t1), Ok(t2)) => tree_model(t1) == tree_model(t2),
            (Err(e1), Err(e2)) => e1 == e2,
            _ => false,
        },
{
}

/// Whatever stack the build runs on, as long as the top frame's extent
/// ends where the build starts, a successful build hands back an untagged
/// group extending from the bottom frame's start to the end of the source.
proof fn lemma_build_from_root(s: Seq<char>, i: int, stack: Seq<FrameModel>)
    requires
        0 <= i <= s.len(),
        stack.len() >= 1,
        stack.last().end == i,
    ensures
        build_from(s, i, stack) matches Ok(m) ==> {
            &&& m matches TreeModel::Group { bracket, start, end, text, .. }
            &&& bracket is None
            &&& start == byte_start(s, stack[0].start)
            &&& end == byte_start(s, s.len() as int)
            &&& text == s.subrange(stack[0].start, s.len() as int)
        },
    decreases s.len() - i,
{
    if i < s.len() {
        let j = token_end_at(s, i);
        lemma_token_end(s, i);
        match token_kind_at(s, i) {
            TokenKind::Open(b) => {
                lemma_build_from_root(
                    s,
                    j,
                    stack.push(
                        FrameModel { bracket: Some(b), start: i, end: j, children: Seq::empty() },
                    ),
                );
            },
            TokenKind::Close(b) => {
                if stack.len() > 1 && stack.last().bracket == Some(b) {
                    let g = frame_group(s, stack.last(), Some(b), j);
                    let rest = stack.drop_last();
                    lemma_build_from_root(
                        s,
                        j,
                        rest.update(rest.len() - 1, frame_push(rest.last(), g, j)),
                    );
                }
            },
            _ => {
                let leaf = TreeModel::Leaf {
                    kind: token_kind_at(s, i),
                    start: byte_start(s, i),
                    end: byte_start(s, j),
                    text: s.subrange(i, j),
                };
                lemma_build_from_root(
                    s,
                    j,
                    stack.update(stack.len() - 1, frame_push(stack.last(), leaf, j)),
                );
            },
        }
    }
}

/// A successful parse hands back the whole source: the root is an untagged
/// group whose span runs from byte 0 to the byte length of the source and
/// whose view is the source text itself.
pub proof fn lemma_root_covers_source(s: Seq<char>, t: TokenTree)
    requires
        parse_result_matches(s, Ok(t)),
    ensures
        t.data matches TokenTreeData::Group(None, _),
        t.span.start == 0,
        t.span.end == byte_start(s, s.len() as int),
        t.view@ == s,
{
    lemma_build_from_root(s, 0, seq![root_frame()]);
    assert(s.subrange(0, s.len() as int) =~= s);
}

/// One level of the bracket-matching stack: the expected close-bracket
/// kind (absent only for the root frame), the byte span and character
/// extent accumulated so far, and the children already built.
struct StackFrame<'a> {
    bracket: Option<BracketKind>,
    span: Span,
    cstart: usize,
    cend: usize,
    body: Vec<TokenTree<'a>>,
}

/// The `FrameModel` a `StackFrame` denotes.
spec fn frame_model(f: StackFrame) -> FrameModel {
    FrameModel {
        bracket: f.bracket,
        start: f.cstart as int,
        end: f.cend as int,
        children: trees_model(f.body@),
    }
}

/// A frame is well formed when its extent lies inside the source and its
/// byte span stands at the extent's byte offsets.
spec fn frame_wf(s: Seq<char>, f: StackFrame) -> bool {
    &&& f.cstart <= f.cend <= s.len()
    &&& f.span.start == byte_start(s, f.cstart as int)
    &&& f.span.end == byte_start(s, f.cend as int)
}

/// The `FrameModel`s a stack of frames denotes, bottom first.
spec fn stack_model(frames: Seq<StackFrame>) -> Seq<FrameModel> {
    Seq::new(frames.len(), |k: int| frame_model(frames[k]))
}

/// Consumes `Token`s from a `Lexer` and produces a `TokenTree` as its end
/// result.
struct Stack<'a> {
    source: &'a str,
    frames: Vec<StackFrame<'a>>,
}

impl<'a> Stack<'a> {
    /// A stack always holds the root frame at the bottom, untagged, under
    /// tagged frames whose extents follow one another through the source.
    spec fn wf(self) -> bool {
        let s = self.source@;
        &&& self.frames@.len() >= 1
        &&& forall|k: int| 0 <= k < self.frames@.len() ==> frame_wf(s, #[trigger] self.frames@[k])
        &&& self.frames@[0].bracket is None
        &&& forall|k: int|
            1 <= k < self.frames@.len() ==> (#[trigger] self.frames@[k].bracket) is Some
        &&& forall|k: int|
            0 <= k < self.frames@.len() - 1 ==> #[trigger] self.frames@[k].cend
                <= self.frames@[k + 1].cstart
        &&& byte_start(s, s.len() as int) <= usize::MAX
    }

    /// The models of the open frames, bottom first.
    spec fn model(self) -> Seq<FrameModel> {
        stack_model(self.frames@)
    }

    /// The character index the top frame's extent ends at.
    spec fn top_end(self) -> int {
        self.frames@.last().cend as int
    }

    fn new(source: &'a str) -> (r: Stack<'a>)
        ensures
            r.wf(),
            r.source == source,
            r.model() == seq![root_frame()],
            r.top_end() == 0,
    {
        let total = byte_len(source);
        let mut frames: Vec<StackFrame<'a>> = Vec::new();
        frames.push(
            StackFrame { bracket: None, span: Span::new(0, 0), cstart: 0, cend: 0, body: Vec::new() },
        );
        let r = Stack { source, frames };
        proof {
            assert(r.model() =~= seq![root_frame()]);
        }
        r
    }

    /// Append a finished subtree to the top frame, extending that frame's
    /// extent to the subtree's end.
    fn push(&mut self, tree: TokenTree<'a>, cend: usize)
        requires
            old(self).wf(),
            old(self).top_end() <= cend <= old(self).source@.len(),
            tree.span.end == byte_start(old(self).source@, cend as int),
        ensures
            final(self).wf(),
            final(self).source == old(self).source,
            final(self).top_end() == cend,
            final(self).model() == old(self).model().update(
                old(self).model().len() - 1,
                frame_push(old(self).model().last(), tree_model(tree), cend as int),
            ),
    {
        let ghost s = self.source@;
        let mut f = self.frames.pop().unwrap();
        let ghost old_f = f;
        proof {
            lemma_byte_start_mono(s, f.cstart as int, cend as int);
        }
        f.span = Span::new(f.span.start, tree.span.end);
        f.cend = cend;
        f.body.push(tree);
        self.frames.push(f);
        proof {
            assert(f.body@.drop_last() =~= old_f.body@);
            assert(frame_model(f) == frame_push(frame_model(old_f), tree_model(tree), cend as int));
            assert(final(self).model() =~= old(self).model().update(
                old(self).model().len() - 1,
                frame_push(old(self).model().last(), tree_model(tree), cend as int),
            ));
        }
    }

    /// Open a new frame for an open-bracket token occupying characters
    /// `[cstart, cend)` at byte span `span`.
    fn open(&mut self, bracket: BracketKind, span: Span, cstart: usize, cend: usize)
        requires
            old(self).wf(),
            old(self).top_end() <= cstart,
            cstart <= cend <= old(self).source@.len(),
            span.start == byte_start(old(self).source@, cstart as int),
            span.end == byte_start(old(self).source@, cend as int),
        ensures
            final(self).wf(),
            final(self).source == old(self).source,
            final(self).top_end() == cend,
            final(self).model() == old(self).model().push(
                FrameModel {
                    bracket: Some(bracket),
                    start: cstart as int,
                    end: cend as int,
                    children: Seq::empty(),
                },
            ),
    {
        self.frames.push(
            StackFrame { bracket: Some(bracket), span, cstart, cend, body: Vec::new() },
        );
        proof {
            assert(final(self).model() =~= old(self).model().push(
                FrameModel {
                    bracket: Some(bracket),
                    start: cstart as int,
                    end: cend as int,
                    children: Seq::empty(),
                },
            ));
        }
    }

    /// Close the top frame against a close-bracket token of kind `found`
    /// occupying characters `[cstart, cend)` at byte span `span`: on a
    /// kind match the frame becomes a tagged group appended to the frame
    /// below; otherwise the token is an unexpected delimiter at its own
    /// span.
    fn close(&mut self, found: BracketKind, span: Span, cstart: usize, cend: usize) -> (r: Result<
        (),
        ParserError,
    >)
        requires
            old(self).wf(),
            old(self).top_end() <= cstart,
            cstart <= cend <= old(self).source@.len(),
            span.start == byte_start(old(self).source@, cstart as int),
            span.end == byte_start(old(self).source@, cend as int),
        ensures
            match r {
                Ok(()) => {
                    &&& old(self).model().len() > 1
                    &&& old(self).model().last().bracket == Some(found)
                    &&& final(self).wf()
                    &&& final(self).source == old(self).source
                    &&& final(self).top_end() == cend
                    &&& final(self).model() == {
                        let rest = old(self).model().drop_last();
                        rest.update(
                            rest.len() - 1,
                            frame_push(
                                rest.last(),
                                frame_group(
                                    old(self).source@,
                                    old(self).model().last(),
                                    Some(found),
                                    cend as int,
                                ),
                                cend as int,
                            ),
                        )
                    }
                },
                Err(e) => {
                    &&& !(old(self).model().len() > 1 && old(self).model().last().bracket == Some(
                        found,
                    ))
                    &&& e == model_err(
                        old(self).source@,
                        cstart as int,
                        cend as int,
                        ParserErrorKind::UnexpectedDelimiter(found),
                    )
                },
            },
    {
        let ghost s = self.source@;
        if self.frames.len() == 1 {
            return Err(ParserError::new(span, ParserErrorKind::UnexpectedDelimiter(found)));
        }
        let f = self.frames.pop().unwrap();
        let ghost popped = old(self).model().last();
        if let Some(b) = f.bracket {
            if b == found {
                proof {
                    assert(self.model() =~= old(self).model().drop_last());
                    lemma_byte_start_mono(s, f.cstart as int, cend as int);
                }
                let gview = self.source.substring_char(f.cstart, cend);
                let gspan = Span::new(f.span.start, span.end);
                let g = TokenTree {
                    data: TokenTreeData::Group(Some(found), f.body),
                    span: gspan,
                    view: gview,
                };
                proof {
                    assert(tree_model(g) == frame_group(s, popped, Some(found), cend as int));
                }
                self.push(g, cend);
                Ok(())
            } else {
                Err(ParserError::new(span, ParserErrorKind::UnexpectedDelimiter(found)))
            }
        } else {
            proof {
                assert(false);
            }
            Err(ParserError::new(span, ParserErrorKind::UnexpectedDelimiter(found)))
        }
    }

    /// Finish the build once the lexer is exhausted: a frame still open
    /// above the root is an expected delimiter at that frame's span;
    /// otherwise the root frame becomes the untagged root group.
    fn finalise(self) -> (r: Result<TokenTree<'a>, ParserError>)
        requires
            self.wf(),
        ensures
            match r {
                Ok(t) => build_from(self.source@, self.source@.len() as int, self.model())
                    == Ok::<TreeModel, ParserError>(tree_model(t)),
                Err(e) => build_from(self.source@, self.source@.len() as int, self.model())
                    == Err::<TreeModel, ParserError>(e),
            },
    {
        let ghost s = self.source@;
        let Stack { source, mut frames } = self;
        if frames.len() > 1 {
            let f = &frames[frames.len() - 1];
            if let Some(b) = f.bracket {
                Err(ParserError::new(f.span, ParserErrorKind::ExpectedDelimiter(b)))
            } else {
                proof {
                    assert(false);
                }
                Err(ParserError::new(f.span, ParserErrorKind::ExpectedDelimiter(BracketKind::Paren)))
            }
        } else {
            let f = frames.pop().unwrap();
            let view = source.substring_char(f.cstart, f.cend);
            Ok(TokenTree { data: TokenTreeData::Group(None, f.body), span: f.span, view })
        }
    }

    /// Pull every token the lexer has left and fold each into the stack by
    /// the transition rules, stopping at the first malformed bracket.
    #[verifier::loop_isolation(false)]
    fn feed(&mut self, lexer: &mut Lexer<'a>) -> (r: Result<(), ParserError>)
        requires
            old(self).wf(),
            old(lexer).wf(),
            old(lexer).source == old(self).source,
            old(self).top_end() <= old(lexer).pos,
        ensures
            match r {
                Ok(()) => {
                    &&& final(self).wf()
                    &&& final(self).source == old(self).source
                    &&& build_from(
                        old(self).source@,
                        old(self).source@.len() as int,
                        final(self).model(),
                    ) == build_from(old(self).source@, old(lexer).pos as int, old(self).model())
                },
                Err(e) => build_from(old(self).source@, old(lexer).pos as int, old(self).model())
                    == Err::<TreeModel, ParserError>(e),
            },
    {
        let ghost s = self.source@;
        loop
            invariant
                self.wf(),
                lexer.wf(),
                self.source == old(self).source,
                lexer.source == self.source,
                self.top_end() <= lexer.pos,
                build_from(s, lexer.pos as int, self.model()) == build_from(
                    s,
                    old(lexer).pos as int,
                    old(self).model(),
                ),
            decreases s.len() - lexer.pos,
        {
            let ghost pre = self.model();
            let ghost i = lexer.pos as int;
            let cstart = lexer.pos;
            match lexer.next() {
                None => {
                    return Ok(());
                },
                Some(tok) => {
                    let cend = lexer.pos;
                    proof {
                        lemma_token_end(s, i);
                    }
                    match tok.kind {
                        TokenKind::Open(b) => {
                            self.open(b, tok.span, cstart, cend);
                        },
                        TokenKind::Close(b) => {
                            match self.close(b, tok.span, cstart, cend) {
                                Ok(()) => {},
                                Err(e) => {
                                    return Err(e);
                                },
                            }
                        },
                        _ => {
                            let leaf = TokenTree {
                                data: TokenTreeData::Token(tok),
                                span: tok.span,
                                view: tok.view,
                            };
                            self.push(leaf, cend);
                        },
                    }
                },
            }
        }
    }
}

impl<'a> TokenTree<'a> {
    pub fn data(&self) -> (r: &TokenTreeData<'a>)
        ensures
            *r == self.data,
    {
        &self.data
    }

    pub fn span(&self) -> (r: Span)
        ensures
            r == self.span,
    {
        self.span
    }

    pub fn view(&self) -> (r: &'a str)
        ensures
            r == self.view,
    {
        self.view
    }

    /// Build the token tree of a whole source string: lex it to completion
    /// and group its tokens between matching brackets, or report the first
    /// malformed bracket.
    pub fn from_source(source: &'a str) -> (r: Result<TokenTree<'a>, ParserError>)
        ensures
            parse_result_matches(source@, r),
    {
        let mut lexer = Lexer::from_source(source);
        let mut stack = Stack::new(source);
        match stack.feed(&mut lexer) {
            Err(e) => Err(e),
            Ok(()) => stack.finalise(),
        }
    }
}

/// The two ways a bracket structure can be malformed.
#[derive(Debug, Clone, Copy, PartialEq, Eq, Structural)]
pub enum ParserErrorKind {
    /// A close bracket whose kind does not match the innermost open frame,
    /// or that closes a frame that does not exist.
    UnexpectedDelimiter(BracketKind),
    /// The input ended while a frame of this kind was still open.
    ExpectedDelimiter(BracketKind),
}

/// A structural error: the span of the offending bracket or still-open
/// frame, and what went wrong there.
#[derive(Debug, Clone, Copy, PartialEq, Eq, Structural)]
pub struct ParserError {
    pub span: Span,
    pub kind: ParserErrorKind,
}

impl ParserError {
    pub fn new(span: Span, kind: ParserErrorKind) -> (r: ParserError)
        ensures
            r == (ParserError { span, kind }),
    {
        ParserError { span, kind }
    }
}

} // verus!
