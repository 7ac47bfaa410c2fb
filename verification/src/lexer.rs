//! The lexer: a single-pass cursor over a source string that produces
//! classified tokens with exact byte spans.

use crate::rules::byte_len;
use crate::rules::byte_start;
use crate::rules::identifier_body;
use crate::rules::identifier_body_char;
use crate::rules::identifier_start;
use crate::rules::identifier_start_char;
use crate::rules::lemma_byte_start_mono;
use crate::rules::whitespace_char;
use vstd::prelude::*;

verus! {

/// A `Span` represents a slice of a source string: a half-open range of
/// byte offsets `[start, end)`.
#[derive(Debug, Clone, Copy, PartialEq, Eq, Structural)]
pub struct Span {
    pub start: usize,
    pub end: usize,
}

impl Span {
    /// Create a new `Span` over 2 positions
    pub fn new(start: usize, end: usize) -> (r: Span)
        requires
            start <= end,
        ensures
            r == (Span { start, end }),
    {
        Span { start, end }
    }

    /// Get a `std::ops::Range` representing the `Span`
    pub fn as_range(self) -> (r: core::ops::Range<usize>)
        ensures
            r.start == self.start,
            r.end == self.end,
    {
        self.start..self.end
    }
}

/// The different kinds of brackets
#[derive(Debug, Clone, Copy, PartialEq, Eq, Structural)]
pub enum BracketKind {
    Paren,
    Square,
    Brace,
}

/// The different types of `Token` found in the language
#[derive(Debug, Clone, Copy, PartialEq, Eq, Structural)]
pub enum TokenKind {
    Comment,
    Whitespace,
    Colon,
    Semicolon,
    Pipe,
    Open(BracketKind),
    Close(BracketKind),
    Identifier,
    String,
    Number,
    /// Catch-all for any characters that are not handled by the other cases
    Other(char),
}

/// A `Token` describes a piece of a source string: the `Span` it occupies,
/// what it represents, and the text the span denotes.
#[derive(Debug, Clone, Copy, PartialEq, Eq)]
pub struct Token<'a> {
    /// The `Span` the token occupies
    pub span: Span,
    /// What the token represents
    pub kind: TokenKind,
    /// The text the token describes
    pub view: &'a str,
}

/// The kind of the single-character punctuation token a character lexes to
/// when no other rule matches it.
pub open spec fn punctuation_kind(c: char) -> TokenKind {
    if c == '(' {
        TokenKind::Open(BracketKind::Paren)
    } else if c == '[' {
        TokenKind::Open(BracketKind::Square)
    } else if c == '{' {
        TokenKind::Open(BracketKind::Brace)
    } else if c == ')' {
        TokenKind::Close(BracketKind::Paren)
    } else if c == ']' {
        TokenKind::Close(BracketKind::Square)
    } else if c == '}' {
        TokenKind::Close(BracketKind::Brace)
    } else if c == ':' {
        TokenKind::Colon
    } else if c == ';' {
        TokenKind::Semicolon
    } else if c == '|' {
        TokenKind::Pipe
    } else {
        TokenKind::Other(c)
    }
}

/// The predicate a whitespace run extends through.
pub open spec fn whitespace_pred() -> spec_fn(char) -> bool {
    |c: char| whitespace_char(c)
}

/// The predicate an identifier run extends through.
pub open spec fn identifier_body_pred() -> spec_fn(char) -> bool {
    |c: char| identifier_body_char(c)
}

/// The predicate a comment run extends through: anything up to the
/// terminating newline, which is excluded.
pub open spec fn comment_pred() -> spec_fn(char) -> bool {
    |c: char| c != '\n'
}

/// The first index at or after `i` whose character fails `p` (or the end of
/// the source): the end of the maximal run of `p`-characters starting at `i`.
pub open spec fn run_end(s: Seq<char>, i: int, p: spec_fn(char) -> bool) -> int
    decreases s.len() - i,
{
    if i < s.len() && p(s[i]) {
        run_end(s, i + 1, p)
    } else {
        i
    }
}

/// Where a string token ends when its scan stands at index `i`: a `\`
/// unconditionally takes the character after it, an unescaped `"` terminates
/// the token, and running out of input terminates it at the end of the
/// source.
pub open spec fn string_end(s: Seq<char>, i: int) -> int
    decreases s.len() - i,
{
    if i >= s.len() {
        s.len() as int
    } else if s[i] == '\\' {
        if i + 1 < s.len() {
            string_end(s, i + 2)
        } else {
            s.len() as int
        }
    } else if s[i] == '"' {
        i + 1
    } else {
        string_end(s, i + 1)
    }
}

/// The kind of the token starting at character index `i` of `s`, by the
/// fixed classification precedence: whitespace, identifier start, `#`
/// comment, `"` string, then single-character punctuation.
pub open spec fn token_kind_at(s: Seq<char>, i: int) -> TokenKind {
    let c = s[i];
    if whitespace_char(c) {
        TokenKind::Whitespace
    } else if identifier_start_char(c) {
        TokenKind::Identifier
    } else if c == '#' {
        TokenKind::Comment
    } else if c == '"' {
        TokenKind::String
    } else {
        punctuation_kind(c)
    }
}

/// The character index just past the token starting at index `i` of `s`.
pub open spec fn token_end_at(s: Seq<char>, i: int) -> int {
    let c = s[i];
    if whitespace_char(c) {
        run_end(s, i + 1, whitespace_pred())
    } else if identifier_start_char(c) {
        run_end(s, i + 1, identifier_body_pred())
    } else if c == '#' {
        run_end(s, i + 1, comment_pred())
    } else if c == '"' {
        string_end(s, i + 1)
    } else {
        i + 1
    }
}

/// A maximal run: every character inside it satisfies `p`, and the
/// character just past it (if any) does not.
pub proof fn lemma_run_end(s: Seq<char>, i: int, p: spec_fn(char) -> bool)
    requires
        0 <= i <= s.len(),
    ensures
        i <= run_end(s, i, p) <= s.len(),
        forall|k: int| i <= k < run_end(s, i, p) ==> p(s[k]),
        run_end(s, i, p) < s.len() ==> !p(s[run_end(s, i, p)]),
    decreases s.len() - i,
{
    if i < s.len() && p(s[i]) {
        lemma_run_end(s, i + 1, p);
    }
}

/// A string scan never moves backwards and never runs past the end of the
/// source.
pub proof fn lemma_string_end(s: Seq<char>, i: int)
    requires
        0 <= i <= s.len(),
    ensures
        i <= string_end(s, i) <= s.len(),
    decreases s.len() - i,
{
    if i < s.len() {
        if s[i] == '\\' {
            if i + 1 < s.len() {
                lemma_string_end(s, i + 2);
            }
        } else if s[i] != '"' {
            lemma_string_end(s, i + 1);
        }
    }
}

/// Every token is at least one character long and ends within the source.
pub proof fn lemma_token_end(s: Seq<char>, i: int)
    requires
        0 <= i < s.len(),
    ensures
        i < token_end_at(s, i) <= s.len(),
{
    let c = s[i];
    if whitespace_char(c) {
        lemma_run_end(s, i + 1, whitespace_pred());
    } else if identifier_start_char(c) {
        lemma_run_end(s, i + 1, identifier_body_pred());
    } else if c == '#' {
        lemma_run_end(s, i + 1, comment_pred());
    } else if c == '"' {
        lemma_string_end(s, i + 1);
    }
}

/// The concatenation of the views of every token produced from character
/// index `i` of `s` onwards, in order.
pub open spec fn lex_concat(s: Seq<char>, i: int) -> Seq<char>
    decreases s.len() - i,
    when 0 <= i <= s.len()
{
    if i >= s.len() {
        Seq::empty()
    } else {
        proof {
            lemma_token_end(s, i);
        }
        s.subrange(i, token_end_at(s, i)) + lex_concat(s, token_end_at(s, i))
    }
}

/// The tokens from index `i` onward cover the rest of the source exactly:
/// no gaps, no overlaps.
proof fn lemma_lex_concat(s: Seq<char>, i: int)
    requires
        0 <= i <= s.len(),
    ensures
        lex_concat(s, i) == s.subrange(i, s.len() as int),
    decreases s.len() - i,
{
    if i >= s.len() {
        assert(lex_concat(s, i) =~= s.subrange(i, s.len() as int));
    } else {
        let j = token_end_at(s, i);
        lemma_token_end(s, i);
        lemma_lex_concat(s, j);
        assert(s.subrange(i, j) + s.subrange(j, s.len() as int) =~= s.subrange(
            i,
            s.len() as int,
        ));
    }
}

/// Lexing a source to completion and concatenating every produced token's
/// view in order reconstructs the source exactly.
pub proof fn lemma_lex_reconstructs_source(s: Seq<char>)
    ensures
        lex_concat(s, 0) == s,
{
    lemma_lex_concat(s, 0);
    assert(s.subrange(0, s.len() as int) =~= s);
}

/// Whitespace, identifier and comment runs are maximal: the token that
/// starts where such a token ends is never of the same kind.
pub proof fn lemma_runs_maximal(s: Seq<char>, i: int)
    requires
        0 <= i < s.len(),
        token_end_at(s, i) < s.len(),
    ensures
        token_kind_at(s, i) is Whitespace ==> !(token_kind_at(s, token_end_at(s, i)) is Whitespace),
        token_kind_at(s, i) is Identifier ==> !(token_kind_at(s, token_end_at(s, i)) is Identifier),
        token_kind_at(s, i) is Comment ==> !(token_kind_at(s, token_end_at(s, i)) is Comment),
{
    let c = s[i];
    let j = token_end_at(s, i);
    if whitespace_char(c) {
        lemma_run_end(s, i + 1, whitespace_pred());
    } else if identifier_start_char(c) {
        lemma_run_end(s, i + 1, identifier_body_pred());
    } else if c == '#' {
        lemma_run_end(s, i + 1, comment_pred());
        assert(s[j] == '\n');
    }
}

/// What the token starting at character index `i` of source `s` is: its
/// kind follows the classification rules, its span holds the byte offsets
/// of the token's extent, and its view is exactly the text of that extent.
pub open spec fn token_at(s: Seq<char>, i: int, t: Token) -> bool {
    let j = token_end_at(s, i);
    &&& t.kind == token_kind_at(s, i)
    &&& t.span.start == byte_start(s, i)
    &&& t.span.end == byte_start(s, j)
    &&& t.view@ == s.subrange(i, j)
}

/// The `Lexer` produces the `Token`s of a source string, one per call of
/// `next`, in order.
///
/// **Note:** The `Lexer` performs no real input validation; it should
/// function without fail given any valid UTF-8 string
pub struct Lexer<'a> {
    /// The source text being lexed.
    pub source: &'a str,
    /// The number of characters in `source`.
    pub len: usize,
    /// The index of the next character to consume.
    pub pos: usize,
    /// The byte offset of the next character to consume.
    pub off: usize,
}

impl<'a> Lexer<'a> {
    /// A lexer is well formed when its cursor stands on a character
    /// boundary inside the source and its byte offset agrees with its
    /// character position.
    pub open spec fn wf(self) -> bool {
        &&& self.pos <= self.len
        &&& self.len == self.source@.len()
        &&& self.off == byte_start(self.source@, self.pos as int)
        &&& byte_start(self.source@, self.source@.len() as int) <= usize::MAX
    }

    /// Produce a `Lexer` from a given source string
    pub fn from_source(source: &'a str) -> (l: Lexer<'a>)
        ensures
            l.wf(),
            l.source == source,
            l.pos == 0,
    {
        let len = source.unicode_len();
        let total = byte_len(source);
        Lexer { source, len, pos: 0, off: 0 }
    }

    /// Consume the single character under the cursor, advancing the byte
    /// offset by its UTF-8 encoded length.
    fn advance(&mut self)
        requires
            old(self).wf(),
            old(self).pos < old(self).len,
        ensures
            final(self).wf(),
            final(self).source == old(self).source,
            final(self).len == old(self).len,
            final(self).pos == old(self).pos + 1,
    {
        let c = self.source.get_char(self.pos);
        let n = c.len_utf8();
        proof {
            lemma_byte_start_mono(self.source@, self.pos + 1, self.source@.len() as int);
        }
        self.off = self.off + n;
        self.pos = self.pos + 1;
    }

    /// Consume characters while they match a predicate, leaving the cursor
    /// at the end of the maximal matching run.
    #[verifier::loop_isolation(false)]
    fn take_while<F: Fn(char) -> bool>(&mut self, pred: F, Ghost(p): Ghost<spec_fn(char) -> bool>)
        requires
            old(self).wf(),
            forall|c: char| #[trigger] pred.requires((c,)),
            forall|c: char, b: bool| #[trigger] pred.ensures((c,), b) ==> b == p(c),
        ensures
            final(self).wf(),
            final(self).source == old(self).source,
            final(self).len == old(self).len,
            final(self).pos == run_end(old(self).source@, old(self).pos as int, p),
    {
        loop
            invariant
                self.wf(),
                self.source == old(self).source,
                self.len == old(self).len,
                run_end(self.source@, self.pos as int, p) == run_end(
                    old(self).source@,
                    old(self).pos as int,
                    p,
                ),
            decreases self.len - self.pos,
        {
            if self.pos == self.len {
                return ;
            }
            let c = self.source.get_char(self.pos);
            if !pred(c) {
                return ;
            }
            self.advance();
        }
    }

    /// Produce a `Token` of a given `TokenKind` covering the source from
    /// character `cstart` (at byte offset `bstart`) up to the cursor.
    fn produce_token(&self, kind: TokenKind, cstart: usize, bstart: usize) -> (t: Token<'a>)
        requires
            self.wf(),
            cstart <= self.pos,
            bstart == byte_start(self.source@, cstart as int),
        ensures
            t.kind == kind,
            t.span.start == bstart,
            t.span.end == byte_start(self.source@, self.pos as int),
            t.view@ == self.source@.subrange(cstart as int, self.pos as int),
    {
        proof {
            lemma_byte_start_mono(self.source@, cstart as int, self.pos as int);
        }
        let view = self.source.substring_char(cstart, self.pos);
        Token { span: Span::new(bstart, self.off), kind, view }
    }

    /// Produce a `Token` of a given `TokenKind` from the character under
    /// the cursor followed by the maximal run of characters matching a
    /// predicate.
    fn produce_while<F: Fn(char) -> bool>(
        &mut self,
        kind: TokenKind,
        pred: F,
        Ghost(p): Ghost<spec_fn(char) -> bool>,
    ) -> (t: Token<'a>)
        requires
            old(self).wf(),
            old(self).pos < old(self).len,
            forall|c: char| #[trigger] pred.requires((c,)),
            forall|c: char, b: bool| #[trigger] pred.ensures((c,), b) ==> b == p(c),
        ensures
            final(self).wf(),
            final(self).source == old(self).source,
            final(self).len == old(self).len,
            final(self).pos == run_end(old(self).source@, old(self).pos + 1, p),
            t.kind == kind,
            t.span.start == byte_start(old(self).source@, old(self).pos as int),
            t.span.end == byte_start(old(self).source@, final(self).pos as int),
            t.view@ == old(self).source@.subrange(old(self).pos as int, final(self).pos as int),
    {
        let cstart = self.pos;
        let bstart = self.off;
        self.advance();
        self.take_while(pred, Ghost(p));
        proof {
            lemma_run_end(self.source@, cstart + 1, p);
        }
        self.produce_token(kind, cstart, bstart)
    }

    /// Produce a string literal `Token` between 2 un-escaped `"` characters,
    /// or running to the end of the source when no terminator is found.
    #[verifier::loop_isolation(false)]
    fn produce_string(&mut self) -> (t: Token<'a>)
        requires
            old(self).wf(),
            old(self).pos < old(self).len,
        ensures
            final(self).wf(),
            final(self).source == old(self).source,
            final(self).len == old(self).len,
            final(self).pos == string_end(old(self).source@, old(self).pos + 1),
            t.kind == TokenKind::String,
            t.span.start == byte_start(old(self).source@, old(self).pos as int),
            t.span.end == byte_start(old(self).source@, final(self).pos as int),
            t.view@ == old(self).source@.subrange(old(self).pos as int, final(self).pos as int),
    {
        let cstart = self.pos;
        let bstart = self.off;
        // the opening `"` is consumed and included unconditionally
        self.advance();
        loop
            invariant
                self.wf(),
                self.source == old(self).source,
                self.len == old(self).len,
                cstart < self.pos,
                string_end(self.source@, self.pos as int) == string_end(
                    old(self).source@,
                    old(self).pos + 1,
                ),
            decreases self.len - self.pos,
        {
            if self.pos == self.len {
                break ;
            }
            let c = self.source.get_char(self.pos);
            self.advance();
            if c == '\\' {
                // escape the next char, and include it, whatever it is
                if self.pos < self.len {
                    self.advance();
                }
            } else if c == '"' {
                break ;
            }
        }
        proof {
            lemma_string_end(self.source@, cstart + 1);
        }
        self.produce_token(TokenKind::String, cstart, bstart)
    }

    /// Produce a punctuation `Token` from the single character under the
    /// cursor.
    fn produce_punctuation(&mut self) -> (t: Token<'a>)
        requires
            old(self).wf(),
            old(self).pos < old(self).len,
        ensures
            final(self).wf(),
            final(self).source == old(self).source,
            final(self).len == old(self).len,
            final(self).pos == old(self).pos + 1,
            t.kind == punctuation_kind(old(self).source@[old(self).pos as int]),
            t.span.start == byte_start(old(self).source@, old(self).pos as int),
            t.span.end == byte_start(old(self).source@, final(self).pos as int),
            t.view@ == old(self).source@.subrange(old(self).pos as int, final(self).pos as int),
    {
        let cstart = self.pos;
        let bstart = self.off;
        let c = self.source.get_char(self.pos);
        self.advance();
        let kind = match c {
            '(' => TokenKind::Open(BracketKind::Paren),
            '[' => TokenKind::Open(BracketKind::Square),
            '{' => TokenKind::Open(BracketKind::Brace),
            ')' => TokenKind::Close(BracketKind::Paren),
            ']' => TokenKind::Close(BracketKind::Square),
            '}' => TokenKind::Close(BracketKind::Brace),
            ':' => TokenKind::Colon,
            ';' => TokenKind::Semicolon,
            '|' => TokenKind::Pipe,
            _ => TokenKind::Other(c),
        };
        self.produce_token(kind, cstart, bstart)
    }

    /// Produce the next token, or `None` once the source is exhausted.
    ///
    /// Every character yields some token: classification falls back to
    /// `Other` for a single un-grouped character, so lexing never fails.
    pub fn next(&mut self) -> (r: Option<Token<'a>>)
        requires
            old(self).wf(),
        ensures
            final(self).wf(),
            final(self).source == old(self).source,
            final(self).len == old(self).len,
            old(self).pos >= old(self).len ==> r is None && *final(self) == *old(self),
            old(self).pos < old(self).len ==> {
                &&& final(self).pos == token_end_at(old(self).source@, old(self).pos as int)
                &&& r matches Some(t) && token_at(old(self).source@, old(self).pos as int, t)
            },
    {
        if self.pos == self.len {
            return None;
        }
        let c = self.source.get_char(self.pos);
        let t = if c.is_whitespace() {
            self.produce_while(
                TokenKind::Whitespace,
                (|x: char| -> (b: bool)
                    ensures
                        b == whitespace_char(x),
                    { x.is_whitespace() }),
                Ghost(whitespace_pred()),
            )
        } else if identifier_start(c) {
            self.produce_while(
                TokenKind::Identifier,
                (|x: char| -> (b: bool)
                    ensures
                        b == identifier_body_char(x),
                    { identifier_body(x) }),
                Ghost(identifier_body_pred()),
            )
        } else if c == '#' {
            self.produce_while(
                TokenKind::Comment,
                (|x: char| -> (b: bool)
                    ensures
                        b == (x != '\n'),
                    { x != '\n' }),
                Ghost(comment_pred()),
            )
        } else if c == '"' {
            self.produce_string()
        } else {
            self.produce_punctuation()
        };
        Some(t)
    }
}

} // verus!
