//! The token model and the scanner: a single left-to-right pass over the
//! source bytes with one byte of lookahead, classifying each lexeme and
//! attributing to it the line on which it starts.

use vstd::prelude::*;

use crate::{Diagnostic, Lox, SpecDiag};

verus! {

/// The closed set of lexical categories.
#[derive(Debug, Clone, Copy, PartialEq, Eq, Structural)]
pub enum TokenType {
    // Single-character tokens
    LeftParen,
    RightParen,
    LeftBrace,
    RightBrace,
    Comma,
    Dot,
    Minus,
    Plus,
    Semicolon,
    Slash,
    Star,
    // One or two character tokens.
    Bang,
    BangEqual,
    Equal,
    EqualEqual,
    Greater,
    GreaterEqual,
    Less,
    LessEqual,
    // Literals
    Identifier,
    String,
    Number,
    // Keywords
    And,
    Class,
    Else,
    False,
    Fun,
    For,
    If,
    Nil,
    Or,
    Print,
    Return,
    Super,
    This,
    True,
    Var,
    While,
    Eof,
}

/// Placeholder for a literal's payload. None of the lexemes this scanner
/// recognizes carries a literal value, so the type has no content yet.
#[derive(Debug, Clone, Copy, PartialEq, Eq, Structural)]
pub struct Object;

/// One recognized lexeme: its category, the exact source bytes it covers
/// (empty only for the end-of-input sentinel), its literal payload where the
/// category is a literal one, and the line its first byte stands on.
#[derive(Debug, Clone, PartialEq, Eq)]
pub struct Token {
    pub _type: TokenType,
    pub lexeme: Vec<u8>,
    pub literal: Option<Object>,
    pub line: usize,
}

/// Ghost form of a token: the category, the lexeme bytes, whether a literal
/// payload is present, and an unbounded line number.
#[verifier::ext_equal]
pub ghost struct SpecToken {
    pub kind: TokenType,
    pub lexeme: Seq<u8>,
    pub has_literal: bool,
    pub line: int,
}

impl View for Token {
    type V = SpecToken;

    open spec fn view(&self) -> SpecToken {
        SpecToken {
            kind: self._type,
            lexeme: self.lexeme@,
            has_literal: self.literal is Some,
            line: self.line as int,
        }
    }
}

impl Token {
    pub fn new(_type: TokenType, lexeme: Vec<u8>, literal: Option<Object>, line: usize) -> (r: Self)
        ensures
            r._type == _type,
            r.lexeme == lexeme,
            r.literal == literal,
            r.line == line,
    {
        Self { _type, lexeme, literal, line }
    }
}

/// The views of a token sequence, in order.
pub open spec fn views_of(ts: Seq<Token>) -> Seq<SpecToken> {
    ts.map_values(|t: Token| t@)
}

/// The views of a diagnostic sequence, in order.
pub open spec fn diag_views_of(ds: Seq<Diagnostic>) -> Seq<SpecDiag> {
    ds.map_values(|d: Diagnostic| d@)
}

/// The category of a byte that is a single-character lexeme on its own,
/// if it is one.
pub open spec fn spec_single_kind(c: u8) -> Option<TokenType> {
    if c == 40 {
        Some(TokenType::LeftParen)
    } else if c == 41 {
        Some(TokenType::RightParen)
    } else if c == 123 {
        Some(TokenType::LeftBrace)
    } else if c == 125 {
        Some(TokenType::RightBrace)
    } else if c == 44 {
        Some(TokenType::Comma)
    } else if c == 46 {
        Some(TokenType::Dot)
    } else if c == 45 {
        Some(TokenType::Minus)
    } else if c == 43 {
        Some(TokenType::Plus)
    } else if c == 59 {
        Some(TokenType::Semicolon)
    } else if c == 47 {
        Some(TokenType::Slash)
    } else if c == 42 {
        Some(TokenType::Star)
    } else {
        None
    }
}

/// For a byte that opens a one-or-two-character operator, the pair of
/// categories it can produce: the compound form (when `=` follows) and the
/// simple form (when it does not).
pub open spec fn spec_two_char_kinds(c: u8) -> Option<(TokenType, TokenType)> {
    if c == 33 {
        Some((TokenType::BangEqual, TokenType::Bang))
    } else if c == 61 {
        Some((TokenType::EqualEqual, TokenType::Equal))
    } else if c == 60 {
        Some((TokenType::LessEqual, TokenType::Less))
    } else if c == 62 {
        Some((TokenType::GreaterEqual, TokenType::Greater))
    } else {
        None
    }
}

/// The end-of-input sentinel: empty lexeme, no literal.
pub open spec fn spec_eof_token(line: int) -> SpecToken {
    SpecToken { kind: TokenType::Eof, lexeme: Seq::empty(), has_literal: false, line }
}

/// What one dispatch step at position `i` does: the token it emits (if any),
/// the diagnostic it raises (if any), the position of the next unread byte,
/// and the line number after the step.
#[verifier::ext_equal]
pub ghost struct ScanStep {
    pub token: Option<SpecToken>,
    pub diag: Option<SpecDiag>,
    pub next: int,
    pub next_line: int,
}

impl ScanStep {
    /// The emitted token, as a sequence of zero or one elements.
    pub open spec fn tokens(&self) -> Seq<SpecToken> {
        match self.token {
            Some(t) => seq![t],
            None => Seq::empty(),
        }
    }

    /// The raised diagnostic, as a sequence of zero or one elements.
    pub open spec fn diags(&self) -> Seq<SpecDiag> {
        match self.diag {
            Some(d) => seq![d],
            None => Seq::empty(),
        }
    }
}

/// One step of the scan at position `i` on line `line`: single-character
/// lexemes are emitted as they stand; an operator prefix consumes a following
/// `=` and emits the compound form, else the simple form; a newline advances
/// the line count and emits nothing; any other unmatched byte raises one
/// diagnostic and is skipped.
pub open spec fn spec_step(s: Seq<u8>, i: int, line: int) -> ScanStep
    recommends
        0 <= i < s.len(),
{
    let c = s[i];
    if spec_single_kind(c) is Some {
        ScanStep {
            token: Some(
                (SpecToken {
                    kind: spec_single_kind(c)->0,
                    lexeme: s.subrange(i, i + 1),
                    has_literal: false,
                    line,
                }),
            ),
            diag: None,
            next: i + 1,
            next_line: line,
        }
    } else if spec_two_char_kinds(c) is Some {
        let kinds = spec_two_char_kinds(c)->0;
        if i + 1 < s.len() && s[i + 1] == 61 {
            ScanStep {
                token: Some(
                    (SpecToken {
                        kind: kinds.0,
                        lexeme: s.subrange(i, i + 2),
                        has_literal: false,
                        line,
                    }),
                ),
                diag: None,
                next: i + 2,
                next_line: line,
            }
        } else {
            ScanStep {
                token: Some(
                    (SpecToken {
                        kind: kinds.1,
                        lexeme: s.subrange(i, i + 1),
                        has_literal: false,
                        line,
                    }),
                ),
                diag: None,
                next: i + 1,
                next_line: line,
            }
        }
    } else if c == 10 {
        ScanStep { token: None, diag: None, next: i + 1, next_line: line + 1 }
    } else {
        ScanStep {
            token: None,
            diag: Some((SpecDiag { line, ch: c })),
            next: i + 1,
            next_line: line,
        }
    }
}

/// Everything a scan produces: the tokens, in order, ending in the sentinel,
/// and the diagnostics, in order.
#[verifier::ext_equal]
pub ghost struct ScanOutput {
    pub tokens: Seq<SpecToken>,
    pub diags: Seq<SpecDiag>,
}

/// The full scan of `s` from position `i` on line `line`: the mathematical
/// model the scanner is held to. At the end of input exactly one sentinel
/// token is appended, carrying the final line number.
pub open spec fn spec_scan(s: Seq<u8>, i: int, line: int) -> ScanOutput
    decreases s.len() - i,
{
    if i < 0 || i >= s.len() {
        ScanOutput { tokens: seq![spec_eof_token(line)], diags: Seq::empty() }
    } else {
        let st = spec_step(s, i, line);
        let rest = spec_scan(s, st.next, st.next_line);
        ScanOutput { tokens: st.tokens() + rest.tokens, diags: st.diags() + rest.diags }
    }
}

/// The number of newline bytes among the first `i` bytes of `s`.
pub open spec fn newlines_up_to(s: Seq<u8>, i: int) -> int
    decreases i,
{
    if i <= 0 {
        0
    } else {
        newlines_up_to(s, i - 1) + (if s[i - 1] == 10 {
            1int
        } else {
            0int
        })
    }
}

/// Whether the dispatch step at position `i` emits a token.
pub open spec fn spec_step_emits(s: Seq<u8>, i: int) -> bool {
    spec_single_kind(s[i]) is Some || spec_two_char_kinds(s[i]) is Some
}

/// Where the dispatch step at position `i` leaves the cursor: two bytes on
/// for a compound operator, one byte on in every other case.
pub open spec fn spec_step_next(s: Seq<u8>, i: int) -> int {
    if spec_two_char_kinds(s[i]) is Some && i + 1 < s.len() && s[i + 1] == 61 {
        i + 2
    } else {
        i + 1
    }
}

/// The position at which each token emitted from position `i` onwards
/// begins, in emission order; the closing sentinel is attributed the end of
/// the source.
pub open spec fn spec_token_starts(s: Seq<u8>, i: int) -> Seq<int>
    decreases s.len() - i,
{
    if i < 0 || i >= s.len() {
        seq![s.len() as int]
    } else if spec_step_emits(s, i) {
        seq![i] + spec_token_starts(s, spec_step_next(s, i))
    } else {
        spec_token_starts(s, spec_step_next(s, i))
    }
}

/// Law: a source made only of single-character lexemes scans to exactly one
/// token per input byte, in input order, each with the kind belonging to its
/// byte, that byte alone as its lexeme, no literal, and the entering line
/// number; no diagnostics arise, and only the sentinel follows.
pub proof fn lemma_punctuation_only(s: Seq<u8>, i: int, line: int)
    requires
        0 <= i <= s.len(),
        forall|j: int| 0 <= j < s.len() ==> spec_single_kind(#[trigger] s[j]) is Some,
    ensures
        spec_scan(s, i, line).tokens.len() == s.len() - i + 1,
        forall|k: int|
            0 <= k < s.len() - i ==> {
                &&& (#[trigger] spec_scan(s, i, line).tokens[k]).kind == spec_single_kind(
                    s[i + k],
                )->0
                &&& spec_scan(s, i, line).tokens[k].lexeme == s.subrange(i + k, i + k + 1)
                &&& !spec_scan(s, i, line).tokens[k].has_literal
                &&& spec_scan(s, i, line).tokens[k].line == line
            },
        spec_scan(s, i, line).tokens[s.len() - i] == spec_eof_token(line),
        spec_scan(s, i, line).diags.len() == 0,
    decreases s.len() - i,
{
    if i < s.len() {
        lemma_punctuation_only(s, i + 1, line);
        let st = spec_step(s, i, line);
        assert(st.next == i + 1 && st.next_line == line);
        assert forall|k: int| 0 <= k < s.len() - i implies {
            &&& (#[trigger] spec_scan(s, i, line).tokens[k]).kind == spec_single_kind(s[i + k])->0
            &&& spec_scan(s, i, line).tokens[k].lexeme == s.subrange(i + k, i + k + 1)
            &&& !spec_scan(s, i, line).tokens[k].has_literal
            &&& spec_scan(s, i, line).tokens[k].line == line
        } by {
            if k > 0 {
                assert(spec_scan(s, i, line).tokens[k] == spec_scan(s, i + 1, line).tokens[k - 1]);
            }
        }
    }
}

/// Law: maximal munch over the two-byte window. An operator prefix byte
/// immediately followed by `=` scans to exactly one token, the compound
/// form, whose lexeme is both bytes, and scanning resumes after them.
pub proof fn lemma_compound_operator(s: Seq<u8>, i: int, line: int)
    requires
        0 <= i,
        i + 1 < s.len(),
        spec_two_char_kinds(s[i]) is Some,
        s[i + 1] == 61,
    ensures
        spec_scan(s, i, line).tokens == seq![
            (SpecToken {
                kind: (spec_two_char_kinds(s[i])->0).0,
                lexeme: s.subrange(i, i + 2),
                has_literal: false,
                line,
            }),
        ] + spec_scan(s, i + 2, line).tokens,
        spec_scan(s, i, line).diags == spec_scan(s, i + 2, line).diags,
{
    assert(spec_scan(s, i, line).diags =~= spec_scan(s, i + 2, line).diags);
}

/// Law: no speculative consumption. An operator prefix byte not followed by
/// `=` scans to the simple form, whose lexeme is that one byte, and the
/// following byte is scanned again as the start of its own lexeme.
pub proof fn lemma_simple_operator(s: Seq<u8>, i: int, line: int)
    requires
        0 <= i < s.len(),
        spec_two_char_kinds(s[i]) is Some,
        i + 1 < s.len() ==> s[i + 1] != 61,
    ensures
        spec_scan(s, i, line).tokens == seq![
            (SpecToken {
                kind: (spec_two_char_kinds(s[i])->0).1,
                lexeme: s.subrange(i, i + 1),
                has_literal: false,
                line,
            }),
        ] + spec_scan(s, i + 1, line).tokens,
        spec_scan(s, i, line).diags == spec_scan(s, i + 1, line).diags,
{
    assert(spec_scan(s, i, line).diags =~= spec_scan(s, i + 1, line).diags);
}

/// Law: error recovery is per byte. An unrecognized byte produces no token;
/// it raises exactly one diagnostic, carrying the line it stands on and the
/// byte itself; and scanning continues with the very next byte.
pub proof fn lemma_unrecognized_byte(s: Seq<u8>, i: int, line: int)
    requires
        0 <= i < s.len(),
        spec_single_kind(s[i]) is None,
        spec_two_char_kinds(s[i]) is None,
        s[i] != 10,
    ensures
        spec_scan(s, i, line).tokens == spec_scan(s, i + 1, line).tokens,
        spec_scan(s, i, line).diags == seq![(SpecDiag { line, ch: s[i] })] + spec_scan(
            s,
            i + 1,
            line,
        ).diags,
{
    assert(spec_scan(s, i, line).tokens =~= spec_scan(s, i + 1, line).tokens);
}

/// Law: line attribution. When the scan enters position `i` with a line
/// number one greater than the number of newline bytes before `i`, every
/// token comes out with a line number one greater than the number of newline
/// bytes before the first byte of its lexeme, and the sentinel's line counts
/// the newlines of the whole source.
pub proof fn lemma_line_attribution(s: Seq<u8>, i: int, line: int)
    requires
        0 <= i <= s.len(),
        line == 1 + newlines_up_to(s, i),
    ensures
        spec_token_starts(s, i).len() == spec_scan(s, i, line).tokens.len(),
        forall|k: int|
            0 <= k < spec_scan(s, i, line).tokens.len() ==> (#[trigger] spec_scan(
                s,
                i,
                line,
            ).tokens[k]).line == 1 + newlines_up_to(s, spec_token_starts(s, i)[k]),
    decreases s.len() - i,
{
    if i < s.len() {
        let st = spec_step(s, i, line);
        assert(newlines_up_to(s, i + 1) == newlines_up_to(s, i) + (if s[i] == 10 {
            1int
        } else {
            0int
        }));
        if st.next == i + 2 {
            assert(newlines_up_to(s, i + 2) == newlines_up_to(s, i + 1) + (if s[i + 1] == 10 {
                1int
            } else {
                0int
            }));
        }
        assert(st.next == spec_step_next(s, i));
        assert(st.next_line == 1 + newlines_up_to(s, st.next));
        lemma_line_attribution(s, st.next, st.next_line);
        assert forall|k: int| 0 <= k < spec_scan(s, i, line).tokens.len() implies (
        #[trigger] spec_scan(s, i, line).tokens[k]).line == 1 + newlines_up_to(
            s,
            spec_token_starts(s, i)[k],
        ) by {
            if spec_step_emits(s, i) {
                if k > 0 {
                    assert(spec_scan(s, i, line).tokens[k] == spec_scan(
                        s,
                        st.next,
                        st.next_line,
                    ).tokens[k - 1]);
                    assert(spec_token_starts(s, i)[k] == spec_token_starts(s, st.next)[k - 1]);
                }
            } else {
                assert(spec_scan(s, i, line).tokens[k] == spec_scan(
                    s,
                    st.next,
                    st.next_line,
                ).tokens[k]);
                assert(spec_token_starts(s, i)[k] == spec_token_starts(s, st.next)[k]);
            }
        }
    }
}

/// Law: the shape of every scan. The token sequence ends in exactly one
/// end-of-input sentinel, whose lexeme is empty, and contains no other
/// sentinel; every other token covers one or two source bytes; and no token
/// carries a literal payload.
pub proof fn lemma_output_shape(s: Seq<u8>, i: int, line: int)
    requires
        0 <= i <= s.len(),
    ensures
        spec_scan(s, i, line).tokens.len() >= 1,
        spec_scan(s, i, line).tokens.last().kind == TokenType::Eof,
        spec_scan(s, i, line).tokens.last().lexeme.len() == 0,
        !spec_scan(s, i, line).tokens.last().has_literal,
        forall|k: int|
            0 <= k < spec_scan(s, i, line).tokens.len() - 1 ==> {
                &&& (#[trigger] spec_scan(s, i, line).tokens[k]).kind != TokenType::Eof
                &&& 1 <= spec_scan(s, i, line).tokens[k].lexeme.len() <= 2
                &&& !spec_scan(s, i, line).tokens[k].has_literal
            },
    decreases s.len() - i,
{
    if i < s.len() {
        let st = spec_step(s, i, line);
        lemma_output_shape(s, st.next, st.next_line);
        assert forall|k: int| 0 <= k < spec_scan(s, i, line).tokens.len() - 1 implies {
            &&& (#[trigger] spec_scan(s, i, line).tokens[k]).kind != TokenType::Eof
            &&& 1 <= spec_scan(s, i, line).tokens[k].lexeme.len() <= 2
            &&& !spec_scan(s, i, line).tokens[k].has_literal
        } by {
            if st.token is Some && k > 0 {
                assert(spec_scan(s, i, line).tokens[k] == spec_scan(
                    s,
                    st.next,
                    st.next_line,
                ).tokens[k - 1]);
            }
            if st.token is None {
                assert(spec_scan(s, i, line).tokens[k] == spec_scan(
                    s,
                    st.next,
                    st.next_line,
                ).tokens[k]);
            }
        }
    }
}

/// Law: scanning is a function of the source bytes alone. Two token
/// sequences obtained from the same bytes by fresh scans are element-wise
/// identical: same kind, same lexeme, same literal presence, same line.
pub proof fn lemma_scan_deterministic(b: Seq<u8>, ts1: Seq<Token>, ts2: Seq<Token>)
    requires
        views_of(ts1) == spec_scan(b, 0, 1).tokens,
        views_of(ts2) == spec_scan(b, 0, 1).tokens,
    ensures
        ts1.len() == ts2.len(),
        forall|k: int| 0 <= k < ts1.len() ==> #[trigger] ts1[k]@ == ts2[k]@,
{
    assert(views_of(ts1).len() == ts1.len());
    assert(views_of(ts2).len() == ts2.len());
    assert forall|k: int| 0 <= k < ts1.len() implies #[trigger] ts1[k]@ == ts2[k]@ by {
        assert(views_of(ts1)[k] == ts1[k]@);
        assert(views_of(ts2)[k] == ts2[k]@);
    }
}

/// The stateful cursor over one chunk of source text. `start` marks the
/// first byte of the lexeme being scanned, `current` the next unread byte,
/// and `line` the line that `current` stands on, counted from 1.
pub struct Scanner {
    pub source: Vec<u8>,
    pub tokens: Vec<Token>,
    pub start: usize,
    pub current: usize,
    pub line: usize,
}

impl Scanner {
    /// The scanner's invariant: the cursors stay within the source, the line
    /// count starts at 1 and can exceed the bytes read so far by at most one,
    /// and one line number beyond the source length still fits in `usize`.
    pub open spec fn wf(&self) -> bool {
        &&& self.start <= self.current <= self.source@.len()
        &&& 1 <= self.line
        &&& self.line <= self.current + 1
        &&& self.source@.len() < usize::MAX
    }

    /// A fresh scanner over the UTF-8 bytes of `source`, positioned at the
    /// first byte of line 1 with no tokens yet.
    pub fn new(source: String) -> (r: Self)
        requires
            vstd::utf8::encode_utf8(source@).len() < usize::MAX,
        ensures
            r.wf(),
            r.source@ == vstd::utf8::encode_utf8(source@),
            r.tokens@ == Seq::<Token>::empty(),
            r.start == 0,
            r.current == 0,
            r.line == 1,
    {
        Self {
            source: source.as_str().as_bytes_vec(),
            tokens: Vec::new(),
            start: 0,
            current: 0,
            line: 1,
        }
    }

    /// Whether the whole source has been read.
    fn is_at_end(&self) -> (r: bool)
        ensures
            r == (self.current >= self.source@.len()),
    {
        self.current >= self.source.len()
    }

    /// The byte at `current`. Callers must know that unread input remains.
    fn source_current_char(&self) -> (c: u8)
        requires
            self.current < self.source@.len(),
        ensures
            c == self.source@[self.current as int],
    {
        self.source[self.current]
    }

    /// Consume the next unread byte and return it, advancing `current` by
    /// one. Callers must only invoke this while unread input remains.
    fn advance(&mut self) -> (c: u8)
        requires
            old(self).wf(),
            old(self).current < old(self).source@.len(),
        ensures
            final(self).wf(),
            final(self).source == old(self).source,
            final(self).tokens == old(self).tokens,
            final(self).start == old(self).start,
            final(self).line == old(self).line,
            final(self).current == old(self).current + 1,
            c == old(self).source@[old(self).current as int],
    {
        let c = self.source_current_char();
        self.current = self.current + 1;
        c
    }

    /// Conditional consumption: when the byte at `current` equals `c`,
    /// consume it and return true; otherwise leave the cursor untouched and
    /// return false. At end of input nothing matches.
    fn _match(&mut self, c: u8) -> (r: bool)
        requires
            old(self).wf(),
        ensures
            final(self).wf(),
            final(self).source == old(self).source,
            final(self).tokens == old(self).tokens,
            final(self).start == old(self).start,
            final(self).line == old(self).line,
            r == (old(self).current < old(self).source@.len()
                && old(self).source@[old(self).current as int] == c),
            final(self).current == if r {
                old(self).current + 1
            } else {
                old(self).current as int
            },
    {
        if self.is_at_end() {
            return false;
        }
        if self.source_current_char() != c {
            return false;
        }
        self.current = self.current + 1;
        true
    }

    /// Consume the entire remaining source and return the completed token
    /// sequence: one token per recognized lexeme, in source order, terminated
    /// by exactly one end-of-input sentinel carrying the line the scan ended
    /// on. Lexical errors never stop the scan: each one is recorded in `lox`
    /// and its byte produces no token.
    pub fn scan_tokens(&mut self, lox: &mut Lox) -> (r: &Vec<Token>)
        requires
            old(self).wf(),
        ensures
            final(self).wf(),
            final(self).source == old(self).source,
            final(self).current == final(self).source@.len(),
            r@ == final(self).tokens@,
            ({
                let out = spec_scan(
                    old(self).source@,
                    old(self).current as int,
                    old(self).line as int,
                );
                &&& views_of(final(self).tokens@) == views_of(old(self).tokens@) + out.tokens
                &&& diag_views_of(final(lox).diagnostics@) == diag_views_of(
                    old(lox).diagnostics@,
                ) + out.diags
                &&& final(lox).had_error == (old(lox).had_error || out.diags.len() > 0)
            }),
    {
        loop
            invariant
                self.wf(),
                self.source == old(self).source,
                lox.diagnostics@.len() >= old(lox).diagnostics@.len(),
                lox.had_error == (old(lox).had_error || lox.diagnostics@.len() > old(
                    lox,
                ).diagnostics@.len()),
                views_of(self.tokens@) + spec_scan(
                    self.source@,
                    self.current as int,
                    self.line as int,
                ).tokens == views_of(old(self).tokens@) + spec_scan(
                    old(self).source@,
                    old(self).current as int,
                    old(self).line as int,
                ).tokens,
                diag_views_of(lox.diagnostics@) + spec_scan(
                    self.source@,
                    self.current as int,
                    self.line as int,
                ).diags == diag_views_of(old(lox).diagnostics@) + spec_scan(
                    old(self).source@,
                    old(self).current as int,
                    old(self).line as int,
                ).diags,
            ensures
                self.current >= self.source@.len(),
            decreases self.source@.len() - self.current,
        {
            if self.is_at_end() {
                break;
            }
            // We are at the beginning of the next lexeme.
            self.start = self.current;
            let ghost pre = *self;
            self.scan_token(lox);
            proof {
                assert(views_of(self.tokens@) + spec_scan(
                    self.source@,
                    self.current as int,
                    self.line as int,
                ).tokens =~= views_of(pre.tokens@) + spec_scan(
                    pre.source@,
                    pre.current as int,
                    pre.line as int,
                ).tokens);
                assert(diag_views_of(lox.diagnostics@) + spec_scan(
                    self.source@,
                    self.current as int,
                    self.line as int,
                ).diags =~= diag_views_of(old(lox).diagnostics@) + spec_scan(
                    old(self).source@,
                    old(self).current as int,
                    old(self).line as int,
                ).diags);
            }
        }
        let ghost before_eof = *self;
        let eof_tok = Token::new(TokenType::Eof, Vec::new(), None, self.line);
        self.tokens.push(eof_tok);
        proof {
            assert(spec_scan(self.source@, before_eof.current as int, self.line as int).tokens
                =~= seq![spec_eof_token(self.line as int)]);
            assert(views_of(self.tokens@) =~= views_of(old(self).tokens@) + spec_scan(
                old(self).source@,
                old(self).current as int,
                old(self).line as int,
            ).tokens);
            assert(diag_views_of(lox.diagnostics@) =~= diag_views_of(old(lox).diagnostics@)
                + spec_scan(
                old(self).source@,
                old(self).current as int,
                old(self).line as int,
            ).diags);
        }
        &self.tokens
    }

    /// Scan the single lexeme that begins at `current`: consume one byte,
    /// dispatch on it, and emit at most one token or one diagnostic, exactly
    /// as `spec_step` says.
    fn scan_token(&mut self, lox: &mut Lox)
        requires
            old(self).wf(),
            old(self).start == old(self).current,
            old(self).current < old(self).source@.len(),
        ensures
            final(self).wf(),
            final(self).source == old(self).source,
            final(self).start == old(self).start,
            ({
                let st = spec_step(
                    old(self).source@,
                    old(self).current as int,
                    old(self).line as int,
                );
                &&& final(self).current == st.next
                &&& final(self).line == st.next_line
                &&& views_of(final(self).tokens@) == views_of(old(self).tokens@) + st.tokens()
                &&& diag_views_of(final(lox).diagnostics@) == diag_views_of(
                    old(lox).diagnostics@,
                ) + st.diags()
                &&& final(lox).had_error == (old(lox).had_error || st.diag is Some)
            }),
    {
        let c = self.advance();
        match c {
            40 => self.add_token(TokenType::LeftParen, None),  // '('
            41 => self.add_token(TokenType::RightParen, None),  // ')'
            123 => self.add_token(TokenType::LeftBrace, None),  // '{'
            125 => self.add_token(TokenType::RightBrace, None),  // '}'
            44 => self.add_token(TokenType::Comma, None),  // ','
            46 => self.add_token(TokenType::Dot, None),  // '.'
            45 => self.add_token(TokenType::Minus, None),  // '-'
            43 => self.add_token(TokenType::Plus, None),  // '+'
            59 => self.add_token(TokenType::Semicolon, None),  // ';'
            47 => self.add_token(TokenType::Slash, None),  // '/'
            42 => self.add_token(TokenType::Star, None),  // '*'
            33 => {  // '!'
                let t = if self._match(61) {
                    TokenType::BangEqual
                } else {
                    TokenType::Bang
                };
                self.add_token(t, None);
            },
            61 => {  // '='
                let t = if self._match(61) {
                    TokenType::EqualEqual
                } else {
                    TokenType::Equal
                };
                self.add_token(t, None);
            },
            60 => {  // '<'
                let t = if self._match(61) {
                    TokenType::LessEqual
                } else {
                    TokenType::Less
                };
                self.add_token(t, None);
            },
            62 => {  // '>'
                let t = if self._match(61) {
                    TokenType::GreaterEqual
                } else {
                    TokenType::Greater
                };
                self.add_token(t, None);
            },
            10 => {  // newline
                self.line = self.line + 1;
            },
            _ => {
                lox.error(self.line, c);
            },
        }
        proof {
            let st = spec_step(old(self).source@, old(self).current as int, old(self).line as int);
            assert(views_of(self.tokens@) =~= views_of(old(self).tokens@) + st.tokens());
            assert(diag_views_of(lox.diagnostics@) =~= diag_views_of(old(lox).diagnostics@)
                + st.diags());
        }
    }

    /// Append one token for the lexeme `source[start..current]`, carrying the
    /// current line number.
    fn add_token(&mut self, token_type: TokenType, literal: Option<Object>)
        requires
            old(self).wf(),
        ensures
            final(self).wf(),
            final(self).source == old(self).source,
            final(self).start == old(self).start,
            final(self).current == old(self).current,
            final(self).line == old(self).line,
            views_of(final(self).tokens@) == views_of(old(self).tokens@).push(
                (SpecToken {
                    kind: token_type,
                    lexeme: old(self).source@.subrange(
                        old(self).start as int,
                        old(self).current as int,
                    ),
                    has_literal: literal is Some,
                    line: old(self).line as int,
                }),
            ),
    {
        let text = vstd::slice::slice_to_vec(
            vstd::slice::slice_subrange(self.source.as_slice(), self.start, self.current),
        );
        let tok = Token::new(token_type, text, literal, self.line);
        self.tokens.push(tok);
        proof {
            assert(views_of(self.tokens@) =~= views_of(old(self).tokens@).push(
                (SpecToken {
                    kind: token_type,
                    lexeme: old(self).source@.subrange(
                        old(self).start as int,
                        old(self).current as int,
                    ),
                    has_literal: literal is Some,
                    line: old(self).line as int,
                }),
            ));
        }
    }
}

} // verus!

