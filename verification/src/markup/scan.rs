//! Scanner for FML source: turns a UTF-8 source buffer into located tokens.
//!
//! The scanner works on the bytes of the source. A token records its kind,
//! the line its first byte stands on (lines are counted by newline bytes),
//! and its lexeme: the literal bytes of the source, for strings including the
//! quotes.

use crate::{ErrorKind, FroggiError, ScanError};
use vstd::prelude::*;
use vstd::string::{StrSliceExecFns, StringSliceAdditionalSpecFns};

verus! {

#[derive(Debug, Clone, Copy, PartialEq, Eq, Structural)]
pub enum TokenKind {
    LeftParen,
    RightParen,
    LeftBrace,
    RightBrace,
    String,
    Identifier,
    Box,
    VBox,
    Text,
    Inline,
    Link,
    Anchor,
    Blob,
    ImplicitText,
    End,
}

/// A located token: kind, source line of its first byte, literal lexeme.
#[derive(Debug, Clone, PartialEq, Eq)]
pub struct Token {
    pub kind: TokenKind,
    pub line: usize,
    pub lexeme: Vec<u8>,
}

// ---------------------------------------------------------------------------
// Character classes
// ---------------------------------------------------------------------------

pub open spec fn is_whitespace_byte(b: u8) -> bool {
    b == ' ' as u8 || b == '\t' as u8 || b == '\r' as u8 || b == '\n' as u8
}

/// The token kind of a single-byte token, if the byte is one.
pub open spec fn single_kind(b: u8) -> Option<TokenKind> {
    if b == '(' as u8 {
        Some(TokenKind::LeftParen)
    } else if b == ')' as u8 {
        Some(TokenKind::RightParen)
    } else if b == '{' as u8 {
        Some(TokenKind::LeftBrace)
    } else if b == '}' as u8 {
        Some(TokenKind::RightBrace)
    } else if b == '^' as u8 {
        Some(TokenKind::Link)
    } else if b == '&' as u8 {
        Some(TokenKind::Blob)
    } else if b == '#' as u8 {
        Some(TokenKind::Anchor)
    } else if b == '*' as u8 {
        Some(TokenKind::Text)
    } else if b == '|' as u8 {
        Some(TokenKind::VBox)
    } else if b == '%' as u8 {
        Some(TokenKind::Inline)
    } else if b == '$' as u8 {
        Some(TokenKind::Box)
    } else {
        None
    }
}

/// Bytes that terminate an adjacent identifier.
pub open spec fn is_delimiter_byte(b: u8) -> bool {
    single_kind(b) is Some || b == '"' as u8
}

/// Bytes that may stand inside an identifier.
pub open spec fn is_identifier_byte(b: u8) -> bool {
    !is_whitespace_byte(b) && !is_delimiter_byte(b)
}

/// The word forms of the box, vertical box, text and inline built-ins:
/// beside the sigils, these identifiers scan as their own token kinds.
pub open spec fn kw_box() -> Seq<u8> {
    seq!['b' as u8, 'o' as u8, 'x' as u8]
}

pub open spec fn kw_vbox() -> Seq<u8> {
    seq!['v' as u8, 'b' as u8, 'o' as u8, 'x' as u8]
}

pub open spec fn kw_text() -> Seq<u8> {
    seq!['t' as u8, 'e' as u8, 'x' as u8, 't' as u8]
}

pub open spec fn kw_inline() -> Seq<u8> {
    seq!['i' as u8, 'n' as u8, 'l' as u8, 'i' as u8, 'n' as u8, 'e' as u8]
}

/// The kind of a scanned word: a built-in keyword or a plain identifier.
pub open spec fn word_kind(lex: Seq<u8>) -> TokenKind {
    if lex == kw_box() {
        TokenKind::Box
    } else if lex == kw_vbox() {
        TokenKind::VBox
    } else if lex == kw_text() {
        TokenKind::Text
    } else if lex == kw_inline() {
        TokenKind::Inline
    } else {
        TokenKind::Identifier
    }
}

/// The characters accepted after a backslash inside a string literal.
pub open spec fn is_escape_code(b: u8) -> bool {
    b == 'n' as u8 || b == 't' as u8 || b == '\\' as u8 || b == '"' as u8
}

// ---------------------------------------------------------------------------
// Line counting
// ---------------------------------------------------------------------------

/// How many newline bytes a sequence holds.
pub open spec fn count_nl(s: Seq<u8>) -> int
    decreases s.len(),
{
    if s.len() == 0 {
        0
    } else {
        count_nl(s.drop_last()) + if s.last() == '\n' as u8 {
            1int
        } else {
            0int
        }
    }
}

pub proof fn lemma_count_nl_bounds(s: Seq<u8>)
    ensures
        0 <= count_nl(s) <= s.len(),
    decreases s.len(),
{
    if s.len() > 0 {
        lemma_count_nl_bounds(s.drop_last());
    }
}

/// Extending a prefix by one byte adds one to the newline count exactly when
/// that byte is a newline.
pub proof fn lemma_count_nl_step(s: Seq<u8>, i: int)
    requires
        0 <= i < s.len(),
    ensures
        count_nl(s.take(i + 1)) == count_nl(s.take(i)) + if s[i] == '\n' as u8 {
            1int
        } else {
            0int
        },
{
    assert(s.take(i + 1).drop_last() =~= s.take(i));
    assert(s.take(i + 1).last() == s[i]);
}

// ---------------------------------------------------------------------------
// The scanner, specification level
// ---------------------------------------------------------------------------

/// Where the identifier that starts at `pos` ends.
pub open spec fn spec_ident_end(src: Seq<u8>, pos: int) -> int
    decreases src.len() - pos,
{
    if pos < 0 || pos >= src.len() {
        pos
    } else if !is_identifier_byte(src[pos]) {
        pos
    } else {
        spec_ident_end(src, pos + 1)
    }
}

/// Scanning a string literal from just after its opening quote: either the
/// position just past the closing quote and the line it stands on, or a scan
/// error with the line it was found on.
pub open spec fn spec_scan_string(src: Seq<u8>, pos: int, start_line: int, line: int) -> Result<
    (int, int),
    (ScanError, int),
>
    decreases src.len() - pos,
{
    if pos < 0 || pos >= src.len() {
        Err((ScanError::UnterminatedString { start_line: start_line as usize }, line))
    } else if src[pos] == '"' as u8 {
        Ok((pos + 1, line))
    } else if src[pos] == '\\' as u8 {
        if pos + 1 >= src.len() {
            Err((ScanError::UnterminatedString { start_line: start_line as usize }, line))
        } else if is_escape_code(src[pos + 1]) {
            spec_scan_string(src, pos + 2, start_line, line)
        } else {
            Err((ScanError::UnknownEscapeCode { code: src[pos + 1] as char }, line))
        }
    } else {
        spec_scan_string(
            src,
            pos + 1,
            start_line,
            line + if src[pos] == '\n' as u8 {
                1int
            } else {
                0int
            },
        )
    }
}

/// One step of the scanner from byte `pos` on line `line`: the token
/// (kind, line, lexeme) and the position and line after it, or a scan error.
pub open spec fn spec_next_token(src: Seq<u8>, pos: int, line: int) -> Result<
    ((TokenKind, int, Seq<u8>), int, int),
    (ScanError, int),
>
    decreases src.len() - pos,
{
    if pos < 0 || pos >= src.len() {
        Ok(((TokenKind::End, line, Seq::empty()), pos, line))
    } else if is_whitespace_byte(src[pos]) {
        spec_next_token(
            src,
            pos + 1,
            line + if src[pos] == '\n' as u8 {
                1int
            } else {
                0int
            },
        )
    } else if single_kind(src[pos]) is Some {
        Ok(((single_kind(src[pos])->Some_0, line, src.subrange(pos, pos + 1)), pos + 1, line))
    } else if src[pos] == '"' as u8 {
        match spec_scan_string(src, pos + 1, line, line) {
            Ok((end, l2)) => Ok(((TokenKind::String, line, src.subrange(pos, end)), end, l2)),
            Err(e) => Err(e),
        }
    } else {
        let end = spec_ident_end(src, pos);
        Ok(((word_kind(src.subrange(pos, end)), line, src.subrange(pos, end)), end, line))
    }
}

/// The n-th upcoming token from byte `pos` on line `line`.
pub open spec fn spec_peek(src: Seq<u8>, pos: int, line: int, n: int) -> Result<
    (TokenKind, int, Seq<u8>),
    (ScanError, int),
>
    decreases n,
{
    match spec_next_token(src, pos, line) {
        Err(e) => Err(e),
        Ok((m, p2, l2)) => if n <= 0 {
            Ok(m)
        } else {
            spec_peek(src, p2, l2, n - 1)
        },
    }
}

/// An exec token carries the same data as a spec-level token model.
pub open spec fn token_matches(t: Token, m: (TokenKind, int, Seq<u8>)) -> bool {
    t.kind == m.0 && t.line == m.1 && t.lexeme@ == m.2
}

/// The byte an escape code stands for.
pub open spec fn unescaped_byte(c: u8) -> u8 {
    if c == 'n' as u8 {
        10u8
    } else if c == 't' as u8 {
        9u8
    } else {
        c
    }
}

/// Resolving the escape sequences of a string token's text: the decoded
/// bytes, or the offending byte after a backslash.
pub open spec fn spec_unescape(s: Seq<u8>) -> Result<Seq<u8>, u8>
    decreases s.len(),
{
    if s.len() == 0 {
        Ok(Seq::empty())
    } else if s[0] == '\\' as u8 {
        if s.len() == 1 {
            Err('\\' as u8)
        } else if !is_escape_code(s[1]) {
            Err(s[1])
        } else {
            match spec_unescape(s.skip(2)) {
                Err(e) => Err(e),
                Ok(r) => Ok(seq![unescaped_byte(s[1])] + r),
            }
        }
    } else {
        match spec_unescape(s.skip(1)) {
            Err(e) => Err(e),
            Ok(r) => Ok(seq![s[0]] + r),
        }
    }
}

/// Two tokens that carry the same kind, line and lexeme.
pub open spec fn token_like(a: Token, b: Token) -> bool {
    a.kind == b.kind && a.line == b.line && a.lexeme@ == b.lexeme@
}

/// The error kind that a failed scan step turns into.
pub open spec fn scan_err_kind<T>(r: Result<T, (ScanError, int)>) -> ErrorKind
    recommends
        r is Err,
{
    ErrorKind::ScanError { error: r->Err_0.0, line: r->Err_0.1 as usize }
}

// ---------------------------------------------------------------------------
// Facts about the spec scanner
// ---------------------------------------------------------------------------

pub proof fn lemma_scan_string_advances(src: Seq<u8>, pos: int, start_line: int, line: int)
    requires
        0 <= pos <= src.len(),
        spec_scan_string(src, pos, start_line, line) is Ok,
    ensures
        pos < spec_scan_string(src, pos, start_line, line)->Ok_0.0 <= src.len(),
        line <= spec_scan_string(src, pos, start_line, line)->Ok_0.1,
    decreases src.len() - pos,
{
    if pos >= src.len() {
    } else if src[pos] == '"' as u8 {
    } else if src[pos] == '\\' as u8 {
        if pos + 1 < src.len() && is_escape_code(src[pos + 1]) {
            lemma_scan_string_advances(src, pos + 2, start_line, line);
        }
    } else {
        lemma_scan_string_advances(
            src,
            pos + 1,
            start_line,
            line + if src[pos] == '\n' as u8 {
                1int
            } else {
                0int
            },
        );
    }
}

pub proof fn lemma_ident_end_bounds(src: Seq<u8>, pos: int)
    requires
        0 <= pos <= src.len(),
    ensures
        pos <= spec_ident_end(src, pos) <= src.len(),
    decreases src.len() - pos,
{
    if pos < src.len() && is_identifier_byte(src[pos]) {
        lemma_ident_end_bounds(src, pos + 1);
    }
}

/// The scanner never moves backwards, and a token other than End takes at
/// least one byte.
pub proof fn lemma_next_token_advances(src: Seq<u8>, pos: int, line: int)
    requires
        0 <= pos <= src.len(),
        spec_next_token(src, pos, line) is Ok,
    ensures
        pos <= spec_next_token(src, pos, line)->Ok_0.1 <= src.len(),
        line <= spec_next_token(src, pos, line)->Ok_0.2,
        spec_next_token(src, pos, line)->Ok_0.0.0 != TokenKind::End ==> spec_next_token(
            src,
            pos,
            line,
        )->Ok_0.1 > pos,
        spec_next_token(src, pos, line)->Ok_0.0.0 == TokenKind::End ==> spec_next_token(
            src,
            pos,
            line,
        )->Ok_0.1 == src.len(),
    decreases src.len() - pos,
{
    if pos >= src.len() {
    } else if is_whitespace_byte(src[pos]) {
        lemma_next_token_advances(
            src,
            pos + 1,
            line + if src[pos] == '\n' as u8 {
                1int
            } else {
                0int
            },
        );
    } else if single_kind(src[pos]) is Some {
    } else if src[pos] == '"' as u8 {
        if spec_scan_string(src, pos + 1, line, line) is Ok {
            lemma_scan_string_advances(src, pos + 1, line, line);
        }
    } else {
        lemma_ident_end_bounds(src, pos + 1);
        assert(spec_ident_end(src, pos) == spec_ident_end(src, pos + 1));
    }
}

/// Line counting law: whenever the scanner is entered with the line number
/// that counts the newlines before `pos`, the token it returns carries
/// 1 + (number of newline bytes before the token's first byte), and its
/// lexeme is the literal source text starting there.
pub proof fn lemma_token_line_counts_newlines(src: Seq<u8>, pos: int, line: int)
    requires
        0 <= pos <= src.len(),
        line == 1 + count_nl(src.take(pos)),
        spec_next_token(src, pos, line) is Ok,
        spec_next_token(src, pos, line)->Ok_0.0.0 != TokenKind::End,
    ensures
        exists|start: int|
            {
                let m = spec_next_token(src, pos, line)->Ok_0.0;
                &&& pos <= start
                &&& start + m.2.len() <= src.len()
                &&& src.subrange(start, start + m.2.len() as int) == m.2
                &&& m.1 == 1 + #[trigger] count_nl(src.take(start))
            },
    decreases src.len() - pos,
{
    if pos >= src.len() {
    } else if is_whitespace_byte(src[pos]) {
        lemma_count_nl_step(src, pos);
        let line2 = line + if src[pos] == '\n' as u8 {
            1int
        } else {
            0int
        };
        lemma_token_line_counts_newlines(src, pos + 1, line2);
        let m = spec_next_token(src, pos, line)->Ok_0.0;
        let start = choose|start: int|
            {
                &&& pos + 1 <= start
                &&& start + m.2.len() <= src.len()
                &&& src.subrange(start, start + m.2.len() as int) == m.2
                &&& m.1 == 1 + #[trigger] count_nl(src.take(start))
            };
        assert(pos <= start);
    } else {
        let m = spec_next_token(src, pos, line)->Ok_0.0;
        if single_kind(src[pos]) is Some {
            assert(src.subrange(pos, pos + m.2.len() as int) == m.2);
        } else if src[pos] == '"' as u8 {
            let end = spec_scan_string(src, pos + 1, line, line)->Ok_0.0;
            lemma_scan_string_advances(src, pos + 1, line, line);
            assert(src.subrange(pos, pos + m.2.len() as int) == m.2);
        } else {
            lemma_ident_end_bounds(src, pos);
            assert(src.subrange(pos, pos + m.2.len() as int) == m.2);
        }
        assert(src.subrange(pos, pos + m.2.len() as int) == m.2 && m.1 == 1 + count_nl(
            src.take(pos),
        ));
    }
}

// ---------------------------------------------------------------------------
// Exec helpers
// ---------------------------------------------------------------------------

/// Copy the bytes of `src` between `a` and `b`.
fn bytes_range(src: &Vec<u8>, a: usize, b: usize) -> (r: Vec<u8>)
    requires
        a <= b <= src.len(),
    ensures
        r@ == src@.subrange(a as int, b as int),
{
    let mut r: Vec<u8> = Vec::new();
    let mut i = a;
    while i < b
        invariant
            a <= i <= b <= src.len(),
            r@ == src@.subrange(a as int, i as int),
        decreases b - i,
    {
        r.push(src[i]);
        proof {
            assert(r@ =~= src@.subrange(a as int, i + 1 as int));
        }
        i = i + 1;
    }
    r
}

/// The token kind of a scanned word.
fn kind_of_word(lex: &Vec<u8>) -> (k: TokenKind)
    ensures
        k == word_kind(lex@),
{
    let is_box = lex.len() == 3 && lex[0] == 'b' as u8 && lex[1] == 'o' as u8 && lex[2]
        == 'x' as u8;
    let is_vbox = lex.len() == 4 && lex[0] == 'v' as u8 && lex[1] == 'b' as u8 && lex[2]
        == 'o' as u8 && lex[3] == 'x' as u8;
    let is_text = lex.len() == 4 && lex[0] == 't' as u8 && lex[1] == 'e' as u8 && lex[2]
        == 'x' as u8 && lex[3] == 't' as u8;
    let is_inline = lex.len() == 6 && lex[0] == 'i' as u8 && lex[1] == 'n' as u8 && lex[2]
        == 'l' as u8 && lex[3] == 'i' as u8 && lex[4] == 'n' as u8 && lex[5] == 'e' as u8;
    proof {
        if is_box {
            assert(lex@ =~= kw_box());
        } else if lex@ == kw_box() {
            assert(lex@[0] == 'b' as u8 && lex@[1] == 'o' as u8 && lex@[2] == 'x' as u8);
        }
        if is_vbox {
            assert(lex@ =~= kw_vbox());
        } else if lex@ == kw_vbox() {
            assert(lex@[0] == 'v' as u8 && lex@[1] == 'b' as u8 && lex@[2] == 'o' as u8
                && lex@[3] == 'x' as u8);
        }
        if is_text {
            assert(lex@ =~= kw_text());
        } else if lex@ == kw_text() {
            assert(lex@[0] == 't' as u8 && lex@[1] == 'e' as u8 && lex@[2] == 'x' as u8
                && lex@[3] == 't' as u8);
        }
        if is_inline {
            assert(lex@ =~= kw_inline());
        } else if lex@ == kw_inline() {
            assert(lex@[0] == 'i' as u8 && lex@[1] == 'n' as u8 && lex@[2] == 'l' as u8
                && lex@[3] == 'i' as u8 && lex@[4] == 'n' as u8 && lex@[5] == 'e' as u8);
        }
    }
    if is_box {
        TokenKind::Box
    } else if is_vbox {
        TokenKind::VBox
    } else if is_text {
        TokenKind::Text
    } else if is_inline {
        TokenKind::Inline
    } else {
        TokenKind::Identifier
    }
}

impl Token {
    /// Build a token from its parts; the lexeme is given as literal text.
    pub fn new(kind: TokenKind, line: usize, lexeme: &str) -> (t: Token)
        ensures
            t.kind == kind,
            t.line == line,
            t.lexeme@ == lexeme.spec_bytes(),
    {
        Token { kind, line, lexeme: lexeme.as_bytes_vec() }
    }

    pub fn kind(&self) -> (k: TokenKind)
        ensures
            k == self.kind,
    {
        self.kind
    }

    pub fn line(&self) -> (l: usize)
        ensures
            l == self.line,
    {
        self.line
    }

    /// The token's text: for a string token the contents between the quotes,
    /// for every other kind the literal lexeme.
    pub open spec fn text_spec(&self) -> Seq<u8> {
        if self.kind == TokenKind::String && self.lexeme@.len() >= 2 {
            self.lexeme@.subrange(1, self.lexeme@.len() - 1)
        } else {
            self.lexeme@
        }
    }

    /// The token's text as owned bytes.
    pub fn lexeme(&self) -> (r: Vec<u8>)
        ensures
            r@ == self.text_spec(),
    {
        if (matches!(self.kind, TokenKind::String)) && self.lexeme.len() >= 2 {
            bytes_range(&self.lexeme, 1, self.lexeme.len() - 1)
        } else {
            bytes_range(&self.lexeme, 0, self.lexeme.len())
        }
    }

    /// A copy of the token's text, as `lexeme` gives it.
    pub fn clone_lexeme(&self) -> (r: Vec<u8>)
        ensures
            r@ == self.text_spec(),
    {
        self.lexeme()
    }

    /// Resolve the escape sequences of the token's text: backslash pairs
    /// become the bytes they stand for; any other escape code is an error
    /// at the token's line.
    pub fn decode_text(&self) -> (r: Result<Vec<u8>, FroggiError>)
        ensures
            match r {
                Ok(d) => spec_unescape(self.text_spec()) == Ok::<Seq<u8>, u8>(d@),
                Err(e) => {
                    &&& spec_unescape(self.text_spec()) is Err
                    &&& e.kind_spec() == (ErrorKind::ScanError {
                        error: ScanError::UnknownEscapeCode {
                            code: spec_unescape(self.text_spec())->Err_0 as char,
                        },
                        line: self.line,
                    })
                },
            },
    {
        let text = self.lexeme();
        let ghost t = text@;
        let mut out: Vec<u8> = Vec::new();
        let mut i: usize = 0;
        proof {
            assert(t.skip(0) =~= t);
            assert(out@ =~= Seq::<u8>::empty());
            if spec_unescape(t) is Ok {
                assert(out@ + spec_unescape(t)->Ok_0 =~= spec_unescape(t)->Ok_0);
            }
        }
        loop
            invariant
                i <= text@.len(),
                t == text@,
                t == self.text_spec(),
                spec_unescape(t) == (match spec_unescape(t.skip(i as int)) {
                    Ok(rr) => Ok::<Seq<u8>, u8>(out@ + rr),
                    Err(e) => Err::<Seq<u8>, u8>(e),
                }),
            decreases text@.len() - i,
        {
            if i >= text.len() {
                proof {
                    assert(t.skip(i as int) =~= Seq::<u8>::empty());
                    assert(out@ + Seq::<u8>::empty() =~= out@);
                }
                return Ok(out);
            }
            let b = text[i];
            if b == '\\' as u8 {
                if i + 1 >= text.len() {
                    proof {
                        assert(t.skip(i as int).len() == 1);
                        assert(t.skip(i as int)[0] == b);
                    }
                    return Err(
                        FroggiError::scan(
                            ScanError::UnknownEscapeCode { code: '\\' },
                            self.line,
                        ),
                    );
                }
                let c = text[i + 1];
                proof {
                    assert(t.skip(i as int)[0] == b);
                    assert(t.skip(i as int)[1] == c);
                }
                if c == 'n' as u8 || c == 't' as u8 || c == '\\' as u8 || c == '"' as u8 {
                    let d = if c == 'n' as u8 {
                        10u8
                    } else if c == 't' as u8 {
                        9u8
                    } else {
                        c
                    };
                    let ghost out0 = out@;
                    out.push(d);
                    proof {
                        assert(t.skip(i as int).skip(2) =~= t.skip(i + 2 as int));
                        if spec_unescape(t.skip(i + 2 as int)) is Ok {
                            let rr = spec_unescape(t.skip(i + 2 as int))->Ok_0;
                            assert(out0 + (seq![d] + rr) =~= out@ + rr);
                        }
                    }
                    i = i + 2;
                } else {
                    return Err(
                        FroggiError::scan(
                            ScanError::UnknownEscapeCode { code: c as char },
                            self.line,
                        ),
                    );
                }
            } else {
                let ghost out0 = out@;
                out.push(b);
                proof {
                    assert(t.skip(i as int)[0] == b);
                    assert(t.skip(i as int).skip(1) =~= t.skip(i + 1 as int));
                    if spec_unescape(t.skip(i + 1 as int)) is Ok {
                        let rr = spec_unescape(t.skip(i + 1 as int))->Ok_0;
                        assert(out0 + (seq![b] + rr) =~= out@ + rr);
                    }
                }
                i = i + 1;
            }
        }
    }

    /// An owned copy of the token, equal in kind, line and lexeme.
    pub fn duplicate(&self) -> (t: Token)
        ensures
            token_like(t, *self),
    {
        let lexeme = bytes_range(&self.lexeme, 0, self.lexeme.len());
        proof {
            assert(lexeme@ =~= self.lexeme@);
        }
        Token { kind: self.kind, line: self.line, lexeme }
    }
}

// ---------------------------------------------------------------------------
// The scanner, executable
// ---------------------------------------------------------------------------

/// A restartable scanner over an FML source buffer.
#[derive(Debug)]
pub struct Scanner {
    pub src: Vec<u8>,
    pub cursor: usize,
    pub line: usize,
}

impl Scanner {
    /// The scanner's state is consistent: the cursor is inside the source and
    /// the line number counts the newlines already passed.
    pub open spec fn wf(&self) -> bool {
        &&& self.cursor <= self.src.len()
        &&& self.src@.len() < usize::MAX
        &&& self.line == 1 + count_nl(self.src@.take(self.cursor as int))
    }

    pub fn new(source: &str) -> (s: Scanner)
        requires
            source.spec_bytes().len() < usize::MAX,
        ensures
            s.wf(),
            s.src@ == source.spec_bytes(),
            s.cursor == 0,
            s.line == 1,
    {
        let src = source.as_bytes_vec();
        proof {
            assert(src@.take(0) =~= Seq::<u8>::empty());
        }
        Scanner { src, cursor: 0, line: 1 }
    }

    /// Scan one token starting at `pos` on `line`, without touching the
    /// scanner's own state.
    fn scan_at(&self, pos: usize, line: usize) -> (r: Result<(Token, usize, usize), FroggiError>)
        requires
            pos <= self.src.len(),
            self.src@.len() < usize::MAX,
            line + count_nl(self.src@.skip(pos as int)) <= usize::MAX,
            line >= 1,
        ensures
            match r {
                Ok((t, p2, l2)) => {
                    &&& spec_next_token(self.src@, pos as int, line as int) matches Ok(
                        (m, mp, ml),
                    )
                    &&& token_matches(t, m)
                    &&& p2 == mp
                    &&& l2 == ml
                    &&& pos <= p2 <= self.src.len()
                    &&& line <= l2
                    &&& (t.kind != TokenKind::End ==> p2 > pos)
                    &&& (t.kind == TokenKind::End ==> p2 == self.src@.len())
                },
                Err(e) => {
                    &&& spec_next_token(self.src@, pos as int, line as int) is Err
                    &&& e.kind_spec() == scan_err_kind(
                        spec_next_token(self.src@, pos as int, line as int),
                    )
                },
            },
    {
        let src = &self.src;
        let ghost gsrc = src@;
        let mut i = pos;
        let mut ln = line;
        // Skip whitespace, counting newlines.
        while i < src.len() && (src[i] == ' ' as u8 || src[i] == '\t' as u8 || src[i] == '\r' as u8
            || src[i] == '\n' as u8)
            invariant
                pos <= i <= src.len(),
                gsrc == src@,
                gsrc == self.src@,
                gsrc.len() < usize::MAX,
                ln >= 1,
                line <= ln,
                ln + count_nl(gsrc.skip(i as int)) <= usize::MAX,
                spec_next_token(gsrc, pos as int, line as int) == spec_next_token(
                    gsrc,
                    i as int,
                    ln as int,
                ),
            decreases src.len() - i,
        {
            proof {
                lemma_count_nl_skip_step(gsrc, i as int);
                lemma_count_nl_bounds(gsrc.skip(i + 1 as int));
            }
            if src[i] == '\n' as u8 {
                ln = ln + 1;
            }
            i = i + 1;
        }
        if i >= src.len() {
            let lexeme: Vec<u8> = Vec::new();
            proof {
                assert(gsrc.skip(i as int) =~= Seq::<u8>::empty());
                assert(lexeme@ =~= Seq::<u8>::empty());
            }
            return Ok((Token { kind: TokenKind::End, line: ln, lexeme }, i, ln));
        }
        let b = src[i];
        // Single-byte tokens.
        let single: Option<TokenKind> = if b == '(' as u8 {
            Some(TokenKind::LeftParen)
        } else if b == ')' as u8 {
            Some(TokenKind::RightParen)
        } else if b == '{' as u8 {
            Some(TokenKind::LeftBrace)
        } else if b == '}' as u8 {
            Some(TokenKind::RightBrace)
        } else if b == '^' as u8 {
            Some(TokenKind::Link)
        } else if b == '&' as u8 {
            Some(TokenKind::Blob)
        } else if b == '#' as u8 {
            Some(TokenKind::Anchor)
        } else if b == '*' as u8 {
            Some(TokenKind::Text)
        } else if b == '|' as u8 {
            Some(TokenKind::VBox)
        } else if b == '%' as u8 {
            Some(TokenKind::Inline)
        } else if b == '$' as u8 {
            Some(TokenKind::Box)
        } else {
            None
        };
        match single {
            Some(kind) => {
                let lexeme = bytes_range(src, i, i + 1);
                Ok((Token { kind, line: ln, lexeme }, i + 1, ln))
            },
            None => {
                if b == '"' as u8 {
                    self.scan_string_at(i, ln)
                } else {
                    // Identifier.
                    let start = i;
                    let mut j = i + 1;
                    proof {
                        assert(is_identifier_byte(gsrc[start as int]));
                        assert(spec_ident_end(gsrc, start as int) == spec_ident_end(
                            gsrc,
                            start + 1 as int,
                        ));
                    }
                    while j < src.len() && !(src[j] == ' ' as u8 || src[j] == '\t' as u8 || src[j]
                        == '\r' as u8 || src[j] == '\n' as u8 || src[j] == '(' as u8 || src[j]
                        == ')' as u8 || src[j] == '{' as u8 || src[j] == '}' as u8 || src[j]
                        == '^' as u8 || src[j] == '&' as u8 || src[j] == '#' as u8 || src[j]
                        == '*' as u8 || src[j] == '|' as u8 || src[j] == '%' as u8 || src[j]
                        == '$' as u8 || src[j] == '"' as u8)
                        invariant
                            start < j <= src.len(),
                            gsrc == src@,
                            gsrc == self.src@,
                            spec_ident_end(gsrc, start as int) == spec_ident_end(gsrc, j as int),
                        decreases src.len() - j,
                    {
                        proof {
                            assert(is_identifier_byte(gsrc[j as int]));
                        }
                        j = j + 1;
                    }
                    proof {
                        assert(spec_ident_end(gsrc, j as int) == j);
                    }
                    let lexeme = bytes_range(src, start, j);
                    let kind = kind_of_word(&lexeme);
                    Ok((Token { kind, line: ln, lexeme }, j, ln))
                }
            },
        }
    }

    /// Scan a string token whose opening quote stands at `start` on `line`.
    fn scan_string_at(&self, start: usize, line: usize) -> (r: Result<
        (Token, usize, usize),
        FroggiError,
    >)
        requires
            start < self.src.len(),
            self.src@.len() < usize::MAX,
            self.src@[start as int] == '"' as u8,
            line + count_nl(self.src@.skip(start as int)) <= usize::MAX,
            line >= 1,
        ensures
            match r {
                Ok((t, p2, l2)) => {
                    &&& spec_next_token(self.src@, start as int, line as int) matches Ok(
                        (m, mp, ml),
                    )
                    &&& token_matches(t, m)
                    &&& p2 == mp
                    &&& l2 == ml
                    &&& start < p2 <= self.src.len()
                    &&& line <= l2
                    &&& t.kind == TokenKind::String
                },
                Err(e) => {
                    &&& spec_next_token(self.src@, start as int, line as int) is Err
                    &&& e.kind_spec() == scan_err_kind(
                        spec_next_token(self.src@, start as int, line as int),
                    )
                },
            },
    {
        let src = &self.src;
        let ghost gsrc = src@;
        let mut i = start + 1;
        let mut ln = line;
        proof {
            lemma_count_nl_skip_step(gsrc, start as int);
            lemma_count_nl_bounds(gsrc.skip(start + 1 as int));
        }
        loop
            invariant
                start + 1 <= i <= src.len(),
                gsrc == src@,
                gsrc == self.src@,
                gsrc.len() < usize::MAX,
                gsrc[start as int] == '"' as u8,
                line <= ln,
                ln + count_nl(gsrc.skip(i as int)) <= usize::MAX,
                spec_scan_string(gsrc, start + 1 as int, line as int, line as int)
                    == spec_scan_string(gsrc, i as int, line as int, ln as int),
            decreases src.len() - i,
        {
            if i >= src.len() {
                return Err(
                    FroggiError::scan(ScanError::UnterminatedString { start_line: line }, ln),
                );
            }
            let b = src[i];
            if b == '"' as u8 {
                let lexeme = bytes_range(src, start, i + 1);
                return Ok((Token { kind: TokenKind::String, line, lexeme }, i + 1, ln));
            } else if b == '\\' as u8 {
                if i + 1 >= src.len() {
                    return Err(
                        FroggiError::scan(ScanError::UnterminatedString { start_line: line }, ln),
                    );
                }
                let c = src[i + 1];
                if c == 'n' as u8 || c == 't' as u8 || c == '\\' as u8 || c == '"' as u8 {
                    proof {
                        lemma_count_nl_skip_step(gsrc, i as int);
                        lemma_count_nl_skip_step(gsrc, i + 1 as int);
                        lemma_count_nl_bounds(gsrc.skip(i + 2 as int));
                    }
                    i = i + 2;
                } else {
                    return Err(
                        FroggiError::scan(ScanError::UnknownEscapeCode { code: c as char }, ln),
                    );
                }
            } else {
                proof {
                    lemma_count_nl_skip_step(gsrc, i as int);
                    lemma_count_nl_bounds(gsrc.skip(i + 1 as int));
                }
                if b == '\n' as u8 {
                    ln = ln + 1;
                }
                i = i + 1;
            }
        }
    }

    /// Return the n-th upcoming token without consuming anything.
    pub fn peek_token(&self, n: usize) -> (r: Result<Token, FroggiError>)
        requires
            self.wf(),
        ensures
            match r {
                Ok(t) => {
                    &&& spec_peek(self.src@, self.cursor as int, self.line as int, n as int)
                        matches Ok(m)
                    &&& token_matches(t, m)
                },
                Err(e) => {
                    &&& spec_peek(self.src@, self.cursor as int, self.line as int, n as int)
                        is Err
                    &&& e.kind_spec() == scan_err_kind(
                        spec_peek(self.src@, self.cursor as int, self.line as int, n as int),
                    )
                },
            },
    {
        let mut pos = self.cursor;
        let mut ln = self.line;
        let mut left = n;
        proof {
            self.lemma_state_line_bound(pos as int, ln as int);
        }
        loop
            invariant
                pos <= self.src.len(),
                self.src@.len() < usize::MAX,
                ln >= 1,
                ln + count_nl(self.src@.skip(pos as int)) <= usize::MAX,
                spec_peek(self.src@, self.cursor as int, self.line as int, n as int) == spec_peek(
                    self.src@,
                    pos as int,
                    ln as int,
                    left as int,
                ),
            decreases left,
        {
            let step = self.scan_at(pos, ln);
            match step {
                Err(e) => {
                    return Err(e);
                },
                Ok((t, p2, l2)) => {
                    if left == 0 {
                        return Ok(t);
                    }
                    proof {
                        lemma_line_bound_after(self.src@, pos as int, ln as int, p2 as int,
                            l2 as int);
                    }
                    pos = p2;
                    ln = l2;
                    left = left - 1;
                },
            }
        }
    }

    /// Return and consume the next token.
    pub fn next_token(&mut self) -> (r: Result<Token, FroggiError>)
        requires
            old(self).wf(),
        ensures
            final(self).src == old(self).src,
            final(self).wf(),
            match r {
                Ok(t) => {
                    &&& spec_next_token(
                        old(self).src@,
                        old(self).cursor as int,
                        old(self).line as int,
                    ) matches Ok((m, mp, ml))
                    &&& token_matches(t, m)
                    &&& final(self).cursor == mp
                    &&& final(self).line == ml
                    &&& old(self).cursor <= final(self).cursor
                    &&& (t.kind != TokenKind::End ==> final(self).cursor > old(self).cursor)
                    &&& (t.kind == TokenKind::End ==> final(self).cursor == old(self).src@.len())
                },
                Err(e) => {
                    &&& spec_next_token(
                        old(self).src@,
                        old(self).cursor as int,
                        old(self).line as int,
                    ) is Err
                    &&& e.kind_spec() == scan_err_kind(
                        spec_next_token(
                            old(self).src@,
                            old(self).cursor as int,
                            old(self).line as int,
                        ),
                    )
                    &&& *final(self) == *old(self)
                },
            },
    {
        proof {
            self.lemma_state_line_bound(self.cursor as int, self.line as int);
        }
        let step = self.scan_at(self.cursor, self.line);
        match step {
            Err(e) => Err(e),
            Ok((t, p2, l2)) => {
                proof {
                    lemma_next_token_keeps_line_count(
                        self.src@,
                        self.cursor as int,
                        self.line as int,
                    );
                    lemma_count_nl_split(self.src@.take(p2 as int), self.cursor as int);
                    assert(self.src@.take(p2 as int).take(self.cursor as int) =~= self.src@.take(
                        self.cursor as int,
                    ));
                    assert(self.src@.take(p2 as int).skip(self.cursor as int) =~= self.src@
                        .subrange(self.cursor as int, p2 as int));
                }
                self.cursor = p2;
                self.line = l2;
                Ok(t)
            },
        }
    }

    /// A well-formed scanner's line number leaves room for the newlines that
    /// are still ahead of it.
    proof fn lemma_state_line_bound(&self, pos: int, ln: int)
        requires
            self.wf(),
            pos == self.cursor,
            ln == self.line,
        ensures
            ln + count_nl(self.src@.skip(pos)) <= usize::MAX,
            ln >= 1,
    {
        lemma_count_nl_split(self.src@, pos);
        lemma_count_nl_bounds(self.src@);
        lemma_count_nl_bounds(self.src@.take(pos));
        lemma_count_nl_bounds(self.src@.skip(pos));
    }
}

/// Newline counts split over take/skip.
pub proof fn lemma_count_nl_split(s: Seq<u8>, i: int)
    requires
        0 <= i <= s.len(),
    ensures
        count_nl(s) == count_nl(s.take(i)) + count_nl(s.skip(i)),
    decreases s.len() - i,
{
    if i == s.len() {
        assert(s.take(i) =~= s);
        assert(s.skip(i) =~= Seq::<u8>::empty());
    } else {
        lemma_count_nl_split(s, i + 1);
        lemma_count_nl_step(s, i);
        assert(s.skip(i).drop_first() =~= s.skip(i + 1));
        lemma_count_nl_first(s.skip(i));
    }
}

/// Newline count of a nonempty sequence, unfolded at the front.
pub proof fn lemma_count_nl_first(s: Seq<u8>)
    requires
        s.len() > 0,
    ensures
        s[0] == '\n' as u8 ==> count_nl(s) == count_nl(s.drop_first()) + 1,
        s[0] != '\n' as u8 ==> count_nl(s) == count_nl(s.drop_first()),
    decreases s.len(),
{
    if s.len() == 1 {
        assert(s.drop_first() =~= Seq::<u8>::empty());
        assert(s.drop_last() =~= Seq::<u8>::empty());
        assert(s.last() == s[0]);
    } else {
        lemma_count_nl_first(s.drop_last());
        assert(s.drop_last().drop_first() =~= s.drop_first().drop_last());
        assert(s.drop_first().last() == s.last());
        assert(s.drop_last()[0] == s[0]);
        assert(count_nl(s.drop_first()) == count_nl(s.drop_first().drop_last()) + if s.drop_first().last() == '\n' as u8 {
            1int
        } else {
            0int
        });
        assert(count_nl(s) == count_nl(s.drop_last()) + if s.last() == '\n' as u8 {
            1int
        } else {
            0int
        });
    }
}

/// Stepping the skip of a sequence by one removes at most one newline.
proof fn lemma_count_nl_skip_step(s: Seq<u8>, i: int)
    requires
        0 <= i < s.len(),
    ensures
        count_nl(s.skip(i)) == count_nl(s.skip(i + 1)) + if s[i] == '\n' as u8 {
            1int
        } else {
            0int
        },
{
    lemma_count_nl_first(s.skip(i));
    assert(s.skip(i).drop_first() =~= s.skip(i + 1));
    assert(s.skip(i)[0] == s[i]);
}

/// After a successful scan step the new line number still leaves room for the
/// newlines ahead.
proof fn lemma_line_bound_after(src: Seq<u8>, pos: int, ln: int, p2: int, l2: int)
    requires
        0 <= pos <= src.len(),
        ln + count_nl(src.skip(pos)) <= usize::MAX,
        spec_next_token(src, pos, ln) matches Ok((m, mp, ml)) && mp == p2 && ml == l2,
    ensures
        l2 + count_nl(src.skip(p2)) <= usize::MAX,
        l2 >= ln,
    decreases src.len() - pos,
{
    lemma_next_token_advances(src, pos, ln);
    lemma_next_token_keeps_line_count(src, pos, ln);
    lemma_count_nl_split(src.skip(pos), p2 - pos);
    assert(src.skip(pos).skip(p2 - pos) =~= src.skip(p2));
    lemma_count_nl_bounds(src.skip(pos).take(p2 - pos));
    assert(src.skip(pos).take(p2 - pos) =~= src.subrange(pos, p2));
}

/// A successful scan step moves the line number exactly by the newlines it
/// passed over.
pub proof fn lemma_next_token_keeps_line_count(src: Seq<u8>, pos: int, ln: int)
    requires
        0 <= pos <= src.len(),
        spec_next_token(src, pos, ln) is Ok,
    ensures
        spec_next_token(src, pos, ln)->Ok_0.2 == ln + count_nl(
            src.subrange(pos, spec_next_token(src, pos, ln)->Ok_0.1),
        ),
    decreases src.len() - pos,
{
    lemma_next_token_advances(src, pos, ln);
    if pos >= src.len() {
        assert(src.subrange(pos, pos) =~= Seq::<u8>::empty());
    } else if is_whitespace_byte(src[pos]) {
        let ln2 = ln + if src[pos] == '\n' as u8 {
            1int
        } else {
            0int
        };
        lemma_next_token_keeps_line_count(src, pos + 1, ln2);
        let p2 = spec_next_token(src, pos, ln)->Ok_0.1;
        lemma_count_nl_first(src.subrange(pos, p2));
        assert(src.subrange(pos, p2).drop_first() =~= src.subrange(pos + 1, p2));
        assert(src.subrange(pos, p2)[0] == src[pos]);
    } else if single_kind(src[pos]) is Some {
        assert(src.subrange(pos, pos + 1).len() == 1);
        assert(count_nl(src.subrange(pos, pos + 1).drop_last()) == 0) by {
            assert(src.subrange(pos, pos + 1).drop_last() =~= Seq::<u8>::empty());
        }
        assert(src.subrange(pos, pos + 1).last() == src[pos]);
    } else if src[pos] == '"' as u8 {
        lemma_scan_string_line_count(src, pos + 1, ln, ln);
        let p2 = spec_next_token(src, pos, ln)->Ok_0.1;
        lemma_count_nl_first(src.subrange(pos, p2));
        assert(src.subrange(pos, p2).drop_first() =~= src.subrange(pos + 1, p2));
        assert(src.subrange(pos, p2)[0] == src[pos]);
    } else {
        let e = spec_ident_end(src, pos);
        lemma_ident_end_bounds(src, pos);
        lemma_ident_no_newlines(src, pos);
    }
}

/// String scanning moves the line number exactly by the newlines inside the
/// literal.
proof fn lemma_scan_string_line_count(src: Seq<u8>, pos: int, start_line: int, ln: int)
    requires
        0 <= pos <= src.len(),
        spec_scan_string(src, pos, start_line, ln) is Ok,
    ensures
        spec_scan_string(src, pos, start_line, ln)->Ok_0.1 == ln + count_nl(
            src.subrange(pos, spec_scan_string(src, pos, start_line, ln)->Ok_0.0),
        ),
    decreases src.len() - pos,
{
    lemma_scan_string_advances(src, pos, start_line, ln);
    let end = spec_scan_string(src, pos, start_line, ln)->Ok_0.0;
    if src[pos] == '"' as u8 {
        assert(src.subrange(pos, pos + 1).len() == 1);
        assert(count_nl(src.subrange(pos, pos + 1).drop_last()) == 0) by {
            assert(src.subrange(pos, pos + 1).drop_last() =~= Seq::<u8>::empty());
        }
        assert(src.subrange(pos, pos + 1).last() == src[pos]);
    } else if src[pos] == '\\' as u8 {
        lemma_scan_string_line_count(src, pos + 2, start_line, ln);
        lemma_scan_string_advances(src, pos + 2, start_line, ln);
        lemma_count_nl_first(src.subrange(pos, end));
        assert(src.subrange(pos, end).drop_first() =~= src.subrange(pos + 1, end));
        lemma_count_nl_first(src.subrange(pos + 1, end));
        assert(src.subrange(pos + 1, end).drop_first() =~= src.subrange(pos + 2, end));
        assert(src.subrange(pos, end)[0] == src[pos]);
        assert(src.subrange(pos + 1, end)[0] == src[pos + 1]);
        assert(src[pos] != '\n' as u8);
        assert(is_escape_code(src[pos + 1]) ==> src[pos + 1] != '\n' as u8);
    } else {
        let ln2 = ln + if src[pos] == '\n' as u8 {
            1int
        } else {
            0int
        };
        lemma_scan_string_line_count(src, pos + 1, start_line, ln2);
        lemma_count_nl_first(src.subrange(pos, end));
        assert(src.subrange(pos, end).drop_first() =~= src.subrange(pos + 1, end));
        assert(src.subrange(pos, end)[0] == src[pos]);
    }
}

/// Identifiers hold no newline bytes.
proof fn lemma_ident_no_newlines(src: Seq<u8>, pos: int)
    requires
        0 <= pos <= src.len(),
    ensures
        count_nl(src.subrange(pos, spec_ident_end(src, pos))) == 0,
    decreases src.len() - pos,
{
    let e = spec_ident_end(src, pos);
    lemma_ident_end_bounds(src, pos);
    if pos >= src.len() || !is_identifier_byte(src[pos]) {
        assert(src.subrange(pos, pos) =~= Seq::<u8>::empty());
    } else {
        lemma_ident_no_newlines(src, pos + 1);
        lemma_ident_end_bounds(src, pos + 1);
        assert(e == spec_ident_end(src, pos + 1));
        lemma_count_nl_first(src.subrange(pos, e));
        assert(src.subrange(pos, e).drop_first() =~= src.subrange(pos + 1, e));
        assert(src.subrange(pos, e)[0] == src[pos]);
        assert(src[pos] != '\n' as u8);
    }
}

} // verus!
