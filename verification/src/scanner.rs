//! The lexer: consumes raw source character by character, skips whitespace
//! and comments, and produces one token at a time on demand.
//!
//! The whole tokenization rule is stated as spec functions over the character
//! sequence (`spec_scan` and its helpers); `Scanner::scan_token` is proved to
//! return exactly the token those functions describe and to advance the
//! cursor exactly as they say.

use crate::text::{chars_to_string, str_chars};
use crate::token::{Token, TokenModel, TokenType};
use vstd::prelude::*;
use vstd::string::StringExecFns;

verus! {

/// Whitespace other than newline: space, carriage return, tab, comma.
pub open spec fn spec_is_ws(c: char) -> bool {
    c == ' ' || c == '\r' || c == '\t' || c == ','
}

/// An ASCII decimal digit.
pub open spec fn spec_is_digit(c: char) -> bool {
    '0' <= c && c <= '9'
}

/// An ASCII letter or digit.
pub open spec fn spec_is_alnum(c: char) -> bool {
    spec_is_digit(c) || ('a' <= c && c <= 'z') || ('A' <= c && c <= 'Z')
}

/// A symbol character that may start or continue an identifier.
pub open spec fn spec_is_symbol(c: char) -> bool {
    c == '=' || c == '+' || c == '-' || c == '*' || c == '/' || c == '\\' || c == '&' || c == '%'
        || c == '$' || c == '_' || c == '!' || c == '<' || c == '>' || c == '?' || c == '\''
}

fn is_ws(c: char) -> (r: bool)
    ensures
        r == spec_is_ws(c),
{
    c == ' ' || c == '\r' || c == '\t' || c == ','
}

fn is_digit(c: char) -> (r: bool)
    ensures
        r == spec_is_digit(c),
{
    '0' <= c && c <= '9'
}

fn is_alnum(c: char) -> (r: bool)
    ensures
        r == spec_is_alnum(c),
{
    ('0' <= c && c <= '9') || ('a' <= c && c <= 'z') || ('A' <= c && c <= 'Z')
}

fn is_symbol(ch: char) -> (r: bool)
    ensures
        r == spec_is_symbol(ch),
{
    ch == '=' || ch == '+' || ch == '-' || ch == '*' || ch == '/' || ch == '\\' || ch == '&'
        || ch == '%' || ch == '$' || ch == '_' || ch == '!' || ch == '<' || ch == '>' || ch == '?'
        || ch == '\''
}

/// Where whitespace skipping lands, and the line counter it leaves.
/// `mode` 0 is ordinary scanning; 1 is inside a single-line comment (runs to
/// the newline, which is left for mode 0 to count); 2 is inside a `;# ... #;`
/// block comment (runs to the closing pair, or to end of input when the
/// comment is unterminated; newlines inside it do not bump the line counter).
pub open spec fn spec_skip_ws(chars: Seq<char>, pos: nat, line: nat, mode: nat) -> (nat, nat)
    decreases chars.len() - pos, mode,
{
    if pos >= chars.len() {
        (pos, line)
    } else if mode == 2 {
        if chars[pos as int] == '#' && pos + 1 < chars.len() && chars[pos as int + 1] == ';' {
            spec_skip_ws(chars, pos + 2, line, 0)
        } else {
            spec_skip_ws(chars, pos + 1, line, 2)
        }
    } else if mode == 1 {
        if chars[pos as int] == '\n' {
            spec_skip_ws(chars, pos, line, 0)
        } else {
            spec_skip_ws(chars, pos + 1, line, 1)
        }
    } else {
        if chars[pos as int] == '\n' {
            spec_skip_ws(chars, pos + 1, line + 1, 0)
        } else if spec_is_ws(chars[pos as int]) {
            spec_skip_ws(chars, pos + 1, line, 0)
        } else if chars[pos as int] == ';' {
            if pos + 1 < chars.len() && chars[pos as int + 1] == '#' {
                spec_skip_ws(chars, pos + 2, line, 2)
            } else {
                spec_skip_ws(chars, pos + 1, line, 1)
            }
        } else {
            (pos, line)
        }
    }
}

pub proof fn lemma_skip_ws_bounds(chars: Seq<char>, pos: nat, line: nat, mode: nat)
    requires
        pos <= chars.len(),
    ensures
        pos <= spec_skip_ws(chars, pos, line, mode).0 <= chars.len(),
        line <= spec_skip_ws(chars, pos, line, mode).1,
        spec_skip_ws(chars, pos, line, mode).1 + (chars.len() - spec_skip_ws(
            chars,
            pos,
            line,
            mode,
        ).0) <= line + (chars.len() - pos),
    decreases chars.len() - pos, mode,
{
    if pos >= chars.len() {
    } else if mode == 2 {
        if chars[pos as int] == '#' && pos + 1 < chars.len() && chars[pos as int + 1] == ';' {
            lemma_skip_ws_bounds(chars, pos + 2, line, 0);
        } else {
            lemma_skip_ws_bounds(chars, pos + 1, line, 2);
        }
    } else if mode == 1 {
        if chars[pos as int] == '\n' {
            lemma_skip_ws_bounds(chars, pos, line, 0);
        } else {
            lemma_skip_ws_bounds(chars, pos + 1, line, 1);
        }
    } else {
        if chars[pos as int] == '\n' {
            lemma_skip_ws_bounds(chars, pos + 1, (line + 1) as nat, 0);
        } else if spec_is_ws(chars[pos as int]) {
            lemma_skip_ws_bounds(chars, pos + 1, line, 0);
        } else if chars[pos as int] == ';' {
            if pos + 1 < chars.len() && chars[pos as int + 1] == '#' {
                lemma_skip_ws_bounds(chars, pos + 2, line, 2);
            } else {
                lemma_skip_ws_bounds(chars, pos + 1, line, 1);
            }
        } else {
        }
    }
}

/// The position just past the maximal run of digits starting at `pos`.
pub open spec fn spec_end_digits(chars: Seq<char>, pos: nat) -> nat
    decreases chars.len() - pos,
{
    if pos < chars.len() && spec_is_digit(chars[pos as int]) {
        spec_end_digits(chars, pos + 1)
    } else {
        pos
    }
}

pub proof fn lemma_end_digits_bounds(chars: Seq<char>, pos: nat)
    requires
        pos <= chars.len(),
    ensures
        pos <= spec_end_digits(chars, pos) <= chars.len(),
    decreases chars.len() - pos,
{
    if pos < chars.len() && spec_is_digit(chars[pos as int]) {
        lemma_end_digits_bounds(chars, pos + 1);
    }
}

/// The position just past the maximal run of alphanumeric-or-symbol
/// characters starting at `pos`.
pub open spec fn spec_end_name(chars: Seq<char>, pos: nat) -> nat
    decreases chars.len() - pos,
{
    if pos < chars.len() && (spec_is_alnum(chars[pos as int]) || spec_is_symbol(
        chars[pos as int],
    )) {
        spec_end_name(chars, pos + 1)
    } else {
        pos
    }
}

pub proof fn lemma_end_name_bounds(chars: Seq<char>, pos: nat)
    requires
        pos <= chars.len(),
    ensures
        pos <= spec_end_name(chars, pos) <= chars.len(),
    decreases chars.len() - pos,
{
    if pos < chars.len() && (spec_is_alnum(chars[pos as int]) || spec_is_symbol(
        chars[pos as int],
    )) {
        lemma_end_name_bounds(chars, pos + 1);
    }
}

/// The position just past the maximal run of alphanumeric characters
/// starting at `pos`.
pub open spec fn spec_end_alnum(chars: Seq<char>, pos: nat) -> nat
    decreases chars.len() - pos,
{
    if pos < chars.len() && spec_is_alnum(chars[pos as int]) {
        spec_end_alnum(chars, pos + 1)
    } else {
        pos
    }
}

pub proof fn lemma_end_alnum_bounds(chars: Seq<char>, pos: nat)
    requires
        pos <= chars.len(),
    ensures
        pos <= spec_end_alnum(chars, pos) <= chars.len(),
    decreases chars.len() - pos,
{
    if pos < chars.len() && spec_is_alnum(chars[pos as int]) {
        lemma_end_alnum_bounds(chars, pos + 1);
    }
}

/// The position of the next `"` at or after `pos`, or the end of input.
pub open spec fn spec_end_string(chars: Seq<char>, pos: nat) -> nat
    decreases chars.len() - pos,
{
    if pos < chars.len() && chars[pos as int] != '"' {
        spec_end_string(chars, pos + 1)
    } else {
        pos
    }
}

pub proof fn lemma_end_string_bounds(chars: Seq<char>, pos: nat)
    requires
        pos <= chars.len(),
    ensures
        pos <= spec_end_string(chars, pos) <= chars.len(),
        spec_end_string(chars, pos) < chars.len() ==> chars[spec_end_string(chars, pos) as int]
            == '"',
    decreases chars.len() - pos,
{
    if pos < chars.len() && chars[pos as int] != '"' {
        lemma_end_string_bounds(chars, pos + 1);
    }
}

/// How many newline characters stand in `chars[lo..hi]`.
pub open spec fn spec_count_nl(chars: Seq<char>, lo: nat, hi: nat) -> nat
    decreases hi - lo,
{
    if lo >= hi {
        0
    } else {
        spec_count_nl(chars, lo, (hi - 1) as nat) + (if chars[hi - 1] == '\n' {
            1nat
        } else {
            0nat
        })
    }
}

pub proof fn lemma_count_nl_bounds(chars: Seq<char>, lo: nat, hi: nat)
    requires
        lo <= hi,
    ensures
        spec_count_nl(chars, lo, hi) <= hi - lo,
    decreases hi - lo,
{
    if lo < hi {
        lemma_count_nl_bounds(chars, lo, (hi - 1) as nat);
    }
}


/// One step of scanning: the token produced, and the cursor and line
/// counter it leaves behind.
pub ghost struct ScanStep {
    pub tok: TokenModel,
    pub pos: nat,
    pub line: nat,
}

/// An ordinary token: its text is the matched slice of the source.
pub open spec fn spec_token(
    kind: TokenType,
    chars: Seq<char>,
    start: nat,
    end: nat,
    line: nat,
) -> TokenModel {
    TokenModel { kind, text: chars.subrange(start as int, end as int), start, line }
}

/// An error token: its text is the diagnostic message, and its recorded
/// start is zero.
pub open spec fn spec_error_token(msg: Seq<char>, line: nat) -> TokenModel {
    TokenModel { kind: TokenType::Error, text: msg, start: 0, line }
}

/// A one-character token at `p`.
pub open spec fn spec_single(kind: TokenType, chars: Seq<char>, p: nat, l: nat) -> ScanStep {
    ScanStep { tok: spec_token(kind, chars, p, p + 1, l), pos: p + 1, line: l }
}

/// What a run of alphanumeric-or-symbol characters means: the two boolean
/// literals are recognized by exact comparison, all else is an identifier.
pub open spec fn spec_name_kind(text: Seq<char>) -> TokenType {
    if text == "false"@ {
        TokenType::False
    } else if text == "true"@ {
        TokenType::True
    } else {
        TokenType::Identifier
    }
}

/// A numeric token starting at `p` (a digit, or `-` before a digit): the
/// digit run, then `.` and digits for a float, `/` and digits for a
/// fraction (an error token if no digit follows the `/`), a plain integer
/// otherwise.
pub open spec fn spec_scan_number(chars: Seq<char>, p: nat, l: nat) -> ScanStep {
    let d = spec_end_digits(chars, p + 1);
    if d < chars.len() && chars[d as int] == '.' {
        let d2 = spec_end_digits(chars, d + 1);
        ScanStep { tok: spec_token(TokenType::FloatNumber, chars, p, d2, l), pos: d2, line: l }
    } else if d < chars.len() && chars[d as int] == '/' {
        if d + 1 < chars.len() && spec_is_digit(chars[d as int + 1]) {
            let d2 = spec_end_digits(chars, d + 1);
            ScanStep {
                tok: spec_token(TokenType::FractionNumber, chars, p, d2, l),
                pos: d2,
                line: l,
            }
        } else {
            ScanStep { tok: spec_error_token("Unterminated fraction number"@, l), pos: d, line: l }
        }
    } else {
        ScanStep { tok: spec_token(TokenType::IntegerNumber, chars, p, d, l), pos: d, line: l }
    }
}

/// The next token from position `pos0` on line `line0`, and where scanning
/// it leaves the cursor. This is the complete tokenization rule.
pub open spec fn spec_scan(chars: Seq<char>, pos0: nat, line0: nat) -> ScanStep {
    let (p, l) = spec_skip_ws(chars, pos0, line0, 0);
    if p >= chars.len() {
        ScanStep { tok: spec_token(TokenType::Eof, chars, p, p, l), pos: p, line: l }
    } else {
        let c = chars[p as int];
        if c == ':' {
            if p + 1 < chars.len() && spec_is_alnum(chars[p as int + 1]) {
                let e = spec_end_alnum(chars, p + 1);
                ScanStep { tok: spec_token(TokenType::Keyword, chars, p, e, l), pos: e, line: l }
            } else {
                ScanStep {
                    tok: spec_token(TokenType::Identifier, chars, p, p + 1, l),
                    pos: p + 1,
                    line: l,
                }
            }
        } else if spec_is_digit(c) || (c == '-' && p + 1 < chars.len() && spec_is_digit(
            chars[p as int + 1],
        )) {
            spec_scan_number(chars, p, l)
        } else if spec_is_alnum(c) || spec_is_symbol(c) {
            let e = spec_end_name(chars, p + 1);
            ScanStep {
                tok: spec_token(
                    spec_name_kind(chars.subrange(p as int, e as int)),
                    chars,
                    p,
                    e,
                    l,
                ),
                pos: e,
                line: l,
            }
        } else if c == '"' {
            let e = spec_end_string(chars, p + 1);
            let l2 = (l + spec_count_nl(chars, p + 1, e)) as nat;
            if e >= chars.len() {
                ScanStep { tok: spec_error_token("Unterminated string"@, l2), pos: e, line: l2 }
            } else {
                ScanStep {
                    tok: TokenModel {
                        kind: TokenType::String,
                        text: chars.subrange(p as int + 1, e as int),
                        start: p + 1,
                        line: l2,
                    },
                    pos: e + 1,
                    line: l2,
                }
            }
        } else if c == '(' {
            spec_single(TokenType::LeftParen, chars, p, l)
        } else if c == ')' {
            spec_single(TokenType::RightParen, chars, p, l)
        } else if c == '{' {
            spec_single(TokenType::LeftBrace, chars, p, l)
        } else if c == '}' {
            spec_single(TokenType::RightBrace, chars, p, l)
        } else if c == '[' {
            spec_single(TokenType::LeftSquare, chars, p, l)
        } else if c == ']' {
            spec_single(TokenType::RightSquare, chars, p, l)
        } else if c == '#' {
            spec_single(TokenType::Dispatch, chars, p, l)
        } else {
            ScanStep { tok: spec_error_token("Unexpected character."@, l), pos: p + 1, line: l }
        }
    }
}

/// Scanning always advances unless it reports end of input, stays inside
/// the source, and never decreases the line counter; the line counter grows
/// at most as much as the cursor does.
pub proof fn lemma_spec_scan_bounds(chars: Seq<char>, pos: nat, line: nat)
    requires
        pos <= chars.len(),
    ensures
        pos <= spec_scan(chars, pos, line).pos <= chars.len(),
        line <= spec_scan(chars, pos, line).line,
        spec_scan(chars, pos, line).line + (chars.len() - spec_scan(chars, pos, line).pos) <= line
            + (chars.len() - pos),
        spec_scan(chars, pos, line).tok.kind != TokenType::Eof ==> spec_scan(chars, pos, line).pos
            > pos,
        spec_scan(chars, pos, line).tok.kind == TokenType::Eof ==> spec_scan(chars, pos, line).pos
            == chars.len() && spec_scan(chars, pos, line).tok.text.len() == 0,
        spec_scan(chars, pos, line).tok.kind != TokenType::Init,
{
    lemma_skip_ws_bounds(chars, pos, line, 0);
    let (p, l) = spec_skip_ws(chars, pos, line, 0);
    if p < chars.len() {
        let c = chars[p as int];
        lemma_end_digits_bounds(chars, p + 1);
        let d = spec_end_digits(chars, p + 1);
        if d + 1 <= chars.len() {
            lemma_end_digits_bounds(chars, d + 1);
        }
        lemma_end_name_bounds(chars, p + 1);
        lemma_end_alnum_bounds(chars, p + 1);
        lemma_end_string_bounds(chars, p + 1);
        let e = spec_end_string(chars, p + 1);
        lemma_count_nl_bounds(chars, p + 1, e);
    }
}

/// The lexer. It owns the characters of the source and a cursor; each call
/// of `scan_token` returns the next token and moves the cursor past it.
pub struct Scanner {
    chars: Vec<char>,
    start: usize,
    current: usize,
    line: usize,
}

/// The mathematical state of a scanner: the source characters, the cursor,
/// and the current line number.
pub ghost struct ScannerModel {
    pub chars: Seq<char>,
    pub pos: nat,
    pub line: nat,
}

impl View for Scanner {
    type V = ScannerModel;

    closed spec fn view(&self) -> ScannerModel {
        ScannerModel { chars: self.chars@, pos: self.current as nat, line: self.line as nat }
    }
}

impl Scanner {
    /// Well-formedness: the cursor lies inside the source, the token-start
    /// mark does not pass the cursor, and the line counter leaves room to
    /// count a newline per remaining character without overflowing.
    pub closed spec fn wf(&self) -> bool {
        &&& self.start <= self.current <= self.chars@.len()
        &&& 1 <= self.line
        &&& self.line + (self.chars@.len() - self.current) <= usize::MAX
        &&& self.chars@.len() < usize::MAX
    }

    /// A well-formed scanner's cursor lies inside its source.
    pub proof fn lemma_wf_bounds(&self)
        requires
            self.wf(),
        ensures
            self@.pos <= self@.chars.len(),
    {
    }

    pub fn new(source: &str) -> (s: Scanner)
        requires
            source@.len() < usize::MAX,
        ensures
            s.wf(),
            s@.chars == source@,
            s@.pos == 0,
            s@.line == 1,
    {
        let chars = str_chars(source);
        Scanner { chars, start: 0, current: 0, line: 1 }
    }

    fn is_at_end(&self) -> (r: bool)
        ensures
            r == (self.current == self.chars@.len()),
    {
        self.current == self.chars.len()
    }

    fn peek(&self) -> (c: char)
        requires
            self.wf(),
        ensures
            c == if self.current < self.chars@.len() {
                self.chars@[self.current as int]
            } else {
                '\0'
            },
    {
        if self.current < self.chars.len() {
            self.chars[self.current]
        } else {
            '\0'
        }
    }

    fn peek_next(&self) -> (c: char)
        requires
            self.wf(),
        ensures
            c == if self.current + 1 < self.chars@.len() {
                self.chars@[self.current as int + 1]
            } else {
                '\0'
            },
    {
        if self.current + 1 < self.chars.len() {
            self.chars[self.current + 1]
        } else {
            '\0'
        }
    }

    fn advance(&mut self) -> (c: char)
        requires
            old(self).wf(),
            old(self).current < old(self).chars@.len(),
        ensures
            final(self).wf(),
            final(self).chars@ == old(self).chars@,
            final(self).start == old(self).start,
            final(self).line == old(self).line,
            final(self).current == old(self).current + 1,
            c == old(self).chars@[old(self).current as int],
    {
        let c = self.chars[self.current];
        self.current = self.current + 1;
        c
    }
}

fn is_name_char(c: char) -> (r: bool)
    ensures
        r == (spec_is_alnum(c) || spec_is_symbol(c)),
{
    is_alnum(c) || is_symbol(c)
}

impl Scanner {
    fn make_token(&self, kind: TokenType) -> (t: Token)
        requires
            self.wf(),
        ensures
            t@ == spec_token(kind, self.chars@, self.start as nat, self.current as nat, self.line as nat),
    {
        let src = chars_to_string(&self.chars, self.start, self.current);
        Token::new(kind, self.start, src, self.line)
    }

    fn error_token(&self, msg: &str) -> (t: Token)
        requires
            self.wf(),
        ensures
            t@ == spec_error_token(msg@, self.line as nat),
    {
        Token::new(TokenType::Error, 0, String::from_str(msg), self.line)
    }

    fn skip_whitespace(&mut self)
        requires
            old(self).wf(),
        ensures
            final(self).wf(),
            final(self).chars@ == old(self).chars@,
            final(self).start == old(self).start,
            (final(self).current as nat, final(self).line as nat) == spec_skip_ws(
                old(self).chars@,
                old(self).current as nat,
                old(self).line as nat,
                0,
            ),
    {
        while !self.is_at_end()
            invariant
                self.wf(),
                self.chars@ == old(self).chars@,
                self.start == old(self).start,
                spec_skip_ws(self.chars@, self.current as nat, self.line as nat, 0)
                    == spec_skip_ws(
                    old(self).chars@,
                    old(self).current as nat,
                    old(self).line as nat,
                    0,
                ),
            decreases self.chars@.len() - self.current,
        {
            let ghost p0 = self.current as nat;
            let ghost l0 = self.line as nat;
            let c = self.peek();
            if c == '\n' {
                let _ = self.advance();
                self.line = self.line + 1;
                proof {
                    assert(spec_skip_ws(self.chars@, p0, l0, 0) == spec_skip_ws(
                        self.chars@,
                        p0 + 1,
                        l0 + 1,
                        0,
                    ));
                }
            } else if is_ws(c) {
                let _ = self.advance();
                proof {
                    assert(spec_skip_ws(self.chars@, p0, l0, 0) == spec_skip_ws(
                        self.chars@,
                        p0 + 1,
                        l0,
                        0,
                    ));
                }
            } else if c == ';' {
                if self.peek_next() == '#' {
                    let _ = self.advance();
                    let _ = self.advance();
                    proof {
                        assert(spec_skip_ws(self.chars@, p0, l0, 0) == spec_skip_ws(
                            self.chars@,
                            p0 + 2,
                            l0,
                            2,
                        ));
                    }
                    while !self.is_at_end() && !(self.peek() == '#' && self.peek_next() == ';')
                        invariant
                            self.wf(),
                            self.chars@ == old(self).chars@,
                            self.start == old(self).start,
                            self.line as nat == l0,
                            p0 + 2 <= self.current as nat,
                            spec_skip_ws(self.chars@, self.current as nat, l0, 2)
                                == spec_skip_ws(
                                old(self).chars@,
                                old(self).current as nat,
                                old(self).line as nat,
                                0,
                            ),
                        decreases self.chars@.len() - self.current,
                    {
                        let ghost p1 = self.current as nat;
                        let _ = self.advance();
                        proof {
                            assert(spec_skip_ws(self.chars@, p1, l0, 2) == spec_skip_ws(
                                self.chars@,
                                p1 + 1,
                                l0,
                                2,
                            ));
                        }
                    }
                    if !self.is_at_end() {
                        let ghost p2 = self.current as nat;
                        let _ = self.advance();
                        let _ = self.advance();
                        proof {
                            assert(spec_skip_ws(self.chars@, p2, l0, 2) == spec_skip_ws(
                                self.chars@,
                                p2 + 2,
                                l0,
                                0,
                            ));
                        }
                    }
                } else {
                    proof {
                        assert(spec_skip_ws(self.chars@, p0, l0, 0) == spec_skip_ws(
                            self.chars@,
                            p0 + 1,
                            l0,
                            1,
                        ));
                        assert(spec_skip_ws(self.chars@, p0, l0, 1) == spec_skip_ws(
                            self.chars@,
                            p0 + 1,
                            l0,
                            1,
                        ));
                    }
                    while !self.is_at_end() && self.peek() != '\n'
                        invariant
                            self.wf(),
                            self.chars@ == old(self).chars@,
                            self.start == old(self).start,
                            self.line as nat == l0,
                            p0 <= self.current as nat,
                            self.chars@[p0 as int] == ';',
                            p0 < self.chars@.len(),
                            spec_skip_ws(self.chars@, self.current as nat, l0, 1)
                                == spec_skip_ws(
                                old(self).chars@,
                                old(self).current as nat,
                                old(self).line as nat,
                                0,
                            ),
                        decreases self.chars@.len() - self.current,
                    {
                        let ghost p1 = self.current as nat;
                        let _ = self.advance();
                        proof {
                            assert(spec_skip_ws(self.chars@, p1, l0, 1) == spec_skip_ws(
                                self.chars@,
                                p1 + 1,
                                l0,
                                1,
                            ));
                        }
                    }
                    proof {
                        if self.current < self.chars.len() {
                            assert(spec_skip_ws(self.chars@, self.current as nat, l0, 1)
                                == spec_skip_ws(self.chars@, self.current as nat, l0, 0));
                        }
                        assert(self.current as nat > p0) by {
                            if self.current as nat == p0 {
                                assert(self.chars@[self.current as int] == ';');
                            }
                        }
                    }
                }
            } else {
                proof {
                    assert(spec_skip_ws(self.chars@, self.current as nat, self.line as nat, 0)
                        == (self.current as nat, self.line as nat));
                }
                return ;
            }
        }
    }

    fn advance_while_digits(&mut self)
        requires
            old(self).wf(),
        ensures
            final(self).wf(),
            final(self).chars@ == old(self).chars@,
            final(self).start == old(self).start,
            final(self).line == old(self).line,
            final(self).current as nat == spec_end_digits(old(self).chars@, old(self).current as nat),
            old(self).current <= final(self).current,
    {
        while !self.is_at_end() && is_digit(self.peek())
            invariant
                self.wf(),
                self.chars@ == old(self).chars@,
                self.start == old(self).start,
                self.line == old(self).line,
                old(self).current <= self.current,
                spec_end_digits(self.chars@, self.current as nat) == spec_end_digits(
                    old(self).chars@,
                    old(self).current as nat,
                ),
            decreases self.chars@.len() - self.current,
        {
            let ghost p1 = self.current as nat;
            let _ = self.advance();
            proof {
                assert(spec_end_digits(self.chars@, p1) == spec_end_digits(self.chars@, p1 + 1));
            }
        }
    }

    fn string(&mut self) -> (t: Token)
        requires
            old(self).wf(),
        ensures
            final(self).wf(),
            final(self).chars@ == old(self).chars@,
            ({
                let chars = old(self).chars@;
                let p1 = old(self).current as nat;
                let e = spec_end_string(chars, p1);
                let l2 = (old(self).line + spec_count_nl(chars, p1, e)) as nat;
                &&& final(self).line as nat == l2
                &&& if e >= chars.len() {
                    &&& t@ == spec_error_token("Unterminated string"@, l2)
                    &&& final(self).current as nat == e
                } else {
                    &&& t@ == (TokenModel {
                        kind: TokenType::String,
                        text: chars.subrange(p1 as int, e as int),
                        start: p1,
                        line: l2,
                    })
                    &&& final(self).current as nat == e + 1
                }
            }),
    {
        self.start = self.current;
        let ghost p1 = self.current as nat;
        let ghost l1 = self.line as nat;
        proof {
            lemma_end_string_bounds(self.chars@, p1);
        }
        while !self.is_at_end() && self.peek() != '"'
            invariant
                self.wf(),
                self.chars@ == old(self).chars@,
                self.start as nat == p1,
                p1 <= self.current as nat,
                spec_end_string(self.chars@, self.current as nat) == spec_end_string(
                    self.chars@,
                    p1,
                ),
                self.line as nat == l1 + spec_count_nl(self.chars@, p1, self.current as nat),
            decreases self.chars@.len() - self.current,
        {
            let ghost pc = self.current as nat;
            let c = self.peek();
            let _ = self.advance();
            if c == '\n' {
                self.line = self.line + 1;
            }
            proof {
                assert(spec_end_string(self.chars@, pc) == spec_end_string(self.chars@, pc + 1));
                assert(spec_count_nl(self.chars@, p1, pc + 1) == spec_count_nl(
                    self.chars@,
                    p1,
                    pc,
                ) + (if self.chars@[pc as int] == '\n' {
                    1nat
                } else {
                    0nat
                }));
            }
        }
        if self.is_at_end() {
            self.error_token("Unterminated string")
        } else {
            let token = self.make_token(TokenType::String);
            let _ = self.advance();
            token
        }
    }

    fn number(&mut self) -> (t: Token)
        requires
            old(self).wf(),
            old(self).start + 1 == old(self).current,
        ensures
            final(self).wf(),
            final(self).chars@ == old(self).chars@,
            final(self).line == old(self).line,
            ({
                let st = spec_scan_number(
                    old(self).chars@,
                    old(self).start as nat,
                    old(self).line as nat,
                );
                &&& t@ == st.tok
                &&& final(self).current as nat == st.pos
            }),
    {
        self.advance_while_digits();
        if !self.is_at_end() {
            let c = self.peek();
            if c == '.' {
                let _ = self.advance();
                self.advance_while_digits();
                return self.make_token(TokenType::FloatNumber);
            }
            if c == '/' {
                let nx = self.peek_next();
                if !is_digit(nx) {
                    return self.error_token("Unterminated fraction number");
                }
                let _ = self.advance();
                self.advance_while_digits();
                return self.make_token(TokenType::FractionNumber);
            }
            return self.make_token(TokenType::IntegerNumber);
        }
        self.make_token(TokenType::IntegerNumber)
    }

    fn identifier_type(&self) -> (k: TokenType)
        requires
            self.wf(),
        ensures
            k == spec_name_kind(self.chars@.subrange(self.start as int, self.current as int)),
    {
        let ghost text = self.chars@.subrange(self.start as int, self.current as int);
        proof {
            reveal_strlit("true");
            reveal_strlit("false");
            assert("true"@ =~= seq!['t', 'r', 'u', 'e']);
            assert("false"@ =~= seq!['f', 'a', 'l', 's', 'e']);
        }
        let n = self.current - self.start;
        if n == 5 && self.chars[self.start] == 'f' && self.chars[self.start + 1] == 'a'
            && self.chars[self.start + 2] == 'l' && self.chars[self.start + 3] == 's'
            && self.chars[self.start + 4] == 'e' {
            proof {
                assert(text =~= "false"@);
            }
            TokenType::False
        } else if n == 4 && self.chars[self.start] == 't' && self.chars[self.start + 1] == 'r'
            && self.chars[self.start + 2] == 'u' && self.chars[self.start + 3] == 'e' {
            proof {
                assert(text =~= "true"@);
                assert(text.len() != "false"@.len());
            }
            TokenType::True
        } else {
            proof {
                assert(text.len() == n);
                if text == "false"@ {
                    assert(self.chars@[self.start as int] == text[0]);
                    assert(self.chars@[self.start as int + 1] == text[1]);
                    assert(self.chars@[self.start as int + 2] == text[2]);
                    assert(self.chars@[self.start as int + 3] == text[3]);
                    assert(self.chars@[self.start as int + 4] == text[4]);
                    assert(false);
                }
                if text == "true"@ {
                    assert(self.chars@[self.start as int] == text[0]);
                    assert(self.chars@[self.start as int + 1] == text[1]);
                    assert(self.chars@[self.start as int + 2] == text[2]);
                    assert(self.chars@[self.start as int + 3] == text[3]);
                    assert(false);
                }
            }
            TokenType::Identifier
        }
    }

    fn identifier(&mut self) -> (t: Token)
        requires
            old(self).wf(),
        ensures
            final(self).wf(),
            final(self).chars@ == old(self).chars@,
            final(self).line == old(self).line,
            ({
                let chars = old(self).chars@;
                let e = spec_end_name(chars, old(self).current as nat);
                &&& final(self).current as nat == e
                &&& t@ == spec_token(
                    spec_name_kind(chars.subrange(old(self).start as int, e as int)),
                    chars,
                    old(self).start as nat,
                    e,
                    old(self).line as nat,
                )
            }),
    {
        while !self.is_at_end() && is_name_char(self.peek())
            invariant
                self.wf(),
                self.chars@ == old(self).chars@,
                self.start == old(self).start,
                self.line == old(self).line,
                spec_end_name(self.chars@, self.current as nat) == spec_end_name(
                    old(self).chars@,
                    old(self).current as nat,
                ),
            decreases self.chars@.len() - self.current,
        {
            let ghost p1 = self.current as nat;
            let _ = self.advance();
            proof {
                assert(spec_end_name(self.chars@, p1) == spec_end_name(self.chars@, p1 + 1));
            }
        }
        let kind = self.identifier_type();
        self.make_token(kind)
    }

    fn keyword(&mut self) -> (t: Token)
        requires
            old(self).wf(),
            old(self).start + 1 == old(self).current,
        ensures
            final(self).wf(),
            final(self).chars@ == old(self).chars@,
            final(self).line == old(self).line,
            ({
                let chars = old(self).chars@;
                let p = old(self).start as nat;
                let l = old(self).line as nat;
                if p + 1 < chars.len() && spec_is_alnum(chars[p as int + 1]) {
                    let e = spec_end_alnum(chars, p + 1);
                    &&& t@ == spec_token(TokenType::Keyword, chars, p, e, l)
                    &&& final(self).current as nat == e
                } else {
                    &&& t@ == spec_token(TokenType::Identifier, chars, p, p + 1, l)
                    &&& final(self).current as nat == p + 1
                }
            }),
    {
        let peeked = self.peek();
        if self.is_at_end() || !is_alnum(peeked) {
            return self.make_token(TokenType::Identifier);
        }
        while !self.is_at_end() && is_alnum(self.peek())
            invariant
                self.wf(),
                self.chars@ == old(self).chars@,
                self.start == old(self).start,
                self.line == old(self).line,
                spec_end_alnum(self.chars@, self.current as nat) == spec_end_alnum(
                    old(self).chars@,
                    old(self).current as nat,
                ),
            decreases self.chars@.len() - self.current,
        {
            let ghost p1 = self.current as nat;
            let _ = self.advance();
            proof {
                assert(spec_end_alnum(self.chars@, p1) == spec_end_alnum(self.chars@, p1 + 1));
            }
        }
        self.make_token(TokenType::Keyword)
    }

    /// Returns the next token and advances past it. The result is exactly
    /// what `spec_scan` says of the scanner's prior state; after end of
    /// input every further call keeps returning `Eof`.
    pub fn scan_token(&mut self) -> (t: Token)
        requires
            old(self).wf(),
        ensures
            final(self).wf(),
            final(self)@.chars == old(self)@.chars,
            ({
                let st = spec_scan(old(self)@.chars, old(self)@.pos, old(self)@.line);
                &&& t@ == st.tok
                &&& final(self)@.pos == st.pos
                &&& final(self)@.line == st.line
            }),
    {
        self.skip_whitespace();
        self.start = self.current;
        if self.is_at_end() {
            return self.make_token(TokenType::Eof);
        }
        let ghost p = self.current as nat;
        let ghost l = self.line as nat;
        let c = self.advance();
        if c == ':' {
            self.keyword()
        } else if is_digit(c) || (c == '-' && is_digit(self.peek())) {
            self.number()
        } else if is_name_char(c) {
            self.identifier()
        } else if c == '"' {
            self.string()
        } else if c == '(' {
            self.make_token(TokenType::LeftParen)
        } else if c == ')' {
            self.make_token(TokenType::RightParen)
        } else if c == '{' {
            self.make_token(TokenType::LeftBrace)
        } else if c == '}' {
            self.make_token(TokenType::RightBrace)
        } else if c == '[' {
            self.make_token(TokenType::LeftSquare)
        } else if c == ']' {
            self.make_token(TokenType::RightSquare)
        } else if c == '#' {
            self.make_token(TokenType::Dispatch)
        } else {
            self.error_token("Unexpected character.")
        }
    }
}

} // verus!
