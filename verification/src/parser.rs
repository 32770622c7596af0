//! The recursive-descent parser: pulls tokens from the scanner, builds a
//! `Program` (an ordered sequence of top-level forms), and recovers from
//! errors in panic mode, reporting only the first diagnostic of a run.
//!
//! The whole parse is stated as spec functions over the parser's
//! mathematical state (`spec_parse` and its helpers); the executable parser
//! is proved to return exactly what they describe. The spec functions carry
//! a fuel argument only to bound their recursion; the executable parser
//! proves that the fuel `spec_parse` supplies is enough, so the `None`
//! (out-of-fuel) outcome never describes a real parse.

use crate::numbers::{parse_fraction_lexeme, parse_i64_lexeme, spec_parse_fraction, spec_parse_i64};
use crate::scanner::{lemma_spec_scan_bounds, spec_scan, spec_skip_ws, Scanner, ScannerModel};
use crate::text::{dec_string, spec_dec};
use crate::token::{spec_token_type_name, Token, TokenModel, TokenType};
use vstd::prelude::*;
use vstd::string::StringExecFns;

verus! {

broadcast use vstd::std_specs::vec::axiom_vec_index_decreases;

/// One expression of the tree. A float literal keeps its source text: the
/// library represents it exactly and leaves conversion to binary floating
/// point to its callers.
#[derive(Debug, PartialEq)]
pub enum ExpressionNode {
    Empty,
    BooleanLiteral(bool),
    IntegerNumberLiteral(i64),
    FloatNumberLiteral(String),
    FractionNumberLiteral(i64, i64),
    StringLiteral(String),
    Identifier(String),
    Keyword(String),
    FunctionCall(ExpressionList),
    AnonymousFunction(ExpressionList),
    Array(ExpressionList),
    MapLiteral(ExpressionList),
}

/// An ordered sequence of expressions; order is significant.
pub type ExpressionList = Vec<ExpressionNode>;

/// An ordered sequence of top-level forms, in source order.
pub type Program = Vec<ExpressionList>;

/// The mathematical value of an expression: text as character sequences,
/// children as sequences of values.
#[verifier::ext_equal]
pub ghost enum NodeV {
    Empty,
    Bool(bool),
    Int(i64),
    Float(Seq<char>),
    Fraction(i64, i64),
    Str(Seq<char>),
    Ident(Seq<char>),
    Keyword(Seq<char>),
    Call(Seq<NodeV>),
    Anon(Seq<NodeV>),
    Array(Seq<NodeV>),
    MapLiteral(Seq<NodeV>),
}

/// The mathematical value of an expression node.
pub open spec fn node_view(e: ExpressionNode) -> NodeV
    decreases e, 0int,
{
    match e {
        ExpressionNode::Empty => NodeV::Empty,
        ExpressionNode::BooleanLiteral(b) => NodeV::Bool(b),
        ExpressionNode::IntegerNumberLiteral(v) => NodeV::Int(v),
        ExpressionNode::FloatNumberLiteral(s) => NodeV::Float(s@),
        ExpressionNode::FractionNumberLiteral(n, d) => NodeV::Fraction(n, d),
        ExpressionNode::StringLiteral(s) => NodeV::Str(s@),
        ExpressionNode::Identifier(s) => NodeV::Ident(s@),
        ExpressionNode::Keyword(s) => NodeV::Keyword(s@),
        ExpressionNode::FunctionCall(l) => NodeV::Call(list_view_from(l, 0)),
        ExpressionNode::AnonymousFunction(l) => NodeV::Anon(list_view_from(l, 0)),
        ExpressionNode::Array(l) => NodeV::Array(list_view_from(l, 0)),
        ExpressionNode::MapLiteral(l) => NodeV::MapLiteral(list_view_from(l, 0)),
    }
}

/// The values of the expressions of `l` from index `i` on.
pub open spec fn list_view_from(l: ExpressionList, i: int) -> Seq<NodeV>
    decreases l, l.len() - i,
{
    if i < 0 || i >= l.len() {
        Seq::empty()
    } else {
        seq![node_view(l[i])] + list_view_from(l, i + 1)
    }
}

/// The mathematical value of an expression list.
pub open spec fn list_view(l: ExpressionList) -> Seq<NodeV> {
    list_view_from(l, 0)
}

/// What each index of a partial list view holds.
pub proof fn lemma_list_view_from(l: ExpressionList, i: int)
    requires
        0 <= i <= l.len(),
    ensures
        list_view_from(l, i).len() == l.len() - i,
        forall|j: int|
            0 <= j < l.len() - i ==> #[trigger] list_view_from(l, i)[j] == node_view(l[i + j]),
    decreases l.len() - i,
{
    if i < l.len() {
        lemma_list_view_from(l, i + 1);
    }
}

/// The view of a list indexes pointwise into its expressions.
pub proof fn lemma_list_view(l: ExpressionList)
    ensures
        list_view(l).len() == l.len(),
        forall|j: int| 0 <= j < l.len() ==> #[trigger] list_view(l)[j] == node_view(l[j]),
{
    lemma_list_view_from(l, 0);
}

/// The mathematical value of a program.
pub open spec fn program_view(p: Program) -> Seq<Seq<NodeV>> {
    Seq::new(p.len() as nat, |i: int| list_view(p[i]))
}

/// The mathematical state of a parser: the scanner's state, the lookahead
/// token, the accumulated program, and the error-reporting state.
#[verifier::ext_equal]
pub ghost struct ParserModel {
    pub scanner: ScannerModel,
    pub current: TokenModel,
    pub program: Seq<Seq<NodeV>>,
    pub had_error: bool,
    pub panic_mode: bool,
    pub last_error: Seq<char>,
}

/// The diagnostic text for an error at token `t`:
/// `[line <N>] Error<location>: <message>`, where the location is
/// ` at end` for the end-of-input token and ` at '<text>'` otherwise.
pub open spec fn spec_diag(t: TokenModel, msg: Seq<char>) -> Seq<char> {
    "[line "@ + spec_dec(t.line) + "] Error"@ + (if t.kind == TokenType::Eof {
        " at end"@
    } else {
        " at '"@ + t.text + "'"@
    }) + ": "@ + msg
}

/// Recording an error at token `t`: in panic mode nothing happens; the
/// first error of a run sets both flags and becomes the sole diagnostic.
pub open spec fn spec_record_error(p: ParserModel, t: TokenModel, msg: Seq<char>) -> ParserModel {
    if p.panic_mode {
        p
    } else {
        ParserModel {
            scanner: p.scanner,
            current: p.current,
            program: p.program,
            had_error: true,
            panic_mode: true,
            last_error: spec_diag(t, msg),
        }
    }
}

/// The message `Expected <want>, but get <got>`.
pub open spec fn spec_msg_expected(want: TokenType, got: TokenType) -> Seq<char> {
    "Expected "@ + spec_token_type_name(want) + ", but get "@ + spec_token_type_name(got)
}

/// The message `Unexpected token <got>`.
pub open spec fn spec_msg_unexpected(got: TokenType) -> Seq<char> {
    "Unexpected token "@ + spec_token_type_name(got)
}

/// Advancing the lookahead: scan one token; error tokens are reported
/// (first one only, by panic mode) and skipped, so the lookahead that
/// results is never an error token.
pub open spec fn spec_advance(p: ParserModel) -> ParserModel
    decreases p.scanner.chars.len() - p.scanner.pos,
        via spec_advance_decreases
{
    let st = spec_scan(p.scanner.chars, p.scanner.pos, p.scanner.line);
    let p2 = ParserModel {
        scanner: ScannerModel { chars: p.scanner.chars, pos: st.pos, line: st.line },
        current: st.tok,
        program: p.program,
        had_error: p.had_error,
        panic_mode: p.panic_mode,
        last_error: p.last_error,
    };
    if st.tok.kind == TokenType::Error {
        spec_advance(spec_record_error(p2, st.tok, st.tok.text))
    } else {
        p2
    }
}

#[via_fn]
proof fn spec_advance_decreases(p: ParserModel) {
    let st = spec_scan(p.scanner.chars, p.scanner.pos, p.scanner.line);
    if st.tok.kind == TokenType::Error {
        if p.scanner.pos <= p.scanner.chars.len() {
            lemma_spec_scan_bounds(p.scanner.chars, p.scanner.pos, p.scanner.line);
        } else {
            assert(crate::scanner::spec_skip_ws(
                p.scanner.chars,
                p.scanner.pos,
                p.scanner.line,
                0,
            ) == (p.scanner.pos, p.scanner.line));
            assert(st.tok.kind == TokenType::Eof);
        }
    }
}

/// How much input can still drive the parser forward: the characters the
/// scanner has not consumed, plus one for a lookahead that is not yet the
/// end-of-input token. Every consumed token strictly shrinks it.
pub open spec fn spec_pmeasure(p: ParserModel) -> nat {
    (p.scanner.chars.len() - p.scanner.pos + (if p.current.kind == TokenType::Eof {
        0int
    } else {
        1int
    })) as nat
}

/// Advancing never grows the measure past the unconsumed input, keeps the
/// source, stays inside it, and never leaves an error (or the sentinel) as
/// the lookahead.
pub proof fn lemma_spec_advance(p: ParserModel)
    requires
        p.scanner.pos <= p.scanner.chars.len(),
    ensures
        spec_advance(p).scanner.chars == p.scanner.chars,
        spec_advance(p).scanner.pos <= p.scanner.chars.len(),
        spec_advance(p).current.kind != TokenType::Error,
        spec_advance(p).current.kind != TokenType::Init,
        spec_advance(p).program == p.program,
        spec_pmeasure(spec_advance(p)) <= p.scanner.chars.len() - p.scanner.pos,
        p.current.kind != TokenType::Eof ==> spec_pmeasure(spec_advance(p)) < spec_pmeasure(p),
    decreases p.scanner.chars.len() - p.scanner.pos,
{
    let st = spec_scan(p.scanner.chars, p.scanner.pos, p.scanner.line);
    lemma_spec_scan_bounds(p.scanner.chars, p.scanner.pos, p.scanner.line);
    let p2 = ParserModel {
        scanner: ScannerModel { chars: p.scanner.chars, pos: st.pos, line: st.line },
        current: st.tok,
        program: p.program,
        had_error: p.had_error,
        panic_mode: p.panic_mode,
        last_error: p.last_error,
    };
    if st.tok.kind == TokenType::Error {
        lemma_spec_advance(spec_record_error(p2, st.tok, st.tok.text));
    }
}

/// The closing delimiter that matches an opening one. Only the three
/// opening kinds are ever passed.
pub open spec fn spec_end_delim(start: TokenType) -> TokenType {
    match start {
        TokenType::LeftParen => TokenType::RightParen,
        TokenType::LeftBrace => TokenType::RightBrace,
        TokenType::LeftSquare => TokenType::RightSquare,
        _ => TokenType::Eof,
    }
}

/// One expression, dispatched on the lookahead, which each variant
/// consumes itself. `Err` carries the message of a hard error that aborts
/// the enclosing list; the state it is paired with is where the error was
/// noticed.
pub open spec fn spec_expression(p: ParserModel, fuel: nat) -> Option<
    (ParserModel, Result<NodeV, Seq<char>>),
>
    decreases fuel, 1nat,
{
    match p.current.kind {
        TokenType::True => Some((spec_advance(p), Ok(NodeV::Bool(true)))),
        TokenType::False => Some((spec_advance(p), Ok(NodeV::Bool(false)))),
        TokenType::String => Some((spec_advance(p), Ok(NodeV::Str(p.current.text)))),
        TokenType::IntegerNumber => match spec_parse_i64(p.current.text) {
            Option::Some(v) => Some((spec_advance(p), Ok(NodeV::Int(v)))),
            Option::None => Some((p, Err("Invalid integer literal"@))),
        },
        TokenType::FloatNumber => Some((spec_advance(p), Ok(NodeV::Float(p.current.text)))),
        TokenType::FractionNumber => match spec_parse_fraction(p.current.text) {
            Option::Some(nd) => Some((spec_advance(p), Ok(NodeV::Fraction(nd.0, nd.1)))),
            Option::None => Some((p, Err("Invalid fraction literal"@))),
        },
        TokenType::Identifier => Some((spec_advance(p), Ok(NodeV::Ident(p.current.text)))),
        TokenType::Keyword => Some((spec_advance(p), Ok(NodeV::Keyword(p.current.text)))),
        TokenType::Dispatch => {
            let p2 = spec_advance(p);
            if p2.current.kind == TokenType::LeftParen {
                match spec_expression_list(p2, TokenType::LeftParen, fuel) {
                    Option::None => None,
                    Option::Some((p3, Ok(items))) => Some((p3, Ok(NodeV::Anon(items)))),
                    Option::Some((p3, Err(m))) => Some((p3, Err(m))),
                }
            } else {
                Some((p2, Err(spec_msg_unexpected(p2.current.kind))))
            }
        },
        TokenType::LeftParen => match spec_expression_list(p, TokenType::LeftParen, fuel) {
            Option::None => None,
            Option::Some((p3, Ok(items))) => Some((p3, Ok(NodeV::Call(items)))),
            Option::Some((p3, Err(m))) => Some((p3, Err(m))),
        },
        TokenType::LeftSquare => match spec_expression_list(p, TokenType::LeftSquare, fuel) {
            Option::None => None,
            Option::Some((p3, Ok(items))) => Some((p3, Ok(NodeV::Array(items)))),
            Option::Some((p3, Err(m))) => Some((p3, Err(m))),
        },
        TokenType::LeftBrace => match spec_expression_list(p, TokenType::LeftBrace, fuel) {
            Option::None => None,
            Option::Some((p3, Ok(items))) => Some((p3, Ok(NodeV::MapLiteral(items)))),
            Option::Some((p3, Err(m))) => Some((p3, Err(m))),
        },
        TokenType::Eof => Some((p, Ok(NodeV::Empty))),
        _ => Some((p, Err(spec_msg_unexpected(p.current.kind)))),
    }
}

/// The body of a delimited list: expressions until the closing delimiter
/// or end of input, a hard error aborting the rest.
pub open spec fn spec_el_loop(
    p: ParserModel,
    end: TokenType,
    acc: Seq<NodeV>,
    fuel: nat,
) -> Option<(ParserModel, Result<Seq<NodeV>, Seq<char>>)>
    decreases fuel, 2nat,
{
    if p.current.kind == end || p.current.kind == TokenType::Eof {
        Some((p, Ok(acc)))
    } else {
        match spec_expression(p, fuel) {
            Option::None => None,
            Option::Some((p2, Err(m))) => Some((p2, Err(m))),
            Option::Some((p2, Ok(n))) => if fuel == 0 {
                None
            } else {
                spec_el_loop(p2, end, acc.push(n), (fuel - 1) as nat)
            },
        }
    }
}

/// A delimited list: a missing opener is recorded (degraded recovery, no
/// input consumed); otherwise the items, and then the closing delimiter is
/// consumed, or its absence recorded.
pub open spec fn spec_expression_list(p: ParserModel, start: TokenType, fuel: nat) -> Option<
    (ParserModel, Result<Seq<NodeV>, Seq<char>>),
>
    decreases fuel, 0nat,
{
    let end = spec_end_delim(start);
    if p.current.kind != start {
        Some(
            (
                spec_record_error(p, p.current, spec_msg_expected(start, p.current.kind)),
                Ok(Seq::empty()),
            ),
        )
    } else if fuel == 0 {
        None
    } else {
        let p2 = spec_advance(p);
        match spec_el_loop(p2, end, Seq::empty(), (fuel - 1) as nat) {
            Option::None => None,
            Option::Some((p3, Err(m))) => Some((p3, Err(m))),
            Option::Some((p3, Ok(items))) => {
                if p3.current.kind != end {
                    Some(
                        (
                            spec_record_error(
                                p3,
                                p3.current,
                                spec_msg_expected(end, p3.current.kind),
                            ),
                            Ok(items),
                        ),
                    )
                } else {
                    Some((spec_advance(p3), Ok(items)))
                }
            },
        }
    }
}

/// The top-level loop: every form must be a parenthesized list; the first
/// recorded error aborts the loop, and a hard error is recorded at the
/// token where it was noticed.
pub open spec fn spec_parse_loop(p: ParserModel, fuel: nat) -> Option<ParserModel>
    decreases fuel, 3nat,
{
    if p.current.kind == TokenType::Eof {
        Some(p)
    } else {
        match spec_expression_list(p, TokenType::LeftParen, fuel) {
            Option::None => None,
            Option::Some((p2, r)) => {
                if p2.had_error {
                    Some(p2)
                } else {
                    match r {
                        Ok(items) => if fuel == 0 {
                            None
                        } else {
                            spec_parse_loop(
                                ParserModel {
                                    scanner: p2.scanner,
                                    current: p2.current,
                                    program: p2.program.push(items),
                                    had_error: p2.had_error,
                                    panic_mode: p2.panic_mode,
                                    last_error: p2.last_error,
                                },
                                (fuel - 1) as nat,
                            )
                        },
                        Err(m) => Some(spec_record_error(p2, p2.current, m)),
                    }
                }
            },
        }
    }
}

/// The trailing end-of-input check: at the end the token is consumed
/// (a no-op rescan); anything else is an error, unless one was already
/// recorded.
pub open spec fn spec_consume_eof(p: ParserModel) -> ParserModel {
    if p.current.kind == TokenType::Eof {
        spec_advance(p)
    } else if !p.had_error {
        spec_record_error(p, p.current, "Expect end of expression."@)
    } else {
        p
    }
}

/// The complete parse from a freshly built parser state: prime the
/// lookahead, run the top-level loop, then require the end of input. The
/// fuel supplied here is proved sufficient by the executable parser.
pub open spec fn spec_parse(p0: ParserModel) -> ParserModel {
    let p1 = spec_advance(p0);
    match spec_parse_loop(p1, spec_pmeasure(p1) + 1) {
        Option::None => p1,
        Option::Some(p2) => spec_consume_eof(p2),
    }
}


/// More fuel never changes a result the spec parser already produces.
proof fn lemma_expression_mono(p: ParserModel, f1: nat, f2: nat)
    requires
        f1 <= f2,
        spec_expression(p, f1) is Some,
    ensures
        spec_expression(p, f2) == spec_expression(p, f1),
    decreases f1, 1nat,
{
    match p.current.kind {
        TokenType::Dispatch => {
            let p2 = spec_advance(p);
            if p2.current.kind == TokenType::LeftParen {
                lemma_expression_list_mono(p2, TokenType::LeftParen, f1, f2);
            }
        },
        TokenType::LeftParen => lemma_expression_list_mono(p, TokenType::LeftParen, f1, f2),
        TokenType::LeftSquare => lemma_expression_list_mono(p, TokenType::LeftSquare, f1, f2),
        TokenType::LeftBrace => lemma_expression_list_mono(p, TokenType::LeftBrace, f1, f2),
        _ => {},
    }
}

proof fn lemma_el_loop_mono(p: ParserModel, end: TokenType, acc: Seq<NodeV>, f1: nat, f2: nat)
    requires
        f1 <= f2,
        spec_el_loop(p, end, acc, f1) is Some,
    ensures
        spec_el_loop(p, end, acc, f2) == spec_el_loop(p, end, acc, f1),
    decreases f1, 2nat,
{
    if p.current.kind == end || p.current.kind == TokenType::Eof {
    } else {
        lemma_expression_mono(p, f1, f2);
        match spec_expression(p, f1) {
            Option::Some((p2, Ok(n))) => {
                lemma_el_loop_mono(p2, end, acc.push(n), (f1 - 1) as nat, (f2 - 1) as nat);
            },
            _ => {},
        }
    }
}

proof fn lemma_expression_list_mono(p: ParserModel, start: TokenType, f1: nat, f2: nat)
    requires
        f1 <= f2,
        spec_expression_list(p, start, f1) is Some,
    ensures
        spec_expression_list(p, start, f2) == spec_expression_list(p, start, f1),
    decreases f1, 0nat,
{
    if p.current.kind != start {
    } else {
        let p2 = spec_advance(p);
        lemma_el_loop_mono(p2, spec_end_delim(start), Seq::empty(), (f1 - 1) as nat, (f2 - 1) as nat);
    }
}

proof fn lemma_parse_loop_mono(p: ParserModel, f1: nat, f2: nat)
    requires
        f1 <= f2,
        spec_parse_loop(p, f1) is Some,
    ensures
        spec_parse_loop(p, f2) == spec_parse_loop(p, f1),
    decreases f1, 3nat,
{
    if p.current.kind == TokenType::Eof {
    } else {
        lemma_expression_list_mono(p, TokenType::LeftParen, f1, f2);
        match spec_expression_list(p, TokenType::LeftParen, f1) {
            Option::Some((p2, r)) => {
                if !p2.had_error {
                    match r {
                        Ok(items) => {
                            lemma_parse_loop_mono(
                                ParserModel {
                                    scanner: p2.scanner,
                                    current: p2.current,
                                    program: p2.program.push(items),
                                    had_error: p2.had_error,
                                    panic_mode: p2.panic_mode,
                                    last_error: p2.last_error,
                                },
                                (f1 - 1) as nat,
                                (f2 - 1) as nat,
                            );
                        },
                        Err(_) => {},
                    }
                }
            },
            _ => {},
        }
    }
}

/// The parser. It owns the scanner it pulls tokens from, the lookahead
/// token, the program built so far, and the error-reporting state.
pub struct Parser {
    scanner: Scanner,
    current: Token,
    program: Program,
    had_error: bool,
    panic_mode: bool,
    last_error: String,
}

impl View for Parser {
    type V = ParserModel;

    closed spec fn view(&self) -> ParserModel {
        ParserModel {
            scanner: self.scanner@,
            current: self.current@,
            program: program_view(self.program),
            had_error: self.had_error,
            panic_mode: self.panic_mode,
            last_error: self.last_error@,
        }
    }
}

/// The diagnostic for an error at token `t`.
fn diag_of(t: &Token, message: &str) -> (s: String)
    ensures
        s@ == spec_diag(t@, message@),
{
    let mut s = String::from_str("[line ");
    let line_str = dec_string(t.line);
    s.append(line_str.as_str());
    s.append("] Error");
    if t.kind == TokenType::Eof {
        s.append(" at end");
    } else {
        s.append(" at '");
        s.append(t.src.as_str());
        s.append("'");
    }
    s.append(": ");
    s.append(message);
    proof {
        assert(s@ =~= spec_diag(t@, message@));
    }
    s
}

/// The message `Expected <want>, but get <got>`.
fn msg_expected(want: TokenType, got: TokenType) -> (s: String)
    ensures
        s@ == spec_msg_expected(want, got),
{
    let mut s = String::from_str("Expected ");
    let w = want.name();
    s.append(w.as_str());
    s.append(", but get ");
    let g = got.name();
    s.append(g.as_str());
    proof {
        assert(s@ =~= spec_msg_expected(want, got));
    }
    s
}

/// The message `Unexpected token <got>`.
fn msg_unexpected(got: TokenType) -> (s: String)
    ensures
        s@ == spec_msg_unexpected(got),
{
    let mut s = String::from_str("Unexpected token ");
    let g = got.name();
    s.append(g.as_str());
    proof {
        assert(s@ =~= spec_msg_unexpected(got));
    }
    s
}

impl Parser {
    /// Well-formedness: the scanner the parser pulls from is well-formed,
    /// and panic mode is never set without an error on record.
    pub closed spec fn wf(&self) -> bool {
        self.scanner.wf() && (self.panic_mode ==> self.had_error)
    }

    pub fn new(scanner: Scanner) -> (p: Parser)
        requires
            scanner.wf(),
        ensures
            p.wf(),
            p@ == (ParserModel {
                scanner: scanner@,
                current: TokenModel {
                    kind: TokenType::Init,
                    text: Seq::empty(),
                    start: 0,
                    line: 0,
                },
                program: Seq::empty(),
                had_error: false,
                panic_mode: false,
                last_error: Seq::empty(),
            }),
    {
        let p = Parser {
            current: Token::default(),
            scanner,
            program: Vec::new(),
            had_error: false,
            panic_mode: false,
            last_error: String::new(),
        };
        proof {
            assert(program_view(p.program) =~= Seq::<Seq<NodeV>>::empty());
            assert(p@ =~= (ParserModel {
                scanner: p.scanner@,
                current: TokenModel {
                    kind: TokenType::Init,
                    text: Seq::empty(),
                    start: 0,
                    line: 0,
                },
                program: Seq::empty(),
                had_error: false,
                panic_mode: false,
                last_error: Seq::empty(),
            }));
        }
        p
    }

    fn is_end(&self) -> (r: bool)
        ensures
            r == (self@.current.kind == TokenType::Eof),
    {
        self.current.kind == TokenType::Eof
    }

    fn error_at_current(&mut self, message: &str)
        requires
            old(self).wf(),
        ensures
            final(self).wf(),
            final(self)@ == spec_record_error(old(self)@, old(self)@.current, message@),
    {
        if self.panic_mode {
            return ;
        }
        let d = diag_of(&self.current, message);
        self.panic_mode = true;
        self.had_error = true;
        self.last_error = d;
        proof {
            assert(self@ =~= spec_record_error(old(self)@, old(self)@.current, message@));
        }
    }

    fn error_at_current_lexical(&mut self)
        requires
            old(self).wf(),
        ensures
            final(self).wf(),
            final(self)@ == spec_record_error(
                old(self)@,
                old(self)@.current,
                old(self)@.current.text,
            ),
    {
        if self.panic_mode {
            return ;
        }
        let d = diag_of(&self.current, self.current.src.as_str());
        self.panic_mode = true;
        self.had_error = true;
        self.last_error = d;
        proof {
            assert(self@ =~= spec_record_error(
                old(self)@,
                old(self)@.current,
                old(self)@.current.text,
            ));
        }
    }

    fn advance(&mut self)
        requires
            old(self).wf(),
        ensures
            final(self).wf(),
            final(self)@ == spec_advance(old(self)@),
            final(self)@.scanner.chars == old(self)@.scanner.chars,
            spec_pmeasure(final(self)@) <= old(self)@.scanner.chars.len()
                - old(self)@.scanner.pos,
            old(self)@.current.kind != TokenType::Eof ==> spec_pmeasure(final(self)@)
                < spec_pmeasure(old(self)@),
    {
        proof {
            self.scanner.lemma_wf_bounds();
            lemma_spec_advance(old(self)@);
        }
        loop
            invariant
                self.wf(),
                self@.scanner.chars == old(self)@.scanner.chars,
                self@.scanner.pos <= self@.scanner.chars.len(),
                old(self)@.scanner.pos <= old(self)@.scanner.chars.len(),
                spec_advance(self@) == spec_advance(old(self)@),
            decreases self@.scanner.chars.len() - self@.scanner.pos,
        {
            let ghost pre = self@;
            proof {
                lemma_spec_scan_bounds(pre.scanner.chars, pre.scanner.pos, pre.scanner.line);
            }
            let t = self.scanner.scan_token();
            let is_err = t.kind == TokenType::Error;
            self.current = t;
            if is_err {
                self.error_at_current_lexical();
                proof {
                    lemma_spec_advance(pre);
                }
            } else {
                proof {
                    lemma_spec_advance(pre);
                    lemma_spec_advance(old(self)@);
                }
                return ;
            }
        }
    }
}


impl Parser {
    #[verifier::rlimit(80)]
    fn expression(&mut self) -> (r: Result<ExpressionNode, String>)
        requires
            old(self).wf(),
        ensures
            final(self).wf(),
            spec_pmeasure(final(self)@) <= spec_pmeasure(old(self)@),
            (r is Ok && old(self)@.current.kind != TokenType::Eof) ==> spec_pmeasure(
                final(self)@,
            ) < spec_pmeasure(old(self)@),
            ({
                match spec_expression(old(self)@, spec_pmeasure(old(self)@) + 1) {
                    Option::Some((p2, r2)) => {
                        &&& final(self)@ == p2
                        &&& match r {
                            Ok(n) => r2 == Ok::<NodeV, Seq<char>>(node_view(n)),
                            Err(m) => r2 == Err::<NodeV, Seq<char>>(m@),
                        }
                    },
                    Option::None => false,
                }
            }),
        decreases spec_pmeasure(old(self)@), 1nat,
    {
        let ghost m0 = spec_pmeasure(old(self)@);
        match self.current.kind {
            TokenType::True => {
                self.advance();
                Ok(ExpressionNode::BooleanLiteral(true))
            },
            TokenType::False => {
                self.advance();
                Ok(ExpressionNode::BooleanLiteral(false))
            },
            TokenType::String => {
                let val = self.current.src.clone();
                self.advance();
                Ok(ExpressionNode::StringLiteral(val))
            },
            TokenType::IntegerNumber => {
                let parsed = parse_i64_lexeme(self.current.src.as_str());
                match parsed {
                    Some(v) => {
                        self.advance();
                        Ok(ExpressionNode::IntegerNumberLiteral(v))
                    },
                    None => Err(String::from_str("Invalid integer literal")),
                }
            },
            TokenType::FloatNumber => {
                let val = self.current.src.clone();
                self.advance();
                Ok(ExpressionNode::FloatNumberLiteral(val))
            },
            TokenType::FractionNumber => {
                let parsed = parse_fraction_lexeme(self.current.src.as_str());
                match parsed {
                    Some(nd) => {
                        self.advance();
                        Ok(ExpressionNode::FractionNumberLiteral(nd.0, nd.1))
                    },
                    None => Err(String::from_str("Invalid fraction literal")),
                }
            },
            TokenType::Identifier => {
                let val = self.current.src.clone();
                self.advance();
                Ok(ExpressionNode::Identifier(val))
            },
            TokenType::Keyword => {
                let val = self.current.src.clone();
                self.advance();
                Ok(ExpressionNode::Keyword(val))
            },
            TokenType::Dispatch => {
                self.advance();
                let ghost p2 = self@;
                if self.current.kind == TokenType::LeftParen {
                    let res = self.expression_list(TokenType::LeftParen);
                    proof {
                        lemma_expression_list_mono(
                            p2,
                            TokenType::LeftParen,
                            spec_pmeasure(p2) + 1,
                            m0 + 1,
                        );
                    }
                    match res {
                        Ok(items) => Ok(ExpressionNode::AnonymousFunction(items)),
                        Err(m) => Err(m),
                    }
                } else {
                    Err(msg_unexpected(self.current.kind))
                }
            },
            TokenType::LeftParen => {
                let res = self.expression_list(TokenType::LeftParen);
                match res {
                    Ok(items) => Ok(ExpressionNode::FunctionCall(items)),
                    Err(m) => Err(m),
                }
            },
            TokenType::LeftSquare => {
                let res = self.expression_list(TokenType::LeftSquare);
                match res {
                    Ok(items) => Ok(ExpressionNode::Array(items)),
                    Err(m) => Err(m),
                }
            },
            TokenType::LeftBrace => {
                let res = self.expression_list(TokenType::LeftBrace);
                match res {
                    Ok(items) => Ok(ExpressionNode::MapLiteral(items)),
                    Err(m) => Err(m),
                }
            },
            TokenType::Eof => Ok(ExpressionNode::Empty),
            _ => Err(msg_unexpected(self.current.kind)),
        }
    }

    /// The items of a delimited list, accumulated onto `items`, until the
    /// closing delimiter or end of input; a hard error hands the message
    /// back and abandons the rest.
    fn expression_items(&mut self, end_token: TokenType, items: ExpressionList) -> (r: (
        ExpressionList,
        Option<String>,
    ))
        requires
            old(self).wf(),
        ensures
            final(self).wf(),
            spec_pmeasure(final(self)@) <= spec_pmeasure(old(self)@),
            ({
                match spec_el_loop(
                    old(self)@,
                    end_token,
                    list_view(items),
                    spec_pmeasure(old(self)@) + 1,
                ) {
                    Option::Some((p2, r2)) => {
                        &&& final(self)@ == p2
                        &&& match r.1 {
                            Option::None => r2 == Ok::<Seq<NodeV>, Seq<char>>(list_view(r.0)),
                            Option::Some(m) => r2 == Err::<Seq<NodeV>, Seq<char>>(m@),
                        }
                    },
                    Option::None => false,
                }
            }),
        decreases spec_pmeasure(old(self)@), 2nat,
    {
        let ghost m0 = spec_pmeasure(old(self)@);
        if self.current.kind == end_token || self.is_end() {
            return (items, None);
        }
        let res = self.expression();
        match res {
            Err(m) => (items, Some(m)),
            Ok(n) => {
                let ghost p2 = self@;
                let mut items2 = items;
                items2.push(n);
                proof {
                    lemma_list_view(items2);
                    lemma_list_view(items);
                    assert(list_view(items2) =~= list_view(items).push(node_view(n)));
                }
                let out = self.expression_items(end_token, items2);
                proof {
                    lemma_el_loop_mono(
                        p2,
                        end_token,
                        list_view(items).push(node_view(n)),
                        spec_pmeasure(p2) + 1,
                        m0,
                    );
                }
                out
            },
        }
    }

    /// A delimited list beginning with `start_token`: a missing opener is
    /// recorded and no input consumed; otherwise the items, then the
    /// matching closer, whose absence is recorded.
    fn expression_list(&mut self, start_token: TokenType) -> (r: Result<ExpressionList, String>)
        requires
            old(self).wf(),
            start_token == TokenType::LeftParen || start_token == TokenType::LeftBrace
                || start_token == TokenType::LeftSquare,
        ensures
            final(self).wf(),
            spec_pmeasure(final(self)@) <= spec_pmeasure(old(self)@),
            !final(self)@.had_error ==> spec_pmeasure(final(self)@) < spec_pmeasure(old(self)@),
            old(self)@.current.kind == start_token ==> spec_pmeasure(final(self)@)
                < spec_pmeasure(old(self)@),
            ({
                match spec_expression_list(
                    old(self)@,
                    start_token,
                    spec_pmeasure(old(self)@) + 1,
                ) {
                    Option::Some((p2, r2)) => {
                        &&& final(self)@ == p2
                        &&& match r {
                            Ok(items) => r2 == Ok::<Seq<NodeV>, Seq<char>>(list_view(items)),
                            Err(m) => r2 == Err::<Seq<NodeV>, Seq<char>>(m@),
                        }
                    },
                    Option::None => false,
                }
            }),
        decreases spec_pmeasure(old(self)@), 0nat,
    {
        let ghost m0 = spec_pmeasure(old(self)@);
        let end_token = match start_token {
            TokenType::LeftParen => TokenType::RightParen,
            TokenType::LeftBrace => TokenType::RightBrace,
            TokenType::LeftSquare => TokenType::RightSquare,
            _ => TokenType::Eof,
        };
        proof {
            assert(end_token == spec_end_delim(start_token));
        }
        if self.current.kind != start_token {
            let m = msg_expected(start_token, self.current.kind);
            self.error_at_current(m.as_str());
            let empty_items: ExpressionList = Vec::new();
            proof {
                assert(list_view(empty_items) =~= Seq::<NodeV>::empty());
            }
            return Ok(empty_items);
        }
        self.advance();
        let ghost p2 = self@;
        let fresh: ExpressionList = Vec::new();
        proof {
            assert(list_view(fresh) =~= Seq::<NodeV>::empty());
        }
        let (items, err) = self.expression_items(end_token, fresh);
        proof {
            lemma_el_loop_mono(
                p2,
                end_token,
                Seq::empty(),
                spec_pmeasure(p2) + 1,
                m0,
            );
        }
        match err {
            Some(m) => Err(m),
            None => {
                if self.current.kind != end_token {
                    let m = msg_expected(end_token, self.current.kind);
                    self.error_at_current(m.as_str());
                } else {
                    self.advance();
                }
                Ok(items)
            },
        }
    }

    /// The top-level loop: forms until end of input; the first recorded
    /// error ends it.
    fn parse_forms(&mut self)
        requires
            old(self).wf(),
        ensures
            final(self).wf(),
            ({
                match spec_parse_loop(old(self)@, spec_pmeasure(old(self)@) + 1) {
                    Option::Some(p2) => final(self)@ == p2,
                    Option::None => false,
                }
            }),
        decreases spec_pmeasure(old(self)@), 3nat,
    {
        let ghost m0 = spec_pmeasure(old(self)@);
        if self.is_end() {
            return ;
        }
        let res = self.expression_list(TokenType::LeftParen);
        if self.had_error {
            return ;
        }
        match res {
            Ok(items) => {
                let ghost before = self@;
                self.program.push(items);
                proof {
                    assert(program_view(self.program) =~= before.program.push(list_view(items)));
                }
                let ghost p2 = self@;
                self.parse_forms();
                proof {
                    lemma_parse_loop_mono(p2, spec_pmeasure(p2) + 1, m0);
                }
            },
            Err(m) => {
                self.error_at_current(m.as_str());
            },
        }
    }

    /// The trailing end-of-input check.
    fn consume_end_of_input(&mut self)
        requires
            old(self).wf(),
        ensures
            final(self).wf(),
            final(self)@ == spec_consume_eof(old(self)@),
    {
        if self.current.kind == TokenType::Eof {
            self.advance();
        } else if !self.had_error {
            self.error_at_current("Expect end of expression.");
        }
    }

    /// One full parse: consumes the scanner and returns the completed
    /// `Program`, or the single diagnostic that panic-mode error recovery
    /// retained. The result is exactly what `spec_parse` says of the
    /// parser's starting state.
    pub fn parse(&mut self) -> (r: Result<Program, String>)
        requires
            old(self).wf(),
        ensures
            final(self).wf(),
            ({
                let pf = spec_parse(old(self)@);
                match r {
                    Ok(prog) => !pf.had_error && program_view(prog) == pf.program,
                    Err(m) => pf.had_error && m@ == pf.last_error,
                }
            }),
    {
        self.advance();
        self.parse_forms();
        self.consume_end_of_input();
        if self.had_error {
            Err(self.last_error.clone())
        } else {
            let mut out: Program = Vec::new();
            core::mem::swap(&mut out, &mut self.program);
            Ok(out)
        }
    }
}


/// The starting state of a parser freshly built on a source: cursor at the
/// beginning, line one, the sentinel lookahead, nothing accumulated and no
/// error. `Parser::new` establishes exactly this.
pub open spec fn spec_fresh_parser(p0: ParserModel) -> bool {
    &&& p0.scanner.pos == 0
    &&& p0.scanner.line == 1
    &&& p0.current.kind == TokenType::Init
    &&& p0.program == Seq::<Seq<NodeV>>::empty()
    &&& !p0.had_error
    &&& !p0.panic_mode
}

/// A source consisting only of whitespace and comments: skipping them
/// consumes the whole input.
pub open spec fn spec_ws_only(chars: Seq<char>) -> bool {
    spec_skip_ws(chars, 0, 1, 0).0 == chars.len()
}

/// For every source of whitespace and comments alone, the parse succeeds
/// and yields the empty program.
pub proof fn lemma_parse_whitespace_only(p0: ParserModel)
    requires
        spec_fresh_parser(p0),
        spec_ws_only(p0.scanner.chars),
    ensures
        !spec_parse(p0).had_error,
        spec_parse(p0).program == Seq::<Seq<NodeV>>::empty(),
{
    let chars = p0.scanner.chars;
    let st = spec_scan(chars, 0, 1);
    assert(st.tok.kind == TokenType::Eof);
    let p1 = spec_advance(p0);
    assert(p1.current.kind == TokenType::Eof);
    assert(spec_parse_loop(p1, spec_pmeasure(p1) + 1) == Some(p1));
    let st2 = spec_scan(chars, p1.scanner.pos, p1.scanner.line);
    assert(spec_skip_ws(chars, p1.scanner.pos, p1.scanner.line, 0) == (
        p1.scanner.pos,
        p1.scanner.line,
    ));
    assert(st2.tok.kind == TokenType::Eof);
    assert(spec_parse(p0) == spec_advance(p1));
    assert(!spec_advance(p1).had_error);
    assert(spec_advance(p1).program =~= Seq::<Seq<NodeV>>::empty());
}

} // verus!
