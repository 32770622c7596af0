//! The structural round trip: a program built of nothing but nested
//! delimited lists — balanced `()`, `[]`, `{}` — renders to a source text
//! that parses back to exactly that program, so nesting depth and element
//! counts survive a render-and-parse cycle.

use crate::parser::{
    spec_advance, spec_el_loop, spec_expression, spec_expression_list, spec_fresh_parser,
    spec_parse, spec_parse_loop, spec_pmeasure, NodeV, ParserModel,
};
use crate::scanner::{spec_scan, spec_skip_ws, spec_token, ScanStep, ScannerModel};
use crate::token::TokenType;
use vstd::prelude::*;

verus! {

broadcast use vstd::seq::group_seq_axioms;

/// A node of pure structural shape: a delimited list of shape nodes,
/// carrying no literal.
pub open spec fn shape_node(n: NodeV) -> bool
    decreases n, 0int,
{
    match n {
        NodeV::Call(l) => shape_list_from(l, 0),
        NodeV::Array(l) => shape_list_from(l, 0),
        NodeV::MapLiteral(l) => shape_list_from(l, 0),
        _ => false,
    }
}

/// Every node of `l` from index `k` on is a shape node.
pub open spec fn shape_list_from(l: Seq<NodeV>, k: int) -> bool
    decreases l, l.len() - k,
{
    if k < 0 || k >= l.len() {
        true
    } else {
        shape_node(l[k]) && shape_list_from(l, k + 1)
    }
}

/// Every form of `p` from index `k` on holds shape nodes only.
pub open spec fn shape_program_from(p: Seq<Seq<NodeV>>, k: int) -> bool
    decreases p.len() - k,
{
    if k < 0 || k >= p.len() {
        true
    } else {
        shape_list_from(p[k], 0) && shape_program_from(p, k + 1)
    }
}

/// A program of pure structural shape.
pub open spec fn shape_program(p: Seq<Seq<NodeV>>) -> bool {
    shape_program_from(p, 0)
}

/// The opening delimiter of a shape node.
pub open spec fn open_char(n: NodeV) -> char {
    match n {
        NodeV::Call(_) => '(',
        NodeV::Array(_) => '[',
        _ => '{',
    }
}

/// The closing delimiter of a shape node.
pub open spec fn close_char(n: NodeV) -> char {
    match n {
        NodeV::Call(_) => ')',
        NodeV::Array(_) => ']',
        _ => '}',
    }
}

/// The children of a shape node.
pub open spec fn children_of(n: NodeV) -> Seq<NodeV> {
    match n {
        NodeV::Call(l) => l,
        NodeV::Array(l) => l,
        NodeV::MapLiteral(l) => l,
        _ => Seq::empty(),
    }
}

/// The source text of a shape node: its children between its delimiters.
pub open spec fn render_node(n: NodeV) -> Seq<char>
    decreases n, 0int,
{
    match n {
        NodeV::Call(l) => seq!['('] + render_list_from(l, 0) + seq![')'],
        NodeV::Array(l) => seq!['['] + render_list_from(l, 0) + seq![']'],
        NodeV::MapLiteral(l) => seq!['{'] + render_list_from(l, 0) + seq!['}'],
        _ => Seq::empty(),
    }
}

/// The source text of the nodes of `l` from index `k` on.
pub open spec fn render_list_from(l: Seq<NodeV>, k: int) -> Seq<char>
    decreases l, l.len() - k,
{
    if k < 0 || k >= l.len() {
        Seq::empty()
    } else {
        render_node(l[k]) + render_list_from(l, k + 1)
    }
}

/// The source text of the forms of `p` from index `k` on: each form is a
/// parenthesized list.
pub open spec fn render_program_from(p: Seq<Seq<NodeV>>, k: int) -> Seq<char>
    decreases p.len() - k,
{
    if k < 0 || k >= p.len() {
        Seq::empty()
    } else {
        seq!['('] + render_list_from(p[k], 0) + seq![')'] + render_program_from(p, k + 1)
    }
}

/// The source text of a whole program of shapes.
pub open spec fn spec_render_program(p: Seq<Seq<NodeV>>) -> Seq<char> {
    render_program_from(p, 0)
}

/// The six delimiter characters.
pub open spec fn is_bracket(c: char) -> bool {
    c == '(' || c == ')' || c == '[' || c == ']' || c == '{' || c == '}'
}

/// The token category of a delimiter character.
pub open spec fn bracket_kind(c: char) -> TokenType {
    if c == '(' {
        TokenType::LeftParen
    } else if c == ')' {
        TokenType::RightParen
    } else if c == '[' {
        TokenType::LeftSquare
    } else if c == ']' {
        TokenType::RightSquare
    } else if c == '{' {
        TokenType::LeftBrace
    } else {
        TokenType::RightBrace
    }
}

/// A rendered node is its opener, its children, its closer.
proof fn lemma_render_node_shape(n: NodeV)
    requires
        shape_node(n),
    ensures
        render_node(n).len() >= 2,
        render_node(n) == seq![open_char(n)] + render_list_from(children_of(n), 0) + seq![
            close_char(n),
        ],
        render_node(n)[0] == open_char(n),
        is_bracket(open_char(n)),
        bracket_kind(open_char(n)) == (match n {
            NodeV::Call(_) => TokenType::LeftParen,
            NodeV::Array(_) => TokenType::LeftSquare,
            _ => TokenType::LeftBrace,
        }),
{
}

/// Scanning at a delimiter yields exactly that one-character token.
proof fn lemma_scan_bracket(chars: Seq<char>, pos: nat, line: nat)
    requires
        pos < chars.len(),
        is_bracket(chars[pos as int]),
    ensures
        spec_scan(chars, pos, line) == (ScanStep {
            tok: spec_token(bracket_kind(chars[pos as int]), chars, pos, pos + 1, line),
            pos: pos + 1,
            line: line,
        }),
{
    assert(spec_skip_ws(chars, pos, line, 0) == (pos, line));
}

/// Scanning at the end of the input yields the end-of-input token.
proof fn lemma_scan_end(chars: Seq<char>, pos: nat, line: nat)
    requires
        pos == chars.len(),
    ensures
        spec_scan(chars, pos, line) == (ScanStep {
            tok: spec_token(TokenType::Eof, chars, pos, pos, line),
            pos: pos,
            line: line,
        }),
{
    assert(spec_skip_ws(chars, pos, line, 0) == (pos, line));
}

/// The parser state whose scanner stands at `j`, everything else as in `p`.
pub open spec fn state_scanning_at(p: ParserModel, j: int) -> ParserModel {
    ParserModel {
        scanner: ScannerModel { chars: p.scanner.chars, pos: j as nat, line: p.scanner.line },
        current: p.current,
        program: p.program,
        had_error: p.had_error,
        panic_mode: p.panic_mode,
        last_error: p.last_error,
    }
}

/// Advancing from a delimiter character takes it as the lookahead.
proof fn lemma_advance_bracket(p: ParserModel, j: int)
    requires
        p.scanner.pos == j,
        0 <= j < p.scanner.chars.len(),
        is_bracket(p.scanner.chars[j]),
    ensures
        spec_advance(p) == (ParserModel {
            scanner: ScannerModel {
                chars: p.scanner.chars,
                pos: (j + 1) as nat,
                line: p.scanner.line,
            },
            current: spec_token(
                bracket_kind(p.scanner.chars[j]),
                p.scanner.chars,
                j as nat,
                (j + 1) as nat,
                p.scanner.line,
            ),
            program: p.program,
            had_error: p.had_error,
            panic_mode: p.panic_mode,
            last_error: p.last_error,
        }),
{
    lemma_scan_bracket(p.scanner.chars, j as nat, p.scanner.line);
}

/// Advancing at the end of the input takes the end-of-input token as the
/// lookahead and moves nothing.
proof fn lemma_advance_end(p: ParserModel)
    requires
        p.scanner.pos == p.scanner.chars.len(),
    ensures
        spec_advance(p) == (ParserModel {
            scanner: p.scanner,
            current: spec_token(
                TokenType::Eof,
                p.scanner.chars,
                p.scanner.chars.len(),
                p.scanner.chars.len(),
                p.scanner.line,
            ),
            program: p.program,
            had_error: p.had_error,
            panic_mode: p.panic_mode,
            last_error: p.last_error,
        }),
{
    lemma_scan_end(p.scanner.chars, p.scanner.pos, p.scanner.line);
}

/// Advance results agree for states that differ only in their lookahead.
proof fn lemma_advance_same(p1: ParserModel, p2: ParserModel)
    requires
        p1.scanner == p2.scanner,
        p1.program == p2.program,
        p1.had_error == p2.had_error,
        p1.panic_mode == p2.panic_mode,
        p1.last_error == p2.last_error,
    ensures
        spec_advance(p1) == spec_advance(p2),
    decreases p1.scanner.chars.len() - p1.scanner.pos,
{
    let st = spec_scan(p1.scanner.chars, p1.scanner.pos, p1.scanner.line);
    if st.tok.kind == TokenType::Error {
        crate::scanner::lemma_spec_scan_bounds(
            p1.scanner.chars,
            p1.scanner.pos,
            p1.scanner.line,
        );
    }
}


/// Parsing one rendered shape node: with the node's opener as lookahead
/// and the scanner just past it, `spec_expression` returns exactly the node
/// and leaves the parser advanced past the node's closer.
proof fn lemma_parse_render_node(p: ParserModel, n: NodeV, i: int, fuel: nat)
    requires
        shape_node(n),
        0 <= i,
        i + render_node(n).len() <= p.scanner.chars.len(),
        p.scanner.chars.subrange(i, i + render_node(n).len()) == render_node(n),
        p.scanner.pos == i + 1,
        p.current == spec_token(
            bracket_kind(p.scanner.chars[i]),
            p.scanner.chars,
            i as nat,
            (i + 1) as nat,
            p.scanner.line,
        ),
        fuel >= render_node(n).len(),
    ensures
        spec_expression(p, fuel) == Some(
            (
                spec_advance(state_scanning_at(p, i + render_node(n).len())),
                Ok::<NodeV, Seq<char>>(n),
            ),
        ),
    decreases n, 0int,
{
    let chars = p.scanner.chars;
    let rn = render_node(n);
    lemma_render_node_shape(n);
    let l = children_of(n);
    let inner = render_list_from(l, 0);
    assert(chars[i] == chars.subrange(i, i + rn.len())[0]);
    assert(chars[i] == open_char(n));
    assert(chars[i + rn.len() - 1] == chars.subrange(i, i + rn.len())[rn.len() - 1]);
    assert(chars[i + rn.len() - 1] == close_char(n));
    let start = bracket_kind(open_char(n));
    let end = bracket_kind(close_char(n));
    assert(crate::parser::spec_end_delim(start) == end);
    assert(chars.subrange(i + 1, i + 1 + inner.len()) =~= inner) by {
        assert forall|t: int| 0 <= t < inner.len() implies chars.subrange(
            i + 1,
            i + 1 + inner.len(),
        )[t] == inner[t] by {
            assert(chars.subrange(i, i + rn.len())[t + 1] == rn[t + 1]);
            assert(rn[t + 1] == inner[t]);
        }
    }
    let p2 = spec_advance(p);
    if l.len() == 0 {
        assert(chars[i + 1] == close_char(n));
        lemma_advance_bracket(p, i + 1);
        assert(p2.current.kind == end);
        assert(spec_el_loop(p2, end, Seq::<NodeV>::empty(), (fuel - 1) as nat) == Some(
            (p2, Ok::<Seq<NodeV>, Seq<char>>(Seq::<NodeV>::empty())),
        ));
        lemma_advance_same(p2, state_scanning_at(p, i + rn.len()));
        assert(l =~= Seq::<NodeV>::empty());
    } else {
        assert(shape_node(l[0]));
        lemma_render_node_shape(l[0]);
        assert(inner[0] == render_node(l[0])[0]);
        assert(chars[i + 1] == open_char(l[0]));
        lemma_advance_bracket(p, i + 1);
        lemma_parse_render_items(
            p2,
            l,
            0,
            i + 1,
            end,
            Seq::<NodeV>::empty(),
            (fuel - 1) as nat,
        );
        assert(Seq::<NodeV>::empty() + l.skip(0) =~= l);
        let jc = i + 1 + inner.len();
        let p_e = ParserModel {
            scanner: ScannerModel {
                chars,
                pos: (jc + 1) as nat,
                line: p.scanner.line,
            },
            current: spec_token(end, chars, jc as nat, (jc + 1) as nat, p.scanner.line),
            program: p2.program,
            had_error: p2.had_error,
            panic_mode: p2.panic_mode,
            last_error: p2.last_error,
        };
        assert(spec_el_loop(p2, end, Seq::<NodeV>::empty(), (fuel - 1) as nat) == Some(
            (p_e, Ok::<Seq<NodeV>, Seq<char>>(l)),
        ));
        lemma_advance_same(p_e, state_scanning_at(p, i + rn.len()));
    }
}

/// Parsing the rendered items of a shape list from index `k` on: the item
/// loop accumulates exactly those nodes and stops with the closing
/// delimiter as the lookahead.
#[verifier::rlimit(80)]
proof fn lemma_parse_render_items(
    p: ParserModel,
    l: Seq<NodeV>,
    k: int,
    j: int,
    end: TokenType,
    acc: Seq<NodeV>,
    fuel: nat,
)
    requires
        shape_list_from(l, k),
        0 <= k <= l.len(),
        0 <= j,
        j + render_list_from(l, k).len() < p.scanner.chars.len(),
        p.scanner.chars.subrange(j, j + render_list_from(l, k).len()) == render_list_from(l, k),
        is_bracket(p.scanner.chars[j + render_list_from(l, k).len()]),
        bracket_kind(p.scanner.chars[j + render_list_from(l, k).len()]) == end,
        end == TokenType::RightParen || end == TokenType::RightSquare || end
            == TokenType::RightBrace,
        is_bracket(p.scanner.chars[j]),
        p.scanner.pos == j + 1,
        p.current == spec_token(
            bracket_kind(p.scanner.chars[j]),
            p.scanner.chars,
            j as nat,
            (j + 1) as nat,
            p.scanner.line,
        ),
        fuel >= render_list_from(l, k).len() + 1,
    ensures
        spec_el_loop(p, end, acc, fuel) == Some(
            (
                ParserModel {
                    scanner: ScannerModel {
                        chars: p.scanner.chars,
                        pos: (j + render_list_from(l, k).len() + 1) as nat,
                        line: p.scanner.line,
                    },
                    current: spec_token(
                        end,
                        p.scanner.chars,
                        (j + render_list_from(l, k).len()) as nat,
                        (j + render_list_from(l, k).len() + 1) as nat,
                        p.scanner.line,
                    ),
                    program: p.program,
                    had_error: p.had_error,
                    panic_mode: p.panic_mode,
                    last_error: p.last_error,
                },
                Ok::<Seq<NodeV>, Seq<char>>(acc + l.skip(k)),
            ),
        ),
    decreases l, l.len() - k,
{
    let chars = p.scanner.chars;
    let rl = render_list_from(l, k);
    let jc = j + rl.len();
    if k >= l.len() {
        assert(rl.len() == 0);
        assert(p.current.kind == end);
        assert(acc + l.skip(k) =~= acc);
        assert(spec_el_loop(p, end, acc, fuel) == Some(
            (p, Ok::<Seq<NodeV>, Seq<char>>(acc)),
        ));
        assert(p =~= (ParserModel {
            scanner: ScannerModel {
                chars,
                pos: (jc + 1) as nat,
                line: p.scanner.line,
            },
            current: spec_token(end, chars, jc as nat, (jc + 1) as nat, p.scanner.line),
            program: p.program,
            had_error: p.had_error,
            panic_mode: p.panic_mode,
            last_error: p.last_error,
        }));
    } else {
        assert(shape_node(l[k]));
        lemma_render_node_shape(l[k]);
        let rn0 = render_node(l[k]);
        let rest = render_list_from(l, k + 1);
        assert(rl == rn0 + rest);
        assert(chars.subrange(j, j + rn0.len()) =~= rn0) by {
            assert forall|t: int| 0 <= t < rn0.len() implies chars.subrange(
                j,
                j + rn0.len(),
            )[t] == rn0[t] by {
                assert(chars.subrange(j, j + rl.len())[t] == rl[t]);
                assert(rl[t] == rn0[t]);
            }
        }
        assert(chars[j] == rl[0] && rl[0] == rn0[0]) by {
            assert(chars.subrange(j, j + rl.len())[0] == rl[0]);
        }
        assert(p.current.kind == bracket_kind(open_char(l[k])));
        assert(p.current.kind != end && p.current.kind != TokenType::Eof);
        lemma_parse_render_node(p, l[k], j, fuel);
        let j2 = j + rn0.len();
        assert(chars.subrange(j2, jc) =~= rest) by {
            assert forall|t: int| 0 <= t < rest.len() implies chars.subrange(j2, jc)[t]
                == rest[t] by {
                assert(chars.subrange(j, j + rl.len())[rn0.len() + t] == rl[rn0.len() + t]);
                assert(rl[rn0.len() + t] == rest[t]);
            }
        }
        if k + 1 >= l.len() {
            assert(j2 == jc);
            assert(is_bracket(chars[j2]));
        } else {
            assert(shape_list_from(l, k + 1));
            assert(shape_node(l[k + 1]));
            lemma_render_node_shape(l[k + 1]);
            assert(rest[0] == render_node(l[k + 1])[0]);
            assert(chars[j2] == rest[0]) by {
                assert(chars.subrange(j2, jc)[0] == rest[0]);
            }
            assert(is_bracket(chars[j2]));
        }
        let pm = state_scanning_at(p, j2);
        lemma_advance_bracket(pm, j2);
        let p2 = spec_advance(pm);
        lemma_parse_render_items(p2, l, k + 1, j2, end, acc.push(l[k]), (fuel - 1) as nat);
        assert(acc.push(l[k]) + l.skip(k + 1) =~= acc + l.skip(k));
    }
}

/// Parsing the rendered forms from index `k` on: the top-level loop
/// appends exactly those forms and stops at the end of the input.
#[verifier::rlimit(80)]
proof fn lemma_parse_render_forms(p: ParserModel, forms: Seq<Seq<NodeV>>, k: int, i: int, fuel: nat)
    requires
        shape_program_from(forms, k),
        0 <= k <= forms.len(),
        0 <= i <= p.scanner.chars.len(),
        p.scanner.chars.subrange(i, p.scanner.chars.len() as int) == render_program_from(
            forms,
            k,
        ),
        !p.had_error,
        k == forms.len() ==> i == p.scanner.chars.len() && p.scanner.pos == i && p.current
            == spec_token(
            TokenType::Eof,
            p.scanner.chars,
            i as nat,
            i as nat,
            p.scanner.line,
        ),
        k < forms.len() ==> p.scanner.pos == i + 1 && i < p.scanner.chars.len() && p.current
            == spec_token(
            bracket_kind(p.scanner.chars[i]),
            p.scanner.chars,
            i as nat,
            (i + 1) as nat,
            p.scanner.line,
        ),
        fuel >= p.scanner.chars.len() - i + 1,
    ensures
        spec_parse_loop(p, fuel) == Some(
            ParserModel {
                scanner: ScannerModel {
                    chars: p.scanner.chars,
                    pos: p.scanner.chars.len(),
                    line: p.scanner.line,
                },
                current: spec_token(
                    TokenType::Eof,
                    p.scanner.chars,
                    p.scanner.chars.len(),
                    p.scanner.chars.len(),
                    p.scanner.line,
                ),
                program: p.program + forms.skip(k),
                had_error: false,
                panic_mode: p.panic_mode,
                last_error: p.last_error,
            },
        ),
    decreases forms.len() - k,
{
    let chars = p.scanner.chars;
    let len = chars.len() as int;
    if k >= forms.len() {
        assert(p.current.kind == TokenType::Eof);
        assert(spec_parse_loop(p, fuel) == Some(p));
        assert(forms.skip(k) =~= Seq::<Seq<NodeV>>::empty());
        assert(p.program + forms.skip(k) =~= p.program);
        assert(p =~= (ParserModel {
            scanner: ScannerModel { chars, pos: chars.len(), line: p.scanner.line },
            current: spec_token(TokenType::Eof, chars, chars.len(), chars.len(), p.scanner.line),
            program: p.program + forms.skip(k),
            had_error: false,
            panic_mode: p.panic_mode,
            last_error: p.last_error,
        }));
    } else {
        let rp = render_program_from(forms, k);
        let form = forms[k];
        let rl = render_list_from(form, 0);
        let rest = render_program_from(forms, k + 1);
        assert(rp == seq!['('] + rl + seq![')'] + rest);
        assert(chars[i] == '(') by {
            assert(chars.subrange(i, len)[0] == rp[0]);
        }
        assert(p.current.kind == TokenType::LeftParen);
        let jc = i + 1 + rl.len();
        assert(chars[jc] == ')') by {
            assert(chars.subrange(i, len)[jc - i] == rp[jc - i]);
            assert(rp[jc - i] == ')');
        }
        assert(chars.subrange(i + 1, jc) =~= rl) by {
            assert forall|t: int| 0 <= t < rl.len() implies chars.subrange(i + 1, jc)[t]
                == rl[t] by {
                assert(chars.subrange(i, len)[t + 1] == rp[t + 1]);
                assert(rp[t + 1] == rl[t]);
            }
        }
        assert(shape_list_from(form, 0));
        if rl.len() == 0 {
            assert(chars[i + 1] == ')');
        } else {
            assert(shape_node(form[0]));
            lemma_render_node_shape(form[0]);
            assert(rl[0] == render_node(form[0])[0]);
            assert(chars[i + 1] == rl[0]) by {
                assert(chars.subrange(i + 1, jc)[0] == rl[0]);
            }
        }
        lemma_advance_bracket(p, i + 1);
        let p2 = spec_advance(p);
        lemma_parse_render_items(
            p2,
            form,
            0,
            i + 1,
            TokenType::RightParen,
            Seq::<NodeV>::empty(),
            (fuel - 1) as nat,
        );
        assert(Seq::<NodeV>::empty() + form.skip(0) =~= form);
        let p_e = ParserModel {
            scanner: ScannerModel {
                chars,
                pos: (jc + 1) as nat,
                line: p.scanner.line,
            },
            current: spec_token(
                TokenType::RightParen,
                chars,
                jc as nat,
                (jc + 1) as nat,
                p.scanner.line,
            ),
            program: p.program,
            had_error: p.had_error,
            panic_mode: p.panic_mode,
            last_error: p.last_error,
        };
        assert(spec_expression_list(p, TokenType::LeftParen, fuel) == Some(
            (spec_advance(p_e), Ok::<Seq<NodeV>, Seq<char>>(form)),
        ));
        let ip = jc + 1;
        assert(chars.subrange(ip, len) =~= rest) by {
            assert forall|t: int| 0 <= t < rest.len() implies chars.subrange(ip, len)[t]
                == rest[t] by {
                assert(chars.subrange(i, len)[ip - i + t] == rp[ip - i + t]);
                assert(rp[ip - i + t] == rest[t]);
            }
        }
        if k + 1 >= forms.len() {
            assert(rest.len() == 0);
            assert(ip == len);
            lemma_advance_end(p_e);
        } else {
            assert(chars[ip] == '(') by {
                assert(chars.subrange(ip, len)[0] == rest[0]);
                assert(rest[0] == '(');
            }
            lemma_advance_bracket(p_e, ip);
        }
        let p3 = spec_advance(p_e);
        assert(!p3.had_error);
        let p4 = ParserModel {
            scanner: p3.scanner,
            current: p3.current,
            program: p3.program.push(form),
            had_error: p3.had_error,
            panic_mode: p3.panic_mode,
            last_error: p3.last_error,
        };
        lemma_parse_render_forms(p4, forms, k + 1, ip, (fuel - 1) as nat);
        assert(p.program.push(form) + forms.skip(k + 1) =~= p.program + forms.skip(k));
    }
}

/// For every program of pure structural shape — forms of balanced `()`,
/// `[]`, `{}` holding no literals — parsing the rendered source gives back
/// exactly that program: nesting depth and element counts round-trip.
pub proof fn lemma_render_parse_round_trip(p0: ParserModel, shape: Seq<Seq<NodeV>>)
    requires
        spec_fresh_parser(p0),
        shape_program(shape),
        p0.scanner.chars == spec_render_program(shape),
    ensures
        !spec_parse(p0).had_error,
        spec_parse(p0).program == shape,
{
    let chars = p0.scanner.chars;
    let len = chars.len() as int;
    assert(chars.subrange(0, len) =~= chars);
    if shape.len() == 0 {
        assert(len == 0);
        lemma_advance_end(p0);
        let p1 = spec_advance(p0);
        lemma_parse_render_forms(p1, shape, 0, 0, spec_pmeasure(p1) + 1);
        let p_end = spec_parse_loop(p1, spec_pmeasure(p1) + 1).unwrap();
        lemma_advance_end(p_end);
        assert(spec_parse(p0).program =~= shape);
    } else {
        assert(chars[0] == '(') by {
            assert(render_program_from(shape, 0)[0] == '(');
        }
        lemma_advance_bracket(p0, 0);
        let p1 = spec_advance(p0);
        assert(spec_pmeasure(p1) + 1 >= len + 1);
        lemma_parse_render_forms(p1, shape, 0, 0, spec_pmeasure(p1) + 1);
        let p_end = spec_parse_loop(p1, spec_pmeasure(p1) + 1).unwrap();
        lemma_advance_end(p_end);
        assert(spec_parse(p0).program =~= shape);
    }
}

} // verus!
