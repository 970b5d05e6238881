//! Writing IR expressions back as IR text, as embedded IR does with the
//! lowered `[...]` fragments it splices into its source.
use vstd::prelude::*;

use crate::ir::ast::{
    Expr, ExprKind, SpecExpr, SpecExprKind, expr_view, exprs_view, lemma_exprs_view,
    strings_view,
};
use crate::ir::lexer::{
    SpecLexError, SpecToken, SpecTokenKind, at_triple_quote, skip_ws, span_of, spec_escape,
    spec_next_token, spec_string_body, spec_token_at, spec_tokenize, tokenize_text,
};
use crate::text::{chars_of, is_ctrl, push_char, push_str};

verus! {

/// The escaped form of one character inside an IR string literal.
pub open spec fn escape_ir_char(c: char) -> Seq<char> {
    if c == '"' {
        seq!['\\', '"']
    } else if c == '\\' {
        seq!['\\', '\\']
    } else if c == '\n' {
        seq!['\\', 'n']
    } else if c == '\r' {
        seq!['\\', 'r']
    } else if c == '\t' {
        seq!['\\', 't']
    } else {
        seq![c]
    }
}

/// The escaped form of a text inside an IR string literal.
pub open spec fn escape_ir(t: Seq<char>) -> Seq<char>
    decreases t.len(),
{
    if t.len() == 0 {
        Seq::empty()
    } else {
        escape_ir(t.drop_last()) + escape_ir_char(t.last())
    }
}

/// An IR string literal holding `t`.
pub open spec fn ser_string(t: Seq<char>) -> Seq<char> {
    seq!['"'] + escape_ir(t) + seq!['"']
}

/// The names, joined by spaces.
pub open spec fn join_names(names: Seq<Seq<char>>) -> Seq<char>
    decreases names.len(),
{
    if names.len() == 0 {
        Seq::empty()
    } else if names.len() == 1 {
        names[0]
    } else {
        join_names(names.drop_last()) + seq![' '] + names.last()
    }
}

/// The IR text of an expression.
pub open spec fn ser_expr(e: SpecExpr) -> Seq<char>
    decreases e, 1int,
{
    match e.kind {
        SpecExprKind::String(t) => ser_string(t),
        SpecExprKind::Bool(b) => if b {
            seq!['t', 'r', 'u', 'e']
        } else {
            seq!['f', 'a', 'l', 's', 'e']
        },
        SpecExprKind::Symbol(name) => name,
        SpecExprKind::Lambda { params, body } => seq!['(', 'l', 'a', 'm', 'b', 'd', 'a', ' ', '(']
            + join_names(params) + seq![')', ' '] + ser_exprs(body) + seq![')'],
        SpecExprKind::Call { callee, args } => if args.len() == 0 {
            seq!['('] + ser_expr(*callee) + seq![')']
        } else {
            seq!['('] + ser_expr(*callee) + seq![' '] + ser_exprs(args) + seq![')']
        },
    }
}

/// The IR texts of the expressions, joined by spaces.
pub open spec fn ser_exprs(es: Seq<SpecExpr>) -> Seq<char>
    decreases es, 0int,
{
    if es.len() == 0 {
        Seq::empty()
    } else if es.len() == 1 {
        ser_expr(es[0])
    } else {
        ser_exprs(es.drop_last()) + seq![' '] + ser_expr(es.last())
    }
}

/// A `list` call of the expressions.
pub open spec fn ser_list(es: Seq<SpecExpr>) -> Seq<char> {
    seq!['(', 'l', 'i', 's', 't', ' '] + ser_exprs(es) + seq![')']
}

/// Appends an IR string literal holding `text`.
pub fn serialize_string(text: &str, out: &mut String)
    ensures
        final(out)@ == old(out)@ + ser_string(text@),
{
    let cs = chars_of(text);
    let ghost o = out@;
    push_char(out, '"');
    let mut i: usize = 0;
    while i < cs.len()
        invariant
            cs@ == text@,
            0 <= i <= cs@.len(),
            out@ == o + seq!['"'] + escape_ir(cs@.take(i as int)),
        decreases cs@.len() - i,
    {
        let c = cs[i];
        proof {
            assert(cs@.take(i + 1).drop_last() =~= cs@.take(i as int));
        }
        if c == '"' {
            push_char(out, '\\');
            push_char(out, '"');
        } else if c == '\\' {
            push_char(out, '\\');
            push_char(out, '\\');
        } else if c == '\n' {
            push_char(out, '\\');
            push_char(out, 'n');
        } else if c == '\r' {
            push_char(out, '\\');
            push_char(out, 'r');
        } else if c == '\t' {
            push_char(out, '\\');
            push_char(out, 't');
        } else {
            push_char(out, c);
        }
        proof {
            assert(out@ =~= o + seq!['"'] + escape_ir(cs@.take(i + 1)));
        }
        i += 1;
    }
    assert(cs@.take(cs@.len() as int) =~= cs@);
    push_char(out, '"');
    assert(out@ =~= o + ser_string(text@));
}

/// Appends the IR text of an expression.
pub fn serialize_expr(e: &Expr, out: &mut String)
    ensures
        final(out)@ == old(out)@ + ser_expr(expr_view(*e)),
    decreases e, 1int,
{
    let ghost o = out@;
    match &e.kind {
        ExprKind::String(t) => serialize_string(t.as_str(), out),
        ExprKind::Bool(b) => {
            if *b {
                push_str(out, "true");
                proof {
                    reveal_strlit("true");
                }
            } else {
                push_str(out, "false");
                proof {
                    reveal_strlit("false");
                }
            }
        },
        ExprKind::Symbol(name) => push_str(out, name.as_str()),
        ExprKind::Lambda { params, body } => {
            push_str(out, "(lambda (");
            proof {
                reveal_strlit("(lambda (");
            }
            let ghost o2 = out@;
            let mut i: usize = 0;
            assert(strings_view(params@).take(0) =~= Seq::<Seq<char>>::empty());
            while i < params.len()
                invariant
                    0 <= i <= params@.len(),
                    out@ == o2 + join_names(strings_view(params@).take(i as int)),
                decreases params@.len() - i,
            {
                proof {
                    assert(strings_view(params@).take(i + 1).drop_last() =~= strings_view(
                        params@,
                    ).take(i as int));
                }
                if i > 0 {
                    push_char(out, ' ');
                }
                push_str(out, params[i].as_str());
                proof {
                    assert(out@ =~= o2 + join_names(strings_view(params@).take(i + 1)));
                }
                i += 1;
            }
            assert(strings_view(params@).take(params@.len() as int) =~= strings_view(params@));
            push_str(out, ") ");
            proof {
                reveal_strlit(") ");
            }
            serialize_exprs(body, out);
            push_char(out, ')');
            proof {
                assert(out@ =~= o + ser_expr(expr_view(*e)));
            }
        },
        ExprKind::Call { callee, args } => {
            push_char(out, '(');
            serialize_expr(callee, out);
            if args.len() > 0 {
                push_char(out, ' ');
                serialize_exprs(args, out);
            }
            push_char(out, ')');
            proof {
                lemma_exprs_view(args@);
                assert(out@ =~= o + ser_expr(expr_view(*e)));
            }
        },
    }
}

/// Appends the IR texts of the expressions, joined by spaces.
pub fn serialize_exprs(es: &Vec<Expr>, out: &mut String)
    ensures
        final(out)@ == old(out)@ + ser_exprs(exprs_view(es@)),
    decreases es, 0int,
{
    let ghost o = out@;
    let ghost ev = exprs_view(es@);
    proof {
        lemma_exprs_view(es@);
    }
    let mut i: usize = 0;
    assert(ev.take(0) =~= Seq::<SpecExpr>::empty());
    while i < es.len()
        invariant
            ev == exprs_view(es@),
            ev.len() == es@.len(),
            forall|j: int| 0 <= j < es@.len() ==> #[trigger] ev[j] == expr_view(es@[j]),
            0 <= i <= es@.len(),
            out@ == o + ser_exprs(ev.take(i as int)),
        decreases es@.len() - i,
    {
        proof {
            assert(ev.take(i + 1).drop_last() =~= ev.take(i as int));
        }
        if i > 0 {
            push_char(out, ' ');
        }
        serialize_expr(&es[i], out);
        proof {
            assert(out@ =~= o + ser_exprs(ev.take(i + 1)));
        }
        i += 1;
    }
    assert(ev.take(es@.len() as int) =~= ev);
}

/// Appends a `list` call of the expressions.
pub fn serialize_inline_sequence(es: &Vec<Expr>, out: &mut String)
    ensures
        final(out)@ == old(out)@ + ser_list(exprs_view(es@)),
{
    let ghost o = out@;
    push_str(out, "(list ");
    proof {
        reveal_strlit("(list ");
    }
    serialize_exprs(es, out);
    push_char(out, ')');
    assert(out@ =~= o + ser_list(exprs_view(es@)));
}


/// Whether every control character of `t` is a newline, a carriage
/// return or a tab, the control characters that string literals escape.
pub open spec fn escapable(t: Seq<char>) -> bool {
    forall|i: int|
        0 <= i < t.len() && is_ctrl(#[trigger] t[i]) ==> t[i] == '\n' || t[i] == '\r' || t[i]
            == '\t'
}

proof fn lemma_escape_ir_concat(a: Seq<char>, b: Seq<char>)
    ensures
        escape_ir(a + b) == escape_ir(a) + escape_ir(b),
    decreases b.len(),
{
    if b.len() == 0 {
        assert(a + b =~= a);
        assert(escape_ir(a) + escape_ir(b) =~= escape_ir(a));
    } else {
        lemma_escape_ir_concat(a, b.drop_last());
        assert((a + b).drop_last() =~= a + b.drop_last());
        assert((a + b).last() == b.last());
        assert(escape_ir(a + b) =~= escape_ir(a) + escape_ir(b.drop_last()) + escape_ir_char(
            b.last(),
        ));
    }
}

proof fn lemma_escape_ir_split(t: Seq<char>, k: int)
    requires
        0 <= k < t.len(),
    ensures
        escape_ir(t) == escape_ir(t.take(k)) + escape_ir_char(t[k]) + escape_ir(t.skip(k + 1)),
        escape_ir(t.take(k + 1)) == escape_ir(t.take(k)) + escape_ir_char(t[k]),
{
    let c = t[k];
    let one = seq![c];
    assert(one.drop_last() =~= Seq::<char>::empty());
    assert(one.last() == c);
    assert(escape_ir(Seq::<char>::empty()) == Seq::<char>::empty());
    assert(escape_ir(one) == escape_ir(one.drop_last()) + escape_ir_char(one.last()));
    assert(escape_ir(one) =~= escape_ir_char(c));
    assert(t.take(k) + t.skip(k) =~= t);
    lemma_escape_ir_concat(t.take(k), t.skip(k));
    assert(seq![c] + t.skip(k + 1) =~= t.skip(k));
    lemma_escape_ir_concat(seq![c], t.skip(k + 1));
    assert(t.take(k + 1) =~= t.take(k) + seq![c]);
    lemma_escape_ir_concat(t.take(k), seq![c]);
}

/// One character of the literal's text, read at `pk` where its escaped
/// form starts.
proof fn lemma_string_body_char(s: Seq<char>, pk: int, c: char, acc: Seq<char>)
    requires
        escapable(seq![c]),
        0 < pk,
        pk + escape_ir_char(c).len() < s.len(),
        forall|j: int|
            0 <= j < escape_ir_char(c).len() ==> s[pk + j] == #[trigger] escape_ir_char(c)[j],
    ensures
        spec_string_body(s, 0, pk, acc) == spec_string_body(
            s,
            0,
            pk + escape_ir_char(c).len(),
            acc.push(c),
        ),
        s[pk] != '"',
{
    let e = escape_ir_char(c);
    assert(s[pk] == e[0]);
    if c == '"' || c == '\\' || c == '\n' || c == '\r' || c == '\t' {
        assert(s[pk + 1] == e[1]);
        assert(spec_escape(s, pk) == Ok::<(char, int), SpecLexError>((c, pk + 2)));
    } else {
        assert(seq![c][0] == c);
        assert(!is_ctrl(c));
    }
}

proof fn lemma_string_body(t: Seq<char>, k: int)
    requires
        escapable(t),
        0 <= k <= t.len(),
    ensures
        ({
            let s = ser_string(t);
            let pk: int = 1 + escape_ir(t.take(k)).len() as int;
            &&& spec_string_body(s, 0, pk, t.take(k)) == Ok::<(SpecToken, int), SpecLexError>(
                (
                    SpecToken { kind: SpecTokenKind::String(t), span: span_of(s, 0, s.len() as int) },
                    s.len() as int,
                ),
            )
            &&& pk < s.len()
            &&& s[pk] != '"' || k == t.len()
        }),
    decreases t.len() - k,
{
    let s = ser_string(t);
    let a = escape_ir(t.take(k));
    let pk: int = 1 + a.len() as int;
    if k == t.len() {
        assert(t.take(k) =~= t);
        assert(s[pk] == '"');
    } else {
        let c = t[k];
        let e = escape_ir_char(c);
        let b = escape_ir(t.skip(k + 1));
        lemma_escape_ir_split(t, k);
        assert(s =~= seq!['"'] + a + e + b + seq!['"']);
        assert forall|j: int| 0 <= j < e.len() implies s[pk + j] == #[trigger] e[j] by {
            assert(s[pk + j] == (seq!['"'] + a + e + b + seq!['"'])[pk + j]);
        }
        assert(seq![c][0] == c);
        lemma_string_body_char(s, pk, c, t.take(k));
        assert(t.take(k).push(c) =~= t.take(k + 1));
        lemma_string_body(t, k + 1);
    }
}

/// A text without stray control characters, written as an IR string
/// literal, lexes back to one string token that holds the text and spans
/// the whole literal.
pub proof fn law_string_literal_round_trip(t: Seq<char>)
    requires
        escapable(t),
    ensures
        tokenize_text(ser_string(t)) == Ok::<Seq<SpecToken>, SpecLexError>(
            seq![
                SpecToken {
                    kind: SpecTokenKind::String(t),
                    span: span_of(ser_string(t), 0, ser_string(t).len() as int),
                },
            ],
        ),
{
    let s = ser_string(t);
    let n = s.len() as int;
    lemma_string_body(t, 0);
    assert(t.take(0) =~= Seq::<char>::empty());
    assert(escape_ir(Seq::<char>::empty()).len() == 0);
    assert(s[0] == '"');
    let tok = SpecToken { kind: SpecTokenKind::String(t), span: span_of(s, 0, n) };
    assert(skip_ws(s, 0) == 0);
    assert(!at_triple_quote(s, 0));
    assert(spec_token_at(s, 0) == Ok::<(SpecToken, int), SpecLexError>((tok, n)));
    assert(skip_ws(s, n) == n);
    assert(spec_next_token(s, n) == Ok::<Option<(SpecToken, int)>, SpecLexError>(None));
    assert(spec_tokenize(s, n) == Ok::<Seq<SpecToken>, SpecLexError>(Seq::empty()));
    assert(seq![tok] + Seq::<SpecToken>::empty() =~= seq![tok]);
}

} // verus!
