use vstd::prelude::*;
use crate::expr::{int_text, text, value, Expr};
use crate::lexer::{decimal_text, is_digit, lemma_decimal_text, lex_from, lex_spec, run_len, Tok};
use crate::parser::{
    expr_rest_spec, expr_spec, is_multiplicative, join, parse_spec, primary_spec, term_rest_spec,
    term_spec, ParseError,
};

verus! {

// Trees in the shape the parser builds from text without parentheses: a
// left-nested chain of `+`/`-` over left-nested chains of `*`/`/` over
// non-negative numerals, each possibly negated.

pub open spec fn is_atom(e: Expr) -> bool {
    match e {
        Expr::Numeral(n) => n >= 0,
        Expr::Negate(a) => match *a {
            Expr::Numeral(n) => n >= 0,
            _ => false,
        },
        _ => false,
    }
}

pub open spec fn is_product(e: Expr) -> bool
    decreases e,
{
    match e {
        Expr::Times(a, b) => is_product(*a) && is_atom(*b),
        Expr::Divide(a, b) => is_product(*a) && is_atom(*b),
        _ => is_atom(e),
    }
}

pub open spec fn is_sum(e: Expr) -> bool
    decreases e,
{
    match e {
        Expr::Plus(a, b) => is_sum(*a) && is_product(*b),
        Expr::Minus(a, b) => is_sum(*a) && is_product(*b),
        _ => is_product(e),
    }
}

proof fn lemma_shapes(x: Expr)
    ensures
        is_atom(x) ==> is_product(x),
        is_product(x) ==> is_sum(x),
{
    match x {
        Expr::Plus(_, _) | Expr::Minus(_, _) => {},
        Expr::Times(_, _) | Expr::Divide(_, _) => {},
        _ => {},
    }
}

/// The tokens that the text of a tree lexes to.
pub open spec fn tokens_of(e: Expr) -> Seq<Tok>
    decreases e,
{
    match e {
        Expr::Numeral(n) => seq![Tok::Numeral(n)],
        Expr::Plus(a, b) => tokens_of(*a) + seq![Tok::Plus] + tokens_of(*b),
        Expr::Minus(a, b) => tokens_of(*a) + seq![Tok::Minus] + tokens_of(*b),
        Expr::Times(a, b) => tokens_of(*a) + seq![Tok::Times] + tokens_of(*b),
        Expr::Divide(a, b) => tokens_of(*a) + seq![Tok::Divide] + tokens_of(*b),
        Expr::Negate(a) => seq![Tok::Minus] + tokens_of(*a),
    }
}

/// `s` holds `w` from position `i` on.
pub open spec fn holds_at<T>(s: Seq<T>, i: int, w: Seq<T>) -> bool {
    0 <= i && i + w.len() <= s.len() && forall|k: int| 0 <= k < w.len() ==> s[i + k] == w[k]
}

proof fn lemma_run_len_exact(s: Seq<char>, i: int, n: int)
    requires
        0 <= i,
        0 <= n,
        i + n <= s.len(),
        forall|k: int| i <= k < i + n ==> is_digit(#[trigger] s[k]),
        i + n == s.len() || !is_digit(s[i + n]),
    ensures
        run_len(s, i) == n,
    decreases n,
{
    if n > 0 {
        lemma_run_len_exact(s, i + 1, n - 1);
    }
}

proof fn lemma_lex_numeral(s: Seq<char>, i: int, n: nat)
    requires
        n <= i64::MAX,
        holds_at(s, i, decimal_text(n)),
        i + decimal_text(n).len() == s.len() || !is_digit(s[i + decimal_text(n).len()]),
    ensures
        lex_from(s, i) == seq![Tok::Numeral(n as i64)] + lex_from(s, i + decimal_text(n).len()),
{
    let d = decimal_text(n);
    lemma_decimal_text(n);
    assert forall|k: int| i <= k < i + d.len() implies is_digit(#[trigger] s[k]) by {
        assert(s[i + (k - i)] == d[k - i]);
    }
    lemma_run_len_exact(s, i, d.len() as int);
    lemma_run_len_exact(s, i + 1, d.len() - 1);
    assert(s.subrange(i, i + d.len()) =~= d);
}

proof fn lemma_lex_negated(s: Seq<char>, i: int, e: Expr)
    requires
        is_atom(e),
        e is Negate,
        holds_at(s, i, text(e)),
        i + text(e).len() == s.len() || !is_digit(s[i + text(e).len()]),
    ensures
        lex_from(s, i) == tokens_of(e) + lex_from(s, i + text(e).len()),
{
    if let Expr::Negate(a) = e {
        if let Expr::Numeral(n) = *a {
            let d = decimal_text(n as nat);
            assert(text(*a) == int_text(n as int));
            assert(text(e) == seq!['-'] + d);
            assert(s[i + 0] == text(e)[0]);
            assert(holds_at(s, i + 1, d)) by {
                assert forall|k: int| 0 <= k < d.len() implies s[i + 1 + k] == d[k] by {
                    assert(s[i + (1 + k)] == text(e)[1 + k]);
                }
            }
            lemma_lex_numeral(s, i + 1, n as nat);
            assert(!is_digit('-'));
            assert(lex_from(s, i) == seq![Tok::Minus] + lex_from(s, i + 1));
            assert(tokens_of(*a) == seq![Tok::Numeral(n)]);
            assert(tokens_of(e) =~= seq![Tok::Minus, Tok::Numeral(n)]);
            assert(lex_from(s, i) =~= tokens_of(e) + lex_from(s, i + text(e).len()));
        }
    }
}

/// The text of a tree of the parser's shape lexes to its tokens.
proof fn lemma_lex_text(s: Seq<char>, i: int, e: Expr)
    requires
        is_sum(e),
        holds_at(s, i, text(e)),
        i + text(e).len() == s.len() || !is_digit(s[i + text(e).len()]),
    ensures
        lex_from(s, i) == tokens_of(e) + lex_from(s, i + text(e).len()),
    decreases e,
{
    match e {
        Expr::Numeral(n) => {
            lemma_lex_numeral(s, i, n as nat);
        },
        Expr::Negate(_) => {
            assert(is_product(e));
            lemma_lex_negated(s, i, e);
        },
        _ => {
            let (a, b, op, c) = match e {
                Expr::Plus(a, b) => (*a, *b, Tok::Plus, '+'),
                Expr::Minus(a, b) => (*a, *b, Tok::Minus, '-'),
                Expr::Times(a, b) => (*a, *b, Tok::Times, '*'),
                Expr::Divide(a, b) => (*a, *b, Tok::Divide, '/'),
                _ => (e, e, Tok::Eof, ' '),
            };
            let ta = text(a);
            let tb = text(b);
            assert(text(e) == ta + seq![' ', c, ' '] + tb);
            assert(tokens_of(e) == tokens_of(a) + seq![op] + tokens_of(b));
            lemma_shapes(a);
            lemma_shapes(b);
            assert(is_sum(a) && is_sum(b));
            let m = i + ta.len();
            assert(holds_at(s, i, ta)) by {
                assert forall|k: int| 0 <= k < ta.len() implies s[i + k] == ta[k] by {
                    assert(s[i + k] == text(e)[k]);
                }
            }
            assert(s[m] == ' ' && s[m + 1] == c && s[m + 2] == ' ') by {
                assert(s[i + ta.len()] == text(e)[ta.len() as int]);
                assert(s[i + (ta.len() + 1)] == text(e)[ta.len() + 1int]);
                assert(s[i + (ta.len() + 2)] == text(e)[ta.len() + 2int]);
            }
            assert(holds_at(s, m + 3, tb)) by {
                assert forall|k: int| 0 <= k < tb.len() implies s[m + 3 + k] == tb[k] by {
                    assert(s[i + (ta.len() + 3 + k)] == text(e)[ta.len() + 3 + k]);
                }
            }
            lemma_lex_text(s, i, a);
            lemma_lex_text(s, m + 3, b);
            assert(lex_from(s, m) == lex_from(s, m + 1));
            assert(lex_from(s, m + 1) == seq![op] + lex_from(s, m + 2));
            assert(lex_from(s, m + 2) == lex_from(s, m + 3));
            assert(lex_from(s, i) =~= tokens_of(e) + lex_from(s, i + text(e).len()));
        },
    }
}

proof fn lemma_parse_atom(t: Seq<Tok>, i: int, e: Expr)
    requires
        is_atom(e),
        holds_at(t, i, tokens_of(e)),
    ensures
        primary_spec(t, i) == Ok::<(Expr, int), (ParseError, int)>((e, i + tokens_of(e).len())),
{
    match e {
        Expr::Numeral(n) => {
            assert(t[i + 0] == tokens_of(e)[0]);
        },
        Expr::Negate(a) => {
            if let Expr::Numeral(n) = *a {
                assert(tokens_of(*a) == seq![Tok::Numeral(n)]);
                assert(tokens_of(e) =~= seq![Tok::Minus, Tok::Numeral(n)]);
                assert(t[i + 0] == tokens_of(e)[0]);
                assert(t[i + 1] == tokens_of(e)[1]);
            }
        },
        _ => {},
    }
}

proof fn lemma_parse_product(t: Seq<Tok>, i: int, e: Expr)
    requires
        is_product(e),
        holds_at(t, i, tokens_of(e)),
    ensures
        term_spec(t, i) == term_rest_spec(t, i + tokens_of(e).len(), e),
    decreases e,
{
    if e is Times || e is Divide {
        let (a, b, op) = match e {
            Expr::Times(a, b) => (*a, *b, Tok::Times),
            Expr::Divide(a, b) => (*a, *b, Tok::Divide),
            _ => (e, e, Tok::Eof),
        };
        assert(e == join(op, a, b));
        assert(tokens_of(e) == tokens_of(a) + seq![op] + tokens_of(b));
        let la = tokens_of(a).len();
        let lb = tokens_of(b).len();
        assert(holds_at(t, i, tokens_of(a))) by {
            assert forall|k: int| 0 <= k < la implies t[i + k] == tokens_of(a)[k] by {
                assert(t[i + k] == tokens_of(e)[k]);
            }
        }
        assert(t[i + la] == op) by {
            assert(t[i + la] == tokens_of(e)[la as int]);
        }
        assert(holds_at(t, i + la + 1, tokens_of(b))) by {
            assert forall|k: int| 0 <= k < lb implies t[i + la + 1 + k] == tokens_of(b)[k] by {
                assert(t[i + (la + 1 + k)] == tokens_of(e)[la + 1 + k]);
            }
        }
        lemma_parse_product(t, i, a);
        lemma_parse_atom(t, i + la + 1, b);
    } else {
        lemma_parse_atom(t, i, e);
    }
}

proof fn lemma_parse_sum(t: Seq<Tok>, i: int, e: Expr)
    requires
        is_sum(e),
        holds_at(t, i, tokens_of(e)),
        i + tokens_of(e).len() < t.len(),
        !is_multiplicative(t[i + tokens_of(e).len()]),
    ensures
        expr_spec(t, i) == expr_rest_spec(t, i + tokens_of(e).len(), e),
    decreases e,
{
    if e is Plus || e is Minus {
        let (a, b, op) = match e {
            Expr::Plus(a, b) => (*a, *b, Tok::Plus),
            Expr::Minus(a, b) => (*a, *b, Tok::Minus),
            _ => (e, e, Tok::Eof),
        };
        assert(e == join(op, a, b));
        assert(tokens_of(e) == tokens_of(a) + seq![op] + tokens_of(b));
        let la = tokens_of(a).len();
        let lb = tokens_of(b).len();
        assert(holds_at(t, i, tokens_of(a))) by {
            assert forall|k: int| 0 <= k < la implies t[i + k] == tokens_of(a)[k] by {
                assert(t[i + k] == tokens_of(e)[k]);
            }
        }
        assert(t[i + la] == op) by {
            assert(t[i + la] == tokens_of(e)[la as int]);
        }
        assert(holds_at(t, i + la + 1, tokens_of(b))) by {
            assert forall|k: int| 0 <= k < lb implies t[i + la + 1 + k] == tokens_of(b)[k] by {
                assert(t[i + (la + 1 + k)] == tokens_of(e)[la + 1 + k]);
            }
        }
        lemma_parse_sum(t, i, a);
        lemma_parse_product(t, i + la + 1, b);
    } else {
        lemma_parse_product(t, i, e);
    }
}

/// Rendering a tree of the shape the parser builds from text without
/// parentheses, then lexing and parsing that text, gives back the same tree,
/// and so the same value.
pub proof fn lemma_render_round_trip(e: Expr)
    requires
        is_sum(e),
    ensures
        parse_spec(lex_spec(text(e))) == Ok::<Expr, ParseError>(e),
        parse_spec(lex_spec(text(e))) matches Ok(f) && value(f) == value(e),
{
    let s = text(e);
    lemma_lex_text(s, 0, e);
    assert(lex_from(s, s.len() as int) == seq![Tok::Eof]);
    let t = lex_spec(s);
    assert(t =~= tokens_of(e) + seq![Tok::Eof]);
    let n = tokens_of(e).len();
    assert(t[n as int] == Tok::Eof);
    lemma_parse_sum(t, 0, e);
}

} // verus!
