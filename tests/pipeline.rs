use calc::expr::{eval, EvalError, Expr};
use calc::lexer::{char_is_digit, lex, Tok};
use calc::parser::{
    binary_op_expr, eat_token, get_token, op_precedence, parse, parse_binary_ops_rhs, parse_expr,
    parse_negate, parse_numeral, parse_paren, parse_primary, ParseError,
};
use calc::{evaluate, CalcError};

fn num(n: i64) -> Box<Expr> {
    Box::new(Expr::Numeral(n))
}

fn run(line: &str) -> Result<i64, CalcError> {
    evaluate(line)
}

#[test]
fn lex_mixed_expression() {
    assert_eq!(
        lex("(1+2) * (5/4)"),
        vec![
            Tok::Lparen,
            Tok::Numeral(1),
            Tok::Plus,
            Tok::Numeral(2),
            Tok::Rparen,
            Tok::Times,
            Tok::Lparen,
            Tok::Numeral(5),
            Tok::Divide,
            Tok::Numeral(4),
            Tok::Rparen,
            Tok::Eof,
        ]
    );
}

#[test]
fn lex_decimal_text_of_numbers() {
    for n in [0i64, 7, 10, 42, 1234567890, i64::MAX] {
        assert_eq!(lex(&n.to_string()), vec![Tok::Numeral(n), Tok::Eof]);
    }
}

#[test]
fn lex_empty_line_is_just_eof() {
    assert_eq!(lex(""), vec![Tok::Eof]);
    assert_eq!(lex("   "), vec![Tok::Eof]);
}

#[test]
fn lex_skips_unknown_characters() {
    assert_eq!(
        lex("a1 b+ 2\n"),
        vec![Tok::Numeral(1), Tok::Plus, Tok::Numeral(2), Tok::Eof]
    );
}

#[test]
fn lex_drops_numeral_that_overflows() {
    assert_eq!(lex("9223372036854775808"), vec![Tok::Eof]);
    assert_eq!(
        lex("1 + 99999999999999999999 + 2"),
        vec![Tok::Numeral(1), Tok::Plus, Tok::Plus, Tok::Numeral(2), Tok::Eof]
    );
}

#[test]
fn lex_leading_zeros_and_maximal_munch() {
    assert_eq!(lex("007"), vec![Tok::Numeral(7), Tok::Eof]);
    assert_eq!(
        lex("12 34"),
        vec![Tok::Numeral(12), Tok::Numeral(34), Tok::Eof]
    );
}

#[test]
fn digits_are_recognised() {
    assert!(char_is_digit(&'0'));
    assert!(char_is_digit(&'9'));
    assert!(!char_is_digit(&'a'));
    assert!(!char_is_digit(&' '));
}

#[test]
fn multiplication_binds_tighter() {
    assert_eq!(run("2+3*4"), Ok(14));
    assert_eq!(run("2*3+4"), Ok(10));
}

#[test]
fn parentheses_override_precedence() {
    assert_eq!(run("(2+3)*4"), Ok(20));
}

#[test]
fn subtraction_is_left_associative() {
    assert_eq!(run("10-3-2"), Ok(5));
    assert_eq!(run("100/10/5"), Ok(2));
}

#[test]
fn mixed_chain_keeps_left_associativity() {
    assert_eq!(run("1-2*3+4"), Ok(-1));
    assert_eq!(run("8-2*3-1"), Ok(1));
}

#[test]
fn unary_minus_on_literal() {
    assert_eq!(run("-5+7"), Ok(2));
}

#[test]
fn parse_tree_shape() {
    let toks = lex("2+3*4");
    assert_eq!(
        parse(&toks),
        Ok(Expr::Plus(num(2), Box::new(Expr::Times(num(3), num(4)))))
    );
}

#[test]
fn unmatched_left_paren() {
    assert_eq!(parse(&lex("(1+2")), Err(ParseError::UnmatchedParen));
}

#[test]
fn negate_only_numerals() {
    assert_eq!(parse(&lex("-(1+2)")), Err(ParseError::NegateNonNumeral));
}

#[test]
fn no_tokens() {
    assert_eq!(parse(&vec![]), Err(ParseError::NoTokens));
}

#[test]
fn operator_where_operand_is_due() {
    assert_eq!(parse(&lex("+3")), Err(ParseError::NotPrimary));
    assert_eq!(parse(&lex("")), Err(ParseError::NotPrimary));
}

#[test]
fn tokens_run_out() {
    assert_eq!(parse(&vec![Tok::Numeral(1)]), Err(ParseError::NoMoreTokens));
}

#[test]
fn trailing_tokens_are_left_unread() {
    assert_eq!(run("1 2"), Ok(1));
    assert_eq!(run("3)"), Ok(3));
}

#[test]
fn division_by_zero() {
    assert_eq!(run("5/0"), Err(CalcError::Eval(EvalError::DivisionByZero)));
}

#[test]
fn division_truncates_toward_zero() {
    assert_eq!(run("7/2"), Ok(3));
    assert_eq!(run("-7/2"), Ok(-3));
    assert_eq!(run("7/-2"), Ok(-3));
    assert_eq!(run("-7/-2"), Ok(3));
}

#[test]
fn overflow_is_reported() {
    assert_eq!(
        run("9223372036854775807+1"),
        Err(CalcError::Eval(EvalError::Overflow))
    );
    assert_eq!(run("-9223372036854775807-1"), Ok(i64::MIN));
    let min_div = Expr::Divide(num(i64::MIN), Box::new(Expr::Negate(num(1))));
    assert_eq!(eval(min_div), Err(EvalError::Overflow));
    assert_eq!(eval(Expr::Negate(num(i64::MIN))), Err(EvalError::Overflow));
}

#[test]
fn eval_each_operator() {
    assert_eq!(eval(Expr::Plus(num(2), num(3))), Ok(5));
    assert_eq!(eval(Expr::Minus(num(2), num(3))), Ok(-1));
    assert_eq!(eval(Expr::Times(num(2), num(3))), Ok(6));
    assert_eq!(eval(Expr::Divide(num(9), num(3))), Ok(3));
    assert_eq!(eval(Expr::Negate(num(4))), Ok(-4));
    assert_eq!(eval(Expr::Numeral(11)), Ok(11));
}

#[test]
fn left_error_comes_first() {
    let e = Expr::Plus(
        Box::new(Expr::Divide(num(1), num(0))),
        Box::new(Expr::Plus(num(i64::MAX), num(1))),
    );
    assert_eq!(eval(e), Err(EvalError::DivisionByZero));
}

#[test]
fn render_canonical_text() {
    let e = Expr::Minus(
        Box::new(Expr::Plus(num(1), Box::new(Expr::Times(num(2), num(3))))),
        Box::new(Expr::Negate(num(4))),
    );
    assert_eq!(e.render(), "1 + 2 * 3 - -4");
    assert_eq!(Expr::Numeral(-12).render(), "-12");
    assert_eq!(Expr::Numeral(i64::MIN).render(), "-9223372036854775808");
    assert_eq!(Expr::Numeral(0).render(), "0");
}

#[test]
fn render_drops_parentheses() {
    let e = parse(&lex("(2+3)*4")).unwrap();
    assert_eq!(e.render(), "2 + 3 * 4");
    assert_eq!(eval(parse(&lex(&e.render())).unwrap()), Ok(14));
}

#[test]
fn render_then_parse_round_trip() {
    for line in ["1 + 2 * 3 - 4 / 2", "-5 * 6 + 7", "10 - 3 - 2", "42"] {
        let e = parse(&lex(line)).unwrap();
        let text = e.render();
        assert_eq!(text, line);
        let again = parse(&lex(&text)).unwrap();
        assert_eq!(again, e);
        assert_eq!(eval(again), eval(e));
    }
}

#[test]
fn messages() {
    assert_eq!(ParseError::UnmatchedParen.message(), "Unmatched left parenthesis.");
    assert_eq!(
        ParseError::NegateNonNumeral.message(),
        "Can't negate anything but a numeral."
    );
    assert_eq!(ParseError::NoTokens.message(), "Can't parse; no tokens.");
    assert_eq!(
        ParseError::NotPrimary.message(),
        "Only negation, parens, or numerals are primary expressions."
    );
    assert_eq!(
        ParseError::NoMoreTokens.message(),
        "Attempted to get token but there are no more."
    );
    assert_eq!(EvalError::DivisionByZero.message(), "Division by zero.");
    assert_eq!(
        CalcError::Eval(EvalError::Overflow).message(),
        "Arithmetic overflow."
    );
    assert_eq!(
        CalcError::Parse(ParseError::UnmatchedParen).message(),
        "Unmatched left parenthesis."
    );
}

#[test]
fn precedence_table() {
    assert_eq!(op_precedence(&Tok::Plus), 10);
    assert_eq!(op_precedence(&Tok::Minus), 10);
    assert_eq!(op_precedence(&Tok::Times), 20);
    assert_eq!(op_precedence(&Tok::Divide), 20);
    assert_eq!(op_precedence(&Tok::Numeral(3)), -1);
    assert_eq!(op_precedence(&Tok::Lparen), -1);
    assert_eq!(op_precedence(&Tok::Rparen), -1);
    assert_eq!(op_precedence(&Tok::Eof), -1);
}

#[test]
fn cursor_steps() {
    let toks = lex("3");
    let mut cur: usize = 0;
    assert_eq!(get_token(&toks, &mut cur), Ok(&Tok::Numeral(3)));
    eat_token(&mut cur);
    assert_eq!(cur, 1);
    assert_eq!(get_token(&toks, &mut cur), Ok(&Tok::Eof));
    cur = 2;
    assert_eq!(get_token(&toks, &mut cur), Err(ParseError::NoMoreTokens));
}

#[test]
fn parse_pieces() {
    let toks = lex("-4 (5) 6*7+1");
    let mut cur: usize = 0;
    assert_eq!(
        parse_negate(&toks, &mut cur),
        Ok(Expr::Negate(num(4)))
    );
    assert_eq!(cur, 2);
    assert_eq!(parse_paren(&toks, &mut cur), Ok(Expr::Numeral(5)));
    assert_eq!(cur, 5);
    assert_eq!(parse_numeral(&toks, &mut cur), Ok(Expr::Numeral(6)));
    assert_eq!(cur, 6);
    let rhs = parse_binary_ops_rhs(&toks, &mut cur, 11, Expr::Numeral(6));
    assert_eq!(rhs, Ok(Expr::Times(num(6), num(7))));
    assert_eq!(cur, 8);
    let mut cur2: usize = 5;
    assert_eq!(
        parse_expr(&toks, &mut cur2),
        Ok(Expr::Plus(Box::new(Expr::Times(num(6), num(7))), num(1)))
    );
    assert_eq!(cur2, 10);
    let mut cur3: usize = 2;
    assert_eq!(parse_primary(&toks, &mut cur3), Ok(Expr::Numeral(5)));
}

#[test]
fn join_by_operator() {
    assert_eq!(
        binary_op_expr(&Tok::Minus, Expr::Numeral(1), Expr::Numeral(2)),
        Expr::Minus(num(1), num(2))
    );
    assert_eq!(
        binary_op_expr(&Tok::Divide, Expr::Numeral(1), Expr::Numeral(2)),
        Expr::Divide(num(1), num(2))
    );
}

#[test]
fn cursor_after_faults() {
    let toks = lex("+");
    let mut cur: usize = 0;
    assert_eq!(parse_primary(&toks, &mut cur), Err(ParseError::NotPrimary));
    assert_eq!(cur, 0);

    let toks = lex("-(");
    let mut cur: usize = 0;
    assert_eq!(parse_negate(&toks, &mut cur), Err(ParseError::NegateNonNumeral));
    assert_eq!(cur, 1);
    let mut cur: usize = 0;
    assert_eq!(parse_primary(&toks, &mut cur), Err(ParseError::NegateNonNumeral));
    assert_eq!(cur, 1);

    let toks = lex("(1 2");
    let mut cur: usize = 0;
    assert_eq!(parse_paren(&toks, &mut cur), Err(ParseError::UnmatchedParen));
    assert_eq!(cur, 2);

    let toks = vec![Tok::Minus];
    let mut cur: usize = 0;
    assert_eq!(parse_primary(&toks, &mut cur), Err(ParseError::NoMoreTokens));
    assert_eq!(cur, 1);
}

#[test]
fn cursor_past_the_end() {
    let toks = lex("1");
    let mut cur: usize = 10;
    assert_eq!(parse_expr(&toks, &mut cur), Err(ParseError::NoMoreTokens));
    assert_eq!(cur, 10);
    let mut cur: usize = 10;
    assert_eq!(
        parse_binary_ops_rhs(&toks, &mut cur, 0, Expr::Numeral(1)),
        Err(ParseError::NoMoreTokens)
    );
    assert_eq!(cur, 10);
    let mut cur: usize = 10;
    assert_eq!(parse_primary(&toks, &mut cur), Err(ParseError::NoMoreTokens));
    assert_eq!(cur, 10);
}

#[test]
fn expression_stops_at_non_operator() {
    let toks = lex("1+2*3)4");
    let mut cur: usize = 0;
    assert!(parse_expr(&toks, &mut cur).is_ok());
    assert_eq!(cur, 5);
    assert_eq!(toks[cur], Tok::Rparen);
}
