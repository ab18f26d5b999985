use vstd::prelude::*;
use crate::expr::Expr;
use crate::lexer::Tok;

verus! {

/// Why a token sequence is not an expression.
#[derive(Clone, Copy, Debug, PartialEq, Eq, Structural)]
pub enum ParseError {
    /// The token sequence is empty.
    NoTokens,
    /// A token other than `-`, `(` or a numeral stands where an operand is due.
    NotPrimary,
    /// A parenthesized expression is not followed by `)`.
    UnmatchedParen,
    /// A `-` in operand position is not followed by a numeral.
    NegateNonNumeral,
    /// The tokens ran out before the expression was complete.
    NoMoreTokens,
}

/// The diagnostic text of each parse fault.
pub open spec fn parse_error_text(e: ParseError) -> Seq<char> {
    match e {
        ParseError::NoTokens => "Can't parse; no tokens."@,
        ParseError::NotPrimary => "Only negation, parens, or numerals are primary expressions."@,
        ParseError::UnmatchedParen => "Unmatched left parenthesis."@,
        ParseError::NegateNonNumeral => "Can't negate anything but a numeral."@,
        ParseError::NoMoreTokens => "Attempted to get token but there are no more."@,
    }
}

impl ParseError {
    /// The diagnostic text of the fault.
    pub fn message(&self) -> (r: &'static str)
        ensures
            r@ == parse_error_text(*self),
    {
        match self {
            ParseError::NoTokens => "Can't parse; no tokens.",
            ParseError::NotPrimary => "Only negation, parens, or numerals are primary expressions.",
            ParseError::UnmatchedParen => "Unmatched left parenthesis.",
            ParseError::NegateNonNumeral => "Can't negate anything but a numeral.",
            ParseError::NoMoreTokens => "Attempted to get token but there are no more.",
        }
    }
}

/// The outcome of parsing a piece of a token sequence: the tree and the
/// position just after it, or the fault and the position of the cursor when
/// it was found.
pub type Parsed = Result<(Expr, int), (ParseError, int)>;

/// The binding strength of a token used as a binary operator; -1 for a token
/// that is no binary operator.
pub open spec fn precedence(t: Tok) -> int {
    match t {
        Tok::Plus | Tok::Minus => 10,
        Tok::Times | Tok::Divide => 20,
        _ => -1,
    }
}

pub open spec fn is_additive(t: Tok) -> bool {
    t is Plus || t is Minus
}

pub open spec fn is_multiplicative(t: Tok) -> bool {
    t is Times || t is Divide
}

/// The node that joins `l` and `r` under the binary operator `op`.
pub open spec fn join(op: Tok, l: Expr, r: Expr) -> Expr
    recommends
        precedence(op) > 0,
{
    match op {
        Tok::Plus => Expr::Plus(Box::new(l), Box::new(r)),
        Tok::Minus => Expr::Minus(Box::new(l), Box::new(r)),
        Tok::Times => Expr::Times(Box::new(l), Box::new(r)),
        _ => Expr::Divide(Box::new(l), Box::new(r)),
    }
}

// The grammar, loosest level first:
//   expr    := term (('+' | '-') term)*        left-associative
//   term    := primary (('*' | '/') primary)*  left-associative
//   primary := numeral | '-' numeral | '(' expr ')'
// Each function reads `t` from position `i` and, on success, yields the tree
// and the position after it; on a fault, the fault and the position of the
// token that could not be read. A successful parse always ends past where it
// began; the guards `i < j <= t.len()` say so, which lets the definitions be
// seen to terminate.

/// An operand: a numeral, a negated numeral, or a parenthesized expression.
pub open spec fn primary_spec(t: Seq<Tok>, i: int) -> Parsed
    decreases t.len() - i, 0int,
{
    if i < 0 || i >= t.len() {
        Err((ParseError::NoMoreTokens, i))
    } else {
        match t[i] {
            Tok::Numeral(n) => Ok((Expr::Numeral(n), i + 1)),
            Tok::Minus => if i + 1 >= t.len() {
                Err((ParseError::NoMoreTokens, i + 1))
            } else {
                match t[i + 1] {
                    Tok::Numeral(n) => Ok((Expr::Negate(Box::new(Expr::Numeral(n))), i + 2)),
                    _ => Err((ParseError::NegateNonNumeral, i + 1)),
                }
            },
            Tok::Lparen => match expr_spec(t, i + 1) {
                Err(x) => Err(x),
                Ok((e, j)) => if j < 0 || j >= t.len() {
                    Err((ParseError::NoMoreTokens, j))
                } else if t[j] is Rparen {
                    Ok((e, j + 1))
                } else {
                    Err((ParseError::UnmatchedParen, j))
                },
            },
            _ => Err((ParseError::NotPrimary, i)),
        }
    }
}

/// Folds the `* primary` and `/ primary` pairs from position `i` into `left`.
pub open spec fn term_rest_spec(t: Seq<Tok>, i: int, left: Expr) -> Parsed
    decreases t.len() - i, 1int,
{
    if i < 0 || i >= t.len() {
        Err((ParseError::NoMoreTokens, i))
    } else if is_multiplicative(t[i]) {
        match primary_spec(t, i + 1) {
            Err(x) => Err(x),
            Ok((r, j)) => if i < j <= t.len() {
                term_rest_spec(t, j, join(t[i], left, r))
            } else {
                Err((ParseError::NoMoreTokens, i))
            },
        }
    } else {
        Ok((left, i))
    }
}

/// A product or quotient of operands.
pub open spec fn term_spec(t: Seq<Tok>, i: int) -> Parsed
    decreases t.len() - i, 2int,
{
    match primary_spec(t, i) {
        Err(x) => Err(x),
        Ok((l, j)) => if i < j <= t.len() {
            term_rest_spec(t, j, l)
        } else {
            Err((ParseError::NoMoreTokens, i))
        },
    }
}

/// Folds the `+ term` and `- term` pairs from position `i` into `left`.
pub open spec fn expr_rest_spec(t: Seq<Tok>, i: int, left: Expr) -> Parsed
    decreases t.len() - i, 3int,
{
    if i < 0 || i >= t.len() {
        Err((ParseError::NoMoreTokens, i))
    } else if is_additive(t[i]) {
        match term_spec(t, i + 1) {
            Err(x) => Err(x),
            Ok((r, j)) => if i < j <= t.len() {
                expr_rest_spec(t, j, join(t[i], left, r))
            } else {
                Err((ParseError::NoMoreTokens, i))
            },
        }
    } else {
        Ok((left, i))
    }
}

/// A sum or difference of terms.
pub open spec fn expr_spec(t: Seq<Tok>, i: int) -> Parsed
    decreases t.len() - i, 4int,
{
    match term_spec(t, i) {
        Err(x) => Err(x),
        Ok((l, j)) => if i < j <= t.len() {
            expr_rest_spec(t, j, l)
        } else {
            Err((ParseError::NoMoreTokens, i))
        },
    }
}

/// The tree that a whole token sequence stands for; tokens after the first
/// complete expression are left unread.
pub open spec fn parse_spec(t: Seq<Tok>) -> Result<Expr, ParseError> {
    if t.len() == 0 {
        Err(ParseError::NoTokens)
    } else {
        match expr_spec(t, 0) {
            Err((x, _)) => Err(x),
            Ok((e, _)) => Ok(e),
        }
    }
}

/// What `parse_binary_ops_rhs` yields from position `i` with `left` already
/// read, when only operators of precedence `min_prec` or more may be folded in.
pub open spec fn binary_ops_rhs_spec(t: Seq<Tok>, i: int, min_prec: int, left: Expr) -> Parsed {
    if min_prec <= 10 {
        match term_rest_spec(t, i, left) {
            Err(x) => Err(x),
            Ok((l, j)) => expr_rest_spec(t, j, l),
        }
    } else if min_prec <= 20 {
        term_rest_spec(t, i, left)
    } else if 0 <= i < t.len() {
        Ok((left, i))
    } else {
        Err((ParseError::NoMoreTokens, i))
    }
}

/// `r` and the cursor `after` are what the grammar outcome `s` describes.
pub open spec fn agrees(r: Result<Expr, ParseError>, after: usize, s: Parsed) -> bool {
    match s {
        Ok((e, j)) => r == Ok::<Expr, ParseError>(e) && after == j,
        Err((x, k)) => r == Err::<Expr, ParseError>(x) && after == k,
    }
}

/// A run of multiplicative operators ends on a token that is none.
pub proof fn lemma_term_rest_stops(t: Seq<Tok>, i: int, left: Expr)
    ensures
        term_rest_spec(t, i, left) matches Ok((_, j)) ==> i <= j < t.len()
            && !is_multiplicative(t[j]),
    decreases t.len() - i,
{
    if 0 <= i < t.len() && is_multiplicative(t[i]) {
        if let Ok((r, j)) = primary_spec(t, i + 1) {
            if i < j <= t.len() {
                lemma_term_rest_stops(t, j, join(t[i], left, r));
            }
        }
    }
}

pub fn eat_token(current_token: &mut usize)
    requires
        *old(current_token) < usize::MAX,
    ensures
        *final(current_token) == *old(current_token) + 1,
{
    *current_token += 1;
}

pub fn get_token<'a, 'b>(toks: &'a Vec<Tok>, current_token: &'b mut usize) -> (r: Result<
    &'a Tok,
    ParseError,
>)
    ensures
        *final(current_token) == *old(current_token),
        toks@.len() <= usize::MAX,
        match r {
            Ok(tok) => *old(current_token) < toks@.len() && *tok == toks@[*old(current_token) as int],
            Err(e) => *old(current_token) >= toks@.len() && e == ParseError::NoMoreTokens,
        },
{
    if *current_token < toks.len() {
        Ok(&toks[*current_token])
    } else {
        Err(ParseError::NoMoreTokens)
    }
}

pub fn op_precedence(tok: &Tok) -> (r: i8)
    ensures
        r as int == precedence(*tok),
{
    match *tok {
        Tok::Numeral(_) => -1,
        Tok::Plus => 10,
        Tok::Minus => 10,
        Tok::Times => 20,
        Tok::Divide => 20,
        Tok::Lparen => -1,
        Tok::Rparen => -1,
        Tok::Eof => -1,
    }
}

pub fn binary_op_expr(binary_op: &Tok, lhs: Expr, rhs: Expr) -> (r: Expr)
    requires
        precedence(*binary_op) > 0,
    ensures
        r == join(*binary_op, lhs, rhs),
{
    match *binary_op {
        Tok::Plus => Expr::Plus(Box::new(lhs), Box::new(rhs)),
        Tok::Minus => Expr::Minus(Box::new(lhs), Box::new(rhs)),
        Tok::Times => Expr::Times(Box::new(lhs), Box::new(rhs)),
        _ => Expr::Divide(Box::new(lhs), Box::new(rhs)),
    }
}

/// Reads the numeral under the cursor.
pub fn parse_numeral(toks: &Vec<Tok>, current_token: &mut usize) -> (r: Result<Expr, ParseError>)
    requires
        *old(current_token) < toks@.len(),
        toks@[*old(current_token) as int] is Numeral,
    ensures
        agrees(r, *final(current_token), primary_spec(toks@, *old(current_token) as int)),
        r is Ok,
{
    let tok = get_token(toks, current_token)?;
    match *tok {
        Tok::Numeral(i) => {
            eat_token(current_token);
            Ok(Expr::Numeral(i))
        },
        _ => Err(ParseError::NotPrimary),
    }
}

/// Reads `-` and the numeral that must follow it.
pub fn parse_negate(toks: &Vec<Tok>, current_token: &mut usize) -> (r: Result<Expr, ParseError>)
    requires
        *old(current_token) < toks@.len() <= usize::MAX,
        toks@[*old(current_token) as int] is Minus,
    ensures
        agrees(r, *final(current_token), primary_spec(toks@, *old(current_token) as int)),
{
    eat_token(current_token);
    let tok = get_token(toks, current_token)?;
    match *tok {
        Tok::Numeral(i) => {
            eat_token(current_token);
            Ok(Expr::Negate(Box::new(Expr::Numeral(i))))
        },
        _ => Err(ParseError::NegateNonNumeral),
    }
}

/// Reads `(`, an expression, and the `)` that must close it.
pub fn parse_paren(toks: &Vec<Tok>, current_token: &mut usize) -> (r: Result<Expr, ParseError>)
    requires
        *old(current_token) < toks@.len() <= usize::MAX,
        toks@[*old(current_token) as int] is Lparen,
    ensures
        agrees(r, *final(current_token), primary_spec(toks@, *old(current_token) as int)),
        r is Ok ==> *old(current_token) < *final(current_token) <= toks@.len(),
    decreases toks@.len() - *old(current_token), 1int,
{
    eat_token(current_token);
    let expr = parse_expr(toks, current_token)?;
    let tok = get_token(toks, current_token)?;
    match *tok {
        Tok::Rparen => {
            eat_token(current_token);
            Ok(expr)
        },
        _ => Err(ParseError::UnmatchedParen),
    }
}

/// Reads one operand.
pub fn parse_primary(toks: &Vec<Tok>, current_token: &mut usize) -> (r: Result<Expr, ParseError>)
    ensures
        agrees(r, *final(current_token), primary_spec(toks@, *old(current_token) as int)),
        r is Ok ==> *old(current_token) < *final(current_token) <= toks@.len(),
    decreases toks@.len() - *old(current_token), 2int,
{
    let tok = get_token(toks, current_token)?;
    match *tok {
        Tok::Minus => parse_negate(toks, current_token),
        Tok::Numeral(_) => parse_numeral(toks, current_token),
        Tok::Lparen => parse_paren(toks, current_token),
        _ => Err(ParseError::NotPrimary),
    }
}

/// Folds into `left_expr` the binary operators from the cursor on whose
/// precedence is at least `expr_precedence`, an operator binding its right
/// operand more tightly than the one before it taking that operand first.
pub fn parse_binary_ops_rhs(
    toks: &Vec<Tok>,
    current_token: &mut usize,
    expr_precedence: i8,
    left_expr: Expr,
) -> (r: Result<Expr, ParseError>)
    requires
        expr_precedence >= 0,
    ensures
        agrees(
            r,
            *final(current_token),
            binary_ops_rhs_spec(toks@, *old(current_token) as int, expr_precedence as int, left_expr),
        ),
        r is Ok ==> *old(current_token) <= *final(current_token) < toks@.len()
            && precedence(toks@[*final(current_token) as int]) < expr_precedence,
    decreases toks@.len() - *old(current_token), 3int,
{
    let ghost t = toks@;
    let ghost i0 = *current_token as int;
    let ghost p = expr_precedence as int;
    let mut left = left_expr;
    loop
        invariant
            t == toks@,
            i0 == *old(current_token),
            i0 <= *current_token,
            i0 < *current_token ==> *current_token <= t.len(),
            p == expr_precedence as int,
            p >= 0,
            binary_ops_rhs_spec(t, i0, p, left_expr) == binary_ops_rhs_spec(
                t,
                *current_token as int,
                p,
                left,
            ),
        decreases t.len() - *current_token,
    {
        let ghost i = *current_token as int;
        let tok = get_token(toks, current_token)?;
        let tok_precedence = op_precedence(tok);
        if tok_precedence < expr_precedence {
            return Ok(left);
        }
        let op = *tok;
        proof {
            if is_additive(op) {
                assert(term_rest_spec(t, i, left) == Ok::<(Expr, int), (ParseError, int)>((left, i)));
                assert(binary_ops_rhs_spec(t, i, p, left) == expr_rest_spec(t, i, left));
            }
        }
        eat_token(current_token);
        let mut right_expr = match parse_primary(toks, current_token) {
            Ok(e) => e,
            Err(x) => {
                proof {
                    let e = Err::<(Expr, int), (ParseError, int)>((x, *current_token as int));
                    assert(primary_spec(t, i + 1) == e);
                    if is_additive(op) {
                        assert(term_spec(t, i + 1) == e);
                        assert(expr_rest_spec(t, i, left) == e);
                    } else {
                        assert(term_rest_spec(t, i, left) == e);
                    }
                }
                return Err(x);
            },
        };
        let ghost r = right_expr;
        let ghost j = *current_token as int;
        let next_op = match get_token(toks, current_token) {
            Ok(tok) => tok,
            Err(x) => {
                proof {
                    let e = Err::<(Expr, int), (ParseError, int)>((x, *current_token as int));
                    if is_additive(op) {
                        assert(term_rest_spec(t, j, r) == e);
                        assert(term_spec(t, i + 1) == e);
                        assert(expr_rest_spec(t, i, left) == e);
                    } else {
                        assert(term_rest_spec(t, j, join(op, left, r)) == e);
                        assert(term_rest_spec(t, i, left) == e);
                    }
                }
                return Err(x);
            },
        };
        let next_precedence = op_precedence(next_op);
        if tok_precedence < next_precedence {
            right_expr = parse_binary_ops_rhs(toks, current_token, tok_precedence + 1, right_expr)?;
            proof {
                lemma_term_rest_stops(t, j, r);
            }
        }
        left = binary_op_expr(&op, left, right_expr);
    }
}

/// Reads one complete expression.
pub fn parse_expr(toks: &Vec<Tok>, current_token: &mut usize) -> (r: Result<Expr, ParseError>)
    ensures
        agrees(r, *final(current_token), expr_spec(toks@, *old(current_token) as int)),
        r is Ok ==> *old(current_token) < *final(current_token) < toks@.len()
            && precedence(toks@[*final(current_token) as int]) < 0,
    decreases toks@.len() - *old(current_token), 4int,
{
    let ghost t = toks@;
    let lhs = parse_primary(toks, current_token)?;
    let ghost j = *current_token as int;
    proof {
        lemma_term_rest_stops(t, j, lhs);
    }
    parse_binary_ops_rhs(toks, current_token, 0, lhs)
}

/// Parses a token sequence into an expression tree.
pub fn parse(toks: &Vec<Tok>) -> (r: Result<Expr, ParseError>)
    ensures
        r == parse_spec(toks@),
{
    if toks.len() == 0 {
        return Err(ParseError::NoTokens);
    }
    let mut current_token: usize = 0;
    parse_expr(toks, &mut current_token)
}

} // verus!
