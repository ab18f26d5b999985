use vstd::prelude::*;
use crate::lexer::{decimal_text, digit_char};

verus! {

/// An arithmetic expression tree; each node owns its children.
#[derive(Debug, PartialEq, Eq)]
pub enum Expr {
    Numeral(i64),
    Plus(Box<Expr>, Box<Expr>),
    Minus(Box<Expr>, Box<Expr>),
    Times(Box<Expr>, Box<Expr>),
    Divide(Box<Expr>, Box<Expr>),
    Negate(Box<Expr>),
}

/// Why an expression has no 64-bit value.
#[derive(Clone, Copy, Debug, PartialEq, Eq, Structural)]
pub enum EvalError {
    /// The right operand of a division is zero.
    DivisionByZero,
    /// An intermediate or final result lies outside the range of `i64`.
    Overflow,
}

/// The diagnostic text of each evaluation fault.
pub open spec fn eval_error_text(e: EvalError) -> Seq<char> {
    match e {
        EvalError::DivisionByZero => "Division by zero."@,
        EvalError::Overflow => "Arithmetic overflow."@,
    }
}

impl EvalError {
    /// The diagnostic text of the fault.
    pub fn message(&self) -> (r: &'static str)
        ensures
            r@ == eval_error_text(*self),
    {
        match self {
            EvalError::DivisionByZero => "Division by zero.",
            EvalError::Overflow => "Arithmetic overflow.",
        }
    }
}

pub open spec fn abs(x: int) -> int {
    if x < 0 {
        -x
    } else {
        x
    }
}

/// Integer division that truncates toward zero.
pub open spec fn trunc_div(x: int, y: int) -> int {
    let q = abs(x) / abs(y);
    if (x < 0) == (y < 0) {
        q
    } else {
        -q
    }
}

/// `x` as an `i64`, or `Overflow` when it does not fit.
pub open spec fn fit(x: int) -> Result<i64, EvalError> {
    if i64::MIN <= x <= i64::MAX {
        Ok(x as i64)
    } else {
        Err(EvalError::Overflow)
    }
}

/// The value of a binary node whose operands evaluated to `ra` and `rb`, the
/// left operand's error winning over the right one's.
pub open spec fn binary_value(
    ra: Result<i64, EvalError>,
    rb: Result<i64, EvalError>,
    f: spec_fn(int, int) -> Result<i64, EvalError>,
) -> Result<i64, EvalError> {
    match ra {
        Err(x) => Err(x),
        Ok(a) => match rb {
            Err(y) => Err(y),
            Ok(b) => f(a as int, b as int),
        },
    }
}

pub open spec fn quotient(a: int, b: int) -> Result<i64, EvalError> {
    if b == 0 {
        Err(EvalError::DivisionByZero)
    } else {
        fit(trunc_div(a, b))
    }
}

/// The value of an expression: exact integer arithmetic, failing on a zero
/// divisor or on any result outside the range of `i64`. The left operand is
/// evaluated before the right one.
pub open spec fn value(e: Expr) -> Result<i64, EvalError>
    decreases e,
{
    match e {
        Expr::Numeral(i) => Ok(i),
        Expr::Plus(a, b) => binary_value(value(*a), value(*b), |x: int, y: int| fit(x + y)),
        Expr::Minus(a, b) => binary_value(value(*a), value(*b), |x: int, y: int| fit(x - y)),
        Expr::Times(a, b) => binary_value(value(*a), value(*b), |x: int, y: int| fit(x * y)),
        Expr::Divide(a, b) => binary_value(value(*a), value(*b), |x: int, y: int| quotient(x, y)),
        Expr::Negate(a) => match value(*a) {
            Err(x) => Err(x),
            Ok(v) => fit(-v),
        },
    }
}

/// Evaluates an expression tree.
pub fn eval(expr: Expr) -> (r: Result<i64, EvalError>)
    ensures
        r == value(expr),
    decreases expr,
{
    match expr {
        Expr::Numeral(i) => Ok(i),
        Expr::Plus(a, b) => {
            let x = eval(*a)?;
            let y = eval(*b)?;
            match x.checked_add(y) {
                Some(v) => Ok(v),
                None => Err(EvalError::Overflow),
            }
        },
        Expr::Minus(a, b) => {
            let x = eval(*a)?;
            let y = eval(*b)?;
            match x.checked_sub(y) {
                Some(v) => Ok(v),
                None => Err(EvalError::Overflow),
            }
        },
        Expr::Times(a, b) => {
            let x = eval(*a)?;
            let y = eval(*b)?;
            match x.checked_mul(y) {
                Some(v) => Ok(v),
                None => Err(EvalError::Overflow),
            }
        },
        Expr::Divide(a, b) => {
            let x = eval(*a)?;
            let y = eval(*b)?;
            if y == 0 {
                return Err(EvalError::DivisionByZero);
            }
            match x.checked_div(y) {
                Some(v) => Ok(v),
                None => Err(EvalError::Overflow),
            }
        },
        Expr::Negate(a) => {
            let x = eval(*a)?;
            match x.checked_mul(-1) {
                Some(v) => Ok(v),
                None => Err(EvalError::Overflow),
            }
        },
    }
}

/// The decimal text of an integer, with a leading `-` when it is negative.
pub open spec fn int_text(i: int) -> Seq<char> {
    if i < 0 {
        seq!['-'] + decimal_text((-i) as nat)
    } else {
        decimal_text(i as nat)
    }
}

/// The canonical infix text of an expression: one space around each binary
/// operator, no parentheses.
pub open spec fn text(e: Expr) -> Seq<char>
    decreases e,
{
    match e {
        Expr::Numeral(i) => int_text(i as int),
        Expr::Plus(a, b) => text(*a) + seq![' ', '+', ' '] + text(*b),
        Expr::Minus(a, b) => text(*a) + seq![' ', '-', ' '] + text(*b),
        Expr::Times(a, b) => text(*a) + seq![' ', '*', ' '] + text(*b),
        Expr::Divide(a, b) => text(*a) + seq![' ', '/', ' '] + text(*b),
        Expr::Negate(a) => seq!['-'] + text(*a),
    }
}

fn digit_str(d: u64) -> (r: &'static str)
    requires
        d < 10,
    ensures
        r@ == seq![digit_char(d as nat)],
{
    proof {
        reveal_strlit("0");
        reveal_strlit("1");
        reveal_strlit("2");
        reveal_strlit("3");
        reveal_strlit("4");
        reveal_strlit("5");
        reveal_strlit("6");
        reveal_strlit("7");
        reveal_strlit("8");
        reveal_strlit("9");
    }
    if d == 0 {
        "0"
    } else if d == 1 {
        "1"
    } else if d == 2 {
        "2"
    } else if d == 3 {
        "3"
    } else if d == 4 {
        "4"
    } else if d == 5 {
        "5"
    } else if d == 6 {
        "6"
    } else if d == 7 {
        "7"
    } else if d == 8 {
        "8"
    } else {
        "9"
    }
}

fn push_decimal(out: &mut String, n: u64)
    ensures
        final(out)@ == old(out)@ + decimal_text(n as nat),
    decreases n,
{
    if n >= 10 {
        push_decimal(out, n / 10);
    }
    out.append(digit_str(n % 10));
    proof {
        if n >= 10 {
            assert(final(out)@ =~= old(out)@ + decimal_text(n as nat));
        }
    }
}

fn push_int(out: &mut String, i: i64)
    ensures
        final(out)@ == old(out)@ + int_text(i as int),
{
    if i < 0 {
        proof {
            reveal_strlit("-");
        }
        out.append("-");
        let m: u64 = if i == i64::MIN {
            9223372036854775808u64
        } else {
            (-i) as u64
        };
        push_decimal(out, m);
        proof {
            assert(final(out)@ =~= old(out)@ + int_text(i as int));
        }
    } else {
        push_decimal(out, i as u64);
    }
}

impl Expr {
    fn push_text(&self, out: &mut String)
        ensures
            final(out)@ == old(out)@ + text(*self),
        decreases self,
    {
        let ghost start = out@;
        match self {
            Expr::Numeral(i) => push_int(out, *i),
            Expr::Plus(a, b) => {
                a.push_text(out);
                proof {
                    reveal_strlit(" + ");
                }
                out.append(" + ");
                b.push_text(out);
            },
            Expr::Minus(a, b) => {
                a.push_text(out);
                proof {
                    reveal_strlit(" - ");
                }
                out.append(" - ");
                b.push_text(out);
            },
            Expr::Times(a, b) => {
                a.push_text(out);
                proof {
                    reveal_strlit(" * ");
                }
                out.append(" * ");
                b.push_text(out);
            },
            Expr::Divide(a, b) => {
                a.push_text(out);
                proof {
                    reveal_strlit(" / ");
                }
                out.append(" / ");
                b.push_text(out);
            },
            Expr::Negate(a) => {
                proof {
                    reveal_strlit("-");
                }
                out.append("-");
                a.push_text(out);
            },
        }
        proof {
            assert(out@ =~= start + text(*self));
        }
    }

    /// The canonical text of the expression.
    pub fn render(&self) -> (r: String)
        ensures
            r@ == text(*self),
    {
        let mut out = String::new();
        self.push_text(&mut out);
        proof {
            assert(out@ =~= text(*self));
        }
        out
    }
}

} // verus!
