use vstd::prelude::*;

verus! {

/// A lexical unit of an arithmetic expression.
#[derive(Clone, Copy, Debug, PartialEq, Eq, Structural)]
pub enum Tok {
    Numeral(i64),
    Plus,
    Minus,
    Times,
    Divide,
    Lparen,
    Rparen,
    Eof,
}

pub open spec fn is_digit(c: char) -> bool {
    '0' <= c <= '9'
}

/// The numeric value of a decimal digit character.
pub open spec fn digit_of(c: char) -> int {
    c as int - '0' as int
}

/// The value of a run of decimal digits, most significant first.
pub open spec fn digits_value(s: Seq<char>) -> int
    decreases s.len(),
{
    if s.len() == 0 {
        0
    } else {
        digits_value(s.drop_last()) * 10 + digit_of(s.last())
    }
}

/// How many digits follow one another in `s` from position `i` on.
pub open spec fn run_len(s: Seq<char>, i: int) -> nat
    decreases s.len() - i,
{
    if 0 <= i < s.len() && is_digit(s[i]) {
        1 + run_len(s, i + 1)
    } else {
        0
    }
}

/// A digit run never reaches past the end of the text.
pub proof fn lemma_run_len_bound(s: Seq<char>, i: int)
    requires
        0 <= i <= s.len(),
    ensures
        i + run_len(s, i) <= s.len(),
    decreases s.len() - i,
{
    if 0 <= i < s.len() && is_digit(s[i]) {
        lemma_run_len_bound(s, i + 1);
    }
}

/// The token, if any, that a single non-digit character stands for.
pub open spec fn char_token(c: char) -> Seq<Tok> {
    if c == '+' {
        seq![Tok::Plus]
    } else if c == '-' {
        seq![Tok::Minus]
    } else if c == '*' {
        seq![Tok::Times]
    } else if c == '/' {
        seq![Tok::Divide]
    } else if c == '(' {
        seq![Tok::Lparen]
    } else if c == ')' {
        seq![Tok::Rparen]
    } else {
        seq![]
    }
}

/// The token a digit run of value `v` yields: none when it does not fit in an `i64`.
pub open spec fn numeral_token(v: int) -> Seq<Tok> {
    if v <= i64::MAX {
        seq![Tok::Numeral(v as i64)]
    } else {
        seq![]
    }
}

/// The tokens of `s` from position `i` on, ending with `Eof`.
pub open spec fn lex_from(s: Seq<char>, i: int) -> Seq<Tok>
    decreases s.len() - i,
{
    if i < 0 || i >= s.len() {
        seq![Tok::Eof]
    } else if is_digit(s[i]) {
        let n = 1 + run_len(s, i + 1);
        proof {
            lemma_run_len_bound(s, i + 1);
        }
        numeral_token(digits_value(s.subrange(i, i + n))) + lex_from(s, i + n)
    } else {
        char_token(s[i]) + lex_from(s, i + 1)
    }
}

/// The tokens of a whole line.
pub open spec fn lex_spec(s: Seq<char>) -> Seq<Tok> {
    lex_from(s, 0)
}

/// The digit character of a value below ten.
pub open spec fn digit_char(d: nat) -> char {
    if d == 0 {
        '0'
    } else if d == 1 {
        '1'
    } else if d == 2 {
        '2'
    } else if d == 3 {
        '3'
    } else if d == 4 {
        '4'
    } else if d == 5 {
        '5'
    } else if d == 6 {
        '6'
    } else if d == 7 {
        '7'
    } else if d == 8 {
        '8'
    } else {
        '9'
    }
}

/// The decimal text of a natural number, without leading zeros.
pub open spec fn decimal_text(n: nat) -> Seq<char>
    decreases n,
{
    if n < 10 {
        seq![digit_char(n)]
    } else {
        decimal_text(n / 10).push(digit_char(n % 10))
    }
}

pub fn char_is_digit(c: &char) -> (r: bool)
    ensures
        r == is_digit(*c),
{
    '0' <= *c && *c <= '9'
}

/// Splits a line into tokens. Spaces and unknown characters yield nothing; a
/// run of digits whose value does not fit in an `i64` yields nothing either.
pub fn lex(line: &str) -> (toks: Vec<Tok>)
    ensures
        toks@ == lex_spec(line@),
{
    let n = line.unicode_len();
    let ghost s = line@;
    let mut toks: Vec<Tok> = Vec::new();
    let mut i: usize = 0;
    while i < n
        invariant
            n == s.len(),
            s == line@,
            i <= n,
            toks@ + lex_from(s, i as int) == lex_spec(s),
        decreases n - i,
    {
        let c = line.get_char(i);
        if char_is_digit(&c) {
            let mut j: usize = i + 1;
            let mut value: i64 = (c as u32 - '0' as u32) as i64;
            let mut fits = true;
            proof {
                assert(s.subrange(i as int, j as int).drop_last() =~= s.subrange(i as int, i as int));
                assert(digits_value(s.subrange(i as int, i as int)) == 0);
                assert(s.subrange(i as int, j as int).last() == c);
                assert(digits_value(s.subrange(i as int, j as int)) == value);
            }
            while j < n
                invariant_except_break
                    n == s.len(),
                    s == line@,
                    i < j <= n,
                    run_len(s, i as int) == (j - i) + run_len(s, j as int),
                    fits ==> value == digits_value(s.subrange(i as int, j as int)),
                    !fits ==> digits_value(s.subrange(i as int, j as int)) > i64::MAX,
                    value >= 0,
                ensures
                    i < j <= n,
                    run_len(s, i as int) == j - i,
                    fits ==> value == digits_value(s.subrange(i as int, j as int)),
                    !fits ==> digits_value(s.subrange(i as int, j as int)) > i64::MAX,
                decreases n - j,
            {
                let d = line.get_char(j);
                if !char_is_digit(&d) {
                    break;
                }
                let dv = (d as u32 - '0' as u32) as i64;
                let ghost prev = digits_value(s.subrange(i as int, j as int));
                proof {
                    assert(s.subrange(i as int, j + 1).drop_last() =~= s.subrange(i as int, j as int));
                    assert(digits_value(s.subrange(i as int, j + 1)) == prev * 10 + dv);
                }
                if fits {
                    match value.checked_mul(10) {
                        Some(m) => match m.checked_add(dv) {
                            Some(a) => {
                                value = a;
                            },
                            None => {
                                fits = false;
                            },
                        },
                        None => {
                            fits = false;
                        },
                    }
                } else {
                    assert(prev * 10 + dv > i64::MAX) by (nonlinear_arith)
                        requires prev > i64::MAX, dv >= 0;
                }
                j = j + 1;
            }
            if fits {
                toks.push(Tok::Numeral(value));
            }
            proof {
                let head = numeral_token(digits_value(s.subrange(i as int, j as int)));
                assert(run_len(s, i as int) == 1 + run_len(s, i + 1));
                assert(lex_from(s, i as int) == head + lex_from(s, j as int));
                assert(toks@ + lex_from(s, j as int) =~= lex_spec(s));
            }
            i = j;
        } else {
            if c == '+' {
                toks.push(Tok::Plus);
            } else if c == '-' {
                toks.push(Tok::Minus);
            } else if c == '*' {
                toks.push(Tok::Times);
            } else if c == '/' {
                toks.push(Tok::Divide);
            } else if c == '(' {
                toks.push(Tok::Lparen);
            } else if c == ')' {
                toks.push(Tok::Rparen);
            }
            proof {
                assert(lex_from(s, i as int) == char_token(c) + lex_from(s, i + 1));
                assert(toks@ + lex_from(s, i + 1) =~= lex_spec(s));
            }
            i = i + 1;
        }
    }
    toks.push(Tok::Eof);
    proof {
        assert(toks@ =~= lex_spec(s));
    }
    toks
}

pub(crate) proof fn lemma_decimal_text(n: nat)
    ensures
        decimal_text(n).len() >= 1,
        forall|k: int| 0 <= k < decimal_text(n).len() ==> is_digit(#[trigger] decimal_text(n)[k]),
        digits_value(decimal_text(n)) == n,
    decreases n,
{
    if n >= 10 {
        lemma_decimal_text(n / 10);
        let s = decimal_text(n);
        assert(s.drop_last() =~= decimal_text(n / 10));
        assert(s.last() == digit_char(n % 10));
        assert(digit_of(digit_char(n % 10)) == n % 10);
        assert(digits_value(s) == (n / 10) * 10 + n % 10);
        assert((n / 10) * 10 + n % 10 == n) by (nonlinear_arith);
    } else {
        assert(digit_of(digit_char(n)) == n);
        assert(decimal_text(n).drop_last() =~= Seq::<char>::empty());
        assert(digits_value(Seq::<char>::empty()) == 0);
        assert(digits_value(decimal_text(n)) == n);
    }
}

proof fn lemma_run_len_all_digits(s: Seq<char>, i: int)
    requires
        0 <= i <= s.len(),
        forall|k: int| i <= k < s.len() ==> is_digit(#[trigger] s[k]),
    ensures
        run_len(s, i) == s.len() - i,
    decreases s.len() - i,
{
    if i < s.len() {
        lemma_run_len_all_digits(s, i + 1);
    }
}

/// The decimal text of any number that fits in an `i64` lexes to exactly
/// that numeral, followed by `Eof`.
pub proof fn lemma_lex_decimal(n: nat)
    requires
        n <= i64::MAX,
    ensures
        lex_spec(decimal_text(n)) == seq![Tok::Numeral(n as i64), Tok::Eof],
{
    let s = decimal_text(n);
    lemma_decimal_text(n);
    lemma_run_len_all_digits(s, 1);
    assert(s.subrange(0, s.len() as int) =~= s);
    assert(lex_from(s, s.len() as int) == seq![Tok::Eof]);
    assert(lex_from(s, 0) =~= seq![Tok::Numeral(n as i64), Tok::Eof]);
}

} // verus!
