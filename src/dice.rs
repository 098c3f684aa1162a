//! The dice evaluator, and the plain notation that it is handed.
//!
//! The evaluator panics on some expressions (a zero-sided die, a remainder by
//! zero, an overflowing total) and runs long on others (a huge number of
//! dice). It is therefore only handed expressions in a plain notation: numbers
//! of at most three digits; dice `NdM`, `dM` or `Nd%` whose sides do not
//! start with `0`, with the keep and drop modifiers (`kh`, `kl`, `dh`, `dl`,
//! `h`, `l`); `+`, `-`, `/` (no floor division `//`, which turns a division by
//! zero into the largest integer), at most two `*` and no power; all in at
//! most 64 characters besides spaces. No integer in such an expression
//! outgrows an `i64`: a factor is at most 999 rolls of 999, and at most three
//! multiply.

use vstd::prelude::*;
use crate::resolve::integer_value;
use crate::text::{chars_of, is_digit};

verus! {

pub open spec fn is_roll_char(c: char) -> bool {
    is_digit(c) || c == 'd' || c == 'k' || c == 'h' || c == 'l' || c == '%' || c == '+' || c == '-' || c == '*'
        || c == '/' || c == ' '
}

/// `s` with its spaces left out; the evaluator skips them.
pub open spec fn without_spaces(s: Seq<char>) -> Seq<char>
    decreases s.len(),
{
    if s.len() == 0 {
        s
    } else if s.last() == ' ' {
        without_spaces(s.drop_last())
    } else {
        without_spaces(s.drop_last()).push(s.last())
    }
}

pub open spec fn count_char(s: Seq<char>, c: char) -> nat
    decreases s.len(),
{
    if s.len() == 0 {
        0
    } else {
        count_char(s.drop_last(), c) + if s.last() == c { 1nat } else { 0nat }
    }
}

/// Whether `s` is in the plain notation that the evaluator is handed.
pub open spec fn rollable(s: Seq<char>) -> bool {
    let t = without_spaces(s);
    &&& forall|i: int| 0 <= i < s.len() ==> is_roll_char(#[trigger] s[i])
    &&& t.len() <= 64
    &&& forall|i: int|
        0 <= i && i + 3 < t.len() ==> !(is_digit(#[trigger] t[i]) && is_digit(t[i + 1]) && is_digit(t[i + 2])
            && is_digit(t[i + 3]))
    &&& forall|i: int| 0 <= i && i + 1 < t.len() && #[trigger] t[i] == 'd' ==> t[i + 1] != '0'
    &&& forall|i: int| 0 <= i && i + 1 < t.len() && #[trigger] t[i] == '*' ==> t[i + 1] != '*'
    &&& forall|i: int| 0 <= i && i + 1 < t.len() && #[trigger] t[i] == '/' ==> t[i + 1] != '/'
    &&& count_char(t, '*') <= 2
}

fn is_digit_exec(c: char) -> (r: bool)
    ensures
        r == is_digit(c),
{
    '0' <= c && c <= '9'
}

/// Decides `rollable`.
pub fn is_rollable(s: &str) -> (r: bool)
    ensures
        r == rollable(s@),
{
    let v = chars_of(s);
    let mut t: Vec<char> = Vec::new();
    let mut stars: usize = 0;
    let mut i: usize = 0;
    while i < v.len()
        invariant
            v@ == s@,
            i <= v@.len(),
            forall|k: int| 0 <= k < i ==> is_roll_char(#[trigger] v@[k]),
            t@ == without_spaces(v@.subrange(0, i as int)),
            stars as nat == count_char(t@, '*'),
            stars <= i,
        decreases v@.len() - i,
    {
        let c = v[i];
        if !(is_digit_exec(c) || c == 'd' || c == 'k' || c == 'h' || c == 'l' || c == '%' || c == '+' || c == '-'
            || c == '*' || c == '/' || c == ' ') {
            return false;
        }
        assert(v@.subrange(0, i + 1).drop_last() =~= v@.subrange(0, i as int));
        if c != ' ' {
            let ghost before = t@;
            t.push(c);
            assert(t@.drop_last() =~= before);
            if c == '*' {
                stars = stars + 1;
            }
        }
        i = i + 1;
    }
    assert(v@.subrange(0, i as int) =~= v@);
    if t.len() > 64 || stars > 2 {
        return false;
    }
    let n = t.len();
    let mut k: usize = 0;
    while k < n
        invariant
            n == t@.len(),
            t@ == without_spaces(s@),
            forall|j: int| 0 <= j < s@.len() ==> is_roll_char(#[trigger] s@[j]),
            count_char(t@, '*') <= 2,
            n <= 64,
            k <= n,
            forall|j: int|
                0 <= j && j + 3 < n && j < k ==> !(is_digit(#[trigger] t@[j]) && is_digit(t@[j + 1]) && is_digit(
                    t@[j + 2],
                ) && is_digit(t@[j + 3])),
            forall|j: int| 0 <= j && j + 1 < n && j < k && #[trigger] t@[j] == 'd' ==> t@[j + 1] != '0',
            forall|j: int| 0 <= j && j + 1 < n && j < k && #[trigger] t@[j] == '*' ==> t@[j + 1] != '*',
            forall|j: int| 0 <= j && j + 1 < n && j < k && #[trigger] t@[j] == '/' ==> t@[j + 1] != '/',
        decreases n - k,
    {
        if k + 3 < n && is_digit_exec(t[k]) && is_digit_exec(t[k + 1]) && is_digit_exec(t[k + 2]) && is_digit_exec(
            t[k + 3],
        ) {
            return false;
        }
        if t[k] == 'd' && k + 1 < n && t[k + 1] == '0' {
            return false;
        }
        if t[k] == '*' && k + 1 < n && t[k + 1] == '*' {
            return false;
        }
        if t[k] == '/' && k + 1 < n && t[k + 1] == '/' {
            return false;
        }
        k = k + 1;
    }
    true
}

/// `s` holds no `/`.
pub open spec fn no_division(s: Seq<char>) -> bool {
    forall|i: int| 0 <= i < s.len() ==> s[i] != '/'
}

/// One roll of the evaluator.
pub struct DiceRoll {
    /// The expression, the dice it rolled and the total: `expr = rolled = total`.
    pub text: String,
    /// The total, as the evaluator writes it.
    pub total: String,
}

/// Relies on `roll_rs::roll_inline` with plain notation (`advanced` off): on
/// success its text is the expression, ` = `, the expression with each die
/// replaced by its rolls, ` = ` and the total, which it also returns. Without
/// `/` every value it computes is an `i64`, so the total is written as one.
/// On a parse failure it returns the parser's message.
#[verifier::external_body]
fn roll_inline(expr: &str) -> (r: Result<DiceRoll, String>)
    requires
        rollable(expr@),
    ensures
        r is Ok ==> exists|rolled: Seq<char>|
            r->Ok_0.text@ == expr@ + seq![' ', '=', ' '] + rolled + seq![' ', '=', ' '] + r->Ok_0.total@,
        r is Ok && no_division(expr@) ==> integer_value(r->Ok_0.total@) is Some,
{
    match roll_rs::roll_inline(expr, false) {
        Ok(roll) => Ok(DiceRoll { text: roll.string_result, total: roll.dice_total.to_string() }),
        Err(e) => Err(e),
    }
}

/// Why an expression was not rolled.
pub enum RollError {
    /// The expression is not in the plain notation.
    Unsupported,
    /// The evaluator refused the expression, with its message.
    Evaluator(String),
}

/// Rolls `expr` where it is in the plain notation.
pub fn roll(expr: &str) -> (r: Result<DiceRoll, RollError>)
    ensures
        !rollable(expr@) <==> r matches Err(RollError::Unsupported),
        r is Ok ==> exists|rolled: Seq<char>|
            r->Ok_0.text@ == expr@ + seq![' ', '=', ' '] + rolled + seq![' ', '=', ' '] + r->Ok_0.total@,
        r is Ok && no_division(expr@) ==> integer_value(r->Ok_0.total@) is Some,
{
    if !is_rollable(expr) {
        return Err(RollError::Unsupported);
    }
    match roll_inline(expr) {
        Ok(d) => Ok(d),
        Err(e) => Err(RollError::Evaluator(e)),
    }
}

} // verus!
