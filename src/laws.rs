//! General properties of reading and writing Church values.
use vstd::prelude::*;
use crate::parser::{arg_evaluates, evaluates, reads_as};
use crate::syntax::{Reading, list_literal, literal_term, reading};
use crate::value::{
    ChurchParseError, ChurchValue, Term, all_digits, decimal, digit_char, digit_value, digits_of,
    digits_value, render,
};

verus! {

proof fn lemma_digit_char(d: nat)
    requires
        d < 10,
    ensures
        '0' <= digit_char(d) <= '9',
        digit_value(digit_char(d)) == d,
{
}

/// The decimal digits of `n` are digits, and write `n`.
pub proof fn lemma_digits_of(n: nat)
    ensures
        all_digits(digits_of(n)),
        digits_value(digits_of(n)) == n,
    decreases n,
{
    lemma_digit_char(n % 10);
    if n < 10 {
        let s = digits_of(n);
        assert(s.drop_last() =~= Seq::<char>::empty());
        assert(digits_value(s) == digits_value(s.drop_last()) * 10 + digit_value(s.last()));
        assert(digits_value(Seq::<char>::empty()) == 0);
    } else {
        assert(n == (n / 10) * 10 + n % 10);
        lemma_digits_of(n / 10);
        let s = digits_of(n);
        assert(s.drop_last() =~= digits_of(n / 10));
        assert(s.last() == digit_char(n % 10));
        assert(digits_value(s) == digits_value(s.drop_last()) * 10 + digit_value(s.last()));
        assert forall|i: int| 0 <= i < s.len() implies ('0' <= #[trigger] s[i] && s[i] <= '9') by {
            if i < s.len() - 1 {
                assert(s[i] == digits_of(n / 10)[i]);
            }
        }
    }
}

/// Reading the decimal text of a number from `0` to `i16::MAX` gives that
/// number back.
pub proof fn lemma_number_reads_back(n: int)
    requires
        0 <= n <= i16::MAX,
    ensures
        reading(decimal(n)) == Reading::Value(Term::Number(n)),
{
    lemma_digits_of(n as nat);
    let s = decimal(n);
    assert(s != seq!['#', 't'] && s != seq!['#', 'f']) by {
        assert('0' <= s[0] <= '9');
    }
}

/// Reading the decimal text of a number above `i16::MAX` fails with an
/// `IntParseError`.
pub proof fn lemma_large_number_fails(n: int)
    requires
        n > i16::MAX,
    ensures
        reading(decimal(n)) == Reading::Failed(ChurchParseError::IntParseError),
{
    lemma_digits_of(n as nat);
    let s = decimal(n);
    assert(s != seq!['#', 't'] && s != seq!['#', 'f']) by {
        assert('0' <= s[0] <= '9');
    }
}

/// Writing a number from `0` to `i16::MAX` and reading the text gives the same
/// value. (A negative number is written with a `-`, which the digit rule does
/// not take: its text reads as an application of that name.)
pub proof fn lemma_number_round_trip(v: ChurchValue, input: Seq<char>)
    requires
        v matches ChurchValue::Number(n) && n >= 0,
        input == render(v@),
    ensures
        reading(input) == Reading::Value(v@),
{
    if let ChurchValue::Number(n) = v {
        lemma_number_reads_back(n as int);
    }
}

/// Only `#t` and `#f` read as booleans, as `true` and `false`.
pub proof fn lemma_bool_literals(s: Seq<char>, b: bool)
    ensures
        reading(s) == Reading::Value(Term::Bool(b)) <==> s == if b {
            seq!['#', 't']
        } else {
            seq!['#', 'f']
        },
{
}

/// A list literal whose tokens are all literals reads as the list of those
/// literals: same length, same order.
pub proof fn lemma_list_of_literals(s: Seq<char>)
    requires
        list_literal(s) is Some,
        forall|i: int|
            0 <= i < list_literal(s)->0.len() ==> (#[trigger] literal_term(list_literal(s)->0[i])) is Some,
    ensures
        reading(s) matches Reading::Value(Term::List(items)) && items.len() == list_literal(s)->0.len()
            && forall|i: int|
            0 <= i < items.len() ==> #[trigger] items[i] == literal_term(list_literal(s)->0[i])->0,
{
    assert(!all_digits(s) && s != seq!['#', 't'] && s != seq!['#', 'f']) by {
        assert(s[0] == '(');
    }
}

/// A list literal is read as a list, or fails as one; it is never taken for
/// an application.
pub proof fn lemma_list_is_not_application(s: Seq<char>)
    requires
        list_literal(s) is Some,
    ensures
        !(reading(s) is Apply),
{
}

/// Writing a boolean and reading the text gives the same boolean.
pub proof fn lemma_bool_round_trip(b: bool)
    ensures
        reading(render(Term::Bool(b))) == Reading::Value(Term::Bool(b)),
{
}

/// When the evaluator cannot succeed on one argument of an application, the
/// whole reading fails: no application with a part of its arguments is built.
pub proof fn lemma_failed_argument_fails<F, E>(
    s: Seq<char>,
    eval: F,
    r: Result<ChurchValue, ChurchParseError>,
    k: int,
) where F: Fn(ChurchValue) -> Result<ChurchValue, E>
    requires
        reads_as(s, eval, r),
        reading(s) is Apply,
        0 <= k < reading(s)->Apply_1.len(),
        forall|out: ChurchValue| !evaluates(eval, reading(s)->Apply_1[k], Ok::<ChurchValue, E>(out)),
    ensures
        r == Err::<ChurchValue, ChurchParseError>(ChurchParseError::ParseError),
{
    if let Ok(v) = r {
        if let ChurchValue::Func(_, args) = v {
            assert(arg_evaluates(eval, reading(s)->Apply_1[k], args@[k]));
        }
    }
}

} // verus!
