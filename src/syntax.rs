//! The Church grammar, stated over sequences of characters.
use vstd::prelude::*;
use crate::value::{ChurchParseError, Term, all_digits, digits_value};

verus! {

/// A byte in `A-Z`, `a-z` or `0-9`.
pub open spec fn ascii_alphanumeric(b: u8) -> bool {
    (0x41 <= b && b <= 0x5A) || (0x61 <= b && b <= 0x7A) || (0x30 <= b && b <= 0x39)
}

/// The lowest byte of a character's code, as `c as u8` gives it.
pub open spec fn low_byte(c: char) -> u8 {
    ((c as u32) % 256) as u8
}

/// The primitive operator symbols.
pub open spec fn is_primitive(c: char) -> bool {
    c == '+' || c == '-' || c == '*' || c == '/' || c == '^' || c == '%'
}

/// A character that may stand in a token of a function application.
pub open spec fn church_char(c: char) -> bool {
    ascii_alphanumeric(low_byte(c)) || is_primitive(c)
}

/// What nom's `AsChar::is_alphanum` says of a character: alphabetic in the
/// Unicode sense, or a decimal digit.
pub uninterp spec fn nom_alphanumeric(c: char) -> bool;

/// Relies on nom's `is_alphanumeric` for bytes: `A-Z`, `a-z` and `0-9`.
#[verifier::external_body]
fn byte_is_alphanumeric(b: u8) -> (r: bool)
    ensures
        r == ascii_alphanumeric(b),
{
    nom::is_alphanumeric(b)
}

/// Relies on nom's `AsChar::is_alphanum` for `char`, the test behind the
/// `alphanumeric` parser on text: `char::is_alphabetic` or `char::is_digit(10)`.
/// On ASCII characters these are exactly the letters and the digits.
#[verifier::external_body]
pub(crate) fn char_is_alphanumeric(c: char) -> (r: bool)
    ensures
        r == nom_alphanumeric(c),
        (c as u32) < 128 ==> (r <==> ascii_alphanumeric((c as u32) as u8)),
{
    nom::AsChar::is_alphanum(c)
}

pub fn is_primitive_char(c: char) -> (r: bool)
    ensures
        r == is_primitive(c),
{
    c == '+' || c == '-' || c == '*' || c == '/' || c == '^' || c == '%'
}

/// Whether `c` may stand in an application token: its lowest byte is an
/// ASCII letter or digit, or it is a primitive operator symbol.
pub fn is_church_char(c: char) -> (r: bool)
    ensures
        r == church_char(c),
{
    let b: u8 = ((c as u32) % 256) as u8;
    if byte_is_alphanumeric(b) {
        true
    } else {
        is_primitive_char(c)
    }
}

/// The length of the run of application-token characters from `i`.
pub open spec fn church_run(s: Seq<char>, i: nat) -> nat
    decreases s.len() - i,
{
    if i < s.len() && church_char(s[i as int]) {
        1 + church_run(s, i + 1)
    } else {
        0
    }
}

/// The length of the run of alphanumeric characters (in nom's sense) from `i`.
pub open spec fn alnum_run(s: Seq<char>, i: nat) -> nat
    decreases s.len() - i,
{
    if i < s.len() && nom_alphanumeric(s[i as int]) {
        1 + alnum_run(s, i + 1)
    } else {
        0
    }
}

pub proof fn lemma_church_run_bound(s: Seq<char>, i: nat)
    ensures
        i <= s.len() ==> i + church_run(s, i) <= s.len(),
    decreases s.len() - i,
{
    if i < s.len() && church_char(s[i as int]) {
        lemma_church_run_bound(s, i + 1);
    }
}

pub proof fn lemma_alnum_run_bound(s: Seq<char>, i: nat)
    ensures
        i <= s.len() ==> i + alnum_run(s, i) <= s.len(),
    decreases s.len() - i,
{
    if i < s.len() && nom_alphanumeric(s[i as int]) {
        lemma_alnum_run_bound(s, i + 1);
    }
}

pub open spec fn is_bool_text(s: Seq<char>, i: int) -> bool {
    0 <= i && i + 1 < s.len() && s[i] == '#' && (s[i + 1] == 't' || s[i + 1] == 'f')
}

/// The length of the list token from `i`: an alphanumeric run, else `#t` or
/// `#f`; zero where neither stands there.
pub open spec fn list_token_len(s: Seq<char>, i: nat) -> nat {
    if alnum_run(s, i) > 0 {
        alnum_run(s, i)
    } else if is_bool_text(s, i as int) {
        2
    } else {
        0
    }
}

/// The tokens of a list body from `i` to the end of `s`: tokens separated by
/// `,`, the last one followed by the closing `)` that ends `s`.
pub open spec fn list_tokens(s: Seq<char>, i: nat) -> Option<Seq<Seq<char>>>
    decreases s.len() - i,
{
    let n = list_token_len(s, i);
    let e = i + n;
    if n == 0 {
        None
    } else if e < s.len() && s[e as int] == ',' {
        match list_tokens(s, e + 1) {
            Some(rest) => Some(seq![s.subrange(i as int, e as int)] + rest),
            None => None,
        }
    } else if e + 1 == s.len() && s[e as int] == ')' {
        Some(seq![s.subrange(i as int, e as int)])
    } else {
        None
    }
}

/// The tokens of `s` when the whole of it is a list literal `(a,b,...)`.
pub open spec fn list_literal(s: Seq<char>) -> Option<Seq<Seq<char>>> {
    if s.len() > 0 && s[0] == '(' {
        list_tokens(s, 1)
    } else {
        None
    }
}

/// Where the name of an application starts: after an optional `(`.
pub open spec fn app_start(s: Seq<char>) -> nat {
    if s.len() > 0 && s[0] == '(' {
        1
    } else {
        0
    }
}

/// The argument tokens of an application from `i`: each a single space and a
/// non-empty run of application-token characters. Whatever follows the last
/// one is not read.
pub open spec fn app_args(s: Seq<char>, i: nat) -> Seq<Seq<char>>
    decreases s.len() - i,
{
    if i < s.len() && s[i as int] == ' ' && church_run(s, i + 1) > 0 {
        proof {
            lemma_church_run_bound(s, i + 1);
        }
        let e = i + 1 + church_run(s, i + 1);
        seq![s.subrange((i + 1) as int, e as int)] + app_args(s, e)
    } else {
        Seq::empty()
    }
}

/// A literal: `#t`, `#f`, or decimal digits whose value fits an `i16`.
pub open spec fn literal_term(t: Seq<char>) -> Option<Term> {
    if t == seq!['#', 't'] {
        Some(Term::Bool(true))
    } else if t == seq!['#', 'f'] {
        Some(Term::Bool(false))
    } else if all_digits(t) && digits_value(t) <= i16::MAX {
        Some(Term::Number(digits_value(t) as int))
    } else {
        None
    }
}

/// The value that an argument token of an application reads as, before it is
/// evaluated: a number, or the application of that name to no arguments.
pub open spec fn arg_term(t: Seq<char>) -> Option<Term> {
    if all_digits(t) {
        if digits_value(t) <= i16::MAX {
            Some(Term::Number(digits_value(t) as int))
        } else {
            None
        }
    } else {
        Some(Term::Func(t, Seq::empty()))
    }
}

/// What the grammar makes of a whole input, before any evaluation.
pub enum Reading {
    /// A literal or a list of literals.
    Value(Term),
    /// A function name and its argument tokens, still to be evaluated.
    Apply(Seq<char>, Seq<Seq<char>>),
    Failed(ChurchParseError),
}

/// The grammar, its alternatives tried in order: boolean, number, list (each
/// of which must take the whole input), then function application.
pub open spec fn reading(s: Seq<char>) -> Reading {
    if s == seq!['#', 't'] {
        Reading::Value(Term::Bool(true))
    } else if s == seq!['#', 'f'] {
        Reading::Value(Term::Bool(false))
    } else if all_digits(s) {
        if digits_value(s) <= i16::MAX {
            Reading::Value(Term::Number(digits_value(s) as int))
        } else {
            Reading::Failed(ChurchParseError::IntParseError)
        }
    } else if let Some(toks) = list_literal(s) {
        if forall|i: int| 0 <= i < toks.len() ==> (#[trigger] literal_term(toks[i])) is Some {
            Reading::Value(Term::List(toks.map_values(|t: Seq<char>| literal_term(t)->0)))
        } else {
            Reading::Failed(ChurchParseError::ListParseError)
        }
    } else {
        let st = app_start(s);
        let n = church_run(s, st);
        if n > 0 {
            Reading::Apply(s.subrange(st as int, (st + n) as int), app_args(s, st + n))
        } else {
            Reading::Failed(ChurchParseError::ParseError)
        }
    }
}

} // verus!
