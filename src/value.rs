use vstd::prelude::*;
use vstd::string::*;
use crate::text::{push_char, append_str, chars_of};

verus! {

/// Mathematical model of a [`ChurchValue`].
pub enum Term {
    Number(int),
    Bool(bool),
    List(Seq<Term>),
    Func(Seq<char>, Seq<Term>),
}

/// A parsed Church expression.
#[derive(Debug, PartialEq, Eq)]
pub enum ChurchValue {
    Number(i16),
    Bool(bool),
    List(Box<Vec<ChurchValue>>),
    Func(String, Box<Vec<ChurchValue>>),
}

/// The ways in which reading an expression can fail.
#[derive(Debug, Clone, Copy, PartialEq, Eq, Structural)]
pub enum ChurchParseError {
    BoolParseError,
    IntParseError,
    ListParseError,
    ParseError,
}

pub open spec fn term_of(v: ChurchValue) -> Term
    decreases v,
{
    match v {
        ChurchValue::Number(n) => Term::Number(n as int),
        ChurchValue::Bool(b) => Term::Bool(b),
        ChurchValue::List(items) => Term::List(terms_of(items@)),
        ChurchValue::Func(name, args) => Term::Func(name@, terms_of(args@)),
    }
}

pub open spec fn terms_of(s: Seq<ChurchValue>) -> Seq<Term>
    decreases s,
{
    if s.len() == 0 {
        Seq::empty()
    } else {
        seq![term_of(s[0])] + terms_of(s.subrange(1, s.len() as int))
    }
}

impl View for ChurchValue {
    type V = Term;

    open spec fn view(&self) -> Term {
        term_of(*self)
    }
}

pub open spec fn is_digit(c: char) -> bool {
    '0' <= c && c <= '9'
}

/// A non-empty run of decimal digits.
pub open spec fn all_digits(s: Seq<char>) -> bool {
    s.len() > 0 && forall|i: int| 0 <= i < s.len() ==> is_digit(#[trigger] s[i])
}

pub open spec fn digit_value(c: char) -> nat {
    (c as u32 - '0' as u32) as nat
}

/// The number that a run of decimal digits writes.
pub open spec fn digits_value(s: Seq<char>) -> nat
    decreases s.len(),
{
    if s.len() == 0 {
        0
    } else {
        digits_value(s.drop_last()) * 10 + digit_value(s.last())
    }
}

pub open spec fn digit_char(d: nat) -> char {
    if d == 0 { '0' } else if d == 1 { '1' } else if d == 2 { '2' } else if d == 3 { '3' }
    else if d == 4 { '4' } else if d == 5 { '5' } else if d == 6 { '6' } else if d == 7 { '7' }
    else if d == 8 { '8' } else { '9' }
}

fn digit_char_of(d: u32) -> (c: char)
    requires
        d < 10,
    ensures
        c == digit_char(d as nat),
{
    match d {
        0 => '0',
        1 => '1',
        2 => '2',
        3 => '3',
        4 => '4',
        5 => '5',
        6 => '6',
        7 => '7',
        8 => '8',
        _ => '9',
    }
}

/// The decimal digits of `n`, most significant first, without leading zeros.
pub open spec fn digits_of(n: nat) -> Seq<char>
    decreases n,
{
    if n < 10 {
        seq![digit_char(n)]
    } else {
        digits_of(n / 10).push(digit_char(n % 10))
    }
}

/// The decimal text of `n`, with a leading `-` when it is negative.
pub open spec fn decimal(n: int) -> Seq<char> {
    if n < 0 {
        seq!['-'] + digits_of((-n) as nat)
    } else {
        digits_of(n as nat)
    }
}

/// The value that `i16::from_str` gives for a text: an optional sign, then
/// decimal digits, within the range of `i16`.
pub open spec fn i16_text_value(s: Seq<char>) -> Option<int> {
    let negative = s.len() > 0 && s[0] == '-';
    let body = if s.len() > 0 && (s[0] == '-' || s[0] == '+') {
        s.drop_first()
    } else {
        s
    };
    let v: int = if negative {
        -digits_value(body)
    } else {
        digits_value(body) as int
    };
    if all_digits(body) && i16::MIN <= v <= i16::MAX {
        Some(v)
    } else {
        None
    }
}

/// The text of a boolean: the literal `#t` or `#f`, which reads back as the
/// same boolean.
pub open spec fn bool_text(b: bool) -> Seq<char> {
    if b {
        seq!['#', 't']
    } else {
        seq!['#', 'f']
    }
}

/// How a value is written out: numbers in decimal, booleans as `#t` or `#f`, a
/// list as its elements joined by `", "`, an application as the function's
/// name followed at once by its arguments joined by `" "`.
pub open spec fn render(t: Term) -> Seq<char>
    decreases t,
{
    match t {
        Term::Number(n) => decimal(n),
        Term::Bool(b) => bool_text(b),
        Term::List(items) => render_joined(items, seq![',', ' ']),
        Term::Func(name, args) => name + render_joined(args, seq![' ']),
    }
}

pub open spec fn render_joined(items: Seq<Term>, sep: Seq<char>) -> Seq<char>
    decreases items,
{
    if items.len() == 0 {
        Seq::empty()
    } else if items.len() == 1 {
        render(items[0])
    } else {
        render(items[0]) + sep + render_joined(items.subrange(1, items.len() as int), sep)
    }
}

/// Appends the decimal digits of `n`.
fn push_digits(out: &mut String, n: u32)
    ensures
        final(out)@ == old(out)@ + digits_of(n as nat),
    decreases n,
{
    if n >= 10 {
        push_digits(out, n / 10);
    }
    let d: u32 = n % 10;
    push_char(out, digit_char_of(d));
}

pub proof fn lemma_terms_of(s: Seq<ChurchValue>)
    ensures
        terms_of(s).len() == s.len(),
        forall|i: int| 0 <= i < s.len() ==> #[trigger] terms_of(s)[i] == term_of(s[i]),
    decreases s.len(),
{
    if s.len() > 0 {
        let rest = s.subrange(1, s.len() as int);
        lemma_terms_of(rest);
        assert forall|i: int| 0 <= i < s.len() implies #[trigger] terms_of(s)[i] == term_of(s[i]) by {
            if i > 0 {
                assert(rest[i - 1] == s[i]);
            }
        }
    }
}

proof fn lemma_render_joined_push(items: Seq<Term>, x: Term, sep: Seq<char>)
    ensures
        render_joined(items.push(x), sep) == if items.len() == 0 {
            render(x)
        } else {
            render_joined(items, sep) + sep + render(x)
        },
    decreases items.len(),
{
    let all = items.push(x);
    if items.len() >= 1 {
        let rest = items.subrange(1, items.len() as int);
        assert(all.subrange(1, all.len() as int) =~= rest.push(x));
        lemma_render_joined_push(rest, x, sep);
        if items.len() == 1 {
            assert(render_joined(items, sep) == render(items[0]));
        }
    }
}

/// A deep copy of `items`.
fn clone_items(items: &Vec<ChurchValue>) -> (r: Vec<ChurchValue>)
    ensures
        terms_of(r@) == terms_of(items@),
    decreases items,
{
    proof {
        lemma_terms_of(items@);
    }
    let mut r: Vec<ChurchValue> = Vec::new();
    let mut i: usize = 0;
    while i < items.len()
        invariant
            i <= items@.len(),
            r@.len() == i,
            terms_of(items@).len() == items@.len(),
            forall|j: int| 0 <= j < items@.len() ==> #[trigger] terms_of(items@)[j] == term_of(items@[j]),
            forall|j: int| 0 <= j < i ==> #[trigger] term_of(r@[j]) == term_of(items@[j]),
        decreases items@.len() - i,
    {
        proof {
            assert(decreases_to!(*items => items@[i as int]));
        }
        let c = items[i].clone();
        r.push(c);
        i = i + 1;
    }
    proof {
        lemma_terms_of(r@);
        assert(terms_of(r@) =~= terms_of(items@));
    }
    r
}

impl Clone for ChurchValue {
    /// A deep copy: the copy holds the same value and owns all of it.
    fn clone(&self) -> (r: ChurchValue)
        ensures
            r@ == self@,
        decreases self,
    {
        match self {
            ChurchValue::Number(n) => ChurchValue::Number(*n),
            ChurchValue::Bool(b) => ChurchValue::Bool(*b),
            ChurchValue::List(items) => ChurchValue::List(Box::new(clone_items(items))),
            ChurchValue::Func(name, args) => ChurchValue::Func(name.clone(), Box::new(clone_items(args))),
        }
    }
}

/// Above every magnitude that an `i16` can hold.
pub const MAGNITUDE_CAP: u32 = 32769;

/// The number written by the digits `s[lo..hi]`, or `MAGNITUDE_CAP` when it is
/// larger; `None` when a character there is not a digit or the run is empty.
pub(crate) fn capped_digits_value(s: &Vec<char>, lo: usize, hi: usize) -> (r: Option<u32>)
    requires
        lo <= hi <= s@.len(),
    ensures
        r is Some <==> all_digits(s@.subrange(lo as int, hi as int)),
        r matches Some(v) ==> v as nat == if digits_value(s@.subrange(lo as int, hi as int))
            < MAGNITUDE_CAP {
            digits_value(s@.subrange(lo as int, hi as int))
        } else {
            MAGNITUDE_CAP as nat
        },
{
    if lo == hi {
        return None;
    }
    let mut acc: u32 = 0;
    let mut j: usize = lo;
    while j < hi
        invariant
            lo <= j <= hi <= s@.len(),
            forall|k: int| lo <= k < j ==> is_digit(#[trigger] s@[k]),
            acc <= MAGNITUDE_CAP,
            acc as nat == if digits_value(s@.subrange(lo as int, j as int)) < MAGNITUDE_CAP {
                digits_value(s@.subrange(lo as int, j as int))
            } else {
                MAGNITUDE_CAP as nat
            },
        decreases hi - j,
    {
        let c = s[j];
        if !('0' <= c && c <= '9') {
            assert(!is_digit(s@.subrange(lo as int, hi as int)[j - lo]));
            return None;
        }
        let d: u32 = (c as u32) - ('0' as u32);
        proof {
            let p = s@.subrange(lo as int, j + 1);
            assert(p.drop_last() =~= s@.subrange(lo as int, j as int));
            assert(p.last() == c);
        }
        let next: u32 = acc * 10 + d;
        acc = if next < MAGNITUDE_CAP {
            next
        } else {
            MAGNITUDE_CAP
        };
        j = j + 1;
    }
    proof {
        let p = s@.subrange(lo as int, hi as int);
        assert forall|i: int| 0 <= i < p.len() implies is_digit(#[trigger] p[i]) by {
            assert(p[i] == s@[lo + i]);
        }
    }
    Some(acc)
}

/// The `i16` written by `s`, as `i16::from_str` reads it: an optional sign,
/// then decimal digits.
pub fn i16_of_chars(s: &Vec<char>) -> (r: Option<i16>)
    ensures
        r matches Some(v) ==> i16_text_value(s@) == Some(v as int),
        r is None ==> i16_text_value(s@) is None,
{
    let n = s.len();
    let signed = n > 0 && (s[0] == '-' || s[0] == '+');
    let negative = n > 0 && s[0] == '-';
    let lo: usize = if signed { 1 } else { 0 };
    proof {
        if signed {
            assert(s@.drop_first() =~= s@.subrange(1, n as int));
        } else {
            assert(s@ =~= s@.subrange(0, n as int));
        }
    }
    match capped_digits_value(s, lo, n) {
        None => None,
        Some(m) => {
            if negative {
                if m <= 32768 {
                    Some((0 - (m as i32)) as i16)
                } else {
                    None
                }
            } else if m <= 32767 {
                Some(m as i16)
            } else {
                None
            }
        },
    }
}

impl ChurchValue {
    /// Reads a boolean literal: exactly `#t` or `#f`.
    pub fn parse_string_to_bool(input: &str) -> (r: Result<ChurchValue, ChurchParseError>)
        ensures
            input@ == seq!['#', 't'] ==> r == Ok::<ChurchValue, ChurchParseError>(ChurchValue::Bool(true)),
            input@ == seq!['#', 'f'] ==> r == Ok::<ChurchValue, ChurchParseError>(ChurchValue::Bool(false)),
            input@ != seq!['#', 't'] && input@ != seq!['#', 'f'] ==> r == Err::<ChurchValue, ChurchParseError>(
                ChurchParseError::BoolParseError,
            ),
    {
        let cs = chars_of(input);
        if cs.len() == 2 && cs[0] == '#' && cs[1] == 't' {
            assert(input@ =~= seq!['#', 't']);
            Ok(ChurchValue::Bool(true))
        } else if cs.len() == 2 && cs[0] == '#' && cs[1] == 'f' {
            assert(input@ =~= seq!['#', 'f']);
            Ok(ChurchValue::Bool(false))
        } else {
            Err(ChurchParseError::BoolParseError)
        }
    }

    /// Reads a number as `i16::from_str` does: an optional sign, then decimal
    /// digits, with a value in the range of `i16`.
    pub fn parse_string_to_i16(input: &str) -> (r: Result<ChurchValue, ChurchParseError>)
        ensures
            i16_text_value(input@) matches Some(v) ==> r matches Ok(ChurchValue::Number(n)) && n == v,
            i16_text_value(input@) is None ==> r == Err::<ChurchValue, ChurchParseError>(
                ChurchParseError::IntParseError,
            ),
    {
        let cs = chars_of(input);
        match i16_of_chars(&cs) {
            Some(n) => Ok(ChurchValue::Number(n)),
            None => Err(ChurchParseError::IntParseError),
        }
    }

    /// Appends the texts of `items`, with `sep` between each two.
    fn push_joined(out: &mut String, items: &Vec<ChurchValue>, sep: &str)
        ensures
            final(out)@ == old(out)@ + render_joined(terms_of(items@), sep@),
        decreases items,
    {
        proof {
            lemma_terms_of(items@);
        }
        let mut i: usize = 0;
        while i < items.len()
            invariant
                i <= items@.len(),
                terms_of(items@).len() == items@.len(),
                forall|j: int| 0 <= j < items@.len() ==> #[trigger] terms_of(items@)[j] == term_of(items@[j]),
                out@ == old(out)@ + render_joined(terms_of(items@).subrange(0, i as int), sep@),
            decreases items@.len() - i,
        {
            if i > 0 {
                append_str(out, sep);
            }
            proof {
                assert(decreases_to!(*items => items@[i as int]));
            }
            let text = items[i].to_string();
            append_str(out, text.as_str());
            proof {
                let ts = terms_of(items@);
                assert(ts.subrange(0, i + 1) =~= ts.subrange(0, i as int).push(ts[i as int]));
                lemma_render_joined_push(ts.subrange(0, i as int), ts[i as int], sep@);
            }
            i = i + 1;
        }
        assert(terms_of(items@).subrange(0, items@.len() as int) =~= terms_of(items@));
    }

    /// The text of this value, as `render` gives it.
    pub fn to_string(&self) -> (r: String)
        ensures
            r@ == render(self@),
        decreases self,
    {
        match self {
            ChurchValue::Number(n) => {
                let mut out = String::new();
                let m: i32 = *n as i32;
                if m < 0 {
                    push_char(&mut out, '-');
                    push_digits(&mut out, (-m) as u32);
                    assert(out@ =~= seq!['-'] + digits_of((-m) as nat));
                } else {
                    push_digits(&mut out, m as u32);
                    assert(out@ =~= digits_of(m as nat));
                }
                assert(out@ == render(self@));
                out
            },
            ChurchValue::Bool(b) => {
                let mut out = String::new();
                push_char(&mut out, '#');
                if *b {
                    push_char(&mut out, 't');
                } else {
                    push_char(&mut out, 'f');
                }
                assert(out@ =~= render(self@));
                out
            },
            ChurchValue::List(items) => {
                let mut out = String::new();
                let sep = ", ";
                proof {
                    reveal_strlit(", ");
                }
                assert(sep@ =~= seq![',', ' ']);
                Self::push_joined(&mut out, items, sep);
                assert(out@ =~= render(self@));
                out
            },
            ChurchValue::Func(name, args) => {
                let mut out = name.clone();
                let sep = " ";
                proof {
                    reveal_strlit(" ");
                }
                assert(sep@ =~= seq![' ']);
                Self::push_joined(&mut out, args, sep);
                assert(out@ =~= render(self@));
                out
            },
        }
    }
}

} // verus!
