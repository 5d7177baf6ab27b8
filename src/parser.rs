//! Reading Church expressions, with the arguments of an application handed to
//! an evaluator as they are read.
use vstd::prelude::*;
use crate::syntax::{
    Reading, alnum_run, app_args, app_start, arg_term, church_run, is_church_char, list_literal,
    list_token_len, list_tokens, literal_term, reading, char_is_alphanumeric, church_char,
    lemma_church_run_bound, lemma_alnum_run_bound,
};
use crate::text::{chars_of, slice_of, string_of};
use crate::value::{
    ChurchParseError, ChurchValue, Term, all_digits, digits_value, i16_of_chars, i16_text_value,
    capped_digits_value, lemma_terms_of, term_of, terms_of,
};

verus! {

/// `eval` may give `res` for the value that the argument token `t` reads as.
pub open spec fn evaluates<F, E>(eval: F, t: Seq<char>, res: Result<ChurchValue, E>) -> bool where
    F: Fn(ChurchValue) -> Result<ChurchValue, E>,
 {
    exists|a: ChurchValue| a@ == arg_term(t)->0 && #[trigger] call_ensures(eval, (a,), res)
}

/// The argument token `t` reads as a value, which `eval` may turn into `out`.
pub open spec fn arg_evaluates<F, E>(eval: F, t: Seq<char>, out: ChurchValue) -> bool where
    F: Fn(ChurchValue) -> Result<ChurchValue, E>,
 {
    arg_term(t) is Some && evaluates(eval, t, Ok::<ChurchValue, E>(out))
}

/// The argument token `t` reads as a value, on which `eval` may succeed.
pub open spec fn arg_succeeds<F, E>(eval: F, t: Seq<char>) -> bool where
    F: Fn(ChurchValue) -> Result<ChurchValue, E>,
 {
    exists|out: ChurchValue| #[trigger] arg_evaluates(eval, t, out)
}

/// The argument token `t` does not read as a value, or `eval` may fail on it.
pub open spec fn arg_fails<F, E>(eval: F, t: Seq<char>) -> bool where
    F: Fn(ChurchValue) -> Result<ChurchValue, E>,
 {
    arg_term(t) is None || exists|e: E| #[trigger] evaluates(eval, t, Err::<ChurchValue, E>(e))
}

/// The result of applying `name` to the tokens `toks`, each read and then
/// evaluated from left to right: the application with every evaluated
/// argument in order, or a `ParseError` at the first token that fails.
pub open spec fn applied<F, E>(
    eval: F,
    name: Seq<char>,
    toks: Seq<Seq<char>>,
    r: Result<ChurchValue, ChurchParseError>,
) -> bool where F: Fn(ChurchValue) -> Result<ChurchValue, E> {
    match r {
        Ok(v) => match v {
            ChurchValue::Func(f, args) => {
                &&& f@ == name
                &&& args@.len() == toks.len()
                &&& forall|i: int|
                    0 <= i < toks.len() ==> #[trigger] arg_evaluates(eval, toks[i], args@[i])
            },
            _ => false,
        },
        Err(e) => {
            &&& e == ChurchParseError::ParseError
            &&& exists|k: int|
                0 <= k < toks.len() && (forall|i: int|
                    0 <= i < k ==> #[trigger] arg_succeeds(eval, toks[i])) && #[trigger] arg_fails(
                    eval,
                    toks[k],
                )
        },
    }
}

/// `r` is what reading `s` gives, with `eval` as the evaluator.
pub open spec fn reads_as<F, E>(s: Seq<char>, eval: F, r: Result<ChurchValue, ChurchParseError>) -> bool where
    F: Fn(ChurchValue) -> Result<ChurchValue, E>,
 {
    match reading(s) {
        Reading::Value(t) => r matches Ok(v) && v@ == t,
        Reading::Failed(e) => r == Err::<ChurchValue, ChurchParseError>(e),
        Reading::Apply(name, toks) => applied(eval, name, toks, r),
    }
}

/// The texts of `s` between the bounds `b`.
pub open spec fn texts_at(s: Seq<char>, b: Seq<(usize, usize)>) -> Seq<Seq<char>> {
    b.map_values(|p: (usize, usize)| s.subrange(p.0 as int, p.1 as int))
}

pub open spec fn prepend(
    acc: Seq<Seq<char>>,
    o: Option<Seq<Seq<char>>>,
) -> Option<Seq<Seq<char>>> {
    match o {
        Some(rest) => Some(acc + rest),
        None => None,
    }
}

/// Every character of a run that `church_run` measures may stand in a token.
pub proof fn lemma_church_run_chars(s: Seq<char>, i: nat)
    ensures
        forall|j: int| i <= j < i + church_run(s, i) ==> church_char(#[trigger] s[j]),
    decreases s.len() - i,
{
    if i < s.len() && church_char(s[i as int]) {
        lemma_church_run_chars(s, i + 1);
    }
}

/// A run of application-token characters measured from its first character.
pub proof fn lemma_church_run_whole(t: Seq<char>, i: nat)
    requires
        i <= t.len(),
        forall|j: int| 0 <= j < t.len() ==> church_char(#[trigger] t[j]),
    ensures
        church_run(t, i) == t.len() - i,
    decreases t.len() - i,
{
    if i < t.len() {
        lemma_church_run_whole(t, i + 1);
    }
}

/// A token made of application-token characters reads as its `arg_term`.
pub proof fn lemma_token_reading(t: Seq<char>)
    requires
        t.len() > 0,
        forall|j: int| 0 <= j < t.len() ==> church_char(#[trigger] t[j]),
    ensures
        arg_term(t) matches Some(a) ==> match a {
            Term::Number(_) => reading(t) == Reading::Value(a),
            _ => reading(t) == Reading::Apply(t, Seq::<Seq<char>>::empty()),
        },
        arg_term(t) is None ==> reading(t) == Reading::Failed(ChurchParseError::IntParseError),
{
    assert(church_char(t[0]));
    assert(t[0] != '#' && t[0] != '(') by {
        assert(!church_char('#'));
        assert(!church_char('('));
    }
    lemma_church_run_whole(t, 0);
    assert(t.subrange(0, t.len() as int) =~= t);
    assert(app_args(t, t.len()) =~= Seq::<Seq<char>>::empty());
}

/// What reading a token as the element of a list gives.
pub proof fn lemma_literal_reading<F, E>(
    t: Seq<char>,
    eval: F,
    r: Result<ChurchValue, ChurchParseError>,
) where F: Fn(ChurchValue) -> Result<ChurchValue, E>
    requires
        reads_as(t, eval, r),
    ensures
        literal_term(t) is Some ==> (r matches Ok(v) && (v is Number || v is Bool) && v@
            == literal_term(t)->0),
        literal_term(t) is None ==> !(r matches Ok(v) && (v is Number || v is Bool)),
{
    if let Ok(v) = r {
        match v {
            ChurchValue::Number(_) => {},
            ChurchValue::Bool(_) => {},
            _ => {},
        }
    }
}

/// The length of the run of application-token characters from `i`.
fn church_run_at(s: &Vec<char>, i: usize) -> (n: usize)
    requires
        i <= s@.len(),
    ensures
        n == church_run(s@, i as nat),
{
    let mut j: usize = i;
    while j < s.len() && is_church_char(s[j])
        invariant
            i <= j <= s@.len(),
            (j - i) + church_run(s@, j as nat) == church_run(s@, i as nat),
        decreases s@.len() - j,
    {
        j = j + 1;
    }
    j - i
}

/// The length of the run of alphanumeric characters from `i`.
fn alnum_run_at(s: &Vec<char>, i: usize) -> (n: usize)
    requires
        i <= s@.len(),
    ensures
        n == alnum_run(s@, i as nat),
{
    let mut j: usize = i;
    while j < s.len() && char_is_alphanumeric(s[j])
        invariant
            i <= j <= s@.len(),
            (j - i) + alnum_run(s@, j as nat) == alnum_run(s@, i as nat),
        decreases s@.len() - j,
    {
        j = j + 1;
    }
    j - i
}

/// The length of the list token from `i`.
fn list_token_len_at(s: &Vec<char>, i: usize) -> (n: usize)
    requires
        i <= s@.len(),
    ensures
        n == list_token_len(s@, i as nat),
        i + n <= s@.len(),
{
    proof {
        lemma_alnum_run_bound(s@, i as nat);
    }
    let a = alnum_run_at(s, i);
    if a > 0 {
        a
    } else if i < s.len() && i + 1 < s.len() && s[i] == '#' && (s[i + 1] == 't' || s[i + 1] == 'f') {
        2
    } else {
        0
    }
}

/// The bounds of the tokens of `s` when the whole of it is a list literal.
fn list_token_bounds(s: &Vec<char>) -> (r: Option<Vec<(usize, usize)>>)
    ensures
        r is Some <==> list_literal(s@) is Some,
        r matches Some(b) ==> texts_at(s@, b@) == list_literal(s@)->0 && forall|k: int|
            0 <= k < b@.len() ==> 1 <= (#[trigger] b@[k]).0 <= b@[k].1 < s@.len(),
{
    let n = s.len();
    if !(n > 0 && s[0] == '(') {
        return None;
    }
    let mut b: Vec<(usize, usize)> = Vec::new();
    let mut i: usize = 1;
    assert(texts_at(s@, b@) =~= Seq::<Seq<char>>::empty());
    assert(prepend(Seq::empty(), list_tokens(s@, 1)) =~= list_tokens(s@, 1));
    loop
        invariant
            n == s@.len(),
            n > 0 && s@[0] == '(',
            1 <= i <= n,
            list_tokens(s@, 1) == prepend(texts_at(s@, b@), list_tokens(s@, i as nat)),
            forall|k: int| 0 <= k < b@.len() ==> 1 <= (#[trigger] b@[k]).0 <= b@[k].1 < n,
        decreases n - i,
    {
        let m = list_token_len_at(s, i);
        if m == 0 {
            return None;
        }
        let e = i + m;
        let ghost tok = s@.subrange(i as int, e as int);
        if e < n && s[e] == ',' {
            let ghost old_b = b@;
            b.push((i, e));
            proof {
                assert(texts_at(s@, b@) =~= texts_at(s@, old_b).push(tok));
                if let Some(rest) = list_tokens(s@, (e + 1) as nat) {
                    assert(texts_at(s@, old_b) + (seq![tok] + rest) =~= texts_at(s@, b@) + rest);
                }
            }
            i = e + 1;
        } else if e < n && e + 1 == n && s[e] == ')' {
            let ghost old_b = b@;
            b.push((i, e));
            proof {
                assert(texts_at(s@, b@) =~= texts_at(s@, old_b) + seq![tok]);
            }
            return Some(b);
        } else {
            return None;
        }
    }
}

/// Reads each token of a list literal as a whole expression; each must be a
/// boolean or a number. `None` where `s` is not a list literal.
fn read_list<F, E>(s: &Vec<char>, eval: &F) -> (r: Option<Result<ChurchValue, ChurchParseError>>) where
    F: Fn(ChurchValue) -> Result<ChurchValue, E>,

    requires
        forall|a: ChurchValue| call_requires(*eval, (a,)),
    ensures
        r is None <==> list_literal(s@) is None,
        r matches Some(res) ==> {
            let toks = list_literal(s@)->0;
            if forall|i: int| 0 <= i < toks.len() ==> (#[trigger] literal_term(toks[i])) is Some {
                (res matches Ok(v) && v@ == Term::List(
                    toks.map_values(|t: Seq<char>| literal_term(t)->0),
                ))
            } else {
                res == Err::<ChurchValue, ChurchParseError>(ChurchParseError::ListParseError)
            }
        },
    decreases s@.len(), 0nat,
{
    let bounds = match list_token_bounds(s) {
        Some(b) => b,
        None => return None,
    };
    let ghost toks = list_literal(s@)->0;
    let mut items: Vec<ChurchValue> = Vec::new();
    let mut k: usize = 0;
    while k < bounds.len()
        invariant
            k <= bounds@.len(),
            list_literal(s@) == Some(toks),
            toks == texts_at(s@, bounds@),
            forall|j: int| 0 <= j < bounds@.len() ==> 1 <= (#[trigger] bounds@[j]).0 <= bounds@[j].1 < s@.len(),
            forall|a: ChurchValue| call_requires(*eval, (a,)),
            items@.len() == k,
            forall|j: int| 0 <= j < k ==> (#[trigger] literal_term(toks[j])) is Some && items@[j]@ == literal_term(toks[j])->0,
        decreases bounds@.len() - k,
    {
        let (lo, hi) = bounds[k];
        let tok = slice_of(s, lo, hi);
        let parsed = read_chars(&tok, eval);
        proof {
            lemma_literal_reading(tok@, *eval, parsed);
            assert(toks[k as int] == tok@);
        }
        match parsed {
            Ok(v) => {
                match v {
                    ChurchValue::Number(_) => items.push(v),
                    ChurchValue::Bool(_) => items.push(v),
                    _ => {
                        assert(literal_term(toks[k as int]) is None);
                        return Some(Err(ChurchParseError::ListParseError));
                    },
                }
            },
            Err(_) => {
                assert(literal_term(toks[k as int]) is None);
                return Some(Err(ChurchParseError::ListParseError));
            },
        }
        k = k + 1;
    }
    proof {
        lemma_terms_of(items@);
        assert(terms_of(items@) =~= toks.map_values(|t: Seq<char>| literal_term(t)->0));
    }
    Some(Ok(ChurchValue::List(Box::new(items))))
}

/// Reads an application: its name, then each argument token, read and handed
/// to `eval` from left to right until one fails.
fn read_application<F, E>(s: &Vec<char>, eval: &F) -> (r: Result<ChurchValue, ChurchParseError>) where
    F: Fn(ChurchValue) -> Result<ChurchValue, E>,

    requires
        forall|a: ChurchValue| call_requires(*eval, (a,)),
        s@ != seq!['#', 't'],
        s@ != seq!['#', 'f'],
        !all_digits(s@),
        list_literal(s@) is None,
    ensures
        reads_as(s@, *eval, r),
    decreases s@.len(), 0nat,
{
    let n = s.len();
    let st: usize = if n > 0 && s[0] == '(' {
        1
    } else {
        0
    };
    let m = church_run_at(s, st);
    if m == 0 {
        return Err(ChurchParseError::ParseError);
    }
    proof {
        lemma_church_run_bound(s@, st as nat);
    }
    let name = string_of(s, st, st + m);
    let ghost toks = app_args(s@, (st + m) as nat);
    let mut args: Vec<ChurchValue> = Vec::new();
    let mut p: usize = st + m;
    assert(toks.subrange(0, 0) + app_args(s@, p as nat) =~= toks);
    assert(reading(s@) == Reading::Apply(name@, toks));
    loop
        invariant
            n == s@.len(),
            reading(s@) == Reading::Apply(name@, toks),
            p <= n,
            forall|a: ChurchValue| call_requires(*eval, (a,)),
            args@.len() <= toks.len(),
            app_args(s@, p as nat) == toks.subrange(args@.len() as int, toks.len() as int),
            forall|i: int| 0 <= i < args@.len() ==> #[trigger] arg_evaluates(*eval, toks[i], args@[i]),
        ensures
            args@.len() == toks.len(),
            forall|i: int| 0 <= i < args@.len() ==> #[trigger] arg_evaluates(*eval, toks[i], args@[i]),
        decreases n - p,
    {
        if p < n && s[p] == ' ' {
            let k = church_run_at(s, p + 1);
            if k > 0 {
                proof {
                    lemma_church_run_bound(s@, (p + 1) as nat);
                    lemma_church_run_chars(s@, (p + 1) as nat);
                }
                let tok = slice_of(s, p + 1, p + 1 + k);
                let ghost rest = toks.subrange(args@.len() as int, toks.len() as int);
                proof {
                    assert(app_args(s@, p as nat) == seq![tok@] + app_args(s@, (p + 1 + k) as nat));
                    assert(rest =~= seq![tok@] + app_args(s@, (p + 1 + k) as nat));
                    assert(rest.len() == toks.len() - args@.len());
                    assert(args@.len() < toks.len());
                    assert(rest.subrange(1, rest.len() as int) =~= app_args(s@, (p + 1 + k) as nat));
                    assert(toks.subrange(args@.len() + 1 as int, toks.len() as int) =~= rest.subrange(1, rest.len() as int));
                    assert(rest[0] == tok@);
                    assert(toks[args@.len() as int] == tok@);
                    assert forall|j: int| 0 <= j < tok@.len() implies church_char(#[trigger] tok@[j]) by {
                        assert(tok@[j] == s@[p + 1 + j]);
                    }
                    lemma_token_reading(tok@);
                }
                let parsed = read_chars(&tok, eval);
                match parsed {
                    Ok(a) => {
                        proof {
                            if let Some(t) = arg_term(tok@) {
                                if let Term::Func(_, _) = t {
                                    assert(applied(*eval, tok@, Seq::<Seq<char>>::empty(), parsed));
                                    if a is Func {
                                        assert(terms_of(a->Func_1@) =~= Seq::<Term>::empty());
                                    }
                                }
                            }
                        }
                        let res = eval(a);
                        match res {
                            Ok(out) => {
                                proof {
                                    assert(evaluates(*eval, tok@, Ok::<ChurchValue, E>(out)));
                                }
                                let ghost old_args = args@;
                                args.push(out);
                                proof {
                                    assert(arg_evaluates(*eval, toks[old_args.len() as int], out));
                                    assert(app_args(s@, (p + 1 + k) as nat) =~= toks.subrange(args@.len() as int, toks.len() as int));
                                    assert forall|i: int| 0 <= i < args@.len() implies #[trigger] arg_evaluates(*eval, toks[i], args@[i]) by {
                                        if i < old_args.len() {
                                            assert(args@[i] == old_args[i]);
                                        }
                                    }
                                }
                                p = p + 1 + k;
                            },
                            Err(e) => {
                                proof {
                                    assert(evaluates(*eval, tok@, Err::<ChurchValue, E>(e)));
                                    assert(arg_fails(*eval, toks[args@.len() as int]));
                                    assert forall|i: int| 0 <= i < args@.len() implies #[trigger] arg_succeeds(*eval, toks[i]) by {
                                        assert(arg_evaluates(*eval, toks[i], args@[i]));
                                    }
                                    let kk = args@.len() as int;
                                    assert(0 <= kk < toks.len() && (forall|i: int| 0 <= i < kk ==> #[trigger] arg_succeeds(*eval, toks[i])) && arg_fails(*eval, toks[kk]));
                                }
                                return Err(ChurchParseError::ParseError);
                            },
                        }
                    },
                    Err(_) => {
                        proof {
                            assert(arg_fails(*eval, toks[args@.len() as int]));
                            assert forall|i: int| 0 <= i < args@.len() implies #[trigger] arg_succeeds(*eval, toks[i]) by {
                                assert(arg_evaluates(*eval, toks[i], args@[i]));
                            }
                            let kk = args@.len() as int;
                            assert(0 <= kk < toks.len() && (forall|i: int| 0 <= i < kk ==> #[trigger] arg_succeeds(*eval, toks[i])) && arg_fails(*eval, toks[kk]));
                        }
                        return Err(ChurchParseError::ParseError);
                    },
                }
            } else {
                assert(app_args(s@, p as nat) =~= Seq::<Seq<char>>::empty());
                break;
            }
        } else {
            assert(app_args(s@, p as nat) =~= Seq::<Seq<char>>::empty());
            break;
        }
    }
    Ok(ChurchValue::Func(name, Box::new(args)))
}

/// Reads the whole of `s`: a boolean, a number, a list of literals, or else an
/// application.
fn read_chars<F, E>(s: &Vec<char>, eval: &F) -> (r: Result<ChurchValue, ChurchParseError>) where
    F: Fn(ChurchValue) -> Result<ChurchValue, E>,

    requires
        forall|a: ChurchValue| call_requires(*eval, (a,)),
    ensures
        reads_as(s@, *eval, r),
    decreases s@.len(), 1nat,
{
    let n = s.len();
    if n == 2 && s[0] == '#' && s[1] == 't' {
        assert(s@ =~= seq!['#', 't']);
        return Ok(ChurchValue::Bool(true));
    }
    if n == 2 && s[0] == '#' && s[1] == 'f' {
        assert(s@ =~= seq!['#', 'f']);
        return Ok(ChurchValue::Bool(false));
    }
    assert(s@.subrange(0, n as int) =~= s@);
    if capped_digits_value(s, 0, n).is_some() {
        assert(s@[0] != '-' && s@[0] != '+');
        return match i16_of_chars(s) {
            Some(v) => Ok(ChurchValue::Number(v)),
            None => Err(ChurchParseError::IntParseError),
        };
    }
    match read_list(s, eval) {
        Some(res) => res,
        None => read_application(s, eval),
    }
}

/// Reads a Church expression. The arguments of an application are each read
/// and then handed to `eval`, from left to right; the first failure ends the
/// reading with a `ParseError`.
pub fn read_expr<F, E>(input: &str, eval: &F) -> (r: Result<ChurchValue, ChurchParseError>) where
    F: Fn(ChurchValue) -> Result<ChurchValue, E>,

    requires
        forall|a: ChurchValue| call_requires(*eval, (a,)),
    ensures
        reads_as(input@, *eval, r),
{
    let cs = chars_of(input);
    read_chars(&cs, eval)
}

} // verus!
