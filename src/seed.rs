//! Values written on a command line to seed the environment: `"text"`, nested
//! `[a, b, ...]` arrays, numbers, `true` / `false`, an empty value for null, and anything
//! else as bare text.
use crate::ast::{Value, ValueModel};
use crate::ast::values_model;
use crate::lexer::{digit, is_whitespace, whitespace};
use crate::number::{digits_or_dots, is_digit, literal_number, parse_literal, NumberError};
use crate::text::{chars_of, string_of};
use vstd::prelude::*;

verus! {

#[derive(Clone, Copy, Debug, PartialEq, Eq, Structural)]
pub enum SeedError {
    /// A binding without `=` between name and value.
    MissingEquals,
    /// A value that starts with a digit but is not a number.
    MalformedNumber,
    /// A number too large to hold.
    NumberOutOfRange,
}

/// Without the first and the last character.
pub open spec fn inner(s: Seq<char>) -> Seq<char> {
    if s.len() >= 2 {
        s.subrange(1, s.len() - 1)
    } else {
        seq![]
    }
}

pub open spec fn trim_end(s: Seq<char>) -> Seq<char>
    decreases s.len(),
{
    if s.len() > 0 && is_whitespace(s.last()) {
        trim_end(s.drop_last())
    } else {
        s
    }
}

pub open spec fn trim_start(s: Seq<char>) -> Seq<char>
    decreases s.len(),
{
    if s.len() > 0 && is_whitespace(s[0]) {
        trim_start(s.drop_first())
    } else {
        s
    }
}

/// Without white space at either end, as `str::trim`.
pub open spec fn trim(s: Seq<char>) -> Seq<char> {
    trim_end(trim_start(s))
}

pub proof fn lemma_trim_end_len(s: Seq<char>)
    ensures
        trim_end(s).len() <= s.len(),
    decreases s.len(),
{
    if s.len() > 0 && is_whitespace(s.last()) {
        lemma_trim_end_len(s.drop_last());
    }
}

/// A seed value.
pub open spec fn seed_value(s: Seq<char>) -> Result<ValueModel, SeedError>
    decreases 2 * s.len() + 1, 0int,
{
    if s.len() > 0 && s[0] == '"' && s.last() == '"' {
        Ok(ValueModel::Str(inner(s)))
    } else if s.len() > 0 && s[0] == '[' && s.last() == ']' {
        match seed_array(inner(s), 0, seq![], None) {
            Ok((items, _)) => Ok(ValueModel::Array(items)),
            Err(e) => Err(e),
        }
    } else if s.len() == 0 {
        Ok(ValueModel::Null)
    } else if is_digit(s[0]) {
        if !digits_or_dots(s) {
            Err(SeedError::MalformedNumber)
        } else {
            match literal_number(s) {
                Ok(n) => Ok(ValueModel::Number(n)),
                Err(NumberError::Malformed) => Err(SeedError::MalformedNumber),
                Err(_) => Err(SeedError::NumberOutOfRange),
            }
        }
    } else if s == seq!['t', 'r', 'u', 'e'] {
        Ok(ValueModel::Boolean(true))
    } else if s == seq!['f', 'a', 'l', 's', 'e'] {
        Ok(ValueModel::Boolean(false))
    } else {
        Ok(ValueModel::Str(s))
    }
}

/// Ends the pending element `s[start..i]`, if any, and appends its value to `items`.
pub open spec fn flush(s: Seq<char>, i: int, items: Seq<ValueModel>, start: Option<int>) -> Result<
    Seq<ValueModel>,
    SeedError,
>
    decreases 2 * s.len() + 2, 0int,
{
    match start {
        None => Ok(items),
        Some(st) => if 0 <= st <= i <= s.len() {
            proof {
                lemma_trim_end_len(s.subrange(st, i));
            }
            match seed_value(trim_end(s.subrange(st, i))) {
                Ok(v) => Ok(items.push(v)),
                Err(e) => Err(e),
            }
        } else {
            Ok(items)
        },
    }
}

/// The elements of an array from `i` up to its `]` (consumed) or the end, appended to
/// `items`, with the position past the array. Elements are separated by commas; white
/// space before and after an element is dropped; a nested `[` starts an inner array.
pub open spec fn seed_array(s: Seq<char>, i: int, items: Seq<ValueModel>, start: Option<int>) -> Result<
    (Seq<ValueModel>, int),
    SeedError,
>
    decreases 2 * s.len() + 2, s.len() - i + 1,
{
    if i < 0 || i > s.len() {
        Ok((items, i))
    } else if i == s.len() {
        match flush(s, s.len() as int, items, start) {
            Ok(it) => Ok((it, s.len() as int)),
            Err(e) => Err(e),
        }
    } else if s[i] == '[' {
        match seed_array(s, i + 1, seq![], None) {
            Err(e) => Err(e),
            Ok((sub, j)) => if j <= i || j > s.len() {
                Ok((items, j))
            } else {
                seed_array(s, j, items.push(ValueModel::Array(sub)), None)
            },
        }
    } else if s[i] == ']' {
        match flush(s, i, items, start) {
            Ok(it) => Ok((it, i + 1)),
            Err(e) => Err(e),
        }
    } else if s[i] == ',' {
        match flush(s, i, items, start) {
            Ok(it) => seed_array(s, i + 1, it, None),
            Err(e) => Err(e),
        }
    } else if start is None && is_whitespace(s[i]) {
        seed_array(s, i + 1, items, None)
    } else {
        seed_array(
            s,
            i + 1,
            items,
            if start is None {
                Some(i)
            } else {
                start
            },
        )
    }
}

/// Position of the first `c` at or after `i`, or the end.
pub open spec fn find_char(s: Seq<char>, i: int, c: char) -> int
    decreases s.len() - i,
{
    if 0 <= i < s.len() && s[i] != c {
        find_char(s, i + 1, c)
    } else {
        i
    }
}

/// A binding `name=value`: the name is all before the first `=`, the value all after it,
/// trimmed.
pub open spec fn seed_argument(s: Seq<char>) -> Result<(Seq<char>, ValueModel), SeedError> {
    let e = find_char(s, 0, '=');
    if e >= s.len() {
        Err(SeedError::MissingEquals)
    } else {
        match seed_value(trim(s.subrange(e + 1, s.len() as int))) {
            Ok(v) => Ok((s.subrange(0, e), v)),
            Err(err) => Err(err),
        }
    }
}


// ---- reading seed values ---------------------------------------------------------------------

pub open spec fn seed_result(r: Result<Value, SeedError>) -> Result<ValueModel, SeedError> {
    match r {
        Ok(v) => Ok(v@),
        Err(e) => Err(e),
    }
}

pub open spec fn relative(start: Option<usize>, lo: usize) -> Option<int> {
    match start {
        Some(st) => Some(st - lo),
        None => None,
    }
}

proof fn lemma_values_model_push(s: Seq<Value>, v: Value)
    ensures
        values_model(s.push(v)) == values_model(s).push(v@),
{
    assert(s.push(v).drop_last() =~= s);
}

/// End of `c[a..b]` once trailing white space is dropped.
fn trimmed_end(c: &Vec<char>, a: usize, b: usize) -> (e: usize)
    requires
        a <= b <= c.len(),
    ensures
        a <= e <= b,
        trim_end(c@.subrange(a as int, b as int)) == c@.subrange(a as int, e as int),
{
    let mut k = b;
    while k > a && whitespace(c[k - 1])
        invariant
            a <= k <= b <= c.len(),
            trim_end(c@.subrange(a as int, b as int)) == trim_end(c@.subrange(a as int, k as int)),
        decreases k,
    {
        assert(c@.subrange(a as int, k as int).drop_last() =~= c@.subrange(a as int, k - 1));
        k = k - 1;
    }
    k
}

/// Start of `c[a..b]` once leading white space is dropped.
fn trimmed_start(c: &Vec<char>, a: usize, b: usize) -> (s: usize)
    requires
        a <= b <= c.len(),
    ensures
        a <= s <= b,
        trim_start(c@.subrange(a as int, b as int)) == c@.subrange(s as int, b as int),
{
    let mut k = a;
    while k < b && whitespace(c[k])
        invariant
            a <= k <= b <= c.len(),
            trim_start(c@.subrange(a as int, b as int)) == trim_start(c@.subrange(k as int, b as int)),
        decreases b - k,
    {
        assert(c@.subrange(k as int, b as int).drop_first() =~= c@.subrange(k + 1, b as int));
        k = k + 1;
    }
    k
}

fn value_in(c: &Vec<char>, lo: usize, hi: usize) -> (r: Result<Value, SeedError>)
    requires
        lo <= hi <= c.len(),
    ensures
        seed_result(r) == seed_value(c@.subrange(lo as int, hi as int)),
    decreases 2 * (hi - lo) + 1, 0int,
{
    let ghost w = c@.subrange(lo as int, hi as int);
    if hi > lo && c[lo] == '"' && c[hi - 1] == '"' {
        if hi - lo >= 2 {
            assert(inner(w) =~= c@.subrange(lo + 1, hi - 1));
            Ok(Value::String(string_of(c, lo + 1, hi - 1)))
        } else {
            assert(inner(w) =~= Seq::<char>::empty());
            Ok(Value::String(String::new()))
        }
    } else if hi > lo && c[lo] == '[' && c[hi - 1] == ']' {
        assert(inner(w) =~= c@.subrange(lo + 1, hi - 1));
        proof {
            lemma_values_model_empty();
        }
        match array_in(c, lo + 1, hi - 1, lo + 1, Vec::new(), None) {
            Ok((items, _)) => Ok(Value::Array(items)),
            Err(e) => Err(e),
        }
    } else if hi == lo {
        Ok(Value::Null)
    } else if digit(c[lo]) {
        assert(!digits_or_dots(w) ==> seed_value(w) == Err::<ValueModel, SeedError>(
            SeedError::MalformedNumber,
        ));
        let mut k = lo;
        while k < hi
            invariant
                lo <= k <= hi <= c.len(),
                w == c@.subrange(lo as int, hi as int),
                !digits_or_dots(w) ==> seed_value(w) == Err::<ValueModel, SeedError>(
                    SeedError::MalformedNumber,
                ),
                digits_or_dots(c@.subrange(lo as int, k as int)),
            decreases hi - k,
        {
            if !(digit(c[k]) || c[k] == '.') {
                assert(!(is_digit(w[k - lo]) || w[k - lo] == '.'));
                assert(!digits_or_dots(w));
                return Err(SeedError::MalformedNumber);
            }
            k = k + 1;
            assert forall|q: int| 0 <= q < k - lo implies is_digit(
                #[trigger] c@.subrange(lo as int, k as int)[q],
            ) || c@.subrange(lo as int, k as int)[q] == '.' by {
                if q < k - 1 - lo {
                    assert(c@.subrange(lo as int, k as int)[q] == c@.subrange(
                        lo as int,
                        k - 1,
                    )[q]);
                }
            }
        }
        match parse_literal(c, lo, hi) {
            Ok(n) => Ok(Value::Number(n)),
            Err(NumberError::Malformed) => Err(SeedError::MalformedNumber),
            Err(_) => Err(SeedError::NumberOutOfRange),
        }
    } else if hi - lo == 4 && c[lo] == 't' && c[lo + 1] == 'r' && c[lo + 2] == 'u' && c[lo + 3]
        == 'e' {
        assert(w =~= seq!['t', 'r', 'u', 'e']);
        Ok(Value::Boolean(true))
    } else if hi - lo == 5 && c[lo] == 'f' && c[lo + 1] == 'a' && c[lo + 2] == 'l' && c[lo + 3]
        == 's' && c[lo + 4] == 'e' {
        assert(w =~= seq!['f', 'a', 'l', 's', 'e']);
        Ok(Value::Boolean(false))
    } else {
        proof {
            if w == seq!['t', 'r', 'u', 'e'] {
                assert(w[0] == 't' && w[1] == 'r' && w[2] == 'u' && w[3] == 'e');
            }
            if w == seq!['f', 'a', 'l', 's', 'e'] {
                assert(w[0] == 'f' && w[1] == 'a' && w[2] == 'l' && w[3] == 's' && w[4] == 'e');
            }
        }
        Ok(Value::String(string_of(c, lo, hi)))
    }
}

proof fn lemma_values_model_empty()
    ensures
        values_model(Seq::<Value>::empty()) == Seq::<ValueModel>::empty(),
{
}

fn flush_in(
    c: &Vec<char>,
    lo: usize,
    hi: usize,
    i: usize,
    items: &mut Vec<Value>,
    start: Option<usize>,
) -> (r: Result<(), SeedError>)
    requires
        lo <= i <= hi <= c.len(),
        start matches Some(st) ==> lo <= st <= i,
    ensures
        match flush(
            c@.subrange(lo as int, hi as int),
            i - lo,
            values_model(old(items)@),
            relative(start, lo),
        ) {
            Ok(its) => r is Ok && values_model(final(items)@) == its,
            Err(e) => r == Err::<(), SeedError>(e),
        },
    decreases 2 * (hi - lo) + 2, 0int,
{
    match start {
        None => Ok(()),
        Some(st) => {
            let e = trimmed_end(c, st, i);
            assert(c@.subrange(lo as int, hi as int).subrange(st - lo, i - lo) =~= c@.subrange(
                st as int,
                i as int,
            ));
            match value_in(c, st, e) {
                Ok(v) => {
                    proof {
                        lemma_values_model_push(items@, v);
                    }
                    items.push(v);
                    Ok(())
                },
                Err(err) => Err(err),
            }
        },
    }
}

fn array_in(
    c: &Vec<char>,
    lo: usize,
    hi: usize,
    i: usize,
    items: Vec<Value>,
    start: Option<usize>,
) -> (r: Result<(Vec<Value>, usize), SeedError>)
    requires
        lo <= i <= hi <= c.len(),
        start matches Some(st) ==> lo <= st <= i,
    ensures
        match seed_array(
            c@.subrange(lo as int, hi as int),
            i - lo,
            values_model(items@),
            relative(start, lo),
        ) {
            Ok((its, j)) => r matches Ok((v, k)) && values_model(v@) == its && k - lo == j && i
                <= k <= hi,
            Err(e) => r == Err::<(Vec<Value>, usize), SeedError>(e),
        },
    decreases 2 * (hi - lo) + 2, hi - i + 1,
{
    let ghost w = c@.subrange(lo as int, hi as int);
    let ghost goal = seed_array(w, i - lo, values_model(items@), relative(start, lo));
    let mut acc = items;
    let mut pending = start;
    let mut p = i;
    loop
        invariant
            lo <= i <= p <= hi <= c.len(),
            w == c@.subrange(lo as int, hi as int),
            pending matches Some(st) ==> lo <= st <= p,
            goal == seed_array(w, p - lo, values_model(acc@), relative(pending, lo)),
            goal == seed_array(w, i - lo, values_model(items@), relative(start, lo)),
        decreases hi - p,
    {
        if p == hi {
            return match flush_in(c, lo, hi, p, &mut acc, pending) {
                Ok(()) => Ok((acc, hi)),
                Err(e) => Err(e),
            };
        }
        let ch = c[p];
        assert(w[p - lo] == ch);
        if ch == '[' {
            proof {
                lemma_values_model_empty();
            }
            let (sub, j) = match array_in(c, lo, hi, p + 1, Vec::new(), None) {
                Ok(x) => x,
                Err(e) => return Err(e),
            };
            let ghost before = acc@;
            let nested = Value::Array(sub);
            proof {
                lemma_values_model_push(before, nested);
            }
            acc.push(nested);
            pending = None;
            p = j;
        } else if ch == ']' {
            return match flush_in(c, lo, hi, p, &mut acc, pending) {
                Ok(()) => Ok((acc, p + 1)),
                Err(e) => Err(e),
            };
        } else if ch == ',' {
            match flush_in(c, lo, hi, p, &mut acc, pending) {
                Ok(()) => {},
                Err(e) => return Err(e),
            }
            pending = None;
            p = p + 1;
        } else if pending.is_none() && whitespace(ch) {
            p = p + 1;
        } else {
            if pending.is_none() {
                pending = Some(p);
            }
            p = p + 1;
        }
    }
}

/// Reads a seed value.
pub fn parse_value(value: &str) -> (r: Result<Value, SeedError>)
    ensures
        seed_result(r) == seed_value(value@),
{
    let c = chars_of(value);
    assert(c@.subrange(0, c.len() as int) =~= value@);
    value_in(&c, 0, c.len())
}

/// Reads the elements of an array written without its outer brackets.
pub fn parse_array(inner: &str) -> (r: Result<Value, SeedError>)
    ensures
        match seed_array(inner@, 0, seq![], None) {
            Ok((items, _)) => r matches Ok(v) && v@ == ValueModel::Array(items),
            Err(e) => r == Err::<Value, SeedError>(e),
        },
{
    let c = chars_of(inner);
    assert(c@.subrange(0, c.len() as int) =~= inner@);
    proof {
        lemma_values_model_empty();
    }
    match array_in(&c, 0, c.len(), 0, Vec::new(), None) {
        Ok((items, _)) => Ok(Value::Array(items)),
        Err(e) => Err(e),
    }
}

/// Reads a binding `name=value`.
pub fn parse_argument(param: &str) -> (r: Result<(String, Value), SeedError>)
    ensures
        match seed_argument(param@) {
            Ok((name, v)) => r matches Ok((n, x)) && n@ == name && x@ == v,
            Err(e) => r == Err::<(String, Value), SeedError>(e),
        },
{
    let c = chars_of(param);
    let mut e: usize = 0;
    while e < c.len() && c[e] != '='
        invariant
            e <= c.len(),
            c@ == param@,
            find_char(c@, e as int, '=') == find_char(c@, 0, '='),
        decreases c.len() - e,
    {
        e = e + 1;
    }
    if e >= c.len() {
        return Err(SeedError::MissingEquals);
    }
    let a = trimmed_start(&c, e + 1, c.len());
    let b = trimmed_end(&c, a, c.len());
    match value_in(&c, a, b) {
        Ok(v) => Ok((string_of(&c, 0, e), v)),
        Err(err) => Err(err),
    }
}

} // verus!
