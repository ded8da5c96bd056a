//! Exact fixed-point numbers: a value is held as a whole count of millionths.
use vstd::prelude::*;

verus! {

/// Largest whole part that a literal may carry.
pub const MAX_WHOLE: u64 = 9223372036854;

/// Millionths in one unit.
pub open spec fn scale() -> int {
    1000000
}

/// A number of the template language, `scaled / 1_000_000`.
#[derive(Clone, Copy, Debug, PartialEq, Eq, Structural)]
pub struct Number {
    pub scaled: i64,
}

#[derive(Clone, Copy, Debug, PartialEq, Eq, Structural)]
pub enum NumberError {
    /// The result does not fit the representable range.
    OutOfRange,
    /// Division or remainder by zero.
    DivisionByZero,
    /// A numeric literal with more than one dot, or without digits.
    Malformed,
}

/// The representable range is symmetric, so negation never leaves it.
pub open spec fn fits(v: int) -> bool {
    -9223372036854775807 <= v <= 9223372036854775807
}

pub open spec fn checked(v: int) -> Result<Number, NumberError> {
    if fits(v) {
        Ok(Number { scaled: v as i64 })
    } else {
        Err(NumberError::OutOfRange)
    }
}

pub open spec fn abs(v: int) -> nat {
    if v < 0 {
        (-v) as nat
    } else {
        v as nat
    }
}

/// Division rounding toward zero.
pub open spec fn trunc_div(a: int, b: int) -> int {
    let q = abs(a) / abs(b);
    if (a < 0) != (b < 0) {
        -(q as int)
    } else {
        q as int
    }
}

/// Remainder with the sign of the dividend, as `%` on floats.
pub open spec fn trunc_rem(a: int, b: int) -> int {
    let r = abs(a) % abs(b);
    if a < 0 {
        -(r as int)
    } else {
        r as int
    }
}

pub open spec fn spec_add(a: Number, b: Number) -> Result<Number, NumberError> {
    checked(a.scaled + b.scaled)
}

pub open spec fn spec_sub(a: Number, b: Number) -> Result<Number, NumberError> {
    checked(a.scaled - b.scaled)
}

pub open spec fn spec_mul(a: Number, b: Number) -> Result<Number, NumberError> {
    checked(trunc_div(a.scaled * b.scaled, scale()))
}

pub open spec fn spec_div(a: Number, b: Number) -> Result<Number, NumberError> {
    if b.scaled == 0 {
        Err(NumberError::DivisionByZero)
    } else {
        checked(trunc_div(a.scaled * scale(), b.scaled as int))
    }
}

pub open spec fn spec_rem(a: Number, b: Number) -> Result<Number, NumberError> {
    if b.scaled == 0 {
        Err(NumberError::DivisionByZero)
    } else {
        checked(trunc_rem(a.scaled as int, b.scaled as int))
    }
}

pub open spec fn spec_neg(a: Number) -> Result<Number, NumberError> {
    checked(-a.scaled)
}

// ---- decimal text -------------------------------------------------------------------------

pub open spec fn digit_char(d: nat) -> char {
    if d == 0 {
        '0'
    } else if d == 1 {
        '1'
    } else if d == 2 {
        '2'
    } else if d == 3 {
        '3'
    } else if d == 4 {
        '4'
    } else if d == 5 {
        '5'
    } else if d == 6 {
        '6'
    } else if d == 7 {
        '7'
    } else if d == 8 {
        '8'
    } else {
        '9'
    }
}

pub open spec fn is_digit(c: char) -> bool {
    48 <= c as u32 <= 57
}

pub open spec fn digit_value(c: char) -> nat {
    (c as u32 - 48) as nat
}

/// Decimal digits of `n`, without leading zeros ("0" for zero).
pub open spec fn decimal(n: nat) -> Seq<char>
    decreases n,
{
    if n < 10 {
        seq![digit_char(n)]
    } else {
        decimal(n / 10).push(digit_char(n % 10))
    }
}

/// The lowest `k` decimal digits of `n`, with leading zeros.
pub open spec fn padded(n: nat, k: nat) -> Seq<char>
    decreases k,
{
    if k == 0 {
        seq![]
    } else {
        padded(n / 10, (k - 1) as nat).push(digit_char(n % 10))
    }
}

/// A fraction of `k` digits, without its trailing zeros.
pub open spec fn fraction_text(f: nat, k: nat) -> Seq<char>
    decreases k,
{
    if k > 0 && f % 10 == 0 {
        fraction_text(f / 10, (k - 1) as nat)
    } else {
        padded(f, k)
    }
}

pub open spec fn magnitude_text(m: nat) -> Seq<char> {
    let f = m % 1000000;
    if f == 0 {
        decimal(m / 1000000)
    } else {
        decimal(m / 1000000) + seq!['.'] + fraction_text(f, 6)
    }
}

/// Shortest decimal text of a number: whole part, then the fraction without trailing zeros.
pub open spec fn number_text(n: Number) -> Seq<char> {
    if n.scaled < 0 {
        seq!['-'] + magnitude_text(abs(n.scaled as int))
    } else {
        magnitude_text(n.scaled as nat)
    }
}

// ---- literals ------------------------------------------------------------------------------

/// Value of a run of decimal digits.
pub open spec fn digits_value(s: Seq<char>) -> nat
    decreases s.len(),
{
    if s.len() == 0 {
        0
    } else {
        digits_value(s.drop_last()) * 10 + digit_value(s.last())
    }
}

pub open spec fn pow10(k: nat) -> nat
    decreases k,
{
    if k == 0 {
        1
    } else {
        10 * pow10((k - 1) as nat)
    }
}

pub open spec fn min6(n: nat) -> nat {
    if n >= 6 {
        6
    } else {
        n
    }
}

/// The first six fractional digits, in millionths; later digits are dropped.
pub open spec fn fraction_value(s: Seq<char>) -> nat {
    let k = min6(s.len());
    digits_value(s.take(k as int)) * pow10((6 - k) as nat)
}

pub open spec fn all_digits(s: Seq<char>) -> bool {
    forall|i: int| 0 <= i < s.len() ==> is_digit(#[trigger] s[i])
}

pub open spec fn digits_or_dots(s: Seq<char>) -> bool {
    forall|i: int| 0 <= i < s.len() ==> is_digit(#[trigger] s[i]) || s[i] == '.'
}

/// Index of the first dot, or the length when there is none.
pub open spec fn dot_index(s: Seq<char>) -> nat
    decreases s.len(),
{
    if s.len() == 0 {
        0
    } else if s[0] == '.' {
        0
    } else {
        1 + dot_index(s.drop_first())
    }
}

/// Digits after the first dot (empty without one).
pub open spec fn fraction_part(s: Seq<char>) -> Seq<char> {
    let d = dot_index(s) as int;
    if d < s.len() {
        s.skip(d + 1)
    } else {
        seq![]
    }
}

/// The number written by a run of digits and dots: at most one dot and at least one digit.
pub open spec fn literal_number(s: Seq<char>) -> Result<Number, NumberError> {
    let whole = s.take(dot_index(s) as int);
    let frac = fraction_part(s);
    if !all_digits(frac) || (whole.len() == 0 && frac.len() == 0) {
        Err(NumberError::Malformed)
    } else {
        checked(digits_value(whole) * scale() + fraction_value(frac))
    }
}


// ---- executable operations -----------------------------------------------------------------

fn checked_exec(v: i128) -> (r: Result<Number, NumberError>)
    ensures
        r == checked(v as int),
{
    if -9223372036854775807i128 <= v && v <= 9223372036854775807i128 {
        Ok(Number { scaled: v as i64 })
    } else {
        Err(NumberError::OutOfRange)
    }
}

fn magnitude(v: i128) -> (r: u128)
    requires
        v > i128::MIN,
    ensures
        r as int == abs(v as int),
{
    if v < 0 {
        (-v) as u128
    } else {
        v as u128
    }
}

fn signed(m: u128, negative: bool) -> (r: i128)
    requires
        m <= i128::MAX,
    ensures
        r as int == if negative {
            -(m as int)
        } else {
            m as int
        },
{
    if negative {
        -(m as i128)
    } else {
        m as i128
    }
}

impl Number {
    /// The number `n`, a count or a position.
    pub fn from_count(n: usize) -> (r: Result<Number, NumberError>)
        ensures
            r == checked(n * scale()),
    {
        checked_exec(n as i128 * 1000000)
    }

    pub fn plus(self, other: Number) -> (r: Result<Number, NumberError>)
        ensures
            r == spec_add(self, other),
    {
        checked_exec(self.scaled as i128 + other.scaled as i128)
    }

    pub fn minus(self, other: Number) -> (r: Result<Number, NumberError>)
        ensures
            r == spec_sub(self, other),
    {
        checked_exec(self.scaled as i128 - other.scaled as i128)
    }

    pub fn times(self, other: Number) -> (r: Result<Number, NumberError>)
        ensures
            r == spec_mul(self, other),
    {
        let a = self.scaled as i128;
        let b = other.scaled as i128;
        assert(-0x4000_0000_0000_0000_0000_0000_0000_0000 <= a * b <= 0x4000_0000_0000_0000_0000_0000_0000_0000)
            by (nonlinear_arith)
            requires
                -0x8000_0000_0000_0000 <= a <= 0x8000_0000_0000_0000,
                -0x8000_0000_0000_0000 <= b <= 0x8000_0000_0000_0000,
        ;
        let p = a * b;
        let q = magnitude(p) / 1000000;
        checked_exec(signed(q, p < 0))
    }

    pub fn divided_by(self, other: Number) -> (r: Result<Number, NumberError>)
        ensures
            r == spec_div(self, other),
    {
        if other.scaled == 0 {
            return Err(NumberError::DivisionByZero);
        }
        let p = self.scaled as i128 * 1000000;
        let b = other.scaled as i128;
        let mp = magnitude(p);
        let mb = magnitude(b);
        let q = mp / mb;
        assert(q <= mp) by (nonlinear_arith)
            requires
                q == mp / mb,
                mb >= 1,
        ;
        checked_exec(signed(q, (p < 0) != (b < 0)))
    }

    pub fn remainder(self, other: Number) -> (r: Result<Number, NumberError>)
        ensures
            r == spec_rem(self, other),
    {
        if other.scaled == 0 {
            return Err(NumberError::DivisionByZero);
        }
        let a = self.scaled as i128;
        let b = other.scaled as i128;
        let m = magnitude(a) % magnitude(b);
        checked_exec(signed(m, a < 0))
    }

    pub fn negated(self) -> (r: Result<Number, NumberError>)
        ensures
            r == spec_neg(self),
    {
        checked_exec(-(self.scaled as i128))
    }

    /// The whole part of a non-negative number, as an index.
    pub fn whole(self) -> (r: u64)
        requires
            self.scaled >= 0,
        ensures
            r as int == self.scaled as int / scale(),
    {
        (self.scaled as u64) / 1000000
    }

    /// Decimal text of the number.
    pub fn text(self) -> (r: Vec<char>)
        ensures
            r@ == number_text(self),
    {
        let mut out: Vec<char> = Vec::new();
        let v = self.scaled as i128;
        if v < 0 {
            out.push('-');
        }
        let m = magnitude(v) as u64;
        push_magnitude(&mut out, m);
        proof {
            if v < 0 {
                assert(out@ =~= seq!['-'] + magnitude_text(abs(self.scaled as int)));
            } else {
                assert(out@ =~= magnitude_text(self.scaled as nat));
            }
        }
        out
    }
}

fn digit_of(d: u64) -> (c: char)
    requires
        d < 10,
    ensures
        c == digit_char(d as nat),
{
    if d == 0 {
        '0'
    } else if d == 1 {
        '1'
    } else if d == 2 {
        '2'
    } else if d == 3 {
        '3'
    } else if d == 4 {
        '4'
    } else if d == 5 {
        '5'
    } else if d == 6 {
        '6'
    } else if d == 7 {
        '7'
    } else if d == 8 {
        '8'
    } else {
        '9'
    }
}

fn push_decimal(out: &mut Vec<char>, n: u64)
    ensures
        final(out)@ == old(out)@ + decimal(n as nat),
    decreases n,
{
    if n < 10 {
        out.push(digit_of(n));
        assert(final(out)@ =~= old(out)@ + decimal(n as nat));
    } else {
        push_decimal(out, n / 10);
        out.push(digit_of(n % 10));
        assert(out@ =~= old(out)@ + decimal(n as nat));
    }
}

fn push_padded(out: &mut Vec<char>, n: u64, k: u64)
    ensures
        final(out)@ == old(out)@ + padded(n as nat, k as nat),
    decreases k,
{
    if k == 0 {
        assert(out@ =~= old(out)@ + padded(n as nat, k as nat));
    } else {
        push_padded(out, n / 10, k - 1);
        out.push(digit_of(n % 10));
        assert(out@ =~= old(out)@ + padded(n as nat, k as nat));
    }
}

fn push_magnitude(out: &mut Vec<char>, m: u64)
    ensures
        final(out)@ == old(out)@ + magnitude_text(m as nat),
{
    push_decimal(out, m / 1000000);
    let mut f = m % 1000000;
    if f != 0 {
        out.push('.');
        let mut k: u64 = 6;
        while k > 0 && f % 10 == 0
            invariant
                k <= 6,
                fraction_text(f as nat, k as nat) == fraction_text((m % 1000000) as nat, 6),
            decreases k,
        {
            f = f / 10;
            k = k - 1;
        }
        push_padded(out, f, k);
        assert(out@ =~= old(out)@ + magnitude_text(m as nat));
    } else {
        assert(out@ =~= old(out)@ + magnitude_text(m as nat));
    }
}


// ---- reading literals ----------------------------------------------------------------------

proof fn lemma_dot_index_skip(s: Seq<char>, i: int)
    requires
        0 <= i <= s.len(),
        forall|j: int| 0 <= j < i ==> s[j] != '.',
    ensures
        dot_index(s) == i + dot_index(s.skip(i)),
    decreases i,
{
    if i > 0 {
        lemma_dot_index_skip(s.drop_first(), i - 1);
        assert(s.drop_first().skip(i - 1) =~= s.skip(i));
    } else {
        assert(s.skip(0) =~= s);
    }
}

proof fn lemma_digits_value_step(s: Seq<char>, k: int)
    requires
        0 <= k < s.len(),
    ensures
        digits_value(s.take(k + 1)) == digits_value(s.take(k)) * 10 + digit_value(s[k]),
{
    assert(s.take(k + 1).drop_last() =~= s.take(k));
}

/// Saturating accumulation: once past the bound, the value stays past it.
proof fn lemma_saturate(v: nat, d: nat, b: nat)
    requires
        d < 10,
        b > 0,
    ensures
        (if 10 * (if v > b { b } else { v }) + d > b { b } else { 10 * (if v > b { b } else { v })
            + d }) == (if 10 * v + d > b { b } else { 10 * v + d }),
{
    if v > b {
        assert(10 * v + d > b) by (nonlinear_arith)
            requires
                v > b,
        ;
        assert(10 * b + d > b) by (nonlinear_arith)
            requires
                b > 0,
        ;
    }
}

proof fn lemma_pow10_small()
    ensures
        pow10(0) == 1,
        pow10(1) == 10,
        pow10(2) == 100,
        pow10(3) == 1000,
        pow10(4) == 10000,
        pow10(5) == 100000,
        pow10(6) == 1000000,
{
    reveal_with_fuel(pow10, 7);
}

fn power_of_ten(k: u64) -> (p: u64)
    requires
        k <= 6,
    ensures
        p == pow10(k as nat),
        p <= 1000000,
{
    reveal_with_fuel(pow10, 7);
    if k == 0 {
        1
    } else if k == 1 {
        10
    } else if k == 2 {
        100
    } else if k == 3 {
        1000
    } else if k == 4 {
        10000
    } else if k == 5 {
        100000
    } else {
        1000000
    }
}

fn digit_at(s: &Vec<char>, i: usize) -> (d: u64)
    requires
        i < s.len(),
        is_digit(s@[i as int]),
    ensures
        d as nat == digit_value(s@[i as int]),
        d < 10,
{
    (s[i] as u32 - 48) as u64
}

/// Reads the literal `s[start..end]`, a run of digits and dots.
pub fn parse_literal(s: &Vec<char>, start: usize, end: usize) -> (r: Result<Number, NumberError>)
    requires
        start <= end <= s.len(),
        digits_or_dots(s@.subrange(start as int, end as int)),
    ensures
        r == literal_number(s@.subrange(start as int, end as int)),
{
    let ghost run = s@.subrange(start as int, end as int);
    let mut d = start;
    while d < end && s[d] != '.'
        invariant
            start <= d <= end <= s.len(),
            run == s@.subrange(start as int, end as int),
            forall|j: int| 0 <= j < d - start ==> run[j] != '.',
        decreases end - d,
    {
        d = d + 1;
    }
    proof {
        lemma_dot_index_skip(run, d - start);
        if d < end {
            assert(run.skip(d - start)[0] == '.');
        }
    }
    let ghost whole = run.take(d - start);
    assert(dot_index(run) == d - start);
    // whole part, saturated just past the largest value that can fit
    let mut w: u64 = 0;
    let mut i = start;
    while i < d
        invariant
            start <= i <= d <= end <= s.len(),
            run == s@.subrange(start as int, end as int),
            whole == run.take(d - start),
            forall|j: int| 0 <= j < d - start ==> run[j] != '.',
            digits_or_dots(run),
            w as int == (if digits_value(run.take(i - start)) > MAX_WHOLE + 1 {
                MAX_WHOLE + 1
            } else {
                digits_value(run.take(i - start)) as int
            }),
        decreases d - i,
    {
        assert(run[i - start] == s@[i as int]);
        let dv = digit_at(s, i);
        proof {
            lemma_digits_value_step(run, i - start);
            lemma_saturate(digits_value(run.take(i - start)), dv as nat, (MAX_WHOLE + 1) as nat);
        }
        if 10 * w + dv > MAX_WHOLE + 1 {
            w = MAX_WHOLE + 1;
        } else {
            w = 10 * w + dv;
        }
        i = i + 1;
    }
    assert(run.take(d - start) =~= whole);
    // fraction: every character a digit, the first six counted
    let ghost frac = fraction_part(run);
    let mut f: u64 = 0;
    let mut n: u64 = 0;
    let fstart = if d < end { d + 1 } else { end };
    assert(frac =~= s@.subrange(fstart as int, end as int));
    let mut i = fstart;
    while i < end
        invariant
            start <= fstart <= i <= end <= s.len(),
            run == s@.subrange(start as int, end as int),
            digits_or_dots(run),
            frac == fraction_part(run),
            frac == s@.subrange(fstart as int, end as int),
            w <= MAX_WHOLE ==> w == digits_value(whole),
            w > MAX_WHOLE ==> digits_value(whole) > MAX_WHOLE,
            whole == run.take(dot_index(run) as int),
            d == start + dot_index(run),
            fstart == (if d < end { d + 1 } else { end as int }),
            all_digits(frac.take(i - fstart)),
            n == min6((i - fstart) as nat),
            f == digits_value(frac.take(n as int)),
            f < pow10(n as nat),
            f < 1000000,
        decreases end - i,
    {
        proof {
            lemma_pow10_small();
        }
        if s[i] == '.' {
            assert(frac[i - fstart] == '.');
            assert(!is_digit(frac[i - fstart]));
            return Err(NumberError::Malformed);
        }
        assert(frac[i - fstart] == s@[i as int]);
        assert(is_digit(s@[i as int])) by {
            assert(run[i - start] == s@[i as int]);
        }
        if n < 6 {
            let dv = digit_at(s, i);
            proof {
                lemma_digits_value_step(frac, n as int);
                assert(10 * f + dv < 10 * pow10(n as nat)) by (nonlinear_arith)
                    requires
                        f < pow10(n as nat),
                        dv < 10,
                ;
            }
            f = 10 * f + dv;
            n = n + 1;
        }
        assert(frac.take(i + 1 - fstart) =~= frac.take(i - fstart).push(frac[i - fstart]));
        i = i + 1;
    }
    assert(frac.take(end - fstart) =~= frac);
    assert(all_digits(frac));
    if d == start && fstart == end {
        return Err(NumberError::Malformed);
    }
    if w > MAX_WHOLE {
        assert(digits_value(whole) * scale() + fraction_value(frac) > 9223372036854775807)
            by (nonlinear_arith)
            requires
                digits_value(whole) >= 9223372036855,
        ;
        return Err(NumberError::OutOfRange);
    }
    let p = power_of_ten(6 - n);
    proof {
        lemma_pow10_small();
        assert(n == min6(frac.len()));
        assert(f * p <= 1000000 * 1000000) by (nonlinear_arith)
            requires
                f < 1000000,
                p <= 1000000,
        ;
    }
    checked_exec(w as i128 * 1000000 + f as i128 * p as i128)
}

} // verus!
