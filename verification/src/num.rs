//! Literal grammars and numeric text: decimal rendering of integers, exact
//! integer parsing, the floating-point literal grammar, and calendar dates
//! rendered as their 64-bit epoch-millisecond encoding.
//!
//! The library never computes with floating-point values: a `Float` cell
//! holds its validated decimal text, which the statement generator renders
//! bare.

use vstd::prelude::*;
use crate::text::string_of;

verus! {

/// Whether `c` is a decimal digit.
pub open spec fn is_digit(c: char) -> bool {
    48 <= c as u32 && c as u32 <= 57
}

/// The numeric value of a decimal digit.
pub open spec fn digit_val(c: char) -> int {
    c as u32 - 48
}

/// The decimal digit character with value `d`.
pub open spec fn digit_char(d: int) -> char {
    ((48 + d) as u8) as char
}

/// Whether every character of `s` is a decimal digit.
pub open spec fn all_digits(s: Seq<char>) -> bool {
    forall|i: int| 0 <= i < s.len() ==> is_digit(s[i])
}

/// The decimal digits of `n`, most significant first.
pub open spec fn dec_digits(n: nat) -> Seq<char>
    decreases n,
{
    if n < 10 {
        seq![digit_char(n as int)]
    } else {
        dec_digits(n / 10).push(digit_char((n % 10) as int))
    }
}

/// The decimal rendering of `i`, with a leading `-` when negative.
pub open spec fn int_str(i: int) -> Seq<char> {
    if i < 0 {
        seq!['-'] + dec_digits((-i) as nat)
    } else {
        dec_digits(i as nat)
    }
}

/// The value of a sequence of decimal digits.
pub open spec fn digits_val(s: Seq<char>) -> int
    decreases s.len(),
{
    if s.len() == 0 {
        0
    } else {
        digits_val(s.drop_last()) * 10 + digit_val(s.last())
    }
}

/// Whether `s` is an optionally negated run of one or more decimal digits.
pub open spec fn is_int_literal(s: Seq<char>) -> bool {
    if s.len() > 0 && s[0] == '-' {
        s.len() >= 2 && all_digits(s.skip(1))
    } else {
        s.len() >= 1 && all_digits(s)
    }
}

/// The signed value of an integer literal.
pub open spec fn int_literal_val(s: Seq<char>) -> int
    recommends
        is_int_literal(s),
{
    if s.len() > 0 && s[0] == '-' {
        -digits_val(s.skip(1))
    } else {
        digits_val(s)
    }
}

/// Whether `v` fits a 64-bit signed integer.
pub open spec fn in_i64_range(v: int) -> bool {
    i64::MIN <= v <= i64::MAX
}

/// Ten to the power `n`.
pub open spec fn pow10(n: nat) -> int
    decreases n,
{
    if n == 0 {
        1
    } else {
        10 * pow10((n - 1) as nat)
    }
}

pub proof fn lemma_digits_val_nonneg(s: Seq<char>)
    requires
        all_digits(s),
    ensures
        digits_val(s) >= 0,
    decreases s.len(),
{
    if s.len() > 0 {
        assert(all_digits(s.drop_last()));
        lemma_digits_val_nonneg(s.drop_last());
    }
}

/// Appending the digit at index `i` multiplies the prefix value by ten.
pub proof fn lemma_digits_val_take_succ(s: Seq<char>, i: int)
    requires
        0 <= i < s.len(),
    ensures
        digits_val(s.take(i + 1)) == digits_val(s.take(i)) * 10 + digit_val(s[i]),
{
    assert(s.take(i + 1).drop_last() =~= s.take(i));
    assert(s.take(i + 1).last() == s[i]);
}

/// The value of a digit run dominates the value of each of its prefixes.
pub proof fn lemma_digits_val_prefix(s: Seq<char>, i: int)
    requires
        all_digits(s),
        0 <= i <= s.len(),
    ensures
        digits_val(s.take(i)) <= digits_val(s),
    decreases s.len(),
{
    if i == s.len() {
        assert(s.take(i) =~= s);
    } else {
        let dl = s.drop_last();
        assert(all_digits(dl));
        assert(s.take(i) =~= dl.take(i));
        lemma_digits_val_prefix(dl, i);
        lemma_digits_val_nonneg(dl);
        assert(digit_val(s.last()) >= 0);
    }
}

/// Appends the decimal digits of `n` to `out`.
pub fn push_dec_digits(n: u64, out: &mut Vec<char>)
    ensures
        final(out)@ == old(out)@ + dec_digits(n as nat),
    decreases n,
{
    let d: u64 = n % 10;
    let c: char = ((48 + d) as u8) as char;
    if n < 10 {
        out.push(c);
        proof {
            assert(dec_digits(n as nat) =~= seq![digit_char(n as int)]);
            assert(out@ =~= old(out)@ + dec_digits(n as nat));
        }
    } else {
        push_dec_digits(n / 10, out);
        out.push(c);
        proof {
            assert(out@ =~= old(out)@ + dec_digits(n as nat));
        }
    }
}

/// The decimal rendering of `v`.
pub fn i64_to_string(v: i64) -> (r: String)
    ensures
        r@ == int_str(v as int),
{
    let mut cs: Vec<char> = Vec::new();
    if v < 0 {
        cs.push('-');
        let mag: u64 = ((-(v + 1)) as u64) + 1;
        push_dec_digits(mag, &mut cs);
        proof {
            assert(cs@ =~= seq!['-'] + dec_digits(mag as nat));
        }
    } else {
        push_dec_digits(v as u64, &mut cs);
        proof {
            assert(cs@ =~= dec_digits(v as nat));
        }
    }
    string_of(&cs)
}

/// Parses a decimal integer literal, exactly when its value fits `i64`.
pub fn parse_i64(cs: &Vec<char>) -> (r: Option<i64>)
    ensures
        r is Some <==> is_int_literal(cs@) && in_i64_range(int_literal_val(cs@)),
        r matches Some(v) ==> v as int == int_literal_val(cs@),
{
    let n: usize = cs.len();
    if n == 0 {
        return None;
    }
    let neg: bool = cs[0] == '-';
    let start: usize = if neg {
        1
    } else {
        0
    };
    if start >= n {
        return None;
    }
    let limit: u64 = if neg {
        9223372036854775808
    } else {
        9223372036854775807
    };
    let ghost ds: Seq<char> = cs@.skip(start as int);
    let mut mag: u64 = 0;
    let mut i: usize = start;
    while i < n
        invariant
            start <= i <= n,
            n == cs@.len(),
            start == (if neg { 1int } else { 0int }),
            neg <==> (cs@.len() > 0 && cs@[0] == '-'),
            ds == cs@.skip(start as int),
            all_digits(ds.take(i - start)),
            mag as int == digits_val(ds.take(i - start)),
            mag <= limit,
            limit == (if neg { 9223372036854775808int } else { 9223372036854775807int }),
        decreases n - i,
    {
        let c: char = cs[i];
        let u: u32 = c as u32;
        if !(48 <= u && u <= 57) {
            proof {
                assert(ds[i - start] == cs@[i as int]);
                assert(!all_digits(ds));
            }
            return None;
        }
        let d: u64 = (u - 48) as u64;
        proof {
            assert(d as int == digit_val(c));
        }
        if mag > (limit - d) / 10 {
            proof {
                lemma_digits_val_take_succ(ds, i - start);
                assert(digits_val(ds.take(i - start + 1)) > limit);
                if is_int_literal(cs@) {
                    if neg {
                        assert(all_digits(ds));
                    } else {
                        assert(ds =~= cs@);
                        assert(all_digits(ds));
                    }
                    lemma_digits_val_prefix(ds, i - start + 1);
                    assert(digits_val(ds) > limit);
                    if neg {
                        assert(int_literal_val(cs@) == -digits_val(ds));
                        assert(int_literal_val(cs@) < i64::MIN);
                    } else {
                        assert(int_literal_val(cs@) == digits_val(ds));
                        assert(int_literal_val(cs@) > i64::MAX);
                    }
                    assert(!in_i64_range(int_literal_val(cs@)));
                }
            }
            return None;
        }
        mag = mag * 10 + d;
        i += 1;
        proof {
            lemma_digits_val_take_succ(ds, i - 1 - start);
        }
    }
    proof {
        assert(ds.take(n - start) =~= ds);
        if !neg {
            assert(ds =~= cs@);
        }
        assert(is_int_literal(cs@));
        assert(mag as int == (if neg { -int_literal_val(cs@) } else { int_literal_val(cs@) }));
    }
    if neg {
        if mag == 9223372036854775808 {
            Some(i64::MIN)
        } else {
            Some(-(mag as i64))
        }
    } else {
        Some(mag as i64)
    }
}

/// Ten to any power is positive.
pub proof fn lemma_pow10_pos(a: nat)
    ensures
        pow10(a) >= 1,
    decreases a,
{
    if a > 0 {
        lemma_pow10_pos((a - 1) as nat);
    }
}

/// Ten to a power is monotone in the exponent.
pub proof fn lemma_pow10_mono(a: nat, b: nat)
    requires
        a <= b,
    ensures
        pow10(a) <= pow10(b),
        pow10(a) >= 1,
    decreases b,
{
    lemma_pow10_pos(a);
    if a < b {
        lemma_pow10_mono(a, (b - 1) as nat);
    }
}

/// Whether year `y` is a leap year.
pub open spec fn is_leap_year(y: int) -> bool {
    (y % 4 == 0 && y % 100 != 0) || y % 400 == 0
}

/// The number of days in month `m` of year `y`.
pub open spec fn days_in_month(y: int, m: int) -> int {
    if m == 2 {
        if is_leap_year(y) {
            29
        } else {
            28
        }
    } else if m == 4 || m == 6 || m == 9 || m == 11 {
        30
    } else {
        31
    }
}

/// The number of days from 1970-01-01 to the civil date `y-m-d`, counted
/// over eras of 400 years, valid for years 1 through 9999.
pub open spec fn epoch_days(y: int, m: int, d: int) -> int {
    let yy = if m <= 2 {
        y - 1
    } else {
        y
    };
    let era = yy / 400;
    let yoe = yy % 400;
    let mp = (m + 9) % 12;
    let doy = (153 * mp + 2) / 5 + d - 1;
    let doe = yoe * 365 + yoe / 4 - yoe / 100 + doy;
    era * 146097 + doe - 719468
}

/// The epoch-millisecond encoding of the civil date `y-m-d`.
pub open spec fn date_epoch_ms(y: int, m: int, d: int) -> int {
    epoch_days(y, m, d) * 86400000
}

/// Whether `s` has the form `YYYY-MM-DD` with a valid month and day, in
/// years 1 through 9999.
pub open spec fn is_date_literal(s: Seq<char>) -> bool {
    &&& s.len() == 10
    &&& s[4] == '-'
    &&& s[7] == '-'
    &&& all_digits(s.take(4))
    &&& all_digits(s.subrange(5, 7))
    &&& all_digits(s.subrange(8, 10))
    &&& {
        let y = digits_val(s.take(4));
        let m = digits_val(s.subrange(5, 7));
        let d = digits_val(s.subrange(8, 10));
        1 <= y && 1 <= m <= 12 && 1 <= d <= days_in_month(y, m)
    }
}

/// The epoch-millisecond value of a date literal.
pub open spec fn date_literal_ms(s: Seq<char>) -> int
    recommends
        is_date_literal(s),
{
    date_epoch_ms(
        digits_val(s.take(4)),
        digits_val(s.subrange(5, 7)),
        digits_val(s.subrange(8, 10)),
    )
}

/// The number of days in month `m` of year `y`, executable.
pub fn days_in_month_exec(y: u64, m: u64) -> (r: u64)
    ensures
        r as int == days_in_month(y as int, m as int),
{
    if m == 2 {
        if (y % 4 == 0 && y % 100 != 0) || y % 400 == 0 {
            29
        } else {
            28
        }
    } else if m == 4 || m == 6 || m == 9 || m == 11 {
        30
    } else {
        31
    }
}

/// The value of the digit run `cs[a..b]`, exactly when it is all digits.
fn sub_val(cs: &Vec<char>, a: usize, b: usize) -> (r: Option<u64>)
    requires
        a <= b && b <= cs@.len(),
        b - a <= 4,
    ensures
        r is Some <==> all_digits(cs@.subrange(a as int, b as int)),
        r matches Some(v) ==> v as int == digits_val(cs@.subrange(a as int, b as int)) && v
            <= 9999,
{
    let ghost sub = cs@.subrange(a as int, b as int);
    let mut v: u64 = 0;
    let mut i: usize = a;
    while i < b
        invariant
            a <= i <= b && b <= cs@.len(),
            b - a <= 4,
            sub == cs@.subrange(a as int, b as int),
            all_digits(sub.take(i - a)),
            v as int == digits_val(sub.take(i - a)),
            (v as int) < pow10((i - a) as nat),
        decreases b - i,
    {
        let c: char = cs[i];
        let u: u32 = c as u32;
        if !(48 <= u && u <= 57) {
            proof {
                assert(sub[i - a] == cs@[i as int]);
                assert(!all_digits(sub));
            }
            return None;
        }
        proof {
            lemma_digits_val_take_succ(sub, i - a);
            lemma_pow10_mono(((i - a) + 1) as nat, 4);
            assert(pow10(4) == 10000) by {
                reveal_with_fuel(pow10, 5);
            }
        }
        v = v * 10 + (u - 48) as u64;
        i += 1;
    }
    proof {
        assert(sub.take(b - a) =~= sub);
        lemma_pow10_mono((b - a) as nat, 4);
        assert(pow10(4) == 10000) by {
            reveal_with_fuel(pow10, 5);
        }
    }
    Some(v)
}

/// Parses a `YYYY-MM-DD` date literal into its epoch-millisecond encoding.
pub fn parse_date_ms(cs: &Vec<char>) -> (r: Option<i64>)
    ensures
        r is Some <==> is_date_literal(cs@),
        r matches Some(v) ==> v as int == date_literal_ms(cs@),
{
    if cs.len() != 10 {
        return None;
    }
    if !(cs[4] == '-') {
        return None;
    }
    if !(cs[7] == '-') {
        return None;
    }
    proof {
        assert(cs@.take(4) =~= cs@.subrange(0, 4));
    }
    let y: u64 = match sub_val(cs, 0, 4) {
        Some(v) => v,
        None => {
            return None;
        },
    };
    let m: u64 = match sub_val(cs, 5, 7) {
        Some(v) => v,
        None => {
            return None;
        },
    };
    let d: u64 = match sub_val(cs, 8, 10) {
        Some(v) => v,
        None => {
            return None;
        },
    };
    if y < 1 {
        return None;
    }
    if m < 1 || m > 12 {
        return None;
    }
    if d < 1 || d > days_in_month_exec(y, m) {
        return None;
    }
    let yy: u64 = if m <= 2 {
        y - 1
    } else {
        y
    };
    let era: u64 = yy / 400;
    let yoe: u64 = yy % 400;
    let mp: u64 = (m + 9) % 12;
    let doy: u64 = (153 * mp + 2) / 5 + d - 1;
    let doe: u64 = yoe * 365 + yoe / 4 - yoe / 100 + doy;
    let days: i64 = (era * 146097 + doe) as i64 - 719468;
    let ms: i64 = days * 86400000;
    proof {
        assert(days as int == epoch_days(y as int, m as int, d as int));
    }
    Some(ms)
}

/// The states of the floating-point literal scanner.
#[derive(Clone, Copy, PartialEq, Eq, Structural, Debug)]
pub enum FloatSt {
    Start,
    Sign,
    LeadDot,
    IntPart,
    Dot,
    Frac,
    ExpMark,
    ExpSign,
    ExpDigits,
    Reject,
}

/// One step of the floating-point literal scanner.
///
/// The grammar accepted is an optional sign, then digits with an optional
/// non-empty fraction (or a fraction alone), then an optional exponent with
/// an optional sign and non-empty digits.
pub open spec fn float_step(st: FloatSt, c: char) -> FloatSt {
    match st {
        FloatSt::Start => if c == '+' || c == '-' {
            FloatSt::Sign
        } else if c == '.' {
            FloatSt::LeadDot
        } else if is_digit(c) {
            FloatSt::IntPart
        } else {
            FloatSt::Reject
        },
        FloatSt::Sign => if c == '.' {
            FloatSt::LeadDot
        } else if is_digit(c) {
            FloatSt::IntPart
        } else {
            FloatSt::Reject
        },
        FloatSt::LeadDot => if is_digit(c) {
            FloatSt::Frac
        } else {
            FloatSt::Reject
        },
        FloatSt::IntPart => if is_digit(c) {
            FloatSt::IntPart
        } else if c == '.' {
            FloatSt::Dot
        } else if c == 'e' || c == 'E' {
            FloatSt::ExpMark
        } else {
            FloatSt::Reject
        },
        FloatSt::Dot => if is_digit(c) {
            FloatSt::Frac
        } else {
            FloatSt::Reject
        },
        FloatSt::Frac => if is_digit(c) {
            FloatSt::Frac
        } else if c == 'e' || c == 'E' {
            FloatSt::ExpMark
        } else {
            FloatSt::Reject
        },
        FloatSt::ExpMark => if c == '+' || c == '-' {
            FloatSt::ExpSign
        } else if is_digit(c) {
            FloatSt::ExpDigits
        } else {
            FloatSt::Reject
        },
        FloatSt::ExpSign => if is_digit(c) {
            FloatSt::ExpDigits
        } else {
            FloatSt::Reject
        },
        FloatSt::ExpDigits => if is_digit(c) {
            FloatSt::ExpDigits
        } else {
            FloatSt::Reject
        },
        FloatSt::Reject => FloatSt::Reject,
    }
}

/// The scanner state after reading all of `s`.
pub open spec fn float_run(s: Seq<char>) -> FloatSt
    decreases s.len(),
{
    if s.len() == 0 {
        FloatSt::Start
    } else {
        float_step(float_run(s.drop_last()), s.last())
    }
}

/// Whether the scanner state accepts.
pub open spec fn float_accepting(st: FloatSt) -> bool {
    st == FloatSt::IntPart || st == FloatSt::Frac || st == FloatSt::ExpDigits
}

/// Whether `s` is a decimal floating-point literal.
pub open spec fn is_float_literal(s: Seq<char>) -> bool {
    float_accepting(float_run(s))
}

/// One step of the floating-point literal scanner, executable.
pub fn float_step_exec(st: FloatSt, c: char) -> (r: FloatSt)
    ensures
        r == float_step(st, c),
{
    let u: u32 = c as u32;
    let digit: bool = 48 <= u && u <= 57;
    match st {
        FloatSt::Start => if c == '+' || c == '-' {
            FloatSt::Sign
        } else if c == '.' {
            FloatSt::LeadDot
        } else if digit {
            FloatSt::IntPart
        } else {
            FloatSt::Reject
        },
        FloatSt::Sign => if c == '.' {
            FloatSt::LeadDot
        } else if digit {
            FloatSt::IntPart
        } else {
            FloatSt::Reject
        },
        FloatSt::LeadDot => if digit {
            FloatSt::Frac
        } else {
            FloatSt::Reject
        },
        FloatSt::IntPart => if digit {
            FloatSt::IntPart
        } else if c == '.' {
            FloatSt::Dot
        } else if c == 'e' || c == 'E' {
            FloatSt::ExpMark
        } else {
            FloatSt::Reject
        },
        FloatSt::Dot => if digit {
            FloatSt::Frac
        } else {
            FloatSt::Reject
        },
        FloatSt::Frac => if digit {
            FloatSt::Frac
        } else if c == 'e' || c == 'E' {
            FloatSt::ExpMark
        } else {
            FloatSt::Reject
        },
        FloatSt::ExpMark => if c == '+' || c == '-' {
            FloatSt::ExpSign
        } else if digit {
            FloatSt::ExpDigits
        } else {
            FloatSt::Reject
        },
        FloatSt::ExpSign => if digit {
            FloatSt::ExpDigits
        } else {
            FloatSt::Reject
        },
        FloatSt::ExpDigits => if digit {
            FloatSt::ExpDigits
        } else {
            FloatSt::Reject
        },
        FloatSt::Reject => FloatSt::Reject,
    }
}

/// Whether `cs` is a decimal floating-point literal.
pub fn check_float_literal(cs: &Vec<char>) -> (r: bool)
    ensures
        r == is_float_literal(cs@),
{
    let mut st: FloatSt = FloatSt::Start;
    let mut i: usize = 0;
    while i < cs.len()
        invariant
            i <= cs.len(),
            st == float_run(cs@.take(i as int)),
        decreases cs.len() - i,
    {
        st = float_step_exec(st, cs[i]);
        i += 1;
        proof {
            assert(cs@.take(i as int).drop_last() =~= cs@.take(i - 1));
            assert(cs@.take(i as int).last() == cs@[i - 1]);
        }
    }
    proof {
        assert(cs@.take(cs.len() as int) =~= cs@);
    }
    st == FloatSt::IntPart || st == FloatSt::Frac || st == FloatSt::ExpDigits
}

} // verus!
