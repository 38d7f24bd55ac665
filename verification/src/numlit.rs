use vstd::prelude::*;
use crate::chars::is_ascii_digit;

verus! {

/// Numeric value of a decimal digit character.
pub open spec fn digit_value(c: char) -> nat {
    (c as u32 - '0' as u32) as nat
}

/// The value of a string of decimal digits.
pub open spec fn digits_value(s: Seq<char>) -> nat
    decreases s.len(),
{
    if s.len() == 0 {
        0
    } else {
        digits_value(s.drop_last()) * 10 + digit_value(s.last())
    }
}

/// The text with every `_` separator taken out.
pub open spec fn without_underscores(s: Seq<char>) -> Seq<char>
    decreases s.len(),
{
    if s.len() == 0 {
        s
    } else if s.last() == '_' {
        without_underscores(s.drop_last())
    } else {
        without_underscores(s.drop_last()).push(s.last())
    }
}

pub open spec fn all_digits(s: Seq<char>) -> bool {
    forall|i: int| 0 <= i < s.len() ==> is_ascii_digit(#[trigger] s[i])
}

pub proof fn lemma_digits_value_prefix(s: Seq<char>, i: int)
    requires
        0 <= i <= s.len(),
        all_digits(s),
    ensures
        digits_value(s.take(i)) <= digits_value(s),
    decreases s.len() - i,
{
    if i < s.len() {
        lemma_digits_value_prefix(s, i + 1);
        assert(s.take(i + 1).drop_last() =~= s.take(i));
    } else {
        assert(s.take(i) =~= s);
    }
}

/// Reads a string of decimal digits as an `i64`, as `str::parse::<i64>` does
/// for such text: `Some` with the value when it is at most `i64::MAX`, else
/// `None` (overflow).
pub fn parse_decimal_i64(s: &Vec<char>) -> (r: Option<i64>)
    requires
        s@.len() > 0,
        all_digits(s@),
    ensures
        r is Some <==> digits_value(s@) <= i64::MAX,
        r matches Some(v) ==> v as int == digits_value(s@),
{
    let mut acc: i64 = 0;
    let mut i: usize = 0;
    while i < s.len()
        invariant
            i <= s.len(),
            all_digits(s@),
            acc as int == digits_value(s@.take(i as int)),
        decreases s.len() - i,
    {
        let c = s[i];
        let d: i64 = (c as u32 - '0' as u32) as i64;
        proof {
            assert(is_ascii_digit(s@[i as int]));
            assert(s@.take(i + 1).drop_last() =~= s@.take(i as int));
            assert(s@.take(i + 1).last() == c);
        }
        if acc > (i64::MAX - d) / 10 {
            proof {
                assert(digits_value(s@.take(i + 1)) == acc * 10 + d);
                assert(acc * 10 + d > i64::MAX) by (nonlinear_arith)
                    requires
                        acc > (i64::MAX - d) / 10,
                        0 <= d <= 9,
                ;
                lemma_digits_value_prefix(s@, i + 1);
            }
            return None;
        }
        proof {
            assert(acc * 10 + d <= i64::MAX) by (nonlinear_arith)
                requires
                    0 <= acc <= (i64::MAX - d) / 10,
                    0 <= d <= 9,
            ;
        }
        acc = acc * 10 + d;
        i = i + 1;
    }
    proof {
        assert(s@.take(s.len() as int) =~= s@);
    }
    Some(acc)
}

pub open spec fn is_exp_marker(c: char) -> bool {
    c == 'e' || c == 'E'
}

/// A mantissa as Rust's float syntax has it: digits with at most one '.',
/// holding at least one digit.
pub open spec fn valid_mantissa(m: Seq<char>) -> bool {
    &&& forall|i: int| 0 <= i < m.len() ==> is_ascii_digit(#[trigger] m[i]) || m[i] == '.'
    &&& forall|i: int, j: int| #![trigger m[i], m[j]] 0 <= i < j < m.len() && m[i] == '.' ==> m[j] != '.'
    &&& exists|i: int| 0 <= i < m.len() && is_ascii_digit(#[trigger] m[i])
}

/// An exponent body (after 'e'/'E'): an optional sign, then one or more digits.
pub open spec fn valid_exponent(e: Seq<char>) -> bool {
    let d = if e.len() > 0 && (e[0] == '+' || e[0] == '-') { e.skip(1) } else { e };
    d.len() > 0 && all_digits(d)
}

/// Text over digits, '.', 'e', 'E', '+', '-' that Rust's `f64` parser accepts
/// (its grammar: `Mantissa (('e' | 'E') Sign? Digit+)?`, the text starting
/// with a digit, so without a leading sign or the `inf`/`nan` words).
pub open spec fn valid_float_text(s: Seq<char>) -> bool {
    ||| (forall|i: int| 0 <= i < s.len() ==> !is_exp_marker(#[trigger] s[i])) && valid_mantissa(s)
    ||| exists|p: int|
        0 <= p < s.len() && is_exp_marker(#[trigger] s[p])
            && (forall|i: int| 0 <= i < p ==> !is_exp_marker(#[trigger] s[i]))
            && valid_mantissa(s.take(p)) && valid_exponent(s.skip(p + 1))
}

fn check_mantissa(s: &Vec<char>, end: usize) -> (r: bool)
    requires
        end <= s@.len(),
    ensures
        r == valid_mantissa(s@.take(end as int)),
{
    let ghost m = s@.take(end as int);
    let mut i: usize = 0;
    let mut dots: usize = 0;
    let mut digits: usize = 0;
    let mut dot_at: usize = 0;
    while i < end
        invariant
            i <= end <= s@.len(),
            m == s@.take(end as int),
            dots <= 1,
            forall|k: int| 0 <= k < i ==> is_ascii_digit(#[trigger] m[k]) || m[k] == '.',
            dots == 0 ==> forall|k: int| 0 <= k < i ==> #[trigger] m[k] != '.',
            dots == 1 ==> dot_at < i && m[dot_at as int] == '.' && forall|k: int|
                0 <= k < i && k != dot_at ==> #[trigger] m[k] != '.',
            digits == 0 ==> forall|k: int| 0 <= k < i ==> !is_ascii_digit(#[trigger] m[k]),
            digits > 0 ==> exists|k: int| 0 <= k < i && is_ascii_digit(#[trigger] m[k]),
            digits <= i,
        decreases end - i,
    {
        let c = s[i];
        assert(m[i as int] == c);
        if c == '.' {
            if dots == 1 {
                proof {
                    assert(m[dot_at as int] == '.' && m[i as int] == '.');
                    assert(!valid_mantissa(m));
                }
                return false;
            }
            dots = 1;
            dot_at = i;
        } else if '0' <= c && c <= '9' {
            digits = digits + 1;
        } else {
            proof {
                assert(!(is_ascii_digit(m[i as int]) || m[i as int] == '.'));
            }
            return false;
        }
        i = i + 1;
    }
    digits > 0
}

fn check_exponent(s: &Vec<char>, start: usize) -> (r: bool)
    requires
        start <= s@.len(),
    ensures
        r == valid_exponent(s@.skip(start as int)),
{
    let ghost e = s@.skip(start as int);
    let mut i = start;
    if i < s.len() && (s[i] == '+' || s[i] == '-') {
        i = i + 1;
    }
    let ghost d = s@.skip(i as int);
    proof {
        let dd = if e.len() > 0 && (e[0] == '+' || e[0] == '-') { e.skip(1) } else { e };
        assert(dd =~= d);
    }
    if i >= s.len() {
        return false;
    }
    let first = i;
    while i < s.len()
        invariant
            first <= i <= s@.len(),
            d == s@.skip(first as int),
            valid_exponent(s@.skip(start as int)) == (d.len() > 0 && all_digits(d)),
            forall|k: int| 0 <= k < i - first ==> is_ascii_digit(#[trigger] d[k]),
        decreases s.len() - i,
    {
        let c = s[i];
        assert(d[i - first] == c);
        if !('0' <= c && c <= '9') {
            assert(!is_ascii_digit(d[i - first]));
            return false;
        }
        i = i + 1;
    }
    true
}

/// Whether Rust's `f64` parser accepts the text (see `valid_float_text`).
pub fn float_text_is_valid(s: &Vec<char>) -> (r: bool)
    ensures
        r == valid_float_text(s@),
{
    let mut p: usize = 0;
    while p < s.len() && !(s[p] == 'e' || s[p] == 'E')
        invariant
            p <= s@.len(),
            forall|i: int| 0 <= i < p ==> !is_exp_marker(#[trigger] s@[i]),
        decreases s.len() - p,
    {
        p = p + 1;
    }
    if p == s.len() {
        let r = check_mantissa(s, p);
        proof {
            assert(s@.take(p as int) =~= s@);
            if !r {
                assert forall|q: int|
                    0 <= q < s@.len() && #[trigger] is_exp_marker(s@[q]) implies false by {
                    assert(!is_exp_marker(s@[q]));
                }
            }
        }
        r
    } else {
        let a = check_mantissa(s, p);
        let b = check_exponent(s, p + 1);
        proof {
            assert(is_exp_marker(s@[p as int]));
            if a && b {
                assert(valid_float_text(s@));
            } else {
                assert forall|q: int|
                    0 <= q < s@.len() && #[trigger] is_exp_marker(s@[q]) && (forall|i: int|
                        0 <= i < q ==> !is_exp_marker(#[trigger] s@[i])) implies q == p by {
                    if q < p {
                        assert(!is_exp_marker(s@[q]));
                    }
                    if q > p {
                        assert(!is_exp_marker(s@[p as int]));
                    }
                }
            }
        }
        a && b
    }
}

} // verus!
