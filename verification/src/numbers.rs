//! Reading numbers typed into a field: `i64` text exactly, and the syntax
//! of floating-point text (`f64::from_str`), whose value is kept as text.

use vstd::prelude::*;
use crate::text::{chars_equal, chars_of, decimal, digit_char, lower_chars, lower_seq, push_decimal, string_from_chars};

verus! {

/// Whether the character is an ASCII digit.
pub open spec fn is_digit(c: char) -> bool {
    '0' <= c && c <= '9'
}

/// The value of an ASCII digit.
pub open spec fn digit_value(c: char) -> nat {
    ((c as u32) - 48) as nat
}

/// Whether every character is an ASCII digit.
pub open spec fn all_digits(s: Seq<char>) -> bool {
    forall|i: int| 0 <= i < s.len() ==> is_digit(#[trigger] s[i])
}

/// The value of a run of ASCII digits.
pub open spec fn digits_value(s: Seq<char>) -> nat
    decreases s.len(),
{
    if s.len() == 0 {
        0
    } else {
        digits_value(s.drop_last()) * 10 + digit_value(s.last())
    }
}

/// The sign and the digits of integer text: a leading `-` or `+` is the
/// sign.
pub open spec fn sign_split(s: Seq<char>) -> (bool, Seq<char>) {
    if s.len() > 0 && s[0] == '-' {
        (true, s.drop_first())
    } else if s.len() > 0 && s[0] == '+' {
        (false, s.drop_first())
    } else {
        (false, s)
    }
}

/// `i64::from_str`: an optional sign followed by at least one ASCII digit,
/// with the value in range.
pub open spec fn parse_i64_spec(s: Seq<char>) -> Option<i64> {
    let (neg, digits) = sign_split(s);
    if digits.len() == 0 || !all_digits(digits) {
        None
    } else {
        let v: int = if neg {
            -(digits_value(digits) as int)
        } else {
            digits_value(digits) as int
        };
        if i64::MIN <= v && v <= i64::MAX {
            Some(v as i64)
        } else {
            None
        }
    }
}

proof fn lemma_digits_value_grows(s: Seq<char>, c: char)
    requires
        is_digit(c),
    ensures
        digits_value(s.push(c)) == digits_value(s) * 10 + digit_value(c),
        digits_value(s.push(c)) >= digits_value(s),
{
    assert(s.push(c).drop_last() =~= s);
}

proof fn lemma_digits_value_mono(s: Seq<char>, i: int)
    requires
        0 <= i <= s.len(),
    ensures
        digits_value(s.subrange(0, i)) <= digits_value(s),
    decreases s.len() - i,
{
    if i < s.len() {
        lemma_digits_value_mono(s, i + 1);
        assert(s.subrange(0, i + 1).drop_last() =~= s.subrange(0, i));
    } else {
        assert(s.subrange(0, i) =~= s);
    }
}

/// Parses `i64` text the way `str::parse::<i64>` does.
pub fn parse_i64(s: &str) -> (r: Option<i64>)
    ensures
        r == parse_i64_spec(s@),
{
    let cs = chars_of(s);
    let mut start: usize = 0;
    let mut neg = false;
    if cs.len() > 0 && cs[0] == '-' {
        neg = true;
        start = 1;
    } else if cs.len() > 0 && cs[0] == '+' {
        start = 1;
    }
    let ghost digits = cs@.subrange(start as int, cs.len() as int);
    assert(sign_split(s@) == (neg, digits)) by {
        if cs.len() > 0 && (cs@[0] == '-' || cs@[0] == '+') {
            assert(cs@.drop_first() =~= digits);
        } else {
            assert(cs@ =~= digits);
        }
    }
    if start == cs.len() {
        return None;
    }
    // Values beyond this bound are out of range whatever follows.
    let bound: u64 = 9_223_372_036_854_775_808;
    let mut acc: u64 = 0;
    let mut over = false;
    let mut i: usize = start;
    while i < cs.len()
        invariant
            start <= i <= cs.len(),
            bound == 9_223_372_036_854_775_808u64,
            cs@ == s@,
            sign_split(s@) == (neg, digits),
            digits == cs@.subrange(start as int, cs.len() as int),
            all_digits(cs@.subrange(start as int, i as int)),
            !over ==> acc as nat == digits_value(cs@.subrange(start as int, i as int)),
            !over ==> acc <= bound,
            over ==> digits_value(cs@.subrange(start as int, i as int)) > bound,
        decreases cs.len() - i,
    {
        let c = cs[i];
        if !('0' <= c && c <= '9') {
            assert(!all_digits(digits)) by {
                assert(digits[i - start] == c);
            }
            return None;
        }
        let d: u64 = ((c as u32) - 48) as u64;
        assert(d <= 9);
        assert(d == digit_value(c));
        proof {
            assert(cs@.subrange(start as int, i + 1) =~= cs@.subrange(start as int, i as int).push(c));
            lemma_digits_value_grows(cs@.subrange(start as int, i as int), c);
        }
        if !over {
            if acc > (bound - d) / 10 {
                over = true;
            } else {
                acc = acc * 10 + d;
            }
        }
        i = i + 1;
    }
    assert(cs@.subrange(start as int, cs.len() as int) == digits);
    if over {
        return None;
    }
    if neg {
        if acc == bound {
            Some(-9_223_372_036_854_775_807i64 - 1)
        } else {
            Some(0i64 - (acc as i64))
        }
    } else {
        if acc == bound {
            None
        } else {
            Some(acc as i64)
        }
    }
}

/// The decimal text of a signed integer (`i64::to_string`).
pub open spec fn signed_decimal(v: int) -> Seq<char> {
    if v < 0 {
        seq!['-'] + decimal((-v) as nat)
    } else {
        decimal(v as nat)
    }
}

proof fn lemma_digit_char(d: nat)
    requires
        d < 10,
    ensures
        is_digit(digit_char(d)),
        digit_value(digit_char(d)) == d,
{
    let u = (d + 48) as u32;
    assert(u == d + 48);
    assert(u as char as u32 == u);
}

/// The decimal digits of a number are digits, there is at least one, and
/// they read back as the number.
pub(crate) proof fn lemma_decimal_reads_back(n: nat)
    ensures
        decimal(n).len() > 0,
        all_digits(decimal(n)),
        digits_value(decimal(n)) == n,
    decreases n,
{
    if n < 10 {
        lemma_digit_char(n);
        lemma_digits_value_grows(Seq::<char>::empty(), digit_char(n));
        assert(Seq::<char>::empty().push(digit_char(n)) =~= seq![digit_char(n)]);
    } else {
        lemma_decimal_reads_back(n / 10);
        lemma_digit_char(n % 10);
        let d = decimal(n / 10);
        assert(d.push(digit_char(n % 10)).drop_last() =~= d);
        assert(all_digits(d.push(digit_char(n % 10)))) by {
            assert forall|i: int| 0 <= i < d.len() + 1 implies is_digit(#[trigger] d.push(digit_char(n % 10))[i]) by {
                if i < d.len() {
                    assert(d.push(digit_char(n % 10))[i] == d[i]);
                }
            }
        }
        lemma_digits_value_grows(d, digit_char(n % 10));
        assert((n / 10) * 10 + n % 10 == n) by (nonlinear_arith);
    }
}

/// Reading back the text an integer is written as gives the integer: a
/// number shown in a field parses to itself.
pub proof fn lemma_i64_text_round_trip(v: i64)
    ensures
        parse_i64_spec(signed_decimal(v as int)) == Some(v),
{
    if v < 0 {
        let n = (-(v as int)) as nat;
        lemma_decimal_reads_back(n);
        let t = seq!['-'] + decimal(n);
        assert(t[0] == '-');
        assert(t.drop_first() =~= decimal(n));
    } else {
        let n = v as nat;
        lemma_decimal_reads_back(n);
        assert(is_digit(decimal(n)[0]));
    }
}

/// `i64::to_string`.
pub fn i64_to_string(v: i64) -> (r: String)
    ensures
        r@ == signed_decimal(v as int),
{
    let mut out: Vec<char> = Vec::new();
    if v < 0 {
        out.push('-');
        let m: u64 = ((-(v + 1)) as u64) + 1;
        push_decimal(&mut out, m);
    } else {
        push_decimal(&mut out, v as u64);
    }
    assert(out@ =~= signed_decimal(v as int));
    string_from_chars(&out)
}

/// Whether the text is a special floating-point word: `inf`, `infinity` or
/// `nan`, in any ASCII case.
pub open spec fn is_special_float(s: Seq<char>) -> bool {
    let l = lower_seq(s);
    l == seq!['i', 'n', 'f'] || l == seq!['i', 'n', 'f', 'i', 'n', 'i', 't', 'y'] || l == seq!['n', 'a', 'n']
}

/// The number of `.` in the text.
pub open spec fn dot_count(s: Seq<char>) -> nat
    decreases s.len(),
{
    if s.len() == 0 {
        0
    } else {
        dot_count(s.drop_last()) + if s.last() == '.' { 1nat } else { 0nat }
    }
}

/// The number of ASCII digits in the text.
pub open spec fn digit_count(s: Seq<char>) -> nat
    decreases s.len(),
{
    if s.len() == 0 {
        0
    } else {
        digit_count(s.drop_last()) + if is_digit(s.last()) { 1nat } else { 0nat }
    }
}

/// Whether the character may appear in a mantissa.
pub open spec fn is_mantissa_char(c: char) -> bool {
    is_digit(c) || c == '.'
}

/// The length of the leading run of digits and dots.
pub open spec fn mantissa_len(s: Seq<char>) -> nat
    decreases s.len(),
{
    if s.len() == 0 || !is_mantissa_char(s[0]) {
        0
    } else {
        1 + mantissa_len(s.drop_first())
    }
}

/// Whether the text is a mantissa (`Digit+`, `Digit+ . Digit*` or
/// `Digit* . Digit+`): digits with at most one `.` and at least one digit.
pub open spec fn is_mantissa(s: Seq<char>) -> bool {
    &&& forall|i: int| 0 <= i < s.len() ==> is_mantissa_char(#[trigger] s[i])
    &&& dot_count(s) <= 1
    &&& digit_count(s) >= 1
}

/// Whether the text is an exponent: `e` or `E`, an optional sign, and at
/// least one digit.
pub open spec fn is_exponent(s: Seq<char>) -> bool {
    &&& s.len() >= 2
    &&& (s[0] == 'e' || s[0] == 'E')
    &&& {
        let rest = s.drop_first();
        let digits = if rest[0] == '+' || rest[0] == '-' {
            rest.drop_first()
        } else {
            rest
        };
        digits.len() > 0 && all_digits(digits)
    }
}

/// Whether the text is a decimal number: a mantissa, then optionally an
/// exponent.
pub open spec fn is_decimal_number(s: Seq<char>) -> bool {
    let m = mantissa_len(s) as int;
    is_mantissa(s.subrange(0, m)) && (m == s.len() || is_exponent(s.subrange(m, s.len() as int)))
}

/// The text after an optional leading sign.
pub open spec fn unsigned_part(s: Seq<char>) -> Seq<char> {
    if s.len() > 0 && (s[0] == '+' || s[0] == '-') {
        s.drop_first()
    } else {
        s
    }
}

/// The syntax `f64::from_str` accepts: an optional sign, then `inf`,
/// `infinity` or `nan` in any case, or a decimal number.
pub open spec fn is_float_syntax(s: Seq<char>) -> bool {
    let body = unsigned_part(s);
    is_special_float(body) || is_decimal_number(body)
}

proof fn lemma_mantissa_len(s: Seq<char>)
    ensures
        mantissa_len(s) <= s.len(),
        forall|i: int| 0 <= i < mantissa_len(s) ==> is_mantissa_char(#[trigger] s[i]),
        mantissa_len(s) < s.len() ==> !is_mantissa_char(s[mantissa_len(s) as int]),
    decreases s.len(),
{
    if s.len() > 0 && is_mantissa_char(s[0]) {
        lemma_mantissa_len(s.drop_first());
        assert forall|i: int| 0 <= i < mantissa_len(s) implies is_mantissa_char(#[trigger] s[i]) by {
            if i > 0 {
                assert(s[i] == s.drop_first()[i - 1]);
            }
        }
        if mantissa_len(s) < s.len() {
            assert(s[mantissa_len(s) as int] == s.drop_first()[mantissa_len(s) - 1]);
        }
    }
}

fn chars_eq_lit(a: &Vec<char>, b: Vec<char>) -> (r: bool)
    ensures
        r == (a@ == b@),
{
    chars_equal(a, &b)
}

fn is_special_chars(body: &Vec<char>) -> (r: bool)
    ensures
        r == is_special_float(body@),
{
    let l = lower_chars(body);
    chars_eq_lit(&l, vec!['i', 'n', 'f']) || chars_eq_lit(&l, vec!['i', 'n', 'f', 'i', 'n', 'i', 't', 'y'])
        || chars_eq_lit(&l, vec!['n', 'a', 'n'])
}

fn is_exponent_at(s: &Vec<char>, m: usize) -> (r: bool)
    requires
        m <= s.len(),
    ensures
        r == is_exponent(s@.subrange(m as int, s.len() as int)),
{
    let ghost e = s@.subrange(m as int, s.len() as int);
    if s.len() - m < 2 {
        return false;
    }
    if !(s[m] == 'e' || s[m] == 'E') {
        assert(e[0] == s@[m as int]);
        return false;
    }
    let ghost rest = e.drop_first();
    assert(rest =~= s@.subrange(m + 1, s.len() as int));
    let mut k: usize = m + 1;
    if s[k] == '+' || s[k] == '-' {
        k = k + 1;
    }
    let ghost digits = if rest[0] == '+' || rest[0] == '-' { rest.drop_first() } else { rest };
    assert(digits =~= s@.subrange(k as int, s.len() as int));
    if k == s.len() {
        return false;
    }
    let mut j: usize = k;
    while j < s.len()
        invariant
            k <= j <= s.len(),
            k < s.len(),
            digits =~= s@.subrange(k as int, s.len() as int),
            e == s@.subrange(m as int, s.len() as int),
            e.len() >= 2,
            e[0] == 'e' || e[0] == 'E',
            rest == e.drop_first(),
            digits == (if rest[0] == '+' || rest[0] == '-' { rest.drop_first() } else { rest }),
            forall|q: int| k <= q < j ==> is_digit(#[trigger] s@[q]),
        decreases s.len() - j,
    {
        if !('0' <= s[j] && s[j] <= '9') {
            assert(!is_digit(digits[j - k]));
            return false;
        }
        j = j + 1;
    }
    assert(all_digits(digits)) by {
        assert forall|q: int| 0 <= q < digits.len() implies is_digit(#[trigger] digits[q]) by {
            assert(digits[q] == s@[k + q]);
        }
    }
    true
}

/// Whether the text is one `f64::from_str` accepts.
pub fn is_float_text(text: &str) -> (r: bool)
    ensures
        r == is_float_syntax(text@),
{
    let cs = chars_of(text);
    let mut body: Vec<char> = Vec::new();
    let mut i: usize = 0;
    if cs.len() > 0 && (cs[0] == '+' || cs[0] == '-') {
        i = 1;
    }
    let ghost start = i;
    while i < cs.len()
        invariant
            start <= i <= cs.len(),
            start <= 1,
            body@ == cs@.subrange(start as int, i as int),
        decreases cs.len() - i,
    {
        body.push(cs[i]);
        i = i + 1;
        assert(body@ =~= cs@.subrange(start as int, i as int));
    }
    assert(body@ =~= unsigned_part(text@)) by {
        if cs.len() > 0 && (cs@[0] == '+' || cs@[0] == '-') {
            assert(cs@.subrange(1, cs.len() as int) =~= cs@.drop_first());
        } else {
            assert(cs@.subrange(0, cs.len() as int) =~= cs@);
        }
    }
    if is_special_chars(&body) {
        return true;
    }
    // The mantissa: the leading run of digits and dots.
    let mut m: usize = 0;
    let mut dots: usize = 0;
    let mut digits: usize = 0;
    proof {
        lemma_mantissa_len(body@);
    }
    while m < body.len() && (('0' <= body[m] && body[m] <= '9') || body[m] == '.')
        invariant
            m <= body.len(),
            m <= mantissa_len(body@),
            mantissa_len(body@) <= body@.len(),
            forall|q: int| 0 <= q < mantissa_len(body@) ==> is_mantissa_char(#[trigger] body@[q]),
            mantissa_len(body@) < body@.len() ==> !is_mantissa_char(body@[mantissa_len(body@) as int]),
            dots as nat == dot_count(body@.subrange(0, m as int)),
            digits as nat == digit_count(body@.subrange(0, m as int)),
            dots <= m,
            digits <= m,
        decreases body.len() - m,
    {
        assert(body@.subrange(0, m + 1).drop_last() =~= body@.subrange(0, m as int));
        if body[m] == '.' {
            dots = dots + 1;
        } else {
            digits = digits + 1;
        }
        m = m + 1;
    }
    assert(m == mantissa_len(body@));
    let ghost mant = body@.subrange(0, m as int);
    let ok_mantissa = dots <= 1 && digits >= 1;
    assert(ok_mantissa == is_mantissa(mant));
    if !ok_mantissa {
        return false;
    }
    if m == body.len() {
        return true;
    }
    is_exponent_at(&body, m)
}

} // verus!
