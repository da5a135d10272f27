//! Decimal numerals: rendering unsigned integers as decimal text, and
//! recognising the digit strings and floating-point literals that appear
//! in SWC records.

use vstd::prelude::*;

verus! {

/// Whether `c` is a decimal digit.
pub open spec fn is_digit(c: char) -> bool {
    '0' <= c && c <= '9'
}

/// The numeric value of a decimal digit.
pub open spec fn digit_val(c: char) -> int {
    c as int - '0' as int
}

/// Whether `s` is a non-empty string of decimal digits.
pub open spec fn is_digits(s: Seq<char>) -> bool {
    s.len() > 0 && forall|i: int| 0 <= i < s.len() ==> is_digit(#[trigger] s[i])
}

/// The number denoted by a string of decimal digits.
pub open spec fn digits_val(s: Seq<char>) -> int
    decreases s.len(),
{
    if s.len() == 0 {
        0
    } else {
        10 * digits_val(s.drop_last()) + digit_val(s.last())
    }
}

/// The decimal digit character for a value `0 <= d <= 9`.
pub open spec fn digit_char(d: int) -> char {
    if d == 0 { '0' }
    else if d == 1 { '1' }
    else if d == 2 { '2' }
    else if d == 3 { '3' }
    else if d == 4 { '4' }
    else if d == 5 { '5' }
    else if d == 6 { '6' }
    else if d == 7 { '7' }
    else if d == 8 { '8' }
    else { '9' }
}

/// The canonical decimal rendering of `n`: no sign, no leading zeros
/// (except for `0` itself).
pub open spec fn dec_rep(n: nat) -> Seq<char>
    decreases n,
{
    if n < 10 {
        seq![digit_char(n as int)]
    } else {
        dec_rep(n / 10).push(digit_char((n % 10) as int))
    }
}

/// Exec mirror of [`digit_char`].
fn digit_char_of(d: usize) -> (c: char)
    requires
        d <= 9,
    ensures
        c == digit_char(d as int),
{
    if d == 0 { '0' }
    else if d == 1 { '1' }
    else if d == 2 { '2' }
    else if d == 3 { '3' }
    else if d == 4 { '4' }
    else if d == 5 { '5' }
    else if d == 6 { '6' }
    else if d == 7 { '7' }
    else if d == 8 { '8' }
    else { '9' }
}

/// Exec mirror of [`is_digit`].
pub fn is_digit_char(c: char) -> (r: bool)
    ensures
        r == is_digit(c),
{
    '0' <= c && c <= '9'
}

/// The numeric value of a decimal digit character.
pub fn digit_value(c: char) -> (r: usize)
    requires
        is_digit(c),
    ensures
        r == digit_val(c),
        r <= 9,
{
    (c as u32 - '0' as u32) as usize
}

/// Render `n` as decimal text.
pub fn usize_to_string(n: usize) -> (r: String)
    ensures
        r@ == dec_rep(n as nat),
{
    let mut rev: Vec<char> = Vec::new();
    let mut m: usize = n;
    loop
        invariant_except_break
            dec_rep(n as nat) =~= dec_rep(m as nat) + rev@.reverse(),
        ensures
            dec_rep(n as nat) =~= rev@.reverse(),
        decreases m,
    {
        let ghost prev = m;
        let ghost prev_rev = rev@;
        rev.push(digit_char_of(m % 10));
        m = m / 10;
        proof {
            assert(prev_rev.push(digit_char(prev as int % 10)).reverse() =~= seq![
                digit_char(prev as int % 10),
            ] + prev_rev.reverse());
            if prev >= 10 {
                assert(dec_rep(prev as nat) == dec_rep((prev / 10) as nat).push(
                    digit_char(prev as int % 10),
                ));
                assert(dec_rep((prev / 10) as nat) + rev@.reverse() =~= dec_rep(prev as nat)
                    + prev_rev.reverse());
            } else {
                assert(dec_rep(prev as nat) =~= seq![digit_char(prev as int % 10)]);
                assert(dec_rep((prev / 10) as nat) + rev@.reverse() =~= seq![
                    digit_char(0),
                ] + dec_rep(prev as nat) + prev_rev.reverse());
            }
        }
        if m == 0 {
            break;
        }
    }
    let mut r = String::new();
    let mut i: usize = rev.len();
    while i > 0
        invariant
            i <= rev@.len(),
            r@ =~= rev@.subrange(i as int, rev@.len() as int).reverse(),
        decreases i,
    {
        i = i - 1;
        crate::string_buffer::push_char(&mut r, rev[i]);
        proof {
            assert(rev@.subrange(i as int, rev@.len() as int).reverse() =~= rev@.subrange(
                i + 1,
                rev@.len() as int,
            ).reverse().push(rev@[i as int]));
        }
    }
    proof {
        assert(rev@.subrange(0, rev@.len() as int) =~= rev@);
    }
    r
}

/// `digits_val` can only grow as more digits are appended.
proof fn lemma_digits_val_prefix_le(s: Seq<char>, i: int)
    requires
        0 <= i <= s.len(),
        forall|j: int| 0 <= j < s.len() ==> is_digit(#[trigger] s[j]),
    ensures
        digits_val(s.take(i)) <= digits_val(s),
        digits_val(s) >= 0,
    decreases s.len(),
{
    if s.len() == 0 {
    } else {
        lemma_digits_val_prefix_le(s.drop_last(), if i < s.len() { i } else { i - 1 });
        assert(is_digit(s.last()));
        if i < s.len() {
            assert(s.drop_last().take(i) =~= s.take(i));
        } else {
            assert(s.take(i) =~= s);
        }
    }
}

/// Parse a non-empty digit string as a `usize`.
///
/// Returns `Some` exactly when every character of `t` is a decimal digit,
/// there is at least one, and the denoted value fits in a `usize`.
pub fn parse_usize(t: &Vec<char>) -> (r: Option<usize>)
    ensures
        r is Some <==> is_digits(t@) && digits_val(t@) <= usize::MAX,
        r matches Some(v) ==> v == digits_val(t@),
{
    if t.len() == 0 {
        return None;
    }
    let mut v: usize = 0;
    let mut i: usize = 0;
    while i < t.len()
        invariant
            0 <= i <= t@.len(),
            forall|j: int| 0 <= j < i ==> is_digit(#[trigger] t@[j]),
            v == digits_val(t@.take(i as int)),
        decreases t@.len() - i,
    {
        let c = t[i];
        if !is_digit_char(c) {
            return None;
        }
        let d = digit_value(c);
        proof {
            assert(t@.take(i + 1).drop_last() =~= t@.take(i as int));
            assert(t@.take(i + 1).last() == t@[i as int]);
        }
        if v > (usize::MAX - d) / 10 {
            // The next accumulation step would overflow, so the denoted
            // value cannot fit in a usize.
            proof {
                assert(10 * ((usize::MAX - d) / 10) + d <= usize::MAX);
                assert(digits_val(t@.take(i + 1)) == 10 * v + d);
                assert(10 * v >= 10 * ((usize::MAX - d) / 10 + 1)) by (nonlinear_arith)
                    requires
                        v >= (usize::MAX - d) / 10 + 1,
                ;
                assert(10 * ((usize::MAX - d) / 10 + 1) == 10 * ((usize::MAX - d) / 10) + 10);
                assert(digits_val(t@.take(i + 1)) > usize::MAX);
                if forall|j: int| 0 <= j < t@.len() ==> is_digit(#[trigger] t@[j]) {
                    lemma_digits_val_prefix_le(t@, i + 1);
                }
            }
            return None;
        }
        proof {
            assert(10 * v + d <= usize::MAX) by (nonlinear_arith)
                requires
                    v <= (usize::MAX - d) / 10,
                    d <= 9,
            ;
        }
        v = v * 10 + d;
        i = i + 1;
    }
    proof {
        assert(t@.take(i as int) =~= t@);
    }
    Some(v)
}

/// Exec mirror of [`is_digits`].
pub fn all_digits(t: &Vec<char>) -> (r: bool)
    ensures
        r == is_digits(t@),
{
    if t.len() == 0 {
        return false;
    }
    let mut i: usize = 0;
    while i < t.len()
        invariant
            0 <= i <= t@.len(),
            forall|j: int| 0 <= j < i ==> is_digit(#[trigger] t@[j]),
        decreases t@.len() - i,
    {
        if !is_digit_char(t[i]) {
            return false;
        }
        i = i + 1;
    }
    true
}

/// `digits_val(s)`, saturated at 5: enough to decide the compartment
/// kind, which treats every code of 5 and above alike.
pub open spec fn capped_code(s: Seq<char>) -> int {
    if digits_val(s) >= 5 {
        5
    } else {
        digits_val(s)
    }
}

/// Parse a digit string as a compartment-kind code, saturating at 5 so
/// that arbitrarily long codes are accepted.
///
/// Returns `Some` exactly when `t` is a non-empty string of decimal
/// digits.
pub fn parse_kind_code(t: &Vec<char>) -> (r: Option<usize>)
    ensures
        r is Some <==> is_digits(t@),
        r matches Some(v) ==> v == capped_code(t@),
{
    if t.len() == 0 {
        return None;
    }
    let mut v: usize = 0;
    let mut i: usize = 0;
    while i < t.len()
        invariant
            0 <= i <= t@.len(),
            forall|j: int| 0 <= j < i ==> is_digit(#[trigger] t@[j]),
            v == capped_code(t@.take(i as int)),
            v <= 5,
        decreases t@.len() - i,
    {
        let c = t[i];
        if !is_digit_char(c) {
            return None;
        }
        let d = digit_value(c);
        proof {
            assert(t@.take(i + 1).drop_last() =~= t@.take(i as int));
            assert(t@.take(i + 1).last() == t@[i as int]);
            assert(digits_val(t@.take(i + 1)) == 10 * digits_val(t@.take(i as int)) + d);
            lemma_digits_val_prefix_le(t@.take(i + 1), i as int);
        }
        if v < 5 {
            let nv = v * 10 + d;
            v = if nv >= 5 {
                5
            } else {
                nv
            };
        }
        i = i + 1;
    }
    proof {
        assert(t@.take(i as int) =~= t@);
    }
    Some(v)
}

/// Whether `c` is a numeric sign.
pub open spec fn is_sign(c: char) -> bool {
    c == '+' || c == '-'
}

/// The length of the run of decimal digits starting at position `i`.
pub open spec fn digit_run(s: Seq<char>, i: int) -> int
    decreases s.len() - i,
{
    if i < 0 || i >= s.len() || !is_digit(s[i]) {
        0
    } else {
        1 + digit_run(s, i + 1)
    }
}

proof fn lemma_digit_run_bounds(s: Seq<char>, i: int)
    requires
        0 <= i <= s.len(),
    ensures
        0 <= digit_run(s, i),
        i + digit_run(s, i) <= s.len(),
    decreases s.len() - i,
{
    if i < s.len() && is_digit(s[i]) {
        lemma_digit_run_bounds(s, i + 1);
    }
}

/// Whether positions `k..` of `s` are a valid end of a floating-point
/// literal after the mantissa: either nothing, or an exponent marker with
/// an optionally signed non-empty digit string reaching the end.
pub open spec fn exp_tail_ok(s: Seq<char>, k: int) -> bool {
    if k == s.len() {
        true
    } else if 0 <= k < s.len() && (s[k] == 'e' || s[k] == 'E') {
        let i = if k + 1 < s.len() && is_sign(s[k + 1]) {
            k + 2
        } else {
            k + 1
        };
        digit_run(s, i) > 0 && i + digit_run(s, i) == s.len()
    } else {
        false
    }
}

/// Whether `s` is a floating-point literal: an optional sign, then either
/// digits, digits `.` optional digits, or `.` digits, then an optional
/// exponent part.
pub open spec fn is_float_lit(s: Seq<char>) -> bool {
    let i0: int = if s.len() > 0 && is_sign(s[0]) {
        1
    } else {
        0
    };
    let d1 = digit_run(s, i0);
    if d1 > 0 {
        let j = i0 + d1;
        if j == s.len() {
            true
        } else if s[j] == '.' {
            let d2 = digit_run(s, j + 1);
            exp_tail_ok(s, j + 1 + d2)
        } else {
            exp_tail_ok(s, j)
        }
    } else {
        if i0 < s.len() && s[i0] == '.' {
            let d2 = digit_run(s, i0 + 1);
            d2 > 0 && exp_tail_ok(s, i0 + 1 + d2)
        } else {
            false
        }
    }
}

/// The length of the digit run of `t` starting at `from`.
fn digit_run_len(t: &Vec<char>, from: usize) -> (r: usize)
    requires
        from <= t@.len(),
    ensures
        r == digit_run(t@, from as int),
        from + r <= t@.len(),
{
    let mut j: usize = from;
    while j < t.len() && is_digit_char(t[j])
        invariant
            from <= j <= t@.len(),
            digit_run(t@, from as int) == j - from + digit_run(t@, j as int),
        decreases t@.len() - j,
    {
        j = j + 1;
    }
    proof {
        lemma_digit_run_bounds(t@, j as int);
    }
    j - from
}

/// Whether the characters after the mantissa form a valid exponent tail.
fn exp_tail_check(t: &Vec<char>, k: usize) -> (r: bool)
    requires
        k <= t@.len(),
    ensures
        r == exp_tail_ok(t@, k as int),
{
    if k == t.len() {
        return true;
    }
    let c = t[k];
    if c != 'e' && c != 'E' {
        return false;
    }
    let i: usize = if k + 1 < t.len() && (t[k + 1] == '+' || t[k + 1] == '-') {
        k + 2
    } else {
        k + 1
    };
    if i > t.len() {
        return false;
    }
    let d = digit_run_len(t, i);
    d > 0 && i + d == t.len()
}

/// Whether `t` is a floating-point literal; exec mirror of
/// [`is_float_lit`].
pub fn is_float_token(t: &Vec<char>) -> (r: bool)
    ensures
        r == is_float_lit(t@),
{
    let i0: usize = if t.len() > 0 && (t[0] == '+' || t[0] == '-') {
        1
    } else {
        0
    };
    let d1 = digit_run_len(t, i0);
    if d1 > 0 {
        let j = i0 + d1;
        if j == t.len() {
            true
        } else if t[j] == '.' {
            let d2 = digit_run_len(t, j + 1);
            exp_tail_check(t, j + 1 + d2)
        } else {
            exp_tail_check(t, j)
        }
    } else {
        if i0 < t.len() && t[i0] == '.' {
            let d2 = digit_run_len(t, i0 + 1);
            d2 > 0 && exp_tail_check(t, i0 + 1 + d2)
        } else {
            false
        }
    }
}

} // verus!
