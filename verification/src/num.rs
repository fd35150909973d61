//! Interpretation of JSON number literals.
//!
//! The document model keeps every JSON number as its decimal literal text
//! (an optional sign, integer digits, an optional fraction, an optional
//! exponent).  This module gives that text its meaning: the integer value
//! when the literal is a plain integer that fits `i64`, and, for time
//! display, the truncated whole part together with the position of the
//! fractional part relative to one half.  It also renders unsigned
//! integers back to decimal digits.

use vstd::prelude::*;
use vstd::string::StringExecFns;

verus! {

// ---------------------------------------------------------------------------
// Characters and digit runs
// ---------------------------------------------------------------------------

/// Is `c` a decimal digit?
pub open spec fn is_digit(c: char) -> bool {
    48 <= c as u32 <= 57
}

/// Numeric value of a digit character.
pub open spec fn digit_val(c: char) -> int {
    c as u32 - 48
}

/// The end of the run of digit characters starting at `i`.
pub open spec fn scan_digits(s: Seq<char>, i: int) -> int
    decreases s.len() - i,
{
    if 0 <= i < s.len() && is_digit(s[i]) {
        scan_digits(s, i + 1)
    } else {
        i
    }
}

// ---------------------------------------------------------------------------
// The shape of a decimal literal
// ---------------------------------------------------------------------------

/// One past the leading sign, if any.
pub open spec fn sign_end(s: Seq<char>) -> int {
    if s.len() > 0 && s[0] == '-' {
        1int
    } else {
        0int
    }
}

/// The end of the integer digit run.
pub open spec fn int_end(s: Seq<char>) -> int {
    scan_digits(s, sign_end(s))
}

/// Does a fractional part follow the integer digits?
pub open spec fn has_frac(s: Seq<char>) -> bool {
    int_end(s) < s.len() && s[int_end(s)] == '.'
}

/// The end of the fraction digit run, or `int_end` without a fraction.
pub open spec fn frac_end(s: Seq<char>) -> int {
    if has_frac(s) {
        scan_digits(s, int_end(s) + 1)
    } else {
        int_end(s)
    }
}

/// Does an exponent marker follow the fraction?
pub open spec fn has_exp(s: Seq<char>) -> bool {
    frac_end(s) < s.len() && (s[frac_end(s)] == 'e' || s[frac_end(s)] == 'E')
}

/// Where the exponent digits begin, past the marker and an optional sign.
pub open spec fn exp_digits_start(s: Seq<char>) -> int {
    if has_exp(s) {
        let j = frac_end(s) + 1;
        if j < s.len() && (s[j] == '-' || s[j] == '+') {
            j + 1
        } else {
            j
        }
    } else {
        frac_end(s)
    }
}

/// Is the exponent negative?
pub open spec fn exp_neg(s: Seq<char>) -> bool {
    has_exp(s) && frac_end(s) + 1 < s.len() && s[frac_end(s) + 1] == '-'
}

/// The end of the exponent digit run.
pub open spec fn exp_end(s: Seq<char>) -> int {
    scan_digits(s, exp_digits_start(s))
}

/// Is `s` a well-formed decimal literal, wholly consumed?
pub open spec fn num_wf(s: Seq<char>) -> bool {
    &&& int_end(s) > sign_end(s)
    &&& (has_frac(s) ==> frac_end(s) > int_end(s) + 1)
    &&& (has_exp(s) ==> exp_end(s) > exp_digits_start(s))
    &&& exp_end(s) == s.len()
}

// ---------------------------------------------------------------------------
// Digit sequences and their values
// ---------------------------------------------------------------------------

/// A digit value clamped into `0..=9`; out-of-range values count as zero.
pub open spec fn clamp_digit(v: int) -> int {
    if 0 <= v <= 9 {
        v
    } else {
        0int
    }
}

/// The digit at position `i`, or zero outside the sequence.
pub open spec fn digit_at(d: Seq<int>, i: int) -> int {
    if 0 <= i < d.len() {
        clamp_digit(d[i])
    } else {
        0int
    }
}

/// The integer a digit sequence denotes, most significant first.
pub open spec fn digits_to_nat(d: Seq<int>) -> int
    decreases d.len(),
{
    if d.len() == 0 {
        0int
    } else {
        digits_to_nat(d.drop_last()) * 10 + clamp_digit(d.last())
    }
}

/// The value of the digits in positions `0 .. k`, missing positions being
/// zero: the whole part of the number whose decimal point sits at `k`.
pub open spec fn whole_prefix(d: Seq<int>, k: int) -> int
    decreases k,
{
    if k <= 0 {
        0int
    } else {
        whole_prefix(d, k - 1) * 10 + digit_at(d, k - 1)
    }
}

proof fn lemma_whole_prefix_nonneg(d: Seq<int>, k: int)
    ensures
        whole_prefix(d, k) >= 0,
    decreases k,
{
    if k > 0 {
        lemma_whole_prefix_nonneg(d, k - 1);
    }
}

proof fn lemma_digits_to_nat_nonneg(d: Seq<int>)
    ensures
        digits_to_nat(d) >= 0,
    decreases d.len(),
{
    if d.len() > 0 {
        lemma_digits_to_nat_nonneg(d.drop_last());
    }
}

/// The integer and fraction digits of the literal, in order.
pub open spec fn mantissa(s: Seq<char>) -> Seq<int> {
    s.subrange(sign_end(s), int_end(s)).map(|_i: int, c: char| digit_val(c)) + (if has_frac(s) {
        s.subrange(int_end(s) + 1, frac_end(s)).map(|_i: int, c: char| digit_val(c))
    } else {
        Seq::<int>::empty()
    })
}

/// The exponent digits of the literal.
pub open spec fn exp_digit_seq(s: Seq<char>) -> Seq<int> {
    s.subrange(exp_digits_start(s), exp_end(s)).map(|_i: int, c: char| digit_val(c))
}

/// The decimal point's position within the mantissa, exponent applied,
/// clamped to `-1 ..= mantissa length + 21`.  Outside that window the
/// whole part is already saturated or zero and the fractional digits are
/// already uniform, so clamping does not change the number's reading.
pub open spec fn point_eff(s: Seq<char>) -> int {
    let ilen = int_end(s) - sign_end(s);
    let mlen = mantissa(s).len() as int;
    let cap = mlen + 23;
    let m = if digits_to_nat(exp_digit_seq(s)) > cap {
        cap
    } else {
        digits_to_nat(exp_digit_seq(s))
    };
    let p = if exp_neg(s) {
        ilen - m
    } else {
        ilen + m
    };
    if p < -1 {
        -1int
    } else if p > mlen + 21 {
        mlen + 21
    } else {
        p
    }
}

/// The decimal point's position with no clamping applied.
pub open spec fn point_raw(s: Seq<char>) -> int {
    let ilen = int_end(s) - sign_end(s);
    if exp_neg(s) {
        ilen - digits_to_nat(exp_digit_seq(s))
    } else {
        ilen + digits_to_nat(exp_digit_seq(s))
    }
}

// ---------------------------------------------------------------------------
// The fractional part against one half
// ---------------------------------------------------------------------------

/// Where the fractional part of a number stands relative to one half.
#[derive(Clone, Copy, Debug, PartialEq, Eq, Structural)]
pub enum Frac {
    /// No fractional part: the value is a whole number.
    Zero,
    /// A fractional part strictly below one half.
    BelowHalf,
    /// A fractional part of exactly one half.
    Half,
    /// A fractional part strictly above one half.
    AboveHalf,
}

/// Are all digits at positions `from ..` zero?
pub open spec fn all_zero_from(d: Seq<int>, from: int) -> bool {
    forall|i: int| from <= i < d.len() ==> digit_at(d, i) == 0
}

/// Classify the digits after position `point` against one half.
pub open spec fn spec_frac_class(d: Seq<int>, point: int) -> Frac {
    if all_zero_from(d, point) {
        Frac::Zero
    } else if digit_at(d, point) > 5 {
        Frac::AboveHalf
    } else if digit_at(d, point) == 5 {
        if all_zero_from(d, point + 1) {
            Frac::Half
        } else {
            Frac::AboveHalf
        }
    } else {
        Frac::BelowHalf
    }
}

// ---------------------------------------------------------------------------
// The reading of a literal
// ---------------------------------------------------------------------------

/// The reading of a number literal for time display: its sign, its whole
/// part truncated toward zero and saturated at `u64::MAX`, and its
/// fractional part classified against one half.  Text that is not a
/// well-formed literal reads as zero.
#[derive(Clone, Copy, Debug, PartialEq, Eq, Structural)]
pub struct NumberParts {
    pub neg: bool,
    pub whole: u64,
    pub frac: Frac,
}

/// A whole part saturated into `u64`.
pub open spec fn sat64(w: int) -> u64 {
    if w > u64::MAX {
        u64::MAX
    } else if w < 0 {
        0u64
    } else {
        w as u64
    }
}

/// The reading of `s` as [`NumberParts`].
pub open spec fn spec_number_parts(s: Seq<char>) -> NumberParts {
    if !num_wf(s) {
        NumberParts { neg: false, whole: 0, frac: Frac::Zero }
    } else {
        NumberParts {
            neg: sign_end(s) == 1,
            whole: sat64(whole_prefix(mantissa(s), point_eff(s))),
            frac: spec_frac_class(mantissa(s), point_eff(s)),
        }
    }
}

/// Is `s` a plain integer literal: a sign and digits, nothing else?
pub open spec fn int_shape(s: Seq<char>) -> bool {
    num_wf(s) && !has_frac(s) && !has_exp(s)
}

/// The integer digits of the literal.
pub open spec fn int_digit_seq(s: Seq<char>) -> Seq<int> {
    s.subrange(sign_end(s), int_end(s)).map(|_i: int, c: char| digit_val(c))
}

/// The value of `s` as an `i64`: only a plain integer literal whose value
/// fits the type has one.
pub open spec fn spec_num_as_i64(s: Seq<char>) -> Option<i64> {
    if !int_shape(s) {
        None
    } else {
        let m = digits_to_nat(int_digit_seq(s));
        let v = if sign_end(s) == 1 {
            -m
        } else {
            m
        };
        if i64::MIN <= v <= i64::MAX {
            Some(v as i64)
        } else {
            None
        }
    }
}

// ---------------------------------------------------------------------------
// The clamping window is faithful
// ---------------------------------------------------------------------------

proof fn lemma_scan_digits_bounds(s: Seq<char>, i: int)
    requires
        0 <= i <= s.len(),
    ensures
        i <= scan_digits(s, i) <= s.len(),
    decreases s.len() - i,
{
    if i < s.len() && is_digit(s[i]) {
        lemma_scan_digits_bounds(s, i + 1);
    }
}

spec fn pow10(k: nat) -> int
    decreases k,
{
    if k == 0 {
        1int
    } else {
        10 * pow10((k - 1) as nat)
    }
}

proof fn lemma_pow10_pos(k: nat)
    ensures
        pow10(k) >= 1,
    decreases k,
{
    if k > 0 {
        lemma_pow10_pos((k - 1) as nat);
    }
}

proof fn lemma_pow10_mono(a: nat, b: nat)
    requires
        a <= b,
    ensures
        pow10(a) <= pow10(b),
    decreases b,
{
    if a < b {
        lemma_pow10_mono(a, (b - 1) as nat);
        lemma_pow10_pos((b - 1) as nat);
    }
}

proof fn lemma_wp_zero(d: Seq<int>, k: int)
    requires
        all_zero_from(d, 0),
    ensures
        whole_prefix(d, k) == 0,
    decreases k,
{
    if k > 0 {
        lemma_wp_zero(d, k - 1);
        assert(digit_at(d, k - 1) == 0);
    }
}

proof fn lemma_wp_growth(d: Seq<int>, a: int, b: int)
    requires
        whole_prefix(d, a) >= 1,
        a <= b,
    ensures
        whole_prefix(d, b) >= pow10((b - a) as nat),
    decreases b - a,
{
    if a < b {
        lemma_wp_growth(d, a, b - 1);
        lemma_pow10_pos((b - 1 - a) as nat);
        assert(whole_prefix(d, b - 1) * 10 >= pow10((b - 1 - a) as nat) * 10);
    }
}

proof fn lemma_wp_saturated(d: Seq<int>, k: int)
    requires
        !all_zero_from(d, 0),
        k >= d.len() + 20,
    ensures
        whole_prefix(d, k) > u64::MAX,
{
    let j = choose|j: int| 0 <= j < d.len() && digit_at(d, j) != 0;
    assert(0 <= j < d.len() && digit_at(d, j) != 0);
    lemma_whole_prefix_nonneg(d, j);
    assert(whole_prefix(d, j + 1) >= 1);
    lemma_wp_growth(d, j + 1, k);
    lemma_pow10_mono(20, (k - j - 1) as nat);
    assert(pow10(20) == 100000000000000000000int) by {
        reveal_with_fuel(pow10, 21);
    }
}

proof fn lemma_reading_low(d: Seq<int>, a: int, b: int)
    requires
        a <= -1,
        b <= -1,
    ensures
        whole_prefix(d, a) == 0,
        whole_prefix(d, b) == 0,
        spec_frac_class(d, a) == spec_frac_class(d, b),
{
    assert(all_zero_from(d, a) <==> all_zero_from(d, b)) by {
        if all_zero_from(d, a) {
            assert forall|i: int| b <= i < d.len() implies digit_at(d, i) == 0 by {
                if i < 0 {
                } else {
                    assert(a <= i);
                }
            }
        }
        if all_zero_from(d, b) {
            assert forall|i: int| a <= i < d.len() implies digit_at(d, i) == 0 by {
                if i < 0 {
                } else {
                    assert(b <= i);
                }
            }
        }
    }
    assert(digit_at(d, a) == 0);
    assert(digit_at(d, b) == 0);
}

proof fn lemma_reading_high(d: Seq<int>, a: int, b: int)
    requires
        a >= d.len() + 20,
        b >= d.len() + 20,
    ensures
        sat64(whole_prefix(d, a)) == sat64(whole_prefix(d, b)),
        spec_frac_class(d, a) == spec_frac_class(d, b),
{
    assert(all_zero_from(d, a));
    assert(all_zero_from(d, b));
    if all_zero_from(d, 0) {
        lemma_wp_zero(d, a);
        lemma_wp_zero(d, b);
    } else {
        lemma_wp_saturated(d, a);
        lemma_wp_saturated(d, b);
    }
}

/// The clamping window in [`point_eff`] is faithful: the raw decimal
/// point and the effective one give the same saturated whole part and
/// the same fractional class, for every well-formed literal.
pub proof fn lemma_point_window_faithful(s: Seq<char>)
    requires
        num_wf(s),
    ensures
        sat64(whole_prefix(mantissa(s), point_raw(s))) == sat64(
            whole_prefix(mantissa(s), point_eff(s)),
        ),
        spec_frac_class(mantissa(s), point_raw(s)) == spec_frac_class(
            mantissa(s),
            point_eff(s),
        ),
{
    let d = mantissa(s);
    let mlen = d.len() as int;
    let ilen = int_end(s) - sign_end(s);
    let mag = digits_to_nat(exp_digit_seq(s));
    let p = point_raw(s);
    let q = point_eff(s);
    lemma_digits_to_nat_nonneg(exp_digit_seq(s));
    assert(0 <= sign_end(s) <= s.len());
    lemma_scan_digits_bounds(s, sign_end(s));
    if has_frac(s) {
        lemma_scan_digits_bounds(s, int_end(s) + 1);
    }
    assert(0 <= ilen <= mlen);
    if mag <= mlen + 23 {
        if p < -1 {
            lemma_reading_low(d, p, -1);
            lemma_whole_prefix_nonneg(d, q);
        } else if p > mlen + 21 {
            lemma_reading_high(d, p, mlen + 21);
        } else {
            assert(q == p);
        }
    } else {
        if exp_neg(s) {
            assert(p < -1);
            assert(q == -1);
            lemma_reading_low(d, p, -1);
        } else {
            assert(p > mlen + 21);
            assert(q == mlen + 21);
            lemma_reading_high(d, p, mlen + 21);
        }
    }
}

// ---------------------------------------------------------------------------
// The two readings agree on integers
// ---------------------------------------------------------------------------

proof fn lemma_scan_digits_fixpoint(s: Seq<char>, i: int)
    ensures
        scan_digits(s, scan_digits(s, i)) == scan_digits(s, i),
    decreases s.len() - i,
{
    if 0 <= i < s.len() && is_digit(s[i]) {
        lemma_scan_digits_fixpoint(s, i + 1);
    }
}

proof fn lemma_wp_is_d2n(d: Seq<int>, k: int)
    requires
        0 <= k <= d.len(),
    ensures
        whole_prefix(d, k) == digits_to_nat(d.take(k)),
    decreases k,
{
    if k > 0 {
        lemma_wp_is_d2n(d, k - 1);
        assert(d.take(k).drop_last() =~= d.take(k - 1));
        assert(d.take(k).last() == d[k - 1]);
    }
}

/// A plain integer literal reads consistently in both readings: its
/// [`NumberParts`] carry no fractional part, the same sign, and the
/// saturation of the same magnitude that [`spec_num_as_i64`] reads.
pub proof fn lemma_integer_readings_agree(s: Seq<char>)
    requires
        int_shape(s),
    ensures
        spec_number_parts(s).frac == Frac::Zero,
        spec_number_parts(s).neg == (sign_end(s) == 1),
        spec_number_parts(s).whole == sat64(digits_to_nat(int_digit_seq(s))),
{
    let d = mantissa(s);
    assert(0 <= sign_end(s) <= s.len());
    lemma_scan_digits_bounds(s, sign_end(s));
    assert(d =~= int_digit_seq(s));
    let ilen = int_end(s) - sign_end(s);
    lemma_scan_digits_fixpoint(s, sign_end(s));
    assert(int_end(s) == s.len());
    assert(exp_digit_seq(s) =~= Seq::<int>::empty());
    assert(point_eff(s) == ilen);
    lemma_wp_is_d2n(d, ilen);
    assert(d.take(ilen) =~= d);
    assert(all_zero_from(d, ilen));
    lemma_digits_to_nat_nonneg(d);
}

// ---------------------------------------------------------------------------
// Executable scanning
// ---------------------------------------------------------------------------

fn char_is_digit(c: char) -> (r: bool)
    ensures
        r == is_digit(c),
{
    let u = c as u32;
    48 <= u && u <= 57
}

/// Walk the digit run of `text` starting at `start`.
fn scan_digits_exec(text: &str, n: usize, start: usize) -> (r: usize)
    requires
        n == text@.len(),
        start <= n,
    ensures
        start <= r <= n,
        r as int == scan_digits(text@, start as int),
        r == n || !is_digit(text@[r as int]),
        forall|j: int| start <= j < r ==> is_digit(text@[j]),
{
    let mut i: usize = start;
    loop
        invariant
            n == text@.len(),
            start <= i <= n,
            scan_digits(text@, start as int) == scan_digits(text@, i as int),
            forall|j: int| start <= j < i ==> is_digit(text@[j]),
        ensures
            start <= i <= n,
            i as int == scan_digits(text@, start as int),
            i == n || !is_digit(text@[i as int]),
            forall|j: int| start <= j < i ==> is_digit(text@[j]),
        decreases n - i,
    {
        if i == n {
            break;
        }
        let c = text.get_char(i);
        if !char_is_digit(c) {
            break;
        }
        proof {
            assert(scan_digits(text@, i as int) == scan_digits(text@, i + 1));
        }
        i = i + 1;
    }
    i
}

// ---------------------------------------------------------------------------
// Executable integer reading
// ---------------------------------------------------------------------------

/// Read `text` as a plain integer literal whose value fits `i64`.
pub fn number_as_i64(text: &str) -> (r: Option<i64>)
    ensures
        r == spec_num_as_i64(text@),
{
    let ghost s = text@;
    let n = text.unicode_len();
    let neg = if n > 0 {
        text.get_char(0) == '-'
    } else {
        false
    };
    let sgn: usize = if neg {
        1
    } else {
        0
    };
    proof {
        assert(sgn as int == sign_end(s));
    }
    let iend = scan_digits_exec(text, n, sgn);
    if iend == sgn {
        return None;
    }
    if iend != n {
        proof {
            if !has_frac(s) && !has_exp(s) {
                assert(exp_digits_start(s) == iend as int);
                assert(scan_digits(s, iend as int) == iend as int);
                assert(!num_wf(s));
            }
        }
        return None;
    }
    proof {
        assert(scan_digits(s, iend as int) == iend as int);
        assert(int_shape(s));
    }
    let ghost ds = int_digit_seq(s);
    let mut acc: i64 = 0;
    let mut over = false;
    let mut i: usize = sgn;
    while i < iend
        invariant
            sgn <= i <= iend,
            iend <= n,
            n == s.len(),
            s == text@,
            iend as int == int_end(s),
            sgn as int == sign_end(s),
            ds == int_digit_seq(s),
            ds.len() == iend - sgn,
            forall|j: int| sgn <= j < iend ==> is_digit(s[j]),
            !over ==> acc <= 0 && acc as int == -digits_to_nat(ds.take(i - sgn)),
            over ==> digits_to_nat(ds.take(i - sgn)) > i64::MAX as int + 1,
        decreases iend - i,
    {
        let c = text.get_char(i);
        let d: i64 = (c as u32 - 48) as i64;
        proof {
            assert(ds.take(i - sgn + 1).drop_last() =~= ds.take(i - sgn));
            assert(ds[i - sgn] == digit_val(s[i as int]));
            assert(0 <= digit_val(s[i as int]) <= 9);
            assert(clamp_digit(ds[i - sgn]) == d);
        }
        let ghost prev = digits_to_nat(ds.take(i - sgn));
        let ghost next = digits_to_nat(ds.take(i - sgn + 1));
        proof {
            assert(next == prev * 10 + d);
            lemma_digits_to_nat_nonneg(ds.take(i - sgn));
        }
        if over {
            proof {
                assert(prev * 10 >= prev);
                assert(next > i64::MAX as int + 1);
            }
        } else {
            match acc.checked_mul(10) {
                Some(a10) => {
                    match a10.checked_sub(d) {
                        Some(a2) => {
                            acc = a2;
                        },
                        None => {
                            over = true;
                            proof {
                                assert(next > i64::MAX as int + 1);
                            }
                        },
                    }
                },
                None => {
                    over = true;
                    proof {
                        assert(prev * 10 > i64::MAX as int + 1);
                        assert(next > i64::MAX as int + 1);
                    }
                },
            }
        }
        i = i + 1;
    }
    proof {
        assert(ds.take(iend - sgn) =~= ds);
    }
    if over {
        return None;
    }
    if neg {
        Some(acc)
    } else {
        if acc == i64::MIN {
            None
        } else {
            Some(-acc)
        }
    }
}

// ---------------------------------------------------------------------------
// Executable reading for time display
// ---------------------------------------------------------------------------

/// Are all stored digits at positions `from ..` zero?
fn all_zero_scan(digits: &Vec<u8>, from: i128) -> (r: bool)
    requires
        forall|j: int| 0 <= j < digits@.len() ==> digits@[j] <= 9,
    ensures
        r == all_zero_from(digits@.map(|_i: int, b: u8| b as int), from as int),
{
    let ghost md = digits@.map(|_i: int, b: u8| b as int);
    let n = digits.len();
    let start: usize = if from <= 0 {
        0
    } else if from >= n as i128 {
        n
    } else {
        from as usize
    };
    let mut i: usize = start;
    while i < n
        invariant
            start <= i <= n,
            n == digits@.len(),
            from as int <= start as int || start == n,
            md == digits@.map(|_i: int, b: u8| b as int),
            forall|j: int| 0 <= j < digits@.len() ==> digits@[j] <= 9,
            forall|j: int| start <= j < i ==> digits@[j] == 0,
        decreases n - i,
    {
        if digits[i] != 0 {
            proof {
                assert(digit_at(md, i as int) == digits@[i as int]);
                assert(from as int <= i as int);
                assert((i as int) < md.len());
                assert(digit_at(md, i as int) != 0);
                assert(!all_zero_from(md, from as int));
            }
            return false;
        }
        i = i + 1;
    }
    proof {
        assert forall|k: int| from <= k < md.len() implies digit_at(md, k) == 0 by {
            if k >= 0 {
                assert(k >= start);
                assert(digits@[k] == 0);
            }
        }
    }
    true
}

/// Read `text` as [`NumberParts`] for time display.
#[verifier::rlimit(100)]
pub fn number_parts(text: &str) -> (r: NumberParts)
    ensures
        r == spec_number_parts(text@),
{
    let ghost s = text@;
    let n = text.unicode_len();
    let neg = if n > 0 {
        text.get_char(0) == '-'
    } else {
        false
    };
    let sgn: usize = if neg {
        1
    } else {
        0
    };
    proof {
        assert(sgn as int == sign_end(s));
    }
    let iend = scan_digits_exec(text, n, sgn);
    let hasf = iend < n && text.get_char(iend) == '.';
    proof {
        assert(hasf == has_frac(s));
    }
    let fend: usize = if hasf {
        scan_digits_exec(text, n, iend + 1)
    } else {
        iend
    };
    proof {
        assert(fend as int == frac_end(s));
        assert(scan_digits(s, fend as int) == fend as int);
    }
    let hase = fend < n && {
        let c = text.get_char(fend);
        c == 'e' || c == 'E'
    };
    proof {
        assert(hase == has_exp(s));
    }
    let mut eneg = false;
    let mut estart: usize = fend;
    if hase {
        let mut j = fend + 1;
        if j < n {
            let c = text.get_char(j);
            if c == '-' {
                eneg = true;
                j = j + 1;
            } else if c == '+' {
                j = j + 1;
            }
        }
        estart = j;
    }
    proof {
        assert(estart as int == exp_digits_start(s));
        assert(eneg == exp_neg(s));
    }
    let eend: usize = if hase {
        scan_digits_exec(text, n, estart)
    } else {
        fend
    };
    proof {
        assert(eend as int == exp_end(s));
    }
    let wf = iend > sgn && (!hasf || fend > iend + 1) && (!hase || eend > estart) && eend == n;
    proof {
        assert(wf == num_wf(s));
    }
    if !wf {
        return NumberParts { neg: false, whole: 0, frac: Frac::Zero };
    }

    // Collect the mantissa digits.
    let ghost md = mantissa(s);
    let ilen: usize = iend - sgn;
    let mut digits: Vec<u8> = Vec::new();
    let mut i: usize = sgn;
    while i < iend
        invariant
            sgn <= i <= iend <= n,
            n == s.len(),
            s == text@,
            sgn as int == sign_end(s),
            iend as int == int_end(s),
            ilen == iend - sgn,
            md == mantissa(s),
            forall|j: int| sgn <= j < iend ==> is_digit(s[j]),
            digits@.len() == i - sgn,
            forall|j: int| 0 <= j < digits@.len() ==> digits@[j] <= 9,
            forall|j: int| 0 <= j < digits@.len() ==> digits@[j] as int == md[j],
        decreases iend - i,
    {
        let c = text.get_char(i);
        let d: u8 = (c as u32 - 48) as u8;
        proof {
            assert(md[i - sgn] == digit_val(s[i as int]));
        }
        digits.push(d);
        i = i + 1;
    }
    if hasf {
        let mut k: usize = iend + 1;
        while k < fend
            invariant
                iend + 1 <= k <= fend,
                fend <= n,
                n == s.len(),
                s == text@,
                sgn as int == sign_end(s),
                iend as int == int_end(s),
                fend as int == frac_end(s),
                has_frac(s),
                ilen == iend - sgn,
                md == mantissa(s),
                forall|j: int| iend + 1 <= j < fend ==> is_digit(s[j]),
                digits@.len() == ilen + (k - iend - 1),
                forall|j: int| 0 <= j < digits@.len() ==> digits@[j] <= 9,
                forall|j: int| 0 <= j < digits@.len() ==> digits@[j] as int == md[j],
            decreases fend - k,
        {
            let c = text.get_char(k);
            let d: u8 = (c as u32 - 48) as u8;
            proof {
                assert(md[ilen + (k - iend - 1)] == digit_val(s[k as int]));
            }
            digits.push(d);
            k = k + 1;
        }
    }
    proof {
        assert(digits@.len() == md.len());
        assert(md =~= digits@.map(|_i: int, b: u8| b as int));
    }

    // Read the exponent magnitude, saturated just past the useful range.
    let ghost ed = exp_digit_seq(s);
    let cap: u128 = digits.len() as u128 + 23;
    proof {
        assert(cap <= u64::MAX as u128 + 23);
    }
    let mut mag: u128 = 0;
    let mut e: usize = estart;
    while e < eend
        invariant
            estart <= e <= eend <= n,
            n == s.len(),
            s == text@,
            estart as int == exp_digits_start(s),
            eend as int == exp_end(s),
            ed == exp_digit_seq(s),
            ed.len() == eend - estart,
            cap as int == digits@.len() + 23,
            forall|j: int| estart <= j < eend ==> is_digit(s[j]),
            cap <= u64::MAX as u128 + 23,
            mag <= cap,
            mag as int == ({
                let t = digits_to_nat(ed.take(e - estart));
                if t > cap as int {
                    cap as int
                } else {
                    t
                }
            }),
        decreases eend - e,
    {
        let c = text.get_char(e);
        let d: u128 = (c as u32 - 48) as u128;
        proof {
            assert(ed.take(e - estart + 1).drop_last() =~= ed.take(e - estart));
            assert(ed[e - estart] == digit_val(s[e as int]));
            assert(clamp_digit(ed[e - estart]) == d);
            lemma_digits_to_nat_nonneg(ed.take(e - estart));
        }
        let ghost prev = digits_to_nat(ed.take(e - estart));
        let ghost next = digits_to_nat(ed.take(e - estart + 1));
        proof {
            assert(next == prev * 10 + d);
            assert(prev * 10 >= prev);
        }
        let nm: u128 = mag * 10 + d;
        if nm > cap || mag == cap {
            mag = cap;
        } else {
            mag = nm;
        }
        e = e + 1;
    }
    proof {
        assert(ed.take(eend - estart) =~= ed);
    }

    // The effective decimal point.
    let mlen: usize = digits.len();
    let p_raw: i128 = if eneg {
        ilen as i128 - mag as i128
    } else {
        ilen as i128 + mag as i128
    };
    let pcap: i128 = mlen as i128 + 21;
    let p: i128 = if p_raw < -1 {
        -1
    } else if p_raw > pcap {
        pcap
    } else {
        p_raw
    };
    proof {
        assert(p as int == point_eff(s));
    }

    // The whole part, saturated at u64::MAX.
    let mut w: u64 = 0;
    let mut wsat = false;
    let mut kk: i128 = 0;
    while kk < p
        invariant
            0 <= kk,
            p <= mlen as i128 + 21,
            kk <= if p < 0 { 0i128 } else { p },
            mlen == digits@.len(),
            md == digits@.map(|_i: int, b: u8| b as int),
            forall|j: int| 0 <= j < digits@.len() ==> digits@[j] <= 9,
            !wsat ==> w as int == whole_prefix(md, kk as int),
            wsat ==> whole_prefix(md, kk as int) > u64::MAX,
        decreases p - kk,
    {
        let d: u64 = if kk < mlen as i128 {
            digits[kk as usize] as u64
        } else {
            0
        };
        proof {
            assert(digit_at(md, kk as int) == d);
            assert(whole_prefix(md, kk as int + 1) == whole_prefix(md, kk as int) * 10 + digit_at(
                md,
                kk as int,
            ));
            lemma_whole_prefix_nonneg(md, kk as int);
        }
        if wsat {
            proof {
                assert(whole_prefix(md, kk as int) * 10 >= whole_prefix(md, kk as int));
            }
        } else {
            match w.checked_mul(10) {
                Some(w10) => {
                    match w10.checked_add(d) {
                        Some(w2) => {
                            w = w2;
                        },
                        None => {
                            wsat = true;
                        },
                    }
                },
                None => {
                    wsat = true;
                    proof {
                        assert(whole_prefix(md, kk as int) * 10 > u64::MAX);
                    }
                },
            }
        }
        kk = kk + 1;
    }
    proof {
        if p <= 0 {
            assert(whole_prefix(md, p as int) == 0);
        } else {
            assert(kk == p);
        }
    }
    let whole: u64 = if wsat {
        u64::MAX
    } else {
        w
    };

    // The fractional class.
    let frac = if all_zero_scan(&digits, p) {
        Frac::Zero
    } else {
        let d0: u8 = if 0 <= p && p < mlen as i128 {
            digits[p as usize]
        } else {
            0
        };
        proof {
            assert(digit_at(md, p as int) == d0);
        }
        if d0 > 5 {
            Frac::AboveHalf
        } else if d0 == 5 {
            if all_zero_scan(&digits, p + 1) {
                Frac::Half
            } else {
                Frac::AboveHalf
            }
        } else {
            Frac::BelowHalf
        }
    };
    NumberParts { neg, whole, frac }
}

// ---------------------------------------------------------------------------
// Decimal rendering
// ---------------------------------------------------------------------------

/// The digit character for a value in `0..=9`; other values render as '0'.
pub open spec fn spec_digit_char(d: int) -> char {
    if d == 1 {
        '1'
    } else if d == 2 {
        '2'
    } else if d == 3 {
        '3'
    } else if d == 4 {
        '4'
    } else if d == 5 {
        '5'
    } else if d == 6 {
        '6'
    } else if d == 7 {
        '7'
    } else if d == 8 {
        '8'
    } else if d == 9 {
        '9'
    } else {
        '0'
    }
}

/// The decimal digits of a non-negative integer, no leading zeros.
pub open spec fn spec_dec(n: int) -> Seq<char>
    decreases n,
{
    if n < 10 {
        seq![spec_digit_char(n)]
    } else {
        spec_dec(n / 10).push(spec_digit_char(n % 10))
    }
}

/// The decimal digits of a non-negative integer, left-padded with '0' to
/// at least two places.
pub open spec fn spec_pad2(n: int) -> Seq<char> {
    if n < 10 {
        seq!['0'] + spec_dec(n)
    } else {
        spec_dec(n)
    }
}

fn digit_str(d: u64) -> (s: &'static str)
    requires
        d < 10,
    ensures
        s@ == seq![spec_digit_char(d as int)],
{
    proof {
        reveal_strlit("0");
        reveal_strlit("1");
        reveal_strlit("2");
        reveal_strlit("3");
        reveal_strlit("4");
        reveal_strlit("5");
        reveal_strlit("6");
        reveal_strlit("7");
        reveal_strlit("8");
        reveal_strlit("9");
    }
    if d == 1 {
        "1"
    } else if d == 2 {
        "2"
    } else if d == 3 {
        "3"
    } else if d == 4 {
        "4"
    } else if d == 5 {
        "5"
    } else if d == 6 {
        "6"
    } else if d == 7 {
        "7"
    } else if d == 8 {
        "8"
    } else if d == 9 {
        "9"
    } else {
        "0"
    }
}

/// Render an unsigned integer as decimal digits.
pub fn dec_u64(n: u64) -> (s: String)
    ensures
        s@ == spec_dec(n as int),
    decreases n,
{
    if n < 10 {
        String::from_str(digit_str(n))
    } else {
        let mut s = dec_u64(n / 10);
        s.append(digit_str(n % 10));
        s
    }
}

/// Render an unsigned integer as decimal digits, at least two places.
pub fn pad2_u64(n: u64) -> (s: String)
    ensures
        s@ == spec_pad2(n as int),
{
    if n < 10 {
        proof {
            reveal_strlit("0");
        }
        let mut s = String::from_str("0");
        s.append(digit_str(n));
        s
    } else {
        dec_u64(n)
    }
}

} // verus!
