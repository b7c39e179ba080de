//! Signed decimal number literals: the token grammar, a scanner for the
//! longest number token at a given position, and the predicates on a literal
//! that the evaluator's domain checks need (zero, negative, integer).

use vstd::prelude::*;

use crate::text::{is_digit_char, spec_is_digit};

verus! {

/// First position at or after `i` that does not hold a digit.
pub open spec fn spec_skip_digits(s: Seq<char>, i: int) -> int
    decreases s.len() - i,
{
    if i < s.len() && spec_is_digit(s[i]) {
        spec_skip_digits(s, i + 1)
    } else {
        i
    }
}

/// The end of the longest number token starting at `i`, if one starts there.
///
/// A number token is an optional minus sign followed by either one or more
/// digits, or by zero or more digits, a decimal point and one or more digits
/// (so `7`, `-7`, `2.5`, `.5` and `-.5` are tokens, while `.`, `-` and `7.`
/// are not).
pub open spec fn spec_scan_number(s: Seq<char>, start: int) -> Option<int> {
    let j = if start < s.len() && s[start] == '-' {
        start + 1
    } else {
        start
    };
    let k = spec_skip_digits(s, j);
    if k < s.len() && s[k] == '.' && k + 1 < s.len() && spec_is_digit(s[k + 1]) {
        Some(spec_skip_digits(s, k + 1))
    } else if k > j {
        Some(k)
    } else {
        None
    }
}

/// Whether the whole of `s` is one number token.
pub open spec fn spec_is_number(s: Seq<char>) -> bool {
    spec_scan_number(s, 0) == Some(s.len() as int)
}

/// Whether the literal denotes zero: it holds no nonzero digit.
pub open spec fn spec_num_is_zero(s: Seq<char>) -> bool {
    forall|i: int| 0 <= i < s.len() ==> !('1' <= s[i] && s[i] <= '9')
}

/// Whether the literal denotes a value strictly below zero: it carries a
/// minus sign and some nonzero digit.
pub open spec fn spec_num_is_negative(s: Seq<char>) -> bool {
    s.len() > 0 && s[0] == '-' && !spec_num_is_zero(s)
}

/// Whether the literal denotes a whole number: every digit after a decimal
/// point is a zero.
pub open spec fn spec_num_is_integer(s: Seq<char>) -> bool {
    forall|i: int, j: int|
        #![trigger s[i], s[j]]
        0 <= i < j < s.len() && s[i] == '.' ==> !('1' <= s[j] && s[j] <= '9')
}

pub(crate) fn skip_digits(v: &Vec<char>, i: usize) -> (r: usize)
    requires
        i <= v@.len(),
    ensures
        r as int == spec_skip_digits(v@, i as int),
        i <= r <= v@.len(),
{
    let mut j: usize = i;
    while j < v.len() && is_digit_char(v[j])
        invariant
            i <= j <= v@.len(),
            spec_skip_digits(v@, i as int) == spec_skip_digits(v@, j as int),
        decreases v@.len() - j,
    {
        j = j + 1;
    }
    j
}

pub(crate) fn scan_number(v: &Vec<char>, start: usize) -> (r: Option<usize>)
    requires
        start <= v@.len(),
    ensures
        match r {
            Some(e) => spec_scan_number(v@, start as int) == Some(e as int) && start <= e
                <= v@.len(),
            None => spec_scan_number(v@, start as int) is None,
        },
{
    let j: usize = if start < v.len() && v[start] == '-' {
        start + 1
    } else {
        start
    };
    let k = skip_digits(v, j);
    if k < v.len() && v[k] == '.' && k + 1 < v.len() && is_digit_char(v[k + 1]) {
        Some(skip_digits(v, k + 1))
    } else if k > j {
        Some(k)
    } else {
        None
    }
}

/// Skipping digits inside a window of `s` sees the same digits as in `s`
/// itself, as long as the skip does not run past the window's end.
proof fn lemma_skip_digits_subrange(s: Seq<char>, a: int, b: int, i: int)
    requires
        0 <= a <= i <= b <= s.len(),
        spec_skip_digits(s, i) <= b,
    ensures
        spec_skip_digits(s.subrange(a, b), i - a) == spec_skip_digits(s, i) - a,
    decreases s.len() - i,
{
    let t = s.subrange(a, b);
    if i < b && spec_is_digit(s[i]) {
        lemma_skip_digits_subrange(s, a, b, i + 1);
    } else if i < s.len() && spec_is_digit(s[i]) {
        // then spec_skip_digits(s, i) >= i + 1 > b, against the requires
        lemma_skip_digits_lower_bound(s, i);
    }
}

/// The skip never moves backwards.
proof fn lemma_skip_digits_lower_bound(s: Seq<char>, i: int)
    ensures
        spec_skip_digits(s, i) >= i,
    decreases s.len() - i,
{
    if i < s.len() && spec_is_digit(s[i]) {
        lemma_skip_digits_lower_bound(s, i + 1);
    }
}

/// A number token scanned inside `s` is also scanned, whole, in the window
/// of `s` that starts at its first character and ends at or after its last.
pub(crate) proof fn lemma_scan_number_subrange(s: Seq<char>, a: int, b: int)
    requires
        0 <= a <= b <= s.len(),
        spec_scan_number(s, a) is Some,
        spec_scan_number(s, a)->Some_0 <= b,
    ensures
        spec_scan_number(s.subrange(a, b), 0) == Some(spec_scan_number(s, a)->Some_0 - a),
{
    let t = s.subrange(a, b);
    let m = spec_scan_number(s, a)->Some_0;
    let j = if a < s.len() && s[a] == '-' {
        a + 1
    } else {
        a
    };
    lemma_skip_digits_lower_bound(s, j);
    let k = spec_skip_digits(s, j);
    if k < s.len() && s[k] == '.' && k + 1 < s.len() && spec_is_digit(s[k + 1]) {
        // the token has a fractional part: m ends its digits
        assert(m == spec_skip_digits(s, k + 1));
        assert(spec_skip_digits(s, k + 1) == spec_skip_digits(s, k + 2));
        lemma_skip_digits_lower_bound(s, k + 2);
        assert(k + 1 < m);
        assert(a < b);
        assert(t[0] == s[a]);
        lemma_skip_digits_subrange(s, a, b, j);
        assert(spec_skip_digits(t, j - a) == k - a);
        assert(t[k - a] == s[k]);
        assert(t[k - a + 1] == s[k + 1]);
        lemma_skip_digits_subrange(s, a, b, k + 1);
        assert(spec_skip_digits(t, k + 1 - a) == m - a);
    } else {
        assert(m == k && k > j);
        assert(a < b);
        assert(t[0] == s[a]);
        lemma_skip_digits_subrange(s, a, b, j);
        assert(spec_skip_digits(t, j - a) == k - a);
        if k - a < t.len() {
            assert(t[k - a] == s[k]);
            if k - a + 1 < t.len() {
                assert(t[k - a + 1] == s[k + 1]);
            }
        }
    }
}

/// Whether the whole token `s` is a number: the scan from its start exists
/// and reaches its end.
pub fn is_number_token(v: &Vec<char>) -> (r: bool)
    ensures
        r == spec_is_number(v@),
{
    match scan_number(v, 0) {
        Some(e) => e == v.len(),
        None => false,
    }
}

/// The skip stays between its start and the end of the string.
pub(crate) proof fn lemma_skip_digits_bounds(s: Seq<char>, i: int)
    requires
        0 <= i <= s.len(),
    ensures
        i <= spec_skip_digits(s, i) <= s.len(),
    decreases s.len() - i,
{
    if i < s.len() && spec_is_digit(s[i]) {
        lemma_skip_digits_bounds(s, i + 1);
    }
}

/// Every character the skip passed over is a digit.
pub(crate) proof fn lemma_skip_digits_region(s: Seq<char>, i: int)
    requires
        0 <= i <= s.len(),
    ensures
        forall|j: int| i <= j < spec_skip_digits(s, i) ==> spec_is_digit(#[trigger] s[j]),
    decreases s.len() - i,
{
    if i < s.len() && spec_is_digit(s[i]) {
        lemma_skip_digits_region(s, i + 1);
    }
}

/// A number token is made of digits, at most a decimal point, and at most a
/// leading minus sign; in particular it is not empty.
pub(crate) proof fn lemma_number_chars(s: Seq<char>)
    requires
        spec_is_number(s),
    ensures
        s.len() > 0,
        s[0] == '-' || spec_is_digit(s[0]) || s[0] == '.',
        forall|i: int|
            0 <= i < s.len() ==> spec_is_digit(#[trigger] s[i]) || s[i] == '.' || s[i] == '-',
{
    let j = if 0 < s.len() && s[0] == '-' {
        1int
    } else {
        0int
    };
    assert(s.len() > 0);
    lemma_skip_digits_bounds(s, j);
    lemma_skip_digits_region(s, j);
    let k = spec_skip_digits(s, j);
    if k < s.len() && s[k] == '.' && k + 1 < s.len() && spec_is_digit(s[k + 1]) {
        lemma_skip_digits_bounds(s, k + 1);
        lemma_skip_digits_region(s, k + 1);
        assert(spec_skip_digits(s, k + 1) == s.len());
    } else {
        assert(k == s.len());
    }
}

/// The numeric value of a digit character.
pub open spec fn spec_digit_value(c: char) -> int {
    (c as u32) - ('0' as u32)
}

/// The digits of `s` read as one unsigned integer, ignoring any sign and any
/// decimal point: the magnitude of the literal with its point shifted out.
pub open spec fn spec_mantissa(s: Seq<char>) -> int
    decreases s.len(),
{
    if s.len() == 0 {
        0
    } else {
        let rest = spec_mantissa(s.subrange(0, s.len() - 1));
        if spec_is_digit(s[s.len() - 1]) {
            10 * rest + spec_digit_value(s[s.len() - 1])
        } else {
            rest
        }
    }
}

/// The signed integer a literal denotes once its decimal point is shifted
/// out: the literal denotes this numerator divided by a power of ten.
pub open spec fn spec_numerator(s: Seq<char>) -> int {
    if s.len() > 0 && s[0] == '-' {
        -spec_mantissa(s)
    } else {
        spec_mantissa(s)
    }
}

proof fn lemma_mantissa_nonneg(s: Seq<char>)
    ensures
        spec_mantissa(s) >= 0,
    decreases s.len(),
{
    if s.len() > 0 {
        lemma_mantissa_nonneg(s.subrange(0, s.len() - 1));
    }
}

proof fn lemma_mantissa_zero(s: Seq<char>)
    ensures
        (spec_mantissa(s) == 0) == spec_num_is_zero(s),
    decreases s.len(),
{
    if s.len() > 0 {
        let t = s.subrange(0, s.len() - 1);
        let c = s[s.len() - 1];
        lemma_mantissa_zero(t);
        lemma_mantissa_nonneg(t);
        assert forall|i: int| 0 <= i < t.len() implies t[i] == s[i] by {}
        if spec_mantissa(s) == 0 {
            assert(spec_num_is_zero(t));
            assert forall|i: int| 0 <= i < s.len() implies !('1' <= s[i] && s[i] <= '9') by {
                if i < s.len() - 1 {
                    assert(s[i] == t[i]);
                }
            }
        }
        if spec_num_is_zero(s) {
            assert forall|i: int| 0 <= i < t.len() implies !('1' <= t[i] && t[i] <= '9') by {
                assert(t[i] == s[i]);
            }
            assert(spec_mantissa(t) == 0);
            if spec_is_digit(c) {
                assert(c == '0');
            }
        }
    }
}

/// A literal holds no nonzero digit exactly when the number it denotes is
/// zero: the predicate the domain checks test is the value, not the text.
pub proof fn lemma_zero_means_zero(s: Seq<char>)
    ensures
        spec_num_is_zero(s) <==> spec_numerator(s) == 0,
{
    lemma_mantissa_zero(s);
}

/// A literal is signed and not zero exactly when the number it denotes is
/// strictly below zero.
pub proof fn lemma_negative_means_negative(s: Seq<char>)
    ensures
        spec_num_is_negative(s) <==> spec_numerator(s) < 0,
{
    lemma_mantissa_zero(s);
    lemma_mantissa_nonneg(s);
}

/// Ten to the `k`-th power.
pub open spec fn spec_pow10(k: nat) -> int
    decreases k,
{
    if k == 0 {
        1
    } else {
        10 * spec_pow10((k - 1) as nat)
    }
}

/// How many characters follow the first decimal point; zero without one.
pub open spec fn spec_frac_len(s: Seq<char>) -> nat
    decreases s.len(),
{
    if s.len() == 0 {
        0
    } else if s[0] == '.' {
        (s.len() - 1) as nat
    } else {
        spec_frac_len(s.subrange(1, s.len() as int))
    }
}

proof fn lemma_pow10_pos(k: nat)
    ensures
        spec_pow10(k) >= 1,
    decreases k,
{
    if k > 0 {
        lemma_pow10_pos((k - 1) as nat);
    }
}

proof fn lemma_frac_len_no_dot(s: Seq<char>)
    requires
        forall|i: int| 0 <= i < s.len() ==> #[trigger] s[i] != '.',
    ensures
        spec_frac_len(s) == 0,
    decreases s.len(),
{
    if s.len() > 0 {
        let t = s.subrange(1, s.len() as int);
        assert forall|i: int| 0 <= i < t.len() implies #[trigger] t[i] != '.' by {
            assert(t[i] == s[i + 1]);
        }
        lemma_frac_len_no_dot(t);
    }
}

proof fn lemma_frac_len_at(s: Seq<char>, d: int)
    requires
        0 <= d < s.len(),
        s[d] == '.',
        forall|i: int| 0 <= i < d ==> #[trigger] s[i] != '.',
    ensures
        spec_frac_len(s) == s.len() - d - 1,
    decreases d,
{
    if d > 0 {
        let t = s.subrange(1, s.len() as int);
        assert forall|i: int| 0 <= i < d - 1 implies #[trigger] t[i] != '.' by {
            assert(t[i] == s[i + 1]);
        }
        assert(t[d - 1] == s[d]);
        lemma_frac_len_at(t, d - 1);
    }
}

proof fn lemma_mantissa_digits_bound(s: Seq<char>)
    requires
        forall|i: int| 0 <= i < s.len() ==> spec_is_digit(#[trigger] s[i]),
    ensures
        0 <= spec_mantissa(s) < spec_pow10(s.len()),
    decreases s.len(),
{
    if s.len() == 0 {
    } else {
        let t = s.subrange(0, s.len() - 1);
        assert forall|i: int| 0 <= i < t.len() implies spec_is_digit(#[trigger] t[i]) by {
            assert(t[i] == s[i]);
        }
        lemma_mantissa_digits_bound(t);
        assert(spec_is_digit(s[s.len() - 1]));
        assert(0 <= spec_digit_value(s[s.len() - 1]) <= 9);
    }
}

proof fn lemma_mantissa_split(pre: Seq<char>, frc: Seq<char>)
    requires
        forall|i: int| 0 <= i < frc.len() ==> spec_is_digit(#[trigger] frc[i]),
    ensures
        spec_mantissa(pre + seq!['.'] + frc) == spec_mantissa(pre) * spec_pow10(frc.len())
            + spec_mantissa(frc),
    decreases frc.len(),
{
    let s = pre + seq!['.'] + frc;
    if frc.len() == 0 {
        assert(s.subrange(0, s.len() - 1) =~= pre);
        assert(s[s.len() - 1] == '.');
        assert(spec_mantissa(pre) * 1 == spec_mantissa(pre));
    } else {
        let fl = frc.len() as int;
        let frc0 = frc.subrange(0, fl - 1);
        let c = frc[fl - 1];
        assert forall|i: int| 0 <= i < frc0.len() implies spec_is_digit(#[trigger] frc0[i]) by {
            assert(frc0[i] == frc[i]);
        }
        lemma_mantissa_split(pre, frc0);
        assert(s.subrange(0, s.len() - 1) =~= pre + seq!['.'] + frc0);
        assert(s[s.len() - 1] == c);
        assert(frc.subrange(0, fl - 1) == frc0);
        let mp = spec_mantissa(pre);
        let p0 = spec_pow10(frc0.len());
        assert(spec_pow10(frc.len()) == 10 * p0);
        assert(10 * (mp * p0) == mp * (10 * p0)) by (nonlinear_arith);
    }
}

/// Whether a literal's digits after its decimal point are all zero exactly
/// says that the number it denotes is whole: its numerator is a multiple of
/// ten to the length of its fractional part.
pub proof fn lemma_integer_means_whole(s: Seq<char>)
    requires
        spec_is_number(s),
    ensures
        spec_num_is_integer(s) <==> spec_numerator(s) % spec_pow10(spec_frac_len(s)) == 0,
{
    lemma_number_chars(s);
    let j = if s[0] == '-' {
        1int
    } else {
        0int
    };
    lemma_skip_digits_bounds(s, j);
    lemma_skip_digits_region(s, j);
    let k = spec_skip_digits(s, j);
    assert forall|i: int| 0 <= i < k implies #[trigger] s[i] != '.' by {
        if j <= i {
            assert(spec_is_digit(s[i]));
        }
    }
    if k < s.len() && s[k] == '.' && k + 1 < s.len() && spec_is_digit(s[k + 1]) {
        // the literal has a fractional part: split the mantissa around the point
        assert(spec_skip_digits(s, k + 1) == s.len());
        lemma_skip_digits_region(s, k + 1);
        let pre = s.subrange(0, k);
        let frc = s.subrange(k + 1, s.len() as int);
        assert forall|i: int| 0 <= i < frc.len() implies spec_is_digit(#[trigger] frc[i]) by {
            assert(frc[i] == s[k + 1 + i]);
        }
        assert(s =~= pre + seq!['.'] + frc);
        lemma_frac_len_at(s, k);
        assert(spec_frac_len(s) == frc.len());
        lemma_mantissa_split(pre, frc);
        lemma_mantissa_digits_bound(frc);
        lemma_pow10_pos(frc.len());
        let mp = spec_mantissa(pre);
        let r = spec_mantissa(frc);
        let p = spec_pow10(frc.len());
        assert(spec_mantissa(s) == mp * p + r);
        // the sign does not change whether the remainder vanishes
        if s[0] == '-' {
            if r == 0 {
                assert((-mp) * p == -(mp * p)) by (nonlinear_arith);
                vstd::arithmetic::div_mod::lemma_fundamental_div_mod_converse(
                    spec_numerator(s),
                    p,
                    -mp,
                    0,
                );
            } else {
                assert((-mp - 1) * p == -(mp * p) - p) by (nonlinear_arith);
                vstd::arithmetic::div_mod::lemma_fundamental_div_mod_converse(
                    spec_numerator(s),
                    p,
                    -mp - 1,
                    p - r,
                );
            }
        } else {
            vstd::arithmetic::div_mod::lemma_fundamental_div_mod_converse(
                spec_numerator(s),
                p,
                mp,
                r,
            );
        }
        // all fractional digits are zero exactly when the remainder vanishes
        lemma_mantissa_zero(frc);
        if spec_num_is_zero(frc) {
            assert forall|a: int, b: int|
                #![trigger s[a], s[b]]
                0 <= a < b < s.len() && s[a] == '.' implies !('1' <= s[b] && s[b] <= '9') by {
                assert(s[a] == '.' ==> a == k);
                if a == k {
                    assert(s[b] == frc[b - k - 1]);
                    assert(!('1' <= frc[b - k - 1] && frc[b - k - 1] <= '9'));
                }
            }
        }
        if spec_num_is_integer(s) {
            assert forall|i: int| 0 <= i < frc.len() implies !('1' <= #[trigger] frc[i] && frc[i]
                <= '9') by {
                assert(frc[i] == s[k + 1 + i]);
                assert(s[k as int] == '.');
            }
        }
    } else {
        // the literal is all digits: nothing follows a decimal point
        assert(k == s.len());
        lemma_frac_len_no_dot(s);
        assert(spec_pow10(0) == 1);
        vstd::arithmetic::div_mod::lemma_fundamental_div_mod_converse(
            spec_numerator(s),
            1,
            spec_numerator(s),
            0,
        );
        assert(spec_numerator(s) == spec_numerator(s) * 1 + 0) by (nonlinear_arith);
    }
}

/// One numeric operand, held as the matched literal text.
#[derive(Debug, Clone, PartialEq, Eq)]
pub struct Number {
    literal: Vec<char>,
}

impl View for Number {
    type V = Seq<char>;

    closed spec fn view(&self) -> Seq<char> {
        self.literal@
    }
}

impl Number {
    /// Whether the literal is one well-formed number token.
    pub open spec fn wf(&self) -> bool {
        spec_is_number(self@)
    }

    pub fn new(literal: Vec<char>) -> (r: Number)
        ensures
            r@ == literal@,
    {
        Number { literal }
    }

    /// The literal text of the operand, exactly as matched.
    pub fn literal(&self) -> (r: &Vec<char>)
        ensures
            r@ == self@,
    {
        &self.literal
    }

    /// Whether the operand denotes zero.
    pub fn is_zero(&self) -> (r: bool)
        ensures
            r == spec_num_is_zero(self@),
    {
        let v = &self.literal;
        let mut i: usize = 0;
        while i < v.len()
            invariant
                v@ == self@,
                i <= v@.len(),
                forall|j: int| 0 <= j < i ==> !('1' <= v@[j] && v@[j] <= '9'),
            decreases v@.len() - i,
        {
            if '1' <= v[i] && v[i] <= '9' {
                proof {
                    assert('1' <= v@[i as int] && v@[i as int] <= '9');
                    assert(!spec_num_is_zero(v@));
                    assert(v@ == self@);
                }
                return false;
            }
            i = i + 1;
        }
        true
    }

    /// Whether the operand denotes a value strictly below zero.
    pub fn is_negative(&self) -> (r: bool)
        ensures
            r == spec_num_is_negative(self@),
    {
        self.literal.len() > 0 && self.literal[0] == '-' && !self.is_zero()
    }

    /// Whether the operand denotes a whole number.
    pub fn is_integer(&self) -> (r: bool)
        ensures
            r == spec_num_is_integer(self@),
    {
        let v = &self.literal;
        let mut i: usize = 0;
        // find the first decimal point
        while i < v.len() && v[i] != '.'
            invariant
                v@ == self@,
                i <= v@.len(),
                forall|j: int| 0 <= j < i ==> v@[j] != '.',
            decreases v@.len() - i,
        {
            i = i + 1;
        }
        if i == v.len() {
            return true;
        }
        // every digit after it must be a zero
        let mut j: usize = i + 1;
        while j < v.len()
            invariant
                v@ == self@,
                i < j <= v@.len(),
                v@[i as int] == '.',
                forall|k: int| i < k < j ==> !('1' <= #[trigger] v@[k] && v@[k] <= '9'),
                forall|k: int| 0 <= k < i ==> v@[k] != '.',
            decreases v@.len() - j,
        {
            if '1' <= v[j] && v[j] <= '9' {
                proof {
                    assert(v@[i as int] == '.' && '1' <= v@[j as int] && v@[j as int] <= '9');
                    assert(!spec_num_is_integer(v@));
                    assert(v@ == self@);
                }
                return false;
            }
            j = j + 1;
        }
        // pairs whose point comes later than `i` are covered by the scan above
        true
    }
}

} // verus!
