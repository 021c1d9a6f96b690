//! Runtime values: exact decimal fractions.
//!
//! A [`Value`] is a fraction `num / den` of 64-bit integers with a positive
//! denominator. Numeric literals parse exactly (the literal `1.2` becomes
//! `12 / 10`), and the arithmetic the virtual machine performs on values is
//! exact; an operation whose 64-bit representation would overflow reports
//! failure instead of wrapping.

use vstd::prelude::*;

use crate::scanner::is_digit;
use crate::scanner::is_digit_ch;

verus! {

/// An exact fraction. The invariant [`Value::wf`] keeps the denominator
/// positive; two values may represent the same rational without being equal
/// field for field (`6/3` and `2/1`), which [`Value::eq_rat`] decides.
#[derive(Debug, PartialEq, Eq, Structural, Copy, Clone)]
pub struct Value {
    pub num: i64,
    pub den: i64,
}

/// Does the mathematical integer `x` fit in 64 signed bits?
pub open spec fn in_i64(x: int) -> bool {
    i64::MIN <= x <= i64::MAX
}

/// The numeric value of a digit character.
pub open spec fn digit_of(c: char) -> int {
    c as u32 - '0' as u32
}

/// The first index at or after `j` holding a dot, or the end of `s`.
pub open spec fn dot_from(s: Seq<char>, j: int) -> int
    decreases s.len() - j,
{
    if j < 0 || j >= s.len() {
        s.len() as int
    } else if s[j] == '.' {
        j
    } else {
        dot_from(s, j + 1)
    }
}

/// Every character in `s[from .. to]` is a digit.
pub open spec fn all_digits(s: Seq<char>, from: int, to: int) -> bool {
    forall|k: int| from <= k < to ==> is_digit(#[trigger] s[k])
}

/// The decimal integer spelled by the digits in `s[from .. to]`.
pub open spec fn digits_value(s: Seq<char>, from: int, to: int) -> int
    decreases to - from,
{
    if from >= to {
        0
    } else {
        digits_value(s, from, to - 1) * 10 + digit_of(s[to - 1])
    }
}

/// Ten to the `k`-th power.
pub open spec fn pow10(k: int) -> int
    decreases k,
{
    if k <= 0 {
        1
    } else {
        10 * pow10(k - 1)
    }
}

/// The shape of a numeric literal: one or more digits, optionally followed
/// by a dot and one or more digits. No sign, no exponent, no leading or
/// trailing dot.
pub open spec fn is_number_lexeme(s: Seq<char>) -> bool {
    let d = dot_from(s, 0);
    if d == s.len() {
        s.len() > 0 && all_digits(s, 0, s.len() as int)
    } else {
        &&& 0 < d
        &&& d + 1 < s.len()
        &&& all_digits(s, 0, d)
        &&& all_digits(s, d + 1, s.len() as int)
    }
}

/// The numerator a numeric literal denotes: its digits, read as one decimal
/// integer with the dot removed.
pub open spec fn lit_num(s: Seq<char>) -> int {
    let d = dot_from(s, 0);
    if d == s.len() {
        digits_value(s, 0, s.len() as int)
    } else {
        digits_value(s, 0, d) * pow10(s.len() - d - 1) + digits_value(s, d + 1, s.len() as int)
    }
}

/// The denominator a numeric literal denotes: ten to the number of digits
/// after the dot.
pub open spec fn lit_den(s: Seq<char>) -> int {
    let d = dot_from(s, 0);
    if d == s.len() {
        1
    } else {
        pow10(s.len() - d - 1)
    }
}

pub proof fn lemma_digits_value_nonneg(s: Seq<char>, from: int, to: int)
    requires
        all_digits(s, from, to),
    ensures
        0 <= digits_value(s, from, to),
    decreases to - from,
{
    if from < to {
        lemma_digits_value_nonneg(s, from, to - 1);
    }
}

/// Reading one more digit never shrinks the value.
pub proof fn lemma_digits_value_step(s: Seq<char>, from: int, to: int)
    requires
        all_digits(s, from, to),
        from < to,
    ensures
        digits_value(s, from, to - 1) <= digits_value(s, from, to),
{
    lemma_digits_value_nonneg(s, from, to - 1);
}

pub proof fn lemma_pow10_pos(k: int)
    ensures
        1 <= pow10(k),
    decreases k,
{
    if k > 0 {
        lemma_pow10_pos(k - 1);
    }
}

impl Value {
    /// The denominator is positive.
    pub open spec fn wf(self) -> bool {
        self.den > 0
    }

    /// The whole number `n`.
    pub fn from_int(n: i64) -> (v: Value)
        ensures
            v.wf(),
            v.num == n,
            v.den == 1,
    {
        Value { num: n, den: 1 }
    }

    /// The fraction `num / den`.
    pub fn from_parts(num: i64, den: i64) -> (v: Value)
        requires
            den > 0,
        ensures
            v.wf(),
            v.num == num,
            v.den == den,
    {
        Value { num, den }
    }

    /// Do two values stand for the same rational number?
    pub open spec fn same_rat(self, other: Value) -> bool {
        self.num * other.den == other.num * self.den
    }

    /// Decides [`Value::same_rat`] by cross-multiplying in 128 bits, which
    /// cannot overflow.
    pub fn eq_rat(&self, other: &Value) -> (r: bool)
        ensures
            r == self.same_rat(*other),
    {
        proof {
            assert((self.num as int) * (other.den as int) <= i128::MAX && (self.num as int)
                * (other.den as int) >= i128::MIN && (other.num as int) * (self.den as int)
                <= i128::MAX && (other.num as int) * (self.den as int) >= i128::MIN)
                by (nonlinear_arith);
        }
        (self.num as i128) * (other.den as i128) == (other.num as i128) * (self.den as i128)
    }
}

/// The numerator accumulated once the first `i` characters of a literal
/// have been read: the digits so far, dot dropped.
pub open spec fn acc_at(s: Seq<char>, i: int) -> int {
    let d = dot_from(s, 0);
    if i <= d {
        digits_value(s, 0, i)
    } else {
        digits_value(s, 0, d) * pow10(i - d - 1) + digits_value(s, d + 1, i)
    }
}

/// The denominator accumulated once the first `i` characters of a literal
/// have been read: ten to the number of fraction digits so far.
pub open spec fn den_at(s: Seq<char>, i: int) -> int {
    let d = dot_from(s, 0);
    if i <= d {
        1
    } else {
        pow10(i - d - 1)
    }
}

/// Properties of the first-dot position.
pub proof fn lemma_dot_from(s: Seq<char>, j: int)
    requires
        0 <= j <= s.len(),
    ensures
        j <= dot_from(s, j) <= s.len(),
        forall|k: int| j <= k < dot_from(s, j) ==> #[trigger] s[k] != '.',
        dot_from(s, j) < s.len() ==> s[dot_from(s, j)] == '.',
    decreases s.len() - j,
{
    if j < s.len() && s[j] != '.' {
        lemma_dot_from(s, j + 1);
    }
}

pub proof fn lemma_acc_nonneg(s: Seq<char>, i: int)
    requires
        0 <= i <= s.len(),
        is_number_lexeme(s),
    ensures
        0 <= acc_at(s, i),
        1 <= den_at(s, i),
{
    let d = dot_from(s, 0);
    lemma_dot_from(s, 0);
    if i <= d {
        lemma_digits_value_nonneg(s, 0, i);
    } else {
        lemma_digits_value_nonneg(s, 0, d);
        lemma_digits_value_nonneg(s, d + 1, i);
        lemma_pow10_pos(i - d - 1);
        assert(digits_value(s, 0, d) * pow10(i - d - 1) >= 0) by (nonlinear_arith)
            requires
                digits_value(s, 0, d) >= 0,
                pow10(i - d - 1) >= 1,
        ;
    }
}

/// One accumulation step: consuming the digit at `i` multiplies the
/// numerator by ten and adds the digit; past the dot the denominator gains
/// a factor of ten too.
pub proof fn lemma_acc_step(s: Seq<char>, i: int)
    requires
        0 <= i < s.len(),
        i != dot_from(s, 0),
    ensures
        acc_at(s, i + 1) == acc_at(s, i) * 10 + digit_of(s[i]),
        den_at(s, i + 1) == if i < dot_from(s, 0) {
            den_at(s, i)
        } else {
            den_at(s, i) * 10
        },
{
    let d = dot_from(s, 0);
    lemma_dot_from(s, 0);
    if i < d {
        assert(acc_at(s, i + 1) == digits_value(s, 0, i + 1));
    } else {
        let a = digits_value(s, 0, d);
        let p = pow10(i - d - 1);
        assert(pow10(i + 1 - d - 1) == 10 * p);
        assert(a * (10 * p) == (a * p) * 10) by (nonlinear_arith);
        assert(digits_value(s, d + 1, i + 1) == digits_value(s, d + 1, i) * 10 + digit_of(s[i]));
    }
}

/// Reading one more character of a valid literal never shrinks the
/// accumulated numerator or denominator.
pub proof fn lemma_acc_monotone(s: Seq<char>, lo: int, hi: int)
    requires
        is_number_lexeme(s),
        0 <= lo <= hi <= s.len(),
    ensures
        acc_at(s, lo) <= acc_at(s, hi),
        den_at(s, lo) <= den_at(s, hi),
    decreases hi - lo,
{
    let d = dot_from(s, 0);
    lemma_dot_from(s, 0);
    if lo < hi {
        lemma_acc_monotone(s, lo, hi - 1);
        lemma_acc_nonneg(s, hi - 1);
        lemma_acc_nonneg(s, hi);
        if hi - 1 == d {
            assert(acc_at(s, hi) == digits_value(s, 0, d) * 1 + 0);
        } else if hi - 1 < d {
            lemma_digits_value_step(s, 0, hi);
        } else {
            // hi - 1 > d: one more fraction digit
            let a = digits_value(s, 0, d);
            let p = pow10(hi - 1 - d - 1);
            lemma_digits_value_nonneg(s, 0, d);
            lemma_pow10_pos(hi - 1 - d - 1);
            assert(pow10(hi - d - 1) == 10 * p);
            assert(a * (10 * p) == (a * p) * 10) by (nonlinear_arith);
            assert(digits_value(s, d + 1, hi) == digits_value(s, d + 1, hi - 1) * 10 + digit_of(
                s[hi - 1],
            ));
            assert(acc_at(s, hi) == acc_at(s, hi - 1) * 10 + digit_of(s[hi - 1]));
            assert(acc_at(s, hi - 1) * 10 >= acc_at(s, hi - 1)) by (nonlinear_arith)
                requires
                    acc_at(s, hi - 1) >= 0,
            ;
            assert(den_at(s, hi) == den_at(s, hi - 1) * 10);
            assert(den_at(s, hi - 1) * 10 >= den_at(s, hi - 1)) by (nonlinear_arith)
                requires
                    den_at(s, hi - 1) >= 1,
            ;
        }
    }
}

impl Value {
    /// Parses a numeric literal — digits, optionally a dot and more digits —
    /// into the exact fraction it denotes. `None` exactly where the text is
    /// not such a literal or where numerator or denominator exceeds 64 bits.
    #[verifier::loop_isolation(false)]
    #[verifier::rlimit(30)]
    pub fn from_literal(s: &str) -> (r: Option<Value>)
        ensures
            r == (if is_number_lexeme(s@) && lit_num(s@) <= i64::MAX && lit_den(s@) <= i64::MAX {
                Some(Value { num: lit_num(s@) as i64, den: lit_den(s@) as i64 })
            } else {
                None::<Value>
            }),
            r is Some ==> r->Some_0.wf(),
    {
        let ghost sq = s@;
        let ghost d = dot_from(sq, 0);
        proof {
            lemma_dot_from(sq, 0);
        }
        let n = s.unicode_len();
        if n == 0 {
            return None;
        }
        let mut i: usize = 0;
        let mut acc: i64 = 0;
        let mut den: i64 = 1;
        let mut seen_dot: bool = false;
        while i < n
            invariant
                0 <= i <= n,
                seen_dot <==> d < i,
                seen_dot ==> 0 < d && d + 1 < n,
                forall|k: int| 0 <= k < i && k != d ==> is_digit(#[trigger] sq[k]),
                acc as int == acc_at(sq, i as int),
                den as int == den_at(sq, i as int),
                acc >= 0,
                den >= 1,
            decreases n - i,
        {
            let c = s.get_char(i);
            if is_digit_ch(c) {
                proof {
                    if d == i {
                        assert(sq[d as int] == '.');
                        assert(false);
                    }
                    lemma_acc_step(sq, i as int);
                }
                let dig = ((c as u32) - ('0' as u32)) as i64;
                let acc10 = match acc.checked_mul(10) {
                    Some(v) => v,
                    None => {
                        proof {
                            overflow_means_no_fit(sq, i as int, acc as int * 10, true);
                        }
                        return None;
                    },
                };
                acc = match acc10.checked_add(dig) {
                    Some(v) => v,
                    None => {
                        proof {
                            overflow_means_no_fit(sq, i as int, acc10 as int + dig, true);
                        }
                        return None;
                    },
                };
                if seen_dot {
                    den = match den.checked_mul(10) {
                        Some(v) => v,
                        None => {
                            proof {
                                overflow_means_no_fit(sq, i as int, den as int * 10, false);
                            }
                            return None;
                        },
                    };
                }
                proof {
                    assert(acc as int == acc_at(sq, i as int + 1));
                    assert(den as int == den_at(sq, i as int + 1));
                }
            } else if c == '.' {
                if seen_dot || i == 0 || i + 1 == n {
                    proof {
                        if seen_dot {
                            assert(sq[d as int] == '.');
                            assert(!is_digit(sq[d as int]));
                            assert(!is_number_lexeme(sq));
                        } else {
                            assert(d == i);
                        }
                    }
                    return None;
                }
                proof {
                    assert(d == i);
                    lemma_pow10_pos(0);
                    assert(pow10(0) == 1);
                    assert(digits_value(sq, d + 1, d + 1) == 0);
                    assert(digits_value(sq, 0, d) * 1 == digits_value(sq, 0, d)) by (nonlinear_arith);
                    assert(acc_at(sq, i as int + 1) == acc_at(sq, i as int));
                    assert(den_at(sq, i as int + 1) == 1);
                }
                seen_dot = true;
            } else {
                proof {
                    if d == i {
                        assert(sq[d as int] == '.');
                        assert(false);
                    }
                    assert(!is_number_lexeme(sq));
                }
                return None;
            }
            i = i + 1;
        }
        proof {
            if seen_dot {
                assert(d == dot_from(sq, 0));
                assert(is_number_lexeme(sq));
            } else {
                assert(d == n);
                assert(is_number_lexeme(sq));
            }
            assert(acc as int == lit_num(sq));
            assert(den as int == lit_den(sq));
        }
        Some(Value { num: acc, den })
    }
}

/// At an overflow inside the accumulation loop, the literal — if it is one
/// at all — denotes a numerator or denominator beyond 64 bits.
proof fn overflow_means_no_fit(s: Seq<char>, i: int, next: int, numerator: bool)
    requires
        0 <= i < s.len(),
        numerator ==> next > i64::MAX && next <= acc_at(s, i + 1),
        !numerator ==> next > i64::MAX && next <= den_at(s, i + 1),
    ensures
        is_number_lexeme(s) ==> !(lit_num(s) <= i64::MAX && lit_den(s) <= i64::MAX),
{
    if is_number_lexeme(s) {
        lemma_acc_monotone(s, i + 1, s.len() as int);
        lemma_dot_from(s, 0);
        let d = dot_from(s, 0);
        assert(acc_at(s, s.len() as int) == lit_num(s));
        assert(den_at(s, s.len() as int) == lit_den(s));
    }
}

/// `a + b`, or `None` where a 64-bit numerator or denominator would
/// overflow.
pub open spec fn spec_add(a: Value, b: Value) -> Option<Value> {
    let n1 = a.num * b.den;
    let n2 = b.num * a.den;
    let d = a.den * b.den;
    if in_i64(n1) && in_i64(n2) && in_i64(n1 + n2) && in_i64(d) {
        Some(Value { num: (n1 + n2) as i64, den: d as i64 })
    } else {
        None
    }
}

/// `a - b`, or `None` on overflow.
pub open spec fn spec_sub(a: Value, b: Value) -> Option<Value> {
    let n1 = a.num * b.den;
    let n2 = b.num * a.den;
    let d = a.den * b.den;
    if in_i64(n1) && in_i64(n2) && in_i64(n1 - n2) && in_i64(d) {
        Some(Value { num: (n1 - n2) as i64, den: d as i64 })
    } else {
        None
    }
}

/// `a * b`, or `None` on overflow.
pub open spec fn spec_mul(a: Value, b: Value) -> Option<Value> {
    let n = a.num * b.num;
    let d = a.den * b.den;
    if in_i64(n) && in_i64(d) {
        Some(Value { num: n as i64, den: d as i64 })
    } else {
        None
    }
}

/// `a / b`, or `None` where `b` is zero or the result overflows. The sign
/// moves to the numerator so the denominator stays positive.
pub open spec fn spec_div(a: Value, b: Value) -> Option<Value> {
    if b.num == 0 {
        None
    } else {
        let n0 = a.num * b.den;
        let d0 = a.den * b.num;
        let n = if d0 < 0 {
            -n0
        } else {
            n0
        };
        let d = if d0 < 0 {
            -d0
        } else {
            d0
        };
        if in_i64(n0) && in_i64(d0) && in_i64(n) && in_i64(d) {
            Some(Value { num: n as i64, den: d as i64 })
        } else {
            None
        }
    }
}

/// `-a`, or `None` where the numerator is the one 64-bit integer without a
/// 64-bit negation.
pub open spec fn spec_neg(a: Value) -> Option<Value> {
    if in_i64(-a.num) {
        Some(Value { num: (-a.num) as i64, den: a.den })
    } else {
        None
    }
}

/// Exact addition with overflow reporting.
pub fn add_val(a: Value, b: Value) -> (r: Option<Value>)
    requires
        a.wf(),
        b.wf(),
    ensures
        r == spec_add(a, b),
        r is Some ==> r->Some_0.wf(),
{
    proof {
        assert(a.den * b.den > 0) by (nonlinear_arith)
            requires
                a.den > 0,
                b.den > 0,
        ;
    }
    let n1 = match a.num.checked_mul(b.den) {
        Some(v) => v,
        None => { return None },
    };
    let n2 = match b.num.checked_mul(a.den) {
        Some(v) => v,
        None => { return None },
    };
    let n = match n1.checked_add(n2) {
        Some(v) => v,
        None => { return None },
    };
    let d = match a.den.checked_mul(b.den) {
        Some(v) => v,
        None => { return None },
    };
    Some(Value { num: n, den: d })
}

/// Exact subtraction with overflow reporting.
pub fn sub_val(a: Value, b: Value) -> (r: Option<Value>)
    requires
        a.wf(),
        b.wf(),
    ensures
        r == spec_sub(a, b),
        r is Some ==> r->Some_0.wf(),
{
    proof {
        assert(a.den * b.den > 0) by (nonlinear_arith)
            requires
                a.den > 0,
                b.den > 0,
        ;
    }
    let n1 = match a.num.checked_mul(b.den) {
        Some(v) => v,
        None => { return None },
    };
    let n2 = match b.num.checked_mul(a.den) {
        Some(v) => v,
        None => { return None },
    };
    let n = match n1.checked_sub(n2) {
        Some(v) => v,
        None => { return None },
    };
    let d = match a.den.checked_mul(b.den) {
        Some(v) => v,
        None => { return None },
    };
    Some(Value { num: n, den: d })
}

/// Exact multiplication with overflow reporting.
pub fn mul_val(a: Value, b: Value) -> (r: Option<Value>)
    requires
        a.wf(),
        b.wf(),
    ensures
        r == spec_mul(a, b),
        r is Some ==> r->Some_0.wf(),
{
    proof {
        assert(a.den * b.den > 0) by (nonlinear_arith)
            requires
                a.den > 0,
                b.den > 0,
        ;
    }
    let n = match a.num.checked_mul(b.num) {
        Some(v) => v,
        None => { return None },
    };
    let d = match a.den.checked_mul(b.den) {
        Some(v) => v,
        None => { return None },
    };
    Some(Value { num: n, den: d })
}

/// Exact division; `None` on division by zero or overflow.
pub fn div_val(a: Value, b: Value) -> (r: Option<Value>)
    requires
        a.wf(),
        b.wf(),
    ensures
        r == spec_div(a, b),
        r is Some ==> r->Some_0.wf(),
{
    if b.num == 0 {
        return None;
    }
    proof {
        assert(a.den * b.num != 0 && (b.num > 0 ==> a.den * b.num > 0) && (b.num < 0 ==> a.den
            * b.num < 0)) by (nonlinear_arith)
            requires
                a.den > 0,
                b.num != 0,
        ;
    }
    let n0 = match a.num.checked_mul(b.den) {
        Some(v) => v,
        None => { return None },
    };
    let d0 = match a.den.checked_mul(b.num) {
        Some(v) => v,
        None => { return None },
    };
    if d0 < 0 {
        let n = match 0i64.checked_sub(n0) {
            Some(v) => v,
            None => { return None },
        };
        let d = match 0i64.checked_sub(d0) {
            Some(v) => v,
            None => { return None },
        };
        Some(Value { num: n, den: d })
    } else {
        Some(Value { num: n0, den: d0 })
    }
}

/// Exact negation; `None` only for the single unrepresentable case.
pub fn neg_val(a: Value) -> (r: Option<Value>)
    requires
        a.wf(),
    ensures
        r == spec_neg(a),
        r is Some ==> r->Some_0.wf(),
{
    let n = match 0i64.checked_sub(a.num) {
        Some(v) => v,
        None => { return None },
    };
    Some(Value { num: n, den: a.den })
}

} // verus!
