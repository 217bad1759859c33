//! Alignment arithmetic and facts about powers of two.

use vstd::prelude::*;
use vstd::arithmetic::power2::is_pow2;
use vstd::arithmetic::div_mod::lemma_fundamental_div_mod;
use vstd::arithmetic::div_mod::lemma_mod_multiples_basic;

verus! {

/// The smallest multiple of `align` that is not below `value`.
pub open spec fn align_up(value: int, align: int) -> int {
    if value % align == 0 {
        value
    } else {
        value + align - value % align
    }
}

/// The largest multiple of `align` that is not above `value`.
pub open spec fn align_down(value: int, align: int) -> int {
    value - value % align
}

/// `align_up` yields a multiple of `align` within one step above `value`.
pub proof fn lemma_align_up(value: int, align: int)
    requires
        0 <= value,
        0 < align,
    ensures
        align_up(value, align) % align == 0,
        value <= align_up(value, align) < value + align,
{
    let q = value / align;
    let r = value % align;
    lemma_fundamental_div_mod(value, align);
    assert(value == align * q + r);
    if r != 0 {
        assert(align_up(value, align) == align * (q + 1)) by (nonlinear_arith)
            requires
                align_up(value, align) == value + align - r,
                value == align * q + r,
        ;
        lemma_mod_multiples_basic(q + 1, align);
        assert((q + 1) * align == align * (q + 1)) by (nonlinear_arith);
    }
}

/// No multiple of `align` lies between `value` and `align_up(value, align)`.
pub proof fn lemma_align_up_least(value: int, align: int, m: int)
    requires
        0 <= value <= m,
        0 < align,
        m % align == 0,
    ensures
        align_up(value, align) <= m,
{
    let q = value / align;
    let r = value % align;
    lemma_fundamental_div_mod(value, align);
    if r != 0 {
        lemma_fundamental_div_mod(m, align);
        let k = m / align;
        assert(m == align * k);
        assert(k > q) by (nonlinear_arith)
            requires
                align * k >= align * q + r,
                r > 0,
                align > 0,
        ;
        assert(align * k >= align * q + align) by (nonlinear_arith)
            requires
                k >= q + 1,
                align > 0,
        ;
    }
}

/// `align_down` yields a multiple of `align` within one step below `value`.
pub proof fn lemma_align_down(value: int, align: int)
    requires
        0 <= value,
        0 < align,
    ensures
        align_down(value, align) % align == 0,
        value - align < align_down(value, align) <= value,
        0 <= align_down(value, align),
{
    let q = value / align;
    lemma_fundamental_div_mod(value, align);
    lemma_mod_multiples_basic(q, align);
    assert(q * align == align * q) by (nonlinear_arith);
    assert(0 <= align * q) by (nonlinear_arith)
        requires
            value == align * q + value % align,
            0 <= value % align < align,
            0 <= value,
            0 < align,
    ;
}

/// Rounds `value` up to a multiple of `align`; `None` when that multiple
/// does not fit in 64 bits.
pub fn aligned(value: u64, align: u64) -> (r: Option<u64>)
    requires
        align > 0,
    ensures
        r == (if align_up(value as int, align as int) <= u64::MAX {
            Some(align_up(value as int, align as int) as u64)
        } else {
            None
        }),
{
    let rem: u64 = value % align;
    if rem == 0 {
        Some(value)
    } else {
        value.checked_add(align - rem)
    }
}

/// Rounds `value` down to a multiple of `align`.
pub fn aligned_down(value: u64, align: u64) -> (r: u64)
    requires
        align > 0,
    ensures
        r == align_down(value as int, align as int),
{
    let rem: u64 = value % align;
    proof {
        vstd::arithmetic::div_mod::lemma_mod_decreases(value as nat, align as nat);
    }
    value - rem
}

/// Of two distinct powers of two the larger is at least twice the smaller.
pub proof fn lemma_pow2_gap(a: int, b: int)
    requires
        is_pow2(a),
        is_pow2(b),
        a < b,
    ensures
        2 * a <= b,
    decreases a,
{
    reveal(is_pow2);
    if a > 1 {
        lemma_pow2_gap(a / 2, b / 2);
    }
}

/// A power of two divides every power of two that is not smaller.
pub proof fn lemma_pow2_divides(a: int, b: int)
    requires
        is_pow2(a),
        is_pow2(b),
        a <= b,
    ensures
        b % a == 0,
    decreases b,
{
    reveal(is_pow2);
    if a < b {
        lemma_pow2_gap(a, b);
        let half = b / 2;
        lemma_pow2_divides(a, half);
        lemma_fundamental_div_mod(half, a);
        let k = half / a;
        assert(b == (2 * k) * a) by (nonlinear_arith)
            requires
                b == 2 * half,
                half == a * k,
        ;
        lemma_mod_multiples_basic(2 * k, a);
    } else {
        lemma_mod_multiples_basic(1, a);
    }
}

/// A multiple of a power of two is a multiple of every smaller power of two.
pub proof fn lemma_multiple_of_larger_pow2(value: int, a: int, b: int)
    requires
        is_pow2(a),
        is_pow2(b),
        a <= b,
        0 <= value,
        value % b == 0,
    ensures
        value % a == 0,
{
    reveal(is_pow2);
    lemma_pow2_divides(a, b);
    lemma_fundamental_div_mod(value, b);
    lemma_fundamental_div_mod(b, a);
    let k = value / b;
    let j = b / a;
    assert(value == (k * j) * a) by (nonlinear_arith)
        requires
            value == b * k,
            b == a * j,
    ;
    lemma_mod_multiples_basic(k * j, a);
}

/// Whether `value` is a power of two.
pub fn is_power_of_two(value: u64) -> (r: bool)
    ensures
        r == is_pow2(value as int),
{
    reveal(is_pow2);
    if value == 0 {
        return false;
    }
    let mut rest: u64 = value;
    while rest % 2 == 0
        invariant
            rest > 0,
            is_pow2(rest as int) == is_pow2(value as int),
        decreases rest,
    {
        proof {
            reveal(is_pow2);
        }
        rest = rest / 2;
    }
    proof {
        reveal(is_pow2);
    }
    rest == 1
}

/// The sum of the numbers in `s`.
pub open spec fn seq_sum(s: Seq<int>) -> int
    decreases s.len(),
{
    if s.len() == 0 {
        0
    } else {
        seq_sum(s.drop_last()) + s.last()
    }
}

/// Appending a number adds it to the sum.
pub proof fn lemma_sum_push(s: Seq<int>, v: int)
    ensures
        seq_sum(s.push(v)) == seq_sum(s) + v,
{
    assert(s.push(v).drop_last() =~= s);
}

/// Replacing one number changes the sum by the difference.
pub proof fn lemma_sum_update(s: Seq<int>, i: int, v: int)
    requires
        0 <= i < s.len(),
    ensures
        seq_sum(s.update(i, v)) == seq_sum(s) - s[i] + v,
    decreases s.len(),
{
    if i == s.len() - 1 {
        assert(s.update(i, v).drop_last() =~= s.drop_last());
    } else {
        lemma_sum_update(s.drop_last(), i, v);
        assert(s.update(i, v).drop_last() =~= s.drop_last().update(i, v));
    }
}

/// A sum of zeros is zero.
pub proof fn lemma_sum_zero(s: Seq<int>)
    requires
        forall|i: int| 0 <= i < s.len() ==> s[i] == 0,
    ensures
        seq_sum(s) == 0,
    decreases s.len(),
{
    if s.len() > 0 {
        lemma_sum_zero(s.drop_last());
    }
}

/// In a sum of numbers that are not negative, no number exceeds the sum.
pub proof fn lemma_sum_bounds(s: Seq<int>, i: int)
    requires
        forall|j: int| 0 <= j < s.len() ==> s[j] >= 0,
        0 <= i < s.len(),
    ensures
        0 <= s[i] <= seq_sum(s),
    decreases s.len(),
{
    lemma_sum_nonnegative(s.drop_last());
    if i < s.len() - 1 {
        lemma_sum_bounds(s.drop_last(), i);
    }
}

/// A sum of numbers that are not negative is not negative.
pub proof fn lemma_sum_nonnegative(s: Seq<int>)
    requires
        forall|j: int| 0 <= j < s.len() ==> s[j] >= 0,
    ensures
        seq_sum(s) >= 0,
    decreases s.len(),
{
    if s.len() > 0 {
        lemma_sum_nonnegative(s.drop_last());
    }
}

/// Of two sequences of one length, the one that is smaller number by
/// number has the smaller sum.
pub proof fn lemma_sum_ordered(s: Seq<int>, t: Seq<int>)
    requires
        s.len() == t.len(),
        forall|j: int| 0 <= j < s.len() ==> s[j] <= t[j],
    ensures
        seq_sum(s) <= seq_sum(t),
    decreases s.len(),
{
    if s.len() > 0 {
        lemma_sum_ordered(s.drop_last(), t.drop_last());
    }
}

/// Two sequences that agree number by number have the same sum.
pub proof fn lemma_sum_equal(s: Seq<int>, t: Seq<int>)
    requires
        s.len() == t.len(),
        forall|j: int| 0 <= j < s.len() ==> s[j] == t[j],
    ensures
        seq_sum(s) == seq_sum(t),
{
    assert(s =~= t);
}

/// The larger of two numbers.
pub open spec fn max_of(a: int, b: int) -> int {
    if a >= b {
        a
    } else {
        b
    }
}

/// Whether two half-open ranges share no byte.
pub open spec fn disjoint(a_start: int, a_end: int, b_start: int, b_end: int) -> bool {
    a_end <= b_start || b_end <= a_start
}

} // verus!
