//! The number type the terrain is measured in, and vectors over it.
//!
//! The library never looks inside a scalar. Every function that computes with
//! scalars is generic over [`Scalar`] and says in its contract which operations
//! were applied to which operands, in which order. The trait itself promises
//! nothing of its operations, so those contracts hold of every implementation,
//! single-precision numbers among them.
//!
//! Laws that need more of the operations name it in their `requires`: that each gives
//! one result ([`repeatable`]), that they tell one half from zero and from one
//! ([`half_lies_between`]), that the lesser of two is one of them ([`lesser_selects`]),
//! that they keep the order of the values as far as they compute with numbers
//! ([`ordered`]), or that they are exact ([`exact`]). Single precision meets all but the
//! last, and [`ordered`] with its finite numbers. It does not meet [`exact`], which takes
//! a type that rounds nothing and whose every scalar stands for a real number.

use vstd::prelude::*;

verus! {

/// A number type with the operations the terrain needs.
pub trait Scalar: Copy + Sized {
    /// The whole number `n`.
    fn of_int(n: i64) -> Self;

    /// The fraction `num / den`.
    fn ratio(num: i64, den: i64) -> Self;

    /// `self + rhs`.
    fn plus(self, rhs: Self) -> Self;

    /// `self - rhs`.
    fn minus(self, rhs: Self) -> Self;

    /// `self * rhs`.
    fn times(self, rhs: Self) -> Self;

    /// `self / rhs`.
    fn over(self, rhs: Self) -> Self;

    /// `-self`.
    fn negated(self) -> Self;

    /// The largest whole number that is not above `self`.
    fn floored(self) -> Self;

    /// The lesser of the two.
    fn lesser(self, rhs: Self) -> Self;

    /// The greater of the two.
    fn greater(self, rhs: Self) -> Self;

    /// `self`, held between `lo` and `hi`.
    fn held_between(self, lo: Self, hi: Self) -> Self;

    /// `self` degrees in radians.
    fn radians(self) -> Self;

    /// Whether `self < rhs`.
    fn below(self, rhs: Self) -> bool;

    /// Whether `self <= rhs`.
    fn at_most(self, rhs: Self) -> bool;

    /// `self` as a 64-bit whole number, towards zero, saturating.
    fn whole64(self) -> i64;

    /// `self` as a 32-bit whole number, towards zero, saturating.
    fn whole32(self) -> i32;
}

/// `r` is a value [`Scalar::of_int`] gives for `n`, which fits in 64 bits.
pub open spec fn int_is<S: Scalar>(n: int, r: S) -> bool {
    call_ensures(S::of_int, (n as i64,), r)
}

/// `r` is a value [`Scalar::ratio`] gives for `num / den`, which fit in 64 bits.
pub open spec fn ratio_is<S: Scalar>(num: int, den: int, r: S) -> bool {
    call_ensures(S::ratio, (num as i64, den as i64), r)
}

/// `r` is a value of `a + b`.
pub open spec fn sum_is<S: Scalar>(a: S, b: S, r: S) -> bool {
    call_ensures(S::plus, (a, b), r)
}

/// `r` is a value of `a - b`.
pub open spec fn difference_is<S: Scalar>(a: S, b: S, r: S) -> bool {
    call_ensures(S::minus, (a, b), r)
}

/// `r` is a value of `a * b`.
pub open spec fn product_is<S: Scalar>(a: S, b: S, r: S) -> bool {
    call_ensures(S::times, (a, b), r)
}

/// `r` is a value of `a / b`.
pub open spec fn quotient_is<S: Scalar>(a: S, b: S, r: S) -> bool {
    call_ensures(S::over, (a, b), r)
}

/// `r` is a value of `-a`.
pub open spec fn negation_is<S: Scalar>(a: S, r: S) -> bool {
    call_ensures(S::negated, (a,), r)
}

/// `r` is a value of `a` rounded down.
pub open spec fn floor_is<S: Scalar>(a: S, r: S) -> bool {
    call_ensures(S::floored, (a,), r)
}

/// `r` is a value of the lesser of `a` and `b`.
pub open spec fn lesser_is<S: Scalar>(a: S, b: S, r: S) -> bool {
    call_ensures(S::lesser, (a, b), r)
}

/// `r` is a value of the greater of `a` and `b`.
pub open spec fn greater_is<S: Scalar>(a: S, b: S, r: S) -> bool {
    call_ensures(S::greater, (a, b), r)
}

/// `r` is a value of `a` held between `lo` and `hi`.
pub open spec fn held_is<S: Scalar>(a: S, lo: S, hi: S, r: S) -> bool {
    call_ensures(S::held_between, (a, lo, hi), r)
}

/// `r` is a value of `a` degrees in radians.
pub open spec fn radians_is<S: Scalar>(a: S, r: S) -> bool {
    call_ensures(S::radians, (a,), r)
}

/// `r` is an answer to `a < b`.
pub open spec fn below_is<S: Scalar>(a: S, b: S, r: bool) -> bool {
    call_ensures(S::below, (a, b), r)
}

/// `r` is an answer to `a <= b`.
pub open spec fn at_most_is<S: Scalar>(a: S, b: S, r: bool) -> bool {
    call_ensures(S::at_most, (a, b), r)
}

/// `r` is a value of `a` as a 64-bit whole number.
pub open spec fn whole64_is<S: Scalar>(a: S, r: i64) -> bool {
    call_ensures(S::whole64, (a,), r)
}

/// `r` is a value of `a` as a 32-bit whole number.
pub open spec fn whole32_is<S: Scalar>(a: S, r: i32) -> bool {
    call_ensures(S::whole32, (a,), r)
}

/// Every operation of `S` gives one result for the same operands.
pub open spec fn repeatable<S: Scalar>() -> bool {
    &&& forall|n: int, r: S, q: S| #[trigger] int_is(n, r) && #[trigger] int_is(n, q) ==> r == q
    &&& forall|n: int, d: int, r: S, q: S|
        #[trigger] ratio_is(n, d, r) && #[trigger] ratio_is(n, d, q) ==> r == q
    &&& forall|a: S, b: S, r: S, q: S|
        #[trigger] sum_is(a, b, r) && #[trigger] sum_is(a, b, q) ==> r == q
    &&& forall|a: S, b: S, r: S, q: S|
        #[trigger] difference_is(a, b, r) && #[trigger] difference_is(a, b, q) ==> r == q
    &&& forall|a: S, b: S, r: S, q: S|
        #[trigger] product_is(a, b, r) && #[trigger] product_is(a, b, q) ==> r == q
    &&& forall|a: S, b: S, r: S, q: S|
        #[trigger] quotient_is(a, b, r) && #[trigger] quotient_is(a, b, q) ==> r == q
    &&& forall|a: S, b: S, r: S, q: S|
        #[trigger] lesser_is(a, b, r) && #[trigger] lesser_is(a, b, q) ==> r == q
    &&& forall|a: S, b: S, r: S, q: S|
        #[trigger] greater_is(a, b, r) && #[trigger] greater_is(a, b, q) ==> r == q
    &&& forall|a: S, r: S, q: S| #[trigger] negation_is(a, r) && #[trigger] negation_is(a, q) ==> r == q
    &&& forall|a: S, r: S, q: S| #[trigger] floor_is(a, r) && #[trigger] floor_is(a, q) ==> r == q
    &&& forall|a: S, r: S, q: S| #[trigger] radians_is(a, r) && #[trigger] radians_is(a, q) ==> r == q
    &&& forall|a: S, lo: S, hi: S, r: S, q: S|
        #[trigger] held_is(a, lo, hi, r) && #[trigger] held_is(a, lo, hi, q) ==> r == q
    &&& forall|a: S, b: S, r: bool, q: bool|
        #[trigger] below_is(a, b, r) && #[trigger] below_is(a, b, q) ==> r == q
    &&& forall|a: S, b: S, r: bool, q: bool|
        #[trigger] at_most_is(a, b, r) && #[trigger] at_most_is(a, b, q) ==> r == q
    &&& forall|a: S, r: i64, q: i64| #[trigger] whole64_is(a, r) && #[trigger] whole64_is(a, q) ==> r == q
    &&& forall|a: S, r: i32, q: i32| #[trigger] whole32_is(a, r) && #[trigger] whole32_is(a, q) ==> r == q
}

/// The lesser of two scalars of `S` is one of the two.
pub open spec fn lesser_selects<S: Scalar>() -> bool {
    forall|a: S, b: S, r: S| #[trigger] lesser_is(a, b, r) ==> r == a || r == b
}

/// One half is above zero and below one, wherever it is compared to them.
pub open spec fn half_lies_between<S: Scalar>() -> bool {
    &&& forall|zero: S, half: S, r: bool|
        int_is(0, zero) && ratio_is(1, 2, half) && #[trigger] below_is(half, zero, r) ==> !r
    &&& forall|one: S, half: S, r: bool|
        int_is(1, one) && ratio_is(1, 2, half) && #[trigger] below_is(half, one, r) ==> r
}

/// `n`, held between `lo` and `hi`.
pub open spec fn saturated(n: int, lo: int, hi: int) -> int {
    if n < lo {
        lo
    } else if n > hi {
        hi
    } else {
        n
    }
}

/// `x`, held between `lo` and `hi`.
pub open spec fn held(x: real, lo: real, hi: real) -> real {
    if x < lo {
        lo
    } else if x > hi {
        hi
    } else {
        x
    }
}

/// `x` is the whole number `k`.
pub open spec fn is_whole(k: int, x: real) -> bool {
    x == k as real
}

/// `k` is `x` rounded down.
pub open spec fn is_floor(k: int, x: real) -> bool {
    k as real <= x && x < k as real + 1 as real
}

/// Every scalar of `S`.
pub open spec fn everything<S>() -> spec_fn(S) -> bool {
    |a: S| true
}

/// Comparing and choosing between the scalars of `S` that are numbers is comparing and
/// choosing between their values.
pub open spec fn compared<S: Scalar>(val: spec_fn(S) -> real, num: spec_fn(S) -> bool) -> bool {
    &&& forall|a: S, b: S, r: bool| #[trigger]
        below_is(a, b, r) && num(a) && num(b) ==> r == (val(a) < val(b))
    &&& forall|a: S, b: S, r: bool| #[trigger]
        at_most_is(a, b, r) && num(a) && num(b) ==> r == (val(a) <= val(b))
    &&& forall|a: S, b: S, r: S| #[trigger]
        lesser_is(a, b, r) && num(a) && num(b) ==> num(r) && val(r) == if val(a) <= val(b) {
            val(a)
        } else {
            val(b)
        }
    &&& forall|a: S, b: S, r: S| #[trigger]
        greater_is(a, b, r) && num(a) && num(b) ==> num(r) && val(r) == if val(a) <= val(b) {
            val(b)
        } else {
            val(a)
        }
    &&& forall|a: S, lo: S, hi: S, r: S| #[trigger]
        held_is(a, lo, hi, r) && num(a) && num(lo) && num(hi) && val(lo) <= val(hi) ==> num(r)
            && val(r) == held(val(a), val(lo), val(hi))
}

/// The operations of `S` are exact: every scalar stands for a real number, and an
/// operation gives a scalar that stands for its mathematical result.
pub open spec fn exact<S: Scalar>(val: spec_fn(S) -> real) -> bool {
    &&& compared(val, everything::<S>())
    &&& forall|n: int, r: S| #[trigger]
        int_is(n, r) && i64::MIN <= n <= i64::MAX ==> val(r) == n as real
    &&& forall|n: int, d: int, r: S| #[trigger]
        ratio_is(n, d, r) && i64::MIN <= n <= i64::MAX && i64::MIN <= d <= i64::MAX && d != 0
            ==> val(r) * d as real == n as real
    &&& forall|a: S, b: S, r: S| #[trigger] sum_is(a, b, r) ==> val(r) == val(a) + val(b)
    &&& forall|a: S, b: S, r: S| #[trigger] difference_is(a, b, r) ==> val(r) == val(a) - val(b)
    &&& forall|a: S, b: S, r: S| #[trigger] product_is(a, b, r) ==> val(r) == val(a) * val(b)
    &&& forall|a: S, b: S, r: S| #[trigger]
        quotient_is(a, b, r) && val(b) != 0 as real ==> val(r) * val(b) == val(a)
    &&& forall|a: S, r: S| #[trigger] negation_is(a, r) ==> val(r) == -val(a)
    &&& forall|a: S, r: S| #[trigger]
        floor_is(a, r) ==> exists|k: int| #[trigger] is_floor(k, val(a)) && is_whole(k, val(r))
    &&& forall|a: S, r: i64, k: int| #[trigger]
        whole64_is(a, r) && #[trigger] is_whole(k, val(a)) ==> r == saturated(
            k,
            i64::MIN as int,
            i64::MAX as int,
        )
    &&& forall|a: S, r: i32, k: int| #[trigger]
        whole32_is(a, r) && #[trigger] is_whole(k, val(a)) ==> r == saturated(
            k,
            i32::MIN as int,
            i32::MAX as int,
        )
}

/// A result that is a number comes from operands that are.
pub open spec fn strict<S: Scalar>(num: spec_fn(S) -> bool) -> bool {
    &&& forall|a: S, b: S, r: S| #[trigger] sum_is(a, b, r) && num(r) ==> num(a) && num(b)
    &&& forall|a: S, b: S, r: S| #[trigger] difference_is(a, b, r) && num(r) ==> num(a) && num(b)
    &&& forall|a: S, b: S, r: S| #[trigger] product_is(a, b, r) && num(r) ==> num(a) && num(b)
    &&& forall|a: S, b: S, r: S| #[trigger] quotient_is(a, b, r) && num(r) ==> num(a)
    &&& forall|a: S, r: S| #[trigger] floor_is(a, r) && num(r) ==> num(a)
}

/// The operations of `S` keep the order of the values, as far as operands and results are
/// numbers. Exact operations do, and so do operations that round an exact result to the
/// nearest value that `S` has. Single precision meets this with its finite numbers.
pub open spec fn ordered<S: Scalar>(val: spec_fn(S) -> real, num: spec_fn(S) -> bool) -> bool {
    &&& compared(val, num)
    &&& strict(num)
    &&& forall|n: int, r: S| #[trigger]
        int_is(n, r) && 0 <= n <= u16::MAX ==> num(r) && val(r) == n as real
    &&& forall|n: int, d: int, r: S| #[trigger]
        ratio_is(n, d, r) && 0 < n <= u16::MAX && 0 < d <= u16::MAX ==> num(r) && val(r)
            > 0 as real
    &&& forall|n: int, d: int, r: S, m: int, e: int, q: S|
        #![trigger ratio_is(n, d, r), ratio_is(m, e, q)]
        ratio_is(n, d, r) && ratio_is(m, e, q) && 0 < n <= u16::MAX && 0 < d <= u16::MAX && 0 < m
            <= u16::MAX && 0 < e <= u16::MAX && n * e <= m * d ==> val(r) <= val(q)
    &&& forall|n: int, d: int, r: S| #[trigger]
        ratio_is(n, d, r) && 0 < n <= d && d <= u16::MAX ==> val(r) <= 1 as real
    &&& forall|a: S, b: S, r: S, c: S, d: S, q: S|
        #![trigger sum_is(a, b, r), sum_is(c, d, q)]
        sum_is(a, b, r) && sum_is(c, d, q) && num(r) && num(q) && val(a) <= val(c) && val(b)
            <= val(d) ==> val(r) <= val(q)
    &&& forall|a: S, b: S, r: S| #[trigger]
        sum_is(a, b, r) && num(r) && val(b) >= 0 as real ==> val(r) >= val(a)
    &&& forall|a: S, b: S, r: S, c: S, d: S, q: S|
        #![trigger difference_is(a, b, r), difference_is(c, d, q)]
        difference_is(a, b, r) && difference_is(c, d, q) && num(r) && num(q) && val(a) <= val(c)
            && val(d) <= val(b) ==> val(r) <= val(q)
    &&& forall|a: S, b: S, r: S| #[trigger]
        difference_is(a, b, r) && num(r) && val(b) <= val(a) ==> val(r) >= 0 as real
    &&& forall|a: S, b: S, r: S| #[trigger]
        product_is(a, b, r) && num(r) && val(a) >= 0 as real && val(b) >= 0 as real ==> val(r)
            >= 0 as real
    &&& forall|a: S, c: S, b: S, r: S, q: S|
        #![trigger product_is(a, b, r), product_is(c, b, q)]
        product_is(a, b, r) && product_is(c, b, q) && num(r) && num(q) && val(a) <= val(c) && val(b)
            >= 0 as real ==> val(r) <= val(q)
    &&& forall|a: S, b: S, d: S, r: S, q: S|
        #![trigger product_is(a, b, r), product_is(a, d, q)]
        product_is(a, b, r) && product_is(a, d, q) && num(r) && num(q) && val(b) <= val(d) && val(a)
            >= 0 as real ==> val(r) <= val(q)
    &&& forall|a: S, c: S, b: S, r: S, q: S|
        #![trigger quotient_is(a, b, r), quotient_is(c, b, q)]
        quotient_is(a, b, r) && quotient_is(c, b, q) && num(r) && num(q) && num(b) && val(a)
            <= val(c) && val(b) > 0 as real ==> val(r) <= val(q)
    &&& forall|a: S, b: S, r: S|
        #![trigger floor_is(a, b), difference_is(a, b, r)]
        floor_is(a, b) && difference_is(a, b, r) && num(r) ==> val(r) >= 0 as real && val(r)
            <= 1 as real
    &&& forall|a: S, b: S, r: S| #[trigger]
        greater_is(a, b, r) && num(b) && num(r) ==> val(r) >= val(b)
    // The lesser of a number and anything held between two numbers is a number.
    &&& forall|a: S, lo: S, hi: S, h: S, b: S, r: S|
        #![trigger held_is(a, lo, hi, h), lesser_is(b, h, r)]
        held_is(a, lo, hi, h) && lesser_is(b, h, r) && num(b) && num(lo) && num(hi) && val(lo)
            <= val(hi) && val(lo) <= val(b) ==> num(r) && val(lo) <= val(r) && val(r) <= val(b)
}

/// Exact operations keep the order of the values.
pub proof fn law_exact_is_ordered<S: Scalar>(val: spec_fn(S) -> real)
    requires
        exact(val),
    ensures
        ordered(val, everything::<S>()),
{
    let num = everything::<S>();
    assert forall|n: int, d: int, r: S| #[trigger]
        ratio_is(n, d, r) && 0 < n <= u16::MAX && 0 < d <= u16::MAX implies val(r) > 0 as real && (n
        <= d ==> val(r) <= 1 as real) by {
        let x = val(r);
        let num = n as real;
        let den = d as real;
        assert(x * den == num);
        assert(x > 0 as real && (num <= den ==> x <= 1 as real)) by (nonlinear_arith)
            requires
                x * den == num,
                num > 0 as real,
                den > 0 as real,
        ;
    }
    assert forall|n: int, d: int, r: S, m: int, e: int, q: S|
        #![trigger ratio_is(n, d, r), ratio_is(m, e, q)]
        ratio_is(n, d, r) && ratio_is(m, e, q) && 0 < n <= u16::MAX && 0 < d <= u16::MAX && 0 < m
            <= u16::MAX && 0 < e <= u16::MAX && n * e <= m * d implies val(r) <= val(q) by {
        lemma_ratio_order(n, d, val(r), m, e, val(q));
    }
    assert forall|a: S, b: S, r: S| #[trigger]
        product_is(a, b, r) && val(a) >= 0 as real && val(b) >= 0 as real implies val(r)
        >= 0 as real by {
        let x = val(a);
        let y = val(b);
        assert(x * y >= 0 as real) by (nonlinear_arith)
            requires
                x >= 0 as real,
                y >= 0 as real,
        ;
    }
    assert forall|a: S, c: S, b: S, r: S, q: S|
        #![trigger product_is(a, b, r), product_is(c, b, q)]
        product_is(a, b, r) && product_is(c, b, q) && val(a) <= val(c) && val(b)
            >= 0 as real implies val(r) <= val(q) by {
        lemma_scaled_order(val(a), val(c), val(b));
    }
    assert forall|a: S, b: S, d: S, r: S, q: S|
        #![trigger product_is(a, b, r), product_is(a, d, q)]
        product_is(a, b, r) && product_is(a, d, q) && val(b) <= val(d) && val(a)
            >= 0 as real implies val(r) <= val(q) by {
        lemma_scaled_order(val(b), val(d), val(a));
    }
    assert forall|a: S, c: S, b: S, r: S, q: S|
        #![trigger quotient_is(a, b, r), quotient_is(c, b, q)]
        quotient_is(a, b, r) && quotient_is(c, b, q) && val(a) <= val(c) && val(b)
            > 0 as real implies val(r) <= val(q) by {
        let x = val(r);
        let y = val(q);
        let d = val(b);
        assert(x <= y) by (nonlinear_arith)
            requires
                x * d <= y * d,
                d > 0 as real,
        ;
    }
    assert forall|a: S, b: S, r: S|
        #![trigger floor_is(a, b), difference_is(a, b, r)]
        floor_is(a, b) && difference_is(a, b, r) implies val(r) >= 0 as real && val(r)
        <= 1 as real by {
        let k = choose|k: int| #[trigger] is_floor(k, val(a)) && is_whole(k, val(b));
        assert(is_floor(k, val(a)) && is_whole(k, val(b)));
    }
}

/// Fractions are ordered by their cross products.
proof fn lemma_ratio_order(n: int, d: int, x: real, m: int, e: int, y: real)
    requires
        0 < d,
        0 < e,
        x * d as real == n as real,
        y * e as real == m as real,
        n * e <= m * d,
    ensures
        x <= y,
{
    let (a, b, c, f) = (n as real, d as real, m as real, e as real);
    assert((n * e) as real == a * f && (m * d) as real == c * b) by (nonlinear_arith)
        requires
            a == n as real,
            b == d as real,
            c == m as real,
            f == e as real,
    ;
    assert(x <= y) by (nonlinear_arith)
        requires
            x * b == a,
            y * f == c,
            a * f <= c * b,
            b > 0 as real,
            f > 0 as real,
    ;
}

/// Scaling by a number that is not negative keeps the order.
proof fn lemma_scaled_order(a: real, b: real, k: real)
    requires
        a <= b,
        k >= 0 as real,
    ensures
        a * k <= b * k,
        k * a <= k * b,
{
    assert(a * k <= b * k && k * a <= k * b) by (nonlinear_arith)
        requires
            a <= b,
            k >= 0 as real,
    ;
}

/// A pair of scalars.
#[derive(Clone, Copy, Debug)]
pub struct Vec2<S> {
    pub x: S,
    pub y: S,
}

/// A triple of scalars; `y` is up.
#[derive(Clone, Copy, Debug)]
pub struct Vec3<S> {
    pub x: S,
    pub y: S,
    pub z: S,
}

} // verus!
