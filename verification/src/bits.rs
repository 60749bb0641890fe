//! Bit-level arithmetic underlying the comparison protocol.
//!
//! A plaintext `x` is viewed through two spec-level quantities per bit index
//! `i`: the bit itself, `nbit(x, i)`, and the value of all higher bits,
//! `hi_above(x, i)`.  The DGK-style kernel pairs, index by index, the terms
//! `nbit(x, i) + hi_above(x, i)` produced by one party with the terms
//! `s - nbit(y, i) - hi_above(y, i)` produced by the other; the main result
//! of this module is that (for `s = +1`) some pair sums to zero exactly when
//! `x < y`.

use vstd::prelude::*;
use vstd::arithmetic::div_mod::*;
use vstd::arithmetic::mul::*;
use vstd::arithmetic::power2::*;

verus! {

/// Bit `i` of `x` (little-endian): `0` or `1`.
pub open spec fn nbit(x: nat, i: nat) -> nat {
    (x / pow2(i)) % 2
}

/// The value contributed by the bits of `x` strictly above index `i`,
/// that is `sum_{j > i} bit_j(x) * 2^j`.
pub open spec fn hi_above(x: nat, i: nat) -> nat {
    (x / pow2((i + 1) as nat)) * pow2((i + 1) as nat)
}

/// The sum of the two parties' terms at index `i`, with sign selector `+1`:
/// `(nbit(x, i) + hi_above(x, i)) + (1 - nbit(y, i) - hi_above(y, i))`.
pub open spec fn pair_sum(x: nat, y: nat, i: nat) -> int {
    1 + nbit(x, i) - nbit(y, i) + hi_above(x, i) - hi_above(y, i)
}

/// A bit is zero or one.
pub proof fn lemma_nbit_bound(x: nat, i: nat)
    ensures
        nbit(x, i) <= 1,
{
    lemma_pow2_pos(i);
    lemma_mod_division_less_than_divisor((x / pow2(i)) as int, 2);
}

/// Splitting a division by `2^e` through a larger power `2^k`:
/// the quotient decomposes into the high part shifted down and the
/// quotient of the remainder.
pub proof fn lemma_div_split(x: nat, e: nat, k: nat)
    requires
        e <= k,
    ensures
        x / pow2(e) == (x / pow2(k)) * pow2((k - e) as nat) + (x % pow2(k)) / pow2(e),
{
    let a = (x / pow2(k)) as int;
    let r = (x % pow2(k)) as int;
    let j = a * pow2((k - e) as nat);
    lemma_pow2_pos(e);
    lemma_pow2_pos(k);
    lemma_pow2_pos((k - e) as nat);
    lemma_fundamental_div_mod(x as int, pow2(k) as int);
    lemma_pow2_adds((k - e) as nat, e);
    assert(a * pow2(k) == j * pow2(e)) by {
        lemma_mul_is_associative(a, pow2((k - e) as nat) as int, pow2(e) as int);
    }
    lemma_hoist_over_denominator(r, j, pow2(e));
    assert(r + j * pow2(e) == x);
}

/// Taking `x` modulo `2^k` does not change bits below index `k`.
pub proof fn lemma_nbit_transfer(x: nat, i: nat, k: nat)
    requires
        i < k,
    ensures
        nbit(x % pow2(k), i) == nbit(x, i),
{
    let a = (x / pow2(k)) as int;
    let r = (x % pow2(k)) as int;
    lemma_div_split(x, i, k);
    lemma_pow2_pos((k - i) as nat);
    lemma_pow2_pos((k - i - 1) as nat);
    lemma_pow2_pos(k);
    lemma_pow2_pos(i);
    assert(pow2((k - i) as nat) == 2 * pow2((k - i - 1) as nat)) by {
        lemma_pow2_adds(1, (k - i - 1) as nat);
        lemma2_to64();
    }
    assert(a * pow2((k - i) as nat) == 2 * (a * pow2((k - i - 1) as nat))) by {
        lemma_mul_is_associative(a, 2, pow2((k - i - 1) as nat) as int);
        lemma_mul_is_commutative(a, 2);
        lemma_mul_is_associative(2, a, pow2((k - i - 1) as nat) as int);
    }
    lemma_mod_multiples_vanish(a * pow2((k - i - 1) as nat), r / pow2(i) as int, 2);
    lemma_mod_bound(x as int, pow2(k) as int);
}

/// If two numbers agree above bit `k` and their low parts agree above bit
/// `i < k`, they agree above bit `i`.
pub proof fn lemma_quot_transfer(x: nat, y: nat, i: nat, k: nat)
    requires
        i + 1 <= k,
        x / pow2(k) == y / pow2(k),
        (x % pow2(k)) / pow2((i + 1) as nat) == (y % pow2(k)) / pow2((i + 1) as nat),
    ensures
        x / pow2((i + 1) as nat) == y / pow2((i + 1) as nat),
{
    lemma_div_split(x, (i + 1) as nat, k);
    lemma_div_split(y, (i + 1) as nat, k);
}

/// Every number splits as high part, the bit at `i`, and the low bits.
pub proof fn lemma_decompose(x: nat, i: nat)
    ensures
        x == (x / pow2((i + 1) as nat)) * pow2((i + 1) as nat) + nbit(x, i) * pow2(i) + x % pow2(
            i,
        ),
        x % pow2(i) < pow2(i),
{
    let q = (x / pow2(i)) as int;
    lemma_pow2_pos(i);
    lemma_pow2_pos((i + 1) as nat);
    lemma_fundamental_div_mod(x as int, pow2(i) as int);
    lemma_mod_bound(x as int, pow2(i) as int);
    lemma_fundamental_div_mod(q, 2);
    assert(q / 2 == x / pow2((i + 1) as nat)) by {
        lemma_div_denominator(x as int, pow2(i) as int, 2);
        lemma_pow2_adds(i, 1);
        lemma2_to64();
    }
    assert(((q / 2) * 2 + q % 2) * pow2(i) == (q / 2) * (2 * pow2(i)) + (q % 2) * pow2(i)) by {
        lemma_mul_is_distributive_add_other_way(pow2(i) as int, (q / 2) * 2, q % 2);
        lemma_mul_is_associative(q / 2, 2, pow2(i) as int);
    }
    assert(2 * pow2(i) == pow2((i + 1) as nat)) by {
        lemma_pow2_adds(1, i);
        lemma2_to64();
    }
    assert(x == q * pow2(i) + x % pow2(i)) by {
        lemma_mul_is_commutative(pow2(i) as int, q);
    }
    assert(q * pow2(i) == ((q / 2) * 2 + q % 2) * pow2(i));
    assert(x == (x / pow2((i + 1) as nat)) * pow2((i + 1) as nat) + nbit(x, i) * pow2(i) + x % pow2(
        i,
    ));
}

/// A zero pair sum at any index forces `x < y`.
pub proof fn lemma_pair_zero_implies_lt(x: nat, y: nat, i: nat)
    requires
        pair_sum(x, y, i) == 0,
    ensures
        x < y,
{
    let p1 = pow2((i + 1) as nat) as int;
    let qx = (x / pow2((i + 1) as nat)) as int;
    let qy = (y / pow2((i + 1) as nat)) as int;
    let bx = nbit(x, i) as int;
    let by = nbit(y, i) as int;
    lemma_nbit_bound(x, i);
    lemma_nbit_bound(y, i);
    lemma_pow2_pos((i + 1) as nat);
    lemma_pow2_pos(i);
    assert(qx * p1 - qy * p1 == (qx - qy) * p1) by {
        lemma_mul_is_distributive_sub_other_way(p1, qx, qy);
    }
    assert((qx - qy) * p1 == by - bx - 1);
    lemma_decompose(x, i);
    lemma_decompose(y, i);
    if qx == qy {
        assert((qx - qy) * p1 == 0) by {
            lemma_mul_basics(p1);
        }
        assert(bx == 0 && by == 1);
    } else {
        if qx - qy >= 1 {
            assert((qx - qy) * p1 >= p1) by (nonlinear_arith)
                requires
                    qx - qy >= 1,
                    p1 > 0,
            ;
            assert(false);
        }
        assert(qx - qy <= -1);
        assert((qx - qy) * p1 <= -p1) by (nonlinear_arith)
            requires
                qx - qy <= -1,
                p1 > 0,
        ;
        assert(p1 <= 2);
        if i >= 1 {
            lemma_pow2_strictly_increases(1, (i + 1) as nat);
            lemma2_to64();
            assert(false);
        }
        assert(i == 0);
        lemma2_to64();
        assert(p1 == 2);
        assert(qx - qy == -1 && bx == 1 && by == 0);
        assert(pow2(0) == 1);
        lemma_mod_bound(x as int, 1);
        lemma_mod_bound(y as int, 1);
        assert(x == qx * 2 + 1);
        assert(y == qy * 2);
        assert(qy * 2 == (qx + 1) * 2) by {
            lemma_mul_is_distributive_add_other_way(2, qx, 1);
        }
    }
}

/// The full case analysis of a zero pair sum: either the two numbers agree
/// above index `i` and their bits there are `0` against `1`, or `i` is zero
/// and the numbers are adjacent.
pub proof fn lemma_pair_zero_cases(x: nat, y: nat, i: nat)
    requires
        pair_sum(x, y, i) == 0,
    ensures
        (x / pow2((i + 1) as nat) == y / pow2((i + 1) as nat) && nbit(x, i) == 0 && nbit(y, i)
            == 1) || (i == 0 && y == x + 1),
{
    let p1 = pow2((i + 1) as nat) as int;
    let qx = (x / pow2((i + 1) as nat)) as int;
    let qy = (y / pow2((i + 1) as nat)) as int;
    let bx = nbit(x, i) as int;
    let by = nbit(y, i) as int;
    lemma_nbit_bound(x, i);
    lemma_nbit_bound(y, i);
    lemma_pow2_pos((i + 1) as nat);
    lemma_pow2_pos(i);
    assert(qx * p1 - qy * p1 == (qx - qy) * p1) by {
        lemma_mul_is_distributive_sub_other_way(p1, qx, qy);
    }
    assert((qx - qy) * p1 == by - bx - 1);
    lemma_decompose(x, i);
    lemma_decompose(y, i);
    if qx == qy {
        assert((qx - qy) * p1 == 0) by {
            lemma_mul_basics(p1);
        }
        assert(bx == 0 && by == 1);
    } else {
        if qx - qy >= 1 {
            assert((qx - qy) * p1 >= p1) by (nonlinear_arith)
                requires
                    qx - qy >= 1,
                    p1 > 0,
            ;
            assert(false);
        }
        assert(qx - qy <= -1);
        assert((qx - qy) * p1 <= -p1) by (nonlinear_arith)
            requires
                qx - qy <= -1,
                p1 > 0,
        ;
        assert(p1 <= 2);
        if i >= 1 {
            lemma_pow2_strictly_increases(1, (i + 1) as nat);
            lemma2_to64();
            assert(false);
        }
        assert(i == 0);
        lemma2_to64();
        assert(p1 == 2);
        assert(qx - qy == -1 && bx == 1 && by == 0);
        assert(pow2(0) == 1);
        lemma_mod_bound(x as int, 1);
        lemma_mod_bound(y as int, 1);
        assert(x == qx * 2 + 1);
        assert(y == qy * 2);
        assert(qy * 2 == (qx + 1) * 2) by {
            lemma_mul_is_distributive_add_other_way(2, qx, 1);
        }
    }
}

/// Numbers that agree above bit `i` agree on every bit above `i`.
pub proof fn lemma_equal_above(x: nat, y: nat, i: nat, j: nat)
    requires
        x / pow2((i + 1) as nat) == y / pow2((i + 1) as nat),
        i < j,
    ensures
        nbit(x, j) == nbit(y, j),
{
    lemma_pow2_pos((i + 1) as nat);
    lemma_pow2_pos((j - i - 1) as nat);
    lemma_pow2_pos(j);
    lemma_pow2_adds((i + 1) as nat, (j - i - 1) as nat);
    lemma_div_denominator(x as int, pow2((i + 1) as nat) as int, pow2((j - i - 1) as nat) as int);
    lemma_div_denominator(y as int, pow2((i + 1) as nat) as int, pow2((j - i - 1) as nat) as int);
}

/// When the two numbers are not adjacent, the zero pair-sum index is unique.
pub proof fn lemma_pair_zero_unique(x: nat, y: nat, i: nat, j: nat)
    requires
        pair_sum(x, y, i) == 0,
        pair_sum(x, y, j) == 0,
        y != x + 1,
    ensures
        i == j,
{
    lemma_pair_zero_cases(x, y, i);
    lemma_pair_zero_cases(x, y, j);
    if i < j {
        lemma_equal_above(x, y, i, j);
        assert(false);
    }
    if j < i {
        lemma_equal_above(x, y, j, i);
        assert(false);
    }
}

/// Conversely, at an index where the two agree above and the bits are `0`
/// against `1`, the pair sum is zero.
pub proof fn lemma_pair_zero_at_diff(x: nat, y: nat, i: nat)
    requires
        x / pow2((i + 1) as nat) == y / pow2((i + 1) as nat),
        nbit(x, i) == 0,
        nbit(y, i) == 1,
    ensures
        pair_sum(x, y, i) == 0,
{
}

/// Two distinct numbers below `2^k` have a highest differing bit; when
/// `x < y`, the bit of `y` is set there and the bit of `x` is clear.
pub proof fn lemma_highest_diff(x: nat, y: nat, k: nat)
    requires
        x < y,
        y < pow2(k),
    ensures
        exists|i: nat|
            i < k && x / pow2((i + 1) as nat) == y / pow2((i + 1) as nat) && nbit(x, i) == 0
                && nbit(y, i) == 1,
    decreases k,
{
    lemma_pow2_pos(k);
    if k == 0 {
        assert(pow2(0) == 1) by {
            lemma2_to64();
        }
        assert(false);
    } else {
        let km1 = (k - 1) as nat;
        let p = pow2(km1) as int;
        lemma_pow2_pos(km1);
        assert(pow2(k) == 2 * pow2(km1)) by {
            lemma_pow2_adds(1, km1);
            lemma2_to64();
        }
        let bx = (x / pow2(km1)) as int;
        let by = (y / pow2(km1)) as int;
        lemma_div_is_ordered(x as int, y as int, p);
        lemma_multiply_divide_lt(y as int, p, 2);
        lemma_div_pos_is_pos(x as int, p);
        assert(0 <= bx <= by < 2);
        lemma_fundamental_div_mod(x as int, p);
        lemma_fundamental_div_mod(y as int, p);
        lemma_mod_bound(x as int, p);
        lemma_mod_bound(y as int, p);
        assert(nbit(x, km1) == bx % 2);
        assert(nbit(y, km1) == by % 2);
        lemma_small_mod(bx as nat, 2);
        lemma_small_mod(by as nat, 2);
        if bx == by {
            let xp = x % pow2(km1);
            let yp = y % pow2(km1);
            assert(x == bx * p + xp && y == by * p + yp) by {
                lemma_mul_is_commutative(p, bx);
                lemma_mul_is_commutative(p, by);
            }
            assert(xp < yp);
            lemma_highest_diff(xp, yp, km1);
            let i = choose|i: nat|
                i < km1 && xp / pow2((i + 1) as nat) == yp / pow2((i + 1) as nat) && nbit(xp, i)
                    == 0 && nbit(yp, i) == 1;
            lemma_nbit_transfer(x, i, km1);
            lemma_nbit_transfer(y, i, km1);
            lemma_quot_transfer(x, y, i, km1);
            assert(i < k && x / pow2((i + 1) as nat) == y / pow2((i + 1) as nat) && nbit(x, i)
                == 0 && nbit(y, i) == 1);
        } else {
            assert(bx == 0 && by == 1);
            let i = km1;
            assert((i + 1) as nat == k);
            lemma_basic_div(x as int, pow2(k) as int);
            lemma_basic_div(y as int, pow2(k) as int);
            assert(i < k && x / pow2((i + 1) as nat) == y / pow2((i + 1) as nat) && nbit(x, i)
                == 0 && nbit(y, i) == 1);
        }
    }
}

/// The DGK kernel, on the arithmetic level: some index has a zero pair sum
/// exactly when `x < y`.  The zero index need not be unique: next to the
/// highest differing bit, index zero can also vanish when `x + 1 == y`, so
/// only existence is stated and consumed.
pub proof fn lemma_zero_sum_iff_lt(x: nat, y: nat, nb: nat)
    requires
        x < pow2(nb),
        y < pow2(nb),
    ensures
        (exists|i: nat| i < nb && #[trigger] pair_sum(x, y, i) == 0) <==> x < y,
{
    if x < y {
        lemma_highest_diff(x, y, nb);
        let i = choose|i: nat|
            i < nb && x / pow2((i + 1) as nat) == y / pow2((i + 1) as nat) && nbit(x, i) == 0
                && nbit(y, i) == 1;
        lemma_pair_zero_at_diff(x, y, i);
        assert(i < nb && pair_sum(x, y, i) == 0);
    }
    if exists|i: nat| i < nb && #[trigger] pair_sum(x, y, i) == 0 {
        let i = choose|i: nat| i < nb && #[trigger] pair_sum(x, y, i) == 0;
        lemma_pair_zero_implies_lt(x, y, i);
    }
}

/// The arithmetic core of the encrypted comparison: with the bias `2^l - 1`,
/// the quotient of the masked difference, corrected by the mask's quotient
/// and the borrow of the low words, is exactly the comparison bit `[a > b]`.
pub proof fn lemma_masked_quotient(a: nat, b: nat, r: nat, l: nat)
    requires
        a < pow2(l),
        b < pow2(l),
    ensures
        ({
            let p = pow2(l) as int;
            let d = p - 1 + a - b + r;
            &&& d >= 0
            &&& d / p - (r as int) / p - (if (r as int) % p > d % p {
                1int
            } else {
                0int
            }) == (if a > b {
                1int
            } else {
                0int
            })
        }),
{
    let p = pow2(l) as int;
    lemma_pow2_pos(l);
    let e = p - 1 + a - b;
    let d = e + r;
    let eh: int = if a > b {
        1int
    } else {
        0int
    };
    let el = e - eh * p;
    assert(0 <= el < p);
    let rh = (r as int) / p;
    let rl = (r as int) % p;
    lemma_fundamental_div_mod(r as int, p);
    lemma_mod_bound(r as int, p);
    lemma_div_pos_is_pos(r as int, p);
    assert(d == (rh + eh) * p + (rl + el)) by {
        lemma_mul_is_distributive_add_other_way(p, rh, eh);
    }
    if rl + el < p {
        lemma_fundamental_div_mod_converse(d, p, rh + eh, rl + el);
        assert(d / p == rh + eh && d % p == rl + el);
        assert(!(rl > d % p));
    } else {
        assert(d == (rh + eh + 1) * p + (rl + el - p)) by {
            lemma_mul_is_distributive_add_other_way(p, rh + eh, 1);
        }
        lemma_fundamental_div_mod_converse(d, p, rh + eh + 1, rl + el - p);
        assert(d / p == rh + eh + 1 && d % p == rl + el - p);
        assert(rl > d % p);
    }
}

} // verus!
