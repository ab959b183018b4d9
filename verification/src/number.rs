//! Doubles by their bit pattern.
//!
//! A price, a volume or an average is an IEEE-754 binary64 number. It is held as
//! the 64 bits of that number, so that it can be stored, compared and handed
//! back without loss. `rank` turns the bits into an integer that grows with the
//! number; `less_than` is the comparison `<` of the numbers themselves, which
//! no NaN takes part in and to which the two zeros are equal.
//!
//! Nothing here computes with a double. Where a formula needs arithmetic, the
//! caller hands in the machine's own: a function `arith(op, a, b)` for the four
//! operations on bits, `lift(n)` for the double of a count, and `round(x)` for
//! the nearest integer of a double. A formula is then stated as the chain of
//! results that those functions gave (`computes`, `lifts`, `rounds`).
use vstd::prelude::*;

verus! {

/// The sign bit of a double.
pub const SIGN_BIT: u64 = 0x8000_0000_0000_0000;

/// The bits of positive infinity: every greater magnitude is a NaN.
pub const INFINITY_BITS: u64 = 0x7FF0_0000_0000_0000;

/// The bits of positive zero.
pub const ZERO_BITS: u64 = 0;

/// The bits without the sign.
pub open spec fn magnitude(bits: u64) -> u64 {
    if bits >= SIGN_BIT {
        (bits - SIGN_BIT) as u64
    } else {
        bits
    }
}

/// Whether the bits are those of a NaN.
pub open spec fn is_nan(bits: u64) -> bool {
    magnitude(bits) > INFINITY_BITS
}

/// Whether the bits are those of one of the two zeros.
pub open spec fn is_zero(bits: u64) -> bool {
    magnitude(bits) == 0
}

/// The place of the bits in the total order of doubles: negative numbers by
/// falling magnitude, then negative zero, positive zero and the positive
/// numbers by rising magnitude; NaNs stand at the two ends.
pub open spec fn rank(bits: u64) -> u64 {
    if bits >= SIGN_BIT {
        (u64::MAX - bits) as u64
    } else {
        (bits + SIGN_BIT) as u64
    }
}

/// The comparison `<` of two doubles given by their bits.
pub open spec fn less_than(a: u64, b: u64) -> bool {
    &&& !is_nan(a)
    &&& !is_nan(b)
    &&& !(is_zero(a) && is_zero(b))
    &&& rank(a) < rank(b)
}

/// Computes `rank`.
pub fn rank_of(bits: u64) -> (r: u64)
    ensures
        r == rank(bits),
{
    if bits >= SIGN_BIT {
        u64::MAX - bits
    } else {
        bits + SIGN_BIT
    }
}

/// Computes `is_nan`.
pub fn nan(bits: u64) -> (r: bool)
    ensures
        r == is_nan(bits),
{
    let m: u64 = if bits >= SIGN_BIT {
        bits - SIGN_BIT
    } else {
        bits
    };
    m > INFINITY_BITS
}

/// Computes `less_than`.
pub fn is_less(a: u64, b: u64) -> (r: bool)
    ensures
        r == less_than(a, b),
{
    let both_zero = (a == 0 || a == SIGN_BIT) && (b == 0 || b == SIGN_BIT);
    !nan(a) && !nan(b) && !both_zero && rank_of(a) < rank_of(b)
}

/// Two bit patterns of one rank are the same.
pub proof fn lemma_rank_injective(a: u64, b: u64)
    requires
        rank(a) == rank(b),
    ensures
        a == b,
{
}

/// `less_than` is a strict order: nothing is below itself, and it passes on.
pub proof fn lemma_less_than_strict(a: u64, b: u64, c: u64)
    ensures
        !less_than(a, a),
        less_than(a, b) ==> !less_than(b, a),
        less_than(a, b) && less_than(b, c) ==> less_than(a, c),
{
}

/// The rank orders as the numbers do: a number below another has the lower
/// rank, and a number of a rank not above another's is not above that other.
pub proof fn lemma_rank_orders_numbers(a: u64, b: u64)
    ensures
        less_than(a, b) ==> rank(a) < rank(b),
        rank(a) <= rank(b) ==> !less_than(b, a),
{
}

/// Of two numbers that are no NaN, one is below the other or the two are
/// equal: of one rank, or both zero.
pub proof fn lemma_less_than_total(a: u64, b: u64)
    requires
        !is_nan(a),
        !is_nan(b),
    ensures
        less_than(a, b) || less_than(b, a) || rank(a) == rank(b) || (is_zero(a) && is_zero(b)),
{
}

/// The four operations of arithmetic that the caller hands in.
#[derive(Clone, Copy, Debug, PartialEq, Eq, Structural)]
pub enum Op {
    Add,
    Sub,
    Mul,
    Div,
}

/// The bits of 1.
pub const ONE_BITS: u64 = 0x3FF0_0000_0000_0000;

/// The bits of 2.
pub const TWO_BITS: u64 = 0x4000_0000_0000_0000;

/// The bits of 20.
pub const TWENTY_BITS: u64 = 0x4034_0000_0000_0000;

/// Whether `out` is what `arith` gave for `a op b`.
pub open spec fn computes<A: Fn(Op, u64, u64) -> u64>(arith: A, op: Op, a: u64, b: u64, out: u64) -> bool {
    call_ensures(arith, (op, a, b), out)
}

/// Whether `out` is what `lift` gave for the count `n`.
pub open spec fn lifts<L: Fn(usize) -> u64>(lift: L, n: usize, out: u64) -> bool {
    call_ensures(lift, (n,), out)
}

/// Whether `out` is what `round` gave for `x`.
pub open spec fn rounds<R: Fn(u64) -> i32>(round: R, x: u64, out: i32) -> bool {
    call_ensures(round, (x,), out)
}

/// Whether `arith` can be called on every pair of operands.
pub open spec fn arith_defined<A: Fn(Op, u64, u64) -> u64>(arith: A) -> bool {
    forall|op: Op, a: u64, b: u64| call_requires(arith, (op, a, b))
}

/// Whether `lift` can be called on every count.
pub open spec fn lift_defined<L: Fn(usize) -> u64>(lift: L) -> bool {
    forall|n: usize| call_requires(lift, (n,))
}

/// Whether `round` can be called on every double.
pub open spec fn round_defined<R: Fn(u64) -> i32>(round: R) -> bool {
    forall|x: u64| call_requires(round, (x,))
}

/// Whether `arith` gives one result for each pair of operands, as the
/// arithmetic of the machine does.
pub open spec fn arith_functional<A: Fn(Op, u64, u64) -> u64>(arith: A) -> bool {
    forall|op: Op, a: u64, b: u64, x: u64, y: u64|
        #![trigger computes(arith, op, a, b, x), computes(arith, op, a, b, y)]
        computes(arith, op, a, b, x) && computes(arith, op, a, b, y) ==> x == y
}

/// Whether `lift` gives one result for each count.
pub open spec fn lift_functional<L: Fn(usize) -> u64>(lift: L) -> bool {
    forall|n: usize, x: u64, y: u64|
        #![trigger lifts(lift, n, x), lifts(lift, n, y)]
        lifts(lift, n, x) && lifts(lift, n, y) ==> x == y
}

/// Whether `round` gives one result for each double.
pub open spec fn round_functional<R: Fn(u64) -> i32>(round: R) -> bool {
    forall|v: u64, x: i32, y: i32|
        #![trigger rounds(round, v, x), rounds(round, v, y)]
        rounds(round, v, x) && rounds(round, v, y) ==> x == y
}

/// Calls `arith` and records what it gave.
pub fn apply<A: Fn(Op, u64, u64) -> u64>(arith: &A, op: Op, a: u64, b: u64) -> (out: u64)
    requires
        arith_defined(*arith),
    ensures
        computes(*arith, op, a, b, out),
{
    arith(op, a, b)
}

/// Whether the sum at `t + 1` is the sum at `t` plus the value at `t`.
pub open spec fn is_sum_step<A: Fn(Op, u64, u64) -> u64>(
    sums: Seq<u64>,
    values: Seq<u64>,
    arith: A,
    t: int,
) -> bool {
    computes(arith, Op::Add, sums[t], values[t], sums[t + 1])
}

/// Whether `sums` are the running sums of the values, from zero on.
pub open spec fn is_running_sum<A: Fn(Op, u64, u64) -> u64>(
    sums: Seq<u64>,
    values: Seq<u64>,
    arith: A,
) -> bool {
    &&& sums.len() == values.len() + 1
    &&& sums[0] == ZERO_BITS
    &&& forall|t: int| 0 <= t < values.len() ==> #[trigger] is_sum_step(sums, values, arith, t)
}

/// Whether `total` is the sum of the values, added one by one to zero in
/// their order.
pub open spec fn is_total<A: Fn(Op, u64, u64) -> u64>(total: u64, values: Seq<u64>, arith: A) -> bool {
    exists|sums: Seq<u64>| #[trigger] is_running_sum(sums, values, arith) && sums.last() == total
}

/// Adds up the values, one by one from zero on, in their order.
pub fn total<A: Fn(Op, u64, u64) -> u64>(values: &[u64], arith: &A) -> (sum: u64)
    requires
        arith_defined(*arith),
    ensures
        is_total(sum, values@, *arith),
{
    let mut sum: u64 = ZERO_BITS;
    let ghost mut sums: Seq<u64> = seq![ZERO_BITS];
    let mut t: usize = 0;
    while t < values.len()
        invariant
            t <= values.len(),
            sums.len() == t + 1,
            sums[0] == ZERO_BITS,
            sums.last() == sum,
            arith_defined(*arith),
            forall|i: int| 0 <= i < t ==> #[trigger] is_sum_step(sums, values@, *arith, i),
        decreases values.len() - t,
    {
        let next = apply(arith, Op::Add, sum, values[t]);
        let ghost before = sums;
        proof {
            sums = sums.push(next);
            assert forall|i: int| 0 <= i < t + 1 implies #[trigger] is_sum_step(
                sums,
                values@,
                *arith,
                i,
            ) by {
                if i < t {
                    assert(is_sum_step(before, values@, *arith, i));
                }
            }
        }
        sum = next;
        t = t + 1;
    }
    proof {
        assert(is_running_sum(sums, values@, *arith));
    }
    sum
}

/// With arithmetic that gives one result for each pair of operands, the
/// running sums of the values are settled.
pub proof fn lemma_running_sum_unique<A: Fn(Op, u64, u64) -> u64>(
    first: Seq<u64>,
    second: Seq<u64>,
    values: Seq<u64>,
    arith: A,
    t: int,
)
    requires
        arith_functional(arith),
        is_running_sum(first, values, arith),
        is_running_sum(second, values, arith),
        0 <= t <= values.len(),
    ensures
        first[t] == second[t],
    decreases t,
{
    if t > 0 {
        lemma_running_sum_unique(first, second, values, arith, t - 1);
        assert(is_sum_step(first, values, arith, t - 1));
        assert(is_sum_step(second, values, arith, t - 1));
    }
}

/// With arithmetic that gives one result for each pair of operands, the sum
/// of the values is settled.
pub proof fn lemma_total_unique<A: Fn(Op, u64, u64) -> u64>(
    first: u64,
    second: u64,
    values: Seq<u64>,
    arith: A,
)
    requires
        arith_functional(arith),
        is_total(first, values, arith),
        is_total(second, values, arith),
    ensures
        first == second,
{
    let a = choose|sums: Seq<u64>| #[trigger] is_running_sum(sums, values, arith) && sums.last() == first;
    let b = choose|sums: Seq<u64>| #[trigger]
        is_running_sum(sums, values, arith) && sums.last() == second;
    lemma_running_sum_unique(a, b, values, arith, values.len() as int);
}

} // verus!
