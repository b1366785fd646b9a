//! The integer kernels: a masked sum of squares and a looped benchmark,
//! both in wrapping 64-bit unsigned arithmetic.
use crate::modular::{
    lemma_shl_wraps, lemma_wrap_add, lemma_wrap_low_byte, lemma_wrap_mul, lemma_wrap_small,
    lemma_wrap_sub, lemma_wrapping_add, lemma_wrapping_mul, lemma_wrapping_sub, wrap,
};
use vstd::prelude::*;

verus! {

/// `x*x + y*y - 13`, taken modulo 256, plus one. Since 256 divides 2^64,
/// this is the low byte of the wrapped 64-bit value, plus one.
pub open spec fn square_sum_byte(x: u64, y: u64) -> int {
    (x * x + y * y - 13) % 256 + 1
}

/// Every result of the sum-of-squares kernel lies in `[1, 256]`.
pub proof fn lemma_square_sum_byte_range(x: u64, y: u64)
    ensures
        1 <= square_sum_byte(x, y) <= 256,
{
}

/// Squares `x` and `y`, adds them, subtracts 13, keeps the low byte and adds
/// one, all in wrapping 64-bit arithmetic.
#[allow(non_snake_case)]
pub fn x2_plus_y2_minus_13(x: u64, y: u64) -> (r: u64)
    ensures
        r as int == square_sum_byte(x, y),
        1 <= r <= 256,
{
    let x2 = x.wrapping_mul(x);
    let y2 = y.wrapping_mul(y);
    let s = x2.wrapping_add(y2).wrapping_sub(13);
    proof {
        lemma_wrapping_mul(x, x);
        lemma_wrapping_mul(y, y);
        lemma_wrapping_add(x2, y2);
        lemma_wrapping_sub(x2.wrapping_add(y2), 13);
        lemma_wrap_add(x * x, y2 as int);
        lemma_wrap_add(y * y, x * x);
        lemma_wrap_add(x * x + y * y, -13);
        assert(s == wrap(x * x + y * y - 13));
        lemma_wrap_low_byte(x * x + y * y - 13);
        assert(s & 0xff == s % 256) by (bit_vector);
    }
    (s & 0xff) + 1
}

/// The per-round value `y = (input * x / 3) * 2` of the looped benchmark.
pub open spec fn round_y(input: u64, x: int) -> u64 {
    wrap((wrap(input * x) as int / 3) * 2)
}

/// A grouped term `((x * m) / d + y) << s`, written with `scale == 2^s`:
/// the shift applies to the whole sum, not to `y` alone.
pub open spec fn grouped_term(x: int, y: u64, m: int, d: int, scale: int) -> u64 {
    wrap((wrap(x * m) as int / d + y) * scale)
}

/// The accumulator after the round with counter `x`, starting from `out`.
pub open spec fn benchmark_round(input: u64, x: int, out: u64) -> u64 {
    let y = round_y(input, x);
    let grouped = grouped_term(x, y, 4, 3, 8) + grouped_term(x, y, 5, 2, 2) + grouped_term(
        x,
        y,
        6,
        6,
        2048,
    );
    let correction = if x > 5 {
        2 * y - 1
    } else {
        0
    };
    wrap(out + (wrap((input + 13) * input) & 0x66ff) - x + (y & 9) + 3 * grouped - correction)
}

/// The result of the looped benchmark after `n` rounds, counters `0..n` in
/// ascending order, starting from `input + 2`.
pub open spec fn benchmark(n: nat, input: u64) -> u64
    decreases n,
{
    if n == 0 {
        wrap(input + 2)
    } else {
        benchmark_round(input, n - 1, benchmark((n - 1) as nat, input))
    }
}

/// With no rounds the benchmark returns `input + 2`, wrapped.
pub proof fn lemma_benchmark_no_rounds(input: u64)
    ensures
        benchmark(0, input) == wrap(input + 2),
{
}

/// The benchmark is a function of its arguments: two runs with the same
/// round count and input give the same result.
pub proof fn lemma_benchmark_deterministic(n: nat, input: u64, r1: u64, r2: u64)
    requires
        r1 == benchmark(n, input),
        r2 == benchmark(n, input),
    ensures
        r1 == r2,
{
}

/// Adds `t` to `acc` with wrapping, where `acc` holds the wrapped value of `sum`.
fn add_wrapped(acc: u64, t: u64, Ghost(sum): Ghost<int>) -> (r: u64)
    requires
        acc == wrap(sum),
    ensures
        r == wrap(sum + t),
{
    proof {
        lemma_wrapping_add(acc, t);
        lemma_wrap_add(sum, t as int);
    }
    acc.wrapping_add(t)
}

/// Computes `((x * m) / d).wrapping_add(y) << s` for the three groupings the
/// benchmark uses.
fn grouped(x: u64, y: u64, m: u64, d: u64, s: u64) -> (r: u64)
    requires
        (m == 4 && d == 3 && s == 3) || (m == 5 && d == 2 && s == 1) || (m == 6 && d == 6 && s
            == 11),
    ensures
        r == grouped_term(x as int, y, m as int, d as int, if s == 3 {
            8
        } else if s == 1 {
            2
        } else {
            2048
        }),
{
    let v = (x.wrapping_mul(m) / d).wrapping_add(y);
    proof {
        lemma_wrapping_mul(x, m);
        lemma_wrapping_add(x.wrapping_mul(m) / d, y);
        lemma_shl_wraps(v);
        lemma_wrap_mul(wrap(x * m) / d + y, 8);
        lemma_wrap_mul(wrap(x * m) / d + y, 2);
        lemma_wrap_mul(wrap(x * m) / d + y, 2048);
    }
    v << s
}

/// One round of the looped benchmark with counter `x`.
fn run_round(input: u64, x: u64, out: u64) -> (r: u64)
    ensures
        r == benchmark_round(input, x as int, out),
{
    let y = (input.wrapping_mul(x) / 3).wrapping_mul(2);
    let masked = input.wrapping_add(13).wrapping_mul(input) & 0x66ff;
    let a = grouped(x, y, 4, 3, 3);
    let b = grouped(x, y, 5, 2, 1);
    let c = grouped(x, y, 6, 6, 11);
    proof {
        lemma_wrapping_mul(input, x);
        lemma_wrapping_mul(input.wrapping_mul(x) / 3, 2);
        lemma_wrapping_add(input, 13);
        lemma_wrapping_mul(input.wrapping_add(13), input);
        lemma_wrap_mul(input + 13, input as int);
        lemma_wrap_small(out as int);
    }
    let ghost mut sum: int = out as int;
    let mut acc = out;
    let step = masked.wrapping_sub(x);
    proof {
        lemma_wrapping_sub(masked, x);
    }
    acc = add_wrapped(acc, step, Ghost(sum));
    proof {
        lemma_wrap_add(masked - x, sum);
        sum = sum + masked - x;
    }
    acc = add_wrapped(acc, y & 0x9, Ghost(sum));
    proof {
        sum = sum + (y & 0x9);
    }
    acc = add_wrapped(acc, a, Ghost(sum));
    proof { sum = sum + a; }
    acc = add_wrapped(acc, b, Ghost(sum));
    proof { sum = sum + b; }
    acc = add_wrapped(acc, c, Ghost(sum));
    proof { sum = sum + c; }
    acc = add_wrapped(acc, a, Ghost(sum));
    proof { sum = sum + a; }
    acc = add_wrapped(acc, b, Ghost(sum));
    proof { sum = sum + b; }
    acc = add_wrapped(acc, c, Ghost(sum));
    proof { sum = sum + c; }
    acc = add_wrapped(acc, a, Ghost(sum));
    proof { sum = sum + a; }
    acc = add_wrapped(acc, b, Ghost(sum));
    proof { sum = sum + b; }
    acc = add_wrapped(acc, c, Ghost(sum));
    proof { sum = sum + c; }
    if x > 5 {
        let d = y.wrapping_mul(2).wrapping_sub(1);
        proof {
            lemma_wrapping_mul(y, 2);
            lemma_wrapping_sub(y.wrapping_mul(2), 1);
            lemma_wrap_add(y * 2, -1);
            lemma_wrapping_sub(acc, d);
            lemma_wrap_add(sum, -(d as int));
            lemma_wrap_sub(sum, 2 * y - 1);
        }
        acc = acc.wrapping_sub(d);
    }
    acc
}

/// The looped integer benchmark: starting from `input + 2`, runs one round
/// for each counter `x` in `0..n`, in ascending order, all in wrapping
/// 64-bit arithmetic.
#[allow(non_snake_case)]
pub fn loopedArithmeticI64Benchmark(n: u64, input: u64) -> (r: u64)
    ensures
        r == benchmark(n as nat, input),
{
    let mut out = input.wrapping_add(2);
    proof {
        lemma_wrapping_add(input, 2);
    }
    let mut x: u64 = 0;
    while x < n
        invariant
            x <= n,
            out == benchmark(x as nat, input),
        decreases n - x,
    {
        out = run_round(input, x, out);
        x = x + 1;
    }
    out
}

} // verus!
