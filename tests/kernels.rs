use arith_kernels::{loopedArithmeticI64Benchmark, x2_plus_y2_minus_13};

#[test]
fn square_sum_of_zeros_wraps_below_zero() {
    // 0 + 0 - 13 wraps to 2^64 - 13, whose low byte is 243.
    assert_eq!(x2_plus_y2_minus_13(0, 0), 244);
}

#[test]
fn square_sum_of_three_and_four() {
    assert_eq!(x2_plus_y2_minus_13(3, 4), 13);
}

#[test]
fn square_sum_with_wrapping_squares() {
    // (2^64 - 1)^2 is 1 modulo 2^64, so the sum is 2 - 13.
    assert_eq!(x2_plus_y2_minus_13(u64::MAX, u64::MAX), 246);
    // (2^32)^2 wraps to 0.
    assert_eq!(x2_plus_y2_minus_13(1 << 32, 0), 244);
    assert_eq!(x2_plus_y2_minus_13(1, 2), 249);
}

#[test]
fn square_sum_stays_in_range() {
    let samples: [u64; 8] = [0, 1, 2, 3, 13, 255, 1 << 40, u64::MAX];
    for &x in samples.iter() {
        for &y in samples.iter() {
            let r = x2_plus_y2_minus_13(x, y);
            assert!(1 <= r && r <= 256, "x = {}, y = {}, r = {}", x, y, r);
        }
    }
}

#[test]
fn square_sum_at_zero_and_just_below() {
    // 4 + 9 - 13 = 0 gives the smallest result; 0 + 4 - 13 wraps.
    assert_eq!(x2_plus_y2_minus_13(2, 3), 1);
    assert_eq!(x2_plus_y2_minus_13(0, 2), 248);
    assert_eq!(x2_plus_y2_minus_13(2, 2), 252);
    assert_eq!(x2_plus_y2_minus_13(0, 3), 253);
}

#[test]
fn benchmark_without_rounds_adds_two() {
    assert_eq!(loopedArithmeticI64Benchmark(0, 0), 2);
    assert_eq!(loopedArithmeticI64Benchmark(0, 5), 7);
    assert_eq!(loopedArithmeticI64Benchmark(0, u64::MAX), 1);
    assert_eq!(loopedArithmeticI64Benchmark(0, u64::MAX - 1), 0);
}

#[test]
fn benchmark_is_deterministic() {
    for n in 0..12u64 {
        for input in [0u64, 1, 7, 1 << 33, u64::MAX] {
            assert_eq!(
                loopedArithmeticI64Benchmark(n, input),
                loopedArithmeticI64Benchmark(n, input)
            );
        }
    }
}

#[test]
fn benchmark_single_round() {
    assert_eq!(loopedArithmeticI64Benchmark(1, 0), 2);
    assert_eq!(loopedArithmeticI64Benchmark(1, 1), 17);
}

#[test]
fn benchmark_shift_applies_to_the_whole_sum() {
    // With n = 2 and input = 1 the round x = 1 has y = 0 and (x * 4) / 3 = 1,
    // so the grouping ((x * 4) / 3 + y) << 3 gives 8 where (x * 4) / 3 + (y << 3)
    // would give 1. The grouped reading yields 6210, the other one 42.
    let r = loopedArithmeticI64Benchmark(2, 1);
    assert_eq!(r, 6210);
    assert_ne!(r, 42);
}

#[test]
fn benchmark_several_rounds() {
    assert_eq!(loopedArithmeticI64Benchmark(3, 7), 93068);
    assert_eq!(loopedArithmeticI64Benchmark(10, 3), 834524);
    assert_eq!(loopedArithmeticI64Benchmark(20, 123456789), 96519465342791);
    assert_eq!(loopedArithmeticI64Benchmark(100, 42), 886080736);
}

#[test]
fn benchmark_wraps_with_largest_input() {
    assert_eq!(
        loopedArithmeticI64Benchmark(7, u64::MAX),
        12297829382473237747
    );
}
