//! Fixed-width arithmetic kernels with exact wrapping semantics.
pub mod kernels;
pub mod modular;

pub use kernels::x2_plus_y2_minus_13;
pub use kernels::loopedArithmeticI64Benchmark;
