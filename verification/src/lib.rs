//! Unary (Peano) natural-number arithmetic.
//!
//! A natural number is represented as nested successor layers around a
//! zero base case. The operations — construction from and conversion to
//! machine integers, addition, floor-clamped subtraction, multiplication,
//! parity tests, comparison, and quotient-only division — are exact,
//! pure, structural recursions over immutable values, each carrying a
//! contract that pins its result down to the value it stands for.

pub mod peano;
