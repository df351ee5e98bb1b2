//! Storage backends for quantity magnitudes.
//!
//! A storage type decides how the numeric value of a quantity is kept in
//! memory and how its arithmetic behaves. The backend here keeps values as
//! exact rational numbers, which eliminates rounding error entirely;
//! floating-point backends trade that exactness for speed and live outside
//! the verified core.

pub mod rational;

pub use rational::RationalStorage;
