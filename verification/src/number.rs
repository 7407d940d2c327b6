//! Numbers beyond machine integers.

pub mod arith;
pub mod bignat;
pub mod decimals;
pub mod double;
pub mod exact;
pub mod fixed;
pub mod order;
pub mod parse;
pub mod round_trip;
pub mod shortest;
pub mod whole;
