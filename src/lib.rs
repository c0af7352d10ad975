//! Verified core of a set of small 2D simulations: the grass growth grid and
//! the `key=value` argument lookup that every program shares.
pub mod args;
pub mod grass;
mod random;
