//! The pool instructions: what each decides, given the pool and its arguments.

pub mod add_liquidity;
pub mod initialize;
pub mod remove_liquidity;
pub mod swap;
