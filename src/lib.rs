//! A registry of asset weights held for a single curator.
//!
//! The curator is registered once, against a storage deposit. After that the
//! curator alone may change the weights, a batch at a time, and a batch is
//! accepted only if the weights of all held assets then sum to exactly
//! 10000 basis points.

pub mod fund;
pub mod model;

pub use fund::{AssetHolding, AssetWeight, FundError, IndexFund};
