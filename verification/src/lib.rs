//! Watches a stream of block execution data for transactions sent to a
//! configured set of accounts, correlates each matched transaction with its
//! resulting receipt, and produces one log record once the receipt's
//! execution outcome is known.

pub mod decode;
pub mod engine;
pub mod filter;
pub mod laws;
pub mod model;
pub mod state;
