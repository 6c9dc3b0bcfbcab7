//! Search for keypairs whose public identifier matches a textual pattern.
pub mod args;
pub mod pattern;
pub mod engine;
pub mod keys;
