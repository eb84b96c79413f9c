//! The later revision of the language: exact decimals, ternary digits, and the
//! richer error and type-kind vocabulary.
pub mod error;
pub mod decimal;
pub mod decimal_order;
pub mod qkt;
pub mod types;
pub mod builtins;
pub mod document;
pub mod source;
pub mod report;
