//! Client-side engine for a key-value document store: value marshalling
//! between a dynamic native representation and the store's tagged attribute
//! encoding, expression building, error classification, and the pure decision
//! logic of batched and transactional operations.

pub mod batch;
pub mod codec;
pub mod errors;
pub mod expr;
pub mod kms;
pub mod numtext;
pub mod ops;
pub mod strutil;
pub mod transact;
pub mod value;

