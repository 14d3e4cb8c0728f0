//! Password breach lookup over a k-anonymity range service, and the state of
//! a small checker front end around it.
//!
//! Only the first five hex digits of a password's SHA-1 digest leave the
//! process; the service answers with every known suffix under that prefix
//! and the count of each, and the suffix is matched locally.
pub mod breach;
pub mod checker;
pub mod digest;
pub mod range;
pub mod strength;
