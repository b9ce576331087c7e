//! What holds of the tokenizer, the parser and the printer: laws that no
//! single function states, each proved from the definitions.
pub mod reading;
pub mod running;
pub mod soundness;
pub mod round_trip;
pub mod precedence;
pub mod balance;
pub mod content;
pub mod binding;
