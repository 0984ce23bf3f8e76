//! A toy banking backend split into payment and account modules.

pub mod accounts;
pub mod payments;
