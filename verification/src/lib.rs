//! A ledger of unspent transaction outputs.
//!
//! The ledger maps output identifiers to unspent outputs and keeps a pool of
//! collected fees. A transaction is validated against the ledger, applied to
//! it, and the pool is periodically split among a set of authorities.
//! Every executable function carries a contract over the mathematical view of
//! the data it works on. The contracts are proved, with five exceptions: the
//! private functions that call into `parity_scale_codec`, `sp_runtime` and
//! `sp_core` have contracts that are believed, and what is proved of their
//! callers rests on them.

pub mod transaction;
pub mod encoding;
pub mod order;
pub mod hashing;
pub mod authorization;
pub mod ledger;
pub mod reward;
pub mod validation;
pub mod mutation;
pub mod genesis;
pub mod laws;

pub use transaction::{Transaction, TransactionInput, TransactionOutput, TransactionView, Value, H256, H512};
pub use ledger::{Entry, Ledger, LedgerView};
pub use validation::RejectReason;
pub use mutation::{InternalError, SpendError};
