//! Proof-of-custody bookkeeping for off-chain stored data: chunk arithmetic,
//! the per-block transaction index, the authorization ledger and the per-block
//! proof check.

pub mod chunks;
pub mod crypto;
pub mod error;
pub mod index;
pub mod ledger;
pub mod pallet;

pub use chunks::num_chunks;
pub use error::Error;
pub use index::TransactionInfo;
pub use ledger::AuthorizationExtent;
pub use pallet::{Config, Event, Pallet};
