//! A single-node proof-of-work ledger: accounts, value transfers, blocks sealed
//! by a brute-force nonce search, and validation of the resulting chain.
//!
//! Every function is verified against a contract stated over the views of the
//! data: a transaction, a block and a blockchain each have a mathematical
//! counterpart (`TransactionView`, `BlockView`, `BlockchainView`), and the
//! world state is a sequence of `AccountView`s without duplicate addresses.
//! SHA-256 itself is taken on trust, under the name [`digest::sha256`].

pub mod block;
pub mod chain;
pub mod clock;
pub mod digest;
pub mod encoding;
pub mod error;
pub mod state;
pub mod transaction;

pub use block::Block;
pub use chain::{Blockchain, Rejection};
pub use error::Error;
pub use state::{Account, WorldState};
pub use transaction::Transaction;
