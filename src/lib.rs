//! A record service on a ledger: each owner publishes short introduction
//! records (a name and a message) stored at addresses derived from the owner
//! and the name, and is rewarded with freshly minted tokens on creation.

pub mod address;
pub mod state;
pub mod program;
pub mod laws;
pub mod layout;
