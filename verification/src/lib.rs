//! Flock, an index cooperative on Solana: the verified core of its program.
//!
//! One account per index. An index holds a fixed table of token components in vaults it owns,
//! mints a 9-decimal token backed by them, and moves between compositions through a
//! permissionless Dutch auction rather than a privileged swap.

pub mod error;
pub mod math;
pub mod layout;
pub mod state;
pub mod instruction;
pub mod guards;
pub mod processor;
pub mod builders;
