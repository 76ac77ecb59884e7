//! Core of a delegated proof-of-stake scheme: a bonding ledger that maps
//! stash accounts to locked stake, and a validator selector that ranks the
//! bonded accounts by stake at each session boundary.

pub mod ledger;
pub mod pallet;
pub mod selection;


