//! A commitment-deposit primitive. A creator locks lamports behind a promise
//! record until a deadline: fulfilled in time, the deposit returns to the
//! creator; left to lapse, it is forfeited to a fixed protocol authority. A
//! self promise is fulfilled by its creator alone; a partner promise needs the
//! named counterparty to confirm. Records live at addresses derived from
//! their seed tuples, so a record can only ever be addressed by whoever knows
//! the exact terms it was created under.

use vstd::prelude::*;

pub mod alist;
pub mod engine;
pub mod errors;
pub mod laws;
pub mod partner_ixs;
pub mod pda;
pub mod seeds;
pub mod self_ixs;
pub mod state;

verus! {

/// Minimum escrow deposit, in lamports.
pub const MIN_DEPOSIT: u64 = 10_000_000;

/// One whole unit of the native token, in lamports.
pub const LAMPORTS_PER_SOL: u64 = 1_000_000_000;

/// Flat fee paid to the protocol authority at creation: 0.5% of one whole unit.
pub const FEE_TO_AUTHOR: u64 = LAMPORTS_PER_SOL / 200;

} // verus!
