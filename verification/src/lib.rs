//! Host-resident agent core: command authorization, execution, and an
//! encrypted, bounded audit trail.
//!
//! The crate verifies the logic that decides whether a remotely issued
//! command is authentic, fresh, permitted and within its rate budget, and
//! the bookkeeping that records every decision. Platform side effects
//! (locking the screen, file and network I/O) stay outside the library and
//! are driven through the contracts exposed here.

use vstd::prelude::*;

pub mod codec;
pub mod commands;
pub mod config;
pub mod crypto;
pub mod protocol;
pub mod ratelimit;
pub mod storage;
pub mod strutil;
pub mod textfmt;

verus! {

} // verus!
