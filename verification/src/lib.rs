//! Verified core of a mining-pool reward-claim workflow.
//!
//! The library covers everything between "the user has some claimable
//! balance" and "a claim request goes on the wire": decimal/grain amount
//! conversion, balance-sufficiency validation, yes/no confirmation
//! interpretation, classification of the pool's reply, and the single-pass
//! state machine that sequences those steps. Network and terminal I/O live
//! outside the library and feed it plain values.

pub mod amount;
pub mod confirm;
pub mod response;
pub mod validate;
pub mod workflow;

use vstd::prelude::*;

verus! {

/// Smallest indivisible unit of the reward token. All bound checks and
/// arithmetic happen in grains, never in the decimal display form.
pub type Grains = u64;

} // verus!
