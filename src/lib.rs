//! Replication of a project's refs from a remote peer: the grammar of ref
//! names, the peek and fetch phases that decide what to ask for and what to
//! write, the transactions that write it, and the checks after it.
use vstd::prelude::*;

pub mod bytes;
pub mod refs;
pub mod transmit;
pub mod refdb;
pub mod peek;
pub mod for_clone;
pub mod for_fetch;
pub mod fetch;
pub mod internal;
pub mod net;
pub mod tracking;
pub mod keys;
pub mod remote;
pub mod args;

verus! {

} // verus!
