//! Multicast DNS one-shot service discovery: the DNS wire codec and the
//! decisions of a one-shot query, with their contracts.
use vstd::prelude::*;

pub mod bytes;
pub mod decode;
pub mod error;
pub mod header;
pub mod name;
pub mod packet;
pub mod rdata;
pub mod resolver;

verus! {

} // verus!
