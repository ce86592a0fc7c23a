use vstd::prelude::*;

pub mod frecency;
pub mod interrupt;
pub mod registry;
pub mod import;
pub mod connection;

verus! {

} // verus!
