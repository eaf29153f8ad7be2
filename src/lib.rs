use vstd::prelude::*;

pub mod codec;
pub mod errors;
pub mod frame;
pub mod policy;
pub mod rotation;

verus! {

} // verus!
