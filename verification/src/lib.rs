use vstd::prelude::*;

pub mod errors;
pub mod events;
pub mod types;
pub mod utils;
pub mod blend;
pub mod block;
pub mod common;
pub mod compiling;
pub mod executing;

verus! {

} // verus!
