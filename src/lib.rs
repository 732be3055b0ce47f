use vstd::prelude::*;

pub mod game;
pub mod laws;
pub mod msg;
pub mod player;

verus! {

} // verus!
