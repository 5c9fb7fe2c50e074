use vstd::prelude::*;

pub mod bits;
pub mod board;
pub mod tables;
pub mod laws;
pub mod notation;
pub mod text;
pub mod fen;
pub mod eval;
pub mod uci;
pub mod search;
pub mod display;
pub mod perft;
pub mod consistency;

verus! {

} // verus!
