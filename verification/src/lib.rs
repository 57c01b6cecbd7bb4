use vstd::prelude::*;

pub mod app;
pub mod classagg;
pub mod dump;
pub mod events;
pub mod graph;
pub mod heap;
pub mod names;
pub mod objid;
pub mod parser;
pub mod retained;
pub mod segment;
pub mod sort;
pub mod text;
pub mod ui;
pub mod utf8len;

verus! {

} // verus!

