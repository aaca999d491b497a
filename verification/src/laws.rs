//! What the operations are for: relations between their inputs and results
//! that hold of every input, whatever way the results are computed.

pub mod board;
pub mod combining;
pub mod folders;
pub mod launch;
pub mod lists;
pub mod names;
pub mod overrides;
pub mod passes;
pub mod pictures;
pub mod prepared;
pub mod proposals;
pub mod records;
pub mod rows;
pub mod running;
pub mod times;
