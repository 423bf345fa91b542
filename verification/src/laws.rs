//! What the operations are for, said of their inputs and results alone.

pub mod logs;
pub mod reading;
pub mod requests;
pub mod rows;
pub mod runs;
pub mod selection;
