//! The core of an eMARS: a deterministic virtual machine in which Redcode
//! warriors compete inside a shared circular memory.

pub mod arith;
pub mod instruction;
pub mod memory;
pub mod execute;
pub mod scheduler;
pub mod loader;
pub mod laws;
pub mod render;
