//! The verified core of a runner for software isolated processes.
//!
//! A process is a WebAssembly module that is compiled to machine code and run in place. This crate
//! keeps the books of that: what a module declares, how its globals, tables and memories are laid
//! out, where compiled code refers to other functions, and which step of a run comes next.
pub mod bytes;
pub mod entities;
pub mod execute;
pub mod func_indices;
pub mod globals;
pub mod guest;
pub mod logging;
pub mod module;
pub mod names;
pub mod session;
pub mod standalone;
pub mod target;
