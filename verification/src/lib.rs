//! Traces calls to a function in a running Windows process.
//!
//! A breakpoint instruction is planted on the function, and the process is debugged: each thread
//! that runs into the breakpoint is reported with its registers, its return address and the top of
//! its stack, and then sent over the original instruction. No code is injected.
//!
//! This library holds everything that the tracer decides and computes. It makes no system call:
//! [`session::Session`] says what is to be done next and takes the answer.
pub mod bytes;
pub mod context;
pub mod hex;
pub mod laws;
pub mod memory;
pub mod module;
pub mod report;
pub mod session;
pub mod steps;
pub mod target;
pub mod text;
mod win32;
