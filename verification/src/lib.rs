//! Verified core of a stand-alone runtime that talks to the Linux kernel without libc:
//! the start-up stack layout, the decisions around file system calls, a heap that grows
//! and shrinks the program break, and the byte routines that compiled code expects.
pub mod abi;
pub mod fs;
pub mod mem;
pub mod support;
pub mod syscall;
pub mod util;

pub use abi::AbiContext;
