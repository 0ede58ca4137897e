//! A sandbox host for small analysis plugins: a read-only in-memory
//! filesystem, a bounds- and alias-checked view of guest memory, and the
//! system calls a guest interpreter needs to read its script and one input
//! file and to print a result. With it come the registry of the plugins and
//! the rules of the catalog of songs that the plugins are run on.

pub mod errno;
pub mod borrow;
pub mod memory;
pub mod path;
pub mod tree;
pub mod fs;
pub mod iovec;
pub mod syscalls;
pub mod abi;
pub mod dispatch;
pub mod plugin;
pub mod registry;
pub mod catalog;
