//! WASI host support for procedural macros that run as WebAssembly modules.
//!
//! The crate decides everything that a guest can observe: which imports a module may have,
//! what each host function does to the guest's stack and memory, which files a guest may
//! reach, and how the host's answers are turned into WASI error numbers. It performs no input
//! or output of its own; wherever the host has to act, a function hands out a request and a
//! second function takes the host's answer.
pub mod data;
pub mod errno;
pub mod files;
pub mod guarantees;
pub mod import;
pub mod import_wasi_p1;
pub mod import_wasi_p2_core;
pub mod interpret;
pub mod memory;
pub mod module_support;
pub mod order;
pub mod path;
pub mod policy;
pub mod random;
pub mod readdir;
pub mod resolve;
pub mod runtime;
pub mod sym;
pub mod text;
pub mod wasi_ctx;
