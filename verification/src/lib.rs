//! Argument marshalling, entry-code synthesis and result decoding for
//! programs run on the Cairo virtual machine in proof mode.
//!
//! A run of a program's main function goes through the modules in this
//! order:
//!
//! - [`args`] reads the arguments from their text ([`render`] proves that
//!   reading undoes writing);
//! - [`builtins`] finds the builtins that the function requires and their
//!   frame offsets;
//! - [`entry`] synthesizes the entry code that places arguments, builtin
//!   pointers and resources on the stack and calls the function
//!   ([`entry_laws`] proves what holds of it), over the instructions of
//!   [`casm`];
//! - [`frame`] puts the program together and lists its hints by offset;
//! - [`driver`] finds the main function and prepares the engine's memory;
//! - [`decode`] extracts what the function returned, tells a panic from a
//!   result and rebuilds arrays from the engine's memory.
//!
//! [`felt`] holds the scalars of the machine, [`memory`] the addresses and
//! words of the engine and the operations of the engine that are used,
//! [`text`] tests on names, and [`error`] the failures.
//!
//! Every function is verified against its contract. What is taken on trust
//! of the engine and of the scalar type is stated at the wrappers in
//! [`felt`], [`memory`] and [`driver`].

pub mod args;
pub mod builtins;
pub mod casm;
pub mod decode;
pub mod driver;
pub mod entry;
pub mod entry_laws;
pub mod error;
pub mod felt;
pub mod frame;
pub mod memory;
pub mod render;
pub mod text;
