//! Preparation of a host for building a hypervisor and its firmware from
//! patched upstream sources: the device-listing parser, the patch engine and
//! the per-tree pipeline, all as verified logic on plain values.
//!
//! The library decides and computes; it reads no file, asks no operator and
//! runs no command. Callers hand it text and events, and carry out the
//! actions that it answers with.

pub mod commands;
pub mod environment;
pub mod number;
pub mod operator;
pub mod patch;
pub mod pci;
pub mod pipeline;
pub mod text;
pub mod tree;
