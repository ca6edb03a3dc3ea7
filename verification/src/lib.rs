//! A small library for managing a playground of practice projects.
//!
//! Projects live in two category directories (temporary and kept) under a
//! single root in the user's home directory. The library computes paths,
//! allocates sequence numbers for auto-named projects, derives project
//! names, lists and filters existing projects, and decides what each
//! command should do. All filesystem reads and writes, process
//! invocations and interactive input are left to the caller, which hands
//! the library plain values.

pub mod cli;
pub mod commands;
pub mod config;
pub mod errors;
pub mod registry;
pub mod text;
