//! Host-side core of a plugin-driven narrative runtime.
//!
//! A host runs plugins, which are modules that were compiled on their own, and
//! a small script language that calls into them. This crate holds what the host
//! decides, and proves it with Verus:
//!
//! - [`value`] and [`integer`]: the values of scripts, with integers of any
//!   size, and [`ops`]: the operators on them;
//! - [`wire`]: the encoding in which values cross the boundary between the host
//!   and a module;
//! - [`abi`] and [`host`]: the calling convention, and a call into a module
//!   step by step, asynchronous methods included;
//! - [`plugin_type`] and [`registry`]: what plugins can do, and the registry
//!   that a load builds;
//! - [`ast`] and [`script`]: the syntax trees of scripts and their evaluation;
//! - [`bindings`], [`settings`] and [`native`]: the other types that the host,
//!   the plugins and the front ends exchange;
//! - [`map`] and [`text`]: maps from names to values, and small questions about
//!   texts.
//!
//! Running a module, reading files and writing the log are not done here. Where
//! a decision needs such work, a state machine names the work as an action, and
//! the caller reports what came of it as an event.

pub mod abi;
pub mod ast;
pub mod bindings;
pub mod host;
pub mod integer;
pub mod map;
pub mod native;
pub mod ops;
pub mod plugin_type;
pub mod registry;
pub mod script;
pub mod settings;
pub mod text;
pub mod value;
pub mod wire;
