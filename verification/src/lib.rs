//! Symbol resolution core of a bytecode virtual machine: hierarchical
//! application domains holding exported script definitions and classes,
//! qualified-name and multiname lookup with parent delegation, generic
//! ("Vector.<T>") name specialization, and per-domain flat memory buffers.
//!
//! A companion subsystem models the dynamically-typed BitmapData host
//! object surface: argument coercion, disposal checks, and the pixel
//! operations reachable from it.

pub mod avm1;
pub mod bitmap;
pub mod bitmap_data;
pub mod bytearray;
pub mod context;
pub mod domain;
pub mod name;
pub mod property_map;
pub mod script;
pub mod util;
pub mod value;
