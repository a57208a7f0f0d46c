//! A plugin-first framework: plugins with metadata and lifecycle state, a
//! plugin manager that orders plugins by their dependencies, a typed resource
//! registry, an event bus with three priorities, and a message bus that
//! tracks which modules receive which message types.

pub mod error;
pub mod plugin;
pub mod plugin_manager;
pub mod table;
pub mod context;
pub mod message_bus;
pub mod info;
pub mod event;
pub mod module_registry;
pub mod cli;
pub mod application;
pub mod gui;

pub use error::{Result, VibeError};
