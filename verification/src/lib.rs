//! Core of an event-model diagram generator.
//!
//! An event model is written in a small line-oriented notation: each line
//! declares a node (a command, aggregate, event, or policy) or a directed
//! link between two previously declared nodes.  This library parses such a
//! document into a validated graph ([`data_model::DataModel`]) and assigns
//! deterministic geometry to the graph ([`layout::create_layout`]).  Reading
//! the input, command-line handling, and serializing the drawing are left to
//! the surrounding application.

pub mod data_model;
pub mod grammar;
pub mod layout;
pub mod renderer;
