//! Resolution of hierarchical taskfile documents into a flat, ordered task
//! list, together with the pure decision logic of the surrounding
//! task-selection application.

pub mod document;
pub mod laws;
pub mod locate;
pub mod order;
pub mod output;
pub mod parser;
pub mod resolve;
pub mod select;
pub mod text;
