//! Resolution of values nested inside dynamic object graphs.

pub mod laws;
pub mod model;
pub mod probe;
pub mod python;
pub mod resolve;
pub mod text;
