//! The run-time side of the language: values, variable scopes and the laws
//! the scopes keep, and the errors evaluation stops with.

pub mod environment;
pub mod error;
pub mod operators;
pub mod scope_laws;
pub mod value;
pub mod value_laws;

pub use environment::Environment;
pub use error::RuntimeError;
pub use value::{Value, ValueKind};
