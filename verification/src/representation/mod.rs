//! The in-memory model of an AON document.

pub mod decimal;
pub mod value;

pub use value::{Number, NumberView, Value, ValueView};
